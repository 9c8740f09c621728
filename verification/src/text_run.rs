//! Splitting a text run into its indivisible pieces: the maximal
//! whitespace-free substrings, in order.  Line breaking may cut a run only
//! between such pieces, never inside one.

use vstd::prelude::*;
use crate::box_slice::{BoxSlice, lemma_trimmed_left_at, trimmed_left};
use crate::style::is_whitespace_char;

verus! {

/// The position of the first blank character of `s`, or `s.len()` when
/// there is none.
pub open spec fn first_blank(s: Seq<char>) -> int
    decreases s.len(),
{
    if s.len() == 0 {
        0
    } else if is_whitespace_char(s[0]) {
        0
    } else {
        1 + first_blank(s.subrange(1, s.len() as int))
    }
}

/// `first_blank` lies in range, everything before it is non-blank, and the
/// character at it (if any) is blank.
pub proof fn lemma_first_blank_props(s: Seq<char>)
    ensures
        0 <= first_blank(s) <= s.len(),
        forall|j: int| 0 <= j < first_blank(s) ==> !is_whitespace_char(#[trigger] s[j]),
        first_blank(s) < s.len() ==> is_whitespace_char(s[first_blank(s)]),
    decreases s.len(),
{
    if s.len() > 0 && !is_whitespace_char(s[0]) {
        let tail = s.subrange(1, s.len() as int);
        lemma_first_blank_props(tail);
        assert forall|j: int| 0 <= j < first_blank(s) implies !is_whitespace_char(s[j]) by {
            if j > 0 {
                assert(s[j] == tail[j - 1]);
            }
        }
    }
}

/// A position with only non-blanks before it and a blank (or the end) at
/// it is exactly `first_blank`.
pub proof fn lemma_first_blank_at(s: Seq<char>, k: int)
    requires
        0 <= k <= s.len(),
        forall|j: int| 0 <= j < k ==> !is_whitespace_char(#[trigger] s[j]),
        k < s.len() ==> is_whitespace_char(s[k]),
    ensures
        first_blank(s) == k,
    decreases k,
{
    if k > 0 {
        let tail = s.subrange(1, s.len() as int);
        lemma_first_blank_at(tail, k - 1);
    }
}

/// The indivisible pieces of `s`: drop leading whitespace, take the run up
/// to the next blank as one piece, and continue behind it.
pub open spec fn indivisible_pieces(s: Seq<char>) -> Seq<Seq<char>>
    decreases s.len(),
        via indivisible_pieces_decreases
{
    let t = trimmed_left(s);
    if t.len() == 0 {
        Seq::empty()
    } else {
        let k = first_blank(t);
        seq![t.subrange(0, k)] + indivisible_pieces(t.subrange(k, t.len() as int))
    }
}

/// The trimmed text is a suffix of the original, and starts with a
/// non-blank character when it is non-empty.
pub proof fn lemma_trimmed_left_props(s: Seq<char>)
    ensures
        trimmed_left(s).len() <= s.len(),
        trimmed_left(s).len() > 0 ==> !is_whitespace_char(trimmed_left(s)[0]),
    decreases s.len(),
{
    if s.len() > 0 && is_whitespace_char(s[0]) {
        lemma_trimmed_left_props(s.subrange(1, s.len() as int));
    }
}

#[via_fn]
proof fn indivisible_pieces_decreases(s: Seq<char>) {
    lemma_trimmed_left_props(s);
    let t = trimmed_left(s);
    if t.len() > 0 {
        lemma_first_blank_props(t);
        assert(first_blank(t) >= 1);
    }
}

/// Trimming is idempotent, so a text that already starts with a non-blank
/// character has the same pieces as its untrimmed original.
pub proof fn lemma_pieces_of_trimmed(s: Seq<char>)
    ensures
        indivisible_pieces(trimmed_left(s)) == indivisible_pieces(s),
{
    lemma_trimmed_left_props(s);
    assert(trimmed_left(trimmed_left(s)) == trimmed_left(s));
}

/// All the indivisible pieces of `text`, in order, as slices of the same
/// full text.
pub fn indivisible_slices(text: &BoxSlice) -> (r: Vec<BoxSlice>)
    requires
        text.wf(),
    ensures
        r@.map_values(|b: BoxSlice| b.text()) == indivisible_pieces(text.text()),
        forall|i: int| 0 <= i < r@.len() ==> (#[trigger] r@[i]).wf(),
{
    let not_blank = |c: char| -> (b: bool)
        ensures
            b == !is_whitespace_char(c),
        {
            !(c == ' ' || c == '\t' || c == '\n' || c == '\r')
        };
    let blank = |c: char| -> (b: bool)
        ensures
            b == is_whitespace_char(c),
        {
            c == ' ' || c == '\t' || c == '\n' || c == '\r'
        };

    let mut out: Vec<BoxSlice> = Vec::new();
    let mut curr: BoxSlice = text.slice(0, text.len());
    proof {
        assert(curr.text() =~= text.text());
    }
    loop
        invariant_except_break
            out@.map_values(|b: BoxSlice| b.text()) + indivisible_pieces(curr.text())
                =~= indivisible_pieces(text.text()),
        invariant
            forall|c: char| #[trigger] call_requires(not_blank, (c,)),
            forall|c: char| #[trigger] call_requires(blank, (c,)),
            forall|c: char, b: bool| #[trigger] call_ensures(not_blank, (c,), b) ==> b
                == !is_whitespace_char(c),
            forall|c: char, b: bool| #[trigger] call_ensures(blank, (c,), b) ==> b
                == is_whitespace_char(c),
            curr.wf(),
            forall|i: int| 0 <= i < out@.len() ==> (#[trigger] out@[i]).wf(),
        ensures
            out@.map_values(|b: BoxSlice| b.text()) =~= indivisible_pieces(text.text()),
            forall|i: int| 0 <= i < out@.len() ==> (#[trigger] out@[i]).wf(),
        decreases curr.text().len(),
    {
        let ghost entry_text = curr.text();
        match curr.find(not_blank) {
            Some(idx) => {
                proof {
                    lemma_trimmed_left_at(curr.text(), idx as int);
                }
                curr = curr.slice(idx, curr.len());
                proof {
                    lemma_pieces_of_trimmed(entry_text);
                    assert(curr.text() == trimmed_left(entry_text));
                }
            },
            None => {
                // Only whitespace is left: no further piece.
                proof {
                    lemma_trimmed_left_at(curr.text(), curr.text().len() as int);
                    assert(trimmed_left(curr.text()) =~= Seq::<char>::empty());
                }
                break;
            },
        }
        // Here curr is trimmed: its first character is not blank.
        match curr.find(blank) {
            Some(idx) => {
                proof {
                    lemma_first_blank_at(curr.text(), idx as int);
                }
                let piece = curr.slice(0, idx);
                let ghost out_before = out@;
                let ghost curr_text = curr.text();
                out.push(piece);
                curr = curr.slice(idx, curr.len());
                proof {
                    assert(trimmed_left(curr_text) == curr_text);
                    assert(curr.text() =~= curr_text.subrange(idx as int, curr_text.len() as int));
                    assert(piece.text() =~= curr_text.subrange(0, idx as int));
                    assert(out@.map_values(|b: BoxSlice| b.text()) =~= out_before.map_values(
                        |b: BoxSlice| b.text(),
                    ).push(piece.text()));
                }
            },
            None => {
                proof {
                    reveal_with_fuel(indivisible_pieces, 2);
                    lemma_first_blank_at(curr.text(), curr.text().len() as int);
                    assert(trimmed_left(curr.text()) == curr.text());
                    let t = curr.text();
                    assert(t.len() > 0);
                    assert(t.subrange(0, t.len() as int) =~= t);
                    assert(t.subrange(t.len() as int, t.len() as int) =~= Seq::<char>::empty());
                    assert(trimmed_left(Seq::<char>::empty()) =~= Seq::<char>::empty());
                    assert(indivisible_pieces(t) =~= seq![t]);
                }
                let ghost out_before = out@;
                let ghost curr_text = curr.text();
                // The rest of the text is one indivisible piece.
                out.push(curr);
                proof {
                    assert(out@.map_values(|b: BoxSlice| b.text()) =~= out_before.map_values(
                        |b: BoxSlice| b.text(),
                    ).push(curr_text));
                }
                break;
            },
        }
    }
    out
}

} // verus!
