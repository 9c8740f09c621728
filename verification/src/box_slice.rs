//! A shareable slice of one immutable text box: the full text together with
//! a character range into it.  Slicing never copies out of the range's
//! bounds, and every derived slice speaks about the same full text, so a
//! run of text can be cut and re-joined without losing its origin.

use vstd::prelude::*;
use crate::style::is_whitespace_char;

verus! {

/// A character range of one box's full text.
pub struct BoxSlice {
    full_text: String,
    begin: usize,
    end: usize,
}

/// The slice covering the whole of `s`.
#[allow(non_snake_case)]
pub fn BoxSlice(s: String) -> (r: BoxSlice)
    ensures
        r.wf(),
        r.full() == s@,
        r.begin_index() == 0,
        r.end_index() == s@.len(),
        r.text() == s@,
{
    let end = s.as_str().unicode_len();
    let r = BoxSlice { full_text: s, begin: 0, end };
    proof {
        assert(r.text() =~= r.full());
    }
    r
}

/// `s` with every leading blank character removed.
pub open spec fn trimmed_left(s: Seq<char>) -> Seq<char>
    decreases s.len(),
{
    if s.len() > 0 && is_whitespace_char(s[0]) {
        trimmed_left(s.subrange(1, s.len() as int))
    } else {
        s
    }
}

/// Dropping a blank prefix of length `k` is what `trimmed_left` does, as
/// long as the character after the prefix (if any) is not blank.
pub proof fn lemma_trimmed_left_at(s: Seq<char>, k: int)
    requires
        0 <= k <= s.len(),
        forall|j: int| 0 <= j < k ==> is_whitespace_char(#[trigger] s[j]),
        k < s.len() ==> !is_whitespace_char(s[k]),
    ensures
        trimmed_left(s) == s.subrange(k, s.len() as int),
    decreases k,
{
    if k == 0 {
        assert(trimmed_left(s) =~= s.subrange(0, s.len() as int));
    } else {
        let tail = s.subrange(1, s.len() as int);
        lemma_trimmed_left_at(tail, k - 1);
        assert(tail.subrange(k - 1, tail.len() as int) =~= s.subrange(k, s.len() as int));
    }
}

impl BoxSlice {
    pub closed spec fn full(self) -> Seq<char> {
        self.full_text@
    }

    pub closed spec fn begin_index(self) -> int {
        self.begin as int
    }

    pub closed spec fn end_index(self) -> int {
        self.end as int
    }

    /// The range lies within the full text.
    pub open spec fn wf(self) -> bool {
        0 <= self.begin_index() <= self.end_index() <= self.full().len()
    }

    /// The characters this slice covers.
    pub open spec fn text(self) -> Seq<char> {
        self.full().subrange(self.begin_index(), self.end_index())
    }

    /// The sub-slice of this slice from `begin` to `end` (character
    /// positions relative to this slice), sharing the same full text.
    pub fn slice(&self, begin: usize, end: usize) -> (r: BoxSlice)
        requires
            self.wf(),
            begin <= end,
            end <= self.text().len(),
        ensures
            r.wf(),
            r.full() == self.full(),
            r.begin_index() == self.begin_index() + begin,
            r.end_index() == self.begin_index() + end,
            r.text() == self.text().subrange(begin as int, end as int),
    {
        let r = BoxSlice {
            full_text: self.full_text.clone(),
            begin: self.begin + begin,
            end: self.begin + end,
        };
        proof {
            assert(r.text() =~= self.text().subrange(begin as int, end as int));
        }
        r
    }

    /// The number of characters this slice covers.
    pub fn len(&self) -> (r: usize)
        requires
            self.wf(),
        ensures
            r == self.text().len(),
    {
        self.end - self.begin
    }

    /// This slice with its leading whitespace dropped; empty when the
    /// slice is whitespace throughout.
    pub fn trim_left(&self) -> (r: BoxSlice)
        requires
            self.wf(),
        ensures
            r.wf(),
            r.full() == self.full(),
            r.text() == trimmed_left(self.text()),
    {
        let not_blank = |c: char| -> (b: bool)
            ensures
                b == !is_whitespace_char(c),
            {
                !(c == ' ' || c == '\t' || c == '\n' || c == '\r')
            };
        let found = self.find(not_blank);
        match found {
            Some(idx) => {
                proof {
                    lemma_trimmed_left_at(self.text(), idx as int);
                }
                self.slice(idx, self.len())
            },
            None => {
                proof {
                    lemma_trimmed_left_at(self.text(), self.text().len() as int);
                }
                self.slice(self.len(), self.len())
            },
        }
    }

    /// A borrowed view of the covered characters.
    pub fn borrow<'a>(&'a self) -> (r: &'a str)
        requires
            self.wf(),
        ensures
            r@ == self.text(),
    {
        self.full_text.as_str().substring_char(self.begin, self.end)
    }

    /// The slice running from this slice's begin through `other`'s end;
    /// both must view the same full text, `other` starting and ending no
    /// earlier than `self`.
    pub fn extend_through(&self, other: &BoxSlice) -> (r: BoxSlice)
        requires
            self.wf(),
            other.wf(),
            self.full() == other.full(),
            self.begin_index() <= other.begin_index(),
            self.end_index() <= other.end_index(),
        ensures
            r.wf(),
            r.full() == self.full(),
            r.begin_index() == self.begin_index(),
            r.end_index() == other.end_index(),
            r.text() == self.full().subrange(self.begin_index(), other.end_index()),
    {
        BoxSlice { full_text: self.full_text.clone(), begin: self.begin, end: other.end }
    }

    /// The position of the first covered character that `f` accepts, the
    /// characters before it all being refused.
    pub fn find<F: Fn(char) -> bool>(&self, f: F) -> (r: Option<usize>)
        requires
            self.wf(),
            forall|c: char| #[trigger] call_requires(f, (c,)),
        ensures
            match r {
                Some(idx) => {
                    &&& 0 <= idx < self.text().len()
                    &&& call_ensures(f, (self.text()[idx as int],), true)
                    &&& forall|j: int| 0 <= j < idx ==> call_ensures(
                        f,
                        (self.text()[j],),
                        false,
                    )
                },
                None => forall|j: int|
                    0 <= j < self.text().len() ==> call_ensures(f, (self.text()[j],), false),
            },
    {
        let n = self.end - self.begin;
        let mut i: usize = 0;
        while i < n
            invariant
                self.wf(),
                n == self.text().len(),
                i <= n,
                forall|c: char| #[trigger] call_requires(f, (c,)),
                forall|j: int| 0 <= j < i ==> call_ensures(f, (self.text()[j],), false),
            decreases n - i,
        {
            let c = self.full_text.as_str().get_char(self.begin + i);
            proof {
                assert(c == self.text()[i as int]);
            }
            if f(c) {
                return Some(i);
            }
            i = i + 1;
        }
        None
    }

    /// Whether the slice covers at least one character.
    pub fn is_not_empty(&self) -> (r: bool)
        requires
            self.wf(),
        ensures
            r == (self.text().len() > 0),
    {
        !self.borrow().is_empty()
    }

    /// An owned copy of the covered characters.
    pub fn to_str(&self) -> (r: String)
        requires
            self.wf(),
        ensures
            r@ == self.text(),
    {
        self.borrow().to_owned()
    }
}

} // verus!
