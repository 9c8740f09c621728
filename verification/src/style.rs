//! The slice of the style collaborator's computed-style records that this
//! access layer reads: a box's display mode, its generated-content list, and
//! the inherited `white-space` property.

use vstd::prelude::*;

verus! {

/// The display mode of a box.  The synthesis rules for pseudo-elements only
/// ever test whether a mode is `Inline`; the other modes are carried through
/// unchanged.
#[derive(Clone, Copy, Debug, PartialEq, Eq, Structural)]
pub enum DisplayMode {
    Inline,
    Block,
    InlineBlock,
    ListItem,
    /// `display: none`: the box generates nothing.
    NoBox,
}

/// The inherited `white-space` property.  Only the default wrapping mode
/// (`Normal`) lets a whitespace-only text node be ignored by layout.
#[derive(Clone, Copy, Debug, PartialEq, Eq, Structural)]
pub enum WhiteSpace {
    Normal,
    Pre,
    Nowrap,
}

/// One item of a generated-content list.
#[derive(Clone, Debug, PartialEq, Eq)]
pub struct ContentItem {
    pub text: String,
}

/// The computed value of the `content` property.
#[derive(Clone, Debug)]
pub enum Content {
    NormalContent,
    NoContent,
    ContentItems(Vec<ContentItem>),
}

/// The generated-content list that a `content` value denotes: empty for
/// `normal` and `none`, the item list otherwise.
pub open spec fn content_items_of(c: Content) -> Seq<ContentItem> {
    match c {
        Content::ContentItems(items) => items@,
        _ => Seq::empty(),
    }
}

/// The computed style record of one node or pseudo-element, restricted to
/// the properties this access layer reads.
#[derive(Clone, Debug)]
pub struct ComputedStyle {
    pub display: DisplayMode,
    pub white_space: WhiteSpace,
    pub content: Content,
}

/// Copies the generated-content list out of a `content` value.
pub fn get_content(content: &Content) -> (r: Vec<ContentItem>)
    ensures
        r@ == content_items_of(*content),
{
    match content {
        Content::ContentItems(items) => {
            let mut out: Vec<ContentItem> = Vec::new();
            let mut i: usize = 0;
            while i < items.len()
                invariant
                    i <= items.len(),
                    out@ == items@.subrange(0, i as int),
                decreases items.len() - i,
            {
                out.push(ContentItem { text: items[i].text.clone() });
                proof {
                    assert(out@ =~= items@.subrange(0, i + 1 as int));
                }
                i = i + 1;
            }
            proof {
                assert(out@ =~= items@);
            }
            out
        },
        _ => Vec::new(),
    }
}

/// Whether `c` is one of the blank characters that layout may ignore.
pub open spec fn is_whitespace_char(c: char) -> bool {
    c == ' ' || c == '\t' || c == '\n' || c == '\r'
}

/// Whether a character sequence consists of blank characters only.
pub open spec fn all_whitespace(s: Seq<char>) -> bool {
    forall|i: int| 0 <= i < s.len() ==> is_whitespace_char(#[trigger] s[i])
}

/// Whether a string consists of blank characters only (vacuously true for
/// the empty string).
pub fn is_whitespace(s: &str) -> (r: bool)
    ensures
        r == all_whitespace(s@),
{
    let len = s.unicode_len();
    let mut i: usize = 0;
    while i < len
        invariant
            len == s@.len(),
            i <= len,
            forall|j: int| 0 <= j < i ==> is_whitespace_char(#[trigger] s@[j]),
        decreases len - i,
    {
        let c = s.get_char(i);
        if !(c == ' ' || c == '\t' || c == '\n' || c == '\r') {
            return false;
        }
        i = i + 1;
    }
    true
}

} // verus!
