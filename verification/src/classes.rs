//! Character classes used by the PO chunking rules.
//!
//! gettext recognises a small set of ASCII characters around which lines may
//! be broken or tokens fused; the predicates here are the pure set-membership
//! tests that the chunker builds on.

use vstd::prelude::*;
use vstd::string::StrSliceExecFns;

verus! {

/// gettext's designated line-break characters: `/`, `}`, `)`, `>`, `-`.
pub open spec fn po_line_break(c: char) -> bool {
    c == '/' || c == '}' || c == ')' || c == '>' || c == '-'
}

/// The line-break characters together with space and tab; a token made only
/// of these is always fused onto the chunk before it.
pub open spec fn po_mergeable(c: char) -> bool {
    po_line_break(c) || c == ' ' || c == '\t'
}

/// Opening brackets after which gettext never inserts a break.
pub open spec fn po_open_paren(c: char) -> bool {
    c == '{' || c == '('
}

/// ASCII punctuation: the code points `!` through `/`, `:` through `@`,
/// `[` through `` ` `` and `{` through `~`.
pub open spec fn po_punctuation(c: char) -> bool {
    (0x21 <= c as u32 && c as u32 <= 0x2f) || (0x3a <= c as u32 && c as u32 <= 0x40) || (0x5b
        <= c as u32 && c as u32 <= 0x60) || (0x7b <= c as u32 && c as u32 <= 0x7e)
}

/// The Unicode `White_Space` code points.
pub open spec fn unicode_whitespace(c: char) -> bool {
    (0x09 <= c as u32 && c as u32 <= 0x0d) || c as u32 == 0x20 || c as u32 == 0x85 || c as u32
        == 0xa0 || c as u32 == 0x1680 || (0x2000 <= c as u32 && c as u32 <= 0x200a) || c as u32
        == 0x2028 || c as u32 == 0x2029 || c as u32 == 0x202f || c as u32 == 0x205f || c as u32
        == 0x3000
}

/// Every character of `s` is mergeable.
pub open spec fn all_mergeable(s: Seq<char>) -> bool {
    forall|i: int| 0 <= i < s.len() ==> po_mergeable(#[trigger] s[i])
}

/// Check whether a character is one of gettext's line-break characters.
pub fn is_line_break(c: &char) -> (r: bool)
    ensures
        r == po_line_break(*c),
{
    *c == '/' || *c == '}' || *c == ')' || *c == '>' || *c == '-'
}

/// Check whether a character is a line-break character, space, or tab.
pub fn is_mergeable_char(c: &char) -> (r: bool)
    ensures
        r == po_mergeable(*c),
{
    is_line_break(c) || *c == ' ' || *c == '\t'
}

/// Check whether a character is an opening bracket.
pub fn is_open_parenthesis(c: &char) -> (r: bool)
    ensures
        r == po_open_paren(*c),
{
    *c == '{' || *c == '('
}

/// Check whether a character is ASCII punctuation.
pub fn is_punctuation(c: &char) -> (r: bool)
    ensures
        r == po_punctuation(*c),
{
    let u = *c as u32;
    (0x21 <= u && u <= 0x2f) || (0x3a <= u && u <= 0x40) || (0x5b <= u && u <= 0x60) || (0x7b <= u
        && u <= 0x7e)
}

/// Check whether a string consists of mergeable characters alone.
pub fn is_mergeable(s: &str) -> (r: bool)
    ensures
        r == all_mergeable(s@),
{
    let len = s.unicode_len();
    let mut i: usize = 0;
    while i < len
        invariant
            len == s@.len(),
            i <= len,
            forall|j: int| 0 <= j < i ==> po_mergeable(#[trigger] s@[j]),
        decreases len - i,
    {
        let c = s.get_char(i);
        if !is_mergeable_char(&c) {
            assert(!po_mergeable(s@[i as int]));
            return false;
        }
        i = i + 1;
    }
    true
}

/// Check whether a character has the Unicode `White_Space` property.
pub fn is_whitespace_char(c: &char) -> (r: bool)
    ensures
        r == unicode_whitespace(*c),
{
    let u = *c as u32;
    (0x09 <= u && u <= 0x0d) || u == 0x20 || u == 0x85 || u == 0xa0 || u == 0x1680 || (0x2000 <= u
        && u <= 0x200a) || u == 0x2028 || u == 0x2029 || u == 0x202f || u == 0x205f || u == 0x3000
}

} // verus!
