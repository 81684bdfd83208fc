//! Python identifiers.
use vstd::prelude::*;

use crate::text::chars_of;

verus! {

/// An ASCII letter.
pub open spec fn is_ascii_letter(c: char) -> bool {
    ('a' as int <= c as int <= 'z' as int) || ('A' as int <= c as int <= 'Z' as int)
}

/// An ASCII digit.
pub open spec fn is_ascii_digit(c: char) -> bool {
    '0' as int <= c as int <= '9' as int
}

/// The name for what `unicode_ident::is_xid_start` returns: whether `c` has the
/// Unicode property `XID_Start`.
pub uninterp spec fn xid_start(c: char) -> bool;

/// The name for what `unicode_ident::is_xid_continue` returns: whether `c` has
/// the Unicode property `XID_Continue`.
pub uninterp spec fn xid_continue(c: char) -> bool;

/// `unicode_ident::is_xid_start`. Its result is named; for an ASCII character
/// the crate reads a fixed table whose members are the ASCII letters, which the
/// contract states.
#[verifier::external_body]
fn is_xid_start(c: char) -> (r: bool)
    ensures
        r == xid_start(c),
        (c as int) < 128 ==> (r <==> is_ascii_letter(c)),
{
    unicode_ident::is_xid_start(c)
}

/// `unicode_ident::is_xid_continue`. Its result is named; for an ASCII character
/// the crate reads a fixed table whose members are the ASCII letters, the ASCII
/// digits and `_`, which the contract states.
#[verifier::external_body]
fn is_xid_continue(c: char) -> (r: bool)
    ensures
        r == xid_continue(c),
        (c as int) < 128 ==> (r <==> (is_ascii_letter(c) || is_ascii_digit(c) || c == '_')),
{
    unicode_ident::is_xid_continue(c)
}

/// A character that can start an identifier: `_` or an ASCII letter among the
/// ASCII characters, a character with `XID_Start` beyond them.
pub open spec fn is_identifier_start(c: char) -> bool {
    if (c as int) < 128 {
        c == '_' || is_ascii_letter(c)
    } else {
        xid_start(c)
    }
}

/// A character that can continue an identifier: `_`, an ASCII letter or an
/// ASCII digit among the ASCII characters, a character with `XID_Continue`
/// beyond them.
pub open spec fn is_identifier_continue(c: char) -> bool {
    if (c as int) < 128 {
        c == '_' || is_ascii_letter(c) || is_ascii_digit(c)
    } else {
        xid_continue(c)
    }
}

/// `s` is a Python identifier: a character that is `_` or `XID_Start`, then
/// characters that are `XID_Continue`.
pub open spec fn spec_is_python_identifier(s: Seq<char>) -> bool {
    &&& s.len() > 0
    &&& is_identifier_start(s[0])
    &&& forall|i: int| 1 <= i < s.len() ==> is_identifier_continue(#[trigger] s[i])
}

/// Whether `s` is a Python identifier.
pub fn is_python_identifier(s: &str) -> (r: bool)
    ensures
        r == spec_is_python_identifier(s@),
{
    let cs = chars_of(s);
    if cs.len() == 0 {
        return false;
    }
    if !(cs[0] == '_' || is_xid_start(cs[0])) {
        return false;
    }
    let mut i: usize = 1;
    while i < cs.len()
        invariant
            cs@ == s@,
            1 <= i <= cs@.len(),
            forall|j: int| 1 <= j < i ==> is_identifier_continue(#[trigger] s@[j]),
        decreases cs@.len() - i,
    {
        if !is_xid_continue(cs[i]) {
            return false;
        }
        i = i + 1;
    }
    true
}

} // verus!
