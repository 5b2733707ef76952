//! Building and comparing pieces of text.

use vstd::prelude::*;
use vstd::string::StrSliceExecFns;

verus! {

/// Calls `String::push`, which appends the character to the end of the
/// string.
#[verifier::external_body]
pub(crate) fn push_char(s: &mut String, c: char)
    ensures
        final(s)@ == old(s)@.push(c),
{
    s.push(c)
}

/// Appends a character to `s` if there is one.
pub(crate) fn push_opt(s: &mut String, c: Option<char>)
    ensures
        final(s)@ == with_opt(old(s)@, c),
{
    match c {
        Some(c) => push_char(s, c),
        None => {},
    }
}

/// `acc` with the character of `c` behind it, if there is one.
pub open spec fn with_opt(acc: Seq<char>, c: Option<char>) -> Seq<char> {
    match c {
        Some(c) => acc.push(c),
        None => acc,
    }
}

/// The string that holds the characters of `v`.
pub fn string_of(v: &Vec<char>) -> (r: String)
    ensures
        r@ == v@,
{
    let mut out = String::new();
    let mut i: usize = 0;
    while i < v.len()
        invariant
            i <= v.len(),
            out@ == v@.take(i as int),
        decreases v.len() - i,
    {
        push_char(&mut out, v[i]);
        assert(v@.take(i + 1) =~= v@.take(i as int).push(v@[i as int]));
        i += 1;
    }
    assert(v@.take(v.len() as int) =~= v@);
    out
}

/// Whether `buf` holds exactly the characters of `lit`.
pub fn text_is(buf: &Vec<char>, lit: &str) -> (r: bool)
    ensures
        r == (buf@ == lit@),
{
    let n = lit.unicode_len();
    if buf.len() != n {
        return false;
    }
    let mut i: usize = 0;
    while i < n
        invariant
            i <= n,
            n == buf.len(),
            n == lit@.len(),
            forall|k: int| 0 <= k < i ==> buf@[k] == lit@[k],
        decreases n - i,
    {
        if buf[i] != lit.get_char(i) {
            return false;
        }
        i += 1;
    }
    assert(buf@ =~= lit@);
    true
}

} // verus!
