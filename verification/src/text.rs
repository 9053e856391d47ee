use vstd::prelude::*;

verus! {

/// Appends one character to a string.
///
/// Trusted: `String::push` adds `c` at the end of the string.
#[verifier::external_body]
pub(crate) fn push_char(s: &mut String, c: char)
    ensures
        final(s)@ == old(s)@.push(c),
{
    s.push(c);
}

/// Whether two strings hold the same characters.
pub fn same_text(a: &str, b: &str) -> (r: bool)
    ensures
        r == (a@ == b@),
{
    let n = a.unicode_len();
    if n != b.unicode_len() {
        return false;
    }
    let mut i: usize = 0;
    while i < n
        invariant
            n == a@.len(),
            n == b@.len(),
            i <= n,
            forall|j: int| 0 <= j < i ==> a@[j] == b@[j],
        decreases n - i,
    {
        if a.get_char(i) != b.get_char(i) {
            return false;
        }
        i = i + 1;
    }
    assert(a@ =~= b@);
    true
}

/// The characters of `s` with the one at position `idx` replaced by `newchar`.
pub open spec fn replaced_at(s: Seq<char>, idx: int, newchar: char) -> Seq<char> {
    Seq::new(s.len(), |i: int| if i == idx { newchar } else { s[i] })
}

/// Returns `s` with the character at position `idx` (counted in characters)
/// replaced by `newchar`; a position past the end leaves `s` as it is.
pub fn replace_nth_char(s: &str, idx: usize, newchar: char) -> (r: String)
    ensures
        r@ == replaced_at(s@, idx as int, newchar),
{
    let n = s.unicode_len();
    let mut out = String::new();
    let mut i: usize = 0;
    while i < n
        invariant
            n == s@.len(),
            i <= n,
            out@ == replaced_at(s@, idx as int, newchar).take(i as int),
        decreases n - i,
    {
        let c = if i == idx { newchar } else { s.get_char(i) };
        push_char(&mut out, c);
        i = i + 1;
        assert(out@ =~= replaced_at(s@, idx as int, newchar).take(i as int));
    }
    assert(out@ =~= replaced_at(s@, idx as int, newchar));
    out
}

} // verus!
