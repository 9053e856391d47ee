use vstd::prelude::*;
use crate::text::push_char;
use crate::game::words_view;

verus! {

broadcast use vstd::string::group_string_axioms;

/// `line` without a final carriage return.
pub open spec fn strip_cr(line: Seq<char>) -> Seq<char> {
    if line.len() > 0 && line.last() == '\r' {
        line.drop_last()
    } else {
        line
    }
}

/// The finished lines and the line in progress after reading `s`.
pub open spec fn split_state(s: Seq<char>) -> (Seq<Seq<char>>, Seq<char>)
    decreases s.len(),
{
    if s.len() == 0 {
        (Seq::empty(), Seq::empty())
    } else {
        let (done, cur) = split_state(s.drop_last());
        if s.last() == '\n' {
            (done.push(strip_cr(cur)), Seq::empty())
        } else {
            (done, cur.push(s.last()))
        }
    }
}

/// The lines of `s`: the pieces between line feeds, each without a final
/// carriage return before its line feed; a last piece that is empty is no line.
pub open spec fn lines_of(s: Seq<char>) -> Seq<Seq<char>> {
    let (done, cur) = split_state(s);
    if cur.len() > 0 {
        done.push(cur)
    } else {
        done
    }
}

/// The characters of `s`, read in one pass.
pub fn char_list(s: &str) -> (r: Vec<char>)
    ensures
        r@ == s@,
{
    let mut r: Vec<char> = Vec::new();
    for c in it: s.chars()
        invariant
            r@ == it.seq().take(it.index() as int),
    {
        r.push(c);
    }
    assert(r@ =~= s@);
    r
}

/// The string made of the characters `v`.
pub fn string_of(v: &Vec<char>) -> (r: String)
    ensures
        r@ == v@,
{
    let mut r = String::new();
    let mut i: usize = 0;
    while i < v.len()
        invariant
            i <= v.len(),
            r@ == v@.take(i as int),
        decreases v.len() - i,
    {
        push_char(&mut r, v[i]);
        i = i + 1;
        assert(r@ =~= v@.take(i as int));
    }
    assert(r@ =~= v@);
    r
}

/// The lines of `text`, as `str::lines` cuts them.
pub fn split_lines(text: &str) -> (r: Vec<String>)
    ensures
        words_view(r@) == lines_of(text@),
{
    let cs = char_list(text);
    let mut done: Vec<String> = Vec::new();
    let mut cur: Vec<char> = Vec::new();
    let mut i: usize = 0;
    while i < cs.len()
        invariant
            cs@ == text@,
            i <= cs@.len(),
            (words_view(done@), cur@) == split_state(cs@.take(i as int)),
        decreases cs@.len() - i,
    {
        let c = cs[i];
        proof {
            let t = cs@.take(i + 1);
            assert(t.drop_last() =~= cs@.take(i as int));
            assert(t.last() == c);
        }
        if c == '\n' {
            let ghost before = cur@;
            if cur.len() > 0 && cur[cur.len() - 1] == '\r' {
                cur.pop();
                assert(cur@ =~= before.drop_last());
            }
            let line = string_of(&cur);
            done.push(line);
            cur = Vec::new();
            assert(words_view(done@) =~= split_state(cs@.take(i + 1)).0);
            assert(cur@ =~= split_state(cs@.take(i + 1)).1);
        } else {
            cur.push(c);
            assert(words_view(done@) =~= split_state(cs@.take(i + 1)).0);
        }
        i = i + 1;
    }
    assert(cs@.take(cs@.len() as int) =~= cs@);
    if cur.len() > 0 {
        let ghost d0 = done@;
        let line = string_of(&cur);
        done.push(line);
        assert(words_view(done@) =~= words_view(d0).push(cur@));
    }
    done
}

} // verus!
