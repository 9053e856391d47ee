use vstd::prelude::*;
use crate::letters::{Pairs, lookup, put, add_position, LetterMap, holds_position, copy_positions};

verus! {

/// What the player has learnt about the secret so far: letters it lacks,
/// letters at known positions, and letters known to lie elsewhere.
pub struct Knowledge {
    pub wrong: Pairs,
    pub matched: Pairs,
    pub offset: Pairs,
}

/// `s` without the positions that `m` holds.
pub open spec fn remove_all(s: Seq<usize>, m: Seq<usize>) -> Seq<usize>
    decreases s.len(),
{
    if s.len() == 0 {
        Seq::empty()
    } else if m.contains(s.last()) {
        remove_all(s.drop_last(), m)
    } else {
        remove_all(s.drop_last(), m).push(s.last())
    }
}

/// Records `pos` as an exact match of `c` when the guess has `c` there and it
/// is not recorded yet.
pub open spec fn match_step(m: Pairs, c: char, gv: Seq<usize>, pos: usize) -> Pairs {
    if gv.contains(pos) && !(lookup(m, c) matches Some(e) && e.contains(pos)) {
        add_position(m, c, pos)
    } else {
        m
    }
}

/// `match_step` for each secret position of `c` in `sv`, in order.
pub open spec fn match_fold(m: Pairs, c: char, gv: Seq<usize>, sv: Seq<usize>) -> Pairs
    decreases sv.len(),
{
    if sv.len() == 0 {
        m
    } else {
        match_step(match_fold(m, c, gv, sv.drop_last()), c, gv, sv.last())
    }
}

/// Records `pos` as a place where `c` may not stand, unless it is recorded already.
pub open spec fn offset_step(o: Pairs, c: char, pos: usize) -> Pairs {
    if lookup(o, c) matches Some(e) && e.contains(pos) {
        o
    } else {
        add_position(o, c, pos)
    }
}

/// `offset_step` for each guess position of `c` in `gf`, in order.
pub open spec fn offset_fold(o: Pairs, c: char, gf: Seq<usize>) -> Pairs
    decreases gf.len(),
{
    if gf.len() == 0 {
        o
    } else {
        offset_step(offset_fold(o, c, gf.drop_last()), c, gf.last())
    }
}

/// What one letter `c` of an accepted guess, at positions `gv`, teaches:
/// a letter the secret lacks is recorded as absent; otherwise the positions
/// where the guess has it at its place are recorded as exact matches, and
/// every other position of it in the guess as a place where it may not stand.
pub open spec fn absorb_letter(k: Knowledge, secret: Pairs, c: char, gv: Seq<usize>) -> Knowledge {
    match lookup(secret, c) {
        Some(sv) => {
            let m1 = match_fold(k.matched, c, gv, sv);
            let gf = match lookup(m1, c) {
                Some(mv) => remove_all(gv, mv),
                None => gv,
            };
            Knowledge { wrong: k.wrong, matched: m1, offset: offset_fold(k.offset, c, gf) }
        },
        None => Knowledge { wrong: put(k.wrong, c, seq![1usize]), matched: k.matched, offset: k.offset },
    }
}

/// What an accepted guess with letter table `guess` teaches, letter by letter
/// in table order.
pub open spec fn absorb_all(k: Knowledge, secret: Pairs, guess: Pairs) -> Knowledge
    decreases guess.len(),
{
    if guess.len() == 0 {
        k
    } else {
        absorb_letter(absorb_all(k, secret, guess.drop_last()), secret, guess.last().0, guess.last().1)
    }
}

/// The positions of `s` that `m` lacks.
fn without(s: &Vec<usize>, m: &Vec<usize>) -> (r: Vec<usize>)
    ensures
        r@ == remove_all(s@, m@),
{
    let mut r: Vec<usize> = Vec::new();
    let mut i: usize = 0;
    while i < s.len()
        invariant
            i <= s.len(),
            r@ == remove_all(s@.take(i as int), m@),
        decreases s.len() - i,
    {
        let x = s[i];
        if !holds_position(m, x) {
            r.push(x);
        }
        proof {
            let t = s@.take(i + 1);
            assert(t.drop_last() =~= s@.take(i as int));
            assert(t.last() == x);
        }
        i = i + 1;
    }
    assert(s@.take(s@.len() as int) =~= s@);
    r
}

/// Records the exact matches of letter `c`.
fn absorb_matches(matched: &mut LetterMap, c: char, gv: &Vec<usize>, sv: &Vec<usize>)
    requires
        old(matched).wf(),
    ensures
        final(matched).wf(),
        final(matched)@ == match_fold(old(matched)@, c, gv@, sv@),
{
    let mut j: usize = 0;
    while j < sv.len()
        invariant
            j <= sv.len(),
            matched.wf(),
            matched@ == match_fold(old(matched)@, c, gv@, sv@.take(j as int)),
        decreases sv.len() - j,
    {
        let pos = sv[j];
        if holds_position(gv, pos) {
            let known = match matched.get(c) {
                Some(e) => holds_position(e, pos),
                None => false,
            };
            if !known {
                matched.add(c, pos);
            }
        }
        proof {
            let t = sv@.take(j + 1);
            assert(t.drop_last() =~= sv@.take(j as int));
            assert(t.last() == pos);
        }
        j = j + 1;
    }
    assert(sv@.take(sv@.len() as int) =~= sv@);
}

/// Records the guess positions `gf` as places where letter `c` may not stand.
fn absorb_offsets(offset: &mut LetterMap, c: char, gf: &Vec<usize>)
    requires
        old(offset).wf(),
    ensures
        final(offset).wf(),
        final(offset)@ == offset_fold(old(offset)@, c, gf@),
{
    let mut j: usize = 0;
    while j < gf.len()
        invariant
            j <= gf.len(),
            offset.wf(),
            offset@ == offset_fold(old(offset)@, c, gf@.take(j as int)),
        decreases gf.len() - j,
    {
        let pos = gf[j];
        let known = match offset.get(c) {
            Some(e) => holds_position(e, pos),
            None => false,
        };
        if !known {
            offset.add(c, pos);
        }
        proof {
            let t = gf@.take(j + 1);
            assert(t.drop_last() =~= gf@.take(j as int));
            assert(t.last() == pos);
        }
        j = j + 1;
    }
    assert(gf@.take(gf@.len() as int) =~= gf@);
}

/// Updates what is known with an accepted guess whose letter table is `guess`.
pub fn absorb_guess(
    secret: &LetterMap,
    guess: &LetterMap,
    wrong: &mut LetterMap,
    matched: &mut LetterMap,
    offset: &mut LetterMap,
)
    requires
        old(wrong).wf(),
        old(matched).wf(),
        old(offset).wf(),
    ensures
        final(wrong).wf(),
        final(matched).wf(),
        final(offset).wf(),
        absorb_all(
            Knowledge { wrong: old(wrong)@, matched: old(matched)@, offset: old(offset)@ },
            secret@,
            guess@,
        ) == (Knowledge { wrong: final(wrong)@, matched: final(matched)@, offset: final(offset)@ }),
{
    let ghost k0 = Knowledge { wrong: wrong@, matched: matched@, offset: offset@ };
    let n = guess.len();
    let mut i: usize = 0;
    while i < n
        invariant
            n == guess@.len(),
            i <= n,
            wrong.wf(),
            matched.wf(),
            offset.wf(),
            absorb_all(k0, secret@, guess@.take(i as int)) == (Knowledge {
                wrong: wrong@,
                matched: matched@,
                offset: offset@,
            }),
        decreases n - i,
    {
        let c = guess.letter_at(i);
        let gv = guess.positions_at(i);
        match secret.get(c) {
            Some(sv) => {
                absorb_matches(matched, c, gv, sv);
                let gf = match matched.get(c) {
                    Some(mv) => without(gv, mv),
                    None => copy_positions(gv),
                };
                absorb_offsets(offset, c, &gf);
            },
            None => {
                let mut one: Vec<usize> = Vec::new();
                one.push(1);
                assert(one@ =~= seq![1usize]);
                wrong.set(c, one);
            },
        }
        proof {
            let t = guess@.take(i + 1);
            assert(t.drop_last() =~= guess@.take(i as int));
            assert(t.last() == guess@[i as int]);
        }
        i = i + 1;
    }
    assert(guess@.take(n as int) =~= guess@);
}

} // verus!
