use vstd::prelude::*;
use crate::letters::{
    Pairs, lookup, add_position, pairs_wf, word_letters, positions_in, lemma_put,
    lemma_find_range, lemma_word_letters,
};
use crate::knowledge::{
    Knowledge, match_step, match_fold, offset_step, offset_fold, absorb_letter, absorb_all,
    remove_all,
};
use crate::letters::find_letter;
use crate::rules::{
    Lords, first_violation, letter_violation, first_missing, first_shared, lemma_first_violation,
};
use crate::game::{GameView, step, initial, rejection, mark_at, marks_of};

verus! {

/// Every recorded exact match of `c` is a position of `c` in the secret.
pub open spec fn matched_sound(m: Pairs, secret: Seq<char>) -> bool {
    forall|c: char, k: int|
        #![trigger lookup(m, c), lookup(m, c)->0[k]]
        lookup(m, c) is Some && 0 <= k < lookup(m, c)->0.len() ==> lookup(m, c)->0[k] < secret.len()
            && secret[lookup(m, c)->0[k] as int] == c
}

/// Every letter recorded as absent is absent from the secret.
pub open spec fn wrong_sound(w: Pairs, secret: Seq<char>) -> bool {
    forall|c: char| #[trigger] lookup(w, c) is Some ==> !secret.contains(c)
}

/// Every letter recorded as misplaced occurs in the secret.
pub open spec fn offset_sound(o: Pairs, secret: Seq<char>) -> bool {
    forall|c: char| #[trigger] lookup(o, c) is Some ==> secret.contains(c)
}

/// Whether the entry of `c` in `m` holds position `q`.
pub open spec fn has_position(m: Pairs, c: char, q: usize) -> bool {
    lookup(m, c) matches Some(v) && v.contains(q)
}

/// No place barred to a letter is a place where the secret has that letter.
pub open spec fn barred_sound(o: Pairs, secret: Seq<char>) -> bool {
    forall|c: char, q: usize| #[trigger] has_position(o, c, q) ==> !(q < secret.len() && secret[q as int] == c)
}

/// What is known is well formed and true of the secret.
pub open spec fn knowledge_sound(k: Knowledge, secret: Seq<char>) -> bool {
    &&& pairs_wf(k.wrong)
    &&& pairs_wf(k.matched)
    &&& pairs_wf(k.offset)
    &&& wrong_sound(k.wrong, secret)
    &&& matched_sound(k.matched, secret)
    &&& offset_sound(k.offset, secret)
    &&& barred_sound(k.offset, secret)
}

/// `add_position` appends `pos` to the positions of `c` and leaves the other letters alone.
pub proof fn lemma_add_position(p: Pairs, c: char, pos: usize)
    requires
        pairs_wf(p),
    ensures
        pairs_wf(add_position(p, c, pos)),
        lookup(add_position(p, c, pos), c) == Some(
            match lookup(p, c) {
                Some(v) => v.push(pos),
                None => seq![pos],
            },
        ),
        forall|d: char| d != c ==> lookup(add_position(p, c, pos), d) == lookup(p, d),
{
    match lookup(p, c) {
        Some(v) => lemma_put(p, c, v.push(pos)),
        None => lemma_put(p, c, seq![pos]),
    }
}

proof fn lemma_match_fold(m: Pairs, c: char, gv: Seq<usize>, sv: Seq<usize>, secret: Seq<char>)
    requires
        pairs_wf(m),
        matched_sound(m, secret),
        forall|k: int| 0 <= k < sv.len() ==> sv[k] < secret.len() && secret[sv[k] as int] == c,
    ensures
        pairs_wf(match_fold(m, c, gv, sv)),
        matched_sound(match_fold(m, c, gv, sv), secret),
        forall|d: char| d != c ==> lookup(match_fold(m, c, gv, sv), d) == lookup(m, d),
        forall|q: usize| has_position(m, c, q) ==> has_position(match_fold(m, c, gv, sv), c, q),
        forall|k: int|
            0 <= k < sv.len() && gv.contains(sv[k]) ==> has_position(
                match_fold(m, c, gv, sv),
                c,
                sv[k],
            ),
    decreases sv.len(),
{
    if sv.len() > 0 {
        let t = sv.drop_last();
        assert forall|k: int| 0 <= k < t.len() implies t[k] < secret.len() && secret[t[k] as int] == c by {
            assert(t[k] == sv[k]);
        }
        lemma_match_fold(m, c, gv, t, secret);
        let m1 = match_fold(m, c, gv, t);
        let pos = sv.last();
        let r = match_step(m1, c, gv, pos);
        assert(r == match_fold(m, c, gv, sv));
        if gv.contains(pos) && !has_position(m1, c, pos) {
            lemma_add_position(m1, c, pos);
            assert(matched_sound(r, secret)) by {
                assert forall|d: char, k: int|
                    lookup(r, d) is Some && 0 <= k < lookup(r, d)->0.len() implies lookup(r, d)->0[k]
                    < secret.len() && secret[lookup(r, d)->0[k] as int] == d by {
                    if d != c {
                        assert(lookup(r, d) == lookup(m1, d));
                    } else if let Some(v) = lookup(m1, c) {
                        assert(lookup(r, c)->0 == v.push(pos));
                        if k < v.len() {
                            assert(lookup(r, c)->0[k] == v[k]);
                        }
                    }
                }
            }
            assert forall|q: usize| has_position(m1, c, q) implies has_position(r, c, q) by {
                let v = lookup(m1, c)->0;
                let j = choose|j: int| 0 <= j < v.len() && v[j] == q;
                assert(lookup(r, c)->0[j] == q);
            }
            assert(has_position(r, c, pos)) by {
                let w = lookup(r, c)->0;
                assert(w[w.len() - 1] == pos);
            }
        }
        assert forall|q: usize| has_position(m, c, q) implies has_position(r, c, q) by {
            assert(has_position(m1, c, q));
        }
        assert forall|k: int| 0 <= k < sv.len() && gv.contains(sv[k]) implies has_position(r, c, sv[k]) by {
            if k < t.len() {
                assert(t[k] == sv[k]);
                assert(has_position(m1, c, sv[k]));
            }
        }
    }
}

proof fn lemma_offset_fold(o: Pairs, c: char, gf: Seq<usize>, secret: Seq<char>)
    requires
        pairs_wf(o),
        offset_sound(o, secret),
        barred_sound(o, secret),
        secret.contains(c),
        forall|k: int| 0 <= k < gf.len() ==> !(gf[k] < secret.len() && secret[gf[k] as int] == c),
    ensures
        pairs_wf(offset_fold(o, c, gf)),
        offset_sound(offset_fold(o, c, gf), secret),
        barred_sound(offset_fold(o, c, gf), secret),
        forall|d: char, q: usize| has_position(o, d, q) ==> has_position(offset_fold(o, c, gf), d, q),
        forall|k: int| 0 <= k < gf.len() ==> has_position(offset_fold(o, c, gf), c, gf[k]),
    decreases gf.len(),
{
    if gf.len() > 0 {
        let t = gf.drop_last();
        assert forall|k: int| 0 <= k < t.len() implies !(t[k] < secret.len() && secret[t[k] as int] == c) by {
            assert(t[k] == gf[k]);
        }
        lemma_offset_fold(o, c, t, secret);
        let o1 = offset_fold(o, c, t);
        let pos = gf.last();
        let r = offset_step(o1, c, pos);
        assert(r == offset_fold(o, c, gf));
        if !has_position(o1, c, pos) {
            lemma_add_position(o1, c, pos);
            assert forall|d: char| #[trigger] lookup(r, d) is Some implies secret.contains(d) by {
                if d != c {
                    assert(lookup(r, d) == lookup(o1, d));
                }
            }
            assert forall|d: char, q: usize| has_position(o1, d, q) implies has_position(r, d, q) by {
                if d == c {
                    let v = lookup(o1, c)->0;
                    let j = choose|j: int| 0 <= j < v.len() && v[j] == q;
                    assert(lookup(r, c)->0[j] == q);
                } else {
                    assert(lookup(r, d) == lookup(o1, d));
                }
            }
            assert(has_position(r, c, pos)) by {
                let w = lookup(r, c)->0;
                assert(w[w.len() - 1] == pos);
            }
            assert forall|d: char, q: usize| #[trigger] has_position(r, d, q) implies !(q < secret.len() && secret[q as int] == d) by {
                if d != c {
                    assert(lookup(r, d) == lookup(o1, d));
                    assert(has_position(o1, d, q));
                } else if q != pos {
                    let w = lookup(r, c)->0;
                    let j = choose|j: int| 0 <= j < w.len() && w[j] == q;
                    if let Some(v) = lookup(o1, c) {
                        assert(w == v.push(pos));
                        assert(j < v.len());
                        assert(v[j] == q);
                        assert(has_position(o1, c, q));
                    } else {
                        assert(w == seq![pos]);
                    }
                } else {
                    let last = gf.len() - 1;
                    assert(gf[last] == pos);
                    assert(!(gf[last] < secret.len() && secret[gf[last] as int] == c));
                }
            }
        }
        assert forall|d: char, q: usize| has_position(o, d, q) implies has_position(r, d, q) by {
            assert(has_position(o1, d, q));
        }
        assert forall|k: int| 0 <= k < gf.len() implies has_position(r, c, gf[k]) by {
            if k < t.len() {
                assert(t[k] == gf[k]);
                assert(has_position(o1, c, gf[k]));
            }
        }
    }
}

proof fn lemma_remove_all_within(s: Seq<usize>, m: Seq<usize>, k: int)
    requires
        0 <= k < remove_all(s, m).len(),
    ensures
        s.contains(remove_all(s, m)[k]),
        !m.contains(remove_all(s, m)[k]),
    decreases s.len(),
{
    let t = s.drop_last();
    let r = remove_all(t, m);
    if k < r.len() {
        lemma_remove_all_within(t, m, k);
        assert(remove_all(s, m)[k] == r[k]);
        let j = choose|j: int| 0 <= j < t.len() && t[j] == r[k];
        assert(s[j] == r[k]);
    } else {
        assert(remove_all(s, m)[k] == s.last());
        assert(s[s.len() - 1] == s.last());
    }
}

proof fn lemma_remove_all(s: Seq<usize>, m: Seq<usize>, x: usize)
    requires
        s.contains(x),
        !m.contains(x),
    ensures
        remove_all(s, m).contains(x),
    decreases s.len(),
{
    let t = s.drop_last();
    if s.last() == x {
        assert(remove_all(s, m).last() == x);
    } else {
        let j = choose|j: int| 0 <= j < s.len() && s[j] == x;
        assert(t[j] == x);
        lemma_remove_all(t, m, x);
        let r = remove_all(t, m);
        let k = choose|k: int| 0 <= k < r.len() && r[k] == x;
        if !m.contains(s.last()) {
            assert(remove_all(s, m)[k] == x);
        }
    }
}

proof fn lemma_absorb_letter(k: Knowledge, secret: Seq<char>, c: char, gv: Seq<usize>)
    requires
        knowledge_sound(k, secret),
        secret.len() <= usize::MAX,
    ensures
        knowledge_sound(absorb_letter(k, word_letters(secret), c, gv), secret),
        forall|d: char, q: usize|
            has_position(k.matched, d, q) ==> has_position(
                absorb_letter(k, word_letters(secret), c, gv).matched,
                d,
                q,
            ),
        forall|d: char|
            lookup(k.wrong, d) is Some ==> lookup(
                absorb_letter(k, word_letters(secret), c, gv).wrong,
                d,
            ) is Some,
        forall|q: usize|
            gv.contains(q) && q < secret.len() && secret[q as int] == c ==> has_position(
                absorb_letter(k, word_letters(secret), c, gv).matched,
                c,
                q,
            ),
        !secret.contains(c) ==> lookup(absorb_letter(k, word_letters(secret), c, gv).wrong, c) is Some,
        forall|d: char, q: usize|
            has_position(k.offset, d, q) ==> has_position(
                absorb_letter(k, word_letters(secret), c, gv).offset,
                d,
                q,
            ),
        forall|q: usize|
            gv.contains(q) && secret.contains(c) && !(q < secret.len() && secret[q as int] == c)
                ==> has_position(absorb_letter(k, word_letters(secret), c, gv).offset, c, q),
{
    let sl = word_letters(secret);
    lemma_word_letters(secret, c);
    let r = absorb_letter(k, sl, c, gv);
    match lookup(sl, c) {
        Some(sv) => {
            assert(sv == positions_in(secret, c));
            lemma_match_fold(k.matched, c, gv, sv, secret);
            let m1 = match_fold(k.matched, c, gv, sv);
            let gf = match lookup(m1, c) {
                Some(mv) => remove_all(gv, mv),
                None => gv,
            };
            assert forall|j: int| 0 <= j < gf.len() implies !(gf[j] < secret.len() && secret[gf[j] as int] == c) by {
                let x = gf[j];
                if x < secret.len() && secret[x as int] == c {
                    let inside = if let Some(mv) = lookup(m1, c) {
                        lemma_remove_all_within(gv, mv, j);
                        gv.contains(x) && !mv.contains(x)
                    } else {
                        gv.contains(x)
                    };
                    assert(inside);
                    lemma_word_letters(secret, c);
                    assert(sv.contains(x));
                    let i = choose|i: int| 0 <= i < sv.len() && sv[i] == x;
                    assert(gv.contains(sv[i]));
                    assert(has_position(m1, c, x));
                }
            }
            lemma_offset_fold(k.offset, c, gf, secret);
            assert forall|q: usize| gv.contains(q) && secret.contains(c) && !(q < secret.len() && secret[q as int] == c) implies has_position(r.offset, c, q) by {
                if let Some(mv) = lookup(m1, c) {
                    if mv.contains(q) {
                        let j = choose|j: int| 0 <= j < mv.len() && mv[j] == q;
                        assert(lookup(m1, c)->0[j] < secret.len());
                    }
                    lemma_remove_all(gv, mv, q);
                }
                let j = choose|j: int| 0 <= j < gf.len() && gf[j] == q;
                assert(has_position(r.offset, c, gf[j]));
            }
            assert forall|d: char, q: usize| has_position(k.matched, d, q) implies has_position(r.matched, d, q) by {
                if d != c {
                    assert(lookup(m1, d) == lookup(k.matched, d));
                }
            }
            assert forall|q: usize| gv.contains(q) && q < secret.len() && secret[q as int] == c implies has_position(r.matched, c, q) by {
                assert(sv.contains(q));
                let j = choose|j: int| 0 <= j < sv.len() && sv[j] == q;
                assert(gv.contains(sv[j]));
            }
        },
        None => {
            lemma_put(k.wrong, c, seq![1usize]);
            assert forall|d: char| #[trigger] lookup(r.wrong, d) is Some implies !secret.contains(d) by {
                if d != c {
                    assert(lookup(r.wrong, d) == lookup(k.wrong, d));
                }
            }
            assert forall|d: char| lookup(k.wrong, d) is Some implies lookup(r.wrong, d) is Some by {
                if d != c {
                    assert(lookup(r.wrong, d) == lookup(k.wrong, d));
                }
            }
            assert forall|q: usize| gv.contains(q) && q < secret.len() && secret[q as int] == c implies has_position(r.matched, c, q) by {
                assert(secret.contains(c));
            }
        },
    }
}

proof fn lemma_absorb_all(k: Knowledge, secret: Seq<char>, guess: Pairs)
    requires
        knowledge_sound(k, secret),
        secret.len() <= usize::MAX,
    ensures
        knowledge_sound(absorb_all(k, word_letters(secret), guess), secret),
        forall|d: char, q: usize|
            has_position(k.matched, d, q) ==> has_position(
                absorb_all(k, word_letters(secret), guess).matched,
                d,
                q,
            ),
        forall|d: char|
            lookup(k.wrong, d) is Some ==> lookup(absorb_all(k, word_letters(secret), guess).wrong, d)
                is Some,
        forall|i: int, q: usize|
            0 <= i < guess.len() && guess[i].1.contains(q) && q < secret.len() && secret[q as int]
                == guess[i].0 ==> has_position(
                absorb_all(k, word_letters(secret), guess).matched,
                guess[i].0,
                q,
            ),
        forall|i: int|
            0 <= i < guess.len() && !secret.contains(guess[i].0) ==> lookup(
                absorb_all(k, word_letters(secret), guess).wrong,
                guess[i].0,
            ) is Some,
        forall|d: char, q: usize|
            has_position(k.offset, d, q) ==> has_position(
                absorb_all(k, word_letters(secret), guess).offset,
                d,
                q,
            ),
        forall|i: int, q: usize|
            0 <= i < guess.len() && guess[i].1.contains(q) && secret.contains(guess[i].0) && !(q
                < secret.len() && secret[q as int] == guess[i].0) ==> has_position(
                absorb_all(k, word_letters(secret), guess).offset,
                guess[i].0,
                q,
            ),
    decreases guess.len(),
{
    if guess.len() > 0 {
        let t = guess.drop_last();
        lemma_absorb_all(k, secret, t);
        let k1 = absorb_all(k, word_letters(secret), t);
        lemma_absorb_letter(k1, secret, guess.last().0, guess.last().1);
        assert forall|i: int| 0 <= i < t.len() implies t[i] == guess[i] by {}
    }
}

/// A round is consistent: what it knows is true of its secret, and its hint
/// shows nothing but letters of the secret at their places.
pub open spec fn consistent(g: GameView) -> bool {
    &&& knowledge_sound(
        Knowledge { wrong: g.wrong_lord, matched: g.match_lord, offset: g.offset_lord },
        g.secret,
    )
    &&& g.secret_lord == word_letters(g.secret)
    &&& g.secret.len() <= usize::MAX
    &&& g.hint.len() == g.secret.len()
    &&& forall|j: int| 0 <= j < g.hint.len() ==> g.hint[j] == '_' || g.hint[j] == g.secret[j]
}

/// A round starts consistent.
pub proof fn lemma_initial_consistent(words: Seq<Seq<char>>, i: int)
    requires
        0 <= i < words.len(),
        words[i].len() <= usize::MAX,
    ensures
        consistent(initial(words, i)),
{
    let g = initial(words, i);
    assert(pairs_wf(g.wrong_lord));
    assert forall|c: char| #[trigger] lookup(g.wrong_lord, c) is None by {}
    assert forall|c: char| #[trigger] lookup(g.match_lord, c) is None by {}
}

/// Every move keeps a round consistent.
pub proof fn lemma_step_consistent(g: GameView, input: Seq<char>)
    requires
        consistent(g),
        input.len() <= usize::MAX,
    ensures
        consistent(step(g, input).0),
{
    let g2 = step(g, input).0;
    if g2 != g {
        let k = Knowledge { wrong: g.wrong_lord, matched: g.match_lord, offset: g.offset_lord };
        lemma_absorb_all(k, g.secret, word_letters(input));
        let k2 = absorb_all(k, word_letters(g.secret), word_letters(input));
        assert(g2.match_lord == k2.matched);
        assert forall|j: int| 0 <= j < g2.hint.len() implies g2.hint[j] == '_' || g2.hint[j] == g2.secret[j] by {
            if j < input.len() && mark_at(k2.matched, k2.offset, input, j) == 'm' {
                let c = input[j];
                let v = lookup(k2.matched, c)->0;
                let idx = choose|idx: int| 0 <= idx < v.len() && v[idx] == j as usize;
                assert(lookup(k2.matched, c)->0[idx] < g.secret.len());
            }
        }
    }
}

/// Every move keeps what was known: exact matches, absent letters and the
/// places barred to a letter stay.
pub proof fn lemma_step_keeps_knowledge(g: GameView, input: Seq<char>)
    requires
        consistent(g),
    ensures
        forall|c: char, q: usize|
            has_position(g.match_lord, c, q) ==> has_position(step(g, input).0.match_lord, c, q),
        forall|c: char|
            lookup(g.wrong_lord, c) is Some ==> lookup(step(g, input).0.wrong_lord, c) is Some,
        forall|c: char, q: usize|
            has_position(g.offset_lord, c, q) ==> has_position(step(g, input).0.offset_lord, c, q),
{
    let k = Knowledge { wrong: g.wrong_lord, matched: g.match_lord, offset: g.offset_lord };
    lemma_absorb_all(k, g.secret, word_letters(input));
}

/// Only a scored guess changes a round: commands, unknown words, the solving
/// guess and rejected guesses leave it as it was.
pub proof fn lemma_only_scored_guesses_change(g: GameView, input: Seq<char>)
    ensures
        !(step(g, input).1 is Marks) ==> step(g, input).0 == g,
{
}

/// What the mark `ms[i]` of guess `input` says about the secret.
pub open spec fn mark_meaning(ms: Seq<char>, secret: Seq<char>, input: Seq<char>, i: int) -> bool {
    let exact = i < secret.len() && input[i] == secret[i];
    &&& (ms[i] == 'm' <==> exact)
    &&& (ms[i] == 'o' <==> secret.contains(input[i]) && !exact)
    &&& (ms[i] == 'x' <==> !secret.contains(input[i]))
}

/// The marks of a scored guess: `m` exactly where the guess has the secret's
/// letter, `o` exactly where it has a letter of the secret not at its place,
/// and `x` exactly where it has a letter the secret lacks.
pub proof fn lemma_marks(g: GameView, input: Seq<char>)
    requires
        consistent(g),
        input.len() <= usize::MAX,
        step(g, input).1 is Marks,
    ensures
        step(g, input).1->Marks_0.len() == input.len(),
        forall|i: int|
            0 <= i < input.len() ==> #[trigger] mark_meaning(
                step(g, input).1->Marks_0,
                g.secret,
                input,
                i,
            ),
{
    let k = Knowledge { wrong: g.wrong_lord, matched: g.match_lord, offset: g.offset_lord };
    let gl = word_letters(input);
    lemma_absorb_all(k, g.secret, gl);
    let k2 = absorb_all(k, word_letters(g.secret), gl);
    let ms = step(g, input).1->Marks_0;
    assert(ms == marks_of(k2.matched, k2.offset, input));
    assert forall|i: int| 0 <= i < input.len() implies #[trigger] mark_meaning(ms, g.secret, input, i) by {
        let c = input[i];
        let exact = i < g.secret.len() && input[i] == g.secret[i];
        if ms[i] == 'm' {
            let v = lookup(k2.matched, c)->0;
            let idx = choose|idx: int| 0 <= idx < v.len() && v[idx] == i as usize;
            assert(lookup(k2.matched, c)->0[idx] < g.secret.len());
        }
        if exact {
            lemma_word_letters(input, c);
            lemma_find_range(gl, c);
            let j = find_letter(gl, c);
            assert(input.contains(c));
            assert(gl[j].0 == c);
            assert(gl[j].1 == positions_in(input, c));
            assert(gl[j].1.contains(i as usize));
            assert(has_position(k2.matched, c, i as usize));
        }
        if ms[i] == 'o' || ms[i] == 'x' {
            assert(lookup(k2.offset, c) is Some <==> ms[i] == 'o');
        }
        if g.secret.contains(c) && !exact {
            lemma_word_letters(input, c);
            lemma_find_range(gl, c);
            let j = find_letter(gl, c);
            assert(input.contains(c));
            assert(gl[j].0 == c);
            assert(gl[j].1.contains(i as usize));
            assert(has_position(k2.offset, c, i as usize));
        }
        if !g.secret.contains(c) {
            if let Some(v) = lookup(k2.matched, c) {
                if v.contains(i as usize) {
                    let idx = choose|idx: int| 0 <= idx < v.len() && v[idx] == i as usize;
                    assert(lookup(k2.matched, c)->0[idx] < g.secret.len());
                }
            }
        }
    }
}

/// After a scored guess, every letter of it that the secret lacks is
/// recorded as absent.
pub proof fn lemma_absent_letters_recorded(g: GameView, input: Seq<char>)
    requires
        consistent(g),
        input.len() <= usize::MAX,
        step(g, input).1 is Marks,
    ensures
        forall|j: int|
            0 <= j < input.len() && !g.secret.contains(input[j]) ==> lookup(
                step(g, input).0.wrong_lord,
                input[j],
            ) is Some,
{
    let k = Knowledge { wrong: g.wrong_lord, matched: g.match_lord, offset: g.offset_lord };
    let gl = word_letters(input);
    lemma_absorb_all(k, g.secret, gl);
    assert forall|j: int| 0 <= j < input.len() && !g.secret.contains(input[j]) implies lookup(
        step(g, input).0.wrong_lord,
        input[j],
    ) is Some by {
        let c = input[j];
        lemma_word_letters(input, c);
        lemma_find_range(gl, c);
        assert(input.contains(c));
        assert(gl[find_letter(gl, c)].0 == c);
    }
}

/// A guess that uses a letter recorded as absent is rejected.
pub proof fn lemma_absent_letter_rejects(g: GameView, guess: Seq<char>, c: char)
    requires
        lookup(g.wrong_lord, c) is Some,
        guess.contains(c),
        guess.len() <= usize::MAX,
    ensures
        rejection(g, word_letters(guess)) is Some,
{
    let gl = word_letters(guess);
    lemma_word_letters(guess, c);
    lemma_find_range(g.wrong_lord, c);
    let i = find_letter(g.wrong_lord, c);
    lemma_first_violation(gl, g.wrong_lord, Lords::Wrong);
    assert(letter_violation(gl, g.wrong_lord[i].0, g.wrong_lord[i].1, Lords::Wrong) is Some);
}

proof fn lemma_first_missing_none(v: Seq<usize>, h: Seq<usize>)
    requires
        first_missing(v, h) is None,
    ensures
        forall|x: usize| v.contains(x) ==> h.contains(x),
    decreases v.len(),
{
    if v.len() > 0 {
        lemma_first_missing_none(v.drop_first(), h);
        assert forall|x: usize| v.contains(x) implies h.contains(x) by {
            let j = choose|j: int| 0 <= j < v.len() && v[j] == x;
            if j > 0 {
                assert(v.drop_first()[j - 1] == x);
            }
        }
    }
}

/// A guess that lacks a recorded exact match is rejected.
pub proof fn lemma_exact_match_required(g: GameView, guess: Seq<char>, c: char, p: usize)
    requires
        has_position(g.match_lord, c, p),
        !(p < guess.len() && guess[p as int] == c),
        guess.len() <= usize::MAX,
    ensures
        rejection(g, word_letters(guess)) is Some,
{
    let gl = word_letters(guess);
    lemma_word_letters(guess, c);
    lemma_find_range(g.match_lord, c);
    let i = find_letter(g.match_lord, c);
    let v = g.match_lord[i].1;
    lemma_first_violation(gl, g.match_lord, Lords::Right);
    if let Some(gv) = lookup(gl, c) {
        if first_missing(v, gv) is None {
            lemma_first_missing_none(v, gv);
            assert(v.contains(p));
            let k = choose|k: int| 0 <= k < gv.len() && gv[k] == p;
            assert(gv[k] < guess.len() && guess[gv[k] as int] == c);
        }
    }
    assert(letter_violation(gl, g.match_lord[i].0, g.match_lord[i].1, Lords::Right) is Some);
}

proof fn lemma_first_shared_some(v: Seq<usize>, h: Seq<usize>, x: usize)
    requires
        v.contains(x),
        h.contains(x),
    ensures
        first_shared(v, h) is Some,
    decreases v.len(),
{
    if !h.contains(v[0]) {
        let j = choose|j: int| 0 <= j < v.len() && v[j] == x;
        assert(v.drop_first()[j - 1] == x);
        lemma_first_shared_some(v.drop_first(), h, x);
    }
}

/// A guess that puts a letter at a place barred to it is rejected.
pub proof fn lemma_barred_place_rejects(g: GameView, guess: Seq<char>, c: char, p: usize)
    requires
        has_position(g.offset_lord, c, p),
        p < guess.len(),
        guess[p as int] == c,
        guess.len() <= usize::MAX,
    ensures
        rejection(g, word_letters(guess)) is Some,
{
    let gl = word_letters(guess);
    lemma_word_letters(guess, c);
    lemma_find_range(g.offset_lord, c);
    let i = find_letter(g.offset_lord, c);
    let v = g.offset_lord[i].1;
    assert(guess.contains(c));
    lemma_first_shared_some(v, positions_in(guess, c), p);
    lemma_first_violation(gl, g.offset_lord, Lords::Offset);
    assert(letter_violation(gl, g.offset_lord[i].0, g.offset_lord[i].1, Lords::Offset) is Some);
}

/// `x: wrong letter`: a letter marked `x` is absent from the secret, is
/// recorded as absent, and every following guess that uses it is rejected.
pub proof fn lemma_x_mark_bars(g: GameView, input: Seq<char>, later: Seq<char>, i: int)
    requires
        consistent(g),
        input.len() <= usize::MAX,
        step(g, input).1 is Marks,
        0 <= i < input.len(),
        step(g, input).1->Marks_0[i] == 'x',
        later.contains(input[i]),
        later.len() <= usize::MAX,
    ensures
        !g.secret.contains(input[i]),
        lookup(step(g, input).0.wrong_lord, input[i]) is Some,
        rejection(step(g, input).0, word_letters(later)) is Some,
{
    lemma_marks(g, input);
    assert(mark_meaning(step(g, input).1->Marks_0, g.secret, input, i));
    lemma_absent_letters_recorded(g, input);
    lemma_absent_letter_rejects(step(g, input).0, later, input[i]);
}

/// `o: you can't put this letter here anymore`: a letter marked `o` occurs in
/// the secret elsewhere, its place is recorded as barred to it, and every
/// following guess with that letter at that place is rejected.
pub proof fn lemma_o_mark_bars(g: GameView, input: Seq<char>, later: Seq<char>, i: int)
    requires
        consistent(g),
        input.len() <= usize::MAX,
        step(g, input).1 is Marks,
        0 <= i < input.len(),
        step(g, input).1->Marks_0[i] == 'o',
        i < later.len(),
        later[i] == input[i],
        later.len() <= usize::MAX,
    ensures
        g.secret.contains(input[i]),
        !(i < g.secret.len() && g.secret[i] == input[i]),
        has_position(step(g, input).0.offset_lord, input[i], i as usize),
        rejection(step(g, input).0, word_letters(later)) is Some,
{
    lemma_marks(g, input);
    assert(mark_meaning(step(g, input).1->Marks_0, g.secret, input, i));
    let k = Knowledge { wrong: g.wrong_lord, matched: g.match_lord, offset: g.offset_lord };
    let gl = word_letters(input);
    let c = input[i];
    lemma_absorb_all(k, g.secret, gl);
    lemma_word_letters(input, c);
    lemma_find_range(gl, c);
    let j = find_letter(gl, c);
    assert(input.contains(c));
    assert(gl[j].0 == c);
    assert(gl[j].1.contains(i as usize));
    lemma_barred_place_rejects(step(g, input).0, later, c, i as usize);
}

proof fn lemma_first_missing_some(v: Seq<usize>, h: Seq<usize>)
    requires
        first_missing(v, h) is Some,
    ensures
        v.contains(first_missing(v, h)->0),
        !h.contains(first_missing(v, h)->0),
    decreases v.len(),
{
    if h.contains(v[0]) {
        lemma_first_missing_some(v.drop_first(), h);
        let x = first_missing(v, h)->0;
        let j = choose|j: int| 0 <= j < v.drop_first().len() && v.drop_first()[j] == x;
        assert(v[j + 1] == x);
    } else {
        assert(v[0] == first_missing(v, h)->0);
    }
}

proof fn lemma_first_shared_found(v: Seq<usize>, h: Seq<usize>)
    requires
        first_shared(v, h) is Some,
    ensures
        v.contains(first_shared(v, h)->0),
        h.contains(first_shared(v, h)->0),
    decreases v.len(),
{
    if !h.contains(v[0]) {
        lemma_first_shared_found(v.drop_first(), h);
        let x = first_shared(v, h)->0;
        let j = choose|j: int| 0 <= j < v.drop_first().len() && v.drop_first()[j] == x;
        assert(v[j + 1] == x);
    } else {
        assert(v[0] == first_shared(v, h)->0);
    }
}

/// `lookup` of a table at the letter of one of its entries gives that entry.
proof fn lemma_entry(known: Pairs, i: int)
    requires
        pairs_wf(known),
        0 <= i < known.len(),
    ensures
        lookup(known, known[i].0) == Some(known[i].1),
        known[i].1.len() > 0,
{
    crate::letters::lemma_find_present(known, i);
}

/// The table of exact matches accepts a guess exactly when the guess has
/// every recorded letter at every place recorded for it; nothing else counts.
pub proof fn lemma_exact_table_accepts(guess: Seq<char>, known: Pairs)
    requires
        pairs_wf(known),
        guess.len() <= usize::MAX,
    ensures
        first_violation(word_letters(guess), known, Lords::Right) is None <==> forall|c: char, p: usize|
            #[trigger] has_position(known, c, p) ==> p < guess.len() && guess[p as int] == c,
{
    let gl = word_letters(guess);
    lemma_first_violation(gl, known, Lords::Right);
    if first_violation(gl, known, Lords::Right) is None {
        assert forall|c: char, p: usize| #[trigger] has_position(known, c, p) implies p < guess.len() && guess[p as int] == c by {
            lemma_find_range(known, c);
            let i = find_letter(known, c);
            let v = known[i].1;
            assert(letter_violation(gl, known[i].0, known[i].1, Lords::Right) is None);
            lemma_word_letters(guess, c);
            let gv = lookup(gl, c)->0;
            lemma_first_missing_none(v, gv);
            assert(v.contains(p));
            let k = choose|k: int| 0 <= k < gv.len() && gv[k] == p;
            assert(gv[k] < guess.len());
        }
    } else {
        let i = choose|i: int| 0 <= i < known.len() && !(letter_violation(gl, #[trigger] known[i].0, known[i].1, Lords::Right) is None);
        let c = known[i].0;
        let v = known[i].1;
        lemma_entry(known, i);
        lemma_word_letters(guess, c);
        let p = match lookup(gl, c) {
            Some(gv) => {
                lemma_first_missing_some(v, gv);
                first_missing(v, gv)->0
            },
            None => v[0],
        };
        assert(v.contains(p)) by {
            if lookup(gl, c) is None {
                assert(v[0] == p);
            }
        }
        assert(has_position(known, c, p));
        if p < guess.len() && guess[p as int] == c {
            assert(guess.contains(c));
            assert(positions_in(guess, c).contains(p));
        }
    }
}

/// The table of barred places accepts a guess exactly when the guess uses
/// every recorded letter and puts none at a place barred to it.
pub proof fn lemma_barred_table_accepts(guess: Seq<char>, known: Pairs)
    requires
        pairs_wf(known),
        guess.len() <= usize::MAX,
    ensures
        first_violation(word_letters(guess), known, Lords::Offset) is None <==> (forall|c: char|
            #[trigger] lookup(known, c) is Some ==> guess.contains(c)) && (forall|c: char, p: usize|
            #[trigger] has_position(known, c, p) ==> !(p < guess.len() && guess[p as int] == c)),
{
    let gl = word_letters(guess);
    lemma_first_violation(gl, known, Lords::Offset);
    if first_violation(gl, known, Lords::Offset) is None {
        assert forall|c: char| #[trigger] lookup(known, c) is Some implies guess.contains(c) by {
            lemma_find_range(known, c);
            let i = find_letter(known, c);
            assert(letter_violation(gl, known[i].0, known[i].1, Lords::Offset) is None);
            lemma_word_letters(guess, c);
        }
        assert forall|c: char, p: usize| #[trigger] has_position(known, c, p) implies !(p < guess.len() && guess[p as int] == c) by {
            lemma_find_range(known, c);
            let i = find_letter(known, c);
            let v = known[i].1;
            assert(letter_violation(gl, known[i].0, known[i].1, Lords::Offset) is None);
            lemma_word_letters(guess, c);
            if p < guess.len() && guess[p as int] == c {
                assert(guess.contains(c));
                let gv = lookup(gl, c)->0;
                assert(gv.contains(p));
                assert(v.contains(p));
                lemma_first_shared_some(v, gv, p);
            }
        }
    } else {
        let i = choose|i: int| 0 <= i < known.len() && !(letter_violation(gl, #[trigger] known[i].0, known[i].1, Lords::Offset) is None);
        let c = known[i].0;
        let v = known[i].1;
        lemma_entry(known, i);
        lemma_word_letters(guess, c);
        if let Some(gv) = lookup(gl, c) {
            lemma_first_shared_found(v, gv);
            let p = first_shared(v, gv)->0;
            assert(has_position(known, c, p));
            let k = choose|k: int| 0 <= k < gv.len() && gv[k] == p;
            assert(gv[k] < guess.len() && guess[gv[k] as int] == c);
        } else {
            assert(lookup(known, c) is Some);
        }
    }
}

/// The table of absent letters accepts a guess exactly when the guess uses
/// none of its letters.
pub proof fn lemma_absent_table_accepts(guess: Seq<char>, known: Pairs)
    requires
        pairs_wf(known),
        guess.len() <= usize::MAX,
    ensures
        first_violation(word_letters(guess), known, Lords::Wrong) is None <==> forall|c: char|
            #[trigger] lookup(known, c) is Some ==> !guess.contains(c),
{
    let gl = word_letters(guess);
    lemma_first_violation(gl, known, Lords::Wrong);
    if first_violation(gl, known, Lords::Wrong) is None {
        assert forall|c: char| #[trigger] lookup(known, c) is Some implies !guess.contains(c) by {
            lemma_find_range(known, c);
            let i = find_letter(known, c);
            assert(letter_violation(gl, known[i].0, known[i].1, Lords::Wrong) is None);
            lemma_word_letters(guess, c);
        }
    } else {
        let i = choose|i: int| 0 <= i < known.len() && !(letter_violation(gl, #[trigger] known[i].0, known[i].1, Lords::Wrong) is None);
        let c = known[i].0;
        lemma_entry(known, i);
        lemma_word_letters(guess, c);
    }
}

/// What is known never rules out the secret itself: in a consistent round
/// the secret passes every table.
pub proof fn lemma_secret_always_accepted(g: GameView)
    requires
        consistent(g),
    ensures
        rejection(g, word_letters(g.secret)) is None,
{
    let s = g.secret;
    lemma_exact_table_accepts(s, g.match_lord);
    assert forall|c: char, p: usize| #[trigger] has_position(g.match_lord, c, p) implies p < s.len() && s[p as int] == c by {
        let v = lookup(g.match_lord, c)->0;
        let k = choose|k: int| 0 <= k < v.len() && v[k] == p;
        assert(lookup(g.match_lord, c)->0[k] < s.len());
    }
    lemma_barred_table_accepts(s, g.offset_lord);
    lemma_absent_table_accepts(s, g.wrong_lord);
    lemma_secret_never_rejects(word_letters(s), g.secret_lord);
}

/// After a scored guess the hint shows the secret's letter at every place
/// where the guess matched it exactly, and is unchanged elsewhere.
pub proof fn lemma_hint_after_guess(g: GameView, input: Seq<char>)
    requires
        consistent(g),
        input.len() <= usize::MAX,
        step(g, input).1 is Marks,
    ensures
        step(g, input).0.hint.len() == g.hint.len(),
        forall|j: int|
            0 <= j < g.hint.len() ==> #[trigger] step(g, input).0.hint[j] == (if j < input.len()
                && input[j] == g.secret[j] {
                g.secret[j]
            } else {
                g.hint[j]
            }),
{
    lemma_marks(g, input);
    let g2 = step(g, input).0;
    let ms = step(g, input).1->Marks_0;
    assert forall|j: int| 0 <= j < g.hint.len() implies #[trigger] g2.hint[j] == (if j < input.len()
        && input[j] == g.secret[j] {
        g.secret[j]
    } else {
        g.hint[j]
    }) by {
        if j < input.len() {
            assert(mark_meaning(ms, g.secret, input, j));
            assert(ms[j] == mark_at(g2.match_lord, g2.offset_lord, input, j));
        }
    }
}

/// The secret's own table never rules a guess out.
pub proof fn lemma_secret_never_rejects(guess: Pairs, known: Pairs)
    ensures
        first_violation(guess, known, Lords::Secret) is None,
    decreases known.len(),
{
    if known.len() > 0 {
        lemma_secret_never_rejects(guess, known.drop_first());
    }
}

} // verus!
