use vstd::prelude::*;
use crate::letters::{Pairs, lookup, LetterMap};

verus! {

/// What a table of known letters says about the secret word.
#[derive(Clone, Copy, Debug)]
pub enum Lords {
    /// Letters the secret does not contain.
    Wrong,
    /// Letters known at these exact positions.
    Right,
    /// Letters known to occur, but not at these positions.
    Offset,
    /// The secret word's own letters: they never rule a guess out.
    Secret,
}

/// Why a guess breaks what is already known.
#[derive(Clone, Copy, Debug, PartialEq, Eq)]
pub enum Violation {
    /// The guess uses a letter the secret does not contain.
    Excluded { letter: char },
    /// The letter at `position` must be `letter`.
    MustBe { letter: char, position: usize },
    /// The letter at `position` cannot be `letter`.
    CannotBe { letter: char, position: usize },
    /// The guess must contain `letter` (known to occur `count` times).
    AtLeast { letter: char, count: usize },
}

/// The first position of `v` that `g` lacks.
pub open spec fn first_missing(v: Seq<usize>, g: Seq<usize>) -> Option<usize>
    decreases v.len(),
{
    if v.len() == 0 {
        None
    } else if !g.contains(v[0]) {
        Some(v[0])
    } else {
        first_missing(v.drop_first(), g)
    }
}

/// The first position of `v` that `g` holds.
pub open spec fn first_shared(v: Seq<usize>, g: Seq<usize>) -> Option<usize>
    decreases v.len(),
{
    if v.len() == 0 {
        None
    } else if g.contains(v[0]) {
        Some(v[0])
    } else {
        first_shared(v.drop_first(), g)
    }
}

/// How the known positions `v` of letter `c` rule out the guess whose letter
/// table is `guess`, if they do.
pub open spec fn letter_violation(guess: Pairs, c: char, v: Seq<usize>, lord: Lords) -> Option<
    Violation,
> {
    match lookup(guess, c) {
        Some(gv) => match lord {
            Lords::Wrong => Some(Violation::Excluded { letter: c }),
            Lords::Right => match first_missing(v, gv) {
                Some(p) => Some(Violation::MustBe { letter: c, position: p }),
                None => None,
            },
            Lords::Offset => match first_shared(v, gv) {
                Some(p) => Some(Violation::CannotBe { letter: c, position: p }),
                None => None,
            },
            Lords::Secret => None,
        },
        None => match lord {
            Lords::Right => Some(Violation::MustBe { letter: c, position: v[0] }),
            Lords::Offset => Some(Violation::AtLeast { letter: c, count: v.len() as usize }),
            _ => None,
        },
    }
}

/// The first violation found going through the table `known` in order.
pub open spec fn first_violation(guess: Pairs, known: Pairs, lord: Lords) -> Option<Violation>
    decreases known.len(),
{
    if known.len() == 0 {
        None
    } else {
        match letter_violation(guess, known[0].0, known[0].1, lord) {
            Some(x) => Some(x),
            None => first_violation(guess, known.drop_first(), lord),
        }
    }
}

/// A guess passes a table exactly when no letter of the table rules it out.
pub proof fn lemma_first_violation(guess: Pairs, known: Pairs, lord: Lords)
    ensures
        first_violation(guess, known, lord) is None <==> forall|i: int|
            0 <= i < known.len() ==> letter_violation(guess, #[trigger] known[i].0, known[i].1, lord)
                is None,
    decreases known.len(),
{
    if known.len() > 0 {
        let t = known.drop_first();
        lemma_first_violation(guess, t, lord);
        assert forall|i: int| 0 <= i < t.len() implies t[i] == known[i + 1] by {}
        if first_violation(guess, known, lord) is None {
            assert forall|i: int| 0 <= i < known.len() implies letter_violation(guess, #[trigger] known[i].0, known[i].1, lord) is None by {
                if i > 0 {
                    assert(t[i - 1] == known[i]);
                }
            }
        }
    }
}

/// The first position of `v` that `g` holds (`shared`) or lacks (otherwise).
fn find_missing(v: &Vec<usize>, g: &Vec<usize>, shared: bool) -> (r: Option<usize>)
    ensures
        r == (if shared { first_shared(v@, g@) } else { first_missing(v@, g@) }),
{
    let mut i: usize = 0;
    assert(v@.skip(0) =~= v@);
    while i < v.len()
        invariant
            i <= v.len(),
            (if shared { first_shared(v@, g@) } else { first_missing(v@, g@) }) == (if shared {
                first_shared(v@.skip(i as int), g@)
            } else {
                first_missing(v@.skip(i as int), g@)
            }),
        decreases v.len() - i,
    {
        let p = v[i];
        let held = crate::letters::holds_position(g, p);
        assert(v@.skip(i as int)[0] == p);
        if held == shared {
            return Some(p);
        }
        assert(v@.skip(i as int).drop_first() =~= v@.skip(i + 1));
        i = i + 1;
    }
    None
}

/// The first way in which the table `defender` rules out the guess whose
/// letter table is `guess`, going through `defender` in table order.
pub fn find_violation(guess: &LetterMap, defender: &LetterMap, lord: Lords) -> (r: Option<
    Violation,
>)
    requires
        defender.wf(),
    ensures
        r == first_violation(guess@, defender@, lord),
{
    let n = defender.len();
    let mut i: usize = 0;
    assert(defender@.skip(0) =~= defender@);
    while i < n
        invariant
            n == defender@.len(),
            i <= n,
            defender.wf(),
            first_violation(guess@, defender@, lord) == first_violation(
                guess@,
                defender@.skip(i as int),
                lord,
            ),
        decreases n - i,
    {
        let k = defender.letter_at(i);
        let v = defender.positions_at(i);
        let ghost rest = defender@.skip(i as int);
        assert(rest[0] == defender@[i as int]);
        assert(v@.len() > 0);
        let found: Option<Violation> = match guess.get(k) {
            Some(gv) => match lord {
                Lords::Wrong => Some(Violation::Excluded { letter: k }),
                Lords::Right => match find_missing(v, gv, false) {
                    Some(p) => Some(Violation::MustBe { letter: k, position: p }),
                    None => None,
                },
                Lords::Offset => match find_missing(v, gv, true) {
                    Some(p) => Some(Violation::CannotBe { letter: k, position: p }),
                    None => None,
                },
                Lords::Secret => None,
            },
            None => match lord {
                Lords::Right => Some(Violation::MustBe { letter: k, position: v[0] }),
                Lords::Offset => Some(Violation::AtLeast { letter: k, count: v.len() }),
                _ => None,
            },
        };
        assert(found == letter_violation(guess@, k, v@, lord));
        if found.is_some() {
            return found;
        }
        assert(rest.drop_first() =~= defender@.skip(i + 1));
        i = i + 1;
    }
    None
}

/// Whether the guess whose letter table is `guess` agrees with everything the
/// table `defender` says about the secret.
pub fn check_correct(guess: &LetterMap, defender: &LetterMap, lord: Lords) -> (r: bool)
    requires
        defender.wf(),
    ensures
        r == first_violation(guess@, defender@, lord) is None,
        r <==> forall|i: int|
            0 <= i < defender@.len() ==> letter_violation(
                guess@,
                #[trigger] defender@[i].0,
                defender@[i].1,
                lord,
            ) is None,
{
    proof {
        lemma_first_violation(guess@, defender@, lord);
    }
    find_violation(guess, defender, lord).is_none()
}

} // verus!
