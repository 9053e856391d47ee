use wordl::game::{Game, Reply};
use wordl::rules::Violation;

fn words(ws: &[&str]) -> Vec<String> {
    ws.iter().map(|w| w.to_string()).collect()
}

fn round() -> Game {
    Game::new(words(&["once", "more", "oboe", "obey", "onme", "gone", "mice"]), 0)
}

#[test]
fn new_round_starts_with_blank_hint() {
    let g = round();
    assert_eq!(g.secret(), "once");
    assert_eq!(g.hint(), "____");
    assert_eq!(g.wrong_letters(), "");
}

#[test]
fn commands_do_not_change_the_round() {
    let mut g = round();
    assert_eq!(g.play("!quit"), Reply::Quit);
    assert_eq!(g.play("!q"), Reply::Quit);
    assert_eq!(g.play("!d"), Reply::Reveal);
    assert_eq!(g.play("!hint"), Reply::Hint);
    assert_eq!(g.play("!h"), Reply::Hint);
    for c in ["!legend", "!l", "!help", "!"] {
        assert_eq!(g.play(c), Reply::Legend);
    }
    assert_eq!(g.hint(), "____");
}

#[test]
fn unknown_word_is_refused() {
    let mut g = round();
    assert_eq!(g.play("zzzz"), Reply::NotAWord);
    assert_eq!(g.play(""), Reply::NotAWord);
    assert!(g.is_word("oboe"));
    assert!(!g.is_word("obo"));
}

#[test]
fn secret_word_solves() {
    let mut g = round();
    assert_eq!(g.play("once"), Reply::Solved);
    assert_eq!(g.hint(), "____");
}

#[test]
fn scored_guesses_mark_and_teach() {
    let mut g = round();
    assert_eq!(g.play("more"), Reply::Marks("xoxm".to_string()));
    assert_eq!(g.hint(), "___e");
    assert_eq!(g.wrong_letters(), "m, r");

    assert_eq!(g.play("oboe"), Reply::Marks("mxom".to_string()));
    assert_eq!(g.hint(), "o__e");
    assert_eq!(g.wrong_letters(), "m, r, b");
}

#[test]
fn guesses_against_what_is_known_are_rejected() {
    let mut g = round();
    assert_eq!(g.play("more"), Reply::Marks("xoxm".to_string()));
    // The `o` seen at position 1 may not come back there.
    assert_eq!(g.play("gone"), Reply::Rejected(Violation::CannotBe { letter: 'o', position: 1 }));
    // The `o` must appear somewhere.
    assert_eq!(g.play("mice"), Reply::Rejected(Violation::AtLeast { letter: 'o', count: 1 }));
    // `m` is known to be absent.
    assert_eq!(g.play("onme"), Reply::Rejected(Violation::Excluded { letter: 'm' }));
    assert_eq!(g.play("oboe"), Reply::Marks("mxom".to_string()));
    // The `e` found at position 3 must stay there.
    assert_eq!(g.play("obey"), Reply::Rejected(Violation::MustBe { letter: 'e', position: 3 }));
    assert_eq!(g.hint(), "o__e");
    assert_eq!(g.play("once"), Reply::Solved);
}

#[test]
fn marks_m_exactly_where_letters_match() {
    // Secret "ab": the second `a` of "aa" is a letter of the secret out of
    // place, so it gets `o`, and `a` may no longer stand second.
    let mut g = Game::new(words(&["ab", "aa", "ba"]), 0);
    assert_eq!(g.play("aa"), Reply::Marks("mo".to_string()));
    assert_eq!(g.hint(), "a_");
    assert_eq!(g.wrong_letters(), "");
    assert_eq!(g.play("ba"), Reply::Rejected(Violation::MustBe { letter: 'a', position: 0 }));
}

#[test]
fn x_marks_only_absent_letters_and_bars_them() {
    let mut g = Game::new(words(&["ab", "ac", "cb"]), 0);
    assert_eq!(g.play("ac"), Reply::Marks("mx".to_string()));
    assert_eq!(g.wrong_letters(), "c");
    assert_eq!(g.play("ac"), Reply::Rejected(Violation::Excluded { letter: 'c' }));
    assert_eq!(g.play("cb"), Reply::Rejected(Violation::MustBe { letter: 'a', position: 0 }));
}

#[test]
fn o_marks_bar_the_letter_at_that_place() {
    // Secret "abc": every letter of "bcb" is out of place.
    let mut g = Game::new(words(&["abc", "bcb", "cab", "cba"]), 0);
    assert_eq!(g.play("bcb"), Reply::Marks("ooo".to_string()));
    // `b` was marked `o` at the third place too, so "cab" is refused.
    assert_eq!(g.play("cab"), Reply::Rejected(Violation::CannotBe { letter: 'b', position: 2 }));
    assert_eq!(g.hint(), "___");
    assert_eq!(g.play("cba"), Reply::Marks("omo".to_string()));
    assert_eq!(g.hint(), "_b_");
}

#[test]
fn misplaced_letter_is_marked_o() {
    let mut g = Game::new(words(&["ab", "ba"]), 0);
    assert_eq!(g.play("ba"), Reply::Marks("oo".to_string()));
    assert_eq!(g.hint(), "__");
}

#[test]
fn start_draws_a_secret_from_the_list() {
    for _ in 0..20 {
        let g = Game::start(words(&["one", "two", "six"]));
        assert!(["one", "two", "six"].contains(&g.secret()));
        assert_eq!(g.hint(), "___");
    }
}
