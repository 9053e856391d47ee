use wordl::letters::{string_to_wordls, LetterMap};
use wordl::rules::{check_correct, find_violation, Lords, Violation};
use wordl::text::{replace_nth_char, same_text};

fn table(m: &LetterMap) -> Vec<(char, Vec<usize>)> {
    (0..m.len()).map(|i| (m.letter_at(i), m.positions_at(i).clone())).collect()
}

#[test]
fn replace_nth_char_replaces_one_position() {
    assert_eq!(replace_nth_char("hello", 1, 'a'), "hallo");
    assert_eq!(replace_nth_char("____", 0, 'o'), "o___");
    assert_eq!(replace_nth_char("____", 3, 'e'), "___e");
}

#[test]
fn replace_nth_char_past_the_end_keeps_the_string() {
    assert_eq!(replace_nth_char("abc", 3, 'z'), "abc");
    assert_eq!(replace_nth_char("", 0, 'z'), "");
}

#[test]
fn replace_nth_char_counts_characters_not_bytes() {
    assert_eq!(replace_nth_char("ёжик", 1, 'ш'), "ёшик");
}

#[test]
fn same_text_compares_characters() {
    assert!(same_text("once", "once"));
    assert!(!same_text("once", "onc"));
    assert!(!same_text("once", "ones"));
}

#[test]
fn string_to_wordls_records_positions_in_order() {
    let m = string_to_wordls("hello");
    assert_eq!(
        table(&m),
        vec![('h', vec![0]), ('e', vec![1]), ('l', vec![2, 3]), ('o', vec![4])]
    );
    assert_eq!(m.get('l').unwrap(), &vec![2, 3]);
    assert!(m.get('z').is_none());
}

#[test]
fn string_to_wordls_of_empty_word_is_empty() {
    assert_eq!(string_to_wordls("").len(), 0);
}

#[test]
fn string_to_wordls_counts_characters() {
    let m = string_to_wordls("ёлка");
    assert_eq!(table(&m), vec![('ё', vec![0]), ('л', vec![1]), ('к', vec![2]), ('а', vec![3])]);
}

#[test]
fn letter_map_add_and_set() {
    let mut m = LetterMap::new();
    m.add('a', 3);
    m.add('b', 1);
    m.add('a', 0);
    assert_eq!(table(&m), vec![('a', vec![3, 0]), ('b', vec![1])]);
    m.set('b', vec![7]);
    assert_eq!(table(&m), vec![('a', vec![3, 0]), ('b', vec![7])]);
    assert_eq!(m.letters(), vec!['a', 'b']);
    assert!(m.has_letter('a') && !m.has_letter('c'));
}

#[test]
fn wrong_letter_in_guess_is_excluded() {
    let mut wrong = LetterMap::new();
    wrong.set('m', vec![1]);
    let guess = string_to_wordls("more");
    assert!(!check_correct(&guess, &wrong, Lords::Wrong));
    assert_eq!(find_violation(&guess, &wrong, Lords::Wrong), Some(Violation::Excluded { letter: 'm' }));
    assert!(check_correct(&string_to_wordls("once"), &wrong, Lords::Wrong));
}

#[test]
fn right_letter_must_stay_in_place() {
    let matched = string_to_wordls("o__e");
    let mut known = LetterMap::new();
    known.set('o', matched.get('o').unwrap().clone());
    known.set('e', matched.get('e').unwrap().clone());
    assert!(check_correct(&string_to_wordls("once"), &known, Lords::Right));
    assert_eq!(
        find_violation(&string_to_wordls("obey"), &known, Lords::Right),
        Some(Violation::MustBe { letter: 'e', position: 3 })
    );
    // The letter missing from the guess altogether names its first position.
    assert_eq!(
        find_violation(&string_to_wordls("alse"), &known, Lords::Right),
        Some(Violation::MustBe { letter: 'o', position: 0 })
    );
}

#[test]
fn offset_letter_cannot_return_and_must_appear() {
    let mut known = LetterMap::new();
    known.set('o', vec![1]);
    assert_eq!(
        find_violation(&string_to_wordls("gone"), &known, Lords::Offset),
        Some(Violation::CannotBe { letter: 'o', position: 1 })
    );
    assert_eq!(
        find_violation(&string_to_wordls("mice"), &known, Lords::Offset),
        Some(Violation::AtLeast { letter: 'o', count: 1 })
    );
    assert!(check_correct(&string_to_wordls("oboe"), &known, Lords::Offset));
}

#[test]
fn secret_table_never_rejects() {
    let secret = string_to_wordls("once");
    for g in ["more", "zzzz", "", "once"] {
        assert!(check_correct(&string_to_wordls(g), &secret, Lords::Secret));
    }
}

#[test]
fn empty_table_accepts_everything() {
    let empty = LetterMap::new();
    for lord in [Lords::Wrong, Lords::Right, Lords::Offset, Lords::Secret] {
        assert!(check_correct(&string_to_wordls("word"), &empty, lord));
    }
}

#[test]
fn letter_table_partitions_the_word() {
    let w = "banana";
    let m = string_to_wordls(w);
    let total: usize = (0..m.len()).map(|i| m.positions_at(i).len()).sum();
    assert_eq!(total, w.chars().count());
    let rebuilt: String = (0..w.chars().count())
        .map(|i| (0..m.len()).find(|&k| m.positions_at(k).contains(&i)).map(|k| m.letter_at(k)).unwrap())
        .collect();
    assert_eq!(rebuilt, w);
}

#[test]
fn letter_table_of_a_concatenation() {
    let m = string_to_wordls("abba");
    assert_eq!(m.get('a').unwrap(), &vec![0, 3]);
    assert_eq!(m.get('b').unwrap(), &vec![1, 2]);
    let ab = string_to_wordls("ab");
    let ba = string_to_wordls("ba");
    assert_eq!(ab.get('a').unwrap(), &vec![0]);
    assert_eq!(ba.get('a').unwrap(), &vec![1]);
}
