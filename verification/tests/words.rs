use wordl::lines::{char_list, split_lines, string_of};
use wordl::menu::{
    choose_option, command_for, language_dir, length_option, wants_another, word_file, Command,
    MenuChoice,
};
use wordl::wordlist::{load_words, start_game, LoadError};

fn compress(data: &[u8]) -> Vec<u8> {
    miniz_oxide::deflate::compress_to_vec(data, 6)
}

#[test]
fn split_lines_follows_str_lines() {
    for text in ["", "a", "a\n", "a\nb", "a\r\nb\r\n", "\n", "\n\n", "a\r", "a\rb\n", "x\n\ny"] {
        let expected: Vec<String> = text.lines().map(|l| l.to_string()).collect();
        assert_eq!(split_lines(text), expected, "text {:?}", text);
    }
}

#[test]
fn char_list_and_string_of_round_trip() {
    let cs = char_list("héllo");
    assert_eq!(cs, vec!['h', 'é', 'l', 'l', 'o']);
    assert_eq!(string_of(&cs), "héllo");
}

#[test]
fn load_words_inflates_and_splits() {
    let data = compress(b"once\nmore\r\noboe\n");
    assert_eq!(load_words(&data), Ok(vec!["once".to_string(), "more".to_string(), "oboe".to_string()]));
}

#[test]
fn load_words_replaces_invalid_utf8() {
    let data = compress(&[b'a', 0xff, b'\n', b'b']);
    assert_eq!(load_words(&data), Ok(vec!["a\u{FFFD}".to_string(), "b".to_string()]));
}

#[test]
fn load_words_refuses_corrupt_data() {
    assert_eq!(load_words(&[0x07, 0x00, 0x00]), Err(LoadError::Corrupt));
    assert!(matches!(start_game(&[0x07, 0x00]), Err(LoadError::Corrupt)));
}

#[test]
fn start_game_needs_a_word() {
    assert!(matches!(start_game(&compress(b"")), Err(LoadError::NoWords)));
    let g = start_game(&compress(b"once\n")).ok().unwrap();
    assert_eq!(g.secret(), "once");
    assert_eq!(g.hint(), "____");
}

#[test]
fn choose_option_commands() {
    let opts = vec!["en".to_string(), "ru".to_string()];
    assert_eq!(choose_option(&opts, "!quit"), MenuChoice::Quit);
    assert_eq!(choose_option(&opts, "!q"), MenuChoice::Quit);
    assert_eq!(choose_option(&opts, "!hint"), MenuChoice::NotStarted);
    assert_eq!(choose_option(&opts, "!h"), MenuChoice::NotStarted);
    assert_eq!(choose_option(&opts, "!legend"), MenuChoice::Legend);
    assert_eq!(choose_option(&opts, "!l"), MenuChoice::Legend);
    assert_eq!(choose_option(&opts, "!help"), MenuChoice::Legend);
    assert_eq!(choose_option(&opts, "!"), MenuChoice::Unknown);
    assert_eq!(choose_option(&opts, "ru"), MenuChoice::Chosen("ru".to_string()));
    assert_eq!(choose_option(&opts, "de"), MenuChoice::Unknown);
}

#[test]
fn choose_option_random_picks_an_option() {
    let opts = vec!["4".to_string(), "5".to_string(), "6".to_string()];
    let mut seen = Vec::new();
    for _ in 0..200 {
        for cmd in ["!rand", "!r"] {
            match choose_option(&opts, cmd) {
                MenuChoice::Chosen(s) => {
                    assert!(opts.contains(&s));
                    if !seen.contains(&s) {
                        seen.push(s);
                    }
                }
                other => panic!("unexpected {:?}", other),
            }
        }
    }
    assert!(seen.len() > 1);
}

#[test]
fn length_option_reads_the_extension() {
    assert_eq!(length_option("5.wordlc"), Some("5".to_string()));
    assert_eq!(length_option("a.b.wordlc"), Some("a.b".to_string()));
    assert_eq!(length_option("..wordlc"), Some(".".to_string()));
    assert_eq!(length_option(".wordlc"), None);
    assert_eq!(length_option("5.txt"), None);
    assert_eq!(length_option("5.wordlcx"), None);
    assert_eq!(length_option("wordlc"), None);
    assert_eq!(length_option(""), None);
}

#[test]
fn paths_of_the_dictionary() {
    assert_eq!(language_dir("en"), "./dict/en");
    assert_eq!(word_file("en", "5"), "./dict/en/5.wordlc");
}

#[test]
fn another_round_answers() {
    for a in ["Y", "y", "yes", "Yes"] {
        assert!(wants_another(a));
    }
    for a in ["", "n", "YES", "no"] {
        assert!(!wants_another(a));
    }
}

#[test]
fn program_argument_commands() {
    assert_eq!(command_for("help"), Command::Help);
    assert_eq!(command_for("-h"), Command::Help);
    assert_eq!(command_for("-help"), Command::Help);
    assert_eq!(command_for("game"), Command::Play);
    assert_eq!(command_for("play"), Command::Fail);
}
