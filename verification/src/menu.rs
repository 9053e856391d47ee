use vstd::prelude::*;
use crate::game::{is_quit, is_hint, words_view};
use crate::text::same_text;
use crate::chance::random_index;

verus! {

/// Whether `input` asks for a random choice.
pub open spec fn is_random(input: Seq<char>) -> bool {
    input == "!rand"@ || input == "!r"@
}

/// Whether `input` asks for the rules while choosing.
pub open spec fn is_menu_legend(input: Seq<char>) -> bool {
    input == "!legend"@ || input == "!l"@ || input == "!help"@
}

/// The answer to one line of input while choosing a language or a length.
#[derive(Debug, PartialEq, Eq)]
pub enum MenuChoice {
    /// One of the options was chosen.
    Chosen(String),
    /// The player leaves the game.
    Quit,
    /// A hint was asked for before a round started.
    NotStarted,
    /// Show the rules.
    Legend,
    /// The input is neither a command nor one of the options.
    Unknown,
}

/// Answers one line of input while choosing among `options`.
pub fn choose_option(options: &Vec<String>, input: &str) -> (r: MenuChoice)
    requires
        is_random(input@) ==> options@.len() > 0,
    ensures
        is_random(input@) ==> (r matches MenuChoice::Chosen(s) && words_view(options@).contains(s@)),
        !is_random(input@) && is_quit(input@) ==> r is Quit,
        !is_random(input@) && !is_quit(input@) && is_hint(input@) ==> r is NotStarted,
        !is_random(input@) && !is_quit(input@) && !is_hint(input@) && is_menu_legend(input@) ==> r is Legend,
        !is_random(input@) && !is_quit(input@) && !is_hint(input@) && !is_menu_legend(input@) ==> (
        if words_view(options@).contains(input@) {
            r matches MenuChoice::Chosen(s) && s@ == input@
        } else {
            r is Unknown
        }),
{
    if same_text(input, "!rand") || same_text(input, "!r") {
        let k = random_index(options.len());
        let s = options[k].clone();
        assert(words_view(options@)[k as int] == s@);
        return MenuChoice::Chosen(s);
    }
    if same_text(input, "!quit") || same_text(input, "!q") {
        return MenuChoice::Quit;
    }
    if same_text(input, "!hint") || same_text(input, "!h") {
        return MenuChoice::NotStarted;
    }
    if same_text(input, "!legend") || same_text(input, "!l") || same_text(input, "!help") {
        return MenuChoice::Legend;
    }
    let mut i: usize = 0;
    while i < options.len()
        invariant
            i <= options@.len(),
            !is_random(input@) && !is_quit(input@) && !is_hint(input@) && !is_menu_legend(input@),
            forall|j: int| 0 <= j < i ==> words_view(options@)[j] != input@,
        decreases options@.len() - i,
    {
        if same_text(options[i].as_str(), input) {
            assert(words_view(options@)[i as int] == input@);
            return MenuChoice::Chosen(String::from_str(input));
        }
        i = i + 1;
    }
    MenuChoice::Unknown
}

/// Index of the last `.` in `s`, or -1.
pub open spec fn last_dot(s: Seq<char>) -> int
    decreases s.len(),
{
    if s.len() == 0 {
        -1
    } else if s.last() == '.' {
        s.len() - 1
    } else {
        last_dot(s.drop_last())
    }
}

/// The stem of the file name `name` when its extension is `wordlc`: the
/// extension is what follows the last `.`, unless that dot opens the name.
pub open spec fn length_stem(name: Seq<char>) -> Option<Seq<char>> {
    let p = last_dot(name);
    if p > 0 && name.subrange(p + 1, name.len() as int) == "wordlc"@ {
        Some(name.subrange(0, p))
    } else {
        None
    }
}

/// The length that a word-list file named `name` offers, if it is one.
pub fn length_option(name: &str) -> (r: Option<String>)
    ensures
        match r {
            Some(s) => length_stem(name@) == Some(s@),
            None => length_stem(name@) is None,
        },
{
    let n = name.unicode_len();
    let mut i: usize = n;
    let mut found = false;
    assert(name@.take(n as int) =~= name@);
    while i > 0 && !found
        invariant
            i <= n,
            n == name@.len(),
            found ==> i > 0 && last_dot(name@) == i - 1,
            !found ==> last_dot(name@) == last_dot(name@.take(i as int)),
        decreases i * 2 + (if found { 0int } else { 1int }),
    {
        assert(name@.take(i as int).last() == name@[i - 1]);
        if name.get_char(i - 1) == '.' {
            found = true;
        } else {
            assert(name@.take(i as int).drop_last() =~= name@.take(i - 1));
            i = i - 1;
        }
    }
    if !found {
        assert(name@.take(0) =~= Seq::<char>::empty());
        return None;
    }
    if i == 1 {
        return None;
    }
    let p = i - 1;
    let ext = name.substring_char(p + 1, n);
    if same_text(ext, "wordlc") {
        Some(String::from_str(name.substring_char(0, p)))
    } else {
        None
    }
}

/// The directory of the word lists of language `lang`.
pub fn language_dir(lang: &str) -> (r: String)
    ensures
        r@ == "./dict/"@ + lang@,
{
    let mut r = String::from_str("./dict/");
    r.append(lang);
    r
}

/// The word-list file of language `lang` and length `len`.
pub fn word_file(lang: &str, len: &str) -> (r: String)
    ensures
        r@ == "./dict/"@ + lang@ + "/"@ + len@ + ".wordlc"@,
{
    let mut r = language_dir(lang);
    r.append("/");
    r.append(len);
    r.append(".wordlc");
    r
}

/// Whether the answer after a solved round asks for another one.
pub fn wants_another(answer: &str) -> (r: bool)
    ensures
        r == (answer@ == "Y"@ || answer@ == "yes"@ || answer@ == "Yes"@ || answer@ == "y"@),
{
    same_text(answer, "Y") || same_text(answer, "yes") || same_text(answer, "Yes") || same_text(
        answer,
        "y",
    )
}

/// What the program's single argument asks for.
#[derive(Debug, PartialEq, Eq, Clone, Copy)]
pub enum Command {
    /// Print the rules.
    Help,
    /// Play.
    Play,
    /// Stop with a failure status.
    Fail,
}

/// The command named by the program's argument.
pub fn command_for(arg: &str) -> (r: Command)
    ensures
        (arg@ == "help"@ || arg@ == "-h"@ || arg@ == "-help"@) ==> r is Help,
        !(arg@ == "help"@ || arg@ == "-h"@ || arg@ == "-help"@) && arg@ == "game"@ ==> r is Play,
        !(arg@ == "help"@ || arg@ == "-h"@ || arg@ == "-help"@ || arg@ == "game"@) ==> r is Fail,
{
    if same_text(arg, "help") || same_text(arg, "-h") || same_text(arg, "-help") {
        Command::Help
    } else if same_text(arg, "game") {
        Command::Play
    } else {
        Command::Fail
    }
}

} // verus!
