use vstd::prelude::*;
use crate::letters::{
    Pairs, lookup, letters_of, word_letters, string_to_wordls, LetterMap, holds_position,
    lemma_word_letters,
};
use crate::rules::{Lords, Violation, first_violation, find_violation};
use crate::knowledge::{Knowledge, absorb_all, absorb_guess};
use crate::text::{push_char, same_text, replace_nth_char};
use crate::laws::{consistent, lemma_initial_consistent, lemma_step_consistent};

verus! {

/// The abstract state of a round.
pub struct GameView {
    /// The words that may be guessed.
    pub words: Seq<Seq<char>>,
    /// The word to find.
    pub secret: Seq<char>,
    /// The letter table of the secret.
    pub secret_lord: Pairs,
    /// Letters known to be absent from the secret.
    pub wrong_lord: Pairs,
    /// Letters known at exact positions.
    pub match_lord: Pairs,
    /// Letters known to occur elsewhere than at the recorded positions.
    pub offset_lord: Pairs,
    /// The secret with the letters found so far and `_` elsewhere.
    pub hint: Seq<char>,
    /// The absent letters, separated by ", ".
    pub wrong: Seq<char>,
}

/// The abstract answer to one line of input.
pub enum ReplyView {
    Quit,
    Reveal,
    Hint,
    Legend,
    Solved,
    NotAWord,
    Rejected(Violation),
    Marks(Seq<char>),
}

/// The answer to one line of input during a round.
#[derive(Debug, PartialEq, Eq)]
pub enum Reply {
    /// The player leaves the game.
    Quit,
    /// Show the secret word.
    Reveal,
    /// Show what is known: the hint and the absent letters.
    Hint,
    /// Show the rules, the hint and the absent letters.
    Legend,
    /// The guess is the secret word.
    Solved,
    /// The input is neither a command nor a word of the list.
    NotAWord,
    /// The guess contradicts what is already known.
    Rejected(Violation),
    /// The guess was scored: one mark per character, `m` for an exact match,
    /// `o` for a letter that occurs elsewhere, `x` otherwise.
    Marks(String),
}

impl View for Reply {
    type V = ReplyView;

    open spec fn view(&self) -> ReplyView {
        match self {
            Reply::Quit => ReplyView::Quit,
            Reply::Reveal => ReplyView::Reveal,
            Reply::Hint => ReplyView::Hint,
            Reply::Legend => ReplyView::Legend,
            Reply::Solved => ReplyView::Solved,
            Reply::NotAWord => ReplyView::NotAWord,
            Reply::Rejected(v) => ReplyView::Rejected(*v),
            Reply::Marks(s) => ReplyView::Marks(s@),
        }
    }
}

/// The mark for position `i` of the guess `g`.
pub open spec fn mark_at(matched: Pairs, offset: Pairs, g: Seq<char>, i: int) -> char {
    if lookup(matched, g[i]) matches Some(v) && v.contains(i as usize) {
        'm'
    } else if lookup(offset, g[i]) is Some {
        'o'
    } else {
        'x'
    }
}

/// The marks of the guess `g`.
pub open spec fn marks_of(matched: Pairs, offset: Pairs, g: Seq<char>) -> Seq<char> {
    Seq::new(g.len(), |i: int| mark_at(matched, offset, g, i))
}

/// The hint after the first `n` characters of guess `g` were scored: each
/// exact match shows its letter.
pub open spec fn hint_upto(hint: Seq<char>, matched: Pairs, offset: Pairs, g: Seq<char>, n: int) -> Seq<
    char,
> {
    Seq::new(
        hint.len(),
        |j: int|
            if j < n && j < g.len() && mark_at(matched, offset, g, j) == 'm' {
                g[j]
            } else {
                hint[j]
            },
    )
}

/// The letters `ks` separated by ", ".
pub open spec fn join_letters(ks: Seq<char>) -> Seq<char>
    decreases ks.len(),
{
    if ks.len() == 0 {
        Seq::empty()
    } else if ks.len() == 1 {
        seq![ks[0]]
    } else {
        join_letters(ks.drop_last()) + seq![',', ' ', ks.last()]
    }
}

/// The first contradiction between a guess with letter table `gl` and what is
/// known, the tables checked in the order exact, misplaced, absent, secret.
pub open spec fn rejection(g: GameView, gl: Pairs) -> Option<Violation> {
    match first_violation(gl, g.match_lord, Lords::Right) {
        Some(v) => Some(v),
        None => match first_violation(gl, g.offset_lord, Lords::Offset) {
            Some(v) => Some(v),
            None => match first_violation(gl, g.wrong_lord, Lords::Wrong) {
                Some(v) => Some(v),
                None => first_violation(gl, g.secret_lord, Lords::Secret),
            },
        },
    }
}

/// The state after the accepted guess `input`.
pub open spec fn after_guess(g: GameView, input: Seq<char>) -> GameView {
    let k = absorb_all(
        Knowledge { wrong: g.wrong_lord, matched: g.match_lord, offset: g.offset_lord },
        g.secret_lord,
        word_letters(input),
    );
    GameView {
        wrong_lord: k.wrong,
        match_lord: k.matched,
        offset_lord: k.offset,
        hint: hint_upto(g.hint, k.matched, k.offset, input, input.len() as int),
        wrong: join_letters(letters_of(k.wrong)),
        ..g
    }
}

/// Whether `input` is the command to quit.
pub open spec fn is_quit(input: Seq<char>) -> bool {
    input == "!quit"@ || input == "!q"@
}

/// Whether `input` is the command to show the secret.
pub open spec fn is_reveal(input: Seq<char>) -> bool {
    input == "!d"@
}

/// Whether `input` is the command to show the hint.
pub open spec fn is_hint(input: Seq<char>) -> bool {
    input == "!hint"@ || input == "!h"@
}

/// Whether `input` is the command to show the rules.
pub open spec fn is_legend(input: Seq<char>) -> bool {
    input == "!legend"@ || input == "!l"@ || input == "!help"@ || input == "!"@
}

/// One move of a round: the state after the line `input` and the answer.
pub open spec fn step(g: GameView, input: Seq<char>) -> (GameView, ReplyView) {
    if is_quit(input) {
        (g, ReplyView::Quit)
    } else if is_reveal(input) {
        (g, ReplyView::Reveal)
    } else if is_hint(input) {
        (g, ReplyView::Hint)
    } else if is_legend(input) {
        (g, ReplyView::Legend)
    } else if !g.words.contains(input) {
        (g, ReplyView::NotAWord)
    } else if input == g.secret {
        (g, ReplyView::Solved)
    } else {
        match rejection(g, word_letters(input)) {
            Some(v) => (g, ReplyView::Rejected(v)),
            None => {
                let g2 = after_guess(g, input);
                (g2, ReplyView::Marks(marks_of(g2.match_lord, g2.offset_lord, input)))
            },
        }
    }
}

/// The state at the start of a round whose secret is `words[secret_index]`.
pub open spec fn initial(words: Seq<Seq<char>>, secret_index: int) -> GameView {
    GameView {
        words: words,
        secret: words[secret_index],
        secret_lord: word_letters(words[secret_index]),
        wrong_lord: Seq::empty(),
        match_lord: Seq::empty(),
        offset_lord: Seq::empty(),
        hint: Seq::new(words[secret_index].len(), |i: int| '_'),
        wrong: Seq::empty(),
    }
}

/// The characters of `words`.
pub open spec fn words_view(words: Seq<String>) -> Seq<Seq<char>> {
    words.map_values(|w: String| w@)
}

/// The letters of `m` separated by ", ".
pub fn join_wrong_letters(m: &LetterMap) -> (r: String)
    ensures
        r@ == join_letters(letters_of(m@)),
{
    let ks = m.letters();
    let mut out = String::new();
    let mut i: usize = 0;
    while i < ks.len()
        invariant
            i <= ks@.len(),
            ks@ == letters_of(m@),
            out@ == join_letters(ks@.take(i as int)),
        decreases ks.len() - i,
    {
        if i > 0 {
            push_char(&mut out, ',');
            push_char(&mut out, ' ');
        }
        push_char(&mut out, ks[i]);
        proof {
            let t = ks@.take(i + 1);
            assert(t.drop_last() =~= ks@.take(i as int));
            assert(t.last() == ks@[i as int]);
            assert(out@ =~= join_letters(t));
        }
        i = i + 1;
    }
    assert(ks@.take(ks@.len() as int) =~= ks@);
    out
}

/// One round of the game.
pub struct Game {
    words: Vec<String>,
    secret: String,
    secret_lord: LetterMap,
    wrong_lord: LetterMap,
    match_lord: LetterMap,
    offset_lord: LetterMap,
    hint: String,
    wrong: String,
}

impl View for Game {
    type V = GameView;

    closed spec fn view(&self) -> GameView {
        GameView {
            words: words_view(self.words@),
            secret: self.secret@,
            secret_lord: self.secret_lord@,
            wrong_lord: self.wrong_lord@,
            match_lord: self.match_lord@,
            offset_lord: self.offset_lord@,
            hint: self.hint@,
            wrong: self.wrong@,
        }
    }
}

impl Game {
    /// The round is consistent: see `consistent`.
    pub open spec fn wf(&self) -> bool {
        consistent(self@)
    }

    /// A round over `words` whose secret is `words[secret_index]`.
    pub fn new(words: Vec<String>, secret_index: usize) -> (r: Game)
        requires
            secret_index < words@.len(),
        ensures
            r.wf(),
            r@ == initial(words_view(words@), secret_index as int),
    {
        let secret = words[secret_index].clone();
        let secret_lord = string_to_wordls(secret.as_str());
        let n = secret.as_str().unicode_len();
        let mut hint = String::new();
        let mut i: usize = 0;
        while i < n
            invariant
                i <= n,
                hint@ == Seq::new(i as nat, |j: int| '_'),
            decreases n - i,
        {
            push_char(&mut hint, '_');
            i = i + 1;
            assert(hint@ =~= Seq::new(i as nat, |j: int| '_'));
        }
        let g = Game {
            words,
            secret,
            secret_lord,
            wrong_lord: LetterMap::new(),
            match_lord: LetterMap::new(),
            offset_lord: LetterMap::new(),
            hint,
            wrong: String::new(),
        };
        proof {
            assert(g@.words[secret_index as int] == g.secret@);
            assert(g@ == initial(words_view(g.words@), secret_index as int));
            lemma_initial_consistent(g@.words, secret_index as int);
        }
        g
    }

    /// The secret word.
    pub fn secret(&self) -> (r: &str)
        ensures
            r@ == self@.secret,
    {
        self.secret.as_str()
    }

    /// The secret with the letters found so far and `_` elsewhere.
    pub fn hint(&self) -> (r: &str)
        ensures
            r@ == self@.hint,
    {
        self.hint.as_str()
    }

    /// The letters known to be absent, separated by ", ".
    pub fn wrong_letters(&self) -> (r: &str)
        ensures
            r@ == self@.wrong,
    {
        self.wrong.as_str()
    }

    /// Whether `input` is one of the words of the round.
    pub fn is_word(&self, input: &str) -> (r: bool)
        ensures
            r == self@.words.contains(input@),
    {
        let mut i: usize = 0;
        while i < self.words.len()
            invariant
                i <= self.words@.len(),
                self@.words.len() == self.words@.len(),
                forall|j: int| 0 <= j < i ==> self@.words[j] != input@,
            decreases self.words@.len() - i,
        {
            assert(self@.words[i as int] == self.words@[i as int]@);
            if same_text(self.words[i].as_str(), input) {
                return true;
            }
            i = i + 1;
        }
        false
    }

    /// Scores the accepted guess `input` and shows its exact matches in the hint.
    fn score(&mut self, input: &str) -> (r: String)
        ensures
            r@ == marks_of(old(self)@.match_lord, old(self)@.offset_lord, input@),
            final(self)@ == (GameView {
                hint: hint_upto(
                    old(self)@.hint,
                    old(self)@.match_lord,
                    old(self)@.offset_lord,
                    input@,
                    input@.len() as int,
                ),
                ..old(self)@
            }),
    {
        let ghost h0 = self.hint@;
        let ghost m = self@.match_lord;
        let ghost o = self@.offset_lord;
        let n = input.unicode_len();
        let mut marks = String::new();
        let mut i: usize = 0;
        assert(self.hint@ =~= hint_upto(h0, m, o, input@, 0));
        while i < n
            invariant
                n == input@.len(),
                i <= n,
                m == self@.match_lord,
                o == self@.offset_lord,
                self@ == (GameView { hint: hint_upto(h0, m, o, input@, i as int), ..old(self)@ }),
                marks@ == marks_of(m, o, input@).take(i as int),
            decreases n - i,
        {
            let ch = input.get_char(i);
            let exact = match self.match_lord.get(ch) {
                Some(v) => holds_position(v, i),
                None => false,
            };
            let mark = if exact {
                'm'
            } else if self.offset_lord.has_letter(ch) {
                'o'
            } else {
                'x'
            };
            assert(mark == mark_at(m, o, input@, i as int));
            if exact {
                let h = replace_nth_char(self.hint.as_str(), i, ch);
                self.hint = h;
            }
            assert(self.hint@ =~= hint_upto(h0, m, o, input@, i + 1));
            push_char(&mut marks, mark);
            i = i + 1;
            assert(marks@ =~= marks_of(m, o, input@).take(i as int));
        }
        assert(marks@ =~= marks_of(m, o, input@));
        marks
    }

    /// Answers one line of input (without its line break) and updates the round.
    pub fn play(&mut self, input: &str) -> (r: Reply)
        requires
            old(self).wf(),
        ensures
            final(self).wf(),
            (final(self)@, r@) == step(old(self)@, input@),
    {
        if same_text(input, "!quit") || same_text(input, "!q") {
            return Reply::Quit;
        }
        if same_text(input, "!d") {
            return Reply::Reveal;
        }
        if same_text(input, "!hint") || same_text(input, "!h") {
            return Reply::Hint;
        }
        if same_text(input, "!legend") || same_text(input, "!l") || same_text(input, "!help")
            || same_text(input, "!") {
            return Reply::Legend;
        }
        if !self.is_word(input) {
            return Reply::NotAWord;
        }
        if same_text(self.secret.as_str(), input) {
            return Reply::Solved;
        }
        let guess_lord = string_to_wordls(input);
        proof {
            lemma_word_letters(self@.secret, ' ');
            lemma_step_consistent(old(self)@, input@);
        }
        if let Some(v) = find_violation(&guess_lord, &self.match_lord, Lords::Right) {
            return Reply::Rejected(v);
        }
        if let Some(v) = find_violation(&guess_lord, &self.offset_lord, Lords::Offset) {
            return Reply::Rejected(v);
        }
        if let Some(v) = find_violation(&guess_lord, &self.wrong_lord, Lords::Wrong) {
            return Reply::Rejected(v);
        }
        if let Some(v) = find_violation(&guess_lord, &self.secret_lord, Lords::Secret) {
            return Reply::Rejected(v);
        }
        absorb_guess(
            &self.secret_lord,
            &guess_lord,
            &mut self.wrong_lord,
            &mut self.match_lord,
            &mut self.offset_lord,
        );
        self.wrong = join_wrong_letters(&self.wrong_lord);
        let marks = self.score(input);
        Reply::Marks(marks)
    }
}

} // verus!
