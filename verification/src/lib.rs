//! A word-guessing game in the style of Wordle: the rules that decide which
//! guesses are accepted, how a guess is scored, and what the player learns.

pub mod text;
pub mod letters;
pub mod rules;
pub mod knowledge;
pub mod game;
pub mod lines;
mod chance;
pub mod wordlist;
pub mod menu;
pub mod laws;
