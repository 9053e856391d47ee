use vstd::prelude::*;
use miniz_oxide::inflate::DecompressError;
use crate::lines::{lines_of, split_lines};
use crate::game::{words_view, initial, Game};
use crate::chance::random_index;

verus! {

#[verifier::external_type_specification]
#[verifier::external_body]
pub struct ExDecompressError(DecompressError);

/// The bytes that the raw DEFLATE stream `data` inflates to, or `None` when
/// it is no valid stream.
pub uninterp spec fn inflated(data: Seq<u8>) -> Option<Seq<u8>>;

/// The text that `bytes` decode to when each invalid UTF-8 sequence becomes
/// U+FFFD.
pub uninterp spec fn lossy_text(bytes: Seq<u8>) -> Seq<char>;

/// Inflates a raw DEFLATE stream.
///
/// Trusted: `miniz_oxide::inflate::decompress_to_vec` decompresses `data`
/// with no size limit; its result depends on `data` alone, named here
/// `inflated`. What the bytes are is not stated beyond that name.
#[verifier::external_body]
fn inflate(data: &[u8]) -> (r: Result<Vec<u8>, DecompressError>)
    ensures
        match r {
            Ok(v) => inflated(data@) == Some(v@),
            Err(_) => inflated(data@) is None,
        },
{
    miniz_oxide::inflate::decompress_to_vec(data)
}

/// Decodes bytes as UTF-8, replacing invalid sequences.
///
/// Trusted: `String::from_utf8_lossy` decodes `bytes`, each invalid sequence
/// becoming U+FFFD; the result, a function of `bytes` alone, is named
/// `lossy_text`, and the decoding rules are not written out here.
#[verifier::external_body]
fn decode_lossy(bytes: &[u8]) -> (r: String)
    ensures
        r@ == lossy_text(bytes@),
{
    String::from_utf8_lossy(bytes).into_owned()
}

/// Why a word list could not be used.
#[derive(Clone, Copy, Debug, PartialEq, Eq)]
pub enum LoadError {
    /// The file is no valid compressed stream.
    Corrupt,
    /// The list holds no word.
    NoWords,
}

/// The words of a compressed word list: the lines of its inflated content.
pub open spec fn words_of(data: Seq<u8>) -> Option<Seq<Seq<char>>> {
    match inflated(data) {
        Some(bytes) => Some(lines_of(lossy_text(bytes))),
        None => None,
    }
}

/// The words of the compressed word list `data`, one per line.
pub fn load_words(data: &[u8]) -> (r: Result<Vec<String>, LoadError>)
    ensures
        match r {
            Ok(w) => words_of(data@) == Some(words_view(w@)),
            Err(e) => e == LoadError::Corrupt && words_of(data@) is None,
        },
{
    let bytes = match inflate(data) {
        Ok(b) => b,
        Err(_) => {
            return Err(LoadError::Corrupt);
        },
    };
    let text = decode_lossy(bytes.as_slice());
    Ok(split_lines(text.as_str()))
}

impl Game {
    /// A round over `words` whose secret is drawn at random.
    pub fn start(words: Vec<String>) -> (r: Game)
        requires
            words@.len() > 0,
        ensures
            r.wf(),
            exists|i: int| 0 <= i < words@.len() && r@ == initial(words_view(words@), i),
    {
        let i = random_index(words.len());
        Game::new(words, i)
    }
}

/// A round over the words of the compressed word list `data`, its secret
/// drawn at random.
pub fn start_game(data: &[u8]) -> (r: Result<Game, LoadError>)
    ensures
        match words_of(data@) {
            None => r == Err::<Game, LoadError>(LoadError::Corrupt),
            Some(ws) => if ws.len() == 0 {
                r == Err::<Game, LoadError>(LoadError::NoWords)
            } else {
                r matches Ok(g) && g.wf() && exists|i: int|
                    0 <= i < ws.len() && g@ == initial(ws, i)
            },
        },
{
    let words = load_words(data)?;
    if words.len() == 0 {
        return Err(LoadError::NoWords);
    }
    Ok(Game::start(words))
}

} // verus!
