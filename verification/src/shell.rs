//! Splitting a command into words, through the crate `shell_words`.
use vstd::prelude::*;

use crate::text::texts;

verus! {

/// The words that `shell_words::split` makes of a command; none where a quote is
/// left open.
pub uninterp spec fn shell_split(command: Seq<char>) -> Option<Seq<Seq<char>>>;

/// The command that `shell_words::join` makes of words.
pub uninterp spec fn shell_join(words: Seq<Seq<char>>) -> Seq<char>;

/// The words of a list, where there is one.
pub open spec fn words_view(words: Option<Vec<String>>) -> Option<Seq<Seq<char>>> {
    match words {
        Some(w) => Some(texts(w@)),
        None => None,
    }
}

/// `shell_words::split`; its one error means that a quote is left open.
#[verifier::external_body]
pub(crate) fn split_command(command: &str) -> (r: Option<Vec<String>>)
    ensures
        words_view(r) == shell_split(command@),
{
    shell_words::split(command).ok()
}

/// `shell_words::join`, which quotes each word so that splitting the result gives
/// the words back.
#[verifier::external_body]
pub(crate) fn join_command(words: &Vec<String>) -> (r: String)
    ensures
        r@ == shell_join(texts(words@)),
        shell_split(r@) == Some(texts(words@)),
{
    shell_words::join(words)
}

} // verus!
