//! What a message asks of the bot: the debug commands and their arguments,
//! and which listing an embed of another bot holds.

use vstd::prelude::*;
use crate::extract::{parse_u64, parsed_u64, Listing};
use crate::text::{chars_of, contains_text, find, is_match_at, split, split_text, texts_of};

verus! {

/// The debug commands.
#[derive(Clone, Copy, Debug, PartialEq, Eq, Structural)]
pub enum DebugCommand {
    Info,
    DropAnalyze,
    Embed,
    Message,
    RegexifyText,
    ParseTopWishlist,
    ParseCollection,
    ParseLookup,
    ParseResults,
    ParseAnalysis,
}

/// Why a debug message names no command.
#[derive(Clone, Copy, Debug, PartialEq, Eq, Structural)]
pub enum CommandError {
    /// Nothing follows the word `debug`.
    Usage,
    /// What follows is no command.
    Unknown,
}

/// Why a debug message names no message.
#[derive(Clone, Copy, Debug, PartialEq, Eq, Structural)]
pub enum ReferenceError {
    /// No channel is given.
    NoChannel,
    /// The channel is no number.
    BadChannel,
    /// No message is given.
    NoMessage,
    /// The message is no number.
    BadMessage,
}

/// What an embed of another bot holds.
#[derive(Clone, Copy, Debug, PartialEq, Eq, Structural)]
pub enum EmbedKind {
    /// A listing with one character per line.
    Listing(Listing),
    /// The card of one character.
    Lookup,
    /// Nothing that is read.
    Other,
}

/// The space that separates the words of a command.
pub open spec fn space() -> Seq<char> {
    seq![' ']
}

/// The command that the word `word` names.
pub open spec fn command_named(word: Seq<char>) -> Option<DebugCommand> {
    if word == "info"@ {
        Some(DebugCommand::Info)
    } else if word == "kdropanalyze"@ || word == "kda"@ {
        Some(DebugCommand::DropAnalyze)
    } else if word == "embed"@ {
        Some(DebugCommand::Embed)
    } else if word == "message"@ {
        Some(DebugCommand::Message)
    } else if word == "regexify-text"@ || word == "regextxt"@ {
        Some(DebugCommand::RegexifyText)
    } else if word == "parse-qingque-atopwl"@ {
        Some(DebugCommand::ParseTopWishlist)
    } else if word == "parse-katana-kc_ow"@ {
        Some(DebugCommand::ParseCollection)
    } else if word == "parse-katana-klu_lookup"@ {
        Some(DebugCommand::ParseLookup)
    } else if word == "parse-katana-klu_results"@ {
        Some(DebugCommand::ParseResults)
    } else if word == "parse-calf-analysis"@ {
        Some(DebugCommand::ParseAnalysis)
    } else {
        None
    }
}

/// The command of a debug message: its second word.
pub open spec fn command_of(content: Seq<char>) -> Result<DebugCommand, CommandError> {
    let words = split_text(content, space());
    if words.len() < 2 {
        Err(CommandError::Usage)
    } else {
        match command_named(words[1]) {
            Some(c) => Ok(c),
            None => Err(CommandError::Unknown),
        }
    }
}

/// The message that a debug message points at: channel and message, its
/// third and fourth word.
pub open spec fn reference_of(content: Seq<char>) -> Result<(u64, u64), ReferenceError> {
    let words = split_text(content, space());
    if words.len() < 3 {
        Err(ReferenceError::NoChannel)
    } else {
        match parsed_u64(words[2]) {
            None => Err(ReferenceError::BadChannel),
            Some(channel) => if words.len() < 4 {
                Err(ReferenceError::NoMessage)
            } else {
                match parsed_u64(words[3]) {
                    None => Err(ReferenceError::BadMessage),
                    Some(message) => Ok((channel, message)),
                }
            },
        }
    }
}

/// A message that announces a drop.
pub open spec fn announces_drop(content: Seq<char>) -> bool {
    (contains_text(content, "is dropping"@) && contains_text(content, "cards!"@)) || contains_text(
        content,
        "I'm dropping 3 cards since this server is currently active!"@,
    )
}

/// What an embed holds, by the name of its author, which comes first, and by
/// its title.
pub open spec fn embed_kind(author: Option<Seq<char>>, title: Option<Seq<char>>) -> EmbedKind {
    if author == Some("Card Collection"@) {
        EmbedKind::Listing(Listing::Collection)
    } else if title == Some("Character Lookup"@) {
        EmbedKind::Lookup
    } else if title == Some("Character Results"@) {
        EmbedKind::Listing(Listing::Results)
    } else if title == Some("Top Wishlist"@) {
        EmbedKind::Listing(Listing::TopWishlist)
    } else {
        EmbedKind::Other
    }
}

/// A message that holds a drop analysis.
pub open spec fn holds_analysis(content: Seq<char>) -> bool {
    contains_text(content, "Apricot v6 Drop Analysis Engine"@)
}

/// The characters of a text that may be missing.
pub open spec fn text_of(t: Option<&str>) -> Option<Seq<char>> {
    match t {
        Some(s) => Some(s@),
        None => None,
    }
}

fn is_text(given: &Vec<char>, literal: &str) -> (same: bool)
    ensures
        same == (given@ == literal@),
{
    let want = chars_of(literal);
    if given.len() != want.len() {
        return false;
    }
    let same = is_match_at(given, &want, 0);
    assert(given@.subrange(0, given@.len() as int) =~= given@);
    same
}

fn holds_text(content: &Vec<char>, literal: &str) -> (b: bool)
    ensures
        b == contains_text(content@, literal@),
{
    find(content, &chars_of(literal)).is_some()
}

fn space_chars() -> (v: Vec<char>)
    ensures
        v@ == space(),
        v.len() == 1,
{
    let v: Vec<char> = vec![' '];
    assert(v@ =~= space());
    v
}

/// Finds the command that a word names.
pub fn parse_debug_command(word: &str) -> (command: Option<DebugCommand>)
    ensures
        command == command_named(word@),
{
    let w = chars_of(word);
    if is_text(&w, "info") {
        Some(DebugCommand::Info)
    } else if is_text(&w, "kdropanalyze") || is_text(&w, "kda") {
        Some(DebugCommand::DropAnalyze)
    } else if is_text(&w, "embed") {
        Some(DebugCommand::Embed)
    } else if is_text(&w, "message") {
        Some(DebugCommand::Message)
    } else if is_text(&w, "regexify-text") || is_text(&w, "regextxt") {
        Some(DebugCommand::RegexifyText)
    } else if is_text(&w, "parse-qingque-atopwl") {
        Some(DebugCommand::ParseTopWishlist)
    } else if is_text(&w, "parse-katana-kc_ow") {
        Some(DebugCommand::ParseCollection)
    } else if is_text(&w, "parse-katana-klu_lookup") {
        Some(DebugCommand::ParseLookup)
    } else if is_text(&w, "parse-katana-klu_results") {
        Some(DebugCommand::ParseResults)
    } else if is_text(&w, "parse-calf-analysis") {
        Some(DebugCommand::ParseAnalysis)
    } else {
        None
    }
}

/// Finds the command of a debug message.
pub fn debug_command(content: &str) -> (command: Result<DebugCommand, CommandError>)
    ensures
        command == command_of(content@),
{
    let words = split(&chars_of(content), &space_chars());
    assert(texts_of(words@).len() == words@.len());
    if words.len() < 2 {
        return Err(CommandError::Usage);
    }
    assert(texts_of(words@)[1] == words@[1]@);
    match parse_debug_command(crate::text::string_of(&words[1]).as_str()) {
        Some(c) => Ok(c),
        None => Err(CommandError::Unknown),
    }
}

/// Finds the message that a debug message points at.
pub fn message_reference(content: &str) -> (reference: Result<(u64, u64), ReferenceError>)
    ensures
        reference == reference_of(content@),
{
    let words = split(&chars_of(content), &space_chars());
    assert(texts_of(words@).len() == words@.len());
    if words.len() < 3 {
        return Err(ReferenceError::NoChannel);
    }
    assert(texts_of(words@)[2] == words@[2]@);
    match parse_u64(&words[2]) {
        None => Err(ReferenceError::BadChannel),
        Some(channel) => {
            if words.len() < 4 {
                return Err(ReferenceError::NoMessage);
            }
            assert(texts_of(words@)[3] == words@[3]@);
            match parse_u64(&words[3]) {
                None => Err(ReferenceError::BadMessage),
                Some(message) => Ok((channel, message)),
            }
        },
    }
}

/// Tells whether a message announces a drop.
pub fn is_drop_announcement(content: &str) -> (b: bool)
    ensures
        b == announces_drop(content@),
{
    let c = chars_of(content);
    (holds_text(&c, "is dropping") && holds_text(&c, "cards!")) || holds_text(
        &c,
        "I'm dropping 3 cards since this server is currently active!",
    )
}

/// Tells whether a message holds a drop analysis.
pub fn is_analysis(content: &str) -> (b: bool)
    ensures
        b == holds_analysis(content@),
{
    holds_text(&chars_of(content), "Apricot v6 Drop Analysis Engine")
}

fn names(given: Option<&str>, literal: &str) -> (b: bool)
    ensures
        b == (text_of(given) == Some(literal@)),
{
    match given {
        Some(s) => is_text(&chars_of(s), literal),
        None => false,
    }
}

/// Tells what an embed holds, from the name of its author and its title.
pub fn classify_embed(author: Option<&str>, title: Option<&str>) -> (kind: EmbedKind)
    ensures
        kind == embed_kind(text_of(author), text_of(title)),
{
    if names(author, "Card Collection") {
        EmbedKind::Listing(Listing::Collection)
    } else if names(title, "Character Lookup") {
        EmbedKind::Lookup
    } else if names(title, "Character Results") {
        EmbedKind::Listing(Listing::Results)
    } else if names(title, "Top Wishlist") {
        EmbedKind::Listing(Listing::TopWishlist)
    } else {
        EmbedKind::Other
    }
}

} // verus!
