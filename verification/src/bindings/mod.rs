//! What the language bindings have in common: the words for kinds of sources and of events.

use crate::text::owned;
use crate::text::same_text;
use crate::types::{ProcessMode, SourceKind};
use vstd::prelude::*;

pub mod node;
pub mod python;

verus! {

/// The word for a kind of source.
pub open spec fn kind_word(kind: SourceKind) -> Seq<char> {
    match kind {
        SourceKind::Mic => "mic"@,
        SourceKind::SystemLoopback => "system"@,
        SourceKind::ProcessLoopback => "process"@,
        SourceKind::Mix => "mix"@,
    }
}

/// The kind of source that a word stands for.
pub open spec fn kind_of_word(word: Seq<char>) -> Option<SourceKind> {
    if word == "mic"@ {
        Some(SourceKind::Mic)
    } else if word == "system"@ {
        Some(SourceKind::SystemLoopback)
    } else if word == "process"@ {
        Some(SourceKind::ProcessLoopback)
    } else if word == "mix"@ {
        Some(SourceKind::Mix)
    } else {
        None
    }
}

/// Every kind has a word of its own: the word of a kind stands for that kind, and a word that
/// stands for a kind is that kind's word.
pub proof fn lemma_words_go_round(kind: SourceKind, word: Seq<char>)
    ensures
        kind_of_word(kind_word(kind)) == Some(kind),
        kind_of_word(word) matches Some(k) ==> kind_word(k) == word,
{
    reveal_strlit("mic");
    reveal_strlit("system");
    reveal_strlit("process");
    reveal_strlit("mix");
    assert("mic"@.len() == 3 && "system"@.len() == 6 && "process"@.len() == 7 && "mix"@.len() == 3);
    assert("mic"@[2] == 'c' && "mix"@[2] == 'x');
}

/// The word for a kind of source.
pub fn source_kind_str(kind: SourceKind) -> (word: String)
    ensures
        word@ == kind_word(kind),
{
    match kind {
        SourceKind::Mic => owned("mic"),
        SourceKind::SystemLoopback => owned("system"),
        SourceKind::ProcessLoopback => owned("process"),
        SourceKind::Mix => owned("mix"),
    }
}

/// The kind of source that a word stands for.
pub fn kind_named(word: &str) -> (kind: Option<SourceKind>)
    ensures
        kind == kind_of_word(word@),
{
    if same_text(word, "mic") {
        Some(SourceKind::Mic)
    } else if same_text(word, "system") {
        Some(SourceKind::SystemLoopback)
    } else if same_text(word, "process") {
        Some(SourceKind::ProcessLoopback)
    } else if same_text(word, "mix") {
        Some(SourceKind::Mix)
    } else {
        None
    }
}

/// The process mode that a word stands for.
pub open spec fn mode_of_word(word: Seq<char>) -> Option<ProcessMode> {
    if word == "include"@ {
        Some(ProcessMode::Include)
    } else if word == "exclude"@ {
        Some(ProcessMode::Exclude)
    } else {
        None
    }
}

/// The process mode that a word stands for.
pub fn mode_named(word: &str) -> (mode: Option<ProcessMode>)
    ensures
        mode == mode_of_word(word@),
{
    if same_text(word, "include") {
        Some(ProcessMode::Include)
    } else if same_text(word, "exclude") {
        Some(ProcessMode::Exclude)
    } else {
        None
    }
}

/// The words are the four that they are.
pub proof fn lemma_the_words_for_kinds(word: Seq<char>)
    ensures
        kind_word(SourceKind::Mic) == "mic"@,
        kind_word(SourceKind::SystemLoopback) == "system"@,
        kind_word(SourceKind::ProcessLoopback) == "process"@,
        kind_word(SourceKind::Mix) == "mix"@,
        kind_of_word("mic"@) == Some(SourceKind::Mic),
        kind_of_word("system"@) == Some(SourceKind::SystemLoopback),
        kind_of_word("process"@) == Some(SourceKind::ProcessLoopback),
        kind_of_word("mix"@) == Some(SourceKind::Mix),
        kind_of_word(word) is Some <==> word == "mic"@ || word == "system"@ || word == "process"@
            || word == "mix"@,
{
    lemma_words_go_round(SourceKind::Mic, word);
    lemma_words_go_round(SourceKind::SystemLoopback, word);
    lemma_words_go_round(SourceKind::ProcessLoopback, word);
    lemma_words_go_round(SourceKind::Mix, word);
}

/// The words for modes are the two that they are.
pub proof fn lemma_the_words_for_modes(word: Seq<char>)
    ensures
        mode_of_word("include"@) == Some(ProcessMode::Include),
        mode_of_word("exclude"@) == Some(ProcessMode::Exclude),
        mode_of_word(word) is Some <==> word == "include"@ || word == "exclude"@,
{
    reveal_strlit("include");
    reveal_strlit("exclude");
    assert("include"@[0] == 'i' && "exclude"@[0] == 'e');
}

} // verus!
