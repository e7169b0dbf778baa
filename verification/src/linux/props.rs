//! Properties of a registry object, as pairs of a key and a value.

use crate::text::{parse_unsigned, same_text};
use vstd::prelude::*;

verus! {

/// Rate that capture streams ask for, in Hz.
pub const NATIVE_RATE: u32 = 48_000;

/// Channels that capture streams ask for.
pub const NATIVE_CHANNELS: u16 = 2;

/// Kind of a registry object.
#[derive(Debug, Clone, Copy, PartialEq, Eq, Structural)]
pub enum ObjectKind {
    /// A connected client.
    Client,
    /// A node of the graph.
    Node,
    /// A port of a node.
    Port,
    /// A metadata store.
    Metadata,
    /// Anything else.
    Other,
}

/// Properties of a registry object.
#[derive(Debug, Clone)]
pub struct Props {
    /// Keys and values.
    pub entries: Vec<(String, String)>,
}

/// The value of the first entry with the key `key`.
pub open spec fn lookup(entries: Seq<(Seq<char>, Seq<char>)>, key: Seq<char>) -> Option<Seq<char>>
    decreases entries.len(),
{
    if entries.len() == 0 {
        None
    } else if entries[0].0 == key {
        Some(entries[0].1)
    } else {
        lookup(entries.skip(1), key)
    }
}

impl View for Props {
    type V = Seq<(Seq<char>, Seq<char>)>;

    open spec fn view(&self) -> Seq<(Seq<char>, Seq<char>)> {
        Seq::new(self.entries@.len(), |i: int| (self.entries@[i].0@, self.entries@[i].1@))
    }
}

/// The number under `key`, where there is one that is at most `max`.
pub open spec fn number_at(
    props: Seq<(Seq<char>, Seq<char>)>,
    key: Seq<char>,
    max: nat,
) -> Option<nat> {
    match lookup(props, key) {
        Some(text) => crate::text::numeral(text, max),
        None => None,
    }
}

/// The text under `key`, or an empty one.
pub open spec fn text_at(props: Seq<(Seq<char>, Seq<char>)>, key: Seq<char>) -> Seq<char> {
    match lookup(props, key) {
        Some(text) => text,
        None => Seq::empty(),
    }
}

impl Props {
    /// The value of `key`.
    pub fn get(&self, key: &str) -> (value: Option<&str>)
        ensures
            match value {
                Some(v) => lookup(self@, key@) == Some(v@),
                None => lookup(self@, key@) is None,
            },
    {
        let mut i: usize = 0;
        assert(self@.skip(0) == self@);
        while i < self.entries.len()
            invariant
                i <= self.entries@.len(),
                lookup(self@, key@) == lookup(self@.skip(i as int), key@),
            decreases self.entries.len() - i,
        {
            if same_text(self.entries[i].0.as_str(), key) {
                return Some(self.entries[i].1.as_str());
            }
            proof {
                assert(self@.skip(i as int).skip(1) == self@.skip(i + 1));
            }
            i += 1;
        }
        None
    }

    /// The value of `key` as a number of at most `max`.
    pub fn get_number(&self, key: &str, max: u32) -> (n: Option<u32>)
        ensures
            match n {
                Some(v) => number_at(self@, key@, max as nat) == Some(v as nat),
                None => number_at(self@, key@, max as nat) is None,
            },
    {
        match self.get(key) {
            Some(text) => parse_unsigned(text, max),
            None => None,
        }
    }

    /// The value of `key`, or an empty text.
    pub fn get_text(&self, key: &str) -> (text: String)
        ensures
            text@ == text_at(self@, key@),
    {
        match self.get(key) {
            Some(text) => crate::text::owned(text),
            None => {
                let empty: String = String::new();
                assert(empty@ =~= Seq::<char>::empty());
                empty
            },
        }
    }
}

/// The first entry with a key gives its value; where no entry has the key there is none.
pub proof fn lemma_the_first_entry_counts(
    entries: Seq<(Seq<char>, Seq<char>)>,
    key: Seq<char>,
    k: int,
)
    requires
        0 <= k <= entries.len(),
        forall|j: int| 0 <= j < k ==> (#[trigger] entries[j]).0 != key,
        k < entries.len() ==> entries[k].0 == key,
    ensures
        k < entries.len() ==> lookup(entries, key) == Some(entries[k].1) && text_at(entries, key)
            == entries[k].1,
        k == entries.len() ==> lookup(entries, key) is None && text_at(entries, key).len() == 0,
    decreases k,
{
    if k > 0 {
        let rest = entries.skip(1);
        assert forall|j: int| 0 <= j < k - 1 implies (#[trigger] rest[j]).0 != key by {
            assert(rest[j] == entries[j + 1]);
        }
        lemma_the_first_entry_counts(rest, key, k - 1);
    }
}

/// A number that an entry holds in decimal form is read from it, where it is no more than the
/// limit; an entry that is missing or holds anything but digits and one plus sign gives none.
pub proof fn lemma_numbers_are_read(
    props: Seq<(Seq<char>, Seq<char>)>,
    key: Seq<char>,
    n: nat,
    max: nat,
)
    ensures
        lookup(props, key) == Some(crate::text::decimal(n)) && n <= max ==> number_at(
            props,
            key,
            max,
        ) == Some(n),
        lookup(props, key) == Some(crate::text::decimal(n)) && n > max ==> number_at(
            props,
            key,
            max,
        ) is None,
        lookup(props, key) is None ==> number_at(props, key, max) is None,
        lookup(props, key) matches Some(s) ==> s.len() == 0 ==> number_at(props, key, max) is None,
{
    crate::text::lemma_decimals_read_back(n);
    crate::text::lemma_digits_are_read(crate::text::decimal(n), max);
}

} // verus!
