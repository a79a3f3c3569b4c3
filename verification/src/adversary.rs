//! Misbehaviour that a node can be told to show, to test that others notice it.
//!
//! A node picks its mode once, when it starts, and behaves until a given moment.

use crate::text::{number_in, parse_number};
use crate::time::Duration;
use vstd::prelude::*;
use vstd::string::*;

verus! {

/// How a node misbehaves.
#[derive(Clone, Copy, Debug, PartialEq, Eq, Structural)]
pub enum AdversaryMode {
    /// Deletes its chunks after a while and keeps publishing its commitment.
    Lazy,
    /// Deletes half of its chunks again and again, and commits to the rest.
    ChunkDeleter,
    /// Never publishes a commitment.
    Silent,
    /// Signs its commitments with a key that is not its own.
    ThrowawayKey,
    /// Answers every audit by saying that it is still starting up.
    BootstrapShield,
    /// Claims to hold every key and serves made-up bytes.
    FakeStorage,
    /// Holds nothing and fetches what it is asked for.
    Relay,
}

/// How and when a node misbehaves.
#[derive(Clone, Copy, Debug, PartialEq, Eq, Structural)]
pub struct AdversaryConfig {
    /// How.
    pub mode: AdversaryMode,
    /// From when on, in seconds of Unix time.
    pub go_bad_at: u64,
    /// How long a deleter keeps a new chunk.
    pub delete_after: Duration,
    /// How often a deleter deletes.
    pub delete_every: Duration,
}

/// Seconds that a deleter keeps a new chunk, unless it is told otherwise.
pub const DEFAULT_DELETE_AFTER_SECS: u64 = 600;

/// Seconds between deletions, unless a deleter is told otherwise.
pub const DEFAULT_DELETE_EVERY_SECS: u64 = 1800;

/// A byte in lower case.
pub open spec fn lower(byte: u8) -> u8 {
    if 65 <= byte <= 90 {
        (byte + 32) as u8
    } else {
        byte
    }
}

/// Bytes in lower case.
pub open spec fn lowered(bytes: Seq<u8>) -> Seq<u8> {
    bytes.map_values(|byte: u8| lower(byte))
}

/// The mode that a lower-case word names.
pub open spec fn mode_named(word: Seq<u8>) -> Option<AdversaryMode> {
    if word == "lazy".spec_bytes() {
        Some(AdversaryMode::Lazy)
    } else if word == "chunk-deleter".spec_bytes() || word == "chunk_deleter".spec_bytes() {
        Some(AdversaryMode::ChunkDeleter)
    } else if word == "silent".spec_bytes() {
        Some(AdversaryMode::Silent)
    } else if word == "throwaway-key".spec_bytes() || word == "throwaway_key".spec_bytes() {
        Some(AdversaryMode::ThrowawayKey)
    } else if word == "bootstrap-shield".spec_bytes() || word == "bootstrap_shield".spec_bytes() {
        Some(AdversaryMode::BootstrapShield)
    } else if word == "fake-storage".spec_bytes() || word == "fake_storage".spec_bytes() {
        Some(AdversaryMode::FakeStorage)
    } else if word == "relay".spec_bytes() {
        Some(AdversaryMode::Relay)
    } else {
        None
    }
}

/// Every mode is named by its own word, and those of two parts with a hyphen or an underscore
/// between them; no other word names a mode.
pub proof fn modes_have_their_words(word: Seq<u8>)
    ensures
        mode_named(word) == Some(AdversaryMode::Lazy) <==> word == "lazy".spec_bytes(),
        mode_named(word) == Some(AdversaryMode::ChunkDeleter) <==> word
            == "chunk-deleter".spec_bytes() || word == "chunk_deleter".spec_bytes(),
        mode_named(word) == Some(AdversaryMode::Silent) <==> word == "silent".spec_bytes(),
        mode_named(word) == Some(AdversaryMode::ThrowawayKey) <==> word
            == "throwaway-key".spec_bytes() || word == "throwaway_key".spec_bytes(),
        mode_named(word) == Some(AdversaryMode::BootstrapShield) <==> word
            == "bootstrap-shield".spec_bytes() || word == "bootstrap_shield".spec_bytes(),
        mode_named(word) == Some(AdversaryMode::FakeStorage) <==> word
            == "fake-storage".spec_bytes() || word == "fake_storage".spec_bytes(),
        mode_named(word) == Some(AdversaryMode::Relay) <==> word == "relay".spec_bytes(),
{
    reveal_strlit("lazy");
    reveal_strlit("chunk-deleter");
    reveal_strlit("chunk_deleter");
    reveal_strlit("silent");
    reveal_strlit("throwaway-key");
    reveal_strlit("throwaway_key");
    reveal_strlit("bootstrap-shield");
    reveal_strlit("bootstrap_shield");
    reveal_strlit("fake-storage");
    reveal_strlit("fake_storage");
    reveal_strlit("relay");
    vstd::utf8::is_ascii_chars_encode_utf8("lazy"@);
    vstd::utf8::is_ascii_chars_encode_utf8("chunk-deleter"@);
    vstd::utf8::is_ascii_chars_encode_utf8("chunk_deleter"@);
    vstd::utf8::is_ascii_chars_encode_utf8("silent"@);
    vstd::utf8::is_ascii_chars_encode_utf8("throwaway-key"@);
    vstd::utf8::is_ascii_chars_encode_utf8("throwaway_key"@);
    vstd::utf8::is_ascii_chars_encode_utf8("bootstrap-shield"@);
    vstd::utf8::is_ascii_chars_encode_utf8("bootstrap_shield"@);
    vstd::utf8::is_ascii_chars_encode_utf8("fake-storage"@);
    vstd::utf8::is_ascii_chars_encode_utf8("fake_storage"@);
    vstd::utf8::is_ascii_chars_encode_utf8("relay"@);
    assert("chunk-deleter".spec_bytes()[0] != "throwaway-key".spec_bytes()[0]);
    assert("chunk-deleter".spec_bytes()[0] != "throwaway_key".spec_bytes()[0]);
    assert("chunk_deleter".spec_bytes()[0] != "throwaway-key".spec_bytes()[0]);
    assert("chunk_deleter".spec_bytes()[0] != "throwaway_key".spec_bytes()[0]);
}

/// A word in capitals is read as the same word in lower case, and nothing else about it changes.
pub proof fn case_is_ignored(bytes: Seq<u8>, i: int)
    requires
        0 <= i < bytes.len(),
    ensures
        lowered(bytes).len() == bytes.len(),
        lowered(lowered(bytes)) == lowered(bytes),
        65 <= bytes[i] <= 90 ==> lowered(bytes)[i] == bytes[i] + 32,
        !(65 <= bytes[i] <= 90) ==> lowered(bytes)[i] == bytes[i],
{
    assert(lowered(lowered(bytes)) =~= lowered(bytes));
}

/// Whether `word`, in lower case, is `expected`.
fn is_word(word: &[u8], expected: &[u8]) -> (same: bool)
    ensures
        same == (lowered(word@) == expected@),
{
    if word.len() != expected.len() {
        assert(lowered(word@).len() == word.len());
        return false;
    }
    let mut i: usize = 0;
    while i < word.len()
        invariant
            i <= word.len() == expected.len(),
            forall|j: int| 0 <= j < i ==> lower(word@[j]) == expected@[j],
        decreases word.len() - i,
    {
        let byte: u8 = word[i];
        let low: u8 = if 65 <= byte && byte <= 90 {
            byte + 32
        } else {
            byte
        };
        if low != expected[i] {
            assert(lowered(word@)[i as int] != expected@[i as int]);
            return false;
        }
        i += 1;
    }
    assert(lowered(word@) =~= expected@);
    true
}

impl AdversaryMode {
    /// The mode that a word names, in either case.
    pub fn parse(s: &str) -> (mode: Option<Self>)
        ensures
            mode == mode_named(lowered(s.spec_bytes())),
    {
        let word = s.as_bytes();
        if is_word(word, "lazy".as_bytes()) {
            Some(AdversaryMode::Lazy)
        } else if is_word(word, "chunk-deleter".as_bytes()) || is_word(
            word,
            "chunk_deleter".as_bytes(),
        ) {
            Some(AdversaryMode::ChunkDeleter)
        } else if is_word(word, "silent".as_bytes()) {
            Some(AdversaryMode::Silent)
        } else if is_word(word, "throwaway-key".as_bytes()) || is_word(
            word,
            "throwaway_key".as_bytes(),
        ) {
            Some(AdversaryMode::ThrowawayKey)
        } else if is_word(word, "bootstrap-shield".as_bytes()) || is_word(
            word,
            "bootstrap_shield".as_bytes(),
        ) {
            Some(AdversaryMode::BootstrapShield)
        } else if is_word(word, "fake-storage".as_bytes()) || is_word(
            word,
            "fake_storage".as_bytes(),
        ) {
            Some(AdversaryMode::FakeStorage)
        } else if is_word(word, "relay".as_bytes()) {
            Some(AdversaryMode::Relay)
        } else {
            None
        }
    }
}

/// The number that a setting holds, or `default` where it is missing or not a number.
pub open spec fn setting(value: Option<&str>, default: u64) -> int {
    match value {
        Some(text) => match number_in(text.spec_bytes()) {
            Some(n) => n as int,
            None => default as int,
        },
        None => default as int,
    }
}

/// Read a setting.
fn read_setting(value: Option<&str>, default: u64) -> (number: u64)
    ensures
        number == setting(value, default),
{
    match value {
        Some(text) => match parse_number(text) {
            Some(number) => number,
            None => default,
        },
        None => default,
    }
}

/// What the settings of a process make of a node. Without a mode, or with an unknown one, the node
/// behaves.
pub fn config_from_settings(
    mode: Option<&str>,
    go_bad_at: Option<&str>,
    delete_after: Option<&str>,
    delete_every: Option<&str>,
) -> (config: Option<AdversaryConfig>)
    ensures
        config is Some <==> mode is Some && mode_named(lowered(mode->0.spec_bytes())) is Some,
        config matches Some(c) ==> {
            &&& Some(c.mode) == mode_named(lowered(mode->0.spec_bytes()))
            &&& c.go_bad_at == setting(go_bad_at, 0)
            &&& c.delete_after.nanos == setting(delete_after, DEFAULT_DELETE_AFTER_SECS)
                * crate::time::NANOS_PER_SEC
            &&& c.delete_every.nanos == setting(delete_every, DEFAULT_DELETE_EVERY_SECS)
                * crate::time::NANOS_PER_SEC
        },
{
    let word = match mode {
        Some(word) => word,
        None => return None,
    };
    match AdversaryMode::parse(word) {
        Some(mode) => Some(
            AdversaryConfig {
                mode,
                go_bad_at: read_setting(go_bad_at, 0),
                delete_after: Duration::from_secs(
                    read_setting(delete_after, DEFAULT_DELETE_AFTER_SECS),
                ),
                delete_every: Duration::from_secs(
                    read_setting(delete_every, DEFAULT_DELETE_EVERY_SECS),
                ),
            },
        ),
        None => None,
    }
}

/// What a process settled on when it started. Once settled, it stays.
pub struct AdversaryState {
    settled: Option<Option<AdversaryConfig>>,
}

impl AdversaryState {
    /// What the process settled on, if it has.
    pub closed spec fn settled_on(&self) -> Option<Option<AdversaryConfig>> {
        self.settled
    }

    /// The mode that is active at `now`, in seconds of Unix time.
    pub open spec fn mode_at(&self, now: u64) -> Option<AdversaryMode> {
        match self.settled_on() {
            Some(Some(c)) => if now < c.go_bad_at {
                None
            } else {
                Some(c.mode)
            },
            _ => None,
        }
    }

    /// A process that has not settled yet.
    pub fn new() -> (state: Self)
        ensures
            state.settled_on() is None,
    {
        AdversaryState { settled: None }
    }

    /// Settle on `config`, unless that was done before.
    pub fn settle(&mut self, config: Option<AdversaryConfig>)
        ensures
            final(self).settled_on() == match old(self).settled_on() {
                Some(before) => Some(before),
                None => Some(config),
            },
    {
        if self.settled.is_none() {
            self.settled = Some(config);
        }
    }
}

/// A node behaves until its moment comes, and misbehaves from then on, always in the mode that its
/// process settled on; one that settled on none always behaves.
pub proof fn misbehaviour_begins_at_its_moment(state: AdversaryState, now: u64)
    ensures
        state.mode_at(now) is Some <==> (state.settled_on() matches Some(Some(c)) && c.go_bad_at
            <= now),
        state.mode_at(now) matches Some(mode) ==> (state.settled_on() matches Some(Some(c))
            && c.mode == mode),
{
}

/// A setting is the number that it holds, or the default where it is missing or holds none.
pub proof fn settings_default(value: Option<&str>, default: u64)
    ensures
        value is None ==> setting(value, default) == default,
        value is Some && number_in(value->0.spec_bytes()) is None ==> setting(value, default)
            == default,
        value is Some && number_in(value->0.spec_bytes()) is Some ==> setting(value, default)
            == number_in(value->0.spec_bytes())->0,
{
}

/// The mode that is active at `now`; none before the moment from which on the node misbehaves.
pub fn current(state: &AdversaryState, now: u64) -> (mode: Option<AdversaryMode>)
    ensures
        mode == state.mode_at(now),
{
    match config(state) {
        Some(c) => if now < c.go_bad_at {
            None
        } else {
            Some(c.mode)
        },
        None => None,
    }
}

/// What the process settled on, whatever the time.
pub fn config(state: &AdversaryState) -> (config: Option<AdversaryConfig>)
    ensures
        config == match state.settled_on() {
            Some(c) => c,
            None => None,
        },
{
    match state.settled {
        Some(c) => c,
        None => None,
    }
}

/// Whether the node publishes no commitment.
pub fn is_silent(state: &AdversaryState, now: u64) -> (active: bool)
    ensures
        active == (state.mode_at(now) == Some(AdversaryMode::Silent)),
{
    matches!(current(state, now), Some(AdversaryMode::Silent))
}

/// Whether the node signs with a key that is not its own.
pub fn is_throwaway_key(state: &AdversaryState, now: u64) -> (active: bool)
    ensures
        active == (state.mode_at(now) == Some(AdversaryMode::ThrowawayKey)),
{
    matches!(current(state, now), Some(AdversaryMode::ThrowawayKey))
}

/// Whether the node claims to be starting up.
pub fn is_bootstrap_shield(state: &AdversaryState, now: u64) -> (active: bool)
    ensures
        active == (state.mode_at(now) == Some(AdversaryMode::BootstrapShield)),
{
    matches!(current(state, now), Some(AdversaryMode::BootstrapShield))
}

/// Whether the node serves made-up bytes.
pub fn is_fake_storage(state: &AdversaryState, now: u64) -> (active: bool)
    ensures
        active == (state.mode_at(now) == Some(AdversaryMode::FakeStorage)),
{
    matches!(current(state, now), Some(AdversaryMode::FakeStorage))
}

/// Whether the node fetches what it is asked for.
pub fn is_relay(state: &AdversaryState, now: u64) -> (active: bool)
    ensures
        active == (state.mode_at(now) == Some(AdversaryMode::Relay)),
{
    matches!(current(state, now), Some(AdversaryMode::Relay))
}

/// Whether the node deletes its chunks.
pub fn is_storage_deleter(state: &AdversaryState, now: u64) -> (active: bool)
    ensures
        active == (state.mode_at(now) == Some(AdversaryMode::Lazy) || state.mode_at(now) == Some(
            AdversaryMode::ChunkDeleter,
        )),
{
    matches!(current(state, now), Some(AdversaryMode::Lazy) | Some(AdversaryMode::ChunkDeleter))
}

} // verus!
