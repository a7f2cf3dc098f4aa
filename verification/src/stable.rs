//! Stable storage for the small amount of state that must survive restarts.

use crate::error::{RaftError, Result};
use crate::text::lemma_encoding_determines_text;
use vstd::prelude::*;
use vstd::utf8::encode_utf8;

verus! {

/// Stable storage for the small amount of raft state that must survive
/// restarts (current term, last vote).
///
/// `byte_values` and `numbers` are what is held; a write under a key leaves
/// what is held under other keys. A call that fails promises nothing.
pub trait StableStore {
    /// The byte strings that are held, by key.
    closed spec fn byte_values(&self) -> Map<Seq<u8>, Seq<u8>> {
        arbitrary()
    }

    /// The numbers that are held, by key.
    closed spec fn numbers(&self) -> Map<Seq<u8>, u64> {
        arbitrary()
    }

    /// Stores a byte string.
    fn set(&mut self, key: &[u8], val: &[u8]) -> (r: Result<()>)
        ensures
            r is Ok ==> final(self).byte_values() == old(self).byte_values().insert(key@, val@),
            r is Ok ==> final(self).numbers().remove(key@) == old(self).numbers().remove(key@),
    ;

    /// Returns `None` if the key is not found.
    fn get(&self, key: &[u8]) -> (r: Result<Option<Vec<u8>>>)
        ensures
            match r {
                Ok(Some(val)) => self.byte_values().contains_key(key@) && val@
                    == self.byte_values()[key@],
                Ok(None) => !self.byte_values().contains_key(key@),
                Err(_) => true,
            },
    ;

    /// Stores a number.
    fn set_u64(&mut self, key: &[u8], val: u64) -> (r: Result<()>)
        ensures
            r is Ok ==> final(self).numbers() == old(self).numbers().insert(key@, val),
            r is Ok ==> final(self).byte_values().remove(key@) == old(self).byte_values().remove(
                key@,
            ),
    ;

    /// Returns `None` if the key is not found.
    fn get_u64(&self, key: &[u8]) -> (r: Result<Option<u64>>)
        ensures
            match r {
                Ok(Some(val)) => self.numbers().contains_key(key@) && val == self.numbers()[key@],
                Ok(None) => !self.numbers().contains_key(key@),
                Err(_) => true,
            },
    ;
}

/// Key of the current term.
pub const CURRENT_TERM_KEY: &'static str = "CurrentTerm";

/// Key of the term of the last vote.
pub const LAST_VOTE_TERM_KEY: &'static str = "LastVoteTerm";

/// Key of the candidate of the last vote.
pub const LAST_VOTE_CAND_KEY: &'static str = "LastVoteCand";

/// The bytes of a key.
pub open spec fn key_bytes(key: &str) -> Seq<u8> {
    encode_utf8(key@)
}

/// Whether a store may answer so where a number is to be stored.
pub open spec fn number_answered<S: StableStore>(
    store: S,
    key: Seq<u8>,
    val: u64,
    r: Result<()>,
) -> bool {
    exists|s: &mut S, k: &[u8]|
        *s == store && k@ == key && #[trigger] call_ensures(S::set_u64, (s, k, val), r)
}

/// Whether a store may answer so where a byte string is to be stored.
pub open spec fn bytes_answered<S: StableStore>(
    store: S,
    key: Seq<u8>,
    val: &[u8],
    r: Result<()>,
) -> bool {
    exists|s: &mut S, k: &[u8]|
        *s == store && k@ == key && #[trigger] call_ensures(S::set, (s, k, val), r)
}

/// Whether a store may fail so where a number is to be read.
pub open spec fn number_unread<S: StableStore>(store: S, key: Seq<u8>, e: RaftError) -> bool {
    exists|k: &[u8]|
        k@ == key && #[trigger] call_ensures(
            S::get_u64,
            (&store, k),
            Err::<Option<u64>, RaftError>(e),
        )
}

/// The three keys never name the same value.
pub proof fn law_keys_differ()
    ensures
        key_bytes(CURRENT_TERM_KEY) != key_bytes(LAST_VOTE_TERM_KEY),
        key_bytes(CURRENT_TERM_KEY) != key_bytes(LAST_VOTE_CAND_KEY),
        key_bytes(LAST_VOTE_TERM_KEY) != key_bytes(LAST_VOTE_CAND_KEY),
{
    reveal_strlit("CurrentTerm");
    reveal_strlit("LastVoteTerm");
    reveal_strlit("LastVoteCand");
    if key_bytes(CURRENT_TERM_KEY) == key_bytes(LAST_VOTE_TERM_KEY) {
        lemma_encoding_determines_text(CURRENT_TERM_KEY@, LAST_VOTE_TERM_KEY@);
    }
    if key_bytes(CURRENT_TERM_KEY) == key_bytes(LAST_VOTE_CAND_KEY) {
        lemma_encoding_determines_text(CURRENT_TERM_KEY@, LAST_VOTE_CAND_KEY@);
    }
    if key_bytes(LAST_VOTE_TERM_KEY) == key_bytes(LAST_VOTE_CAND_KEY) {
        lemma_encoding_determines_text(LAST_VOTE_TERM_KEY@, LAST_VOTE_CAND_KEY@);
        assert(LAST_VOTE_TERM_KEY@[8] == LAST_VOTE_CAND_KEY@[8]);
    }
}

} // verus!
