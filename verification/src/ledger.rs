//! The ledger of dispatch failures: one record per failed attempt, kept
//! for operator visibility and never consumed by normal operation.
use vstd::prelude::*;

verus! {

broadcast use vstd::string::group_string_axioms;

/// Number of characters a record's content tag keeps of the digest.
pub const HASH_TAG_LEN: usize = 10;

/// What the hex SHA-256 digest of a text is. The digest is a function
/// of the text alone; nothing here states its value.
pub uninterp spec fn hash_of(s: Seq<char>) -> Seq<char>;

/// Relies on dusa_collection_utils' create_hash: the hex SHA-256 digest
/// of the text, 64 hex characters, depending on the text alone.
#[verifier::external_body]
fn hash_text(s: &str) -> (r: String)
    ensures
        r@ == hash_of(s@),
        r@.len() == 64,
{
    dusa_collection_utils::platform::functions::create_hash(s).to_string()
}

/// Relies on dusa_collection_utils' truncate: the first `n` characters
/// of the text, or all of it when it is no longer than `n`.
#[verifier::external_body]
fn truncate_text(s: &str, n: usize) -> (r: String)
    ensures
        r@ == (if s@.len() <= n {
            s@
        } else {
            s@.take(n as int)
        }),
{
    dusa_collection_utils::platform::functions::truncate(s, n).to_string()
}

/// The content tag a failure text gets: the first characters of its
/// digest, as many as `HASH_TAG_LEN` allows.
pub open spec fn spec_hash_tag(s: Seq<char>) -> Seq<char> {
    if hash_of(s).len() <= HASH_TAG_LEN {
        hash_of(s)
    } else {
        hash_of(s).take(HASH_TAG_LEN as int)
    }
}

/// One recorded failure: a short content tag of the failure text, the
/// text itself when one exists, and the second it happened.
pub struct ErrorRecord {
    pub hash: String,
    pub reason: Option<String>,
    pub occurred_at: u64,
}

/// Whether `r` is the record of a dispatch that failed with `reason` at
/// second `now`.
pub open spec fn is_failure_record(r: ErrorRecord, reason: Seq<char>, now: u64) -> bool {
    &&& r.hash@ == spec_hash_tag(reason)
    &&& match r.reason {
        Some(s) => s@ == reason,
        None => false,
    }
    &&& r.occurred_at == now
}

/// Whether `r` is the record noting that the queue could not be locked
/// at second `now`; such a record carries no failure text.
pub open spec fn is_lock_failure_record(r: ErrorRecord, now: u64) -> bool {
    &&& r.hash@ == spec_hash_tag("Failed to lock email array"@)
    &&& r.reason is None
    &&& r.occurred_at == now
}

/// The failure records in the order they were taken.
pub struct ErrorLedger {
    records: Vec<ErrorRecord>,
}

impl View for ErrorLedger {
    type V = Seq<ErrorRecord>;

    closed spec fn view(&self) -> Seq<ErrorRecord> {
        self.records@
    }
}

impl ErrorLedger {
    /// An empty ledger.
    pub fn new() -> (r: ErrorLedger)
        ensures
            r@ =~= Seq::<ErrorRecord>::empty(),
    {
        ErrorLedger { records: Vec::new() }
    }

    /// How many failures stand recorded.
    pub fn len(&self) -> (r: usize)
        ensures
            r == self@.len(),
    {
        self.records.len()
    }

    /// Read one record.
    pub fn get(&self, i: usize) -> (r: &ErrorRecord)
        requires
            i < self@.len(),
        ensures
            *r == self@[i as int],
    {
        &self.records[i]
    }

    /// Record a dispatch failure: tag the failure text with its digest
    /// prefix and append it with the current second.
    pub fn push_failure(&mut self, reason: String, now: u64)
        ensures
            final(self)@.len() == old(self)@.len() + 1,
            final(self)@ =~= old(self)@.push(final(self)@.last()),
            is_failure_record(final(self)@.last(), reason@, now),
    {
        let digest = hash_text(reason.as_str());
        let tag = truncate_text(digest.as_str(), HASH_TAG_LEN);
        self.records.push(ErrorRecord { hash: tag, reason: Some(reason), occurred_at: now });
    }

    /// Record that the queue could not be locked for a drain pass.
    pub fn push_lock_failure(&mut self, now: u64)
        ensures
            final(self)@.len() == old(self)@.len() + 1,
            final(self)@ =~= old(self)@.push(final(self)@.last()),
            is_lock_failure_record(final(self)@.last(), now),
    {
        let digest = hash_text("Failed to lock email array");
        let tag = truncate_text(digest.as_str(), HASH_TAG_LEN);
        self.records.push(ErrorRecord { hash: tag, reason: None, occurred_at: now });
    }
}

} // verus!
