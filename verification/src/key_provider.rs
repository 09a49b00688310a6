//! The database key.

use vstd::prelude::*;

use crate::text;

verus! {

/// The raw key of the database: 32 bytes.
pub struct DbKey {
    bytes: [u8; 32],
}

impl Clone for DbKey {
    fn clone(&self) -> (r: DbKey)
        ensures
            r@ == self@,
    {
        DbKey { bytes: self.bytes }
    }
}

impl View for DbKey {
    type V = Seq<u8>;

    closed spec fn view(&self) -> Seq<u8> {
        self.bytes@
    }
}

/// Calls `zeroize::Zeroize::zeroize` on the buffer: every byte becomes zero, in
/// a way that the compiler does not leave out.
#[verifier::external_body]
pub(crate) fn wipe_bytes(bytes: &mut [u8; 32])
    ensures
        final(bytes)@ == Seq::new(32, |i: int| 0u8),
{
    zeroize::Zeroize::zeroize(bytes)
}

impl DbKey {
    /// Wraps a raw key.
    pub fn from_bytes(bytes: [u8; 32]) -> (r: DbKey)
        ensures
            r@ == bytes@,
    {
        DbKey { bytes }
    }

    /// The raw key.
    pub fn as_bytes(&self) -> (r: &[u8; 32])
        ensures
            r@ == self@,
    {
        &self.bytes
    }

    /// What may be printed of a key: that it is one.
    pub fn debug_text(&self) -> (r: String)
        ensures
            r@ == "DbKey(<redacted>)"@,
    {
        "DbKey(<redacted>)".to_owned()
    }

    /// Overwrites the key with zeros. Whoever holds a key calls this once the
    /// database is open.
    pub fn wipe(&mut self)
        ensures
            final(self)@ == Seq::new(32, |i: int| 0u8),
    {
        wipe_bytes(&mut self.bytes);
    }
}

/// Provides the database key.
pub trait KeyProvider: Send + Sync {
    /// The key. One that is not there must be reported as unavailable, never
    /// made up.
    fn acquire_db_key(&self) -> Result<DbKey, KeyProviderError>;

    /// Destroys the key for good. A provider that cannot must not claim to have
    /// done so: the default fails.
    fn delete_db_key(&self) -> (r: Result<(), KeyProviderError>)
        default_ensures
            r matches Err(KeyProviderError::KeyUnavailable(t)) && t@
                == "delete_db_key not implemented for this KeyProvider"@,
    {
        Err(
            KeyProviderError::KeyUnavailable(
                "delete_db_key not implemented for this KeyProvider".to_owned(),
            ),
        )
    }
}

/// Errors of a key provider.
#[derive(Debug, Clone, PartialEq, Eq)]
#[non_exhaustive]
pub enum KeyProviderError {
    /// The database key could not be produced.
    KeyUnavailable(String),
}

impl KeyProviderError {
    /// The error in words.
    pub open spec fn words(self) -> Seq<char> {
        match self {
            KeyProviderError::KeyUnavailable(t) => "db key provider key unavailable: "@ + t@,
        }
    }

    /// The error in words.
    pub fn message(&self) -> (r: String)
        ensures
            r@ == self.words(),
    {
        match self {
            KeyProviderError::KeyUnavailable(t) => text::joined(
                "db key provider key unavailable: ",
                t.as_str(),
            ),
        }
    }
}

/// The statement that keys an encrypted database with raw bytes.
pub open spec fn key_statement_of(key: Seq<u8>) -> Seq<char> {
    "PRAGMA key = \"x'"@ + text::hex_of(key) + "'\""@
}

/// The statement that keys an encrypted database with raw bytes, past any
/// derivation from a passphrase.
pub fn key_statement(key: &DbKey) -> (r: String)
    ensures
        r@ == key_statement_of(key@),
{
    let mut statement: String = text::joined(
        "PRAGMA key = \"x'",
        text::hex_encode(key.as_bytes().as_slice()).as_str(),
    );
    statement.push_str("'\"");
    statement
}

/// Different keys give different statements.
pub proof fn key_statements_differ(a: Seq<u8>, b: Seq<u8>)
    requires
        key_statement_of(a) == key_statement_of(b),
    ensures
        a == b,
{
    let head = "PRAGMA key = \"x'"@;
    let tail = "'\""@;
    let x = text::hex_of(a);
    let y = text::hex_of(b);
    let sx = key_statement_of(a);
    let sy = key_statement_of(b);
    assert(sx.len() == head.len() + x.len() + tail.len());
    assert(sy.len() == head.len() + y.len() + tail.len());
    assert(x =~= sx.subrange(head.len() as int, (head.len() + x.len()) as int));
    assert(y =~= sy.subrange(head.len() as int, (head.len() + y.len()) as int));
    text::hex_is_injective(a, b);
}

} // verus!
