//! Values kept in the database's metadata table: the schema version and the server's
//! private key fingerprint.
use vstd::prelude::*;

verus! {

/// The version of the database schema.
#[derive(Clone, Copy, Debug, PartialEq, Eq, Structural, PartialOrd, Ord)]
pub struct SchemaVersion(pub i16);

/// The version that this code writes and reads.
pub open spec fn last_schema_version_number() -> i16 {
    12
}

/// The latest schema version.
pub fn last_schema_version() -> (r: SchemaVersion)
    ensures
        r.0 == last_schema_version_number(),
{
    SchemaVersion(12)
}

/// The version that table setup starts migrating from: the stored version, or 1 for a
/// database that has none (its tables are created at version 1 first).
pub fn migration_start(stored: Option<SchemaVersion>) -> (r: SchemaVersion)
    ensures
        r.0 == match stored {
            Some(v) => v.0,
            None => 1,
        },
{
    match stored {
        Some(v) => v,
        None => SchemaVersion(1),
    }
}

/// Whether a database at `version` can be brought to the latest version; a database
/// written by a newer release cannot.
pub fn can_migrate_from(version: SchemaVersion) -> (r: bool)
    ensures
        r == (version.0 <= last_schema_version_number()),
{
    version.0 <= 12
}

/// A fingerprint of the server's private key.
#[derive(Clone, Copy, Debug, PartialEq, Eq, PartialOrd, Ord)]
pub struct PrivateKeyHash(pub [u8; 32]);

impl PrivateKeyHash {
    /// The bytes stored for the fingerprint.
    pub fn to_stored_bytes(&self) -> (r: Vec<u8>)
        ensures
            r@ == self.0@,
    {
        let mut r: Vec<u8> = Vec::new();
        let mut i: usize = 0;
        while i < 32
            invariant
                i <= 32,
                r@ == self.0@.take(i as int),
            decreases 32 - i,
        {
            r.push(self.0[i]);
            assert(self.0@.take(i + 1) =~= self.0@.take(i as int).push(self.0@[i as int]));
            i += 1;
        }
        assert(self.0@.take(32) =~= self.0@);
        r
    }

    /// The fingerprint read back from its stored bytes, which are 32 bytes long.
    pub fn from_stored_bytes(bytes: &[u8]) -> (r: PrivateKeyHash)
        requires
            bytes@.len() == 32,
        ensures
            r.0@ == bytes@,
    {
        let mut a: [u8; 32] = [0u8; 32];
        let mut i: usize = 0;
        while i < 32
            invariant
                i <= 32,
                bytes@.len() == 32,
                a@.len() == 32,
                forall|j: int| 0 <= j < i ==> a@[j] == bytes@[j],
            decreases 32 - i,
        {
            a[i] = bytes[i];
            i += 1;
        }
        assert(a@ =~= bytes@);
        PrivateKeyHash(a)
    }
}

/// Storing a fingerprint and reading it back gives the same fingerprint.
pub proof fn private_key_hash_round_trip(h: PrivateKeyHash, stored: Seq<u8>, read: PrivateKeyHash)
    requires
        stored == h.0@,
        read.0@ == stored,
    ensures
        read == h,
{
    assert(read.0 =~= h.0);
}

/// Where a setting was given.
#[derive(Clone, Debug, PartialEq, Eq)]
pub enum ConfigLocation {
    ConfigFile(String),
    EnvironmentVariable(String),
    CommandLine,
}

} // verus!
