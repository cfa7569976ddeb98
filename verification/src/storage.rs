//! Key layout and schema checks of the persistent store.
//!
//! The store itself (a key-value database on disk) is reached by the
//! application; the library decides which keys are read, written and deleted.

use vstd::prelude::*;
use vstd::string::*;
use vstd::utf8::encode_utf8;
use crate::text::{decimal, push_str_chars, push_decimal};
use crate::error::DaemonError;

verus! {

/// Schema version for cache format compatibility.
pub const SCHEMA_VERSION: u32 = 1;

/// Error type for storage operations.
#[derive(Debug, Clone, PartialEq, Eq)]
pub enum StorageError {
    /// An I/O error, with its message.
    Io(String),
    /// A value could not be encoded or decoded.
    Serialization(String),
    /// Key not found.
    NotFound,
    /// The stored data is not usable.
    Corrupted(String),
    /// The database reported an error.
    Backend(String),
}

/// Prefix for inventory data: `inv:`.
pub open spec fn inventory_tag() -> Seq<u8> {
    seq![105u8, 110u8, 118u8, 58u8]
}

/// Prefix for test duration history: `dur:`.
pub open spec fn durations_tag() -> Seq<u8> {
    seq![100u8, 117u8, 114u8, 58u8]
}

/// Prefix for test outcome history: `out:`.
pub open spec fn outcomes_tag() -> Seq<u8> {
    seq![111u8, 117u8, 116u8, 58u8]
}

/// Prefix for context metadata: `ctx:`.
pub open spec fn context_tag() -> Seq<u8> {
    seq![99u8, 116u8, 120u8, 58u8]
}

/// Key for the schema version: `_schema_version`.
pub open spec fn schema_key_bytes() -> Seq<u8> {
    seq![95u8, 115u8, 99u8, 104u8, 101u8, 109u8, 97u8, 95u8, 118u8, 101u8, 114u8, 115u8, 105u8, 111u8, 110u8]
}

/// The byte `:`.
pub open spec fn colon_byte() -> u8 {
    58u8
}

/// The bytes of `_meta`.
pub open spec fn meta_suffix() -> Seq<u8> {
    seq![95u8, 109u8, 101u8, 116u8, 97u8]
}

/// The prefix of every inventory node key of a context: `inv:<context>:`.
pub open spec fn inventory_prefix_spec(context_id: Seq<char>) -> Seq<u8> {
    inventory_tag() + encode_utf8(context_id) + seq![colon_byte()]
}

/// The key of one node of a context's inventory: `inv:<context>:<node id>`.
pub open spec fn node_key_spec(context_id: Seq<char>, node_id: Seq<char>) -> Seq<u8> {
    inventory_prefix_spec(context_id) + encode_utf8(node_id)
}

/// The key of a context's inventory metadata: `ctx:<context>:_meta`.
pub open spec fn meta_key_spec(context_id: Seq<char>) -> Seq<u8> {
    context_tag() + encode_utf8(context_id) + seq![colon_byte()] + meta_suffix()
}

/// The little-endian `u32` in the first four bytes.
pub open spec fn le_u32(b: Seq<u8>) -> u32 {
    (b[0] as int + b[1] as int * 0x100 + b[2] as int * 0x1_0000 + b[3] as int * 0x100_0000) as u32
}

/// The stored schema version: readable when at least four bytes were stored.
pub open spec fn stored_version(bytes: Option<Seq<u8>>) -> Option<u32> {
    match bytes {
        Some(b) => if b.len() >= 4 {
            Some(le_u32(b))
        } else {
            None
        },
        None => None,
    }
}

/// The message of a schema mismatch.
pub open spec fn mismatch_message(found: u32) -> Seq<char> {
    "Schema version mismatch: expected "@ + decimal(SCHEMA_VERSION as nat) + ", found "@ + decimal(
        found as nat,
    )
}

/// Appends the bytes of `t` to `v`.
pub fn push_bytes(v: &mut Vec<u8>, t: &[u8])
    ensures
        final(v)@ == old(v)@ + t@,
{
    let mut i: usize = 0;
    while i < t.len()
        invariant
            i <= t@.len(),
            v@ == old(v)@ + t@.take(i as int),
        decreases t@.len() - i,
    {
        v.push(t[i]);
        assert(t@.take(i + 1) =~= t@.take(i as int).push(t@[i as int]));
        i = i + 1;
    }
    assert(t@.take(i as int) =~= t@);
}

/// The prefix of every inventory node key of a context.
pub fn inventory_prefix(context_id: &str) -> (r: Vec<u8>)
    ensures
        r@ == inventory_prefix_spec(context_id@),
{
    let mut r: Vec<u8> = Vec::new();
    r.push(105u8);
    r.push(110u8);
    r.push(118u8);
    r.push(58u8);
    push_bytes(&mut r, context_id.as_bytes());
    r.push(58u8);
    assert(r@ =~= inventory_prefix_spec(context_id@));
    r
}

/// The key of one node of a context's inventory.
pub fn node_key(context_id: &str, node_id: &str) -> (r: Vec<u8>)
    ensures
        r@ == node_key_spec(context_id@, node_id@),
{
    let mut r = inventory_prefix(context_id);
    push_bytes(&mut r, node_id.as_bytes());
    r
}

/// The key of a context's inventory metadata.
pub fn meta_key(context_id: &str) -> (r: Vec<u8>)
    ensures
        r@ == meta_key_spec(context_id@),
{
    let mut r: Vec<u8> = Vec::new();
    r.push(99u8);
    r.push(116u8);
    r.push(120u8);
    r.push(58u8);
    push_bytes(&mut r, context_id.as_bytes());
    r.push(58u8);
    r.push(95u8);
    r.push(109u8);
    r.push(101u8);
    r.push(116u8);
    r.push(97u8);
    assert(r@ =~= meta_key_spec(context_id@));
    r
}

/// The key under which the schema version is stored.
pub fn schema_key() -> (r: Vec<u8>)
    ensures
        r@ == schema_key_bytes(),
{
    let r: Vec<u8> = vec![95u8, 115u8, 99u8, 104u8, 101u8, 109u8, 97u8, 95u8, 118u8, 101u8, 114u8, 115u8, 105u8, 111u8, 110u8];
    assert(r@ =~= schema_key_bytes());
    r
}

/// The stored form of the schema version: its four little-endian bytes.
pub fn schema_value() -> (r: Vec<u8>)
    ensures
        r@.len() == 4,
        le_u32(r@) == SCHEMA_VERSION,
{
    let r: Vec<u8> = vec![1u8, 0u8, 0u8, 0u8];
    r
}

/// Reads the stored schema version, if four bytes or more were stored.
pub fn read_version(bytes: &[u8]) -> (r: Option<u32>)
    ensures
        r == stored_version(Some(bytes@)),
{
    if bytes.len() >= 4 {
        let v: u32 = bytes[0] as u32 + bytes[1] as u32 * 0x100 + bytes[2] as u32 * 0x1_0000
            + bytes[3] as u32 * 0x100_0000;
        Some(v)
    } else {
        None
    }
}

/// Checks what is stored under the schema key before an inventory is read:
/// a readable version other than the current one is refused as corrupted.
pub fn check_schema(stored: Option<&[u8]>) -> (r: Result<(), StorageError>)
    ensures
        r is Ok <==> !(stored_version(
            match stored {
                Some(b) => Some(b@),
                None => None,
            },
        ) matches Some(v) && v != SCHEMA_VERSION),
        r matches Err(e) ==> e matches StorageError::Corrupted(m) && stored_version(
            match stored {
                Some(b) => Some(b@),
                None => None,
            },
        ) matches Some(v) && m@ == mismatch_message(v),
{
    match stored {
        Some(b) => match read_version(b) {
            Some(v) => {
                if v != SCHEMA_VERSION {
                    let mut m = String::new();
                    push_str_chars(&mut m, "Schema version mismatch: expected ");
                    push_decimal(&mut m, SCHEMA_VERSION as u64);
                    push_str_chars(&mut m, ", found ");
                    push_decimal(&mut m, v as u64);
                    assert(m@ =~= mismatch_message(v));
                    Err(StorageError::Corrupted(m))
                } else {
                    Ok(())
                }
            },
            None => Ok(()),
        },
        None => Ok(()),
    }
}

/// The keys to delete when a context's inventory is cleared: every key found
/// under the context's inventory prefix, in the order found, then the
/// metadata key.
pub fn keys_to_clear(context_id: &str, found: &Vec<(Vec<u8>, Vec<u8>)>) -> (r: Vec<Vec<u8>>)
    ensures
        r@.len() == found@.len() + 1,
        forall|i: int| 0 <= i < found@.len() ==> #[trigger] r@[i]@ == found@[i].0@,
        r@[found@.len() as int]@ == meta_key_spec(context_id@),
{
    let mut r: Vec<Vec<u8>> = Vec::new();
    let mut i: usize = 0;
    while i < found.len()
        invariant
            i <= found@.len(),
            r@.len() == i,
            forall|j: int| 0 <= j < i ==> #[trigger] r@[j]@ == found@[j].0@,
        decreases found@.len() - i,
    {
        let mut k: Vec<u8> = Vec::new();
        push_bytes(&mut k, found[i].0.as_slice());
        r.push(k);
        i = i + 1;
    }
    r.push(meta_key(context_id));
    r
}

/// The sum of durations.
pub open spec fn duration_sum(d: Seq<u64>) -> nat
    decreases d.len(),
{
    if d.len() == 0 {
        0
    } else {
        duration_sum(d.drop_last()) + d.last() as nat
    }
}

/// The average of a test's recorded durations, rounded down; none when
/// nothing is recorded.
pub fn average_duration(durations: &Vec<u64>) -> (r: Option<u64>)
    requires
        duration_sum(durations@) <= u64::MAX,
    ensures
        durations@.len() == 0 ==> r is None,
        durations@.len() > 0 ==> r == Some((duration_sum(durations@) / durations@.len() as nat) as u64),
{
    if durations.len() == 0 {
        return None;
    }
    let mut sum: u64 = 0;
    let mut i: usize = 0;
    while i < durations.len()
        invariant
            i <= durations@.len(),
            duration_sum(durations@) <= u64::MAX,
            sum == duration_sum(durations@.take(i as int)),
        decreases durations@.len() - i,
    {
        proof {
            let t = durations@.take(i + 1);
            assert(t.drop_last() =~= durations@.take(i as int));
            lemma_duration_sum_prefix(durations@, i + 1);
        }
        sum = sum + durations[i];
        i = i + 1;
    }
    assert(durations@.take(i as int) =~= durations@);
    Some(sum / (durations.len() as u64))
}

/// A prefix sums to no more than the whole.
proof fn lemma_duration_sum_prefix(d: Seq<u64>, k: int)
    requires
        0 <= k <= d.len(),
    ensures
        duration_sum(d.take(k)) <= duration_sum(d),
    decreases d.len() - k,
{
    if k < d.len() {
        lemma_duration_sum_prefix(d, k + 1);
        let t = d.take(k + 1);
        assert(t.drop_last() =~= d.take(k));
    } else {
        assert(d.take(k) =~= d);
    }
}

/// Schema version of the daemon's own store.
pub const STORAGE_VERSION: u32 = 1;

/// The message of a mismatched daemon store version.
pub open spec fn storage_mismatch_message(found: u32) -> Seq<char> {
    "Storage schema version mismatch: expected "@ + decimal(STORAGE_VERSION as nat) + ", found "@
        + decimal(found as nat)
}

/// Checks the schema version found in the daemon's store: any other version
/// than the current one is refused.
pub fn check_storage_version(found: u32) -> (r: Result<(), DaemonError>)
    ensures
        r is Ok <==> found == STORAGE_VERSION,
        r matches Err(e) ==> e matches DaemonError::Other(m) && m@ == storage_mismatch_message(found),
{
    if found == STORAGE_VERSION {
        Ok(())
    } else {
        let mut m = String::new();
        push_str_chars(&mut m, "Storage schema version mismatch: expected ");
        push_decimal(&mut m, STORAGE_VERSION as u64);
        push_str_chars(&mut m, ", found ");
        push_decimal(&mut m, found as u64);
        assert(m@ =~= storage_mismatch_message(found));
        Err(DaemonError::Other(m))
    }
}

} // verus!
