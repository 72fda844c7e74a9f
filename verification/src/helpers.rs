//! Pure key construction: composite byte keys deterministically built from a
//! label, an application key, and a format version tag.

use vstd::prelude::*;

use crate::codec::dec_digits;
use crate::codec::encode_u32;
use crate::SledStorageError;

verus! {

/// The big-endian two-byte encoding of a sixteen-bit version tag.
pub open spec fn be16(v: u16) -> Seq<u8> {
    seq![(v / 256) as u8, (v % 256) as u8]
}

/// The composite key: the label bytes, then the key bytes, then the two-byte
/// big-endian version tag.
pub open spec fn built_key(label: Seq<u8>, key: Seq<u8>, version: u16) -> Seq<u8> {
    label + key + be16(version)
}

/// Builds a key with version and label.
///
/// The result combines the label, the key bytes, and the big-endian encoding
/// of the version number `V`; its length is the label's and the key's
/// together, plus two.
pub fn build_key_from_vec<const V: u16>(label: &[u8], key: Vec<u8>) -> (r: Vec<u8>)
    ensures
        r@ == built_key(label@, key@, V),
        r@.len() == label@.len() + key@.len() + 2,
{
    let mut key_out: Vec<u8> = Vec::new();
    key_out.extend_from_slice(label);
    key_out.extend_from_slice(key.as_slice());
    key_out.push((V / 256) as u8);
    key_out.push((V % 256) as u8);
    proof {
        assert(key_out@ =~= built_key(label@, key@, V));
    }
    key_out
}

/// Built keys are tagged with their version: the last two bytes are the
/// big-endian version, the part before them does not depend on the version,
/// and two keys built from the same label and key bytes with different
/// versions differ.
pub proof fn lemma_built_key_version_tag(label: Seq<u8>, key: Seq<u8>, v1: u16, v2: u16)
    ensures
        built_key(label, key, v1).subrange(
            (label.len() + key.len()) as int,
            (label.len() + key.len() + 2) as int,
        ) =~= be16(v1),
        built_key(label, key, v1).subrange(0, (label.len() + key.len()) as int) =~= built_key(
            label,
            key,
            v2,
        ).subrange(0, (label.len() + key.len()) as int),
        v1 != v2 ==> built_key(label, key, v1) != built_key(label, key, v2),
{
    if v1 != v2 && built_key(label, key, v1) == built_key(label, key, v2) {
        let n: int = (label.len() + key.len()) as int;
        assert(built_key(label, key, v1)[n] == (v1 / 256) as u8);
        assert(built_key(label, key, v1)[n + 1] == (v1 % 256) as u8);
        assert(built_key(label, key, v2)[n] == (v2 / 256) as u8);
        assert(built_key(label, key, v2)[n + 1] == (v2 % 256) as u8);
        assert(v1 / 256 == v2 / 256 && v1 % 256 == v2 % 256);
        assert(v1 == v2) by {
            assert(v1 == 256 * (v1 / 256) + v1 % 256);
            assert(v2 == 256 * (v2 / 256) + v2 % 256);
        }
    }
}

/// Generates a unique identifier for epoch key pairs: the encoded group id,
/// the encoded epoch, and the encoded leaf index, concatenated in that order
/// with no labels, version, or delimiters in between. The group id and the
/// epoch are taken already encoded; the leaf index is encoded here.
pub fn epoch_key_pairs_id(group_id: &[u8], epoch: &[u8], leaf_index: u32) -> (r: Result<
    Vec<u8>,
    SledStorageError,
>)
    ensures
        r matches Ok(v) && v@ == group_id@ + epoch@ + dec_digits(leaf_index),
{
    let leaf = match encode_u32(leaf_index) {
        Ok(b) => b,
        Err(e) => return Err(e),
    };
    let mut out: Vec<u8> = Vec::new();
    out.extend_from_slice(group_id);
    out.extend_from_slice(epoch);
    out.extend_from_slice(leaf.as_slice());
    proof {
        assert(out@ =~= group_id@ + epoch@ + dec_digits(leaf_index));
    }
    Ok(out)
}

} // verus!
