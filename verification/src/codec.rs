//! The value codec: the self-describing byte encoding that wraps every
//! stored value, applied once for scalars and once around a whole list of
//! already-encoded elements.

use vstd::prelude::*;
use crate::SledStorageError;

verus! {

/// The decimal digits of an unsigned number, most significant first.
pub open spec fn dec_digits(n: u32) -> Seq<u8>
    decreases n,
{
    if n < 10 {
        seq![(48 + n) as u8]
    } else {
        dec_digits(n / 10).push((48 + n % 10) as u8)
    }
}

/// The bytes of `v` rendered in decimal, separated by commas.
pub open spec fn csv_bytes(v: Seq<u8>) -> Seq<u8>
    decreases v.len(),
{
    if v.len() == 0 {
        seq![]
    } else if v.len() == 1 {
        dec_digits(v[0] as u32)
    } else {
        dec_digits(v[0] as u32) + seq![44u8] + csv_bytes(v.skip(1))
    }
}

/// The bytes that the codec produces for one byte blob: its bytes in
/// decimal, comma-separated, between one opening and one closing bracket,
/// with no whitespace.
pub open spec fn enc_bytes(v: Seq<u8>) -> Seq<u8> {
    seq![91u8] + csv_bytes(v) + seq![93u8]
}

/// The encodings of the blobs of `l`, separated by commas.
pub open spec fn csv_blobs(l: Seq<Seq<u8>>) -> Seq<u8>
    decreases l.len(),
{
    if l.len() == 0 {
        seq![]
    } else if l.len() == 1 {
        enc_bytes(l[0])
    } else {
        enc_bytes(l[0]) + seq![44u8] + csv_blobs(l.skip(1))
    }
}

/// The bytes that the codec produces for an ordered list of byte blobs: the
/// encoding of each element, comma-separated, between one more pair of
/// brackets.
pub open spec fn enc_list(l: Seq<Seq<u8>>) -> Seq<u8> {
    seq![91u8] + csv_blobs(l) + seq![93u8]
}

/// What the codec's decoder yields on arbitrary bytes read back as one byte
/// blob: the blob, or nothing where the bytes do not parse as one. The
/// decoder accepts more spellings than the encoder emits (whitespace among
/// them), so only its inversion of the encoder is stated, at the decoding
/// call below.
pub uninterp spec fn dec_bytes(b: Seq<u8>) -> Option<Seq<u8>>;

/// What the codec's decoder yields on arbitrary bytes read back as a list
/// of byte blobs: the elements in order, or nothing where the bytes do not
/// parse as such a list.
pub uninterp spec fn dec_list(b: Seq<u8>) -> Option<Seq<Seq<u8>>>;

/// Relies on serde_json::to_vec: a byte vector serializes as exactly the
/// compact bracketed decimal rendering `enc_bytes` states (no whitespace),
/// and serializing a Vec<u8> cannot fail (its Serialize implementation
/// never errs and it contains no map).
#[verifier::external_body]
pub(crate) fn encode_value(v: &Vec<u8>) -> (r: Result<Vec<u8>, SledStorageError>)
    ensures
        r is Ok,
        r matches Ok(b) ==> b@ == enc_bytes(v@),
{
    serde_json::to_vec(v).map_err(SledStorageError::from)
}

/// Relies on serde_json::from_slice: its result depends on the input bytes
/// alone (named `dec_bytes`), and it inverts serde_json::to_vec, so on the
/// encoding of a byte vector it returns exactly that vector.
#[verifier::external_body]
pub(crate) fn decode_value(b: &[u8]) -> (r: Result<Vec<u8>, SledStorageError>)
    ensures
        r is Ok <==> dec_bytes(b@) is Some,
        r matches Ok(out) ==> dec_bytes(b@) == Some(out@),
        r matches Ok(out) ==> forall|v: Seq<u8>| b@ == #[trigger] enc_bytes(v) ==> out@ == v,
        r is Err ==> forall|v: Seq<u8>| b@ != #[trigger] enc_bytes(v),
        r matches Err(e) ==> e is SerializationError,
{
    serde_json::from_slice(b).map_err(SledStorageError::from)
}

/// Relies on serde_json::to_vec: a list of byte vectors serializes as
/// exactly the compact nested rendering `enc_list` states (no whitespace),
/// and serializing a Vec<Vec<u8>> cannot fail (its Serialize implementation
/// never errs and it contains no map).
#[verifier::external_body]
pub(crate) fn encode_list(l: &Vec<Vec<u8>>) -> (r: Result<Vec<u8>, SledStorageError>)
    ensures
        r is Ok,
        r matches Ok(b) ==> b@ == enc_list(l.deep_view()),
{
    serde_json::to_vec(l).map_err(SledStorageError::from)
}

/// Relies on serde_json::from_slice: its result depends on the input bytes
/// alone (named `dec_list`), and it inverts serde_json::to_vec, so on the
/// encoding of a list of byte vectors it returns exactly that list.
#[verifier::external_body]
pub(crate) fn decode_list(b: &[u8]) -> (r: Result<Vec<Vec<u8>>, SledStorageError>)
    ensures
        r is Ok <==> dec_list(b@) is Some,
        r matches Ok(out) ==> dec_list(b@) == Some(out.deep_view()),
        r matches Ok(out) ==> forall|l: Seq<Seq<u8>>| b@ == #[trigger] enc_list(l) ==> out.deep_view() == l,
        r is Err ==> forall|l: Seq<Seq<u8>>| b@ != #[trigger] enc_list(l),
        r matches Err(e) ==> e is SerializationError,
{
    serde_json::from_slice(b).map_err(SledStorageError::from)
}

/// Relies on serde_json::to_vec: a u32 serializes as its decimal digits,
/// and serializing a u32 cannot fail.
#[verifier::external_body]
pub(crate) fn encode_u32(n: u32) -> (r: Result<Vec<u8>, SledStorageError>)
    ensures
        r is Ok,
        r matches Ok(b) ==> b@ == dec_digits(n),
{
    serde_json::to_vec(&n).map_err(SledStorageError::from)
}

/// The list after the values `vs` have been appended to `l` one at a time,
/// first value first: the model of a run of sequential appends.
pub open spec fn appended_all(l: Seq<Seq<u8>>, vs: Seq<Seq<u8>>) -> Seq<Seq<u8>>
    decreases vs.len(),
{
    if vs.len() == 0 {
        l
    } else {
        appended_all(l.push(vs[0]), vs.skip(1))
    }
}

/// Appending values one at a time keeps them in order: a run of sequential
/// appends of `vs` leaves the stored list holding exactly the old elements
/// followed by `vs`, so `vs` itself when the list began empty.
pub proof fn lemma_appended_all_in_order(l: Seq<Seq<u8>>, vs: Seq<Seq<u8>>)
    ensures
        appended_all(l, vs) == l + vs,
        appended_all(Seq::<Seq<u8>>::empty(), vs) == vs,
    decreases vs.len(),
{
    if vs.len() == 0 {
        assert(l + vs =~= l);
        assert(Seq::<Seq<u8>>::empty() + vs =~= vs);
    } else {
        lemma_appended_all_in_order(l.push(vs[0]), vs.skip(1));
        assert(l.push(vs[0]) + vs.skip(1) =~= l + vs);
        lemma_appended_all_in_order(Seq::<Seq<u8>>::empty().push(vs[0]), vs.skip(1));
        assert(Seq::<Seq<u8>>::empty().push(vs[0]) + vs.skip(1) =~= vs);
    }
}

/// The index of the first element of `l` equal to `v`, or `l.len()` where
/// there is none.
pub open spec fn first_match(l: Seq<Seq<u8>>, v: Seq<u8>) -> int
    decreases l.len(),
{
    if l.len() == 0 {
        0
    } else if l[0] == v {
        0
    } else {
        1 + first_match(l.skip(1), v)
    }
}

/// The list with the first element equal to `v` taken out, and the list
/// unchanged where no element equals `v`.
pub open spec fn remove_first(l: Seq<Seq<u8>>, v: Seq<u8>) -> Seq<Seq<u8>> {
    if l.contains(v) {
        l.remove(first_match(l, v))
    } else {
        l
    }
}

/// The first match lies inside the list whenever the value occurs in it, it
/// equals the value, and no element before it does.
pub proof fn lemma_first_match(l: Seq<Seq<u8>>, v: Seq<u8>)
    ensures
        0 <= first_match(l, v) <= l.len(),
        l.contains(v) ==> first_match(l, v) < l.len() && l[first_match(l, v)] == v,
        forall|m: int| 0 <= m < first_match(l, v) ==> l[m] != v,
    decreases l.len(),
{
    if l.len() == 0 {
    } else if l[0] == v {
    } else {
        lemma_first_match(l.skip(1), v);
        if l.contains(v) {
            let i = choose|i: int| 0 <= i < l.len() && l[i] == v;
            assert(l.skip(1)[i - 1] == v);
            assert(l.skip(1).contains(v));
        }
        assert forall|m: int| 0 <= m < first_match(l, v) implies l[m] != v by {
            if m > 0 {
                assert(l[m] == l.skip(1)[m - 1]);
            }
        }
    }
}

/// Removal by value takes out exactly one element where the value occurs
/// twice: the result is one element shorter and the value still occurs.
pub proof fn lemma_remove_first_duplicate(l: Seq<Seq<u8>>, v: Seq<u8>, i: int, j: int)
    requires
        0 <= i < j < l.len(),
        l[i] == v,
        l[j] == v,
    ensures
        remove_first(l, v).len() == l.len() - 1,
        remove_first(l, v).contains(v),
{
    assert(l.contains(v));
    lemma_first_match(l, v);
    let f = first_match(l, v);
    if f < j {
        assert(l.remove(f)[j - 1] == v);
        assert(remove_first(l, v).contains(v));
    } else {
        assert(l.remove(f)[i] == v);
        assert(remove_first(l, v).contains(v));
    }
}

/// Whether two byte vectors hold the same bytes.
fn bytes_equal(a: &Vec<u8>, b: &Vec<u8>) -> (r: bool)
    ensures
        r == (a@ == b@),
{
    if a.len() != b.len() {
        return false;
    }
    let mut i: usize = 0;
    while i < a.len()
        invariant
            i <= a.len(),
            a@.len() == b@.len(),
            forall|m: int| 0 <= m < i ==> a@[m] == b@[m],
        decreases a.len() - i,
    {
        if a[i] != b[i] {
            return false;
        }
        i += 1;
    }
    proof {
        assert(a@ =~= b@);
    }
    true
}

/// Removes the first element whose bytes equal `value` exactly; without a
/// match the list is left unchanged.
pub fn remove_first_match(list: &mut Vec<Vec<u8>>, value: &Vec<u8>)
    ensures
        final(list).deep_view() == remove_first(old(list).deep_view(), value@),
{
    let mut i: usize = 0;
    while i < list.len()
        invariant
            i <= list.len(),
            *list == *old(list),
            forall|m: int| 0 <= m < i ==> old(list).deep_view()[m] != value@,
        decreases list.len() - i,
    {
        if bytes_equal(&list[i], value) {
            proof {
                let l = old(list).deep_view();
                assert(l[i as int] == value@);
                assert(l.contains(value@));
                lemma_first_match(l, value@);
                assert(first_match(l, value@) == i);
            }
            list.remove(i);
            proof {
                assert(list.deep_view() =~= remove_first(old(list).deep_view(), value@));
            }
            return ;
        }
        proof {
            assert(old(list).deep_view()[i as int] == list@[i as int]@);
        }
        i += 1;
    }
    proof {
        let l = old(list).deep_view();
        if l.contains(value@) {
            let w = choose|w: int| 0 <= w < l.len() && l[w] == value@;
            assert(l[w] != value@);
        }
        assert(!l.contains(value@));
    }
}

} // verus!
