//! Compressed document-id bitmaps and 64-bit index bitmaps, held in the
//! `roaring` crate's types behind trusted contracts. Each wrapper's
//! contract states over `rb_of` / `tm_of` (the set a bitmap holds) what the
//! crate's source shows of the one method it calls.

use vstd::prelude::*;

verus! {

#[verifier::external_type_specification]
#[verifier::external_body]
pub struct ExRoaringBitmap(roaring::RoaringBitmap);

#[verifier::external_type_specification]
#[verifier::external_body]
pub struct ExRoaringTreemap(roaring::RoaringTreemap);

/// The set of 32-bit values a `RoaringBitmap` holds.
pub uninterp spec fn rb_of(b: roaring::RoaringBitmap) -> Set<u32>;

/// What `RoaringBitmap::deserialize_from` decodes from a byte sequence:
/// the held set, or nothing when the bytes are malformed.
pub uninterp spec fn rb_parse(bytes: Seq<u8>) -> Option<Set<u32>>;

/// The set of 64-bit values a `RoaringTreemap` holds.
pub uninterp spec fn tm_of(t: roaring::RoaringTreemap) -> Set<u64>;

/// What `RoaringTreemap::deserialize_from` decodes from a byte sequence.
pub uninterp spec fn tm_parse(bytes: Seq<u8>) -> Option<Set<u64>>;

/// Relies on `RoaringBitmap::new`: a fresh bitmap holds nothing.
#[verifier::external_body]
pub fn rb_new() -> (r: roaring::RoaringBitmap)
    ensures
        rb_of(r) == Set::<u32>::empty(),
        rb_of(r).finite(),
{
    roaring::RoaringBitmap::new()
}

/// Relies on `RoaringBitmap::insert`: adds one value.
#[verifier::external_body]
pub fn rb_insert(b: &mut roaring::RoaringBitmap, x: u32)
    ensures
        rb_of(*final(b)) == rb_of(*old(b)).insert(x),
        rb_of(*old(b)).finite() ==> rb_of(*final(b)).finite(),
{
    b.insert(x);
}

/// Relies on `RoaringBitmap::remove`: removes one value.
#[verifier::external_body]
pub fn rb_remove(b: &mut roaring::RoaringBitmap, x: u32)
    ensures
        rb_of(*final(b)) == rb_of(*old(b)).remove(x),
        rb_of(*old(b)).finite() ==> rb_of(*final(b)).finite(),
{
    b.remove(x);
}

/// Relies on `RoaringBitmap::contains`.
#[verifier::external_body]
pub fn rb_contains(b: &roaring::RoaringBitmap, x: u32) -> (r: bool)
    ensures
        r == rb_of(*b).contains(x),
{
    b.contains(x)
}

/// Relies on `RoaringBitmap::is_empty`.
#[verifier::external_body]
pub fn rb_is_empty(b: &roaring::RoaringBitmap) -> (r: bool)
    ensures
        r == (rb_of(*b) == Set::<u32>::empty()),
{
    b.is_empty()
}

/// Relies on `RoaringBitmap::min`: the smallest held value, if any.
#[verifier::external_body]
pub fn rb_min(b: &roaring::RoaringBitmap) -> (r: Option<u32>)
    ensures
        match r {
            Some(m) => rb_of(*b).contains(m) && forall|x: u32|
                rb_of(*b).contains(x) ==> m <= x,
            None => rb_of(*b) == Set::<u32>::empty(),
        },
{
    b.min()
}

/// Relies on `RoaringBitmap::max`: the largest held value, if any.
#[verifier::external_body]
pub fn rb_max(b: &roaring::RoaringBitmap) -> (r: Option<u32>)
    ensures
        match r {
            Some(m) => rb_of(*b).contains(m) && forall|x: u32|
                rb_of(*b).contains(x) ==> x <= m,
            None => rb_of(*b) == Set::<u32>::empty(),
        },
{
    b.max()
}

/// Relies on `RoaringBitmap::from_sorted_iter` over `0..n`, which cannot
/// fail on a strictly increasing range: the bitmap of all values below `n`.
#[verifier::external_body]
pub fn rb_from_range(n: u32) -> (r: roaring::RoaringBitmap)
    ensures
        rb_of(r) == Set::new(|x: u32| x < n),
        rb_of(r).finite(),
{
    roaring::RoaringBitmap::from_sorted_iter(0..n).unwrap()
}

/// Relies on `BitXorAssign` for `RoaringBitmap`: symmetric difference.
#[verifier::external_body]
pub fn rb_xor_assign(a: &mut roaring::RoaringBitmap, b: &roaring::RoaringBitmap)
    ensures
        rb_of(*final(a)) == rb_of(*old(a)).difference(rb_of(*b)).union(
            rb_of(*b).difference(rb_of(*old(a))),
        ),
        rb_of(*old(a)).finite() && rb_of(*b).finite() ==> rb_of(*final(a)).finite(),
{
    *a ^= b;
}

/// Relies on `RoaringBitmap::clone`.
#[verifier::external_body]
pub fn rb_clone(b: &roaring::RoaringBitmap) -> (r: roaring::RoaringBitmap)
    ensures
        rb_of(r) == rb_of(*b),
        rb_of(*b).finite() ==> rb_of(r).finite(),
{
    b.clone()
}

/// Relies on `RoaringBitmap::serialize_into`: writes the standard portable
/// format, which `deserialize_from` reads back to an equal bitmap.
#[verifier::external_body]
pub fn rb_serialize(b: &roaring::RoaringBitmap) -> (r: Vec<u8>)
    ensures
        rb_parse(r@) == Some(rb_of(*b)),
{
    let mut out = Vec::with_capacity(b.serialized_size());
    b.serialize_into(&mut out).unwrap();
    out
}

/// Relies on `RoaringBitmap::deserialize_from`: decodes the standard
/// format, failing exactly on malformed bytes.
#[verifier::external_body]
pub fn rb_deserialize(bytes: &[u8]) -> (r: Option<roaring::RoaringBitmap>)
    ensures
        r is Some <==> rb_parse(bytes@) is Some,
        r matches Some(b) ==> rb_parse(bytes@) == Some(rb_of(b)) && rb_of(b).finite(),
{
    roaring::RoaringBitmap::deserialize_from(bytes).ok()
}

/// Relies on `RoaringTreemap::new`.
#[verifier::external_body]
pub fn tm_new() -> (r: roaring::RoaringTreemap)
    ensures
        tm_of(r) == Set::<u64>::empty(),
        tm_of(r).finite(),
{
    roaring::RoaringTreemap::new()
}

/// Relies on `RoaringTreemap::insert`.
#[verifier::external_body]
pub fn tm_insert(t: &mut roaring::RoaringTreemap, x: u64)
    ensures
        tm_of(*final(t)) == tm_of(*old(t)).insert(x),
        tm_of(*old(t)).finite() ==> tm_of(*final(t)).finite(),
{
    t.insert(x);
}

/// Relies on `RoaringTreemap::is_empty`.
#[verifier::external_body]
pub fn tm_is_empty(t: &roaring::RoaringTreemap) -> (r: bool)
    ensures
        r == (tm_of(*t) == Set::<u64>::empty()),
{
    t.is_empty()
}

/// Relies on `RoaringTreemap::min`.
#[verifier::external_body]
pub fn tm_min(t: &roaring::RoaringTreemap) -> (r: Option<u64>)
    ensures
        match r {
            Some(m) => tm_of(*t).contains(m) && forall|x: u64|
                tm_of(*t).contains(x) ==> m <= x,
            None => tm_of(*t) == Set::<u64>::empty(),
        },
{
    t.min()
}

/// Relies on `RoaringTreemap::max`.
#[verifier::external_body]
pub fn tm_max(t: &roaring::RoaringTreemap) -> (r: Option<u64>)
    ensures
        match r {
            Some(m) => tm_of(*t).contains(m) && forall|x: u64|
                tm_of(*t).contains(x) ==> x <= m,
            None => tm_of(*t) == Set::<u64>::empty(),
        },
{
    t.max()
}

/// Relies on `BitAndAssign` for `RoaringTreemap`: intersection.
#[verifier::external_body]
pub fn tm_and_assign(a: &mut roaring::RoaringTreemap, b: &roaring::RoaringTreemap)
    ensures
        tm_of(*final(a)) == tm_of(*old(a)).intersect(tm_of(*b)),
        tm_of(*old(a)).finite() ==> tm_of(*final(a)).finite(),
{
    *a &= b;
}

/// Relies on `RoaringTreemap::deserialize_from`: decodes the portable
/// format, failing exactly on malformed bytes.
#[verifier::external_body]
pub fn tm_deserialize(bytes: &[u8]) -> (r: Option<roaring::RoaringTreemap>)
    ensures
        r is Some <==> tm_parse(bytes@) is Some,
        r matches Some(t) ==> tm_parse(bytes@) == Some(tm_of(t)) && tm_of(t).finite(),
{
    roaring::RoaringTreemap::deserialize_from(bytes).ok()
}

} // verus!
