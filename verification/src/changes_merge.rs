//! The compact per-collection change bundle: insert, update and delete
//! document-id bitmaps, with a framed byte codec for replication.

use vstd::prelude::*;

use crate::bitmaps::{rb_deserialize, rb_new, rb_of, rb_parse, rb_serialize};
use vstd::arithmetic::div_mod::lemma_fundamental_div_mod;

verus! {

/// Leading magic byte of the serialized form.
pub const CHANGES_MAGIC: u8 = 7;

/// The little-endian value of `k` bytes of `b` starting at `i`.
pub open spec fn le_val(b: Seq<u8>, i: int, k: nat) -> int
    decreases k,
{
    if k == 0 {
        0
    } else {
        b[i] + 256 * le_val(b, i + 1, (k - 1) as nat)
    }
}

/// A little-endian window is bounded by the size of its byte count.
pub proof fn lemma_le_val_bounds(b: Seq<u8>, i: int, k: nat)
    requires
        0 <= i,
        i + k <= b.len(),
    ensures
        0 <= le_val(b, i, k),
        k == 8 ==> le_val(b, i, k) < 0x10000000000000000,
    decreases k,
{
    if k > 0 {
        lemma_le_val_bounds(b, i + 1, (k - 1) as nat);
        if k == 8 {
            lemma_le_val_small(b, i + 1, 7);
        }
    }
}

/// A window of `k <= 8` bytes stays below `256^k`; spelled out for the
/// sizes the codec uses.
pub proof fn lemma_le_val_small(b: Seq<u8>, i: int, k: nat)
    requires
        0 <= i,
        i + k <= b.len(),
        k <= 8,
    ensures
        0 <= le_val(b, i, k),
        k == 0 ==> le_val(b, i, k) < 1,
        k == 1 ==> le_val(b, i, k) < 0x100,
        k == 2 ==> le_val(b, i, k) < 0x10000,
        k == 3 ==> le_val(b, i, k) < 0x1000000,
        k == 4 ==> le_val(b, i, k) < 0x100000000,
        k == 5 ==> le_val(b, i, k) < 0x10000000000,
        k == 6 ==> le_val(b, i, k) < 0x1000000000000,
        k == 7 ==> le_val(b, i, k) < 0x100000000000000,
        k == 8 ==> le_val(b, i, k) < 0x10000000000000000,
    decreases k,
{
    if k > 0 {
        lemma_le_val_small(b, i + 1, (k - 1) as nat);
    }
}

/// Two byte sequences that agree on a window carry the same value there.
pub proof fn lemma_le_val_stable(b1: Seq<u8>, b2: Seq<u8>, i: int, k: nat)
    requires
        0 <= i,
        i + k <= b1.len(),
        i + k <= b2.len(),
        forall|j: int| i <= j < i + k ==> b1[j] == b2[j],
    ensures
        le_val(b1, i, k) == le_val(b2, i, k),
    decreases k,
{
    if k > 0 {
        lemma_le_val_stable(b1, b2, i + 1, (k - 1) as nat);
    }
}

/// Appends the eight little-endian bytes of `x`.
fn write_le64(out: &mut Vec<u8>, x: u64)
    ensures
        final(out)@.len() == old(out)@.len() + 8,
        old(out)@.is_prefix_of(final(out)@),
        le_val(final(out)@, old(out)@.len() as int, 8) == x,
{
    let b0 = (x % 256) as u8;
    let b1 = ((x / 256) % 256) as u8;
    let b2 = ((x / 65536) % 256) as u8;
    let b3 = ((x / 16777216) % 256) as u8;
    let b4 = ((x / 4294967296) % 256) as u8;
    let b5 = ((x / 1099511627776) % 256) as u8;
    let b6 = ((x / 281474976710656) % 256) as u8;
    let b7 = (x / 72057594037927936) as u8;
    out.push(b0);
    out.push(b1);
    out.push(b2);
    out.push(b3);
    out.push(b4);
    out.push(b5);
    out.push(b6);
    out.push(b7);
    proof {
        let s = out@;
        let n = old(out)@.len() as int;
        assert(s[n] == b0 && s[n + 1] == b1 && s[n + 2] == b2 && s[n + 3] == b3 && s[n + 4] == b4
            && s[n + 5] == b5 && s[n + 6] == b6 && s[n + 7] == b7);
        assert(le_val(s, n + 8, 0) == 0);
        assert(le_val(s, n + 7, 1) == b7);
        assert(le_val(s, n + 6, 2) == b6 + 256 * le_val(s, n + 7, 1));
        assert(le_val(s, n + 5, 3) == b5 + 256 * le_val(s, n + 6, 2));
        assert(le_val(s, n + 4, 4) == b4 + 256 * le_val(s, n + 5, 3));
        assert(le_val(s, n + 3, 5) == b3 + 256 * le_val(s, n + 4, 4));
        assert(le_val(s, n + 2, 6) == b2 + 256 * le_val(s, n + 3, 5));
        assert(le_val(s, n + 1, 7) == b1 + 256 * le_val(s, n + 2, 6));
        assert(le_val(s, n, 8) == b0 + 256 * le_val(s, n + 1, 7));
        lemma_fundamental_div_mod(x as int, 256);
        lemma_fundamental_div_mod(x as int / 256, 256);
        lemma_fundamental_div_mod(x as int / 256 / 256, 256);
        lemma_fundamental_div_mod(x as int / 256 / 256 / 256, 256);
        lemma_fundamental_div_mod(x as int / 256 / 256 / 256 / 256, 256);
        lemma_fundamental_div_mod(x as int / 256 / 256 / 256 / 256 / 256, 256);
        lemma_fundamental_div_mod(x as int / 256 / 256 / 256 / 256 / 256 / 256, 256);
        assert(x as int / 256 == x / 256) by {
            assert(x / 256 == x as int / 256);
        }
        assert(x as int / 256 / 256 == x / 65536);
        assert(x as int / 256 / 256 / 256 == x / 16777216);
        assert(x as int / 256 / 256 / 256 / 256 == x / 4294967296);
        assert(x as int / 256 / 256 / 256 / 256 / 256 == x / 1099511627776);
        assert(x as int / 256 / 256 / 256 / 256 / 256 / 256 == x / 281474976710656);
        assert(x as int / 256 / 256 / 256 / 256 / 256 / 256 / 256 == x / 72057594037927936);
        assert(x / 72057594037927936 < 256);
        assert(le_val(s, n, 8) == x);
    }
}

/// Reads the eight little-endian bytes at `o`.
fn read_le64(bytes: &[u8], o: usize) -> (r: u64)
    requires
        o + 8 <= bytes@.len(),
    ensures
        r == le_val(bytes@, o as int, 8),
{
    let r = bytes[o] as u64 + 256 * (bytes[o + 1] as u64) + 65536 * (bytes[o + 2] as u64)
        + 16777216 * (bytes[o + 3] as u64) + 4294967296 * (bytes[o + 4] as u64) + 1099511627776 * (
    bytes[o + 5] as u64) + 281474976710656 * (bytes[o + 6] as u64) + 72057594037927936 * (bytes[o
        + 7] as u64);
    proof {
        let s = bytes@;
        let n = o as int;
        assert(le_val(s, n + 8, 0) == 0);
        assert(le_val(s, n + 7, 1) == s[n + 7]);
        assert(le_val(s, n + 6, 2) == s[n + 6] + 256 * le_val(s, n + 7, 1));
        assert(le_val(s, n + 5, 3) == s[n + 5] + 256 * le_val(s, n + 6, 2));
        assert(le_val(s, n + 4, 4) == s[n + 4] + 256 * le_val(s, n + 5, 3));
        assert(le_val(s, n + 3, 5) == s[n + 3] + 256 * le_val(s, n + 4, 4));
        assert(le_val(s, n + 2, 6) == s[n + 2] + 256 * le_val(s, n + 3, 5));
        assert(le_val(s, n + 1, 7) == s[n + 1] + 256 * le_val(s, n + 2, 6));
        assert(le_val(s, n, 8) == s[n] + 256 * le_val(s, n + 1, 7));
    }
    r
}

/// Copies `bytes[a..b]` into a fresh vector.
fn copy_range(bytes: &[u8], a: usize, b: usize) -> (r: Vec<u8>)
    requires
        a <= b <= bytes@.len(),
    ensures
        r@ == bytes@.subrange(a as int, b as int),
{
    let mut r: Vec<u8> = Vec::new();
    let mut i: usize = a;
    while i < b
        invariant
            a <= i <= b <= bytes@.len(),
            r@ =~= bytes@.subrange(a as int, i as int),
        decreases b - i,
    {
        r.push(bytes[i]);
        proof {
            assert(r@ =~= bytes@.subrange(a as int, i + 1));
        }
        i = i + 1;
    }
    proof {
        assert(r@ =~= bytes@.subrange(a as int, b as int));
    }
    r
}

/// Appends all of `v` to `out`.
fn append_bytes(out: &mut Vec<u8>, v: &Vec<u8>)
    ensures
        final(out)@ == old(out)@ + v@,
{
    let mut i: usize = 0;
    while i < v.len()
        invariant
            0 <= i <= v@.len(),
            out@ =~= old(out)@ + v@.subrange(0, i as int),
        decreases v@.len() - i,
    {
        out.push(v[i]);
        proof {
            assert(out@ =~= old(out)@ + v@.subrange(0, i + 1));
        }
        i = i + 1;
    }
    proof {
        assert(v@.subrange(0, v@.len() as int) =~= v@);
        assert(out@ =~= old(out)@ + v@);
    }
}

/// What the codec decodes from a byte sequence: the three document-id
/// sets, or nothing when the frame or a bitmap is malformed.
pub open spec fn mc_parse(bytes: Seq<u8>) -> Option<(Set<u32>, Set<u32>, Set<u32>)> {
    if bytes.len() < 25 || bytes[0] != CHANGES_MAGIC {
        None
    } else {
        let l1 = le_val(bytes, 1, 8);
        let l2 = le_val(bytes, 9, 8);
        let l3 = le_val(bytes, 17, 8);
        if 25 + l1 + l2 + l3 != bytes.len() {
            None
        } else {
            let p1 = rb_parse(bytes.subrange(25, 25 + l1));
            let p2 = rb_parse(bytes.subrange(25 + l1, 25 + l1 + l2));
            let p3 = rb_parse(bytes.subrange(25 + l1 + l2, 25 + l1 + l2 + l3));
            if p1 is Some && p2 is Some && p3 is Some {
                Some((p1->0, p2->0, p3->0))
            } else {
                None
            }
        }
    }
}

/// Per-collection merged changes: the inserted, updated and deleted
/// document ids.
pub struct MergedChanges {
    pub inserts: roaring::RoaringBitmap,
    pub updates: roaring::RoaringBitmap,
    pub deletes: roaring::RoaringBitmap,
}

impl MergedChanges {
    pub fn new() -> (r: MergedChanges)
        ensures
            rb_of(r.inserts) == Set::<u32>::empty(),
            rb_of(r.updates) == Set::<u32>::empty(),
            rb_of(r.deletes) == Set::<u32>::empty(),
            rb_of(r.inserts).finite(),
            rb_of(r.updates).finite(),
            rb_of(r.deletes).finite(),
    {
        MergedChanges { inserts: rb_new(), updates: rb_new(), deletes: rb_new() }
    }

    /// Serializes the bundle: a magic byte, the three bitmap lengths, then
    /// the three serialized bitmaps. Decoding the result gives the held
    /// sets back.
    pub fn to_bytes(&self) -> (r: Vec<u8>)
        ensures
            mc_parse(r@) == Some((rb_of(self.inserts), rb_of(self.updates), rb_of(self.deletes))),
    {
        let s1 = rb_serialize(&self.inserts);
        let s2 = rb_serialize(&self.updates);
        let s3 = rb_serialize(&self.deletes);
        let mut out: Vec<u8> = Vec::new();
        out.push(CHANGES_MAGIC);
        let ghost o0 = out@;
        write_le64(&mut out, s1.len() as u64);
        let ghost o_after1 = out@;
        write_le64(&mut out, s2.len() as u64);
        let ghost o_after2 = out@;
        write_le64(&mut out, s3.len() as u64);
        let ghost o_after3 = out@;
        append_bytes(&mut out, &s1);
        append_bytes(&mut out, &s2);
        append_bytes(&mut out, &s3);
        proof {
            let b = out@;
            assert forall|j: int| 0 <= j < o0.len() implies o_after1[j] == o0[j] by {
                assert(o0 =~= o_after1.take(o0.len() as int));
            }
            assert forall|j: int| 0 <= j < o_after1.len() implies o_after2[j] == o_after1[j] by {
                assert(o_after1 =~= o_after2.take(o_after1.len() as int));
            }
            assert forall|j: int| 0 <= j < o_after2.len() implies o_after3[j] == o_after2[j] by {
                assert(o_after2 =~= o_after3.take(o_after2.len() as int));
            }
            assert(b =~= o_after3 + s1@ + s2@ + s3@);
            assert(b.len() == 25 + s1@.len() + s2@.len() + s3@.len());
            assert(forall|j: int| 0 <= j < o_after3.len() ==> #[trigger] b[j] == o_after3[j]);
            assert(b[0] == CHANGES_MAGIC);
            lemma_le_val_stable(o_after1, b, 1, 8);
            lemma_le_val_stable(o_after2, b, 9, 8);
            lemma_le_val_stable(o_after3, b, 17, 8);
            assert(le_val(b, 1, 8) == s1@.len());
            assert(le_val(b, 9, 8) == s2@.len());
            assert(le_val(b, 17, 8) == s3@.len());
            assert(b.subrange(25, 25 + s1@.len() as int) =~= s1@);
            assert(b.subrange(25 + s1@.len() as int, 25 + s1@.len() as int + s2@.len() as int) =~= s2@);
            assert(b.subrange(
                25 + s1@.len() as int + s2@.len() as int,
                25 + s1@.len() as int + s2@.len() as int + s3@.len() as int,
            ) =~= s3@);
        }
        out
    }

    /// Decodes a serialized bundle; fails exactly on a malformed frame or
    /// bitmap.
    pub fn from_bytes(bytes: &[u8]) -> (r: Option<MergedChanges>)
        ensures
            r is Some <==> mc_parse(bytes@) is Some,
            r matches Some(mc) ==> mc_parse(bytes@) == Some(
                (rb_of(mc.inserts), rb_of(mc.updates), rb_of(mc.deletes)),
            ) && rb_of(mc.inserts).finite() && rb_of(mc.updates).finite() && rb_of(
                mc.deletes,
            ).finite(),
    {
        if bytes.len() < 25 {
            return None;
        }
        if bytes[0] != CHANGES_MAGIC {
            return None;
        }
        let l1 = read_le64(bytes, 1);
        let l2 = read_le64(bytes, 9);
        let l3 = read_le64(bytes, 17);
        let total = bytes.len() as u64;
        proof {
            lemma_le_val_bounds(bytes@, 1, 8);
            lemma_le_val_bounds(bytes@, 9, 8);
            lemma_le_val_bounds(bytes@, 17, 8);
        }
        if l1 > total - 25 {
            return None;
        }
        let rem1 = total - 25 - l1;
        if l2 > rem1 {
            return None;
        }
        let rem2 = rem1 - l2;
        if l3 != rem2 {
            return None;
        }
        let o1 = 25usize;
        let o2 = o1 + l1 as usize;
        let o3 = o2 + l2 as usize;
        let o4 = o3 + l3 as usize;
        let s1 = copy_range(bytes, o1, o2);
        let s2 = copy_range(bytes, o2, o3);
        let s3 = copy_range(bytes, o3, o4);
        let b1 = rb_deserialize(s1.as_slice());
        let b2 = rb_deserialize(s2.as_slice());
        let b3 = rb_deserialize(s3.as_slice());
        match (b1, b2, b3) {
            (Some(inserts), Some(updates), Some(deletes)) => Some(
                MergedChanges { inserts, updates, deletes },
            ),
            _ => None,
        }
    }
}

} // verus!
