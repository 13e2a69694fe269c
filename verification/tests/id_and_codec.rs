use jmap_cluster::changes_merge::MergedChanges;
use jmap_cluster::collection::Collection;
use jmap_cluster::id_assign::{IdAssigner, IdCacheKey, JMAPStore};
use jmap_cluster::mail::SetMailHelper;
use roaring::RoaringBitmap;

#[test]
fn id_recycling_order() {
    // used ids {0, 2, 5}: the freed ids come first, smallest first, then
    // fresh ids from 6 upward
    let mut used = RoaringBitmap::new();
    used.insert(0);
    used.insert(2);
    used.insert(5);
    let mut assigner = IdAssigner::new(Some(used));
    let mut got = Vec::new();
    for _ in 0..7 {
        got.push(assigner.assign_document_id());
    }
    assert_eq!(got, vec![1, 3, 4, 6, 7, 8, 9]);
}

#[test]
fn id_assigner_without_prior_ids_counts_from_zero() {
    let mut assigner = IdAssigner::new(None);
    assert_eq!(assigner.assign_document_id(), 0);
    assert_eq!(assigner.assign_document_id(), 1);
    assert_eq!(assigner.assign_document_id(), 2);
}

#[test]
fn id_assigner_never_returns_a_used_id() {
    let mut used = RoaringBitmap::new();
    for i in [1u32, 2, 3, 5, 8, 13, 21] {
        used.insert(i);
    }
    let check = used.clone();
    let mut assigner = IdAssigner::new(Some(used));
    for _ in 0..30 {
        let id = assigner.assign_document_id();
        assert!(!check.contains(id), "assigned an id that was already used");
    }
}

#[test]
fn store_caches_one_assigner_per_key() {
    let mut store = JMAPStore::new();
    let mut used = RoaringBitmap::new();
    used.insert(0);
    let a = store
        .assign_document_id(7, Collection::Mail, Some(used.clone()))
        .unwrap();
    // the second call continues the cached session and ignores the bitmap
    let b = store.assign_document_id(7, Collection::Mail, Some(used)).unwrap();
    assert_eq!(a, 1);
    assert_eq!(b, 2);
    // a different collection starts its own session
    let c = store.assign_document_id(7, Collection::Mailbox, None).unwrap();
    assert_eq!(c, 0);
    let key = IdCacheKey::new(7, Collection::Mail);
    assert!(key.eq_key(&IdCacheKey::new(7, Collection::Mail)));
    assert!(!key.eq_key(&IdCacheKey::new(7, Collection::Mailbox)));
}

#[test]
fn merged_changes_round_trip() {
    let mut mc = MergedChanges::new();
    mc.inserts.insert(1);
    mc.inserts.insert(5);
    mc.updates.insert(9);
    mc.deletes.insert(2);
    let bytes = mc.to_bytes();
    let back = MergedChanges::from_bytes(&bytes).expect("decoding its own encoding");
    assert!(back.inserts.contains(1) && back.inserts.contains(5));
    assert_eq!(back.inserts.len(), 2);
    assert!(back.updates.contains(9));
    assert_eq!(back.updates.len(), 1);
    assert!(back.deletes.contains(2));
    assert_eq!(back.deletes.len(), 1);
}

#[test]
fn merged_changes_empty_round_trip() {
    let mc = MergedChanges::new();
    let bytes = mc.to_bytes();
    let back = MergedChanges::from_bytes(&bytes).expect("decoding its own encoding");
    assert!(back.inserts.is_empty() && back.updates.is_empty() && back.deletes.is_empty());
}

#[test]
fn merged_changes_rejects_malformed_bytes() {
    assert!(MergedChanges::from_bytes(&[]).is_none());
    assert!(MergedChanges::from_bytes(&[1, 2, 3]).is_none());
    let mc = MergedChanges::new();
    let mut bytes = mc.to_bytes();
    bytes[0] = bytes[0].wrapping_add(1);
    assert!(MergedChanges::from_bytes(&bytes).is_none(), "wrong magic must fail");
    let mut truncated = mc.to_bytes();
    truncated.pop();
    assert!(MergedChanges::from_bytes(&truncated).is_none(), "length mismatch must fail");
}

#[test]
fn mailbox_membership_guard() {
    let mut ids = RoaringBitmap::new();
    ids.insert(3);
    ids.insert(9);
    let helper = SetMailHelper::new(ids);
    assert!(helper.mailbox_exists(3));
    assert!(helper.mailbox_exists(9));
    assert!(!helper.mailbox_exists(4));
}
