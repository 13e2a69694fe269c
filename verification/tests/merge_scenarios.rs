use jmap_cluster::document::{Document, IndexOptions, Mutation, Tag};
use jmap_cluster::document::AclEntry;
use jmap_cluster::errors::SetError;
use jmap_cluster::mail::changed_mailbox_ids;
use jmap_cluster::orm::{IndexValue, ObjectSchema, TinyORM};

fn schema_indexed(field: u8) -> ObjectSchema {
    ObjectSchema { required: vec![], indexed: vec![(field, IndexOptions::new().index())] }
}

fn text_list(items: &[&str]) -> IndexValue {
    IndexValue::TextList(items.iter().map(|s| s.to_string()).collect())
}

fn count_text_muts(doc: &Document, field: u8, value: &str, clear: bool) -> usize {
    doc.mutations
        .iter()
        .filter(|m| match m {
            Mutation::Text { field: f, value: v, options, .. } => {
                *f == field && v == value && options.clear == clear
            }
            _ => false,
        })
        .count()
}

fn count_number_muts(doc: &Document, field: u8, value: u64, clear: bool) -> usize {
    doc.mutations
        .iter()
        .filter(|m| match m {
            Mutation::Number { field: f, value: v, options } => {
                *f == field && *v == value && options.clear == clear
            }
            _ => false,
        })
        .count()
}

#[test]
fn merge_list_insert_remove() {
    // stored ["a", "b"], incoming ["b", "c"]: clear "a", add "c"
    let mut p: TinyORM<IndexValue> = TinyORM::new();
    p.set(1, text_list(&["a", "b"]));
    let mut n: TinyORM<IndexValue> = TinyORM::new();
    n.set(1, text_list(&["b", "c"]));
    let mut doc = Document::new(0);
    let schema = schema_indexed(1);
    let r = p.merge(&mut doc, n, &schema);
    assert_eq!(r, Ok(true));
    assert_eq!(count_text_muts(&doc, 1, "a", true), 1);
    assert_eq!(count_text_muts(&doc, 1, "c", false), 1);
    assert_eq!(count_text_muts(&doc, 1, "b", true), 0);
    assert_eq!(count_text_muts(&doc, 1, "b", false), 0);
}

#[test]
fn merge_shape_change() {
    // stored integer list [1, 2], incoming scalar 3: the new shape does
    // not match the stored list, so every current element is cleared and
    // the property is removed
    let mut p: TinyORM<IndexValue> = TinyORM::new();
    p.set(1, IndexValue::IntegerList(vec![1, 2]));
    let mut n: TinyORM<IndexValue> = TinyORM::new();
    n.set(1, IndexValue::Integer(3));
    let mut doc = Document::new(0);
    let schema = schema_indexed(1);
    let r = p.merge(&mut doc, n, &schema);
    assert_eq!(r, Ok(true));
    assert_eq!(count_number_muts(&doc, 1, 1, true), 1);
    assert_eq!(count_number_muts(&doc, 1, 2, true), 1);
    assert_eq!(count_number_muts(&doc, 1, 3, false), 0);
}

#[test]
fn merge_required_empty_rejected() {
    // a required property set to the empty string fails validation
    let mut p: TinyORM<IndexValue> = TinyORM::new();
    p.set(6, IndexValue::Text("x".to_string()));
    let mut n: TinyORM<IndexValue> = TinyORM::new();
    n.set(6, IndexValue::Text(String::new()));
    let mut doc = Document::new(0);
    let schema = ObjectSchema { required: vec![6], indexed: vec![] };
    let r = p.merge_validate(&mut doc, n, &schema);
    match r {
        Err(SetError::InvalidProperty { property, description }) => {
            assert_eq!(property, 6);
            assert_eq!(description, "Property cannot be empty.");
        }
        _ => panic!("expected an invalid-property error"),
    }
    assert!(doc.is_empty());
}

#[test]
fn merge_required_omitted_without_stored_value_rejected() {
    let p: TinyORM<IndexValue> = TinyORM::new();
    let n: TinyORM<IndexValue> = TinyORM::new();
    let mut doc = Document::new(0);
    let schema = ObjectSchema { required: vec![6], indexed: vec![] };
    let r = p.merge_validate(&mut doc, n, &schema);
    assert!(matches!(r, Err(SetError::InvalidProperty { .. })));
}

#[test]
fn merge_required_omitted_with_stored_value_passes() {
    let mut p: TinyORM<IndexValue> = TinyORM::new();
    p.set(6, IndexValue::Text("x".to_string()));
    let n: TinyORM<IndexValue> = TinyORM::new();
    let mut doc = Document::new(0);
    let schema = ObjectSchema { required: vec![6], indexed: vec![] };
    let r = p.merge_validate(&mut doc, n, &schema);
    assert!(matches!(r, Ok(false)));
    assert!(doc.is_empty());
}

#[test]
fn merge_identical_snapshot_is_a_no_op() {
    // merging an identical snapshot emits nothing and reports no change
    let mut p: TinyORM<IndexValue> = TinyORM::new();
    p.set(1, text_list(&["a", "b"]));
    p.set(2, IndexValue::Integer(9));
    p.tags.push((5, vec![Tag::Id(1), Tag::Static(3)]));
    p.acls.push(AclEntry { id: 1, permissions: 7 });
    let mut n: TinyORM<IndexValue> = TinyORM::new();
    n.set(1, text_list(&["a", "b"]));
    n.set(2, IndexValue::Integer(9));
    n.tags.push((5, vec![Tag::Id(1), Tag::Static(3)]));
    n.acls.push(AclEntry { id: 1, permissions: 7 });
    let mut doc = Document::new(0);
    let schema = schema_indexed(1);
    let r = p.merge(&mut doc, n, &schema);
    assert_eq!(r, Ok(false));
    assert!(doc.is_empty());
}

#[test]
fn merge_tag_diff() {
    // stored tags {1, 2}, incoming {2, 3}: clear tag 1, add tag 3
    let mut p: TinyORM<IndexValue> = TinyORM::new();
    p.tags.push((5, vec![Tag::Id(1), Tag::Id(2)]));
    let mut n: TinyORM<IndexValue> = TinyORM::new();
    n.tags.push((5, vec![Tag::Id(2), Tag::Id(3)]));
    let mut doc = Document::new(0);
    let schema = ObjectSchema { required: vec![], indexed: vec![] };
    let r = p.merge(&mut doc, n, &schema);
    assert_eq!(r, Ok(true));
    let clears: Vec<u32> = doc
        .mutations
        .iter()
        .filter_map(|m| match m {
            Mutation::Tag { field: 5, tag: Tag::Id(id), options } if options.clear => Some(*id),
            _ => None,
        })
        .collect();
    let adds: Vec<u32> = doc
        .mutations
        .iter()
        .filter_map(|m| match m {
            Mutation::Tag { field: 5, tag: Tag::Id(id), options } if !options.clear => Some(*id),
            _ => None,
        })
        .collect();
    assert_eq!(clears, vec![1]);
    assert_eq!(adds, vec![3]);
}

#[test]
fn merge_acl_diff() {
    // a changed entry is re-added under its id, a dropped id is cleared
    let mut p: TinyORM<IndexValue> = TinyORM::new();
    p.acls.push(AclEntry { id: 1, permissions: 7 });
    p.acls.push(AclEntry { id: 3, permissions: 1 });
    let mut n: TinyORM<IndexValue> = TinyORM::new();
    n.acls.push(AclEntry { id: 1, permissions: 5 });
    n.acls.push(AclEntry { id: 2, permissions: 7 });
    let mut doc = Document::new(0);
    let schema = ObjectSchema { required: vec![], indexed: vec![] };
    let r = p.merge(&mut doc, n, &schema);
    assert_eq!(r, Ok(true));
    let clears: Vec<u32> = doc
        .mutations
        .iter()
        .filter_map(|m| match m {
            Mutation::Acl { entry, options } if options.clear => Some(entry.id),
            _ => None,
        })
        .collect();
    let adds: Vec<(u32, u32)> = doc
        .mutations
        .iter()
        .filter_map(|m| match m {
            Mutation::Acl { entry, options } if !options.clear => {
                Some((entry.id, entry.permissions))
            }
            _ => None,
        })
        .collect();
    assert_eq!(clears, vec![3]);
    assert_eq!(adds, vec![(1, 5), (2, 7)]);
}

#[test]
fn merge_non_indexed_empty_value_removes_property() {
    let mut p: TinyORM<IndexValue> = TinyORM::new();
    p.set(2, IndexValue::Text("x".to_string()));
    let mut n: TinyORM<IndexValue> = TinyORM::new();
    n.set(2, IndexValue::Text(String::new()));
    let mut doc = Document::new(0);
    let schema = ObjectSchema { required: vec![], indexed: vec![] };
    let r = p.merge(&mut doc, n, &schema);
    assert_eq!(r, Ok(true));
    // no index mutations for a non-indexed field, only the stored form
    assert!(doc
        .mutations
        .iter()
        .all(|m| matches!(m, Mutation::Binary { .. })));
}

#[test]
fn merge_stored_form_is_appended_last() {
    let mut p: TinyORM<IndexValue> = TinyORM::new();
    p.set(1, IndexValue::Integer(1));
    let mut n: TinyORM<IndexValue> = TinyORM::new();
    n.set(1, IndexValue::Integer(2));
    let mut doc = Document::new(0);
    let schema = schema_indexed(1);
    let r = p.merge(&mut doc, n, &schema);
    assert_eq!(r, Ok(true));
    match doc.mutations.last() {
        Some(Mutation::Binary { field, options, .. }) => {
            assert_eq!(*field, jmap_cluster::orm::ORM_FIELD);
            assert!(options.store);
            assert!(!options.clear);
        }
        _ => panic!("expected the stored form as the last mutation"),
    }
}

#[test]
fn track_changes_starts_from_current_tags_and_acls() {
    let mut cur: TinyORM<IndexValue> = TinyORM::new();
    cur.set(1, IndexValue::Integer(4));
    cur.tags.push((5, vec![Tag::Id(8)]));
    cur.acls.push(AclEntry { id: 2, permissions: 3 });
    let fresh = TinyORM::track_changes(&cur);
    assert_eq!(fresh.properties.len(), 0);
    assert_eq!(fresh.tags.len(), 1);
    assert_eq!(fresh.acls.len(), 1);
    // merging the tracked snapshot back changes nothing on the side parts
    let mut doc = Document::new(0);
    let schema = ObjectSchema { required: vec![], indexed: vec![] };
    let r = cur.merge(&mut doc, fresh, &schema);
    assert_eq!(r, Ok(false));
    assert!(doc.is_empty());
}

#[test]
fn tag_api_keeps_set_semantics() {
    let mut orm: TinyORM<IndexValue> = TinyORM::new();
    assert!(!orm.has_tags(5));
    orm.tag(5, Tag::Id(1));
    orm.tag(5, Tag::Id(2));
    orm.tag(5, Tag::Id(2));
    assert!(orm.has_tags(5));
    assert_eq!(orm.get_tags(5).unwrap().len(), 2, "a tag set holds no duplicates");
    orm.untag(5, &Tag::Id(1));
    assert_eq!(orm.get_tags(5).unwrap().len(), 1);
    orm.untag_all(5);
    assert!(!orm.has_tags(5));
    assert!(orm.get_tags(5).is_some(), "the emptied field stays present for the merge");
}

#[test]
fn changed_tags_are_the_symmetric_difference() {
    let mut cur: TinyORM<IndexValue> = TinyORM::new();
    cur.tag(5, Tag::Id(1));
    cur.tag(5, Tag::Id(2));
    let mut new_side: TinyORM<IndexValue> = TinyORM::new();
    new_side.tag(5, Tag::Id(2));
    new_side.tag(5, Tag::Id(3));
    let changed = cur.get_changed_tags(&new_side, 5);
    let mut ids: Vec<u32> = changed
        .iter()
        .map(|t| match t {
            Tag::Id(id) => *id,
            _ => panic!("only id tags were stored"),
        })
        .collect();
    ids.sort();
    assert_eq!(ids, vec![1, 3]);
    assert!(cur.get_changed_tags(&new_side, 9).is_empty());
}

#[test]
fn untagged_field_still_clears_stored_tags_on_merge() {
    // the mail set path empties the tag field first, then re-tags; an
    // empty field present on the incoming side clears every stored tag
    let mut p: TinyORM<IndexValue> = TinyORM::new();
    p.tag(5, Tag::Id(1));
    let mut n = TinyORM::track_changes(&p);
    n.untag_all(5);
    let mut doc = Document::new(0);
    let schema = ObjectSchema { required: vec![], indexed: vec![] };
    let r = p.merge(&mut doc, n, &schema);
    assert_eq!(r, Ok(true));
    let clears = doc
        .mutations
        .iter()
        .filter(|m| matches!(m, Mutation::Tag { options, .. } if options.clear))
        .count();
    assert_eq!(clears, 1);
}

#[test]
fn changed_mailboxes_cover_diff_and_seen_flip() {
    let seen = Tag::Static(1);
    let mut cur: TinyORM<IndexValue> = TinyORM::new();
    cur.tag(10, Tag::Id(1));
    cur.tag(10, Tag::Id(2));
    let mut fields: TinyORM<IndexValue> = TinyORM::new();
    fields.tag(10, Tag::Id(2));
    fields.tag(10, Tag::Id(3));
    // no keyword change: only the mailboxes whose tag flipped
    let mut ids = changed_mailbox_ids(&cur, &fields, 10, 11, &seen);
    ids.sort();
    assert_eq!(ids, vec![1, 3]);
    // the seen keyword flips: every mailbox the message now sits in too
    fields.tag(11, seen.clone_tag());
    let mut ids2 = changed_mailbox_ids(&cur, &fields, 10, 11, &seen);
    ids2.sort();
    assert_eq!(ids2, vec![1, 2, 3]);
}
