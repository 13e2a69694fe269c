//! Helpers of the mail `set` path that the verified core keeps: the
//! mailbox-id membership test that guards tagging a message into a
//! mailbox.

use vstd::prelude::*;

use crate::bitmaps::{rb_contains, rb_of};
use crate::document::{DocumentId, Tag, TagView};
use crate::errors::FieldId;
use crate::orm::{tags_contain, Indexable, TinyORM};

verus! {

/// The mailbox ids named by a set of tags.
pub open spec fn ids_of(s: Set<TagView>) -> Set<u32> {
    Set::new(|v: u32| s.contains(TagView::Id(v)))
}

/// Shared data of one mail `set` invocation: the account's current
/// mailbox ids, read once up front.
pub struct SetMailHelper {
    pub mailbox_ids: roaring::RoaringBitmap,
}

impl SetMailHelper {
    pub fn new(mailbox_ids: roaring::RoaringBitmap) -> (r: SetMailHelper)
        ensures
            rb_of(r.mailbox_ids) == rb_of(mailbox_ids),
    {
        SetMailHelper { mailbox_ids }
    }

    /// Whether a mailbox id names an existing mailbox; tagging a message
    /// into a missing mailbox is rejected.
    pub fn mailbox_exists(&self, mailbox_id: DocumentId) -> (r: bool)
        ensures
            r == rb_of(self.mailbox_ids).contains(mailbox_id),
    {
        rb_contains(&self.mailbox_ids, mailbox_id)
    }
}


/// The mailboxes a mail update must log as changed: every mailbox whose
/// tag the update adds or removes, and, when the seen keyword flips,
/// every mailbox the message sits in after the update.
pub fn changed_mailbox_ids<V: Indexable>(
    current: &TinyORM<V>,
    fields: &TinyORM<V>,
    mailbox_field: FieldId,
    keyword_field: FieldId,
    seen: &Tag,
) -> (r: Vec<u32>)
    requires
        current.wf(),
        fields.wf(),
    ensures
        ({
            let diff = current.tag_set(mailbox_field).difference(
                fields.tag_set(mailbox_field),
            ).union(fields.tag_set(mailbox_field).difference(current.tag_set(mailbox_field)));
            let keyword_diff = current.tag_set(keyword_field).difference(
                fields.tag_set(keyword_field),
            ).union(fields.tag_set(keyword_field).difference(current.tag_set(keyword_field)));
            let seen_flip = keyword_diff.contains(seen@);
            r@.to_set() =~= ids_of(diff).union(
                if seen_flip {
                    ids_of(fields.tag_set(mailbox_field))
                } else {
                    Set::empty()
                },
            )
        }),
{
    let keyword_diff = current.get_changed_tags(fields, keyword_field);
    let seen_flip = tags_contain(&keyword_diff, seen);
    let mut out: Vec<u32> = Vec::new();
    proof {
        assert(out@.to_set() =~= Set::<u32>::empty());
    }
    if seen_flip {
        let empty: Vec<Tag> = Vec::new();
        let in_boxes = match fields.get_tags(mailbox_field) {
            Some(ts) => ts,
            None => &empty,
        };
        proof {
            assert(crate::orm::tag_views(in_boxes@) == fields.tag_set(mailbox_field)) by {
                if !fields.tag_has(mailbox_field) {
                    assert(in_boxes@.len() == 0);
                    assert(crate::orm::tag_views(in_boxes@) =~= Set::<TagView>::empty());
                }
            }
        }
        let mut i: usize = 0;
        while i < in_boxes.len()
            invariant
                0 <= i <= in_boxes@.len(),
                out@.to_set() =~= ids_of(crate::orm::tag_views(in_boxes@.take(i as int))),
            decreases in_boxes@.len() - i,
        {
            proof {
                crate::orm::lemma_tag_views_take(in_boxes@, i as int);
            }
            match &in_boxes[i] {
                Tag::Id(v) => {
                    if !ids_contain(&out, *v) {
                        let ghost out_pre = out@;
                        out.push(*v);
                        proof {
                            out_pre.lemma_push_to_set_commute(in_boxes@[i as int]@->Id_0);
                            assert(out@ =~= out_pre.push(in_boxes@[i as int]@->Id_0));
                            assert(out@.to_set() =~= ids_of(
                                crate::orm::tag_views(in_boxes@.take(i + 1)),
                            ));
                        }
                    } else {
                        proof {
                            assert(out@.to_set() =~= ids_of(
                                crate::orm::tag_views(in_boxes@.take(i + 1)),
                            ));
                        }
                    }
                },
                _ => {
                    proof {
                        assert(out@.to_set() =~= ids_of(
                            crate::orm::tag_views(in_boxes@.take(i + 1)),
                        ));
                    }
                },
            }
            i = i + 1;
        }
        proof {
            assert(in_boxes@.take(in_boxes@.len() as int) =~= in_boxes@);
        }
    }
    let ghost base = out@.to_set();
    let mailbox_diff = current.get_changed_tags(fields, mailbox_field);
    let mut j: usize = 0;
    while j < mailbox_diff.len()
        invariant
            0 <= j <= mailbox_diff@.len(),
            out@.to_set() =~= base.union(
                ids_of(crate::orm::tag_views(mailbox_diff@.take(j as int))),
            ),
        decreases mailbox_diff@.len() - j,
    {
        proof {
            crate::orm::lemma_tag_views_take(mailbox_diff@, j as int);
        }
        match &mailbox_diff[j] {
            Tag::Id(v) => {
                if !ids_contain(&out, *v) {
                    let ghost out_pre = out@;
                    out.push(*v);
                    proof {
                        out_pre.lemma_push_to_set_commute(mailbox_diff@[j as int]@->Id_0);
                        assert(out@ =~= out_pre.push(mailbox_diff@[j as int]@->Id_0));
                        assert(out@.to_set() =~= base.union(
                            ids_of(crate::orm::tag_views(mailbox_diff@.take(j + 1))),
                        ));
                    }
                } else {
                    proof {
                        assert(out@.to_set() =~= base.union(
                            ids_of(crate::orm::tag_views(mailbox_diff@.take(j + 1))),
                        ));
                    }
                }
            },
            _ => {
                proof {
                    assert(out@.to_set() =~= base.union(
                        ids_of(crate::orm::tag_views(mailbox_diff@.take(j + 1))),
                    ));
                }
            },
        }
        j = j + 1;
    }
    proof {
        assert(mailbox_diff@.take(mailbox_diff@.len() as int) =~= mailbox_diff@);
    }
    out
}

/// True iff `v` holds `x`.
fn ids_contain(v: &Vec<u32>, x: u32) -> (r: bool)
    ensures
        r == v@.to_set().contains(x),
{
    let mut i: usize = 0;
    while i < v.len()
        invariant
            0 <= i <= v@.len(),
            forall|k: int| 0 <= k < i ==> v@[k] != x,
        decreases v@.len() - i,
    {
        if v[i] == x {
            return true;
        }
        i = i + 1;
    }
    false
}

} // verus!
