//! Three-way merge of a previous ORM snapshot with an incoming one,
//! emitting index mutations with exact add/remove deltas.

use vstd::prelude::*;

use crate::document::{Document, IndexOptions, Language, MutView, Tag, TagView};
use crate::errors::FieldId;
use crate::indexing::{
    acl_addset_of, acl_clearset_of, addset_field, apply_acl, apply_field, apply_tag,
    clears_before_adds, clearset_field, entries_of, is_index_mut_for, is_tag_add,
    is_tag_clear, is_tag_mut_for,
    lemma_acl_sets_concat, lemma_acl_sets_push, lemma_acl_sets_untouched, lemma_apply_acl_concat,
    lemma_apply_acl_push, lemma_apply_field_concat, lemma_apply_field_push,
    lemma_apply_field_untouched, lemma_apply_tag_concat, lemma_apply_tag_push,
    lemma_apply_tag_untouched, lemma_cba_concat, lemma_clears_cancel_adds,
    lemma_field_sets_concat, lemma_field_sets_push, lemma_field_sets_untouched,
    lemma_tag_cba_concat, lemma_tag_sets_concat, lemma_tag_sets_push,
    lemma_tag_sets_untouched, mut_is_clear,
    tag_addset_of, tag_clears_before_adds, tag_clearset_of, IndexEntry,
};
use crate::orm::{Indexable, IndexValue, IndexView, ObjectSchema, TinyORM};

verus! {

/// The character sequences of a sequence of strings.
pub open spec fn strs_view(s: Seq<String>) -> Seq<Seq<char>> {
    s.map_values(|x: String| x@)
}

pub use crate::orm::tag_views;

/// The index state a field carries before the merge: the indexable form of
/// the stored value, `Null` when the property is absent.
pub open spec fn cur_index<V: Indexable>(p: TinyORM<V>, f: FieldId) -> IndexView {
    if p.prop_has(f) {
        V::index_of_view(p.prop_at(f)@)
    } else {
        IndexView::Null
    }
}

/// The value stored under `f` after merging the incoming value `n`, as a
/// mathematical value; `None` means the property is removed or absent.
pub open spec fn merged_value<V: Indexable>(
    p: TinyORM<V>,
    f: FieldId,
    n: V,
    indexed: bool,
) -> Option<V::V> {
    if p.prop_has(f) && p.prop_at(f)@ == n@ {
        Some(n@)
    } else if indexed {
        let ci = cur_index(p, f);
        let ni = V::index_of_view(n@);
        if ci is TextList {
            if ni is TextList {
                Some(n@)
            } else {
                None
            }
        } else if ci is IntegerList {
            if ni is IntegerList {
                Some(n@)
            } else {
                None
            }
        } else {
            if ni is Null {
                None
            } else {
                Some(n@)
            }
        }
    } else {
        if V::empty_of_view(n@) {
            None
        } else {
            Some(n@)
        }
    }
}

/// The indexable form of the merged property value.
pub open spec fn merged_index<V: Indexable>(
    p: TinyORM<V>,
    f: FieldId,
    n: V,
    indexed: bool,
) -> IndexView {
    match merged_value(p, f, n, indexed) {
        Some(v) => V::index_of_view(v),
        None => IndexView::Null,
    }
}

/// The index entries a merge clears for `f`: the stored list entries the
/// incoming list drops, the whole stored list on a shape change, or the
/// stored scalar entry.
pub open spec fn spec_clears<V: Indexable>(
    p: TinyORM<V>,
    f: FieldId,
    n: V,
    indexed: bool,
) -> Set<IndexEntry> {
    if p.prop_has(f) && p.prop_at(f)@ == n@ {
        Set::empty()
    } else if indexed {
        let ci = cur_index(p, f);
        let ni = V::index_of_view(n@);
        if ci is TextList {
            if ni is TextList {
                entries_of(ci).difference(entries_of(ni))
            } else {
                entries_of(ci)
            }
        } else if ci is IntegerList {
            if ni is IntegerList {
                entries_of(ci).difference(entries_of(ni))
            } else {
                entries_of(ci)
            }
        } else {
            entries_of(ci)
        }
    } else {
        Set::empty()
    }
}

/// The index entries a merge adds for `f`: the incoming list entries the
/// stored list lacks, nothing on a shape change, or the whole incoming
/// indexable form after a scalar or absent stored value.
pub open spec fn spec_adds<V: Indexable>(
    p: TinyORM<V>,
    f: FieldId,
    n: V,
    indexed: bool,
) -> Set<IndexEntry> {
    if p.prop_has(f) && p.prop_at(f)@ == n@ {
        Set::empty()
    } else if indexed {
        let ci = cur_index(p, f);
        let ni = V::index_of_view(n@);
        if ci is TextList {
            if ni is TextList {
                entries_of(ni).difference(entries_of(ci))
            } else {
                Set::empty()
            }
        } else if ci is IntegerList {
            if ni is IntegerList {
                entries_of(ni).difference(entries_of(ci))
            } else {
                Set::empty()
            }
        } else {
            entries_of(ni)
        }
    } else {
        Set::empty()
    }
}

/// The ACL entries a merge adds: incoming entries the stored list does not
/// hold verbatim.
pub open spec fn spec_acl_adds<V: Indexable>(p: TinyORM<V>, n: TinyORM<V>) -> Set<
    crate::document::AclEntry,
> {
    Set::new(|e: crate::document::AclEntry| n.acls@.contains(e) && !p.acls@.contains(e))
}

/// Whether the incoming value for `f` differs from the stored one; a merge
/// reports a change exactly when some incoming entry differs.
pub open spec fn prop_differs<V: Indexable>(p: TinyORM<V>, f: FieldId, n: V) -> bool {
    !(p.prop_has(f) && p.prop_at(f)@ == n@)
}

/// Whether the property pass of a merge finds any change.
pub open spec fn props_changed<V: Indexable>(p: TinyORM<V>, n: TinyORM<V>) -> bool {
    exists|k: int|
        0 <= k < n.properties@.len() && prop_differs(
            p,
            (#[trigger] n.properties@[k]).0,
            n.properties@[k].1,
        )
}

/// The tags cleared for field `f`: stored tags that the incoming set drops.
pub open spec fn tag_clears<V: Indexable>(p: TinyORM<V>, n: TinyORM<V>, f: FieldId) -> Set<
    TagView,
> {
    p.tag_set(f).difference(n.tag_set(f))
}

/// The tags added for field `f`: incoming tags the stored set lacks.
pub open spec fn tag_adds<V: Indexable>(p: TinyORM<V>, n: TinyORM<V>, f: FieldId) -> Set<TagView> {
    n.tag_set(f).difference(p.tag_set(f))
}

/// Whether the tag pass of a merge emits any mutation.
pub open spec fn tags_changed<V: Indexable>(p: TinyORM<V>, n: TinyORM<V>) -> bool {
    exists|f: FieldId|
        #![trigger n.tag_has(f)]
        n.tag_has(f) && (tag_clears(p, n, f) != Set::<TagView>::empty() || tag_adds(p, n, f)
            != Set::<TagView>::empty())
}

/// The ids of stored ACL entries that the incoming list drops.
pub open spec fn acl_clear_ids<V: Indexable>(p: TinyORM<V>, n: TinyORM<V>) -> Set<u32> {
    p.acl_ids().difference(n.acl_ids())
}

/// Whether the ACL pass of a merge emits any mutation.
pub open spec fn acls_changed<V: Indexable>(p: TinyORM<V>, n: TinyORM<V>) -> bool {
    acl_clear_ids(p, n) != Set::<u32>::empty() || exists|k: int|
        0 <= k < n.acls@.len() && !p.acls@.contains(#[trigger] n.acls@[k])
}

/// Whether a merge of `p` with `n` reports a change at all.
pub open spec fn spec_changed<V: Indexable>(p: TinyORM<V>, n: TinyORM<V>) -> bool {
    props_changed(p, n) || tags_changed(p, n) || acls_changed(p, n)
}

/// Whether the required-property gate rejects field `f`: the incoming
/// object empties it, or omits it while it was never stored.
pub open spec fn required_violation<V: Indexable>(p: TinyORM<V>, n: TinyORM<V>, f: FieldId) -> bool {
    if n.prop_has(f) {
        V::empty_of_view(n.prop_at(f)@)
    } else {
        !p.prop_has(f)
    }
}

/// True iff some string of `v` has the character sequence of `s`.
fn contains_string(v: &Vec<String>, s: &String) -> (r: bool)
    ensures
        r == strs_view(v@).contains(s@),
{
    let mut i: usize = 0;
    while i < v.len()
        invariant
            0 <= i <= v@.len(),
            forall|j: int| 0 <= j < i ==> strs_view(v@)[j] != s@,
        decreases v@.len() - i,
    {
        if v[i].eq(s) {
            proof {
                assert(strs_view(v@)[i as int] == s@);
            }
            return true;
        }
        i = i + 1;
    }
    false
}

/// True iff `v` holds `x`.
fn contains_u32(v: &Vec<u32>, x: u32) -> (r: bool)
    ensures
        r == v@.contains(x),
{
    let mut i: usize = 0;
    while i < v.len()
        invariant
            0 <= i <= v@.len(),
            forall|j: int| 0 <= j < i ==> v@[j] != x,
        decreases v@.len() - i,
    {
        if v[i] == x {
            return true;
        }
        i = i + 1;
    }
    false
}

/// Whether `f` is among the first `i` keys of `props`.
pub open spec fn processed_key<V>(props: Seq<(FieldId, V)>, i: int, f: FieldId) -> bool {
    exists|k: int| 0 <= k < i && (#[trigger] props[k]).0 == f
}

/// The ids cleared by the ACL pass after its first `k` stored entries.
pub open spec fn acl_clear_prefix(p_acls: Seq<crate::document::AclEntry>, n_ids: Set<u32>, k: int) -> Set<
    u32,
> {
    Set::new(
        |id: u32|
            exists|j: int|
                0 <= j < k && (#[trigger] p_acls[j]).id == id && !n_ids.contains(id),
    )
}

/// The ACL entries added after the add pass has walked the first `k`
/// incoming entries: those the stored list does not hold verbatim.
pub open spec fn acl_adds_prefix(
    n_acls: Seq<crate::document::AclEntry>,
    p_acls: Seq<crate::document::AclEntry>,
    k: int,
) -> Set<crate::document::AclEntry> {
    Set::new(
        |e: crate::document::AclEntry|
            exists|j: int| 0 <= j < k && (#[trigger] n_acls[j]) == e && !p_acls.contains(e),
    )
}

/// The ACL map after the add pass has walked the first `k` incoming entries.
pub open spec fn acl_add_prefix(
    m: Map<u32, crate::document::AclEntry>,
    n_acls: Seq<crate::document::AclEntry>,
    p_acls: Seq<crate::document::AclEntry>,
    k: int,
) -> Map<u32, crate::document::AclEntry>
    decreases k,
{
    if k <= 0 {
        m
    } else {
        let r = acl_add_prefix(m, n_acls, p_acls, k - 1);
        if p_acls.contains(n_acls[k - 1]) {
            r
        } else {
            r.insert(n_acls[k - 1].id, n_acls[k - 1])
        }
    }
}

/// Looks the tag list of field `f` up in an association vector.
fn assoc_get_tags<'a>(v: &'a Vec<(FieldId, Vec<Tag>)>, f: FieldId) -> (r: Option<&'a Vec<Tag>>)
    requires
        crate::orm::assoc_unique(v@),
    ensures
        r is Some <==> crate::orm::assoc_has(v@, f),
        r matches Some(ts) ==> *ts == crate::orm::assoc_at(v@, f),
{
    let mut i: usize = 0;
    while i < v.len()
        invariant
            0 <= i <= v@.len(),
            forall|j: int| 0 <= j < i ==> (#[trigger] v@[j]).0 != f,
            crate::orm::assoc_unique(v@),
        decreases v@.len() - i,
    {
        if v[i].0 == f {
            proof {
                assert(crate::orm::assoc_idx(v@, f) == i as int);
            }
            return Some(&v[i].1);
        }
        i = i + 1;
    }
    None
}

/// True iff some entry of `v` has id `id`.
fn contains_acl_id(v: &Vec<crate::document::AclEntry>, id: u32) -> (r: bool)
    ensures
        r == exists|j: int| 0 <= j < v@.len() && (#[trigger] v@[j]).id == id,
{
    let mut i: usize = 0;
    while i < v.len()
        invariant
            0 <= i <= v@.len(),
            forall|j: int| 0 <= j < i ==> (#[trigger] v@[j]).id != id,
        decreases v@.len() - i,
    {
        if v[i].id == id {
            return true;
        }
        i = i + 1;
    }
    false
}

/// True iff `v` holds the exact entry `e`.
fn contains_acl_entry(v: &Vec<crate::document::AclEntry>, e: crate::document::AclEntry) -> (r: bool)
    ensures
        r == v@.contains(e),
{
    let mut i: usize = 0;
    while i < v.len()
        invariant
            0 <= i <= v@.len(),
            forall|j: int| 0 <= j < i ==> v@[j] != e,
        decreases v@.len() - i,
    {
        if v[i] == e {
            return true;
        }
        i = i + 1;
    }
    false
}

/// Splitting a suffix at an intermediate point concatenates the two parts.
pub proof fn lemma_skip_split(s: Seq<MutView>, a: int, b: int)
    requires
        0 <= a <= b <= s.len(),
    ensures
        s.skip(a) =~= s.subrange(a, b) + s.skip(b),
{
}

/// An index mutation of one field is of no other field, and is no tag
/// mutation.
pub proof fn lemma_index_mut_field_unique(m: MutView, f: FieldId, g: FieldId)
    requires
        is_index_mut_for(m, f),
        f != g,
    ensures
        !is_index_mut_for(m, g),
        !is_tag_mut_for(m, g),
{
}

/// Taking one more string extends the entry set by that string's entry.
pub proof fn lemma_text_entries_take_succ(l: Seq<String>, i: int)
    requires
        0 <= i < l.len(),
    ensures
        crate::indexing::text_entries(strs_view(l.take(i + 1)))
            =~= crate::indexing::text_entries(strs_view(l.take(i))).insert(
            IndexEntry::T(l[i]@),
        ),
{
    let small = strs_view(l.take(i));
    let big = strs_view(l.take(i + 1));
    assert(forall|k: int| 0 <= k < i ==> #[trigger] small[k] == l[k]@);
    assert(forall|k: int| 0 <= k <= i ==> #[trigger] big[k] == l[k]@);
    assert forall|e: IndexEntry| crate::indexing::text_entries(big).contains(e)
        implies crate::indexing::text_entries(small).insert(IndexEntry::T(l[i]@)).contains(e) by {
        let k = choose|k: int| 0 <= k < big.len() && e == IndexEntry::T(#[trigger] big[k]);
        if k < i {
            assert(e == IndexEntry::T(small[k]));
        }
    }
    assert forall|e: IndexEntry|
        crate::indexing::text_entries(small).insert(IndexEntry::T(l[i]@)).contains(e)
        implies crate::indexing::text_entries(big).contains(e) by {
        if e == IndexEntry::T(l[i]@) {
            assert(e == IndexEntry::T(big[i]));
        } else {
            let k = choose|k: int| 0 <= k < small.len() && e == IndexEntry::T(#[trigger] small[k]);
            assert(e == IndexEntry::T(big[k]));
        }
    }
}

/// Taking one more integer extends the entry set by that integer's entry.
pub proof fn lemma_num_entries_take_succ(l: Seq<u32>, i: int)
    requires
        0 <= i < l.len(),
    ensures
        crate::indexing::num_entries(l.take(i + 1)) =~= crate::indexing::num_entries(
            l.take(i),
        ).insert(IndexEntry::N(l[i] as u64)),
{
    let small = l.take(i);
    let big = l.take(i + 1);
    assert forall|e: IndexEntry| crate::indexing::num_entries(big).contains(e)
        implies crate::indexing::num_entries(small).insert(IndexEntry::N(l[i] as u64)).contains(
        e,
    ) by {
        let k = choose|k: int| 0 <= k < big.len() && e == IndexEntry::N((#[trigger] big[k]) as u64);
        if k < i {
            assert(e == IndexEntry::N(small[k] as u64));
        }
    }
    assert forall|e: IndexEntry|
        crate::indexing::num_entries(small).insert(IndexEntry::N(l[i] as u64)).contains(e)
        implies crate::indexing::num_entries(big).contains(e) by {
        if e == IndexEntry::N(l[i] as u64) {
            assert(e == IndexEntry::N(big[i] as u64));
        } else {
            let k = choose|k: int|
                0 <= k < small.len() && e == IndexEntry::N((#[trigger] small[k]) as u64);
            assert(e == IndexEntry::N(big[k] as u64));
        }
    }
}

/// Taking one more tag extends the tag-value set by that tag's value.
pub proof fn lemma_tag_views_take_succ(l: Seq<Tag>, i: int)
    requires
        0 <= i < l.len(),
    ensures
        tag_views(l.take(i + 1)) =~= tag_views(l.take(i)).insert(l[i]@),
{
    let small = l.take(i);
    let big = l.take(i + 1);
    assert forall|e: TagView| tag_views(big).contains(e) implies tag_views(small).insert(
        l[i]@,
    ).contains(e) by {
        let k = choose|k: int| 0 <= k < big.len() && (#[trigger] big[k])@ == e;
        if k < i {
            assert(small[k]@ == e);
        }
    }
    assert forall|e: TagView| tag_views(small).insert(l[i]@).contains(e) implies tag_views(
        big,
    ).contains(e) by {
        if e == l[i]@ {
            assert(big[i]@ == e);
        } else {
            let k = choose|k: int| 0 <= k < small.len() && (#[trigger] small[k])@ == e;
            assert(big[k]@ == e);
        }
    }
}

/// Emits a clear mutation for every text entry of `cur` that `keep` lacks.
fn emit_text_clears(
    document: &mut Document,
    field: FieldId,
    cur: &Vec<String>,
    keep: &Vec<String>,
    opts: IndexOptions,
) -> (emitted: bool)
    ensures
        final(document).document_id == old(document).document_id,
        old(document)@.is_prefix_of(final(document)@),
        ({
            let delta = final(document)@.skip(old(document)@.len() as int);
            let removed = crate::indexing::text_entries(strs_view(cur@)).difference(
                crate::indexing::text_entries(strs_view(keep@)),
            );
            &&& forall|j: int|
                0 <= j < delta.len() ==> is_index_mut_for(#[trigger] delta[j], field)
                    && mut_is_clear(delta[j])
            &&& forall|s: Set<IndexEntry>| #[trigger]
                apply_field(delta, field, s) == s.difference(removed)
            &&& clearset_field(delta, field) == removed
                &&& addset_field(delta, field) == Set::<IndexEntry>::empty()
                &&& emitted == (removed != Set::<IndexEntry>::empty())
                &&& emitted == (delta.len() > 0)
        }),
{
    let ghost n0 = old(document)@.len() as int;
    let ghost keepset = crate::indexing::text_entries(strs_view(keep@));
    let mut i: usize = 0;
    let mut emitted = false;
    proof {
        assert(document@.skip(n0) =~= Seq::<MutView>::empty());
        assert(crate::indexing::text_entries(strs_view(cur@.take(0))).difference(keepset)
            =~= Set::<IndexEntry>::empty());
        assert forall|s: Set<IndexEntry>| #[trigger]
            apply_field(document@.skip(n0), field, s) == s.difference(
            crate::indexing::text_entries(strs_view(cur@.take(0))).difference(keepset),
        ) by {
            assert(s.difference(Set::<IndexEntry>::empty()) =~= s);
        }
    }
    while i < cur.len()
        invariant
            0 <= i <= cur@.len(),
            document.document_id == old(document).document_id,
            old(document)@.is_prefix_of(document@),
            n0 == old(document)@.len(),
            keepset == crate::indexing::text_entries(strs_view(keep@)),
            ({
                let delta = document@.skip(n0);
                let removed = crate::indexing::text_entries(
                    strs_view(cur@.take(i as int)),
                ).difference(keepset);
                &&& forall|j: int|
                    0 <= j < delta.len() ==> is_index_mut_for(#[trigger] delta[j], field)
                        && mut_is_clear(delta[j])
                &&& forall|s: Set<IndexEntry>| #[trigger]
                    apply_field(delta, field, s) == s.difference(removed)
                &&& clearset_field(delta, field) == removed
                &&& addset_field(delta, field) == Set::<IndexEntry>::empty()
                &&& emitted == (removed != Set::<IndexEntry>::empty())
                &&& emitted == (delta.len() > 0)
            }),
        decreases cur@.len() - i,
    {
        let ghost delta0 = document@.skip(n0);
        let ghost r0 = crate::indexing::text_entries(strs_view(cur@.take(i as int))).difference(
            keepset,
        );
        let ghost e = IndexEntry::T(cur@[i as int]@);
        proof {
            lemma_text_entries_take_succ(cur@, i as int);
        }
        if !contains_string(keep, &cur[i]) {
            proof {
                assert(!keepset.contains(e)) by {
                    if keepset.contains(e) {
                        let k = choose|k: int|
                            0 <= k < strs_view(keep@).len() && e == IndexEntry::T(
                                #[trigger] strs_view(keep@)[k],
                            );
                        assert(strs_view(keep@)[k] == keep@[k]@);
                    }
                }
            }
            document.text(field, cur[i].clone(), Language::Unknown, opts.clear());
            emitted = true;
            proof {
                let m = MutView::Text {
                    field,
                    value: cur@[i as int]@,
                    language: Language::Unknown,
                    options: IndexOptions { clear: true, ..opts },
                };
                assert(document@.skip(n0) =~= delta0.push(m));
                let r1 = crate::indexing::text_entries(strs_view(cur@.take(i + 1))).difference(
                    keepset,
                );
                assert(r1 =~= r0.insert(e));
                assert forall|s: Set<IndexEntry>| #[trigger]
                    apply_field(delta0.push(m), field, s) == s.difference(r1) by {
                    lemma_apply_field_push(delta0, m, field, s);
                    assert(s.difference(r0).remove(e) =~= s.difference(r1));
                }
                lemma_field_sets_push(delta0, m, field);
                assert(clearset_field(delta0.push(m), field) =~= r1);
                assert(r1 != Set::<IndexEntry>::empty()) by {
                    assert(r1.contains(e));
                }
            }
        } else {
            proof {
                let r1 = crate::indexing::text_entries(strs_view(cur@.take(i + 1))).difference(
                    keepset,
                );
                assert(strs_view(keep@).contains(cur@[i as int]@)) by {
                    let k = choose|k: int|
                        0 <= k < strs_view(keep@).len() && strs_view(keep@)[k] == cur@[i as int]@;
                }
                assert(keepset.contains(e)) by {
                    let k = choose|k: int|
                        0 <= k < strs_view(keep@).len() && strs_view(keep@)[k] == cur@[i as int]@;
                    assert(e == IndexEntry::T(strs_view(keep@)[k]));
                }
                assert(r1 =~= r0);
            }
        }
        i = i + 1;
    }
    proof {
        assert(cur@.take(cur@.len() as int) =~= cur@);
    }
    emitted
}

/// Emits an add mutation for every text entry of `add` that `keep` lacks.
fn emit_text_adds(
    document: &mut Document,
    field: FieldId,
    add: &Vec<String>,
    keep: &Vec<String>,
    opts: IndexOptions,
) -> (emitted: bool)
    requires
        !opts.clear,
    ensures
        final(document).document_id == old(document).document_id,
        old(document)@.is_prefix_of(final(document)@),
        ({
            let delta = final(document)@.skip(old(document)@.len() as int);
            let added = crate::indexing::text_entries(strs_view(add@)).difference(
                crate::indexing::text_entries(strs_view(keep@)),
            );
            &&& forall|j: int|
                0 <= j < delta.len() ==> is_index_mut_for(#[trigger] delta[j], field)
                    && !mut_is_clear(delta[j])
            &&& forall|s: Set<IndexEntry>| #[trigger] apply_field(delta, field, s) == s.union(added)
            &&& addset_field(delta, field) == added
                &&& clearset_field(delta, field) == Set::<IndexEntry>::empty()
                &&& emitted == (added != Set::<IndexEntry>::empty())
                &&& emitted == (delta.len() > 0)
        }),
{
    let ghost n0 = old(document)@.len() as int;
    let ghost keepset = crate::indexing::text_entries(strs_view(keep@));
    let mut i: usize = 0;
    let mut emitted = false;
    proof {
        assert(document@.skip(n0) =~= Seq::<MutView>::empty());
        assert(crate::indexing::text_entries(strs_view(add@.take(0))).difference(keepset)
            =~= Set::<IndexEntry>::empty());
        assert forall|s: Set<IndexEntry>| #[trigger]
            apply_field(document@.skip(n0), field, s) == s.union(
            crate::indexing::text_entries(strs_view(add@.take(0))).difference(keepset),
        ) by {
            assert(s.union(Set::<IndexEntry>::empty()) =~= s);
        }
    }
    while i < add.len()
        invariant
            0 <= i <= add@.len(),
            document.document_id == old(document).document_id,
            old(document)@.is_prefix_of(document@),
            n0 == old(document)@.len(),
            keepset == crate::indexing::text_entries(strs_view(keep@)),
            !opts.clear,
            ({
                let delta = document@.skip(n0);
                let added = crate::indexing::text_entries(
                    strs_view(add@.take(i as int)),
                ).difference(keepset);
                &&& forall|j: int|
                    0 <= j < delta.len() ==> is_index_mut_for(#[trigger] delta[j], field)
                        && !mut_is_clear(delta[j])
                &&& forall|s: Set<IndexEntry>| #[trigger]
                    apply_field(delta, field, s) == s.union(added)
                &&& addset_field(delta, field) == added
                &&& clearset_field(delta, field) == Set::<IndexEntry>::empty()
                &&& emitted == (added != Set::<IndexEntry>::empty())
                &&& emitted == (delta.len() > 0)
            }),
        decreases add@.len() - i,
    {
        let ghost delta0 = document@.skip(n0);
        let ghost a0 = crate::indexing::text_entries(strs_view(add@.take(i as int))).difference(
            keepset,
        );
        let ghost e = IndexEntry::T(add@[i as int]@);
        proof {
            lemma_text_entries_take_succ(add@, i as int);
        }
        if !contains_string(keep, &add[i]) {
            proof {
                assert(!keepset.contains(e)) by {
                    if keepset.contains(e) {
                        let k = choose|k: int|
                            0 <= k < strs_view(keep@).len() && e == IndexEntry::T(
                                #[trigger] strs_view(keep@)[k],
                            );
                        assert(strs_view(keep@)[k] == keep@[k]@);
                    }
                }
            }
            document.text(field, add[i].clone(), Language::Unknown, opts);
            emitted = true;
            proof {
                let m = MutView::Text {
                    field,
                    value: add@[i as int]@,
                    language: Language::Unknown,
                    options: opts,
                };
                assert(document@.skip(n0) =~= delta0.push(m));
                let a1 = crate::indexing::text_entries(strs_view(add@.take(i + 1))).difference(
                    keepset,
                );
                assert(a1 =~= a0.insert(e));
                assert forall|s: Set<IndexEntry>| #[trigger]
                    apply_field(delta0.push(m), field, s) == s.union(a1) by {
                    lemma_apply_field_push(delta0, m, field, s);
                    assert(s.union(a0).insert(e) =~= s.union(a1));
                }
                lemma_field_sets_push(delta0, m, field);
                assert(addset_field(delta0.push(m), field) =~= a1);
                assert(a1 != Set::<IndexEntry>::empty()) by {
                    assert(a1.contains(e));
                }
            }
        } else {
            proof {
                let a1 = crate::indexing::text_entries(strs_view(add@.take(i + 1))).difference(
                    keepset,
                );
                assert(keepset.contains(e)) by {
                    let k = choose|k: int|
                        0 <= k < strs_view(keep@).len() && strs_view(keep@)[k] == add@[i as int]@;
                    assert(e == IndexEntry::T(strs_view(keep@)[k]));
                }
                assert(a1 =~= a0);
            }
        }
        i = i + 1;
    }
    proof {
        assert(add@.take(add@.len() as int) =~= add@);
    }
    emitted
}

/// Emits a clear mutation for every numeric entry of `cur` that `keep` lacks.
fn emit_num_clears(
    document: &mut Document,
    field: FieldId,
    cur: &Vec<u32>,
    keep: &Vec<u32>,
    opts: IndexOptions,
) -> (emitted: bool)
    ensures
        final(document).document_id == old(document).document_id,
        old(document)@.is_prefix_of(final(document)@),
        ({
            let delta = final(document)@.skip(old(document)@.len() as int);
            let removed = crate::indexing::num_entries(cur@).difference(
                crate::indexing::num_entries(keep@),
            );
            &&& forall|j: int|
                0 <= j < delta.len() ==> is_index_mut_for(#[trigger] delta[j], field)
                    && mut_is_clear(delta[j])
            &&& forall|s: Set<IndexEntry>| #[trigger]
                apply_field(delta, field, s) == s.difference(removed)
            &&& clearset_field(delta, field) == removed
                &&& addset_field(delta, field) == Set::<IndexEntry>::empty()
                &&& emitted == (removed != Set::<IndexEntry>::empty())
                &&& emitted == (delta.len() > 0)
        }),
{
    let ghost n0 = old(document)@.len() as int;
    let ghost keepset = crate::indexing::num_entries(keep@);
    let mut i: usize = 0;
    let mut emitted = false;
    proof {
        assert(document@.skip(n0) =~= Seq::<MutView>::empty());
        assert(crate::indexing::num_entries(cur@.take(0)).difference(keepset)
            =~= Set::<IndexEntry>::empty());
        assert forall|s: Set<IndexEntry>| #[trigger]
            apply_field(document@.skip(n0), field, s) == s.difference(
            crate::indexing::num_entries(cur@.take(0)).difference(keepset),
        ) by {
            assert(s.difference(Set::<IndexEntry>::empty()) =~= s);
        }
    }
    while i < cur.len()
        invariant
            0 <= i <= cur@.len(),
            document.document_id == old(document).document_id,
            old(document)@.is_prefix_of(document@),
            n0 == old(document)@.len(),
            keepset == crate::indexing::num_entries(keep@),
            ({
                let delta = document@.skip(n0);
                let removed = crate::indexing::num_entries(cur@.take(i as int)).difference(keepset);
                &&& forall|j: int|
                    0 <= j < delta.len() ==> is_index_mut_for(#[trigger] delta[j], field)
                        && mut_is_clear(delta[j])
                &&& forall|s: Set<IndexEntry>| #[trigger]
                    apply_field(delta, field, s) == s.difference(removed)
                &&& clearset_field(delta, field) == removed
                &&& addset_field(delta, field) == Set::<IndexEntry>::empty()
                &&& emitted == (removed != Set::<IndexEntry>::empty())
                &&& emitted == (delta.len() > 0)
            }),
        decreases cur@.len() - i,
    {
        let ghost delta0 = document@.skip(n0);
        let ghost r0 = crate::indexing::num_entries(cur@.take(i as int)).difference(keepset);
        let ghost e = IndexEntry::N(cur@[i as int] as u64);
        proof {
            lemma_num_entries_take_succ(cur@, i as int);
        }
        if !contains_u32(keep, cur[i]) {
            proof {
                assert(!keepset.contains(e)) by {
                    if keepset.contains(e) {
                        let k = choose|k: int|
                            0 <= k < keep@.len() && e == IndexEntry::N((#[trigger] keep@[k]) as u64);
                    }
                }
            }
            document.number(field, cur[i] as u64, opts.clear());
            emitted = true;
            proof {
                let m = MutView::Number {
                    field,
                    value: cur@[i as int] as u64,
                    options: IndexOptions { clear: true, ..opts },
                };
                assert(document@.skip(n0) =~= delta0.push(m));
                let r1 = crate::indexing::num_entries(cur@.take(i + 1)).difference(keepset);
                assert(r1 =~= r0.insert(e));
                assert forall|s: Set<IndexEntry>| #[trigger]
                    apply_field(delta0.push(m), field, s) == s.difference(r1) by {
                    lemma_apply_field_push(delta0, m, field, s);
                    assert(s.difference(r0).remove(e) =~= s.difference(r1));
                }
                lemma_field_sets_push(delta0, m, field);
                assert(clearset_field(delta0.push(m), field) =~= r1);
                assert(r1 != Set::<IndexEntry>::empty()) by {
                    assert(r1.contains(e));
                }
            }
        } else {
            proof {
                let r1 = crate::indexing::num_entries(cur@.take(i + 1)).difference(keepset);
                assert(keepset.contains(e)) by {
                    let k = choose|k: int| 0 <= k < keep@.len() && keep@[k] == cur@[i as int];
                    assert(e == IndexEntry::N((keep@[k]) as u64));
                }
                assert(r1 =~= r0);
            }
        }
        i = i + 1;
    }
    proof {
        assert(cur@.take(cur@.len() as int) =~= cur@);
    }
    emitted
}

/// Emits an add mutation for every numeric entry of `add` that `keep` lacks.
fn emit_num_adds(
    document: &mut Document,
    field: FieldId,
    add: &Vec<u32>,
    keep: &Vec<u32>,
    opts: IndexOptions,
) -> (emitted: bool)
    requires
        !opts.clear,
    ensures
        final(document).document_id == old(document).document_id,
        old(document)@.is_prefix_of(final(document)@),
        ({
            let delta = final(document)@.skip(old(document)@.len() as int);
            let added = crate::indexing::num_entries(add@).difference(
                crate::indexing::num_entries(keep@),
            );
            &&& forall|j: int|
                0 <= j < delta.len() ==> is_index_mut_for(#[trigger] delta[j], field)
                    && !mut_is_clear(delta[j])
            &&& forall|s: Set<IndexEntry>| #[trigger] apply_field(delta, field, s) == s.union(added)
            &&& addset_field(delta, field) == added
                &&& clearset_field(delta, field) == Set::<IndexEntry>::empty()
                &&& emitted == (added != Set::<IndexEntry>::empty())
                &&& emitted == (delta.len() > 0)
        }),
{
    let ghost n0 = old(document)@.len() as int;
    let ghost keepset = crate::indexing::num_entries(keep@);
    let mut i: usize = 0;
    let mut emitted = false;
    proof {
        assert(document@.skip(n0) =~= Seq::<MutView>::empty());
        assert(crate::indexing::num_entries(add@.take(0)).difference(keepset)
            =~= Set::<IndexEntry>::empty());
        assert forall|s: Set<IndexEntry>| #[trigger]
            apply_field(document@.skip(n0), field, s) == s.union(
            crate::indexing::num_entries(add@.take(0)).difference(keepset),
        ) by {
            assert(s.union(Set::<IndexEntry>::empty()) =~= s);
        }
    }
    while i < add.len()
        invariant
            0 <= i <= add@.len(),
            document.document_id == old(document).document_id,
            old(document)@.is_prefix_of(document@),
            n0 == old(document)@.len(),
            keepset == crate::indexing::num_entries(keep@),
            !opts.clear,
            ({
                let delta = document@.skip(n0);
                let added = crate::indexing::num_entries(add@.take(i as int)).difference(keepset);
                &&& forall|j: int|
                    0 <= j < delta.len() ==> is_index_mut_for(#[trigger] delta[j], field)
                        && !mut_is_clear(delta[j])
                &&& forall|s: Set<IndexEntry>| #[trigger]
                    apply_field(delta, field, s) == s.union(added)
                &&& addset_field(delta, field) == added
                &&& clearset_field(delta, field) == Set::<IndexEntry>::empty()
                &&& emitted == (added != Set::<IndexEntry>::empty())
                &&& emitted == (delta.len() > 0)
            }),
        decreases add@.len() - i,
    {
        let ghost delta0 = document@.skip(n0);
        let ghost a0 = crate::indexing::num_entries(add@.take(i as int)).difference(keepset);
        let ghost e = IndexEntry::N(add@[i as int] as u64);
        proof {
            lemma_num_entries_take_succ(add@, i as int);
        }
        if !contains_u32(keep, add[i]) {
            proof {
                assert(!keepset.contains(e)) by {
                    if keepset.contains(e) {
                        let k = choose|k: int|
                            0 <= k < keep@.len() && e == IndexEntry::N((#[trigger] keep@[k]) as u64);
                    }
                }
            }
            document.number(field, add[i] as u64, opts);
            emitted = true;
            proof {
                let m = MutView::Number { field, value: add@[i as int] as u64, options: opts };
                assert(document@.skip(n0) =~= delta0.push(m));
                let a1 = crate::indexing::num_entries(add@.take(i + 1)).difference(keepset);
                assert(a1 =~= a0.insert(e));
                assert forall|s: Set<IndexEntry>| #[trigger]
                    apply_field(delta0.push(m), field, s) == s.union(a1) by {
                    lemma_apply_field_push(delta0, m, field, s);
                    assert(s.union(a0).insert(e) =~= s.union(a1));
                }
                lemma_field_sets_push(delta0, m, field);
                assert(addset_field(delta0.push(m), field) =~= a1);
                assert(a1 != Set::<IndexEntry>::empty()) by {
                    assert(a1.contains(e));
                }
            }
        } else {
            proof {
                let a1 = crate::indexing::num_entries(add@.take(i + 1)).difference(keepset);
                assert(keepset.contains(e)) by {
                    let k = choose|k: int| 0 <= k < keep@.len() && keep@[k] == add@[i as int];
                    assert(e == IndexEntry::N((keep@[k]) as u64));
                }
                assert(a1 =~= a0);
            }
        }
        i = i + 1;
    }
    proof {
        assert(add@.take(add@.len() as int) =~= add@);
    }
    emitted
}

/// Emits a clear tag mutation for every tag of `cur` that `keep` lacks.
fn emit_tag_clears(document: &mut Document, field: FieldId, cur: &Vec<Tag>, keep: &Vec<Tag>) -> (emitted: bool)
    ensures
        final(document).document_id == old(document).document_id,
        old(document)@.is_prefix_of(final(document)@),
        ({
            let delta = final(document)@.skip(old(document)@.len() as int);
            let removed = tag_views(cur@).difference(tag_views(keep@));
            &&& forall|j: int|
                0 <= j < delta.len() ==> is_tag_mut_for(#[trigger] delta[j], field)
                    && mut_is_clear(delta[j])
            &&& forall|s: Set<TagView>| #[trigger] apply_tag(delta, field, s) == s.difference(removed)
            &&& tag_clearset_of(delta, field) == removed
                &&& tag_addset_of(delta, field) == Set::<TagView>::empty()
                &&& emitted == (removed != Set::<TagView>::empty())
                &&& emitted == (delta.len() > 0)
        }),
{
    let ghost n0 = old(document)@.len() as int;
    let ghost keepset = tag_views(keep@);
    let mut i: usize = 0;
    let mut emitted = false;
    proof {
        assert(document@.skip(n0) =~= Seq::<MutView>::empty());
        assert(tag_views(cur@.take(0)).difference(keepset) =~= Set::<TagView>::empty());
        assert forall|s: Set<TagView>| #[trigger]
            apply_tag(document@.skip(n0), field, s) == s.difference(
            tag_views(cur@.take(0)).difference(keepset),
        ) by {
            assert(s.difference(Set::<TagView>::empty()) =~= s);
        }
    }
    while i < cur.len()
        invariant
            0 <= i <= cur@.len(),
            document.document_id == old(document).document_id,
            old(document)@.is_prefix_of(document@),
            n0 == old(document)@.len(),
            keepset == tag_views(keep@),
            ({
                let delta = document@.skip(n0);
                let removed = tag_views(cur@.take(i as int)).difference(keepset);
                &&& forall|j: int|
                    0 <= j < delta.len() ==> is_tag_mut_for(#[trigger] delta[j], field)
                        && mut_is_clear(delta[j])
                &&& forall|s: Set<TagView>| #[trigger]
                    apply_tag(delta, field, s) == s.difference(removed)
                &&& tag_clearset_of(delta, field) == removed
                &&& tag_addset_of(delta, field) == Set::<TagView>::empty()
                &&& emitted == (removed != Set::<TagView>::empty())
                &&& emitted == (delta.len() > 0)
            }),
        decreases cur@.len() - i,
    {
        let ghost delta0 = document@.skip(n0);
        let ghost r0 = tag_views(cur@.take(i as int)).difference(keepset);
        let ghost e = cur@[i as int]@;
        proof {
            lemma_tag_views_take_succ(cur@, i as int);
        }
        if !crate::orm::tags_contain(keep, &cur[i]) {
            document.tag(field, cur[i].clone_tag(), IndexOptions::new().clear());
            emitted = true;
            proof {
                let m = MutView::Tag {
                    field,
                    tag: e,
                    options: IndexOptions { store: false, index: false, tokenize: false, clear: true },
                };
                assert(document@.skip(n0) =~= delta0.push(m));
                let r1 = tag_views(cur@.take(i + 1)).difference(keepset);
                assert(r1 =~= r0.insert(e));
                assert forall|s: Set<TagView>| #[trigger]
                    apply_tag(delta0.push(m), field, s) == s.difference(r1) by {
                    lemma_apply_tag_push(delta0, m, field, s);
                    assert(s.difference(r0).remove(e) =~= s.difference(r1));
                }
                lemma_tag_sets_push(delta0, m, field);
                assert(tag_clearset_of(delta0.push(m), field) =~= r1);
                assert(r1 != Set::<TagView>::empty()) by {
                    assert(r1.contains(e));
                }
            }
        } else {
            proof {
                let r1 = tag_views(cur@.take(i + 1)).difference(keepset);
                assert(r1 =~= r0);
            }
        }
        i = i + 1;
    }
    proof {
        assert(cur@.take(cur@.len() as int) =~= cur@);
    }
    emitted
}

/// Emits an add tag mutation for every tag of `add` that `keep` lacks.
fn emit_tag_adds(document: &mut Document, field: FieldId, add: &Vec<Tag>, keep: &Vec<Tag>) -> (emitted: bool)
    ensures
        final(document).document_id == old(document).document_id,
        old(document)@.is_prefix_of(final(document)@),
        ({
            let delta = final(document)@.skip(old(document)@.len() as int);
            let added = tag_views(add@).difference(tag_views(keep@));
            &&& forall|j: int|
                0 <= j < delta.len() ==> is_tag_mut_for(#[trigger] delta[j], field)
                    && !mut_is_clear(delta[j])
            &&& forall|s: Set<TagView>| #[trigger] apply_tag(delta, field, s) == s.union(added)
            &&& tag_addset_of(delta, field) == added
                &&& tag_clearset_of(delta, field) == Set::<TagView>::empty()
                &&& emitted == (added != Set::<TagView>::empty())
                &&& emitted == (delta.len() > 0)
        }),
{
    let ghost n0 = old(document)@.len() as int;
    let ghost keepset = tag_views(keep@);
    let mut i: usize = 0;
    let mut emitted = false;
    proof {
        assert(document@.skip(n0) =~= Seq::<MutView>::empty());
        assert(tag_views(add@.take(0)).difference(keepset) =~= Set::<TagView>::empty());
        assert forall|s: Set<TagView>| #[trigger]
            apply_tag(document@.skip(n0), field, s) == s.union(
            tag_views(add@.take(0)).difference(keepset),
        ) by {
            assert(s.union(Set::<TagView>::empty()) =~= s);
        }
    }
    while i < add.len()
        invariant
            0 <= i <= add@.len(),
            document.document_id == old(document).document_id,
            old(document)@.is_prefix_of(document@),
            n0 == old(document)@.len(),
            keepset == tag_views(keep@),
            ({
                let delta = document@.skip(n0);
                let added = tag_views(add@.take(i as int)).difference(keepset);
                &&& forall|j: int|
                    0 <= j < delta.len() ==> is_tag_mut_for(#[trigger] delta[j], field)
                        && !mut_is_clear(delta[j])
                &&& forall|s: Set<TagView>| #[trigger] apply_tag(delta, field, s) == s.union(added)
                &&& tag_addset_of(delta, field) == added
                &&& tag_clearset_of(delta, field) == Set::<TagView>::empty()
                &&& emitted == (added != Set::<TagView>::empty())
                &&& emitted == (delta.len() > 0)
            }),
        decreases add@.len() - i,
    {
        let ghost delta0 = document@.skip(n0);
        let ghost a0 = tag_views(add@.take(i as int)).difference(keepset);
        let ghost e = add@[i as int]@;
        proof {
            lemma_tag_views_take_succ(add@, i as int);
        }
        if !crate::orm::tags_contain(keep, &add[i]) {
            document.tag(field, add[i].clone_tag(), IndexOptions::new());
            emitted = true;
            proof {
                let m = MutView::Tag {
                    field,
                    tag: e,
                    options: IndexOptions {
                        store: false,
                        index: false,
                        tokenize: false,
                        clear: false,
                    },
                };
                assert(document@.skip(n0) =~= delta0.push(m));
                let a1 = tag_views(add@.take(i + 1)).difference(keepset);
                assert(a1 =~= a0.insert(e));
                assert forall|s: Set<TagView>| #[trigger]
                    apply_tag(delta0.push(m), field, s) == s.union(a1) by {
                    lemma_apply_tag_push(delta0, m, field, s);
                    assert(s.union(a0).insert(e) =~= s.union(a1));
                }
                lemma_tag_sets_push(delta0, m, field);
                assert(tag_addset_of(delta0.push(m), field) =~= a1);
                assert(a1 != Set::<TagView>::empty()) by {
                    assert(a1.contains(e));
                }
            }
        } else {
            proof {
                let a1 = tag_views(add@.take(i + 1)).difference(keepset);
                assert(a1 =~= a0);
            }
        }
        i = i + 1;
    }
    proof {
        assert(add@.take(add@.len() as int) =~= add@);
    }
    emitted
}

/// Merges one incoming property into the ORM, emitting the exact index
/// delta for its field.
#[verifier::rlimit(60)]
fn merge_one_prop<V: Indexable>(
    orm: &mut TinyORM<V>,
    document: &mut Document,
    f: FieldId,
    nv: &V,
    schema: &ObjectSchema,
) -> (changed1: bool)
    requires
        old(orm).wf(),
        schema.wf(),
    ensures
        final(orm).wf(),
        final(orm).tags@ == old(orm).tags@,
        final(orm).acls@ == old(orm).acls@,
        forall|g: FieldId|
            g != f ==> (#[trigger] final(orm).prop_has(g)) == old(orm).prop_has(g),
        forall|g: FieldId|
            g != f && old(orm).prop_has(g) ==> (#[trigger] final(orm).prop_at(g)) == old(
                orm,
            ).prop_at(g),
        final(document).document_id == old(document).document_id,
        old(document)@.is_prefix_of(final(document)@),
        changed1 == prop_differs(*old(orm), f, *nv),
        ({
            let delta = final(document)@.skip(old(document)@.len() as int);
            &&& forall|j: int| 0 <= j < delta.len() ==> is_index_mut_for(#[trigger] delta[j], f)
            &&& clears_before_adds(delta, f)
            &&& schema.spec_indexed(f) ==> apply_field(
                delta,
                f,
                entries_of(cur_index(*old(orm), f)),
            ) == entries_of(merged_index(*old(orm), f, *nv, true))
            &&& schema.spec_indexed(f) ==> clearset_field(delta, f) == spec_clears(
                *old(orm),
                f,
                *nv,
                true,
            )
            &&& schema.spec_indexed(f) ==> addset_field(delta, f) == spec_adds(
                *old(orm),
                f,
                *nv,
                true,
            )
            &&& !schema.spec_indexed(f) ==> delta.len() == 0
            &&& !changed1 ==> delta.len() == 0
        }),
{
    let ghost p0 = *old(orm);
    let ghost n0 = old(document)@.len() as int;
    let indexed_opts = schema.lookup_indexed(f);
    let differs = match orm.get(f) {
        Some(c) => !c.eq_value(nv),
        None => true,
    };
    if !differs {
        proof {
            assert(document@.skip(n0) =~= Seq::<MutView>::empty());
            assert(merged_value(p0, f, *nv, true) == Some(nv@));
            assert(cur_index(p0, f) == V::index_of_view(nv@));
            assert(clearset_field(document@.skip(n0), f) =~= Set::<IndexEntry>::empty());
            assert(addset_field(document@.skip(n0), f) =~= Set::<IndexEntry>::empty());
        }
        return false;
    }
    let cur_ix: IndexValue = match orm.get(f) {
        Some(c) => c.index_as(),
        None => IndexValue::Null,
    };
    proof {
        assert(cur_ix@ == cur_index(p0, f));
    }
    match indexed_opts {
        Some(opts) => {
            proof {
                assert(!opts.clear);
            }
            let ghost ee = entries_of(cur_index(p0, f));
            match cur_ix {
                IndexValue::TextList(cur_l) => {
                    let new_ix = nv.index_as();
                    proof {
                        assert(new_ix@ == V::index_of_view(nv@));
                        assert(cur_index(p0, f) == IndexView::TextList(strs_view(cur_l@)));
                    }
                    match new_ix {
                        IndexValue::TextList(new_l) => {
                            emit_text_clears(document, f, &cur_l, &new_l, opts);
                            let ghost doc_mid = document@;
                            emit_text_adds(document, f, &new_l, &cur_l, opts);
                            orm.set(f, nv.clone_value());
                            proof {
                                let d1 = doc_mid.skip(n0);
                                let d2 = document@.skip(doc_mid.len() as int);
                                assert(document@.skip(n0) =~= d1 + d2);
                                lemma_apply_field_concat(d1, d2, f, ee);
                                lemma_cba_concat(d1, d2, f);
                                let curset = crate::indexing::text_entries(strs_view(cur_l@));
                                let newset = crate::indexing::text_entries(strs_view(new_l@));
                                assert(merged_index(p0, f, *nv, true) == IndexView::TextList(
                                    strs_view(new_l@),
                                ));
                                assert(ee.difference(curset.difference(newset)).union(
                                    newset.difference(curset),
                                ) =~= newset);
                                lemma_field_sets_concat(d1, d2, f);
                                assert(clearset_field(document@.skip(n0), f) =~= curset.difference(
                                    newset,
                                ));
                                assert(addset_field(document@.skip(n0), f) =~= newset.difference(
                                    curset,
                                ));
                            }
                            return true;
                        },
                        _ => {
                            let keep_none: Vec<String> = Vec::new();
                            emit_text_clears(document, f, &cur_l, &keep_none, opts);
                            orm.unset(f);
                            proof {
                                let curset = crate::indexing::text_entries(strs_view(cur_l@));
                                assert(crate::indexing::text_entries(strs_view(keep_none@))
                                    =~= Set::<IndexEntry>::empty());
                                assert(merged_value(p0, f, *nv, true) is None);
                                assert(ee.difference(curset.difference(Set::empty()))
                                    =~= Set::<IndexEntry>::empty());
                                assert(clearset_field(document@.skip(n0), f) =~= curset);
                                assert(addset_field(document@.skip(n0), f)
                                    =~= Set::<IndexEntry>::empty());
                            }
                            return true;
                        },
                    }
                },
                IndexValue::IntegerList(cur_l) => {
                    let new_ix = nv.index_as();
                    proof {
                        assert(new_ix@ == V::index_of_view(nv@));
                        assert(cur_index(p0, f) == IndexView::IntegerList(cur_l@));
                    }
                    match new_ix {
                        IndexValue::IntegerList(new_l) => {
                            emit_num_clears(document, f, &cur_l, &new_l, opts);
                            let ghost doc_mid = document@;
                            emit_num_adds(document, f, &new_l, &cur_l, opts);
                            orm.set(f, nv.clone_value());
                            proof {
                                let d1 = doc_mid.skip(n0);
                                let d2 = document@.skip(doc_mid.len() as int);
                                assert(document@.skip(n0) =~= d1 + d2);
                                lemma_apply_field_concat(d1, d2, f, ee);
                                lemma_cba_concat(d1, d2, f);
                                let curset = crate::indexing::num_entries(cur_l@);
                                let newset = crate::indexing::num_entries(new_l@);
                                assert(merged_index(p0, f, *nv, true) == IndexView::IntegerList(
                                    new_l@,
                                ));
                                assert(ee.difference(curset.difference(newset)).union(
                                    newset.difference(curset),
                                ) =~= newset);
                                lemma_field_sets_concat(d1, d2, f);
                                assert(clearset_field(document@.skip(n0), f) =~= curset.difference(
                                    newset,
                                ));
                                assert(addset_field(document@.skip(n0), f) =~= newset.difference(
                                    curset,
                                ));
                            }
                            return true;
                        },
                        _ => {
                            let keep_none: Vec<u32> = Vec::new();
                            emit_num_clears(document, f, &cur_l, &keep_none, opts);
                            orm.unset(f);
                            proof {
                                let curset = crate::indexing::num_entries(cur_l@);
                                assert(crate::indexing::num_entries(keep_none@)
                                    =~= Set::<IndexEntry>::empty());
                                assert(merged_value(p0, f, *nv, true) is None);
                                assert(ee.difference(curset.difference(Set::empty()))
                                    =~= Set::<IndexEntry>::empty());
                                assert(clearset_field(document@.skip(n0), f) =~= curset);
                                assert(addset_field(document@.skip(n0), f)
                                    =~= Set::<IndexEntry>::empty());
                            }
                            return true;
                        },
                    }
                },
                IndexValue::Text(s) => {
                    let ghost sv = s@;
                    proof {
                        assert(ee =~= Set::<IndexEntry>::empty().insert(IndexEntry::T(sv)));
                    }
                    document.text(f, s, Language::Unknown, opts.clear());
                    proof {
                        let m = MutView::Text {
                            field: f,
                            value: sv,
                            language: Language::Unknown,
                            options: IndexOptions { clear: true, ..opts },
                        };
                        assert(document@.skip(n0) =~= Seq::<MutView>::empty().push(m));
                        lemma_apply_field_push(Seq::<MutView>::empty(), m, f, ee);
                        assert(apply_field(document@.skip(n0), f, ee)
                            =~= Set::<IndexEntry>::empty());
                        lemma_field_sets_push(Seq::<MutView>::empty(), m, f);
                        assert(clearset_field(document@.skip(n0), f) =~= ee);
                        assert(addset_field(document@.skip(n0), f)
                            =~= Set::<IndexEntry>::empty());
                        assert(!(cur_index(p0, f) is TextList) && !(cur_index(p0, f)
                            is IntegerList));
                    }
                },
                IndexValue::Integer(x) => {
                    proof {
                        assert(ee =~= Set::<IndexEntry>::empty().insert(IndexEntry::N(x as u64)));
                    }
                    document.number(f, x as u64, opts.clear());
                    proof {
                        let m = MutView::Number {
                            field: f,
                            value: x as u64,
                            options: IndexOptions { clear: true, ..opts },
                        };
                        assert(document@.skip(n0) =~= Seq::<MutView>::empty().push(m));
                        lemma_apply_field_push(Seq::<MutView>::empty(), m, f, ee);
                        assert(apply_field(document@.skip(n0), f, ee)
                            =~= Set::<IndexEntry>::empty());
                        lemma_field_sets_push(Seq::<MutView>::empty(), m, f);
                        assert(clearset_field(document@.skip(n0), f) =~= ee);
                        assert(addset_field(document@.skip(n0), f)
                            =~= Set::<IndexEntry>::empty());
                        assert(!(cur_index(p0, f) is TextList) && !(cur_index(p0, f)
                            is IntegerList));
                    }
                },
                IndexValue::LongInteger(x) => {
                    proof {
                        assert(ee =~= Set::<IndexEntry>::empty().insert(IndexEntry::N(x)));
                    }
                    document.number(f, x, opts.clear());
                    proof {
                        let m = MutView::Number {
                            field: f,
                            value: x,
                            options: IndexOptions { clear: true, ..opts },
                        };
                        assert(document@.skip(n0) =~= Seq::<MutView>::empty().push(m));
                        lemma_apply_field_push(Seq::<MutView>::empty(), m, f, ee);
                        assert(apply_field(document@.skip(n0), f, ee)
                            =~= Set::<IndexEntry>::empty());
                        lemma_field_sets_push(Seq::<MutView>::empty(), m, f);
                        assert(clearset_field(document@.skip(n0), f) =~= ee);
                        assert(addset_field(document@.skip(n0), f)
                            =~= Set::<IndexEntry>::empty());
                        assert(!(cur_index(p0, f) is TextList) && !(cur_index(p0, f)
                            is IntegerList));
                    }
                },
                IndexValue::Null => {
                    proof {
                        assert(ee =~= Set::<IndexEntry>::empty());
                        assert(document@.skip(n0) =~= Seq::<MutView>::empty());
                        assert(apply_field(document@.skip(n0), f, ee)
                            =~= Set::<IndexEntry>::empty());
                        assert(clearset_field(document@.skip(n0), f) =~= ee);
                        assert(addset_field(document@.skip(n0), f)
                            =~= Set::<IndexEntry>::empty());
                        assert(!(cur_index(p0, f) is TextList) && !(cur_index(p0, f)
                            is IntegerList));
                    }
                },
            }
            // Scalar or absent current value: its entry (if any) is cleared
            // above; what remains is the insert branch.
            let ghost doc_mid = document@;
            proof {
                assert(apply_field(doc_mid.skip(n0), f, ee) =~= Set::<IndexEntry>::empty());
                assert(clearset_field(doc_mid.skip(n0), f) =~= ee);
                assert(addset_field(doc_mid.skip(n0), f) =~= Set::<IndexEntry>::empty());
                assert(forall|j: int|
                    0 <= j < doc_mid.skip(n0).len() ==> is_index_mut_for(
                        #[trigger] doc_mid.skip(n0)[j],
                        f,
                    ));
            }
            let new_ix = nv.index_as();
            proof {
                assert(new_ix@ == V::index_of_view(nv@));
            }
            let do_insert = match new_ix {
                IndexValue::Text(s2) => {
                    let ghost sv2 = s2@;
                    document.text(f, s2, Language::Unknown, opts);
                    proof {
                        let m = MutView::Text {
                            field: f,
                            value: sv2,
                            language: Language::Unknown,
                            options: opts,
                        };
                        assert(document@.skip(doc_mid.len() as int)
                            =~= Seq::<MutView>::empty().push(m));
                        lemma_apply_field_push(
                            Seq::<MutView>::empty(),
                            m,
                            f,
                            Set::<IndexEntry>::empty(),
                        );
                        assert(apply_field(document@.skip(doc_mid.len() as int), f, Set::<
                            IndexEntry,
                        >::empty()) =~= entries_of(V::index_of_view(nv@)));
                        lemma_field_sets_push(Seq::<MutView>::empty(), m, f);
                        assert(addset_field(document@.skip(doc_mid.len() as int), f)
                            =~= entries_of(V::index_of_view(nv@)));
                        assert(clearset_field(document@.skip(doc_mid.len() as int), f)
                            =~= Set::<IndexEntry>::empty());
                    }
                    true
                },
                IndexValue::TextList(l2) => {
                    let keep_none: Vec<String> = Vec::new();
                    emit_text_adds(document, f, &l2, &keep_none, opts);
                    proof {
                        let d2 = document@.skip(doc_mid.len() as int);
                        assert(crate::indexing::text_entries(strs_view(keep_none@))
                            =~= Set::<IndexEntry>::empty());
                        assert(apply_field(d2, f, Set::<IndexEntry>::empty()) =~= entries_of(
                            V::index_of_view(nv@),
                        ));
                        assert(addset_field(d2, f) =~= entries_of(V::index_of_view(nv@)));
                        assert(clearset_field(d2, f) =~= Set::<IndexEntry>::empty());
                    }
                    true
                },
                IndexValue::Integer(x2) => {
                    document.number(f, x2 as u64, opts);
                    proof {
                        let m = MutView::Number { field: f, value: x2 as u64, options: opts };
                        assert(document@.skip(doc_mid.len() as int)
                            =~= Seq::<MutView>::empty().push(m));
                        lemma_apply_field_push(
                            Seq::<MutView>::empty(),
                            m,
                            f,
                            Set::<IndexEntry>::empty(),
                        );
                        assert(apply_field(document@.skip(doc_mid.len() as int), f, Set::<
                            IndexEntry,
                        >::empty()) =~= entries_of(V::index_of_view(nv@)));
                        lemma_field_sets_push(Seq::<MutView>::empty(), m, f);
                        assert(addset_field(document@.skip(doc_mid.len() as int), f)
                            =~= entries_of(V::index_of_view(nv@)));
                        assert(clearset_field(document@.skip(doc_mid.len() as int), f)
                            =~= Set::<IndexEntry>::empty());
                    }
                    true
                },
                IndexValue::IntegerList(l2) => {
                    let keep_none: Vec<u32> = Vec::new();
                    emit_num_adds(document, f, &l2, &keep_none, opts);
                    proof {
                        let d2 = document@.skip(doc_mid.len() as int);
                        assert(crate::indexing::num_entries(keep_none@)
                            =~= Set::<IndexEntry>::empty());
                        assert(apply_field(d2, f, Set::<IndexEntry>::empty()) =~= entries_of(
                            V::index_of_view(nv@),
                        ));
                        assert(addset_field(d2, f) =~= entries_of(V::index_of_view(nv@)));
                        assert(clearset_field(d2, f) =~= Set::<IndexEntry>::empty());
                    }
                    true
                },
                IndexValue::LongInteger(x2) => {
                    document.number(f, x2, opts);
                    proof {
                        let m = MutView::Number { field: f, value: x2, options: opts };
                        assert(document@.skip(doc_mid.len() as int)
                            =~= Seq::<MutView>::empty().push(m));
                        lemma_apply_field_push(
                            Seq::<MutView>::empty(),
                            m,
                            f,
                            Set::<IndexEntry>::empty(),
                        );
                        assert(apply_field(document@.skip(doc_mid.len() as int), f, Set::<
                            IndexEntry,
                        >::empty()) =~= entries_of(V::index_of_view(nv@)));
                        lemma_field_sets_push(Seq::<MutView>::empty(), m, f);
                        assert(addset_field(document@.skip(doc_mid.len() as int), f)
                            =~= entries_of(V::index_of_view(nv@)));
                        assert(clearset_field(document@.skip(doc_mid.len() as int), f)
                            =~= Set::<IndexEntry>::empty());
                    }
                    true
                },
                IndexValue::Null => {
                    proof {
                        assert(document@.skip(doc_mid.len() as int) =~= Seq::<MutView>::empty());
                        assert(addset_field(document@.skip(doc_mid.len() as int), f)
                            =~= Set::<IndexEntry>::empty());
                        assert(clearset_field(document@.skip(doc_mid.len() as int), f)
                            =~= Set::<IndexEntry>::empty());
                    }
                    false
                },
            };
            if do_insert {
                orm.set(f, nv.clone_value());
            } else {
                orm.unset(f);
            }
            proof {
                let d1 = doc_mid.skip(n0);
                let d2 = document@.skip(doc_mid.len() as int);
                assert(document@.skip(n0) =~= d1 + d2);
                lemma_apply_field_concat(d1, d2, f, ee);
                lemma_cba_concat(d1, d2, f);
                lemma_field_sets_concat(d1, d2, f);
                assert(clearset_field(document@.skip(n0), f) =~= ee);
                assert(addset_field(document@.skip(n0), f) =~= entries_of(
                    V::index_of_view(nv@),
                ));
                assert(spec_clears(p0, f, *nv, true) == ee);
                assert(spec_adds(p0, f, *nv, true) == entries_of(V::index_of_view(nv@)));
                if do_insert {
                    assert(merged_index(p0, f, *nv, true) == V::index_of_view(nv@));
                } else {
                    assert(merged_index(p0, f, *nv, true) is Null);
                    assert(entries_of(merged_index(p0, f, *nv, true))
                        =~= Set::<IndexEntry>::empty());
                }
            }
            true
        },
        None => {
            let do_insert = !nv.is_empty_value();
            if do_insert {
                orm.set(f, nv.clone_value());
            } else {
                orm.unset(f);
            }
            proof {
                assert(document@.skip(n0) =~= Seq::<MutView>::empty());
            }
            true
        },
    }
}


/// A tag mutation of one field is of no other field, and is no index
/// mutation.
pub proof fn lemma_tag_mut_field_unique(m: MutView, f: FieldId, g: FieldId)
    requires
        is_tag_mut_for(m, f),
        f != g,
    ensures
        !is_tag_mut_for(m, g),
        !is_index_mut_for(m, g),
{
}

/// Emits the whole tag pass: clears for stored tags the incoming sets drop
/// (only for fields the incoming side also carries), then adds for incoming
/// tags the stored sets lack.
fn emit_tag_pass(
    document: &mut Document,
    p_tags: &Vec<(FieldId, Vec<Tag>)>,
    n_tags: &Vec<(FieldId, Vec<Tag>)>,
) -> (emitted: bool)
    requires
        crate::orm::assoc_unique(p_tags@),
        crate::orm::assoc_unique(n_tags@),
    ensures
        final(document).document_id == old(document).document_id,
        old(document)@.is_prefix_of(final(document)@),
        ({
            let delta = final(document)@.skip(old(document)@.len() as int);
            &&& forall|j: int|
                0 <= j < delta.len() ==> ((#[trigger] delta[j]) matches MutView::Tag { .. })
            &&& forall|j: int, g: FieldId|
                0 <= j < delta.len() && #[trigger] is_tag_mut_for(delta[j], g)
                    ==> crate::orm::assoc_has(n_tags@, g)
            &&& forall|g: FieldId|
                #[trigger] crate::orm::assoc_has(n_tags@, g) ==> apply_tag(
                    delta,
                    g,
                    crate::orm::tagset_of(p_tags@, g),
                ) == crate::orm::tagset_of(n_tags@, g)
            &&& forall|g: FieldId|
                #[trigger] crate::orm::assoc_has(n_tags@, g) ==> tag_clearset_of(delta, g)
                    == crate::orm::tagset_of(p_tags@, g).difference(
                    crate::orm::tagset_of(n_tags@, g),
                ) && tag_addset_of(delta, g) == crate::orm::tagset_of(n_tags@, g).difference(
                    crate::orm::tagset_of(p_tags@, g),
                )
            &&& forall|g: FieldId| #[trigger] tag_clears_before_adds(delta, g)
            &&& emitted == (exists|g: FieldId|
                #[trigger] crate::orm::assoc_has(n_tags@, g) && (crate::orm::tagset_of(
                    p_tags@,
                    g,
                ).difference(crate::orm::tagset_of(n_tags@, g)) != Set::<TagView>::empty()
                    || crate::orm::tagset_of(n_tags@, g).difference(
                    crate::orm::tagset_of(p_tags@, g),
                ) != Set::<TagView>::empty()))
            &&& emitted == (delta.len() > 0)
        }),
{
    let ghost m0 = old(document)@.len() as int;
    let mut emitted1 = false;
    let mut k1: usize = 0;
    proof {
        assert(document@.skip(m0) =~= Seq::<MutView>::empty());
    }
    while k1 < p_tags.len()
        invariant
            0 <= k1 <= p_tags@.len(),
            crate::orm::assoc_unique(p_tags@),
            crate::orm::assoc_unique(n_tags@),
            document.document_id == old(document).document_id,
            old(document)@.is_prefix_of(document@),
            m0 == old(document)@.len(),
            ({
                let delta = document@.skip(m0);
                &&& forall|j: int|
                    0 <= j < delta.len() ==> ((#[trigger] delta[j]) matches MutView::Tag { .. })
                &&& forall|j: int, g: FieldId|
                    0 <= j < delta.len() && #[trigger] is_tag_mut_for(delta[j], g)
                        ==> processed_key(p_tags@, k1 as int, g) && crate::orm::assoc_has(
                        n_tags@,
                        g,
                    )
                &&& forall|k: int, s: Set<TagView>|
                    0 <= k < k1 && crate::orm::assoc_has(n_tags@, (p_tags@[k]).0)
                        ==> #[trigger] apply_tag(delta, (p_tags@[k]).0, s) == s.difference(
                        crate::orm::tagset_of(p_tags@, (p_tags@[k]).0).difference(
                            crate::orm::tagset_of(n_tags@, (p_tags@[k]).0),
                        ),
                    )
                &&& forall|j: int| 0 <= j < delta.len() ==> mut_is_clear(#[trigger] delta[j])
                &&& forall|k: int|
                    0 <= k < k1 && crate::orm::assoc_has(n_tags@, (#[trigger] p_tags@[k]).0)
                        ==> tag_clearset_of(delta, (p_tags@[k]).0) == crate::orm::tagset_of(
                        p_tags@,
                        (p_tags@[k]).0,
                    ).difference(crate::orm::tagset_of(n_tags@, (p_tags@[k]).0))
                &&& emitted1 == (exists|k: int|
                    0 <= k < k1 && crate::orm::assoc_has(n_tags@, (#[trigger] p_tags@[k]).0)
                        && crate::orm::tagset_of(p_tags@, (p_tags@[k]).0).difference(
                        crate::orm::tagset_of(n_tags@, (p_tags@[k]).0),
                    ) != Set::<TagView>::empty())
                &&& emitted1 == (delta.len() > 0)
            }),
        decreases p_tags@.len() - k1,
    {
        let pf = p_tags[k1].0;
        let ghost doc_pre = document@;
        proof {
            assert(!processed_key(p_tags@, k1 as int, pf));
            assert(crate::orm::assoc_idx(p_tags@, pf) == k1 as int);
        }
        let mut emitted_here = false;
        match assoc_get_tags(n_tags, pf) {
            Some(nt) => {
                emitted_here = emit_tag_clears(document, pf, &p_tags[k1].1, nt);
                proof {
                    assert(tag_views(p_tags@[k1 as int].1@) == crate::orm::tagset_of(p_tags@, pf));
                    assert(tag_views(nt@) == crate::orm::tagset_of(n_tags@, pf));
                }
            },
            None => {},
        }
        proof {
            let delta_old = doc_pre.skip(m0);
            let delta_new = document@.skip(doc_pre.len() as int);
            assert(document@.skip(m0) =~= delta_old + delta_new);
            assert forall|k: int|
                0 <= k < k1 + 1 && crate::orm::assoc_has(n_tags@, (#[trigger] p_tags@[k]).0)
                implies tag_clearset_of(document@.skip(m0), (p_tags@[k]).0)
                == crate::orm::tagset_of(p_tags@, (p_tags@[k]).0).difference(
                crate::orm::tagset_of(n_tags@, (p_tags@[k]).0),
            ) by {
                let g = (p_tags@[k]).0;
                lemma_tag_sets_concat(delta_old, delta_new, g);
                if k < k1 {
                    assert(g != pf);
                    assert forall|j: int| 0 <= j < delta_new.len() implies !is_tag_mut_for(
                        #[trigger] delta_new[j],
                        g,
                    ) by {
                        if is_tag_mut_for(delta_new[j], pf) {
                            lemma_tag_mut_field_unique(delta_new[j], pf, g);
                        }
                    }
                    lemma_tag_sets_untouched(delta_new, g);
                    assert(tag_clearset_of(delta_old, g).union(Set::<TagView>::empty())
                        =~= tag_clearset_of(delta_old, g));
                } else {
                    assert(g == pf);
                    assert forall|j: int| 0 <= j < delta_old.len() implies !is_tag_mut_for(
                        #[trigger] delta_old[j],
                        pf,
                    ) by {
                        if is_tag_mut_for(delta_old[j], pf) {
                            assert(processed_key(p_tags@, k1 as int, pf));
                        }
                    }
                    lemma_tag_sets_untouched(delta_old, pf);
                    assert(Set::<TagView>::empty().union(tag_clearset_of(delta_new, pf))
                        =~= tag_clearset_of(delta_new, pf));
                }
            }
            assert forall|k: int, s: Set<TagView>|
                0 <= k < k1 + 1 && crate::orm::assoc_has(n_tags@, (p_tags@[k]).0) implies #[trigger] apply_tag(
                document@.skip(m0),
                (p_tags@[k]).0,
                s,
            ) == s.difference(
                crate::orm::tagset_of(p_tags@, (p_tags@[k]).0).difference(
                    crate::orm::tagset_of(n_tags@, (p_tags@[k]).0),
                ),
            ) by {
                let g = (p_tags@[k]).0;
                lemma_apply_tag_concat(delta_old, delta_new, g, s);
                if k < k1 {
                    assert(g != pf);
                    assert forall|j: int| 0 <= j < delta_new.len() implies !is_tag_mut_for(
                        #[trigger] delta_new[j],
                        g,
                    ) by {
                        if is_tag_mut_for(delta_new[j], g) {
                        } else {
                        }
                        if is_tag_mut_for(delta_new[j], pf) {
                            lemma_tag_mut_field_unique(delta_new[j], pf, g);
                        }
                    }
                    lemma_apply_tag_untouched(delta_new, g, apply_tag(delta_old, g, s));
                } else {
                    assert(g == pf);
                    assert forall|j: int| 0 <= j < delta_old.len() implies !is_tag_mut_for(
                        #[trigger] delta_old[j],
                        pf,
                    ) by {
                        if is_tag_mut_for(delta_old[j], pf) {
                            assert(processed_key(p_tags@, k1 as int, pf));
                        }
                    }
                    lemma_apply_tag_untouched(delta_old, pf, s);
                }
            }
        }
        if emitted_here {
            emitted1 = true;
        }
        proof {
            assert(emitted1 == (exists|k: int|
                0 <= k < k1 + 1 && crate::orm::assoc_has(n_tags@, (#[trigger] p_tags@[k]).0)
                    && crate::orm::tagset_of(p_tags@, (p_tags@[k]).0).difference(
                    crate::orm::tagset_of(n_tags@, (p_tags@[k]).0),
                ) != Set::<TagView>::empty())) by {
                if emitted_here {
                    assert(crate::orm::assoc_has(n_tags@, (p_tags@[k1 as int]).0));
                }
            }
        }
        k1 = k1 + 1;
    }
    let ghost doc_mid = document@;
    let empty_tags: Vec<Tag> = Vec::new();
    let mut emitted2 = false;
    let mut k2: usize = 0;
    proof {
        assert(document@.skip(doc_mid.len() as int) =~= Seq::<MutView>::empty());
    }
    while k2 < n_tags.len()
        invariant
            0 <= k2 <= n_tags@.len(),
            crate::orm::assoc_unique(p_tags@),
            crate::orm::assoc_unique(n_tags@),
            document.document_id == old(document).document_id,
            doc_mid.is_prefix_of(document@),
            empty_tags@.len() == 0,
            ({
                let delta = document@.skip(doc_mid.len() as int);
                &&& forall|j: int|
                    0 <= j < delta.len() ==> ((#[trigger] delta[j]) matches MutView::Tag { .. })
                &&& forall|j: int, g: FieldId|
                    0 <= j < delta.len() && #[trigger] is_tag_mut_for(delta[j], g)
                        ==> processed_key(n_tags@, k2 as int, g)
                &&& forall|k: int, s: Set<TagView>|
                    0 <= k < k2 ==> #[trigger] apply_tag(delta, (n_tags@[k]).0, s) == s.union(
                        crate::orm::tagset_of(n_tags@, (n_tags@[k]).0).difference(
                            crate::orm::tagset_of(p_tags@, (n_tags@[k]).0),
                        ),
                    )
                &&& forall|j: int| 0 <= j < delta.len() ==> !mut_is_clear(#[trigger] delta[j])
                &&& forall|k: int|
                    0 <= k < k2 ==> tag_addset_of(delta, (#[trigger] n_tags@[k]).0)
                        == crate::orm::tagset_of(n_tags@, (n_tags@[k]).0).difference(
                        crate::orm::tagset_of(p_tags@, (n_tags@[k]).0),
                    )
                &&& emitted2 == (exists|k: int|
                    0 <= k < k2 && crate::orm::tagset_of(n_tags@, (#[trigger] n_tags@[k]).0)
                        .difference(crate::orm::tagset_of(p_tags@, (n_tags@[k]).0))
                        != Set::<TagView>::empty())
                &&& emitted2 == (delta.len() > 0)
            }),
        decreases n_tags@.len() - k2,
    {
        let nf = n_tags[k2].0;
        let ghost doc_pre = document@;
        proof {
            assert(!processed_key(n_tags@, k2 as int, nf));
            assert(crate::orm::assoc_idx(n_tags@, nf) == k2 as int);
        }
        let emitted_here = match assoc_get_tags(p_tags, nf) {
            Some(pt) => {
                let e = emit_tag_adds(document, nf, &n_tags[k2].1, pt);
                proof {
                    assert(tag_views(pt@) == crate::orm::tagset_of(p_tags@, nf));
                    assert(tag_views(n_tags@[k2 as int].1@) == crate::orm::tagset_of(n_tags@, nf));
                }
                e
            },
            None => {
                let e = emit_tag_adds(document, nf, &n_tags[k2].1, &empty_tags);
                proof {
                    assert(tag_views(empty_tags@) =~= Set::<TagView>::empty());
                    assert(crate::orm::tagset_of(p_tags@, nf) =~= Set::<TagView>::empty());
                    assert(tag_views(n_tags@[k2 as int].1@) == crate::orm::tagset_of(n_tags@, nf));
                }
                e
            },
        };
        proof {
            let delta_old = doc_pre.skip(doc_mid.len() as int);
            let delta_new = document@.skip(doc_pre.len() as int);
            assert(document@.skip(doc_mid.len() as int) =~= delta_old + delta_new);
            assert forall|k: int|
                0 <= k < k2 + 1 implies tag_addset_of(
                document@.skip(doc_mid.len() as int),
                (#[trigger] n_tags@[k]).0,
            ) == crate::orm::tagset_of(n_tags@, (n_tags@[k]).0).difference(
                crate::orm::tagset_of(p_tags@, (n_tags@[k]).0),
            ) by {
                let g = (n_tags@[k]).0;
                lemma_tag_sets_concat(delta_old, delta_new, g);
                if k < k2 {
                    assert(g != nf);
                    assert forall|j: int| 0 <= j < delta_new.len() implies !is_tag_mut_for(
                        #[trigger] delta_new[j],
                        g,
                    ) by {
                        if is_tag_mut_for(delta_new[j], nf) {
                            lemma_tag_mut_field_unique(delta_new[j], nf, g);
                        }
                    }
                    lemma_tag_sets_untouched(delta_new, g);
                    assert(tag_addset_of(delta_old, g).union(Set::<TagView>::empty())
                        =~= tag_addset_of(delta_old, g));
                } else {
                    assert(g == nf);
                    assert forall|j: int| 0 <= j < delta_old.len() implies !is_tag_mut_for(
                        #[trigger] delta_old[j],
                        nf,
                    ) by {
                        if is_tag_mut_for(delta_old[j], nf) {
                            assert(processed_key(n_tags@, k2 as int, nf));
                        }
                    }
                    lemma_tag_sets_untouched(delta_old, nf);
                    assert(Set::<TagView>::empty().union(tag_addset_of(delta_new, nf))
                        =~= tag_addset_of(delta_new, nf));
                }
            }
            assert forall|k: int, s: Set<TagView>| 0 <= k < k2 + 1 implies #[trigger] apply_tag(
                document@.skip(doc_mid.len() as int),
                (n_tags@[k]).0,
                s,
            ) == s.union(
                crate::orm::tagset_of(n_tags@, (n_tags@[k]).0).difference(
                    crate::orm::tagset_of(p_tags@, (n_tags@[k]).0),
                ),
            ) by {
                let g = (n_tags@[k]).0;
                lemma_apply_tag_concat(delta_old, delta_new, g, s);
                if k < k2 {
                    assert(g != nf);
                    assert forall|j: int| 0 <= j < delta_new.len() implies !is_tag_mut_for(
                        #[trigger] delta_new[j],
                        g,
                    ) by {
                        if is_tag_mut_for(delta_new[j], nf) {
                            lemma_tag_mut_field_unique(delta_new[j], nf, g);
                        }
                    }
                    lemma_apply_tag_untouched(delta_new, g, apply_tag(delta_old, g, s));
                } else {
                    assert(g == nf);
                    assert forall|j: int| 0 <= j < delta_old.len() implies !is_tag_mut_for(
                        #[trigger] delta_old[j],
                        nf,
                    ) by {
                        if is_tag_mut_for(delta_old[j], nf) {
                            assert(processed_key(n_tags@, k2 as int, nf));
                        }
                    }
                    lemma_apply_tag_untouched(delta_old, nf, s);
                }
            }
        }
        if emitted_here {
            emitted2 = true;
        }
        k2 = k2 + 1;
    }
    proof {
        let delta1 = doc_mid.skip(m0);
        let delta2 = document@.skip(doc_mid.len() as int);
        assert(document@.skip(m0) =~= delta1 + delta2);
        assert forall|g: FieldId| #[trigger] crate::orm::assoc_has(n_tags@, g) implies apply_tag(
            document@.skip(m0),
            g,
            crate::orm::tagset_of(p_tags@, g),
        ) == crate::orm::tagset_of(n_tags@, g) by {
            let pn = crate::orm::tagset_of(p_tags@, g);
            let nn = crate::orm::tagset_of(n_tags@, g);
            let c = pn.difference(nn);
            let a = nn.difference(pn);
            lemma_apply_tag_concat(delta1, delta2, g, pn);
            if crate::orm::assoc_has(p_tags@, g) {
                let k = crate::orm::assoc_idx(p_tags@, g);
                assert(0 <= k < p_tags@.len() && (p_tags@[k]).0 == g);
                assert(apply_tag(delta1, g, pn) == pn.difference(c));
            } else {
                assert forall|j: int| 0 <= j < delta1.len() implies !is_tag_mut_for(
                    #[trigger] delta1[j],
                    g,
                ) by {
                    if is_tag_mut_for(delta1[j], g) {
                        assert(processed_key(p_tags@, p_tags@.len() as int, g));
                    }
                }
                lemma_apply_tag_untouched(delta1, g, pn);
                assert(pn =~= Set::<TagView>::empty());
                assert(pn.difference(c) =~= pn);
            }
            let k2i = crate::orm::assoc_idx(n_tags@, g);
            assert(0 <= k2i < n_tags@.len() && (n_tags@[k2i]).0 == g);
            assert(apply_tag(delta2, g, pn.difference(c)) == pn.difference(c).union(a));
            assert(pn.difference(c).union(a) =~= nn);
        }
        assert forall|g: FieldId|
            #[trigger] crate::orm::assoc_has(n_tags@, g) implies tag_clearset_of(
            document@.skip(m0),
            g,
        ) == crate::orm::tagset_of(p_tags@, g).difference(crate::orm::tagset_of(n_tags@, g))
            && tag_addset_of(document@.skip(m0), g) == crate::orm::tagset_of(
            n_tags@,
            g,
        ).difference(crate::orm::tagset_of(p_tags@, g)) by {
            lemma_tag_sets_concat(delta1, delta2, g);
            assert forall|j: int| 0 <= j < delta2.len() implies !is_tag_clear(
                #[trigger] delta2[j],
                g,
            ) by {}
            crate::indexing::lemma_no_tag_clears_empty(delta2, g);
            assert forall|j: int| 0 <= j < delta1.len() implies !is_tag_add(
                #[trigger] delta1[j],
                g,
            ) by {}
            crate::indexing::lemma_no_tag_adds_empty(delta1, g);
            if crate::orm::assoc_has(p_tags@, g) {
                let k = crate::orm::assoc_idx(p_tags@, g);
                assert(0 <= k < p_tags@.len() && (p_tags@[k]).0 == g);
                assert(tag_clearset_of(delta1, g) == crate::orm::tagset_of(
                    p_tags@,
                    g,
                ).difference(crate::orm::tagset_of(n_tags@, g)));
            } else {
                assert forall|j: int| 0 <= j < delta1.len() implies !is_tag_mut_for(
                    #[trigger] delta1[j],
                    g,
                ) by {
                    if is_tag_mut_for(delta1[j], g) {
                        assert(processed_key(p_tags@, p_tags@.len() as int, g));
                    }
                }
                lemma_tag_sets_untouched(delta1, g);
                assert(crate::orm::tagset_of(p_tags@, g) =~= Set::<TagView>::empty());
                assert(crate::orm::tagset_of(p_tags@, g).difference(
                    crate::orm::tagset_of(n_tags@, g),
                ) =~= Set::<TagView>::empty());
            }
            let k2i = crate::orm::assoc_idx(n_tags@, g);
            assert(0 <= k2i < n_tags@.len() && (n_tags@[k2i]).0 == g);
            assert(tag_addset_of(delta2, g) == crate::orm::tagset_of(n_tags@, g).difference(
                crate::orm::tagset_of(p_tags@, g),
            ));
            assert(tag_clearset_of(delta1, g).union(Set::<TagView>::empty()) =~= tag_clearset_of(
                delta1,
                g,
            ));
            assert(Set::<TagView>::empty().union(tag_addset_of(delta2, g)) =~= tag_addset_of(
                delta2,
                g,
            ));
        }
        assert forall|g: FieldId| #[trigger] tag_clears_before_adds(document@.skip(m0), g) by {
            assert(tag_clears_before_adds(delta1, g)) by {
                assert forall|a: int, b: int|
                    0 <= a < b < delta1.len() && is_tag_add(#[trigger] delta1[a], g)
                    implies !is_tag_clear(#[trigger] delta1[b], g) by {}
            }
            assert(tag_clears_before_adds(delta2, g)) by {
                assert forall|a: int, b: int|
                    0 <= a < b < delta2.len() && is_tag_add(#[trigger] delta2[a], g)
                    implies !is_tag_clear(#[trigger] delta2[b], g) by {}
            }
            assert forall|j: int| 0 <= j < delta2.len() implies !is_tag_clear(
                #[trigger] delta2[j],
                g,
            ) by {}
            lemma_tag_cba_concat(delta1, delta2, g);
            assert(document@.skip(m0) =~= delta1 + delta2);
        }
        assert forall|j: int, g: FieldId|
            0 <= j < document@.skip(m0).len() && #[trigger] is_tag_mut_for(
                document@.skip(m0)[j],
                g,
            ) implies crate::orm::assoc_has(n_tags@, g) by {
            let d = document@.skip(m0);
            if j < delta1.len() {
                assert(d[j] == delta1[j]);
            } else {
                assert(d[j] == delta2[j - delta1.len()]);
                assert(processed_key(n_tags@, n_tags@.len() as int, g));
                let k = choose|k: int|
                    0 <= k < n_tags@.len() && (#[trigger] n_tags@[k]).0 == g;
            }
        }
        assert((emitted1 || emitted2) == (exists|g: FieldId|
            #[trigger] crate::orm::assoc_has(n_tags@, g) && (crate::orm::tagset_of(
                p_tags@,
                g,
            ).difference(crate::orm::tagset_of(n_tags@, g)) != Set::<TagView>::empty()
                || crate::orm::tagset_of(n_tags@, g).difference(
                crate::orm::tagset_of(p_tags@, g),
            ) != Set::<TagView>::empty()))) by {
            if emitted1 {
                let k = choose|k: int|
                    0 <= k < p_tags@.len() && crate::orm::assoc_has(
                        n_tags@,
                        (#[trigger] p_tags@[k]).0,
                    ) && crate::orm::tagset_of(p_tags@, (p_tags@[k]).0).difference(
                        crate::orm::tagset_of(n_tags@, (p_tags@[k]).0),
                    ) != Set::<TagView>::empty();
                assert(crate::orm::assoc_has(n_tags@, (p_tags@[k]).0));
            } else if emitted2 {
                let k = choose|k: int|
                    0 <= k < n_tags@.len() && crate::orm::tagset_of(
                        n_tags@,
                        (#[trigger] n_tags@[k]).0,
                    ).difference(crate::orm::tagset_of(p_tags@, (n_tags@[k]).0))
                        != Set::<TagView>::empty();
                assert(crate::orm::assoc_has(n_tags@, (n_tags@[k]).0));
            } else {
                if exists|g: FieldId|
                    #[trigger] crate::orm::assoc_has(n_tags@, g) && (crate::orm::tagset_of(
                        p_tags@,
                        g,
                    ).difference(crate::orm::tagset_of(n_tags@, g)) != Set::<TagView>::empty()
                        || crate::orm::tagset_of(n_tags@, g).difference(
                        crate::orm::tagset_of(p_tags@, g),
                    ) != Set::<TagView>::empty()) {
                    let g = choose|g: FieldId|
                        #[trigger] crate::orm::assoc_has(n_tags@, g) && (crate::orm::tagset_of(
                            p_tags@,
                            g,
                        ).difference(crate::orm::tagset_of(n_tags@, g)) != Set::<TagView>::empty()
                            || crate::orm::tagset_of(n_tags@, g).difference(
                            crate::orm::tagset_of(p_tags@, g),
                        ) != Set::<TagView>::empty());
                    if crate::orm::tagset_of(p_tags@, g).difference(
                        crate::orm::tagset_of(n_tags@, g),
                    ) != Set::<TagView>::empty() {
                        assert(crate::orm::assoc_has(p_tags@, g)) by {
                            if !crate::orm::assoc_has(p_tags@, g) {
                                assert(crate::orm::tagset_of(p_tags@, g)
                                    =~= Set::<TagView>::empty());
                                assert(crate::orm::tagset_of(p_tags@, g).difference(
                                    crate::orm::tagset_of(n_tags@, g),
                                ) =~= Set::<TagView>::empty());
                            }
                        }
                        let k = crate::orm::assoc_idx(p_tags@, g);
                        assert(0 <= k < p_tags@.len() && (p_tags@[k]).0 == g);
                        assert(emitted1);
                    } else {
                        let k = crate::orm::assoc_idx(n_tags@, g);
                        assert(0 <= k < n_tags@.len() && (n_tags@[k]).0 == g);
                        assert(emitted2);
                    }
                }
            }
        }
    }
    emitted1 || emitted2
}


/// Characterization of the map built by the ACL add pass: entries of the
/// incoming prefix that the stored list lacks are stored under their id,
/// everything else keeps its prior binding.
proof fn lemma_acl_add_prefix_props(
    m: Map<u32, crate::document::AclEntry>,
    n_acls: Seq<crate::document::AclEntry>,
    p_acls: Seq<crate::document::AclEntry>,
    k: int,
)
    requires
        0 <= k <= n_acls.len(),
        forall|i: int, j: int|
            0 <= i < j < n_acls.len() ==> (#[trigger] n_acls[i]).id != (#[trigger] n_acls[j]).id,
    ensures
        forall|id: u32|
            #[trigger] acl_add_prefix(m, n_acls, p_acls, k).dom().contains(id) <==> (
            m.dom().contains(id) || exists|j: int|
                0 <= j < k && (#[trigger] n_acls[j]).id == id && !p_acls.contains(n_acls[j])),
        forall|j: int|
            0 <= j < k && !p_acls.contains(#[trigger] n_acls[j]) ==> acl_add_prefix(
                m,
                n_acls,
                p_acls,
                k,
            )[n_acls[j].id] == n_acls[j],
        forall|id: u32|
            m.dom().contains(id) && !(exists|j: int|
                0 <= j < k && (#[trigger] n_acls[j]).id == id && !p_acls.contains(n_acls[j]))
                ==> #[trigger] acl_add_prefix(m, n_acls, p_acls, k)[id] == m[id],
    decreases k,
{
    if k > 0 {
        lemma_acl_add_prefix_props(m, n_acls, p_acls, k - 1);
        let prev = acl_add_prefix(m, n_acls, p_acls, k - 1);
        let r = acl_add_prefix(m, n_acls, p_acls, k);
        let e = n_acls[k - 1];
        assert forall|id: u32| #[trigger] r.dom().contains(id) implies (m.dom().contains(id)
            || exists|j: int|
            0 <= j < k && (#[trigger] n_acls[j]).id == id && !p_acls.contains(n_acls[j])) by {
            if p_acls.contains(e) {
                assert(prev.dom().contains(id));
            } else {
                if id == e.id {
                    assert(n_acls[k - 1].id == id && !p_acls.contains(n_acls[k - 1]));
                } else {
                    assert(prev.dom().contains(id));
                }
            }
        }
        assert forall|id: u32| (m.dom().contains(id) || exists|j: int|
            0 <= j < k && (#[trigger] n_acls[j]).id == id && !p_acls.contains(n_acls[j]))
            implies #[trigger] r.dom().contains(id) by {
            if !m.dom().contains(id) {
                let j = choose|j: int|
                    0 <= j < k && (#[trigger] n_acls[j]).id == id && !p_acls.contains(n_acls[j]);
                if j < k - 1 {
                    assert(prev.dom().contains(id));
                }
            }
        }
        assert forall|j: int| 0 <= j < k && !p_acls.contains(#[trigger] n_acls[j]) implies r[
            n_acls[j].id
        ] == n_acls[j] by {
            if j == k - 1 {
                assert(!p_acls.contains(e));
                assert(r == prev.insert(e.id, e));
            } else {
                assert(prev[n_acls[j].id] == n_acls[j]);
                if !p_acls.contains(e) {
                    assert(n_acls[j].id != e.id);
                }
            }
        }
    }
}

/// Emits the whole ACL pass: clears for stored entries whose id the
/// incoming list drops, then adds for incoming entries the stored list does
/// not hold verbatim.
fn emit_acl_pass(
    document: &mut Document,
    p_acls: &Vec<crate::document::AclEntry>,
    n_acls: &Vec<crate::document::AclEntry>,
) -> (emitted: bool)
    requires
        forall|i: int, j: int|
            0 <= i < j < p_acls@.len() ==> (#[trigger] p_acls@[i]).id != (
            #[trigger] p_acls@[j]).id,
        forall|i: int, j: int|
            0 <= i < j < n_acls@.len() ==> (#[trigger] n_acls@[i]).id != (
            #[trigger] n_acls@[j]).id,
    ensures
        final(document).document_id == old(document).document_id,
        old(document)@.is_prefix_of(final(document)@),
        ({
            let delta = final(document)@.skip(old(document)@.len() as int);
            &&& forall|j: int|
                0 <= j < delta.len() ==> ((#[trigger] delta[j]) matches MutView::Acl { .. })
            &&& apply_acl(delta, crate::orm::acl_map_of(p_acls@)) == crate::orm::acl_map_of(
                n_acls@,
            )
            &&& acl_clearset_of(delta) == crate::orm::acl_ids_of(p_acls@).difference(
                crate::orm::acl_ids_of(n_acls@),
            )
            &&& acl_addset_of(delta) == Set::new(
                |e: crate::document::AclEntry| n_acls@.contains(e) && !p_acls@.contains(e),
            )
            &&& emitted == (crate::orm::acl_ids_of(p_acls@).difference(
                crate::orm::acl_ids_of(n_acls@),
            ) != Set::<u32>::empty() || exists|k: int|
                0 <= k < n_acls@.len() && !p_acls@.contains(#[trigger] n_acls@[k]))
            &&& emitted == (delta.len() > 0)
        }),
{
    let ghost m0 = old(document)@.len() as int;
    let ghost big_m = crate::orm::acl_map_of(p_acls@);
    let ghost n_ids = crate::orm::acl_ids_of(n_acls@);
    let mut emitted_c = false;
    let mut kc: usize = 0;
    proof {
        assert(document@.skip(m0) =~= Seq::<MutView>::empty());
        assert(acl_clear_prefix(p_acls@, n_ids, 0) =~= Set::<u32>::empty());
        assert(big_m.remove_keys(acl_clear_prefix(p_acls@, n_ids, 0)) =~= big_m);
    }
    while kc < p_acls.len()
        invariant
            0 <= kc <= p_acls@.len(),
            document.document_id == old(document).document_id,
            old(document)@.is_prefix_of(document@),
            m0 == old(document)@.len(),
            big_m == crate::orm::acl_map_of(p_acls@),
            n_ids == crate::orm::acl_ids_of(n_acls@),
            ({
                let delta = document@.skip(m0);
                &&& forall|j: int|
                    0 <= j < delta.len() ==> ((#[trigger] delta[j]) matches MutView::Acl { .. })
                &&& apply_acl(delta, big_m) == big_m.remove_keys(
                    acl_clear_prefix(p_acls@, n_ids, kc as int),
                )
                &&& acl_clearset_of(delta) == acl_clear_prefix(p_acls@, n_ids, kc as int)
                &&& acl_addset_of(delta) == Set::<crate::document::AclEntry>::empty()
                &&& emitted_c == (acl_clear_prefix(p_acls@, n_ids, kc as int)
                    != Set::<u32>::empty())
                &&& emitted_c == (delta.len() > 0)
            }),
        decreases p_acls@.len() - kc,
    {
        let e = p_acls[kc];
        let ghost delta0 = document@.skip(m0);
        let ghost pc0 = acl_clear_prefix(p_acls@, n_ids, kc as int);
        let in_n = contains_acl_id(n_acls, e.id);
        proof {
            if in_n {
                assert(n_ids.contains(e.id));
            } else {
                assert(!n_ids.contains(e.id)) by {
                    if n_ids.contains(e.id) {
                        let j = choose|j: int|
                            0 <= j < n_acls@.len() && (#[trigger] n_acls@[j]).id == e.id;
                    }
                }
            }
        }
        if !in_n {
            document.acl(e, IndexOptions::new().clear());
            emitted_c = true;
            proof {
                let m = MutView::Acl {
                    entry: e,
                    options: IndexOptions { store: false, index: false, tokenize: false, clear: true },
                };
                assert(document@.skip(m0) =~= delta0.push(m));
                lemma_apply_acl_push(delta0, m, big_m);
                let pc1 = acl_clear_prefix(p_acls@, n_ids, kc + 1);
                assert(pc1 =~= pc0.insert(e.id)) by {
                    assert forall|id: u32| pc1.contains(id) implies pc0.insert(e.id).contains(
                        id,
                    ) by {
                        let j = choose|j: int|
                            0 <= j < kc + 1 && (#[trigger] p_acls@[j]).id == id && !n_ids.contains(
                                id,
                            );
                        if j < kc {
                            assert(pc0.contains(id));
                        }
                    }
                    assert forall|id: u32| pc0.insert(e.id).contains(id) implies pc1.contains(
                        id,
                    ) by {
                        if id == e.id {
                            assert((p_acls@[kc as int]).id == id && !n_ids.contains(id));
                        } else {
                            let j = choose|j: int|
                                0 <= j < kc && (#[trigger] p_acls@[j]).id == id && !n_ids.contains(
                                    id,
                                );
                        }
                    }
                }
                assert(big_m.remove_keys(pc0).remove(e.id) =~= big_m.remove_keys(pc1));
                assert(pc1.contains(e.id));
                lemma_acl_sets_push(delta0, m);
                assert(acl_clearset_of(delta0.push(m)) =~= pc1);
            }
        } else {
            proof {
                let pc1 = acl_clear_prefix(p_acls@, n_ids, kc + 1);
                assert(pc1 =~= pc0) by {
                    assert forall|id: u32| pc1.contains(id) implies pc0.contains(id) by {
                        let j = choose|j: int|
                            0 <= j < kc + 1 && (#[trigger] p_acls@[j]).id == id && !n_ids.contains(
                                id,
                            );
                        if j == kc {
                            assert(n_ids.contains(e.id));
                        }
                    }
                }
            }
        }
        kc = kc + 1;
    }
    let ghost clear_total = acl_clear_prefix(p_acls@, n_ids, p_acls@.len() as int);
    let ghost m1 = big_m.remove_keys(clear_total);
    proof {
        assert(clear_total =~= crate::orm::acl_ids_of(p_acls@).difference(n_ids)) by {
            assert forall|id: u32| clear_total.contains(id) implies crate::orm::acl_ids_of(
                p_acls@,
            ).difference(n_ids).contains(id) by {
                let j = choose|j: int|
                    0 <= j < p_acls@.len() && (#[trigger] p_acls@[j]).id == id && !n_ids.contains(
                        id,
                    );
            }
            assert forall|id: u32|
                crate::orm::acl_ids_of(p_acls@).difference(n_ids).contains(id)
                implies clear_total.contains(id) by {
                let j = choose|j: int|
                    0 <= j < p_acls@.len() && (#[trigger] p_acls@[j]).id == id;
            }
        }
    }
    let ghost doc_mid = document@;
    let mut emitted_d = false;
    let mut kd: usize = 0;
    proof {
        assert(acl_add_prefix(m1, n_acls@, p_acls@, 0) == m1);
    }
    while kd < n_acls.len()
        invariant
            0 <= kd <= n_acls@.len(),
            document.document_id == old(document).document_id,
            old(document)@.is_prefix_of(document@),
            doc_mid.is_prefix_of(document@),
            m0 == old(document)@.len(),
            big_m == crate::orm::acl_map_of(p_acls@),
            n_ids == crate::orm::acl_ids_of(n_acls@),
            m1 == big_m.remove_keys(acl_clear_prefix(p_acls@, n_ids, p_acls@.len() as int)),
            apply_acl(doc_mid.skip(m0), big_m) == m1,
            forall|j: int|
                0 <= j < doc_mid.skip(m0).len() ==> ((#[trigger] doc_mid.skip(m0)[j])
                    matches MutView::Acl { .. }),
            ({
                let delta = document@.skip(m0);
                &&& forall|j: int|
                    0 <= j < delta.len() ==> ((#[trigger] delta[j]) matches MutView::Acl { .. })
                &&& apply_acl(delta, big_m) == acl_add_prefix(m1, n_acls@, p_acls@, kd as int)
                &&& acl_clearset_of(delta) == clear_total
                &&& acl_addset_of(delta) == acl_adds_prefix(n_acls@, p_acls@, kd as int)
                &&& emitted_d == (exists|k: int|
                    0 <= k < kd && !p_acls@.contains(#[trigger] n_acls@[k]))
                &&& (emitted_c || emitted_d) == (delta.len() > 0)
            }),
        decreases n_acls@.len() - kd,
    {
        let e = n_acls[kd];
        let ghost delta0 = document@.skip(m0);
        let in_p = contains_acl_entry(p_acls, e);
        if !in_p {
            document.acl(e, IndexOptions::new());
            emitted_d = true;
            proof {
                let m = MutView::Acl {
                    entry: e,
                    options: IndexOptions {
                        store: false,
                        index: false,
                        tokenize: false,
                        clear: false,
                    },
                };
                assert(document@.skip(m0) =~= delta0.push(m));
                lemma_apply_acl_push(delta0, m, big_m);
                assert(acl_add_prefix(m1, n_acls@, p_acls@, kd + 1) == acl_add_prefix(
                    m1,
                    n_acls@,
                    p_acls@,
                    kd as int,
                ).insert(e.id, e));
                lemma_acl_sets_push(delta0, m);
                assert(acl_adds_prefix(n_acls@, p_acls@, kd + 1) =~= acl_adds_prefix(
                    n_acls@,
                    p_acls@,
                    kd as int,
                ).insert(e)) by {
                    assert forall|x: crate::document::AclEntry|
                        acl_adds_prefix(n_acls@, p_acls@, kd + 1).contains(x)
                        implies acl_adds_prefix(n_acls@, p_acls@, kd as int).insert(e).contains(
                        x,
                    ) by {
                        let j = choose|j: int|
                            0 <= j < kd + 1 && (#[trigger] n_acls@[j]) == x && !p_acls@.contains(
                                x,
                            );
                        if j < kd as int {
                        }
                    }
                    assert(n_acls@[kd as int] == e);
                }
            }
        } else {
            proof {
                assert(acl_add_prefix(m1, n_acls@, p_acls@, kd + 1) == acl_add_prefix(
                    m1,
                    n_acls@,
                    p_acls@,
                    kd as int,
                ));
                assert(acl_adds_prefix(n_acls@, p_acls@, kd + 1) =~= acl_adds_prefix(
                    n_acls@,
                    p_acls@,
                    kd as int,
                )) by {
                    assert forall|x: crate::document::AclEntry|
                        acl_adds_prefix(n_acls@, p_acls@, kd + 1).contains(x)
                        implies acl_adds_prefix(n_acls@, p_acls@, kd as int).contains(x) by {
                        let j = choose|j: int|
                            0 <= j < kd + 1 && (#[trigger] n_acls@[j]) == x && !p_acls@.contains(
                                x,
                            );
                        if j == kd as int {
                            assert(p_acls@.contains(e));
                        }
                    }
                }
            }
        }
        kd = kd + 1;
    }
    proof {
        let delta = document@.skip(m0);
        lemma_acl_add_prefix_props(m1, n_acls@, p_acls@, n_acls@.len() as int);
        let r = acl_add_prefix(m1, n_acls@, p_acls@, n_acls@.len() as int);
        assert(r =~= crate::orm::acl_map_of(n_acls@)) by {
            assert forall|id: u32| #[trigger] r.dom().contains(id) implies
                crate::orm::acl_map_of(n_acls@).dom().contains(id) && r[id]
                    == crate::orm::acl_map_of(n_acls@)[id] by {
                if m1.dom().contains(id) && !(exists|j: int|
                    0 <= j < n_acls@.len() && (#[trigger] n_acls@[j]).id == id && !p_acls@.contains(
                        n_acls@[j],
                    )) {
                    // kept from the stored side: its id survives the clear
                    // pass only when the incoming side still carries it
                    assert(big_m.dom().contains(id));
                    assert(!clear_total.contains(id));
                    assert(crate::orm::acl_ids_of(p_acls@).contains(id));
                    assert(n_ids.contains(id));
                    let jn = choose|j: int|
                        0 <= j < n_acls@.len() && (#[trigger] n_acls@[j]).id == id;
                    assert(p_acls@.contains(n_acls@[jn]));
                    let jp = choose|j: int| 0 <= j < p_acls@.len() && p_acls@[j] == n_acls@[jn];
                    let jp2 = choose|j: int|
                        0 <= j < p_acls@.len() && (#[trigger] p_acls@[j]).id == id;
                    assert(p_acls@[jp].id == id);
                    assert(jp == jp2);
                    assert(r[id] == m1[id]);
                    assert(m1[id] == big_m[id]);
                    assert(big_m[id] == p_acls@[jp2]);
                    let jn2 = choose|j: int|
                        0 <= j < n_acls@.len() && (#[trigger] n_acls@[j]).id == id;
                    assert(crate::orm::acl_map_of(n_acls@)[id] == n_acls@[jn2]);
                    assert(jn2 == jn);
                } else {
                    let j = choose|j: int|
                        0 <= j < n_acls@.len() && (#[trigger] n_acls@[j]).id == id
                            && !p_acls@.contains(n_acls@[j]);
                    assert(r[n_acls@[j].id] == n_acls@[j]);
                    let jn2 = choose|j2: int|
                        0 <= j2 < n_acls@.len() && (#[trigger] n_acls@[j2]).id == id;
                    assert(jn2 == j);
                    assert(crate::orm::acl_map_of(n_acls@)[id] == n_acls@[j]);
                }
            }
            assert forall|id: u32| crate::orm::acl_map_of(n_acls@).dom().contains(id)
                implies #[trigger] r.dom().contains(id) by {
                let j = choose|j: int|
                    0 <= j < n_acls@.len() && (#[trigger] n_acls@[j]).id == id;
                if p_acls@.contains(n_acls@[j]) {
                    assert(crate::orm::acl_ids_of(p_acls@).contains(id)) by {
                        let jp = choose|j2: int|
                            0 <= j2 < p_acls@.len() && p_acls@[j2] == n_acls@[j];
                        assert((p_acls@[jp]).id == id);
                    }
                    assert(!clear_total.contains(id));
                    assert(big_m.dom().contains(id));
                    assert(m1.dom().contains(id));
                } else {
                }
            }
        }
        assert(acl_clearset_of(delta) =~= crate::orm::acl_ids_of(p_acls@).difference(
            crate::orm::acl_ids_of(n_acls@),
        ));
        assert(acl_addset_of(delta) =~= Set::new(
            |e: crate::document::AclEntry| n_acls@.contains(e) && !p_acls@.contains(e),
        )) by {
            assert forall|x: crate::document::AclEntry|
                acl_adds_prefix(n_acls@, p_acls@, n_acls@.len() as int).contains(x)
                implies n_acls@.contains(x) && !p_acls@.contains(x) by {
                let j = choose|j: int|
                    0 <= j < n_acls@.len() && (#[trigger] n_acls@[j]) == x && !p_acls@.contains(
                        x,
                    );
            }
            assert forall|x: crate::document::AclEntry|
                n_acls@.contains(x) && !p_acls@.contains(x) implies acl_adds_prefix(
                n_acls@,
                p_acls@,
                n_acls@.len() as int,
            ).contains(x) by {
                let j = choose|j: int| 0 <= j < n_acls@.len() && n_acls@[j] == x;
                assert((n_acls@[j]) == x);
            }
        }
        // the emission flag matches the difference between the two sides
        assert((emitted_c || emitted_d) == (crate::orm::acl_ids_of(p_acls@).difference(
            n_ids,
        ) != Set::<u32>::empty() || exists|k: int|
            0 <= k < n_acls@.len() && !p_acls@.contains(#[trigger] n_acls@[k])));
    }
    emitted_c || emitted_d
}


/// Everything a merge promises of the document: the change flag, the exact
/// per-field index delta, the tag delta, the ACL delta, and the trailing
/// stored form.
pub open spec fn merge_post<V: Indexable>(
    p: TinyORM<V>,
    n: TinyORM<V>,
    schema: ObjectSchema,
    doc0: Document,
    doc1: Document,
    r: Result<bool, crate::errors::StoreError>,
) -> bool {
    &&& r == Ok::<bool, crate::errors::StoreError>(spec_changed(p, n))
    &&& doc1.document_id == doc0.document_id
    &&& doc0@.is_prefix_of(doc1@)
    &&& (!spec_changed(p, n) ==> doc1@ == doc0@)
    &&& ({
        let delta = doc1@.skip(doc0@.len() as int);
        &&& forall|k: int|
            0 <= k < n.properties@.len() && schema.spec_indexed(
                (#[trigger] n.properties@[k]).0,
            ) ==> apply_field(
                delta,
                (n.properties@[k]).0,
                entries_of(cur_index(p, (n.properties@[k]).0)),
            ) == entries_of(merged_index(p, (n.properties@[k]).0, n.properties@[k].1, true))
        &&& forall|j: int, g: FieldId|
            0 <= j < delta.len() && #[trigger] is_index_mut_for(delta[j], g) ==> n.prop_has(g)
                && schema.spec_indexed(g)
        &&& forall|g: FieldId| #[trigger] clears_before_adds(delta, g)
        &&& forall|k: int|
            0 <= k < n.properties@.len() && schema.spec_indexed(
                (#[trigger] n.properties@[k]).0,
            ) ==> clearset_field(delta, (n.properties@[k]).0) == spec_clears(
                p,
                (n.properties@[k]).0,
                n.properties@[k].1,
                true,
            ) && addset_field(delta, (n.properties@[k]).0) == spec_adds(
                p,
                (n.properties@[k]).0,
                n.properties@[k].1,
                true,
            )
        &&& forall|g: FieldId|
            #[trigger] n.tag_has(g) ==> apply_tag(delta, g, p.tag_set(g)) == n.tag_set(g)
        &&& forall|j: int, g: FieldId|
            0 <= j < delta.len() && #[trigger] is_tag_mut_for(delta[j], g) ==> n.tag_has(g)
        &&& forall|g: FieldId|
            #[trigger] n.tag_has(g) ==> tag_clearset_of(delta, g) == tag_clears(p, n, g)
                && tag_addset_of(delta, g) == tag_adds(p, n, g)
        &&& forall|g: FieldId| #[trigger] tag_clears_before_adds(delta, g)
        &&& apply_acl(delta, p.acl_map()) == n.acl_map()
        &&& acl_clearset_of(delta) == acl_clear_ids(p, n)
        &&& acl_addset_of(delta) == spec_acl_adds(p, n)
        &&& forall|j: int|
            0 <= j < delta.len() ==> !((#[trigger] delta[j]) matches MutView::Blob { .. })
        &&& forall|j: int|
            0 <= j < delta.len() && ((#[trigger] delta[j]) matches MutView::Binary { .. }) ==> j
                == delta.len() - 1
        &&& (spec_changed(p, n) ==> delta.len() > 0 && (delta.last() matches MutView::Binary {
            field,
            options,
            ..
        } && field == crate::orm::ORM_FIELD && options.store && !options.clear))
    })
}

impl<V: Indexable> TinyORM<V> {
    /// Byte encoding of the whole ORM, the stored form a merge appends to
    /// the document. The format is the persisting store's concern.
    fn serialize(&self) -> Vec<u8> {
        let mut out: Vec<u8> = Vec::new();
        crate::orm::push_u32_le(&mut out, self.properties.len() as u32);
        let mut i: usize = 0;
        while i < self.properties.len()
            decreases self.properties@.len() - i,
        {
            out.push(self.properties[i].0);
            self.properties[i].1.encode_value(&mut out);
            i = i + 1;
        }
        crate::orm::push_u32_le(&mut out, self.tags.len() as u32);
        i = 0;
        while i < self.tags.len()
            decreases self.tags@.len() - i,
        {
            out.push(self.tags[i].0);
            let ts = &self.tags[i].1;
            crate::orm::push_u32_le(&mut out, ts.len() as u32);
            let mut j: usize = 0;
            while j < ts.len()
                decreases ts@.len() - j,
            {
                match &ts[j] {
                    Tag::Id(x) => {
                        out.push(0);
                        crate::orm::push_u32_le(&mut out, *x);
                    },
                    Tag::Static(b) => {
                        out.push(1);
                        out.push(*b);
                    },
                    Tag::Text(t) => {
                        out.push(2);
                        crate::orm::push_str_bytes(&mut out, t.as_str());
                    },
                }
                j = j + 1;
            }
            i = i + 1;
        }
        crate::orm::push_u32_le(&mut out, self.acls.len() as u32);
        i = 0;
        while i < self.acls.len()
            decreases self.acls@.len() - i,
        {
            crate::orm::push_u32_le(&mut out, self.acls[i].id);
            crate::orm::push_u32_le(&mut out, self.acls[i].permissions);
            i = i + 1;
        }
        out
    }

    /// Appends the stored form of this ORM to the document.
    fn insert_orm(&self, document: &mut Document)
        ensures
            final(document).document_id == old(document).document_id,
            final(document)@.len() == old(document)@.len() + 1,
            old(document)@.is_prefix_of(final(document)@),
            (final(document)@.last() matches MutView::Binary { field, options, .. } && field
                == crate::orm::ORM_FIELD && options == (IndexOptions {
                store: true,
                index: false,
                tokenize: false,
                clear: false,
            })),
    {
        let bytes = self.serialize();
        document.binary(crate::orm::ORM_FIELD, bytes, IndexOptions::new().store());
    }

    /// Merges the incoming snapshot `changes` into this one: emits the
    /// exact per-field index, tag and ACL deltas into `document`, replaces
    /// the stored properties, tags and ACLs by the merged state, appends
    /// the stored form, and reports whether anything changed.
    pub fn merge(self, document: &mut Document, changes: TinyORM<V>, schema: &ObjectSchema) -> (r:
        Result<bool, crate::errors::StoreError>)
        requires
            self.wf(),
            changes.wf(),
            schema.wf(),
        ensures
            merge_post(self, changes, *schema, *old(document), *final(document), r),
    {
        let ghost p0 = self;
        let ghost n0 = old(document)@.len() as int;
        let mut orm = self;
        let mut has_changes = false;
        proof {
            assert(document@.skip(n0) =~= Seq::<MutView>::empty());
        }
        let mut i: usize = 0;
        while i < changes.properties.len()
            invariant
                0 <= i <= changes.properties@.len(),
                orm.wf(),
                p0.wf(),
                changes.wf(),
                schema.wf(),
                orm.tags@ == p0.tags@,
                orm.acls@ == p0.acls@,
                forall|g: FieldId|
                    !processed_key(changes.properties@, i as int, g) ==> (
                    #[trigger] orm.prop_has(g)) == p0.prop_has(g),
                forall|g: FieldId|
                    !processed_key(changes.properties@, i as int, g) && p0.prop_has(g) ==> (
                    #[trigger] orm.prop_at(g)) == p0.prop_at(g),
                document.document_id == old(document).document_id,
                old(document)@.is_prefix_of(document@),
                n0 == old(document)@.len(),
                ({
                    let delta = document@.skip(n0);
                    &&& forall|j: int|
                        0 <= j < delta.len() ==> ((#[trigger] delta[j]) matches MutView::Text {
                            ..
                        } || delta[j] matches MutView::Number { .. })
                    &&& forall|j: int, g: FieldId|
                        0 <= j < delta.len() && #[trigger] is_index_mut_for(delta[j], g)
                            ==> processed_key(changes.properties@, i as int, g)
                            && schema.spec_indexed(g)
                    &&& forall|k: int|
                        0 <= k < i && schema.spec_indexed((#[trigger] changes.properties@[k]).0)
                            ==> apply_field(
                            delta,
                            (changes.properties@[k]).0,
                            entries_of(cur_index(p0, (changes.properties@[k]).0)),
                        ) == entries_of(
                            merged_index(
                                p0,
                                (changes.properties@[k]).0,
                                changes.properties@[k].1,
                                true,
                            ),
                        )
                    &&& forall|g: FieldId| #[trigger] clears_before_adds(delta, g)
                    &&& forall|k: int|
                        0 <= k < i && schema.spec_indexed((#[trigger] changes.properties@[k]).0)
                            ==> clearset_field(delta, (changes.properties@[k]).0) == spec_clears(
                            p0,
                            (changes.properties@[k]).0,
                            changes.properties@[k].1,
                            true,
                        ) && addset_field(delta, (changes.properties@[k]).0) == spec_adds(
                            p0,
                            (changes.properties@[k]).0,
                            changes.properties@[k].1,
                            true,
                        )
                }),
                has_changes == (exists|k: int|
                    0 <= k < i && prop_differs(
                        p0,
                        (#[trigger] changes.properties@[k]).0,
                        changes.properties@[k].1,
                    )),
                !has_changes ==> document@ == old(document)@,
            decreases changes.properties@.len() - i,
        {
            let f = changes.properties[i].0;
            let ghost orm_pre = orm;
            let ghost doc_pre = document@;
            proof {
                assert(!processed_key(changes.properties@, i as int, f)) by {
                    if processed_key(changes.properties@, i as int, f) {
                        let k = choose|k: int|
                            0 <= k < i && (#[trigger] changes.properties@[k]).0 == f;
                        assert((changes.properties@[k]).0 == (changes.properties@[i as int]).0);
                    }
                }
            }
            let c1 = merge_one_prop(&mut orm, document, f, &changes.properties[i].1, schema);
            if c1 {
                has_changes = true;
            }
            proof {
                let nv = changes.properties@[i as int].1;
                let delta_old = doc_pre.skip(n0);
                let delta_new = document@.skip(doc_pre.len() as int);
                assert(document@.skip(n0) =~= delta_old + delta_new);
                assert(orm_pre.prop_has(f) == p0.prop_has(f));
                assert(cur_index(orm_pre, f) == cur_index(p0, f));
                assert(merged_value(orm_pre, f, nv, true) == merged_value(p0, f, nv, true));
                assert(merged_index(orm_pre, f, nv, true) == merged_index(p0, f, nv, true));
                assert(prop_differs(orm_pre, f, nv) == prop_differs(p0, f, nv));
                assert(spec_clears(orm_pre, f, nv, true) == spec_clears(p0, f, nv, true));
                assert(spec_adds(orm_pre, f, nv, true) == spec_adds(p0, f, nv, true));
                assert forall|k: int|
                    0 <= k < i + 1 && schema.spec_indexed((#[trigger] changes.properties@[k]).0)
                    implies apply_field(
                    document@.skip(n0),
                    (changes.properties@[k]).0,
                    entries_of(cur_index(p0, (changes.properties@[k]).0)),
                ) == entries_of(
                    merged_index(p0, (changes.properties@[k]).0, changes.properties@[k].1, true),
                ) by {
                    let g = (changes.properties@[k]).0;
                    let ee = entries_of(cur_index(p0, g));
                    lemma_apply_field_concat(delta_old, delta_new, g, ee);
                    if k < i {
                        assert(g != f);
                        assert forall|j: int| 0 <= j < delta_new.len() implies !is_index_mut_for(
                            #[trigger] delta_new[j],
                            g,
                        ) by {
                            if is_index_mut_for(delta_new[j], f) {
                                lemma_index_mut_field_unique(delta_new[j], f, g);
                            }
                        }
                        lemma_apply_field_untouched(delta_new, g, apply_field(delta_old, g, ee));
                    } else {
                        assert(g == f);
                        assert forall|j: int| 0 <= j < delta_old.len() implies !is_index_mut_for(
                            #[trigger] delta_old[j],
                            f,
                        ) by {
                            if is_index_mut_for(delta_old[j], f) {
                                assert(processed_key(changes.properties@, i as int, f));
                            }
                        }
                        lemma_apply_field_untouched(delta_old, f, ee);
                    }
                }
                assert forall|k: int|
                    0 <= k < i + 1 && schema.spec_indexed((#[trigger] changes.properties@[k]).0)
                    implies clearset_field(document@.skip(n0), (changes.properties@[k]).0)
                    == spec_clears(
                    p0,
                    (changes.properties@[k]).0,
                    changes.properties@[k].1,
                    true,
                ) && addset_field(document@.skip(n0), (changes.properties@[k]).0) == spec_adds(
                    p0,
                    (changes.properties@[k]).0,
                    changes.properties@[k].1,
                    true,
                ) by {
                    let g = (changes.properties@[k]).0;
                    lemma_field_sets_concat(delta_old, delta_new, g);
                    if k < i {
                        assert(g != f);
                        assert forall|j: int| 0 <= j < delta_new.len() implies !is_index_mut_for(
                            #[trigger] delta_new[j],
                            g,
                        ) by {
                            if is_index_mut_for(delta_new[j], f) {
                                lemma_index_mut_field_unique(delta_new[j], f, g);
                            }
                        }
                        lemma_field_sets_untouched(delta_new, g);
                        assert(clearset_field(delta_old, g).union(Set::<IndexEntry>::empty())
                            =~= clearset_field(delta_old, g));
                        assert(addset_field(delta_old, g).union(Set::<IndexEntry>::empty())
                            =~= addset_field(delta_old, g));
                    } else {
                        assert(g == f);
                        assert forall|j: int| 0 <= j < delta_old.len() implies !is_index_mut_for(
                            #[trigger] delta_old[j],
                            f,
                        ) by {
                            if is_index_mut_for(delta_old[j], f) {
                                assert(processed_key(changes.properties@, i as int, f));
                            }
                        }
                        lemma_field_sets_untouched(delta_old, f);
                        assert(Set::<IndexEntry>::empty().union(clearset_field(delta_new, f))
                            =~= clearset_field(delta_new, f));
                        assert(Set::<IndexEntry>::empty().union(addset_field(delta_new, f))
                            =~= addset_field(delta_new, f));
                    }
                }
                assert forall|j: int, g: FieldId|
                    0 <= j < document@.skip(n0).len() && #[trigger] is_index_mut_for(
                    document@.skip(n0)[j],
                    g,
                ) implies processed_key(changes.properties@, (i + 1) as int, g)
                    && schema.spec_indexed(g) by {
                    let d = document@.skip(n0);
                    if j < delta_old.len() {
                        assert(d[j] == delta_old[j]);
                        assert(processed_key(changes.properties@, i as int, g));
                        let k = choose|k: int|
                            0 <= k < i && (#[trigger] changes.properties@[k]).0 == g;
                    } else {
                        assert(d[j] == delta_new[j - delta_old.len()]);
                        assert(is_index_mut_for(delta_new[j - delta_old.len()], f));
                        assert(g == f) by {
                            if g != f {
                                lemma_index_mut_field_unique(delta_new[j - delta_old.len()], f, g);
                            }
                        }
                        assert((changes.properties@[i as int]).0 == f);
                        assert(delta_new.len() > 0);
                        assert(schema.spec_indexed(f));
                    }
                }
                assert forall|j: int| 0 <= j < document@.skip(n0).len() implies ((
                #[trigger] document@.skip(n0)[j]) matches MutView::Text { .. } || document@.skip(
                    n0,
                )[j] matches MutView::Number { .. }) by {
                    let d = document@.skip(n0);
                    if j < delta_old.len() {
                        assert(d[j] == delta_old[j]);
                    } else {
                        assert(d[j] == delta_new[j - delta_old.len()]);
                        assert(is_index_mut_for(delta_new[j - delta_old.len()], f));
                    }
                }
                assert forall|g: FieldId| #[trigger] clears_before_adds(
                    document@.skip(n0),
                    g,
                ) by {
                    if g == f {
                        assert forall|j: int| 0 <= j < delta_old.len()
                            implies !crate::indexing::is_field_add(#[trigger] delta_old[j], f) by {
                            if is_index_mut_for(delta_old[j], f) {
                                assert(processed_key(changes.properties@, i as int, f));
                            }
                        }
                        assert(clears_before_adds(delta_old, f)) by {
                            assert forall|a: int, b: int|
                                0 <= a < b < delta_old.len() && crate::indexing::is_field_add(
                                    #[trigger] delta_old[a],
                                    f,
                                ) implies !crate::indexing::is_field_clear(
                                #[trigger] delta_old[b],
                                f,
                            ) by {}
                        }
                        lemma_cba_concat(delta_old, delta_new, g);
                    } else {
                        assert forall|j: int| 0 <= j < delta_new.len()
                            implies !is_index_mut_for(#[trigger] delta_new[j], g) by {
                            if is_index_mut_for(delta_new[j], f) {
                                lemma_index_mut_field_unique(delta_new[j], f, g);
                            }
                        }
                        assert(clears_before_adds(delta_new, g)) by {
                            assert forall|a: int, b: int|
                                0 <= a < b < delta_new.len() && crate::indexing::is_field_add(
                                    #[trigger] delta_new[a],
                                    g,
                                ) implies !crate::indexing::is_field_clear(
                                #[trigger] delta_new[b],
                                g,
                            ) by {}
                        }
                        lemma_cba_concat(delta_old, delta_new, g);
                    }
                    assert(document@.skip(n0) =~= delta_old + delta_new);
                }
                if !has_changes {
                    assert(delta_new.len() == 0);
                    assert(document@ =~= doc_pre);
                }
                assert(has_changes == (exists|k: int|
                    0 <= k < i + 1 && prop_differs(
                        p0,
                        (#[trigger] changes.properties@[k]).0,
                        changes.properties@[k].1,
                    ))) by {
                    if c1 {
                        assert(prop_differs(
                            p0,
                            (changes.properties@[i as int]).0,
                            changes.properties@[i as int].1,
                        ));
                    }
                }
            }
            i = i + 1;
        }
        let ghost doc_p_end = document@;
        let emitted_t = emit_tag_pass(document, &orm.tags, &changes.tags);
        if emitted_t {
            has_changes = true;
        }
        let ghost doc_t_end = document@;
        let emitted_a = emit_acl_pass(document, &orm.acls, &changes.acls);
        if emitted_a {
            has_changes = true;
        }
        let ghost doc_a_end = document@;
        orm.tags = changes.tags;
        orm.acls = changes.acls;
        if has_changes {
            orm.insert_orm(document);
        }
        proof {
            let dp = doc_p_end.skip(n0);
            let dt = doc_t_end.skip(doc_p_end.len() as int);
            let da = doc_a_end.skip(doc_t_end.len() as int);
            let db = document@.skip(doc_a_end.len() as int);
            let total = document@.skip(n0);
            assert(total =~= dp + (dt + (da + db)));
            let rest = dt + (da + db);
            // the change flag agrees with the specification
            assert(emitted_t == tags_changed(p0, changes)) by {
                if emitted_t {
                    let g = choose|g: FieldId|
                        #[trigger] crate::orm::assoc_has(changes.tags@, g) && (
                        crate::orm::tagset_of(p0.tags@, g).difference(
                            crate::orm::tagset_of(changes.tags@, g),
                        ) != Set::<TagView>::empty() || crate::orm::tagset_of(
                            changes.tags@,
                            g,
                        ).difference(crate::orm::tagset_of(p0.tags@, g))
                            != Set::<TagView>::empty());
                    assert(changes.tag_has(g));
                    assert(tag_clears(p0, changes, g) != Set::<TagView>::empty() || tag_adds(
                        p0,
                        changes,
                        g,
                    ) != Set::<TagView>::empty());
                } else {
                    if tags_changed(p0, changes) {
                        let g = choose|g: FieldId|
                            #![trigger changes.tag_has(g)]
                            changes.tag_has(g) && (tag_clears(p0, changes, g)
                                != Set::<TagView>::empty() || tag_adds(p0, changes, g)
                                != Set::<TagView>::empty());
                        assert(crate::orm::assoc_has(changes.tags@, g) && (
                        crate::orm::tagset_of(p0.tags@, g).difference(
                            crate::orm::tagset_of(changes.tags@, g),
                        ) != Set::<TagView>::empty() || crate::orm::tagset_of(
                            changes.tags@,
                            g,
                        ).difference(crate::orm::tagset_of(p0.tags@, g))
                            != Set::<TagView>::empty()));
                    }
                }
            }
            assert(emitted_a == acls_changed(p0, changes));
            assert(has_changes == spec_changed(p0, changes));
            // nothing emitted means an untouched document
            if !has_changes {
                assert(doc_p_end =~= old(document)@);
                assert(dt.len() == 0);
                assert(doc_p_end =~= doc_t_end.take(doc_p_end.len() as int));
                assert(doc_t_end.take(doc_t_end.len() as int) =~= doc_t_end);
                assert(doc_t_end =~= doc_p_end);
                assert(da.len() == 0);
                assert(doc_t_end =~= doc_a_end.take(doc_t_end.len() as int));
                assert(doc_a_end.take(doc_a_end.len() as int) =~= doc_a_end);
                assert(doc_a_end =~= doc_t_end);
                assert(document@ =~= doc_a_end);
                assert(document@ =~= old(document)@);
            }
            // shapes of the later parts
            assert(forall|j: int|
                0 <= j < dt.len() ==> ((#[trigger] dt[j]) matches MutView::Tag { .. }));
            assert(forall|j: int|
                0 <= j < da.len() ==> ((#[trigger] da[j]) matches MutView::Acl { .. }));
            assert(forall|j: int|
                0 <= j < db.len() ==> ((#[trigger] db[j]) matches MutView::Binary { .. }));
            // per-field index law over the whole delta
            assert forall|k: int|
                0 <= k < changes.properties@.len() && schema.spec_indexed(
                    (#[trigger] changes.properties@[k]).0,
                ) implies apply_field(
                total,
                (changes.properties@[k]).0,
                entries_of(cur_index(p0, (changes.properties@[k]).0)),
            ) == entries_of(
                merged_index(p0, (changes.properties@[k]).0, changes.properties@[k].1, true),
            ) by {
                let g = (changes.properties@[k]).0;
                let ee = entries_of(cur_index(p0, g));
                lemma_apply_field_concat(dp, rest, g, ee);
                assert forall|j: int| 0 <= j < rest.len() implies !is_index_mut_for(
                    #[trigger] rest[j],
                    g,
                ) by {
                    if j < dt.len() {
                        assert(rest[j] == dt[j]);
                    } else if j < dt.len() + da.len() {
                        assert(rest[j] == da[j - dt.len()]);
                    } else {
                        assert(rest[j] == db[j - dt.len() - da.len()]);
                    }
                }
                lemma_apply_field_untouched(rest, g, apply_field(dp, g, ee));
            }
            // tag law over the whole delta
            assert forall|g: FieldId| #[trigger] changes.tag_has(g) implies apply_tag(
                total,
                g,
                p0.tag_set(g),
            ) == changes.tag_set(g) by {
                let ts = p0.tag_set(g);
                lemma_apply_tag_concat(dp, rest, g, ts);
                assert forall|j: int| 0 <= j < dp.len() implies !is_tag_mut_for(
                    #[trigger] dp[j],
                    g,
                ) by {}
                lemma_apply_tag_untouched(dp, g, ts);
                lemma_apply_tag_concat(dt, da + db, g, ts);
                assert(rest =~= dt + (da + db));
                assert forall|j: int| 0 <= j < (da + db).len() implies !is_tag_mut_for(
                    #[trigger] (da + db)[j],
                    g,
                ) by {
                    if j < da.len() {
                        assert((da + db)[j] == da[j]);
                    } else {
                        assert((da + db)[j] == db[j - da.len()]);
                    }
                }
                assert(crate::orm::tagset_of(p0.tags@, g) == p0.tag_set(g));
                assert(apply_tag(dt, g, ts) == changes.tag_set(g));
                lemma_apply_tag_untouched(da + db, g, apply_tag(dt, g, ts));
            }
            // exact tag emission sets per incoming tag field
            assert forall|g: FieldId| #[trigger] changes.tag_has(g) implies tag_clearset_of(
                total,
                g,
            ) == tag_clears(p0, changes, g) && tag_addset_of(total, g) == tag_adds(
                p0,
                changes,
                g,
            ) by {
                lemma_tag_sets_concat(dp, rest, g);
                lemma_tag_sets_concat(dt, da + db, g);
                assert(rest =~= dt + (da + db));
                assert forall|j: int| 0 <= j < dp.len() implies !is_tag_mut_for(
                    #[trigger] dp[j],
                    g,
                ) by {}
                lemma_tag_sets_untouched(dp, g);
                assert forall|j: int| 0 <= j < (da + db).len() implies !is_tag_mut_for(
                    #[trigger] (da + db)[j],
                    g,
                ) by {
                    if j < da.len() {
                        assert((da + db)[j] == da[j]);
                    } else {
                        assert((da + db)[j] == db[j - da.len()]);
                    }
                }
                lemma_tag_sets_untouched(da + db, g);
                assert(crate::orm::tagset_of(p0.tags@, g) == p0.tag_set(g));
                assert(tag_clearset_of(dt, g) == p0.tag_set(g).difference(changes.tag_set(g)));
                assert(tag_addset_of(dt, g) == changes.tag_set(g).difference(p0.tag_set(g)));
                assert(Set::<TagView>::empty().union(
                    tag_clearset_of(dt, g).union(Set::<TagView>::empty()),
                ) =~= tag_clearset_of(dt, g));
                assert(Set::<TagView>::empty().union(
                    tag_addset_of(dt, g).union(Set::<TagView>::empty()),
                ) =~= tag_addset_of(dt, g));
            }
            // tag clears precede tag adds over the whole delta
            assert forall|g: FieldId| #[trigger] tag_clears_before_adds(total, g) by {
                assert forall|j: int| 0 <= j < dp.len() implies !is_tag_add(
                    #[trigger] dp[j],
                    g,
                ) by {}
                assert forall|j: int| 0 <= j < (da + db).len() implies !is_tag_clear(
                    #[trigger] (da + db)[j],
                    g,
                ) by {
                    if j < da.len() {
                        assert((da + db)[j] == da[j]);
                    } else {
                        assert((da + db)[j] == db[j - da.len()]);
                    }
                }
                assert(tag_clears_before_adds(dp, g)) by {
                    assert forall|a: int, b: int|
                        0 <= a < b < dp.len() && is_tag_add(#[trigger] dp[a], g)
                        implies !is_tag_clear(#[trigger] dp[b], g) by {}
                }
                assert(tag_clears_before_adds(da + db, g)) by {
                    assert forall|a: int, b: int|
                        0 <= a < b < (da + db).len() && is_tag_add(#[trigger] (da + db)[a], g)
                        implies !is_tag_clear(#[trigger] (da + db)[b], g) by {
                        if b < da.len() {
                            assert((da + db)[b] == da[b]);
                        } else {
                            assert((da + db)[b] == db[b - da.len()]);
                        }
                    }
                }
                lemma_tag_cba_concat(dt, da + db, g);
                lemma_tag_cba_concat(dp, dt + (da + db), g);
                assert(total =~= dp + (dt + (da + db)));
            }
            // tag-mutation frame over the whole delta
            assert forall|j: int, g: FieldId|
                0 <= j < total.len() && #[trigger] is_tag_mut_for(total[j], g)
                implies changes.tag_has(g) by {
                if j < dp.len() {
                    assert(total[j] == dp[j]);
                } else if j < dp.len() + dt.len() {
                    assert(total[j] == dt[j - dp.len()]);
                    assert(is_tag_mut_for(dt[j - dp.len()], g));
                } else if j < dp.len() + dt.len() + da.len() {
                    assert(total[j] == da[j - dp.len() - dt.len()]);
                } else {
                    assert(total[j] == db[j - dp.len() - dt.len() - da.len()]);
                }
            }
            // index-mutation frame over the whole delta
            assert forall|j: int, g: FieldId|
                0 <= j < total.len() && #[trigger] is_index_mut_for(total[j], g)
                implies changes.prop_has(g) && schema.spec_indexed(g) by {
                if j < dp.len() {
                    assert(total[j] == dp[j]);
                    assert(processed_key(changes.properties@, changes.properties@.len() as int, g));
                    let k = choose|k: int|
                        0 <= k < changes.properties@.len() && (
                        #[trigger] changes.properties@[k]).0 == g;
                } else if j < dp.len() + dt.len() {
                    assert(total[j] == dt[j - dp.len()]);
                } else if j < dp.len() + dt.len() + da.len() {
                    assert(total[j] == da[j - dp.len() - dt.len()]);
                } else {
                    assert(total[j] == db[j - dp.len() - dt.len() - da.len()]);
                }
            }
            // ACL law over the whole delta
            assert(apply_acl(total, p0.acl_map()) == changes.acl_map()) by {
                let m = p0.acl_map();
                lemma_apply_acl_concat(dp, rest, m);
                assert forall|j: int| 0 <= j < dp.len() implies !((#[trigger] dp[j])
                    matches MutView::Acl { .. }) by {}
                crate::indexing::lemma_apply_acl_untouched(dp, m);
                lemma_apply_acl_concat(dt, da + db, m);
                assert(rest =~= dt + (da + db));
                assert forall|j: int| 0 <= j < dt.len() implies !((#[trigger] dt[j])
                    matches MutView::Acl { .. }) by {}
                crate::indexing::lemma_apply_acl_untouched(dt, m);
                lemma_apply_acl_concat(da, db, m);
                assert(crate::orm::acl_map_of(p0.acls@) == p0.acl_map());
                assert(apply_acl(da, m) == changes.acl_map());
                assert forall|j: int| 0 <= j < db.len() implies !((#[trigger] db[j])
                    matches MutView::Acl { .. }) by {}
                crate::indexing::lemma_apply_acl_untouched(db, apply_acl(da, m));
            }
            // exact ACL emission sets
            assert(acl_clearset_of(total) == acl_clear_ids(p0, changes) && acl_addset_of(total)
                == spec_acl_adds(p0, changes)) by {
                lemma_acl_sets_concat(dp, rest);
                lemma_acl_sets_concat(dt, da + db);
                lemma_acl_sets_concat(da, db);
                assert(rest =~= dt + (da + db));
                assert forall|j: int| 0 <= j < dp.len() implies !((#[trigger] dp[j])
                    matches MutView::Acl { .. }) by {}
                lemma_acl_sets_untouched(dp);
                assert forall|j: int| 0 <= j < dt.len() implies !((#[trigger] dt[j])
                    matches MutView::Acl { .. }) by {}
                lemma_acl_sets_untouched(dt);
                assert forall|j: int| 0 <= j < db.len() implies !((#[trigger] db[j])
                    matches MutView::Acl { .. }) by {}
                lemma_acl_sets_untouched(db);
                assert(acl_clearset_of(da) == crate::orm::acl_ids_of(p0.acls@).difference(
                    crate::orm::acl_ids_of(changes.acls@),
                ));
                assert(acl_addset_of(da) =~= spec_acl_adds(p0, changes));
                assert(acl_clearset_of(total) =~= acl_clearset_of(da));
                assert(acl_addset_of(total) =~= acl_addset_of(da));
                assert(acl_clear_ids(p0, changes) =~= crate::orm::acl_ids_of(
                    p0.acls@,
                ).difference(crate::orm::acl_ids_of(changes.acls@)));
            }
            // the emitted clear and add sets per incoming indexed field
            assert forall|k: int|
                0 <= k < changes.properties@.len() && schema.spec_indexed(
                    (#[trigger] changes.properties@[k]).0,
                ) implies clearset_field(total, (changes.properties@[k]).0) == spec_clears(
                p0,
                (changes.properties@[k]).0,
                changes.properties@[k].1,
                true,
            ) && addset_field(total, (changes.properties@[k]).0) == spec_adds(
                p0,
                (changes.properties@[k]).0,
                changes.properties@[k].1,
                true,
            ) by {
                let g = (changes.properties@[k]).0;
                lemma_field_sets_concat(dp, rest, g);
                assert forall|j: int| 0 <= j < rest.len() implies !is_index_mut_for(
                    #[trigger] rest[j],
                    g,
                ) by {
                    if j < dt.len() {
                        assert(rest[j] == dt[j]);
                    } else if j < dt.len() + da.len() {
                        assert(rest[j] == da[j - dt.len()]);
                    } else {
                        assert(rest[j] == db[j - dt.len() - da.len()]);
                    }
                }
                lemma_field_sets_untouched(rest, g);
                assert(clearset_field(dp, g).union(Set::<IndexEntry>::empty()) =~= clearset_field(
                    dp,
                    g,
                ));
                assert(addset_field(dp, g).union(Set::<IndexEntry>::empty()) =~= addset_field(
                    dp,
                    g,
                ));
            }
            // clears precede adds over the whole delta, field by field
            assert forall|g: FieldId| #[trigger] clears_before_adds(total, g) by {
                assert forall|j: int| 0 <= j < rest.len() implies !is_index_mut_for(
                    #[trigger] rest[j],
                    g,
                ) by {
                    if j < dt.len() {
                        assert(rest[j] == dt[j]);
                    } else if j < dt.len() + da.len() {
                        assert(rest[j] == da[j - dt.len()]);
                    } else {
                        assert(rest[j] == db[j - dt.len() - da.len()]);
                    }
                }
                assert(clears_before_adds(rest, g)) by {
                    assert forall|a: int, b: int|
                        0 <= a < b < rest.len() && crate::indexing::is_field_add(
                            #[trigger] rest[a],
                            g,
                        ) implies !crate::indexing::is_field_clear(#[trigger] rest[b], g) by {}
                }
                lemma_cba_concat(dp, rest, g);
                assert(total =~= dp + rest);
            }
            // no blob mutation anywhere, binary only at the very end
            assert forall|j: int| 0 <= j < total.len() implies !((#[trigger] total[j])
                matches MutView::Blob { .. }) by {
                if j < dp.len() {
                    assert(total[j] == dp[j]);
                } else if j < dp.len() + dt.len() {
                    assert(total[j] == dt[j - dp.len()]);
                } else if j < dp.len() + dt.len() + da.len() {
                    assert(total[j] == da[j - dp.len() - dt.len()]);
                } else {
                    assert(total[j] == db[j - dp.len() - dt.len() - da.len()]);
                }
            }
            assert forall|j: int|
                0 <= j < total.len() && ((#[trigger] total[j]) matches MutView::Binary { .. })
                implies j == total.len() - 1 by {
                if j < dp.len() {
                    assert(total[j] == dp[j]);
                } else if j < dp.len() + dt.len() {
                    assert(total[j] == dt[j - dp.len()]);
                } else if j < dp.len() + dt.len() + da.len() {
                    assert(total[j] == da[j - dp.len() - dt.len()]);
                } else {
                    assert(total[j] == db[j - dp.len() - dt.len() - da.len()]);
                    assert(db.len() == 1);
                }
            }
            if has_changes {
                assert(db.len() == 1);
                assert(total.last() == db.last());
            }
        }
        Ok(has_changes)
    }

    /// Validates the required-property gate, then merges: for each required
    /// property, the incoming snapshot may neither set it empty nor omit it
    /// while it was never stored.
    pub fn merge_validate(
        self,
        document: &mut Document,
        changes: TinyORM<V>,
        schema: &ObjectSchema,
    ) -> (r: Result<bool, crate::errors::SetError>)
        requires
            self.wf(),
            changes.wf(),
            schema.wf(),
        ensures
            (r is Err) == (exists|k: int|
                0 <= k < schema.required@.len() && required_violation(
                    self,
                    changes,
                    #[trigger] schema.required@[k],
                )),
            r matches Err(e) ==> (e matches crate::errors::SetError::InvalidProperty {
                property,
                description,
            } && description@ == "Property cannot be empty."@ && (exists|k: int|
                0 <= k < schema.required@.len() && (#[trigger] schema.required@[k]) == property
                    && required_violation(self, changes, property) && (forall|j: int|
                    0 <= j < k ==> !required_violation(
                        self,
                        changes,
                        #[trigger] schema.required@[j],
                    )))) && *final(document) == *old(document),
            r matches Ok(flag) ==> merge_post(
                self,
                changes,
                *schema,
                *old(document),
                *final(document),
                Ok(flag),
            ),
    {
        let mut k: usize = 0;
        while k < schema.required.len()
            invariant
                0 <= k <= schema.required@.len(),
                self.wf(),
                changes.wf(),
                schema.wf(),
                forall|j: int|
                    0 <= j < k ==> !required_violation(
                        self,
                        changes,
                        #[trigger] schema.required@[j],
                    ),
            decreases schema.required@.len() - k,
        {
            let f = schema.required[k];
            let empty_now = match changes.get(f) {
                Some(v) => v.is_empty_value(),
                None => self.get(f).is_none(),
            };
            if empty_now {
                proof {
                    reveal_strlit("Property cannot be empty.");
                    assert(required_violation(self, changes, f));
                    assert((#[trigger] schema.required@[k as int]) == f);
                }
                return Err(crate::errors::SetError::invalid_property(
                    f,
                    crate::orm::cannot_be_empty(),
                ));
            }
            k = k + 1;
        }
        match self.merge(document, changes, schema) {
            Ok(b) => Ok(b),
            Err(e) => Err(crate::errors::SetError::Store { error: e }),
        }
    }
}


/// Merging an ORM with an identical snapshot emits no mutation and reports
/// no change: the document is exactly as it was.
pub proof fn lemma_merge_identity<V: Indexable>(
    p: TinyORM<V>,
    n: TinyORM<V>,
    schema: ObjectSchema,
    doc0: Document,
    doc1: Document,
    r: Result<bool, crate::errors::StoreError>,
)
    requires
        merge_post(p, n, schema, doc0, doc1, r),
        forall|k: int|
            0 <= k < n.properties@.len() ==> p.prop_has((#[trigger] n.properties@[k]).0)
                && p.prop_at((n.properties@[k]).0)@ == n.properties@[k].1@,
        forall|g: FieldId| #[trigger] n.tag_has(g) ==> p.tag_set(g) == n.tag_set(g),
        p.acls@ == n.acls@,
    ensures
        r == Ok::<bool, crate::errors::StoreError>(false),
        doc1@ == doc0@,
{
    assert(!props_changed(p, n));
    assert(!tags_changed(p, n)) by {
        if tags_changed(p, n) {
            let g = choose|g: FieldId|
                #![trigger n.tag_has(g)]
                n.tag_has(g) && (tag_clears(p, n, g) != Set::<TagView>::empty() || tag_adds(
                    p,
                    n,
                    g,
                ) != Set::<TagView>::empty());
            assert(p.tag_set(g) == n.tag_set(g));
            assert(tag_clears(p, n, g) =~= Set::<TagView>::empty());
            assert(tag_adds(p, n, g) =~= Set::<TagView>::empty());
        }
    }
    assert(!acls_changed(p, n)) by {
        assert(p.acl_ids() == n.acl_ids());
        assert(acl_clear_ids(p, n) =~= Set::<u32>::empty());
        if exists|k: int| 0 <= k < n.acls@.len() && !p.acls@.contains(#[trigger] n.acls@[k]) {
            let k = choose|k: int|
                0 <= k < n.acls@.len() && !p.acls@.contains(#[trigger] n.acls@[k]);
            assert(p.acls@[k] == n.acls@[k]);
        }
    }
}

/// Across two successive merges of one indexed property, the emitted clear
/// mutations exactly cancel the prior adds: applying both deltas in order
/// to the initial index state of the field lands on the index state of the
/// finally stored value.
pub proof fn lemma_merge_compose<V: Indexable>(
    p: TinyORM<V>,
    n1: TinyORM<V>,
    p1: TinyORM<V>,
    n2: TinyORM<V>,
    schema: ObjectSchema,
    doc0: Document,
    doc1: Document,
    doc2: Document,
    r1: Result<bool, crate::errors::StoreError>,
    r2: Result<bool, crate::errors::StoreError>,
    k1: int,
    k2: int,
)
    requires
        merge_post(p, n1, schema, doc0, doc1, r1),
        merge_post(p1, n2, schema, doc1, doc2, r2),
        0 <= k1 < n1.properties@.len(),
        0 <= k2 < n2.properties@.len(),
        (n1.properties@[k1]).0 == (n2.properties@[k2]).0,
        schema.spec_indexed((n1.properties@[k1]).0),
        // the second snapshot starts from what the first merge stored
        cur_index(p1, (n1.properties@[k1]).0) == merged_index(
            p,
            (n1.properties@[k1]).0,
            n1.properties@[k1].1,
            true,
        ),
    ensures
        apply_field(
            doc2@.skip(doc0@.len() as int),
            (n1.properties@[k1]).0,
            entries_of(cur_index(p, (n1.properties@[k1]).0)),
        ) == entries_of(merged_index(p1, (n2.properties@[k2]).0, n2.properties@[k2].1, true)),
{
    let f = (n1.properties@[k1]).0;
    let d1 = doc1@.skip(doc0@.len() as int);
    let d2 = doc2@.skip(doc1@.len() as int);
    assert(doc2@.skip(doc0@.len() as int) =~= d1 + d2) by {
        assert(doc0@.is_prefix_of(doc1@));
        assert(doc1@.is_prefix_of(doc2@));
        assert forall|j: int| 0 <= j < doc1@.len() implies doc2@[j] == doc1@[j] by {
            assert(doc1@ =~= doc2@.take(doc1@.len() as int));
        }
    }
    lemma_apply_field_concat(d1, d2, f, entries_of(cur_index(p, f)));
}


/// The index set of a merged indexed property is exactly the prior index
/// state of its field minus the entries the merge cleared plus the entries
/// it added: the emitted clears cancel prior state, the emitted adds land
/// on top, and together they pin the stored value's index set.
pub proof fn lemma_index_set_tracks_emissions<V: Indexable>(
    p: TinyORM<V>,
    n: TinyORM<V>,
    schema: ObjectSchema,
    doc0: Document,
    doc1: Document,
    r: Result<bool, crate::errors::StoreError>,
    k: int,
)
    requires
        merge_post(p, n, schema, doc0, doc1, r),
        0 <= k < n.properties@.len(),
        schema.spec_indexed((n.properties@[k]).0),
    ensures
        ({
            let f = (n.properties@[k]).0;
            let delta = doc1@.skip(doc0@.len() as int);
            entries_of(merged_index(p, f, n.properties@[k].1, true)) == entries_of(
                cur_index(p, f),
            ).difference(clearset_field(delta, f)).union(addset_field(delta, f))
        }),
{
    let f = (n.properties@[k]).0;
    let delta = doc1@.skip(doc0@.len() as int);
    lemma_clears_cancel_adds(delta, f, entries_of(cur_index(p, f)));
}

} // verus!