//! Mathematical model of the index state of one document field, and of how
//! a sequence of emitted mutations acts on it: an `add` mutation inserts an
//! entry, a `clear` mutation removes it.

use vstd::prelude::*;

use crate::document::{MutView, TagView};
use crate::errors::FieldId;
use crate::orm::IndexView;

verus! {

/// One index posting of a field: a text entry or a numeric entry.
pub enum IndexEntry {
    T(Seq<char>),
    N(u64),
}

/// The set of index entries denoted by a sequence of text values.
pub open spec fn text_entries(l: Seq<Seq<char>>) -> Set<IndexEntry> {
    Set::new(
        |e: IndexEntry| exists|i: int| 0 <= i < l.len() && e == IndexEntry::T(#[trigger] l[i]),
    )
}

/// The set of index entries denoted by a sequence of integer values.
pub open spec fn num_entries(l: Seq<u32>) -> Set<IndexEntry> {
    Set::new(
        |e: IndexEntry|
            exists|i: int| 0 <= i < l.len() && e == IndexEntry::N((#[trigger] l[i]) as u64),
    )
}

/// The set of index entries denoted by an indexable value.
pub open spec fn entries_of(iv: IndexView) -> Set<IndexEntry> {
    match iv {
        IndexView::Null => Set::empty(),
        IndexView::Text(s) => Set::empty().insert(IndexEntry::T(s)),
        IndexView::TextList(l) => text_entries(l),
        IndexView::Integer(i) => Set::empty().insert(IndexEntry::N(i as u64)),
        IndexView::IntegerList(l) => num_entries(l),
        IndexView::LongInteger(i) => Set::empty().insert(IndexEntry::N(i)),
    }
}

/// Whether a mutation is a text or number index mutation of field `f`.
pub open spec fn is_index_mut_for(m: MutView, f: FieldId) -> bool {
    match m {
        MutView::Text { field, .. } => field == f,
        MutView::Number { field, .. } => field == f,
        _ => false,
    }
}

/// The entry that a text or number mutation speaks of.
pub open spec fn mut_entry(m: MutView) -> IndexEntry {
    match m {
        MutView::Text { value, .. } => IndexEntry::T(value),
        MutView::Number { value, .. } => IndexEntry::N(value),
        _ => IndexEntry::N(0),
    }
}

/// Whether a mutation carries the `clear` option.
pub open spec fn mut_is_clear(m: MutView) -> bool {
    match m {
        MutView::Text { options, .. } => options.clear,
        MutView::Number { options, .. } => options.clear,
        MutView::Tag { options, .. } => options.clear,
        MutView::Acl { options, .. } => options.clear,
        MutView::Blob { options, .. } => options.clear,
        MutView::Binary { options, .. } => options.clear,
    }
}

/// One step of applying a mutation to the index state of field `f`.
pub open spec fn step_field(s: Set<IndexEntry>, m: MutView, f: FieldId) -> Set<IndexEntry> {
    if is_index_mut_for(m, f) {
        if mut_is_clear(m) {
            s.remove(mut_entry(m))
        } else {
            s.insert(mut_entry(m))
        }
    } else {
        s
    }
}

/// The index state of field `f` after applying `muts` in order to `init`.
pub open spec fn apply_field(muts: Seq<MutView>, f: FieldId, init: Set<IndexEntry>) -> Set<
    IndexEntry,
>
    decreases muts.len(),
{
    if muts.len() == 0 {
        init
    } else {
        step_field(apply_field(muts.drop_last(), f, init), muts.last(), f)
    }
}

/// Whether a mutation is a tag mutation of field `f`.
pub open spec fn is_tag_mut_for(m: MutView, f: FieldId) -> bool {
    m matches MutView::Tag { field, .. } && field == f
}

/// The tag a tag mutation speaks of.
pub open spec fn mut_tag(m: MutView) -> TagView {
    match m {
        MutView::Tag { tag, .. } => tag,
        _ => TagView::Id(0),
    }
}

/// One step of applying a mutation to the tag state of field `f`.
pub open spec fn step_tag(s: Set<TagView>, m: MutView, f: FieldId) -> Set<TagView> {
    if is_tag_mut_for(m, f) {
        if mut_is_clear(m) {
            s.remove(mut_tag(m))
        } else {
            s.insert(mut_tag(m))
        }
    } else {
        s
    }
}

/// The tag state of field `f` after applying `muts` in order to `init`.
pub open spec fn apply_tag(muts: Seq<MutView>, f: FieldId, init: Set<TagView>) -> Set<TagView>
    decreases muts.len(),
{
    if muts.len() == 0 {
        init
    } else {
        step_tag(apply_tag(muts.drop_last(), f, init), muts.last(), f)
    }
}

/// One step of applying a mutation to the ACL state, a map keyed by entry
/// id: a `clear` removes the id, an add stores the entry under its id.
pub open spec fn step_acl(s: Map<u32, crate::document::AclEntry>, m: MutView) -> Map<
    u32,
    crate::document::AclEntry,
> {
    match m {
        MutView::Acl { entry, options } => {
            if options.clear {
                s.remove(entry.id)
            } else {
                s.insert(entry.id, entry)
            }
        },
        _ => s,
    }
}

/// The ACL state after applying `muts` in order to `init`.
pub open spec fn apply_acl(
    muts: Seq<MutView>,
    init: Map<u32, crate::document::AclEntry>,
) -> Map<u32, crate::document::AclEntry>
    decreases muts.len(),
{
    if muts.len() == 0 {
        init
    } else {
        step_acl(apply_acl(muts.drop_last(), init), muts.last())
    }
}

/// Appending one mutation applies one step.
pub proof fn lemma_apply_field_push(muts: Seq<MutView>, m: MutView, f: FieldId, init: Set<
    IndexEntry,
>)
    ensures
        apply_field(muts.push(m), f, init) == step_field(apply_field(muts, f, init), m, f),
{
    assert(muts.push(m).drop_last() =~= muts);
    assert(muts.push(m).last() == m);
}

/// Appending one mutation applies one tag step.
pub proof fn lemma_apply_tag_push(muts: Seq<MutView>, m: MutView, f: FieldId, init: Set<TagView>)
    ensures
        apply_tag(muts.push(m), f, init) == step_tag(apply_tag(muts, f, init), m, f),
{
    assert(muts.push(m).drop_last() =~= muts);
    assert(muts.push(m).last() == m);
}

/// Appending one mutation applies one ACL step.
pub proof fn lemma_apply_acl_push(muts: Seq<MutView>, m: MutView, init: Map<
    u32,
    crate::document::AclEntry,
>)
    ensures
        apply_acl(muts.push(m), init) == step_acl(apply_acl(muts, init), m),
{
    assert(muts.push(m).drop_last() =~= muts);
    assert(muts.push(m).last() == m);
}

/// A run of mutations none of which touches field `f` leaves its index
/// state alone.
pub proof fn lemma_apply_field_untouched(muts: Seq<MutView>, f: FieldId, init: Set<IndexEntry>)
    requires
        forall|j: int| 0 <= j < muts.len() ==> !is_index_mut_for(#[trigger] muts[j], f),
    ensures
        apply_field(muts, f, init) == init,
    decreases muts.len(),
{
    if muts.len() > 0 {
        lemma_apply_field_untouched(muts.drop_last(), f, init);
    }
}

/// A run of mutations none of which is a tag mutation of field `f` leaves
/// its tag state alone.
pub proof fn lemma_apply_tag_untouched(muts: Seq<MutView>, f: FieldId, init: Set<TagView>)
    requires
        forall|j: int| 0 <= j < muts.len() ==> !is_tag_mut_for(#[trigger] muts[j], f),
    ensures
        apply_tag(muts, f, init) == init,
    decreases muts.len(),
{
    if muts.len() > 0 {
        lemma_apply_tag_untouched(muts.drop_last(), f, init);
    }
}

/// Applying a concatenation applies the two runs in order.
pub proof fn lemma_apply_field_concat(a: Seq<MutView>, b: Seq<MutView>, f: FieldId, init: Set<
    IndexEntry,
>)
    ensures
        apply_field(a + b, f, init) == apply_field(b, f, apply_field(a, f, init)),
    decreases b.len(),
{
    if b.len() == 0 {
        assert(a + b =~= a);
    } else {
        assert((a + b).drop_last() =~= a + b.drop_last());
        assert((a + b).last() == b.last());
        lemma_apply_field_concat(a, b.drop_last(), f, init);
    }
}

/// Applying a concatenation applies the two runs in order, tag form.
pub proof fn lemma_apply_tag_concat(a: Seq<MutView>, b: Seq<MutView>, f: FieldId, init: Set<
    TagView,
>)
    ensures
        apply_tag(a + b, f, init) == apply_tag(b, f, apply_tag(a, f, init)),
    decreases b.len(),
{
    if b.len() == 0 {
        assert(a + b =~= a);
    } else {
        assert((a + b).drop_last() =~= a + b.drop_last());
        assert((a + b).last() == b.last());
        lemma_apply_tag_concat(a, b.drop_last(), f, init);
    }
}

/// Applying a concatenation applies the two runs in order, ACL form.
pub proof fn lemma_apply_acl_concat(a: Seq<MutView>, b: Seq<MutView>, init: Map<
    u32,
    crate::document::AclEntry,
>)
    ensures
        apply_acl(a + b, init) == apply_acl(b, apply_acl(a, init)),
    decreases b.len(),
{
    if b.len() == 0 {
        assert(a + b =~= a);
    } else {
        assert((a + b).drop_last() =~= a + b.drop_last());
        assert((a + b).last() == b.last());
        lemma_apply_acl_concat(a, b.drop_last(), init);
    }
}

/// A run of mutations none of which is an ACL mutation leaves the ACL
/// state alone.
pub proof fn lemma_apply_acl_untouched(muts: Seq<MutView>, init: Map<u32, crate::document::AclEntry>)
    requires
        forall|j: int| 0 <= j < muts.len() ==> !((#[trigger] muts[j]) matches MutView::Acl { .. }),
    ensures
        apply_acl(muts, init) == init,
    decreases muts.len(),
{
    if muts.len() > 0 {
        lemma_apply_acl_untouched(muts.drop_last(), init);
    }
}

/// Whether a mutation adds an index entry of field `f`.
pub open spec fn is_field_add(m: MutView, f: FieldId) -> bool {
    is_index_mut_for(m, f) && !mut_is_clear(m)
}

/// Whether a mutation clears an index entry of field `f`.
pub open spec fn is_field_clear(m: MutView, f: FieldId) -> bool {
    is_index_mut_for(m, f) && mut_is_clear(m)
}

/// The entries the run adds for field `f`.
pub open spec fn addset_field(muts: Seq<MutView>, f: FieldId) -> Set<IndexEntry>
    decreases muts.len(),
{
    if muts.len() == 0 {
        Set::empty()
    } else {
        let prev = addset_field(muts.drop_last(), f);
        if is_field_add(muts.last(), f) {
            prev.insert(mut_entry(muts.last()))
        } else {
            prev
        }
    }
}

/// The entries the run clears for field `f`.
pub open spec fn clearset_field(muts: Seq<MutView>, f: FieldId) -> Set<IndexEntry>
    decreases muts.len(),
{
    if muts.len() == 0 {
        Set::empty()
    } else {
        let prev = clearset_field(muts.drop_last(), f);
        if is_field_clear(muts.last(), f) {
            prev.insert(mut_entry(muts.last()))
        } else {
            prev
        }
    }
}

/// Whether every clear of field `f` precedes every add of it, the order
/// the merge engine emits in.
pub open spec fn clears_before_adds(muts: Seq<MutView>, f: FieldId) -> bool {
    forall|i: int, j: int|
        0 <= i < j < muts.len() && is_field_add(#[trigger] muts[i], f) ==> !is_field_clear(
            #[trigger] muts[j],
            f,
        )
}

/// A run without adds for `f` adds nothing.
proof fn lemma_no_adds_empty_addset(muts: Seq<MutView>, f: FieldId)
    requires
        forall|i: int| 0 <= i < muts.len() ==> !is_field_add(#[trigger] muts[i], f),
    ensures
        addset_field(muts, f) == Set::<IndexEntry>::empty(),
    decreases muts.len(),
{
    if muts.len() > 0 {
        lemma_no_adds_empty_addset(muts.drop_last(), f);
    }
}

/// The clears of a run exactly cancel prior index state and its adds come
/// on top: when every clear precedes every add — as the merge engine
/// emits — the final index state of a field is the initial one minus the
/// cleared entries plus the added ones. With the per-field law of the
/// merge, this pins the stored value's index set of a list-valued indexed
/// property to the emitted adds minus the emitted clears.
pub proof fn lemma_clears_cancel_adds(muts: Seq<MutView>, f: FieldId, init: Set<IndexEntry>)
    requires
        clears_before_adds(muts, f),
    ensures
        apply_field(muts, f, init) == init.difference(clearset_field(muts, f)).union(
            addset_field(muts, f),
        ),
    decreases muts.len(),
{
    if muts.len() == 0 {
        assert(init.difference(Set::<IndexEntry>::empty()).union(Set::<IndexEntry>::empty())
            =~= init);
    } else {
        let prefix = muts.drop_last();
        let m = muts.last();
        lemma_clears_cancel_adds(prefix, f, init);
        let cp = clearset_field(prefix, f);
        let ap = addset_field(prefix, f);
        if is_field_clear(m, f) {
            assert forall|i: int| 0 <= i < prefix.len() implies !is_field_add(
                #[trigger] prefix[i],
                f,
            ) by {
                if is_field_add(prefix[i], f) {
                    assert(muts[i] == prefix[i]);
                    assert(muts[muts.len() - 1] == m);
                }
            }
            lemma_no_adds_empty_addset(prefix, f);
            assert(init.difference(cp).union(ap).remove(mut_entry(m)) =~= init.difference(
                cp.insert(mut_entry(m)),
            ).union(Set::empty()));
        } else if is_field_add(m, f) {
            assert(init.difference(cp).union(ap).insert(mut_entry(m)) =~= init.difference(
                cp,
            ).union(ap.insert(mut_entry(m))));
        } else {
        }
    }
}

/// Concatenating a run without adds for `f` before a run without clears
/// for `f` keeps every clear before every add.
pub proof fn lemma_cba_concat(a: Seq<MutView>, b: Seq<MutView>, f: FieldId)
    requires
        clears_before_adds(a, f),
        clears_before_adds(b, f),
        (forall|i: int| 0 <= i < a.len() ==> !is_field_add(#[trigger] a[i], f)) || (forall|j: int|
            0 <= j < b.len() ==> !is_field_clear(#[trigger] b[j], f)),
    ensures
        clears_before_adds(a + b, f),
{
    let c = a + b;
    assert forall|i: int, j: int|
        0 <= i < j < c.len() && is_field_add(#[trigger] c[i], f) implies !is_field_clear(
        #[trigger] c[j],
        f,
    ) by {
        if i < a.len() {
            assert(c[i] == a[i]);
            if j < a.len() {
                assert(c[j] == a[j]);
            } else {
                assert(c[j] == b[j - a.len()]);
            }
        } else {
            assert(c[i] == b[i - a.len()]);
            assert(c[j] == b[j - a.len()]);
        }
    }
}

/// Appending one mutation extends the clear/add sets by at most its entry.
pub proof fn lemma_field_sets_push(muts: Seq<MutView>, m: MutView, f: FieldId)
    ensures
        clearset_field(muts.push(m), f) == if is_field_clear(m, f) {
            clearset_field(muts, f).insert(mut_entry(m))
        } else {
            clearset_field(muts, f)
        },
        addset_field(muts.push(m), f) == if is_field_add(m, f) {
            addset_field(muts, f).insert(mut_entry(m))
        } else {
            addset_field(muts, f)
        },
{
    assert(muts.push(m).drop_last() =~= muts);
    assert(muts.push(m).last() == m);
}

/// A run without index mutations of `f` clears and adds nothing for it.
pub proof fn lemma_field_sets_untouched(muts: Seq<MutView>, f: FieldId)
    requires
        forall|j: int| 0 <= j < muts.len() ==> !is_index_mut_for(#[trigger] muts[j], f),
    ensures
        clearset_field(muts, f) == Set::<IndexEntry>::empty(),
        addset_field(muts, f) == Set::<IndexEntry>::empty(),
    decreases muts.len(),
{
    if muts.len() > 0 {
        lemma_field_sets_untouched(muts.drop_last(), f);
    }
}

/// Concatenation unions the clear and add sets.
pub proof fn lemma_field_sets_concat(a: Seq<MutView>, b: Seq<MutView>, f: FieldId)
    ensures
        clearset_field(a + b, f) == clearset_field(a, f).union(clearset_field(b, f)),
        addset_field(a + b, f) == addset_field(a, f).union(addset_field(b, f)),
    decreases b.len(),
{
    if b.len() == 0 {
        assert(a + b =~= a);
        assert(clearset_field(a, f).union(Set::<IndexEntry>::empty()) =~= clearset_field(a, f));
        assert(addset_field(a, f).union(Set::<IndexEntry>::empty()) =~= addset_field(a, f));
    } else {
        assert((a + b).drop_last() =~= a + b.drop_last());
        assert((a + b).last() == b.last());
        lemma_field_sets_concat(a, b.drop_last(), f);
        let m = b.last();
        if is_field_clear(m, f) {
            assert(clearset_field(a, f).union(clearset_field(b.drop_last(), f)).insert(
                mut_entry(m),
            ) =~= clearset_field(a, f).union(clearset_field(b.drop_last(), f).insert(
                mut_entry(m),
            )));
        }
        if is_field_add(m, f) {
            assert(addset_field(a, f).union(addset_field(b.drop_last(), f)).insert(mut_entry(m))
                =~= addset_field(a, f).union(addset_field(b.drop_last(), f).insert(mut_entry(m))));
        }
    }
}

/// Whether a mutation adds a tag of field `f`.
pub open spec fn is_tag_add(m: MutView, f: FieldId) -> bool {
    is_tag_mut_for(m, f) && !mut_is_clear(m)
}

/// Whether a mutation clears a tag of field `f`.
pub open spec fn is_tag_clear(m: MutView, f: FieldId) -> bool {
    is_tag_mut_for(m, f) && mut_is_clear(m)
}

/// The tags the run clears for field `f`.
pub open spec fn tag_clearset_of(muts: Seq<MutView>, f: FieldId) -> Set<TagView>
    decreases muts.len(),
{
    if muts.len() == 0 {
        Set::empty()
    } else {
        let prev = tag_clearset_of(muts.drop_last(), f);
        if is_tag_clear(muts.last(), f) {
            prev.insert(mut_tag(muts.last()))
        } else {
            prev
        }
    }
}

/// The tags the run adds for field `f`.
pub open spec fn tag_addset_of(muts: Seq<MutView>, f: FieldId) -> Set<TagView>
    decreases muts.len(),
{
    if muts.len() == 0 {
        Set::empty()
    } else {
        let prev = tag_addset_of(muts.drop_last(), f);
        if is_tag_add(muts.last(), f) {
            prev.insert(mut_tag(muts.last()))
        } else {
            prev
        }
    }
}

/// Whether every tag clear of field `f` precedes every tag add of it.
pub open spec fn tag_clears_before_adds(muts: Seq<MutView>, f: FieldId) -> bool {
    forall|i: int, j: int|
        0 <= i < j < muts.len() && is_tag_add(#[trigger] muts[i], f) ==> !is_tag_clear(
            #[trigger] muts[j],
            f,
        )
}

/// Appending one mutation extends the tag clear/add sets by at most its tag.
pub proof fn lemma_tag_sets_push(muts: Seq<MutView>, m: MutView, f: FieldId)
    ensures
        tag_clearset_of(muts.push(m), f) == if is_tag_clear(m, f) {
            tag_clearset_of(muts, f).insert(mut_tag(m))
        } else {
            tag_clearset_of(muts, f)
        },
        tag_addset_of(muts.push(m), f) == if is_tag_add(m, f) {
            tag_addset_of(muts, f).insert(mut_tag(m))
        } else {
            tag_addset_of(muts, f)
        },
{
    assert(muts.push(m).drop_last() =~= muts);
    assert(muts.push(m).last() == m);
}

/// A run without tag mutations of `f` clears and adds no tag of it.
pub proof fn lemma_tag_sets_untouched(muts: Seq<MutView>, f: FieldId)
    requires
        forall|j: int| 0 <= j < muts.len() ==> !is_tag_mut_for(#[trigger] muts[j], f),
    ensures
        tag_clearset_of(muts, f) == Set::<TagView>::empty(),
        tag_addset_of(muts, f) == Set::<TagView>::empty(),
    decreases muts.len(),
{
    if muts.len() > 0 {
        lemma_tag_sets_untouched(muts.drop_last(), f);
    }
}

/// Concatenation unions the tag clear and add sets.
pub proof fn lemma_tag_sets_concat(a: Seq<MutView>, b: Seq<MutView>, f: FieldId)
    ensures
        tag_clearset_of(a + b, f) == tag_clearset_of(a, f).union(tag_clearset_of(b, f)),
        tag_addset_of(a + b, f) == tag_addset_of(a, f).union(tag_addset_of(b, f)),
    decreases b.len(),
{
    if b.len() == 0 {
        assert(a + b =~= a);
        assert(tag_clearset_of(a, f).union(Set::<TagView>::empty()) =~= tag_clearset_of(a, f));
        assert(tag_addset_of(a, f).union(Set::<TagView>::empty()) =~= tag_addset_of(a, f));
    } else {
        assert((a + b).drop_last() =~= a + b.drop_last());
        assert((a + b).last() == b.last());
        lemma_tag_sets_concat(a, b.drop_last(), f);
        let m = b.last();
        if is_tag_clear(m, f) {
            assert(tag_clearset_of(a, f).union(tag_clearset_of(b.drop_last(), f)).insert(
                mut_tag(m),
            ) =~= tag_clearset_of(a, f).union(tag_clearset_of(b.drop_last(), f).insert(
                mut_tag(m),
            )));
        }
        if is_tag_add(m, f) {
            assert(tag_addset_of(a, f).union(tag_addset_of(b.drop_last(), f)).insert(mut_tag(m))
                =~= tag_addset_of(a, f).union(tag_addset_of(b.drop_last(), f).insert(mut_tag(m))));
        }
    }
}

/// The entry ids the run clears from the ACL state.
pub open spec fn acl_clearset_of(muts: Seq<MutView>) -> Set<u32>
    decreases muts.len(),
{
    if muts.len() == 0 {
        Set::empty()
    } else {
        let prev = acl_clearset_of(muts.drop_last());
        match muts.last() {
            MutView::Acl { entry, options } => if options.clear {
                prev.insert(entry.id)
            } else {
                prev
            },
            _ => prev,
        }
    }
}

/// The entries the run adds to the ACL state.
pub open spec fn acl_addset_of(muts: Seq<MutView>) -> Set<crate::document::AclEntry>
    decreases muts.len(),
{
    if muts.len() == 0 {
        Set::empty()
    } else {
        let prev = acl_addset_of(muts.drop_last());
        match muts.last() {
            MutView::Acl { entry, options } => if !options.clear {
                prev.insert(entry)
            } else {
                prev
            },
            _ => prev,
        }
    }
}

/// Appending one mutation extends the ACL clear/add sets by at most it.
pub proof fn lemma_acl_sets_push(muts: Seq<MutView>, m: MutView)
    ensures
        acl_clearset_of(muts.push(m)) == match m {
            MutView::Acl { entry, options } => if options.clear {
                acl_clearset_of(muts).insert(entry.id)
            } else {
                acl_clearset_of(muts)
            },
            _ => acl_clearset_of(muts),
        },
        acl_addset_of(muts.push(m)) == match m {
            MutView::Acl { entry, options } => if !options.clear {
                acl_addset_of(muts).insert(entry)
            } else {
                acl_addset_of(muts)
            },
            _ => acl_addset_of(muts),
        },
{
    assert(muts.push(m).drop_last() =~= muts);
    assert(muts.push(m).last() == m);
}

/// A run without ACL mutations clears and adds no ACL entry.
pub proof fn lemma_acl_sets_untouched(muts: Seq<MutView>)
    requires
        forall|j: int| 0 <= j < muts.len() ==> !((#[trigger] muts[j]) matches MutView::Acl { .. }),
    ensures
        acl_clearset_of(muts) == Set::<u32>::empty(),
        acl_addset_of(muts) == Set::<crate::document::AclEntry>::empty(),
    decreases muts.len(),
{
    if muts.len() > 0 {
        lemma_acl_sets_untouched(muts.drop_last());
    }
}

/// Concatenation unions the ACL clear and add sets.
pub proof fn lemma_acl_sets_concat(a: Seq<MutView>, b: Seq<MutView>)
    ensures
        acl_clearset_of(a + b) == acl_clearset_of(a).union(acl_clearset_of(b)),
        acl_addset_of(a + b) == acl_addset_of(a).union(acl_addset_of(b)),
    decreases b.len(),
{
    if b.len() == 0 {
        assert(a + b =~= a);
        assert(acl_clearset_of(a).union(Set::<u32>::empty()) =~= acl_clearset_of(a));
        assert(acl_addset_of(a).union(Set::<crate::document::AclEntry>::empty())
            =~= acl_addset_of(a));
    } else {
        assert((a + b).drop_last() =~= a + b.drop_last());
        assert((a + b).last() == b.last());
        lemma_acl_sets_concat(a, b.drop_last());
        match b.last() {
            MutView::Acl { entry, options } => {
                if options.clear {
                    assert(acl_clearset_of(a).union(acl_clearset_of(b.drop_last())).insert(
                        entry.id,
                    ) =~= acl_clearset_of(a).union(acl_clearset_of(b.drop_last()).insert(
                        entry.id,
                    )));
                } else {
                    assert(acl_addset_of(a).union(acl_addset_of(b.drop_last())).insert(entry)
                        =~= acl_addset_of(a).union(acl_addset_of(b.drop_last()).insert(entry)));
                }
            },
            _ => {},
        }
    }
}

/// Concatenating a run without tag adds for `f` before a run without tag
/// clears for `f` keeps every tag clear before every tag add.
pub proof fn lemma_tag_cba_concat(a: Seq<MutView>, b: Seq<MutView>, f: FieldId)
    requires
        tag_clears_before_adds(a, f),
        tag_clears_before_adds(b, f),
        (forall|i: int| 0 <= i < a.len() ==> !is_tag_add(#[trigger] a[i], f)) || (forall|j: int|
            0 <= j < b.len() ==> !is_tag_clear(#[trigger] b[j], f)),
    ensures
        tag_clears_before_adds(a + b, f),
{
    let c = a + b;
    assert forall|i: int, j: int|
        0 <= i < j < c.len() && is_tag_add(#[trigger] c[i], f) implies !is_tag_clear(
        #[trigger] c[j],
        f,
    ) by {
        if i < a.len() {
            assert(c[i] == a[i]);
            if j < a.len() {
                assert(c[j] == a[j]);
            } else {
                assert(c[j] == b[j - a.len()]);
            }
        } else {
            assert(c[i] == b[i - a.len()]);
            assert(c[j] == b[j - a.len()]);
        }
    }
}

/// A run without tag clears of `f` clears no tag of it; one without tag
/// adds of `f` adds none.
pub proof fn lemma_no_tag_clears_empty(muts: Seq<MutView>, f: FieldId)
    requires
        forall|j: int| 0 <= j < muts.len() ==> !is_tag_clear(#[trigger] muts[j], f),
    ensures
        tag_clearset_of(muts, f) == Set::<TagView>::empty(),
    decreases muts.len(),
{
    if muts.len() > 0 {
        lemma_no_tag_clears_empty(muts.drop_last(), f);
    }
}

/// A run without tag adds of `f` adds no tag of it.
pub proof fn lemma_no_tag_adds_empty(muts: Seq<MutView>, f: FieldId)
    requires
        forall|j: int| 0 <= j < muts.len() ==> !is_tag_add(#[trigger] muts[j], f),
    ensures
        tag_addset_of(muts, f) == Set::<TagView>::empty(),
    decreases muts.len(),
{
    if muts.len() > 0 {
        lemma_no_tag_adds_empty(muts.drop_last(), f);
    }
}

} // verus!
