//! The per-document object-relational map: a typed property bag with a tag
//! side and an ACL side, diffed and merged with index-mutation emission.

use vstd::prelude::*;

use crate::document::{AclEntry, Tag, TagView};
use crate::errors::FieldId;

verus! {

/// Field under which the serialized ORM itself is stored in a document.
pub const ORM_FIELD: u8 = 255;

/// The indexable form of a stored property value.
#[derive(Debug)]
pub enum IndexValue {
    Null,
    Text(String),
    TextList(Vec<String>),
    Integer(u32),
    IntegerList(Vec<u32>),
    LongInteger(u64),
}

/// Mathematical value of an [`IndexValue`].
pub enum IndexView {
    Null,
    Text(Seq<char>),
    TextList(Seq<Seq<char>>),
    Integer(u32),
    IntegerList(Seq<u32>),
    LongInteger(u64),
}

impl View for IndexValue {
    type V = IndexView;

    open spec fn view(&self) -> IndexView {
        match self {
            IndexValue::Null => IndexView::Null,
            IndexValue::Text(s) => IndexView::Text(s@),
            IndexValue::TextList(l) => IndexView::TextList(l@.map_values(|s: String| s@)),
            IndexValue::Integer(i) => IndexView::Integer(*i),
            IndexValue::IntegerList(l) => IndexView::IntegerList(l@),
            IndexValue::LongInteger(i) => IndexView::LongInteger(*i),
        }
    }
}

/// A value that an ORM can store: it can report its indexable form, whether
/// it is empty, compare itself by value, and clone itself.
pub trait Indexable: View + Sized {
    /// Indexable form of a value, as a function of its mathematical value.
    spec fn index_of_view(v: Self::V) -> IndexView;

    /// Whether a value counts as empty, as a function of its mathematical value.
    spec fn empty_of_view(v: Self::V) -> bool;

    fn index_as(&self) -> (r: IndexValue)
        ensures
            r@ == Self::index_of_view(self@),
    ;

    fn is_empty_value(&self) -> (r: bool)
        ensures
            r == Self::empty_of_view(self@),
    ;

    fn eq_value(&self, other: &Self) -> (r: bool)
        ensures
            r == (self@ == other@),
    ;

    fn clone_value(&self) -> (r: Self)
        ensures
            r@ == self@,
    ;

    /// Appends a byte encoding of the value to `out`; the byte format of
    /// the stored form is the persisting store's concern, not part of the
    /// merge laws.
    fn encode_value(&self, out: &mut Vec<u8>);
}

/// The indexable form is itself a value an ORM can store: it indexes as
/// itself. This is the plainest object kind, and the one the scenarios of
/// list-valued index maintenance are exercised with.
impl Indexable for IndexValue {
    open spec fn index_of_view(v: IndexView) -> IndexView {
        v
    }

    open spec fn empty_of_view(v: IndexView) -> bool {
        match v {
            IndexView::Null => true,
            IndexView::Text(s) => s.len() == 0,
            IndexView::TextList(l) => l.len() == 0,
            IndexView::IntegerList(l) => l.len() == 0,
            _ => false,
        }
    }

    fn index_as(&self) -> (r: IndexValue)
        ensures
            r@ == self@,
    {
        self.clone_value()
    }

    fn is_empty_value(&self) -> (r: bool)
        ensures
            r == Self::empty_of_view(self@),
    {
        match self {
            IndexValue::Null => true,
            IndexValue::Text(s) => s.as_str().is_empty(),
            IndexValue::TextList(l) => l.len() == 0,
            IndexValue::IntegerList(l) => l.len() == 0,
            _ => false,
        }
    }

    fn eq_value(&self, other: &Self) -> (r: bool)
        ensures
            r == (self@ == other@),
    {
        match (self, other) {
            (IndexValue::Null, IndexValue::Null) => true,
            (IndexValue::Text(a), IndexValue::Text(b)) => crate::strings::string_eq(a, b),
            (IndexValue::TextList(a), IndexValue::TextList(b)) => crate::strings::string_list_eq(
                a,
                b,
            ),
            (IndexValue::Integer(a), IndexValue::Integer(b)) => a == b,
            (IndexValue::IntegerList(a), IndexValue::IntegerList(b)) => {
                if a.len() != b.len() {
                    proof {
                        assert(self@->IntegerList_0.len() != other@->IntegerList_0.len());
                    }
                    return false;
                }
                let mut i: usize = 0;
                while i < a.len()
                    invariant
                        0 <= i <= a@.len(),
                        a@.len() == b@.len(),
                        self matches IndexValue::IntegerList(x) && x == a,
                        other matches IndexValue::IntegerList(y) && y == b,
                        forall|j: int| 0 <= j < i ==> a@[j] == b@[j],
                    decreases a@.len() - i,
                {
                    if a[i] != b[i] {
                        return false;
                    }
                    i = i + 1;
                }
                proof {
                    assert(a@ =~= b@);
                }
                true
            },
            (IndexValue::LongInteger(a), IndexValue::LongInteger(b)) => a == b,
            _ => false,
        }
    }

    fn clone_value(&self) -> (r: Self)
        ensures
            r@ == self@,
    {
        match self {
            IndexValue::Null => IndexValue::Null,
            IndexValue::Text(s) => IndexValue::Text(s.clone()),
            IndexValue::TextList(l) => {
                let mut out: Vec<String> = Vec::new();
                let mut i: usize = 0;
                while i < l.len()
                    invariant
                        0 <= i <= l@.len(),
                        out@ =~= l@.subrange(0, i as int),
                    decreases l@.len() - i,
                {
                    out.push(l[i].clone());
                    proof {
                        assert(out@ =~= l@.subrange(0, i + 1));
                    }
                    i = i + 1;
                }
                proof {
                    assert(out@ =~= l@);
                }
                IndexValue::TextList(out)
            },
            IndexValue::Integer(x) => IndexValue::Integer(*x),
            IndexValue::IntegerList(l) => {
                let mut out: Vec<u32> = Vec::new();
                let mut i: usize = 0;
                while i < l.len()
                    invariant
                        0 <= i <= l@.len(),
                        out@ =~= l@.subrange(0, i as int),
                    decreases l@.len() - i,
                {
                    out.push(l[i]);
                    proof {
                        assert(out@ =~= l@.subrange(0, i + 1));
                    }
                    i = i + 1;
                }
                proof {
                    assert(out@ =~= l@);
                }
                IndexValue::IntegerList(out)
            },
            IndexValue::LongInteger(x) => IndexValue::LongInteger(*x),
        }
    }

    fn encode_value(&self, out: &mut Vec<u8>) {
        match self {
            IndexValue::Null => {
                out.push(0);
            },
            IndexValue::Text(s) => {
                out.push(1);
                push_str_bytes(out, s.as_str());
            },
            IndexValue::TextList(l) => {
                out.push(2);
                let mut i: usize = 0;
                while i < l.len()
                    decreases l@.len() - i,
                {
                    push_str_bytes(out, l[i].as_str());
                    i = i + 1;
                }
            },
            IndexValue::Integer(x) => {
                out.push(3);
                push_u32_le(out, *x);
            },
            IndexValue::IntegerList(l) => {
                out.push(4);
                let mut i: usize = 0;
                while i < l.len()
                    decreases l@.len() - i,
                {
                    push_u32_le(out, l[i]);
                    i = i + 1;
                }
            },
            IndexValue::LongInteger(x) => {
                out.push(5);
                push_u64_le(out, *x);
            },
        }
    }
}

/// Schema of one object kind: which properties must never be empty, and
/// which are indexed, with the default index options of each.
pub struct ObjectSchema {
    pub required: Vec<FieldId>,
    pub indexed: Vec<(FieldId, crate::document::IndexOptions)>,
}

impl ObjectSchema {
    pub open spec fn wf(self) -> bool {
        &&& forall|i: int, j: int|
            0 <= i < j < self.indexed@.len() ==> (#[trigger] self.indexed@[i]).0 != (
            #[trigger] self.indexed@[j]).0
        &&& forall|i: int|
            0 <= i < self.indexed@.len() ==> !(#[trigger] self.indexed@[i]).1.clear
    }

    /// Whether `field` is indexed by this schema.
    pub open spec fn spec_indexed(self, field: FieldId) -> bool {
        exists|i: int| 0 <= i < self.indexed@.len() && (#[trigger] self.indexed@[i]).0 == field
    }

    /// The index options of an indexed `field`.
    pub open spec fn spec_options(self, field: FieldId) -> crate::document::IndexOptions {
        self.indexed@[choose|i: int|
            0 <= i < self.indexed@.len() && (#[trigger] self.indexed@[i]).0 == field].1
    }

    /// Looks `field` up among the indexed properties.
    pub fn lookup_indexed(&self, field: FieldId) -> (r: Option<crate::document::IndexOptions>)
        requires
            self.wf(),
        ensures
            r is Some <==> self.spec_indexed(field),
            r matches Some(o) ==> o == self.spec_options(field),
    {
        let mut i: usize = 0;
        while i < self.indexed.len()
            invariant
                0 <= i <= self.indexed@.len(),
                forall|j: int| 0 <= j < i ==> (#[trigger] self.indexed@[j]).0 != field,
                self.wf(),
            decreases self.indexed@.len() - i,
        {
            if self.indexed[i].0 == field {
                return Some(self.indexed[i].1);
            }
            i = i + 1;
        }
        None
    }
}

/// The description a failed required-property validation carries.
pub fn cannot_be_empty() -> (r: String)
    ensures
        r@ == "Property cannot be empty."@,
{
    "Property cannot be empty.".to_owned()
}

/// Appends the four little-endian bytes of `x` to `out`.
pub fn push_u32_le(out: &mut Vec<u8>, x: u32) {
    out.push((x % 256) as u8);
    out.push(((x / 256) % 256) as u8);
    out.push(((x / 65536) % 256) as u8);
    out.push(((x / 16777216) % 256) as u8);
}

/// Appends the eight little-endian bytes of `x` to `out`.
pub fn push_u64_le(out: &mut Vec<u8>, x: u64) {
    let mut v = x;
    let mut i: usize = 0;
    while i < 8
        decreases 8 - i,
    {
        out.push((v % 256) as u8);
        v = v / 256;
        i = i + 1;
    }
}

/// Appends a length-prefixed UTF-8 encoding of `s` to `out`.
pub fn push_str_bytes(out: &mut Vec<u8>, s: &str) {
    let b = s.as_bytes();
    push_u64_le(out, b.len() as u64);
    let mut i: usize = 0;
    while i < b.len()
        decreases b@.len() - i,
    {
        out.push(b[i]);
        i = i + 1;
    }
}

/// The set of tag values of a sequence of tags.
pub open spec fn tag_views(s: Seq<Tag>) -> Set<TagView> {
    Set::new(|tv: TagView| exists|i: int| 0 <= i < s.len() && (#[trigger] s[i])@ == tv)
}

/// The set of tags stored under `f` in a tag association vector, empty when
/// the field is absent.
pub open spec fn tagset_of(s: Seq<(FieldId, Vec<Tag>)>, f: FieldId) -> Set<TagView> {
    if assoc_has(s, f) {
        tag_views(assoc_at(s, f)@)
    } else {
        Set::empty()
    }
}

/// The ids of a sequence of ACL entries.
pub open spec fn acl_ids_of(s: Seq<AclEntry>) -> Set<u32> {
    Set::new(|id: u32| exists|i: int| 0 <= i < s.len() && (#[trigger] s[i]).id == id)
}

/// A sequence of ACL entries as a map keyed by id.
pub open spec fn acl_map_of(s: Seq<AclEntry>) -> Map<u32, AclEntry> {
    Map::new(
        |id: u32| acl_ids_of(s).contains(id),
        |id: u32| s[choose|i: int| 0 <= i < s.len() && (#[trigger] s[i]).id == id],
    )
}

/// Appending one tag extends the tag-value set by that tag's value.
pub proof fn lemma_tag_views_push(l: Seq<Tag>, t: Tag)
    ensures
        tag_views(l.push(t)) =~= tag_views(l).insert(t@),
{
    let big = l.push(t);
    assert forall|e: TagView| tag_views(big).contains(e) implies tag_views(l).insert(t@).contains(
        e,
    ) by {
        let k = choose|k: int| 0 <= k < big.len() && (#[trigger] big[k])@ == e;
        if k < l.len() {
            assert(l[k]@ == e);
        }
    }
    assert forall|e: TagView| tag_views(l).insert(t@).contains(e) implies tag_views(big).contains(
        e,
    ) by {
        if e == t@ {
            assert(big[l.len() as int]@ == e);
        } else {
            let k = choose|k: int| 0 <= k < l.len() && (#[trigger] l[k])@ == e;
            assert(big[k]@ == e);
        }
    }
}

/// Taking one more tag extends the tag-value set by that tag's value.
pub proof fn lemma_tag_views_take(l: Seq<Tag>, i: int)
    requires
        0 <= i < l.len(),
    ensures
        tag_views(l.take(i + 1)) =~= tag_views(l.take(i)).insert(l[i]@),
{
    let small = l.take(i);
    let big = l.take(i + 1);
    assert forall|e: TagView| tag_views(big).contains(e) implies tag_views(small).insert(
        l[i]@,
    ).contains(e) by {
        let k = choose|k: int| 0 <= k < big.len() && (#[trigger] big[k])@ == e;
        if k < i {
            assert(small[k]@ == e);
        }
    }
    assert forall|e: TagView| tag_views(small).insert(l[i]@).contains(e) implies tag_views(
        big,
    ).contains(e) by {
        if e == l[i]@ {
            assert(big[i]@ == e);
        } else {
            let k = choose|k: int| 0 <= k < small.len() && (#[trigger] small[k])@ == e;
            assert(big[k]@ == e);
        }
    }
}

/// True iff some tag of `v` has the value of `t`.
pub fn tags_contain(v: &Vec<Tag>, t: &Tag) -> (r: bool)
    ensures
        r == tag_views(v@).contains(t@),
{
    let mut i: usize = 0;
    while i < v.len()
        invariant
            0 <= i <= v@.len(),
            forall|j: int| 0 <= j < i ==> (#[trigger] v@[j])@ != t@,
        decreases v@.len() - i,
    {
        if v[i].eq_tag(t) {
            return true;
        }
        i = i + 1;
    }
    false
}

/// True iff the association sequence `s` holds an entry for key `f`.
pub open spec fn assoc_has<V>(s: Seq<(FieldId, V)>, f: FieldId) -> bool {
    exists|i: int| 0 <= i < s.len() && (#[trigger] s[i]).0 == f
}

/// Index of the entry for key `f` in `s` (meaningful when `assoc_has`).
pub open spec fn assoc_idx<V>(s: Seq<(FieldId, V)>, f: FieldId) -> int {
    choose|i: int| 0 <= i < s.len() && (#[trigger] s[i]).0 == f
}

/// Value stored under key `f` in `s` (meaningful when `assoc_has`).
pub open spec fn assoc_at<V>(s: Seq<(FieldId, V)>, f: FieldId) -> V {
    s[assoc_idx(s, f)].1
}

/// All keys of `s` are distinct.
pub open spec fn assoc_unique<V>(s: Seq<(FieldId, V)>) -> bool {
    forall|i: int, j: int|
        0 <= i < j < s.len() ==> (#[trigger] s[i]).0 != (#[trigger] s[j]).0
}

/// The per-document typed ORM: properties, tag sets and ACL entries.
pub struct TinyORM<V> {
    pub properties: Vec<(FieldId, V)>,
    pub tags: Vec<(FieldId, Vec<Tag>)>,
    pub acls: Vec<AclEntry>,
}

impl<V: Indexable> TinyORM<V> {
    /// Internal invariant: unique property keys, unique tag keys, unique
    /// ACL ids.
    pub open spec fn wf(self) -> bool {
        &&& assoc_unique(self.properties@)
        &&& assoc_unique(self.tags@)
        &&& forall|i: int, j: int|
            0 <= i < j < self.acls@.len() ==> (#[trigger] self.acls@[i]).id != (
            #[trigger] self.acls@[j]).id
    }

    /// Whether a property is present.
    pub open spec fn prop_has(self, f: FieldId) -> bool {
        assoc_has(self.properties@, f)
    }

    /// The stored value of a present property.
    pub open spec fn prop_at(self, f: FieldId) -> V {
        assoc_at(self.properties@, f)
    }

    /// Whether a tag entry (possibly empty) is present for a field.
    pub open spec fn tag_has(self, f: FieldId) -> bool {
        assoc_has(self.tags@, f)
    }

    /// The set of tags stored under a field, empty when the field is absent.
    pub open spec fn tag_set(self, f: FieldId) -> Set<TagView> {
        tagset_of(self.tags@, f)
    }

    /// The set of ACL-entry ids.
    pub open spec fn acl_ids(self) -> Set<u32> {
        acl_ids_of(self.acls@)
    }

    /// The ACL entries as a map keyed by id.
    pub open spec fn acl_map(self) -> Map<u32, AclEntry> {
        acl_map_of(self.acls@)
    }

    pub fn new() -> (r: TinyORM<V>)
        ensures
            r.wf(),
            r.properties@.len() == 0,
            r.tags@.len() == 0,
            r.acls@.len() == 0,
    {
        TinyORM { properties: Vec::new(), tags: Vec::new(), acls: Vec::new() }
    }

    /// A fresh change set for an object whose current state is `current`:
    /// tags and ACLs start from the current ones, so that an untouched side
    /// compares equal during the merge; properties start empty.
    pub fn track_changes(current: &TinyORM<V>) -> (r: TinyORM<V>)
        requires
            current.wf(),
        ensures
            r.wf(),
            r.properties@.len() == 0,
            r.tags@.len() == current.tags@.len(),
            forall|j: int|
                0 <= j < r.tags@.len() ==> (#[trigger] r.tags@[j]).0 == current.tags@[j].0
                    && r.tags@[j].1@ == current.tags@[j].1@,
            r.acls@ == current.acls@,
    {
        let mut tags: Vec<(FieldId, Vec<Tag>)> = Vec::new();
        let mut i: usize = 0;
        while i < current.tags.len()
            invariant
                0 <= i <= current.tags@.len(),
                tags@.len() == i,
                forall|j: int|
                    0 <= j < i ==> (#[trigger] tags@[j]).0 == current.tags@[j].0 && tags@[j].1@
                        == current.tags@[j].1@,
                current.wf(),
            decreases current.tags@.len() - i,
        {
            let (f, ts) = &current.tags[i];
            let mut copy: Vec<Tag> = Vec::new();
            let mut j: usize = 0;
            while j < ts.len()
                invariant
                    0 <= j <= ts@.len(),
                    copy@ =~= ts@.subrange(0, j as int),
                decreases ts@.len() - j,
            {
                copy.push(ts[j].clone_tag());
                proof {
                    assert(copy@ =~= ts@.subrange(0, j + 1));
                }
                j = j + 1;
            }
            proof {
                assert(copy@ =~= ts@);
            }
            tags.push((*f, copy));
            i = i + 1;
        }
        let mut acls: Vec<AclEntry> = Vec::new();
        let mut k: usize = 0;
        while k < current.acls.len()
            invariant
                0 <= k <= current.acls@.len(),
                acls@ =~= current.acls@.subrange(0, k as int),
            decreases current.acls@.len() - k,
        {
            acls.push(current.acls[k]);
            proof {
                assert(acls@ =~= current.acls@.subrange(0, k + 1));
            }
            k = k + 1;
        }
        proof {
            assert(current.tags@.subrange(0, current.tags@.len() as int) =~= current.tags@);
            assert(current.acls@.subrange(0, current.acls@.len() as int) =~= current.acls@);
        }
        TinyORM { properties: Vec::new(), tags, acls }
    }

    /// Looks a property up.
    pub fn get(&self, f: FieldId) -> (r: Option<&V>)
        requires
            self.wf(),
        ensures
            r is Some <==> self.prop_has(f),
            r matches Some(v) ==> *v == self.prop_at(f),
    {
        let mut i: usize = 0;
        while i < self.properties.len()
            invariant
                0 <= i <= self.properties@.len(),
                forall|j: int| 0 <= j < i ==> (#[trigger] self.properties@[j]).0 != f,
                self.wf(),
            decreases self.properties@.len() - i,
        {
            if self.properties[i].0 == f {
                proof {
                    assert(assoc_idx(self.properties@, f) == i as int);
                }
                return Some(&self.properties[i].1);
            }
            i = i + 1;
        }
        None
    }

    /// Stores `v` under `f`, replacing a previous value.
    pub fn set(&mut self, f: FieldId, v: V)
        requires
            old(self).wf(),
        ensures
            final(self).wf(),
            final(self).prop_has(f),
            final(self).prop_at(f) == v,
            forall|g: FieldId|
                g != f ==> (#[trigger] final(self).prop_has(g)) == old(self).prop_has(g),
            forall|g: FieldId|
                g != f && old(self).prop_has(g) ==> (#[trigger] final(self).prop_at(g)) == old(
                    self,
                ).prop_at(g),
            final(self).tags@ == old(self).tags@,
            final(self).acls@ == old(self).acls@,
    {
        let mut i: usize = 0;
        while i < self.properties.len()
            invariant
                0 <= i <= self.properties@.len(),
                forall|j: int| 0 <= j < i ==> (#[trigger] self.properties@[j]).0 != f,
                old(self).wf(),
                self == old(self),
            decreases self.properties@.len() - i,
        {
            if self.properties[i].0 == f {
                self.properties.set(i, (f, v));
                proof {
                    lemma_assoc_update(old(self).properties@, self.properties@, i as int, f);
                }
                return ;
            }
            i = i + 1;
        }
        self.properties.push((f, v));
        proof {
            lemma_assoc_push(old(self).properties@, f, v);
        }
    }

    /// Removes the property `f` if present.
    pub fn unset(&mut self, f: FieldId)
        requires
            old(self).wf(),
        ensures
            final(self).wf(),
            !final(self).prop_has(f),
            forall|g: FieldId|
                g != f ==> (#[trigger] final(self).prop_has(g)) == old(self).prop_has(g),
            forall|g: FieldId|
                g != f && old(self).prop_has(g) ==> (#[trigger] final(self).prop_at(g)) == old(
                    self,
                ).prop_at(g),
            final(self).tags@ == old(self).tags@,
            final(self).acls@ == old(self).acls@,
    {
        let mut i: usize = 0;
        while i < self.properties.len()
            invariant
                0 <= i <= self.properties@.len(),
                forall|j: int| 0 <= j < i ==> (#[trigger] self.properties@[j]).0 != f,
                old(self).wf(),
                self == old(self),
            decreases self.properties@.len() - i,
        {
            if self.properties[i].0 == f {
                self.properties.remove(i);
                proof {
                    lemma_assoc_remove(old(self).properties@, self.properties@, i as int, f);
                }
                return ;
            }
            i = i + 1;
        }
    }

    /// The stored tag list of a field, if the field has one.
    pub fn get_tags(&self, f: FieldId) -> (r: Option<&Vec<Tag>>)
        requires
            self.wf(),
        ensures
            r is Some <==> self.tag_has(f),
            r matches Some(ts) ==> *ts == assoc_at(self.tags@, f),
    {
        let mut i: usize = 0;
        while i < self.tags.len()
            invariant
                0 <= i <= self.tags@.len(),
                forall|j: int| 0 <= j < i ==> (#[trigger] self.tags@[j]).0 != f,
                self.wf(),
            decreases self.tags@.len() - i,
        {
            if self.tags[i].0 == f {
                proof {
                    assert(assoc_idx(self.tags@, f) == i as int);
                }
                return Some(&self.tags[i].1);
            }
            i = i + 1;
        }
        None
    }

    /// Whether a field carries at least one tag.
    pub fn has_tags(&self, f: FieldId) -> (r: bool)
        requires
            self.wf(),
        ensures
            r == (self.tag_set(f) != Set::<TagView>::empty()),
    {
        match self.get_tags(f) {
            Some(ts) => {
                if ts.len() > 0 {
                    proof {
                        assert(self.tag_set(f).contains(ts@[0]@));
                    }
                    true
                } else {
                    proof {
                        assert(self.tag_set(f) =~= Set::<TagView>::empty());
                    }
                    false
                }
            },
            None => {
                proof {
                    assert(self.tag_set(f) =~= Set::<TagView>::empty());
                }
                false
            },
        }
    }

    /// Adds a tag to a field's set.
    pub fn tag(&mut self, f: FieldId, t: Tag)
        requires
            old(self).wf(),
        ensures
            final(self).wf(),
            final(self).tag_set(f) == old(self).tag_set(f).insert(t@),
            final(self).tag_has(f),
            forall|g: FieldId|
                g != f ==> (#[trigger] final(self).tag_has(g)) == old(self).tag_has(g),
            forall|g: FieldId|
                g != f ==> (#[trigger] final(self).tag_set(g)) == old(self).tag_set(g),
            final(self).properties@ == old(self).properties@,
            final(self).acls@ == old(self).acls@,
    {
        let mut i: usize = 0;
        while i < self.tags.len()
            invariant
                0 <= i <= self.tags@.len(),
                forall|j: int| 0 <= j < i ==> (#[trigger] self.tags@[j]).0 != f,
                old(self).wf(),
                self == old(self),
            decreases self.tags@.len() - i,
        {
            if self.tags[i].0 == f {
                proof {
                    assert(assoc_idx(self.tags@, f) == i as int);
                }
                let already = tags_contain(&self.tags[i].1, &t);
                let ghost pre_list = self.tags@[i as int].1@;
                if !already {
                    self.tags[i].1.push(t);
                }
                proof {
                    lemma_assoc_update(old(self).tags@, self.tags@, i as int, f);
                    if already {
                        assert(tag_views(pre_list).insert(t@) =~= tag_views(pre_list));
                    } else {
                        lemma_tag_views_push(pre_list, t);
                    }
                    assert forall|g: FieldId| g != f implies (#[trigger] self.tag_set(g)) == old(
                        self,
                    ).tag_set(g) by {
                        assert(assoc_has(self.tags@, g) == assoc_has(old(self).tags@, g));
                    }
                }
                return ;
            }
            i = i + 1;
        }
        let mut fresh: Vec<Tag> = Vec::new();
        fresh.push(t);
        let ghost fresh_val = fresh;
        let ghost fresh_view = fresh_val@;
        self.tags.push((f, fresh));
        proof {
            lemma_assoc_push(old(self).tags@, f, fresh_val);
            assert(tag_views(fresh_view) =~= Set::<TagView>::empty().insert(t@)) by {
                assert(fresh_view[0]@ == t@);
                assert forall|e: TagView| tag_views(fresh_view).contains(e) implies e == t@ by {
                    let k = choose|k: int|
                        0 <= k < fresh_view.len() && (#[trigger] fresh_view[k])@ == e;
                }
            }
            assert(old(self).tag_set(f) =~= Set::<TagView>::empty());
            assert forall|g: FieldId| g != f implies (#[trigger] self.tag_set(g)) == old(
                self,
            ).tag_set(g) by {
                assert(assoc_has(self.tags@, g) == assoc_has(old(self).tags@, g));
            }
        }
    }

    /// Removes a tag from a field's set.
    pub fn untag(&mut self, f: FieldId, t: &Tag)
        requires
            old(self).wf(),
        ensures
            final(self).wf(),
            final(self).tag_set(f) == old(self).tag_set(f).remove(t@),
            forall|g: FieldId|
                g != f ==> (#[trigger] final(self).tag_has(g)) == old(self).tag_has(g),
            forall|g: FieldId|
                g != f ==> (#[trigger] final(self).tag_set(g)) == old(self).tag_set(g),
            final(self).properties@ == old(self).properties@,
            final(self).acls@ == old(self).acls@,
    {
        let mut i: usize = 0;
        while i < self.tags.len()
            invariant
                0 <= i <= self.tags@.len(),
                forall|j: int| 0 <= j < i ==> (#[trigger] self.tags@[j]).0 != f,
                old(self).wf(),
                self == old(self),
            decreases self.tags@.len() - i,
        {
            if self.tags[i].0 == f {
                proof {
                    assert(assoc_idx(self.tags@, f) == i as int);
                }
                let ghost pre_list = self.tags@[i as int].1@;
                let mut kept: Vec<Tag> = Vec::new();
                let mut j: usize = 0;
                let n = self.tags[i].1.len();
                while j < n
                    invariant
                        0 <= j <= n,
                        n == pre_list.len(),
                        self == old(self),
                        0 <= i < self.tags@.len(),
                        self.tags@[i as int].1@ == pre_list,
                        tag_views(kept@) =~= tag_views(pre_list.take(j as int)).remove(t@),
                    decreases n - j,
                {
                    proof {
                        lemma_tag_views_take(pre_list, j as int);
                    }
                    if !self.tags[i].1[j].eq_tag(t) {
                        let ghost kept_pre = kept@;
                        kept.push(self.tags[i].1[j].clone_tag());
                        proof {
                            lemma_tag_views_push(kept_pre, pre_list[j as int]);
                            assert(tag_views(kept@) =~= tag_views(
                                pre_list.take(j + 1),
                            ).remove(t@));
                        }
                    } else {
                        proof {
                            assert(tag_views(kept@) =~= tag_views(
                                pre_list.take(j + 1),
                            ).remove(t@));
                        }
                    }
                    j = j + 1;
                }
                proof {
                    assert(pre_list.take(pre_list.len() as int) =~= pre_list);
                }
                let key = self.tags[i].0;
                self.tags.set(i, (key, kept));
                proof {
                    lemma_assoc_update(old(self).tags@, self.tags@, i as int, f);
                    assert forall|g: FieldId| g != f implies (#[trigger] self.tag_set(g)) == old(
                        self,
                    ).tag_set(g) by {
                        assert(assoc_has(self.tags@, g) == assoc_has(old(self).tags@, g));
                    }
                }
                return ;
            }
            i = i + 1;
        }
        proof {
            assert(old(self).tag_set(f) =~= Set::<TagView>::empty());
            assert(old(self).tag_set(f).remove(t@) =~= Set::<TagView>::empty());
        }
    }

    /// Empties a field's tag set, keeping the field present so that a
    /// merge still sees its counterpart and clears the stored tags.
    pub fn untag_all(&mut self, f: FieldId)
        requires
            old(self).wf(),
        ensures
            final(self).wf(),
            final(self).tag_has(f) == old(self).tag_has(f),
            final(self).tag_set(f) == Set::<TagView>::empty(),
            forall|g: FieldId|
                g != f ==> (#[trigger] final(self).tag_has(g)) == old(self).tag_has(g),
            forall|g: FieldId|
                g != f ==> (#[trigger] final(self).tag_set(g)) == old(self).tag_set(g),
            final(self).properties@ == old(self).properties@,
            final(self).acls@ == old(self).acls@,
    {
        let mut i: usize = 0;
        while i < self.tags.len()
            invariant
                0 <= i <= self.tags@.len(),
                forall|j: int| 0 <= j < i ==> (#[trigger] self.tags@[j]).0 != f,
                old(self).wf(),
                self == old(self),
            decreases self.tags@.len() - i,
        {
            if self.tags[i].0 == f {
                proof {
                    assert(assoc_idx(self.tags@, f) == i as int);
                }
                let key = self.tags[i].0;
                let empty: Vec<Tag> = Vec::new();
                let ghost empty_view = empty@;
                self.tags.set(i, (key, empty));
                proof {
                    lemma_assoc_update(old(self).tags@, self.tags@, i as int, f);
                    assert(tag_views(empty_view) =~= Set::<TagView>::empty()) by {
                        assert forall|e: TagView| !tag_views(empty_view).contains(e) by {
                            if tag_views(empty_view).contains(e) {
                                let k = choose|k: int|
                                    0 <= k < empty_view.len() && (#[trigger] empty_view[k])@ == e;
                            }
                        }
                    }
                    assert forall|g: FieldId| g != f implies (#[trigger] self.tag_set(g)) == old(
                        self,
                    ).tag_set(g) by {
                        assert(assoc_has(self.tags@, g) == assoc_has(old(self).tags@, g));
                    }
                }
                return ;
            }
            i = i + 1;
        }
        proof {
            assert(old(self).tag_set(f) =~= Set::<TagView>::empty());
        }
    }

    /// The tags of field `f` on which this ORM and `changes` disagree:
    /// those one side holds and the other lacks.
    pub fn get_changed_tags(&self, changes: &TinyORM<V>, f: FieldId) -> (r: Vec<Tag>)
        requires
            self.wf(),
            changes.wf(),
        ensures
            tag_views(r@) == self.tag_set(f).difference(changes.tag_set(f)).union(
                changes.tag_set(f).difference(self.tag_set(f)),
            ),
    {
        let empty: Vec<Tag> = Vec::new();
        let mut out: Vec<Tag> = Vec::new();
        proof {
            assert(tag_views(out@) =~= Set::<TagView>::empty()) by {
                if exists|e: TagView| tag_views(out@).contains(e) {
                    let e = choose|e: TagView| tag_views(out@).contains(e);
                    let k = choose|k: int| 0 <= k < out@.len() && (#[trigger] out@[k])@ == e;
                }
            }
        }
        let ours = match self.get_tags(f) {
            Some(ts) => ts,
            None => &empty,
        };
        let theirs = match changes.get_tags(f) {
            Some(ts) => ts,
            None => &empty,
        };
        proof {
            assert(tag_views(ours@) == self.tag_set(f)) by {
                if !self.tag_has(f) {
                    assert(ours@.len() == 0);
                    assert(tag_views(ours@) =~= Set::<TagView>::empty());
                }
            }
            assert(tag_views(theirs@) == changes.tag_set(f)) by {
                if !changes.tag_has(f) {
                    assert(theirs@.len() == 0);
                    assert(tag_views(theirs@) =~= Set::<TagView>::empty());
                }
            }
        }
        let mut i: usize = 0;
        while i < ours.len()
            invariant
                0 <= i <= ours@.len(),
                tag_views(out@) =~= tag_views(ours@.take(i as int)).difference(
                    tag_views(theirs@),
                ),
            decreases ours@.len() - i,
        {
            proof {
                lemma_tag_views_take(ours@, i as int);
            }
            if !tags_contain(theirs, &ours[i]) {
                let ghost out_pre = out@;
                out.push(ours[i].clone_tag());
                proof {
                    lemma_tag_views_push(out_pre, ours@[i as int]);
                    assert(tag_views(out@) =~= tag_views(ours@.take(i + 1)).difference(
                        tag_views(theirs@),
                    ));
                }
            } else {
                proof {
                    assert(tag_views(out@) =~= tag_views(ours@.take(i + 1)).difference(
                        tag_views(theirs@),
                    ));
                }
            }
            i = i + 1;
        }
        proof {
            assert(ours@.take(ours@.len() as int) =~= ours@);
        }
        let ghost half = tag_views(ours@).difference(tag_views(theirs@));
        let mut j: usize = 0;
        while j < theirs.len()
            invariant
                0 <= j <= theirs@.len(),
                half == tag_views(ours@).difference(tag_views(theirs@)),
                tag_views(out@) =~= half.union(
                    tag_views(theirs@.take(j as int)).difference(tag_views(ours@)),
                ),
            decreases theirs@.len() - j,
        {
            proof {
                lemma_tag_views_take(theirs@, j as int);
            }
            if !tags_contain(ours, &theirs[j]) {
                let ghost out_pre = out@;
                out.push(theirs[j].clone_tag());
                proof {
                    lemma_tag_views_push(out_pre, theirs@[j as int]);
                    assert(tag_views(out@) =~= half.union(
                        tag_views(theirs@.take(j + 1)).difference(tag_views(ours@)),
                    ));
                }
            } else {
                proof {
                    assert(tag_views(out@) =~= half.union(
                        tag_views(theirs@.take(j + 1)).difference(tag_views(ours@)),
                    ));
                }
            }
            j = j + 1;
        }
        proof {
            assert(theirs@.take(theirs@.len() as int) =~= theirs@);
        }
        out
    }
}

/// After replacing position `i` (whose key is `f`) with a new value for the
/// same key, lookups behave as a map update.
proof fn lemma_assoc_update<V>(pre: Seq<(FieldId, V)>, post: Seq<(FieldId, V)>, i: int, f: FieldId)
    requires
        assoc_unique(pre),
        0 <= i < pre.len(),
        pre[i].0 == f,
        post.len() == pre.len(),
        post[i].0 == f,
        forall|j: int| 0 <= j < pre.len() && j != i ==> post[j] == pre[j],
    ensures
        assoc_unique(post),
        assoc_has(post, f),
        assoc_at(post, f) == post[i].1,
        forall|g: FieldId| g != f ==> (#[trigger] assoc_has(post, g)) == assoc_has(pre, g),
        forall|g: FieldId|
            g != f && assoc_has(pre, g) ==> (#[trigger] assoc_at(post, g)) == assoc_at(pre, g),
{
    assert(forall|j: int| 0 <= j < post.len() ==> (#[trigger] post[j]).0 == pre[j].0);
    assert(assoc_idx(post, f) == i);
    assert forall|g: FieldId| g != f && assoc_has(pre, g) implies (#[trigger] assoc_at(post, g))
        == assoc_at(pre, g) by {
        let k = assoc_idx(pre, g);
        assert(0 <= k < pre.len() && pre[k].0 == g);
        assert(k != i);
        assert(assoc_idx(post, g) == k);
    }
}

/// Pushing a fresh key keeps uniqueness and behaves as a map insert.
proof fn lemma_assoc_push<V>(pre: Seq<(FieldId, V)>, f: FieldId, v: V)
    requires
        assoc_unique(pre),
        !assoc_has(pre, f),
    ensures
        assoc_unique(pre.push((f, v))),
        assoc_has(pre.push((f, v)), f),
        assoc_at(pre.push((f, v)), f) == v,
        forall|g: FieldId|
            g != f ==> (#[trigger] assoc_has(pre.push((f, v)), g)) == assoc_has(pre, g),
        forall|g: FieldId|
            g != f && assoc_has(pre, g) ==> (#[trigger] assoc_at(pre.push((f, v)), g)) == assoc_at(
                pre,
                g,
            ),
{
    let post = pre.push((f, v));
    assert(forall|j: int| 0 <= j < pre.len() ==> post[j] == pre[j]);
    assert(post[pre.len() as int].0 == f);
    assert(assoc_idx(post, f) == pre.len());
    assert forall|g: FieldId| g != f && assoc_has(pre, g) implies (#[trigger] assoc_at(post, g))
        == assoc_at(pre, g) by {
        let k = assoc_idx(pre, g);
        assert(0 <= k < pre.len() && pre[k].0 == g);
        assert(assoc_idx(post, g) == k);
    }
}

/// Removing position `i` (whose key is `f`) behaves as a map remove.
proof fn lemma_assoc_remove<V>(pre: Seq<(FieldId, V)>, post: Seq<(FieldId, V)>, i: int, f: FieldId)
    requires
        assoc_unique(pre),
        0 <= i < pre.len(),
        pre[i].0 == f,
        post =~= pre.remove(i),
    ensures
        assoc_unique(post),
        !assoc_has(post, f),
        forall|g: FieldId| g != f ==> (#[trigger] assoc_has(post, g)) == assoc_has(pre, g),
        forall|g: FieldId|
            g != f && assoc_has(pre, g) ==> (#[trigger] assoc_at(post, g)) == assoc_at(pre, g),
{
    assert(forall|j: int| 0 <= j < i ==> post[j] == pre[j]);
    assert(forall|j: int| i <= j < post.len() ==> post[j] == pre[j + 1]);
    assert forall|g: FieldId| g != f && assoc_has(pre, g) implies (#[trigger] assoc_at(post, g))
        == assoc_at(pre, g) by {
        let k = assoc_idx(pre, g);
        assert(0 <= k < pre.len() && pre[k].0 == g);
        if k < i {
            assert(post[k] == pre[k]);
            assert(assoc_idx(post, g) == k);
        } else {
            assert(k > i);
            assert(post[k - 1] == pre[k]);
            assert(assoc_idx(post, g) == k - 1);
        }
    }
    assert forall|g: FieldId| g != f && assoc_has(post, g) implies assoc_has(pre, g) by {
        let k = assoc_idx(post, g);
        if k < i {
            assert(pre[k].0 == g);
        } else {
            assert(pre[k + 1].0 == g);
        }
    }
    assert forall|g: FieldId| g != f && assoc_has(pre, g) implies assoc_has(post, g) by {
        let k = assoc_idx(pre, g);
        assert(0 <= k < pre.len() && pre[k].0 == g);
        if k < i {
            assert(post[k] == pre[k]);
        } else {
            assert(k > i);
            assert(post[k - 1] == pre[k]);
        }
    }
}

} // verus!
