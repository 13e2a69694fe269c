//! The transient document builder: an ordered list of index mutations
//! (text, number, tag, ACL, blob, binary) accumulated while an object is
//! created, updated or deleted, and committed by the store in one batch.

use vstd::prelude::*;

use crate::errors::FieldId;

verus! {

/// Numeric id of a document within one collection of one account.
pub type DocumentId = u32;

/// Numeric id of an account.
pub type AccountId = u32;

/// Identifier of a stored blob.
pub type BlobId = u64;

/// Option flags of one index mutation. `clear` means "remove this index
/// entry" instead of adding it.
#[derive(Debug, Clone, Copy, PartialEq, Eq, Structural)]
pub struct IndexOptions {
    pub store: bool,
    pub index: bool,
    pub tokenize: bool,
    pub clear: bool,
}

impl IndexOptions {
    pub fn new() -> (r: IndexOptions)
        ensures
            r == (IndexOptions { store: false, index: false, tokenize: false, clear: false }),
    {
        IndexOptions { store: false, index: false, tokenize: false, clear: false }
    }

    pub fn store(self) -> (r: IndexOptions)
        ensures
            r == (IndexOptions { store: true, ..self }),
    {
        IndexOptions { store: true, ..self }
    }

    pub fn index(self) -> (r: IndexOptions)
        ensures
            r == (IndexOptions { index: true, ..self }),
    {
        IndexOptions { index: true, ..self }
    }

    pub fn tokenize(self) -> (r: IndexOptions)
        ensures
            r == (IndexOptions { tokenize: true, ..self }),
    {
        IndexOptions { tokenize: true, ..self }
    }

    pub fn clear(self) -> (r: IndexOptions)
        ensures
            r == (IndexOptions { clear: true, ..self }),
    {
        IndexOptions { clear: true, ..self }
    }

    pub fn is_clear(&self) -> (r: bool)
        ensures
            r == self.clear,
    {
        self.clear
    }
}

/// Language of a text index entry; `Unknown` is permitted everywhere.
#[derive(Debug, Clone, Copy, PartialEq, Eq, Structural)]
pub enum Language {
    Unknown,
    English,
}

/// A tag attached to a document under one field: a document id, a static
/// keyword id, or a free-form keyword.
#[derive(Debug, Clone)]
pub enum Tag {
    Id(u32),
    Static(u8),
    Text(String),
}

/// Mathematical value of a [`Tag`].
pub enum TagView {
    Id(u32),
    Static(u8),
    Text(Seq<char>),
}

impl View for Tag {
    type V = TagView;

    open spec fn view(&self) -> TagView {
        match self {
            Tag::Id(id) => TagView::Id(*id),
            Tag::Static(id) => TagView::Static(*id),
            Tag::Text(s) => TagView::Text(s@),
        }
    }
}

impl Tag {
    /// Equality of tags by value.
    pub fn eq_tag(&self, other: &Tag) -> (r: bool)
        ensures
            r == (self@ == other@),
    {
        match (self, other) {
            (Tag::Id(a), Tag::Id(b)) => a == b,
            (Tag::Static(a), Tag::Static(b)) => a == b,
            (Tag::Text(a), Tag::Text(b)) => a.eq(b),
            _ => false,
        }
    }

    /// A copy of this tag with the same value.
    pub fn clone_tag(&self) -> (r: Tag)
        ensures
            r == *self,
    {
        match self {
            Tag::Id(id) => Tag::Id(*id),
            Tag::Static(id) => Tag::Static(*id),
            Tag::Text(s) => Tag::Text(s.clone()),
        }
    }
}

/// One access-control entry of a document. Identity is by `id`; entries are
/// compared by full value when diffing.
#[derive(Debug, Clone, Copy, PartialEq, Eq, Structural)]
pub struct AclEntry {
    pub id: u32,
    pub permissions: u32,
}

/// One index mutation accumulated in a [`Document`].
#[derive(Debug)]
pub enum Mutation {
    Text { field: FieldId, value: String, language: Language, options: IndexOptions },
    Number { field: FieldId, value: u64, options: IndexOptions },
    Tag { field: FieldId, tag: Tag, options: IndexOptions },
    Acl { entry: AclEntry, options: IndexOptions },
    Blob { blob_id: BlobId, options: IndexOptions },
    Binary { field: FieldId, bytes: Vec<u8>, options: IndexOptions },
}

/// Mathematical value of a [`Mutation`].
pub enum MutView {
    Text { field: FieldId, value: Seq<char>, language: Language, options: IndexOptions },
    Number { field: FieldId, value: u64, options: IndexOptions },
    Tag { field: FieldId, tag: TagView, options: IndexOptions },
    Acl { entry: AclEntry, options: IndexOptions },
    Blob { blob_id: BlobId, options: IndexOptions },
    Binary { field: FieldId, bytes: Seq<u8>, options: IndexOptions },
}

impl View for Mutation {
    type V = MutView;

    open spec fn view(&self) -> MutView {
        match self {
            Mutation::Text { field, value, language, options } => MutView::Text {
                field: *field,
                value: value@,
                language: *language,
                options: *options,
            },
            Mutation::Number { field, value, options } => MutView::Number {
                field: *field,
                value: *value,
                options: *options,
            },
            Mutation::Tag { field, tag, options } => MutView::Tag {
                field: *field,
                tag: tag@,
                options: *options,
            },
            Mutation::Acl { entry, options } => MutView::Acl {
                entry: *entry,
                options: *options,
            },
            Mutation::Blob { blob_id, options } => MutView::Blob {
                blob_id: *blob_id,
                options: *options,
            },
            Mutation::Binary { field, bytes, options } => MutView::Binary {
                field: *field,
                bytes: bytes@,
                options: *options,
            },
        }
    }
}

/// Transient builder of the mutations of one document. The order of the
/// accumulated mutations is preserved for replay determinism.
#[derive(Debug)]
pub struct Document {
    pub document_id: DocumentId,
    pub mutations: Vec<Mutation>,
}

impl View for Document {
    type V = Seq<MutView>;

    open spec fn view(&self) -> Seq<MutView> {
        self.mutations@.map_values(|m: Mutation| m@)
    }
}

impl Document {
    pub fn new(document_id: DocumentId) -> (r: Document)
        ensures
            r.document_id == document_id,
            r@ =~= Seq::<MutView>::empty(),
    {
        Document { document_id, mutations: Vec::new() }
    }

    pub fn text(&mut self, field: FieldId, value: String, language: Language, options: IndexOptions)
        ensures
            final(self)@ =~= old(self)@.push(
                MutView::Text { field, value: value@, language, options },
            ),
            final(self).document_id == old(self).document_id,
    {
        self.mutations.push(Mutation::Text { field, value, language, options });
    }

    pub fn number(&mut self, field: FieldId, value: u64, options: IndexOptions)
        ensures
            final(self)@ =~= old(self)@.push(MutView::Number { field, value, options }),
            final(self).document_id == old(self).document_id,
    {
        self.mutations.push(Mutation::Number { field, value, options });
    }

    pub fn tag(&mut self, field: FieldId, tag: Tag, options: IndexOptions)
        ensures
            final(self)@ =~= old(self)@.push(MutView::Tag { field, tag: tag@, options }),
            final(self).document_id == old(self).document_id,
    {
        self.mutations.push(Mutation::Tag { field, tag, options });
    }

    pub fn acl(&mut self, entry: AclEntry, options: IndexOptions)
        ensures
            final(self)@ =~= old(self)@.push(MutView::Acl { entry, options }),
            final(self).document_id == old(self).document_id,
    {
        self.mutations.push(Mutation::Acl { entry, options });
    }

    pub fn blob(&mut self, blob_id: BlobId, options: IndexOptions)
        ensures
            final(self)@ =~= old(self)@.push(MutView::Blob { blob_id, options }),
            final(self).document_id == old(self).document_id,
    {
        self.mutations.push(Mutation::Blob { blob_id, options });
    }

    pub fn binary(&mut self, field: FieldId, bytes: Vec<u8>, options: IndexOptions)
        ensures
            final(self)@ =~= old(self)@.push(MutView::Binary { field, bytes: bytes@, options }),
            final(self).document_id == old(self).document_id,
    {
        self.mutations.push(Mutation::Binary { field, bytes, options });
    }

    /// True iff no mutations were accumulated.
    pub fn is_empty(&self) -> (r: bool)
        ensures
            r == (self@.len() == 0),
    {
        self.mutations.len() == 0
    }
}

} // verus!
