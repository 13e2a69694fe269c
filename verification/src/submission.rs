//! The EmailSubmission object: its typed property values, their indexable
//! forms, and the change-list hook of its collection.

use vstd::prelude::*;

use crate::collection::Collection;
use crate::document::BlobId;
use crate::errors::FieldId;
use crate::orm::{Indexable, IndexValue, IndexView};
use crate::strings::{str_eq, string_eq};

verus! {

/// A JMAP id as carried in submission values.
pub type JMAPId = u64;

#[derive(Debug, Clone, Copy, PartialEq, Eq, Structural)]
pub enum UndoStatus {
    Pending,
    Final,
    Canceled,
}

#[derive(Debug, Clone, Copy, PartialEq, Eq, Structural)]
pub enum Delivered {
    Queued,
    Yes,
    No,
    Unknown,
}

#[derive(Debug, Clone, Copy, PartialEq, Eq, Structural)]
pub enum Displayed {
    Unknown,
    Yes,
}

/// An SMTP address with optional per-address parameters.
#[derive(Debug)]
pub struct Address {
    pub email: String,
    pub parameters: Option<Vec<(String, Option<String>)>>,
}

/// Mathematical value of an [`Address`].
pub struct AddressView {
    pub email: Seq<char>,
    pub parameters: Option<Seq<(Seq<char>, Option<Seq<char>>)>>,
}

impl View for Address {
    type V = AddressView;

    open spec fn view(&self) -> AddressView {
        AddressView {
            email: self.email@,
            parameters: match self.parameters {
                Some(ps) => Some(
                    ps@.map_values(
                        |p: (String, Option<String>)|
                            (
                                p.0@,
                                match p.1 {
                                    Some(s) => Some(s@),
                                    None => None,
                                },
                            ),
                    ),
                ),
                None => None,
            },
        }
    }
}

/// The envelope of a submission: sender and recipients.
#[derive(Debug)]
pub struct Envelope {
    pub mail_from: Address,
    pub rcpt_to: Vec<Address>,
}

/// Mathematical value of an [`Envelope`].
pub struct EnvelopeView {
    pub mail_from: AddressView,
    pub rcpt_to: Seq<AddressView>,
}

impl View for Envelope {
    type V = EnvelopeView;

    open spec fn view(&self) -> EnvelopeView {
        EnvelopeView {
            mail_from: self.mail_from@,
            rcpt_to: self.rcpt_to@.map_values(|a: Address| a@),
        }
    }
}

impl Envelope {
    /// A fresh envelope from the sender address, with no recipients yet.
    pub fn new(email: String) -> (r: Envelope)
        ensures
            r@.mail_from.email == email@,
            r@.mail_from.parameters is None,
            r@.rcpt_to.len() == 0,
    {
        let r = Envelope {
            mail_from: Address { email, parameters: None },
            rcpt_to: Vec::new(),
        };
        proof {
            assert(r@.rcpt_to =~= Seq::<AddressView>::empty());
        }
        r
    }
}

/// Delivery outcome reported for one recipient.
#[derive(Debug)]
pub struct DeliveryStatus {
    pub smtp_reply: String,
    pub delivered: Delivered,
    pub displayed: Displayed,
}

/// Mathematical value of a [`DeliveryStatus`].
pub struct DeliveryStatusView {
    pub smtp_reply: Seq<char>,
    pub delivered: Delivered,
    pub displayed: Displayed,
}

impl View for DeliveryStatus {
    type V = DeliveryStatusView;

    open spec fn view(&self) -> DeliveryStatusView {
        DeliveryStatusView {
            smtp_reply: self.smtp_reply@,
            delivered: self.delivered,
            displayed: self.displayed,
        }
    }
}

/// A back-reference into the result of an earlier method call.
#[derive(Debug)]
pub struct ResultReference {
    pub result_of: String,
    pub name: String,
    pub path: String,
}

/// Mathematical value of a [`ResultReference`].
pub struct ResultReferenceView {
    pub result_of: Seq<char>,
    pub name: Seq<char>,
    pub path: Seq<char>,
}

impl View for ResultReference {
    type V = ResultReferenceView;

    open spec fn view(&self) -> ResultReferenceView {
        ResultReferenceView {
            result_of: self.result_of@,
            name: self.name@,
            path: self.path@,
        }
    }
}

/// A property value of an EmailSubmission object. Dates are held as Unix
/// timestamps in seconds.
#[derive(Debug)]
pub enum Value {
    Id { value: JMAPId },
    Text { value: String },
    DateTime { value: u64 },
    UndoStatus { value: UndoStatus },
    DeliveryStatus { value: Vec<(String, DeliveryStatus)> },
    Envelope { value: Envelope },
    BlobIds { value: Vec<BlobId> },
    IdReference { value: String },
    ResultReference { value: ResultReference },
    Null,
}

/// Mathematical value of a [`Value`].
pub enum ValueView {
    Id(u64),
    Text(Seq<char>),
    DateTime(u64),
    UndoStatus(UndoStatus),
    DeliveryStatus(Seq<(Seq<char>, DeliveryStatusView)>),
    Envelope(EnvelopeView),
    BlobIds(Seq<u64>),
    IdReference(Seq<char>),
    ResultReference(ResultReferenceView),
    Null,
}

impl View for Value {
    type V = ValueView;

    open spec fn view(&self) -> ValueView {
        match self {
            Value::Id { value } => ValueView::Id(*value),
            Value::Text { value } => ValueView::Text(value@),
            Value::DateTime { value } => ValueView::DateTime(*value),
            Value::UndoStatus { value } => ValueView::UndoStatus(*value),
            Value::DeliveryStatus { value } => ValueView::DeliveryStatus(
                value@.map_values(|p: (String, DeliveryStatus)| (p.0@, p.1@)),
            ),
            Value::Envelope { value } => ValueView::Envelope(value@),
            Value::BlobIds { value } => ValueView::BlobIds(value@),
            Value::IdReference { value } => ValueView::IdReference(value@),
            Value::ResultReference { value } => ValueView::ResultReference(value@),
            Value::Null => ValueView::Null,
        }
    }
}

/// The indexable form of a submission value: ids and dates index as long
/// integers, the undo status as a one-letter keyword, the rest not at all.
pub open spec fn spec_index_of(v: ValueView) -> IndexView {
    match v {
        ValueView::Id(value) => IndexView::LongInteger(value),
        ValueView::DateTime(value) => IndexView::LongInteger(value),
        ValueView::UndoStatus(value) => IndexView::Text(spec_undo_letter(value)),
        _ => IndexView::Null,
    }
}

/// The one-letter index keyword of an undo status.
pub open spec fn spec_undo_letter(u: UndoStatus) -> Seq<char> {
    match u {
        UndoStatus::Pending => "p"@,
        UndoStatus::Final => "f"@,
        UndoStatus::Canceled => "c"@,
    }
}

/// Whether a submission value counts as empty.
pub open spec fn spec_value_empty(v: ValueView) -> bool {
    match v {
        ValueView::Null => true,
        ValueView::Text(s) => s.len() == 0,
        ValueView::IdReference(s) => s.len() == 0,
        ValueView::BlobIds(l) => l.len() == 0,
        ValueView::DeliveryStatus(l) => l.len() == 0,
        _ => false,
    }
}

fn eq_opt_string(a: &Option<String>, b: &Option<String>) -> (r: bool)
    ensures
        r == (match (a, b) {
            (Some(x), Some(y)) => x@ == y@,
            (None, None) => true,
            _ => false,
        }),
{
    match (a, b) {
        (Some(x), Some(y)) => string_eq(x, y),
        (None, None) => true,
        _ => false,
    }
}

fn eq_address(a: &Address, b: &Address) -> (r: bool)
    ensures
        r == (a@ == b@),
{
    if !string_eq(&a.email, &b.email) {
        return false;
    }
    match (&a.parameters, &b.parameters) {
        (None, None) => true,
        (Some(pa), Some(pb)) => {
            if pa.len() != pb.len() {
                proof {
                    assert(a@.parameters->0.len() != b@.parameters->0.len());
                }
                return false;
            }
            let mut i: usize = 0;
            while i < pa.len()
                invariant
                    0 <= i <= pa@.len(),
                    pa@.len() == pb@.len(),
                    a.parameters matches Some(x) && x == pa,
                    b.parameters matches Some(y) && y == pb,
                    forall|j: int|
                        0 <= j < i ==> a@.parameters->0[j] == b@.parameters->0[j],
                decreases pa@.len() - i,
            {
                let ka = &pa[i].0;
                let kb = &pb[i].0;
                if !string_eq(ka, kb) || !eq_opt_string(&pa[i].1, &pb[i].1) {
                    proof {
                        assert(a@.parameters->0[i as int] != b@.parameters->0[i as int]);
                    }
                    return false;
                }
                proof {
                    assert(a@.parameters->0[i as int] == b@.parameters->0[i as int]);
                }
                i = i + 1;
            }
            proof {
                assert(a@.parameters->0 =~= b@.parameters->0);
            }
            true
        },
        _ => false,
    }
}

fn eq_envelope(a: &Envelope, b: &Envelope) -> (r: bool)
    ensures
        r == (a@ == b@),
{
    if !eq_address(&a.mail_from, &b.mail_from) {
        return false;
    }
    if a.rcpt_to.len() != b.rcpt_to.len() {
        proof {
            assert(a@.rcpt_to.len() != b@.rcpt_to.len());
        }
        return false;
    }
    let mut i: usize = 0;
    while i < a.rcpt_to.len()
        invariant
            0 <= i <= a.rcpt_to@.len(),
            a.rcpt_to@.len() == b.rcpt_to@.len(),
            a@.mail_from == b@.mail_from,
            forall|j: int| 0 <= j < i ==> a@.rcpt_to[j] == b@.rcpt_to[j],
        decreases a.rcpt_to@.len() - i,
    {
        if !eq_address(&a.rcpt_to[i], &b.rcpt_to[i]) {
            proof {
                assert(a@.rcpt_to[i as int] != b@.rcpt_to[i as int]);
            }
            return false;
        }
        proof {
            assert(a@.rcpt_to[i as int] == b@.rcpt_to[i as int]);
        }
        i = i + 1;
    }
    proof {
        assert(a@.rcpt_to =~= b@.rcpt_to);
    }
    true
}

fn eq_delivery_status(a: &DeliveryStatus, b: &DeliveryStatus) -> (r: bool)
    ensures
        r == (a@ == b@),
{
    string_eq(&a.smtp_reply, &b.smtp_reply) && a.delivered == b.delivered && a.displayed
        == b.displayed
}

fn clone_opt_string(a: &Option<String>) -> (r: Option<String>)
    ensures
        r == *a,
{
    match a {
        Some(s) => Some(s.clone()),
        None => None,
    }
}

fn clone_address(a: &Address) -> (r: Address)
    ensures
        r@ == a@,
{
    let parameters = match &a.parameters {
        Some(ps) => {
            let mut out: Vec<(String, Option<String>)> = Vec::new();
            let mut i: usize = 0;
            while i < ps.len()
                invariant
                    0 <= i <= ps@.len(),
                    out@ =~= ps@.subrange(0, i as int),
                decreases ps@.len() - i,
            {
                out.push((ps[i].0.clone(), clone_opt_string(&ps[i].1)));
                proof {
                    assert(out@ =~= ps@.subrange(0, i + 1));
                }
                i = i + 1;
            }
            proof {
                assert(out@ =~= ps@);
            }
            Some(out)
        },
        None => None,
    };
    Address { email: a.email.clone(), parameters }
}

fn clone_envelope(a: &Envelope) -> (r: Envelope)
    ensures
        r@ == a@,
{
    let mut rcpt: Vec<Address> = Vec::new();
    let mut i: usize = 0;
    while i < a.rcpt_to.len()
        invariant
            0 <= i <= a.rcpt_to@.len(),
            rcpt@.len() == i,
            forall|j: int| 0 <= j < i ==> (#[trigger] rcpt@[j])@ == a.rcpt_to@[j]@,
        decreases a.rcpt_to@.len() - i,
    {
        rcpt.push(clone_address(&a.rcpt_to[i]));
        i = i + 1;
    }
    let r = Envelope { mail_from: clone_address(&a.mail_from), rcpt_to: rcpt };
    proof {
        assert(r@.rcpt_to =~= a@.rcpt_to);
    }
    r
}

impl Indexable for Value {
    open spec fn index_of_view(v: ValueView) -> IndexView {
        spec_index_of(v)
    }

    open spec fn empty_of_view(v: ValueView) -> bool {
        spec_value_empty(v)
    }

    fn index_as(&self) -> (r: IndexValue)
        ensures
            r@ == spec_index_of(self@),
    {
        match self {
            Value::Id { value } => IndexValue::LongInteger(*value),
            Value::DateTime { value } => IndexValue::LongInteger(*value),
            Value::UndoStatus { value } => {
                let s: String = match value {
                    UndoStatus::Pending => "p".to_owned(),
                    UndoStatus::Final => "f".to_owned(),
                    UndoStatus::Canceled => "c".to_owned(),
                };
                IndexValue::Text(s)
            },
            _ => IndexValue::Null,
        }
    }

    fn is_empty_value(&self) -> (r: bool)
        ensures
            r == spec_value_empty(self@),
    {
        match self {
            Value::Null => true,
            Value::Text { value } => value.as_str().is_empty(),
            Value::IdReference { value } => value.as_str().is_empty(),
            Value::BlobIds { value } => value.len() == 0,
            Value::DeliveryStatus { value } => value.len() == 0,
            _ => false,
        }
    }

    fn eq_value(&self, other: &Self) -> (r: bool)
        ensures
            r == (self@ == other@),
    {
        match (self, other) {
            (Value::Id { value: a }, Value::Id { value: b }) => a == b,
            (Value::Text { value: a }, Value::Text { value: b }) => string_eq(a, b),
            (Value::DateTime { value: a }, Value::DateTime { value: b }) => a == b,
            (Value::UndoStatus { value: a }, Value::UndoStatus { value: b }) => a == b,
            (Value::DeliveryStatus { value: a }, Value::DeliveryStatus { value: b }) => {
                if a.len() != b.len() {
                    proof {
                        assert(self@->DeliveryStatus_0.len() != other@->DeliveryStatus_0.len());
                    }
                    return false;
                }
                let mut i: usize = 0;
                while i < a.len()
                    invariant
                        0 <= i <= a@.len(),
                        a@.len() == b@.len(),
                        self matches Value::DeliveryStatus { value: x } && x == a,
                        other matches Value::DeliveryStatus { value: y } && y == b,
                        forall|j: int|
                            0 <= j < i ==> self@->DeliveryStatus_0[j] == other@->DeliveryStatus_0[j],
                    decreases a@.len() - i,
                {
                    if !string_eq(&a[i].0, &b[i].0) || !eq_delivery_status(&a[i].1, &b[i].1) {
                        proof {
                            assert(self@->DeliveryStatus_0[i as int] != other@->DeliveryStatus_0[i as int]);
                        }
                        return false;
                    }
                    proof {
                        assert(self@->DeliveryStatus_0[i as int] == other@->DeliveryStatus_0[i as int]);
                    }
                    i = i + 1;
                }
                proof {
                    assert(self@->DeliveryStatus_0 =~= other@->DeliveryStatus_0);
                }
                true
            },
            (Value::Envelope { value: a }, Value::Envelope { value: b }) => eq_envelope(a, b),
            (Value::BlobIds { value: a }, Value::BlobIds { value: b }) => {
                if a.len() != b.len() {
                    return false;
                }
                let mut i: usize = 0;
                while i < a.len()
                    invariant
                        0 <= i <= a@.len(),
                        a@.len() == b@.len(),
                        self matches Value::BlobIds { value: x } && x == a,
                        other matches Value::BlobIds { value: y } && y == b,
                        forall|j: int| 0 <= j < i ==> a@[j] == b@[j],
                    decreases a@.len() - i,
                {
                    if a[i] != b[i] {
                        return false;
                    }
                    i = i + 1;
                }
                proof {
                    assert(a@ =~= b@);
                }
                true
            },
            (Value::IdReference { value: a }, Value::IdReference { value: b }) => string_eq(a, b),
            (Value::ResultReference { value: a }, Value::ResultReference { value: b }) => {
                string_eq(&a.result_of, &b.result_of) && string_eq(&a.name, &b.name) && string_eq(
                    &a.path,
                    &b.path,
                )
            },
            (Value::Null, Value::Null) => true,
            _ => false,
        }
    }

    fn clone_value(&self) -> (r: Self)
        ensures
            r@ == self@,
    {
        match self {
            Value::Id { value } => Value::Id { value: *value },
            Value::Text { value } => Value::Text { value: value.clone() },
            Value::DateTime { value } => Value::DateTime { value: *value },
            Value::UndoStatus { value } => Value::UndoStatus { value: *value },
            Value::DeliveryStatus { value } => {
                let mut out: Vec<(String, DeliveryStatus)> = Vec::new();
                let mut i: usize = 0;
                while i < value.len()
                    invariant
                        0 <= i <= value@.len(),
                        out@.len() == i,
                        forall|j: int|
                            0 <= j < i ==> (#[trigger] out@[j]).0@ == value@[j].0@ && out@[j].1@
                                == value@[j].1@,
                    decreases value@.len() - i,
                {
                    out.push(
                        (
                            value[i].0.clone(),
                            DeliveryStatus {
                                smtp_reply: value[i].1.smtp_reply.clone(),
                                delivered: value[i].1.delivered,
                                displayed: value[i].1.displayed,
                            },
                        ),
                    );
                    i = i + 1;
                }
                let r = Value::DeliveryStatus { value: out };
                proof {
                    assert(r@->DeliveryStatus_0 =~= self@->DeliveryStatus_0);
                }
                r
            },
            Value::Envelope { value } => Value::Envelope { value: clone_envelope(value) },
            Value::BlobIds { value } => {
                let mut out: Vec<u64> = Vec::new();
                let mut i: usize = 0;
                while i < value.len()
                    invariant
                        0 <= i <= value@.len(),
                        out@ =~= value@.subrange(0, i as int),
                    decreases value@.len() - i,
                {
                    out.push(value[i]);
                    proof {
                        assert(out@ =~= value@.subrange(0, i + 1));
                    }
                    i = i + 1;
                }
                proof {
                    assert(out@ =~= value@);
                }
                Value::BlobIds { value: out }
            },
            Value::IdReference { value } => Value::IdReference { value: value.clone() },
            Value::ResultReference { value } => Value::ResultReference {
                value: ResultReference {
                    result_of: value.result_of.clone(),
                    name: value.name.clone(),
                    path: value.path.clone(),
                },
            },
            Value::Null => Value::Null,
        }
    }

    fn encode_value(&self, out: &mut Vec<u8>) {
        match self {
            Value::Id { value } => {
                out.push(0);
                crate::orm::push_u64_le(out, *value);
            },
            Value::Text { value } => {
                out.push(1);
                crate::orm::push_str_bytes(out, value.as_str());
            },
            Value::DateTime { value } => {
                out.push(2);
                crate::orm::push_u64_le(out, *value);
            },
            Value::UndoStatus { value } => {
                out.push(3);
                out.push(
                    match value {
                        UndoStatus::Pending => 0,
                        UndoStatus::Final => 1,
                        UndoStatus::Canceled => 2,
                    },
                );
            },
            Value::DeliveryStatus { value } => {
                out.push(4);
                let mut i: usize = 0;
                while i < value.len()
                    decreases value@.len() - i,
                {
                    crate::orm::push_str_bytes(out, value[i].0.as_str());
                    crate::orm::push_str_bytes(out, value[i].1.smtp_reply.as_str());
                    i = i + 1;
                }
            },
            Value::Envelope { value } => {
                out.push(5);
                crate::orm::push_str_bytes(out, value.mail_from.email.as_str());
                let mut i: usize = 0;
                while i < value.rcpt_to.len()
                    decreases value.rcpt_to@.len() - i,
                {
                    crate::orm::push_str_bytes(out, value.rcpt_to[i].email.as_str());
                    i = i + 1;
                }
            },
            Value::BlobIds { value } => {
                out.push(6);
                let mut i: usize = 0;
                while i < value.len()
                    decreases value@.len() - i,
                {
                    crate::orm::push_u64_le(out, value[i]);
                    i = i + 1;
                }
            },
            Value::IdReference { value } => {
                out.push(7);
                crate::orm::push_str_bytes(out, value.as_str());
            },
            Value::ResultReference { value } => {
                out.push(8);
                crate::orm::push_str_bytes(out, value.result_of.as_str());
                crate::orm::push_str_bytes(out, value.name.as_str());
                crate::orm::push_str_bytes(out, value.path.as_str());
            },
            Value::Null => {
                out.push(9);
            },
        }
    }
}

/// The properties of an EmailSubmission object.
#[derive(Debug, Clone, Copy, PartialEq, Eq, Hash, Structural)]
pub enum Property {
    Id,
    IdentityId,
    EmailId,
    ThreadId,
    Envelope,
    SendAt,
    UndoStatus,
    DeliveryStatus,
    DsnBlobIds,
    MdnBlobIds,
    Invalid,
}

/// The small-integer key of a property.
pub open spec fn property_field(p: Property) -> FieldId {
    match p {
        Property::Id => 0,
        Property::IdentityId => 1,
        Property::EmailId => 2,
        Property::ThreadId => 3,
        Property::Envelope => 4,
        Property::SendAt => 5,
        Property::UndoStatus => 6,
        Property::DeliveryStatus => 7,
        Property::DsnBlobIds => 8,
        Property::MdnBlobIds => 9,
        Property::Invalid => 10,
    }
}

/// The property a JSON name denotes; unknown names are invalid.
pub open spec fn spec_property_parse(s: Seq<char>) -> Property {
    if s == "id"@ {
        Property::Id
    } else if s == "identityId"@ {
        Property::IdentityId
    } else if s == "emailId"@ {
        Property::EmailId
    } else if s == "threadId"@ {
        Property::ThreadId
    } else if s == "envelope"@ {
        Property::Envelope
    } else if s == "sendAt"@ {
        Property::SendAt
    } else if s == "undoStatus"@ {
        Property::UndoStatus
    } else if s == "deliveryStatus"@ {
        Property::DeliveryStatus
    } else if s == "dsnBlobIds"@ {
        Property::DsnBlobIds
    } else if s == "mdnBlobIds"@ {
        Property::MdnBlobIds
    } else {
        Property::Invalid
    }
}

/// The JSON name of each property; the invalid sentinel has none.
pub open spec fn spec_property_name(p: Property) -> Seq<char> {
    match p {
        Property::Id => "id"@,
        Property::IdentityId => "identityId"@,
        Property::EmailId => "emailId"@,
        Property::ThreadId => "threadId"@,
        Property::Envelope => "envelope"@,
        Property::SendAt => "sendAt"@,
        Property::UndoStatus => "undoStatus"@,
        Property::DeliveryStatus => "deliveryStatus"@,
        Property::DsnBlobIds => "dsnBlobIds"@,
        Property::MdnBlobIds => "mdnBlobIds"@,
        Property::Invalid => Seq::empty(),
    }
}

impl Property {
    pub fn parse(value: &str) -> (r: Property)
        ensures
            r == spec_property_parse(value@),
    {
        if str_eq(value, "id") {
            Property::Id
        } else if str_eq(value, "identityId") {
            Property::IdentityId
        } else if str_eq(value, "emailId") {
            Property::EmailId
        } else if str_eq(value, "threadId") {
            Property::ThreadId
        } else if str_eq(value, "envelope") {
            Property::Envelope
        } else if str_eq(value, "sendAt") {
            Property::SendAt
        } else if str_eq(value, "undoStatus") {
            Property::UndoStatus
        } else if str_eq(value, "deliveryStatus") {
            Property::DeliveryStatus
        } else if str_eq(value, "dsnBlobIds") {
            Property::DsnBlobIds
        } else if str_eq(value, "mdnBlobIds") {
            Property::MdnBlobIds
        } else {
            Property::Invalid
        }
    }

    /// The JSON name of a property; the invalid sentinel has none.
    pub fn name(&self) -> (r: String)
        ensures
            r@ == spec_property_name(*self),
    {
        let r: String = match self {
            Property::Id => "id".to_owned(),
            Property::IdentityId => "identityId".to_owned(),
            Property::EmailId => "emailId".to_owned(),
            Property::ThreadId => "threadId".to_owned(),
            Property::Envelope => "envelope".to_owned(),
            Property::SendAt => "sendAt".to_owned(),
            Property::UndoStatus => "undoStatus".to_owned(),
            Property::DeliveryStatus => "deliveryStatus".to_owned(),
            Property::DsnBlobIds => "dsnBlobIds".to_owned(),
            Property::MdnBlobIds => "mdnBlobIds".to_owned(),
            Property::Invalid => String::new(),
        };
        r
    }

    /// The small-integer key used by the ORM and the index.
    pub fn field_id(&self) -> (r: FieldId)
        ensures
            r == property_field(*self),
    {
        match self {
            Property::Id => 0,
            Property::IdentityId => 1,
            Property::EmailId => 2,
            Property::ThreadId => 3,
            Property::Envelope => 4,
            Property::SendAt => 5,
            Property::UndoStatus => 6,
            Property::DeliveryStatus => 7,
            Property::DsnBlobIds => 8,
            Property::MdnBlobIds => 9,
            Property::Invalid => 10,
        }
    }
}

impl From<Property> for FieldId {
    fn from(property: Property) -> (r: FieldId) {
        property.field_id()
    }
}

impl vstd::std_specs::convert::FromSpecImpl<Property> for FieldId {
    open spec fn obeys_from_spec() -> bool {
        true
    }

    open spec fn from_spec(property: Property) -> FieldId {
        property_field(property)
    }
}

/// An EmailSubmission object: its property values keyed by property.
#[derive(Debug)]
pub struct EmailSubmission {
    pub properties: Vec<(Property, Value)>,
}

/// Query filters over submissions; dates are Unix timestamps.
#[derive(Debug)]
pub enum Filter {
    IdentityIds { value: Vec<JMAPId> },
    EmailIds { value: Vec<JMAPId> },
    ThreadIds { value: Vec<JMAPId> },
    UndoStatus { value: UndoStatus },
    Before { value: u64 },
    After { value: u64 },
}

/// Sort comparators over submissions.
#[derive(Debug, Clone, Copy, PartialEq, Eq, Structural)]
pub enum Comparator {
    EmailId,
    ThreadId,
    SentAt,
}

/// Hook of the change-list machinery for the EmailSubmission collection.
pub struct ChangesEmailSubmission {}

/// Result of a change-list query, as far as the hooks shape it.
pub struct ChangesResult {
    pub account_id: crate::document::AccountId,
    pub total_changes: usize,
}

/// An object kind that exposes its collection to the change-list
/// machinery and may post-process a result.
pub trait ChangesObject: Sized {
    fn collection() -> Collection;

    fn handle_result(result: &mut ChangesResult);
}

impl ChangesObject for ChangesEmailSubmission {
    fn collection() -> (r: Collection)
        ensures
            r == Collection::EmailSubmission,
    {
        Collection::EmailSubmission
    }

    fn handle_result(result: &mut ChangesResult)
        ensures
            *final(result) == *old(result),
    {
    }
}

} // verus!
