//! A parsed JMAP method invocation: the object kind the call addresses,
//! the method and its request, and the account it works on.

use vstd::prelude::*;

use crate::collection::Collection;
use crate::document::AccountId;
use crate::errors::MethodError;
use crate::json::{json_get, JSONValue};
use crate::strings::str_eq;

verus! {

/// The object kinds a method can address.
#[derive(Debug, Clone, Copy, PartialEq, Eq, Hash, Structural)]
pub enum Object {
    Core,
    Mailbox,
    Thread,
    Email,
    SearchSnippet,
    Identity,
    EmailSubmission,
    VacationResponse,
    PushSubscription,
}

/// The object kind a name denotes.
pub open spec fn spec_object_parse(s: Seq<char>) -> Option<Object> {
    if s == "Core"@ {
        Some(Object::Core)
    } else if s == "Mailbox"@ {
        Some(Object::Mailbox)
    } else if s == "Thread"@ {
        Some(Object::Thread)
    } else if s == "Email"@ {
        Some(Object::Email)
    } else if s == "SearchSnippet"@ {
        Some(Object::SearchSnippet)
    } else if s == "Identity"@ {
        Some(Object::Identity)
    } else if s == "EmailSubmission"@ {
        Some(Object::EmailSubmission)
    } else if s == "VacationResponse"@ {
        Some(Object::VacationResponse)
    } else if s == "PushSubscription"@ {
        Some(Object::PushSubscription)
    } else {
        None
    }
}

impl Object {
    pub fn parse(name: &str) -> (r: Option<Object>)
        ensures
            r == spec_object_parse(name@),
    {
        if str_eq(name, "Core") {
            Some(Object::Core)
        } else if str_eq(name, "Mailbox") {
            Some(Object::Mailbox)
        } else if str_eq(name, "Thread") {
            Some(Object::Thread)
        } else if str_eq(name, "Email") {
            Some(Object::Email)
        } else if str_eq(name, "SearchSnippet") {
            Some(Object::SearchSnippet)
        } else if str_eq(name, "Identity") {
            Some(Object::Identity)
        } else if str_eq(name, "EmailSubmission") {
            Some(Object::EmailSubmission)
        } else if str_eq(name, "VacationResponse") {
            Some(Object::VacationResponse)
        } else if str_eq(name, "PushSubscription") {
            Some(Object::PushSubscription)
        } else {
            None
        }
    }

    /// The object kind of a collection; the principal and sentinel
    /// collections address no object.
    pub fn of_collection(col: Collection) -> (r: Option<Object>)
        ensures
            r == match col {
                Collection::Mail => Some(Object::Email),
                Collection::Mailbox => Some(Object::Mailbox),
                Collection::Thread => Some(Object::Thread),
                Collection::Identity => Some(Object::Identity),
                Collection::EmailSubmission => Some(Object::EmailSubmission),
                Collection::VacationResponse => Some(Object::VacationResponse),
                Collection::PushSubscription => Some(Object::PushSubscription),
                _ => None::<Object>,
            },
    {
        match col {
            Collection::Mail => Some(Object::Email),
            Collection::Mailbox => Some(Object::Mailbox),
            Collection::Thread => Some(Object::Thread),
            Collection::Identity => Some(Object::Identity),
            Collection::EmailSubmission => Some(Object::EmailSubmission),
            Collection::VacationResponse => Some(Object::VacationResponse),
            Collection::PushSubscription => Some(Object::PushSubscription),
            _ => None,
        }
    }
}

/// The collection an object kind is stored in.
pub open spec fn spec_collection_of(obj: Object) -> Collection {
    match obj {
        Object::Email => Collection::Mail,
        Object::Mailbox => Collection::Mailbox,
        Object::Thread => Collection::Thread,
        Object::Identity => Collection::Identity,
        Object::EmailSubmission => Collection::EmailSubmission,
        Object::VacationResponse => Collection::VacationResponse,
        Object::PushSubscription => Collection::PushSubscription,
        Object::SearchSnippet => Collection::Invalid,
        Object::Core => Collection::Invalid,
    }
}

impl From<Object> for Collection {
    fn from(obj: Object) -> (r: Self) {
        match obj {
            Object::Email => Collection::Mail,
            Object::Mailbox => Collection::Mailbox,
            Object::Thread => Collection::Thread,
            Object::Identity => Collection::Identity,
            Object::EmailSubmission => Collection::EmailSubmission,
            Object::VacationResponse => Collection::VacationResponse,
            Object::PushSubscription => Collection::PushSubscription,
            Object::SearchSnippet => Collection::Invalid,
            Object::Core => Collection::Invalid,
        }
    }
}

impl vstd::std_specs::convert::FromSpecImpl<Object> for Collection {
    open spec fn obeys_from_spec() -> bool {
        true
    }

    open spec fn from_spec(obj: Object) -> Collection {
        spec_collection_of(obj)
    }
}

/// A `get` request, reduced to what the coordinator routes on.
#[derive(Debug, Clone, Copy, PartialEq, Eq, Structural)]
pub struct GetRequest {
    pub account_id: AccountId,
}

/// A `set` request: the account and the sizes of its three change maps.
#[derive(Debug, Clone, Copy, PartialEq, Eq, Structural)]
pub struct SetRequest {
    pub account_id: AccountId,
    pub create: usize,
    pub update: usize,
    pub destroy: usize,
    pub tombstone_deletions: bool,
}

#[derive(Debug, Clone, Copy, PartialEq, Eq, Structural)]
pub struct QueryRequest {
    pub account_id: AccountId,
}

#[derive(Debug, Clone, Copy, PartialEq, Eq, Structural)]
pub struct QueryChangesRequest {
    pub account_id: AccountId,
}

#[derive(Debug, Clone, Copy, PartialEq, Eq, Structural)]
pub struct ChangesRequest {
    pub account_id: AccountId,
}

#[derive(Debug, Clone, Copy, PartialEq, Eq, Structural)]
pub struct ImportRequest {
    pub account_id: AccountId,
}

#[derive(Debug, Clone, Copy, PartialEq, Eq, Structural)]
pub struct ParseRequest {
    pub account_id: AccountId,
}

/// One method call of an invocation.
#[derive(Debug)]
pub enum Method {
    Echo(JSONValue),
    Get(GetRequest),
    SetCall(SetRequest),
    Query(QueryRequest),
    QueryChanges(QueryChangesRequest),
    Changes(ChangesRequest),
    Import(ImportRequest),
    Parse(ParseRequest),
}

/// One parsed method invocation.
#[derive(Debug)]
pub struct Invocation {
    pub obj: Object,
    pub call: Method,
    pub account_id: AccountId,
}

/// The account id named in a request's arguments, if a well-formed one is
/// there.
pub open spec fn spec_account_of(arguments: JSONValue) -> Option<AccountId> {
    match arguments {
        JSONValue::Object(fields) => match json_get(fields@, "accountId"@) {
            Some(JSONValue::Number(n)) => if n <= u32::MAX {
                Some(n as AccountId)
            } else {
                None
            },
            _ => None,
        },
        _ => None,
    }
}

/// Reads the account id of a request.
fn parse_account_id(arguments: &JSONValue) -> (r: Option<AccountId>)
    ensures
        r == spec_account_of(*arguments),
{
    match arguments.get("accountId") {
        Some(v) => match v.as_u64() {
            Some(n) => {
                if n <= 0xffffffff {
                    Some(n as AccountId)
                } else {
                    None
                }
            },
            None => None,
        },
        None => None,
    }
}

/// Whether a call name is one the parser knows.
pub open spec fn spec_known_call(s: Seq<char>) -> bool {
    s == "echo"@ || s == "get"@ || s == "set"@ || s == "query"@ || s == "queryChanges"@ || s
        == "changes"@ || s == "import"@ || s == "parse"@
}

/// How many entries a request field holds: the size of its array or
/// object, nothing for anything else.
pub open spec fn spec_field_count(arguments: JSONValue, key: Seq<char>) -> int {
    match crate::json::spec_json_field(arguments, key) {
        Some(JSONValue::Array(items)) => items@.len() as int,
        Some(JSONValue::Object(fields)) => fields@.len() as int,
        _ => 0,
    }
}

/// The number of objects a `set` request touches.
pub open spec fn spec_set_counts(arguments: JSONValue) -> int {
    spec_field_count(arguments, "create"@) + spec_field_count(arguments, "update"@)
        + spec_field_count(arguments, "destroy"@)
}

impl Invocation {
    /// Parses one invocation from the already-split method name
    /// (object part and call part) and its arguments. A `set` whose three
    /// change maps together exceed `max_objects_in_set` is rejected as too
    /// large; an unknown object or a missing account id is rejected as
    /// invalid; an unknown call name is rejected as unknown.
    pub fn parse(
        obj_name: &str,
        call_name: &str,
        arguments: JSONValue,
        max_objects_in_set: usize,
    ) -> (r: Result<Invocation, MethodError>)
        ensures
            (r == Err::<Invocation, MethodError>(MethodError::InvalidArguments)) == (
            spec_object_parse(obj_name@) is None || (spec_object_parse(obj_name@) is Some
                && call_name@ != "echo"@ && spec_account_of(arguments) is None)),
            (r == Err::<Invocation, MethodError>(MethodError::UnknownMethod)) == (
            spec_object_parse(obj_name@) is Some && call_name@ != "echo"@ && spec_account_of(
                arguments,
            ) is Some && !spec_known_call(call_name@)),
            (r == Err::<Invocation, MethodError>(MethodError::RequestTooLarge)) == (
            spec_object_parse(obj_name@) is Some && call_name@ == "set"@ && spec_account_of(
                arguments,
            ) is Some && spec_set_counts(arguments) > max_objects_in_set),
            r matches Ok(inv) ==> {
                &&& Some(inv.obj) == spec_object_parse(obj_name@)
                &&& (call_name@ == "echo"@ ==> inv.account_id == 0 && inv.call is Echo)
                &&& (call_name@ != "echo"@ ==> Some(inv.account_id) == spec_account_of(arguments))
                &&& (call_name@ == "get"@ ==> inv.call is Get)
                &&& (call_name@ == "set"@ ==> (inv.call matches Method::SetCall(sr) && sr.create
                    == spec_field_count(arguments, "create"@) && sr.update == spec_field_count(
                    arguments,
                    "update"@,
                ) && sr.destroy == spec_field_count(arguments, "destroy"@) && sr.create
                    + sr.update + sr.destroy <= max_objects_in_set && !sr.tombstone_deletions))
                &&& (call_name@ == "query"@ ==> inv.call is Query)
                &&& (call_name@ == "queryChanges"@ ==> inv.call is QueryChanges)
                &&& (call_name@ == "changes"@ ==> inv.call is Changes)
                &&& (call_name@ == "import"@ ==> inv.call is Import)
                &&& (call_name@ == "parse"@ ==> inv.call is Parse)
            },
    {
        proof {
            reveal_strlit("echo");
            reveal_strlit("get");
            reveal_strlit("set");
            reveal_strlit("query");
            reveal_strlit("queryChanges");
            reveal_strlit("changes");
            reveal_strlit("import");
            reveal_strlit("parse");
            assert("echo"@.len() == 4);
            assert("get"@.len() == 3);
            assert("set"@.len() == 3);
            assert("query"@.len() == 5);
            assert("queryChanges"@.len() == 12);
            assert("changes"@.len() == 7);
            assert("import"@.len() == 6);
            assert("parse"@.len() == 5);
            assert("get"@[0] == 'g');
            assert("set"@[0] == 's');
            assert("query"@[0] == 'q');
            assert("parse"@[0] == 'p');
        }
        let obj = match Object::parse(obj_name) {
            Some(o) => o,
            None => {
                return Err(MethodError::InvalidArguments);
            },
        };
        if str_eq(call_name, "echo") {
            proof {
                assert(call_name@ != "get"@);
                assert(call_name@ != "set"@);
            }
            return Ok(Invocation { obj, call: Method::Echo(arguments), account_id: 0 });
        }
        let account_id = match parse_account_id(&arguments) {
            Some(a) => a,
            None => {
                return Err(MethodError::InvalidArguments);
            },
        };
        let call = if str_eq(call_name, "get") {
            Method::Get(GetRequest { account_id })
        } else if str_eq(call_name, "set") {
            let create = match arguments.get("create") {
                Some(v) => v.entry_count(),
                None => 0,
            };
            let update = match arguments.get("update") {
                Some(v) => v.entry_count(),
                None => 0,
            };
            let destroy = match arguments.get("destroy") {
                Some(v) => v.entry_count(),
                None => 0,
            };
            if create as u128 + update as u128 + destroy as u128 > max_objects_in_set as u128 {
                return Err(MethodError::RequestTooLarge);
            }
            Method::SetCall(
                SetRequest { account_id, create, update, destroy, tombstone_deletions: false },
            )
        } else if str_eq(call_name, "query") {
            Method::Query(QueryRequest { account_id })
        } else if str_eq(call_name, "queryChanges") {
            Method::QueryChanges(QueryChangesRequest { account_id })
        } else if str_eq(call_name, "changes") {
            Method::Changes(ChangesRequest { account_id })
        } else if str_eq(call_name, "import") {
            Method::Import(ImportRequest { account_id })
        } else if str_eq(call_name, "parse") {
            Method::Parse(ParseRequest { account_id })
        } else {
            return Err(MethodError::UnknownMethod);
        };
        Ok(Invocation { obj, call, account_id })
    }

    /// Marks a `set` call for tombstoned deletions; other calls are left
    /// alone.
    pub fn update_set_flags(&mut self, set_tombstone_deletions: bool) -> (r: bool)
        ensures
            r == (old(self).call is SetCall),
            old(self).call matches Method::SetCall(s) ==> final(self).call == Method::SetCall(
                SetRequest { tombstone_deletions: set_tombstone_deletions, ..s },
            ),
            !(old(self).call is SetCall) ==> *final(self) == *old(self),
            final(self).obj == old(self).obj,
            final(self).account_id == old(self).account_id,
    {
        match &self.call {
            Method::SetCall(s) => {
                let s2 = SetRequest { tombstone_deletions: set_tombstone_deletions, ..*s };
                self.call = Method::SetCall(s2);
                true
            },
            _ => false,
        }
    }
}

} // verus!
