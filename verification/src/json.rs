//! A plain JSON value tree, as handed in by the transport layer.

use vstd::prelude::*;

use crate::strings::str_eq;

verus! {

/// A parsed JSON value. Numbers are held as unsigned integers, which is
/// all the replication protocol and the request envelopes use.
#[derive(Debug)]
pub enum JSONValue {
    Null,
    Bool(bool),
    Number(u64),
    String(String),
    Array(Vec<JSONValue>),
    Object(Vec<(String, JSONValue)>),
}

/// The value of the first field named `key`, scanning left to right.
pub open spec fn json_get(fields: Seq<(String, JSONValue)>, key: Seq<char>) -> Option<JSONValue>
    decreases fields.len(),
{
    if fields.len() == 0 {
        None
    } else if fields[0].0@ == key {
        Some(fields[0].1)
    } else {
        json_get(fields.drop_first(), key)
    }
}

/// The field named `key` of a JSON object value; other values hold none.
pub open spec fn spec_json_field(v: JSONValue, key: Seq<char>) -> Option<JSONValue> {
    if v is Object {
        json_get(v->Object_0@, key)
    } else {
        None
    }
}

impl JSONValue {
    /// Looks a field up in an object; anything else holds no fields.
    pub fn get<'a>(&'a self, key: &str) -> (r: Option<&'a JSONValue>)
        ensures
            match r {
                Some(v) => spec_json_field(*self, key@) == Some(*v),
                None => spec_json_field(*self, key@) is None,
            },
    {
        match self {
            JSONValue::Object(fields) => {
                let mut i: usize = 0;
                proof {
                    assert(*self == JSONValue::Object(*fields));
                    assert(fields@.skip(0) =~= fields@);
                }
                while i < fields.len()
                    invariant
                        0 <= i <= fields@.len(),
                        *self == JSONValue::Object(*fields),
                        json_get(fields@, key@) == json_get(fields@.skip(i as int), key@),
                    decreases fields@.len() - i,
                {
                    proof {
                        assert(fields@.skip(i as int).len() > 0);
                        assert(fields@.skip(i as int)[0] == fields@[i as int]);
                        assert(fields@.skip(i as int).drop_first() =~= fields@.skip(i + 1));
                    }
                    if str_eq(fields[i].0.as_str(), key) {
                        proof {
                            assert(json_get(fields@.skip(i as int), key@) == Some(
                                fields@[i as int].1,
                            ));
                            assert(spec_json_field(*self, key@) == Some(fields@[i as int].1));
                        }
                        let out = &fields[i].1;
                        proof {
                            assert(*out == fields@[i as int].1);
                        }
                        return Some(out);
                    }
                    i = i + 1;
                }
                proof {
                    assert(fields@.skip(fields@.len() as int).len() == 0);
                }
                None
            },
            _ => None,
        }
    }

    /// The unsigned number a value holds, if it is one.
    pub fn as_u64(&self) -> (r: Option<u64>)
        ensures
            r == match *self {
                JSONValue::Number(n) => Some(n),
                _ => None::<u64>,
            },
    {
        match self {
            JSONValue::Number(n) => Some(*n),
            _ => None,
        }
    }

    /// How many items an array or object holds; other values hold none.
    pub fn entry_count(&self) -> (r: usize)
        ensures
            r == match *self {
                JSONValue::Array(items) => items@.len(),
                JSONValue::Object(fields) => fields@.len(),
                _ => 0,
            },
    {
        match self {
            JSONValue::Array(items) => items.len(),
            JSONValue::Object(fields) => fields.len(),
            _ => 0,
        }
    }
}

} // verus!
