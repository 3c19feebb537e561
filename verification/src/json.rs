//! JSON values, as the files of a catalog hold them.

use vstd::prelude::*;

use crate::text::same_text;

verus! {

/// A number: the bits of its double-precision value, and of that value rounded
/// to single precision.
#[derive(Debug, Clone, Copy, PartialEq, Eq)]
pub struct Number {
    pub double: u64,
    pub single: u32,
}

/// A JSON value.  The keys of an object are in the order of the file; a key that
/// the file repeats is there once, with its last value.
#[derive(Debug)]
pub enum Json {
    Null,
    Bool(bool),
    Number(Number),
    Text(String),
    List(Vec<Json>),
    Object(Vec<(String, Json)>),
}

/// The member of an object that has a name.
pub open spec fn named_from(members: Seq<(String, Json)>, key: Seq<char>, from: int) -> Option<Json>
    decreases members.len() - from,
{
    if from < 0 || from >= members.len() {
        None
    } else if members[from].0@ == key {
        Some(members[from].1)
    } else {
        named_from(members, key, from + 1)
    }
}

/// What an object holds under a key; other values hold nothing.
pub open spec fn member(value: Json, key: Seq<char>) -> Option<Json> {
    match value {
        Json::Object(members) => named_from(members@, key, 0),
        _ => None,
    }
}

/// The text that an object holds under a key.
pub open spec fn text_member(value: Json, key: Seq<char>) -> Option<Seq<char>> {
    match member(value, key) {
        Some(Json::Text(text)) => Some(text@),
        _ => None,
    }
}

/// The text that an object holds under a key, or else a default.
pub open spec fn text_or(value: Json, key: Seq<char>, default: Seq<char>) -> Seq<char> {
    match text_member(value, key) {
        Some(text) => text,
        None => default,
    }
}

/// The list that an object holds under a key.
pub open spec fn list_member(value: Json, key: Seq<char>) -> Option<Seq<Json>> {
    match member(value, key) {
        Some(Json::List(items)) => Some(items@),
        _ => None,
    }
}

/// The list that an object holds under a key, or else an empty one.
pub open spec fn items_of(value: Json, key: Seq<char>) -> Seq<Json> {
    match list_member(value, key) {
        Some(items) => items,
        None => Seq::empty(),
    }
}

/// Whether an object holds `true` under a key.
pub open spec fn is_set(value: Json, key: Seq<char>) -> bool {
    member(value, key) == Some(Json::Bool(true))
}

impl Json {
    /// What an object holds under a key.
    pub fn get(&self, key: &str) -> (found: Option<&Json>)
        ensures
            match found {
                Some(value) => member(*self, key@) == Some(*value),
                None => member(*self, key@) is None,
            },
    {
        match self {
            Json::Object(members) => {
                let mut i: usize = 0;
                while i < members.len()
                    invariant
                        i <= members@.len(),
                        member(*self, key@) == named_from(members@, key@, i as int),
                    decreases members.len() - i,
                {
                    if same_text(members[i].0.as_str(), key) {
                        return Some(&members[i].1);
                    }
                    i = i + 1;
                }
                None
            },
            _ => None,
        }
    }

    /// The text that an object holds under a key.
    pub fn get_text(&self, key: &str) -> (found: Option<&str>)
        ensures
            match found {
                Some(text) => text_member(*self, key@) == Some(text@),
                None => text_member(*self, key@) is None,
            },
    {
        match self.get(key) {
            Some(Json::Text(text)) => Some(text.as_str()),
            _ => None,
        }
    }

    /// The text that an object holds under a key, or else `default`.
    pub fn get_text_or<'a>(&'a self, key: &str, default: &'a str) -> (text: &'a str)
        ensures
            text@ == text_or(*self, key@, default@),
    {
        match self.get_text(key) {
            Some(text) => text,
            None => default,
        }
    }

    /// The list that an object holds under a key.
    pub fn get_list(&self, key: &str) -> (found: Option<&Vec<Json>>)
        ensures
            match found {
                Some(items) => list_member(*self, key@) == Some(items@),
                None => list_member(*self, key@) is None,
            },
    {
        match self.get(key) {
            Some(Json::List(items)) => Some(items),
            _ => None,
        }
    }

    /// Whether an object holds `true` under a key.
    pub fn has_set(&self, key: &str) -> (answer: bool)
        ensures
            answer == is_set(*self, key@),
    {
        match self.get(key) {
            Some(Json::Bool(value)) => *value,
            _ => false,
        }
    }
}

} // verus!
