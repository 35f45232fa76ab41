//! The type tags that the server reports for a key.

use vstd::prelude::*;
use crate::bytes::{is_text, text};

verus! {

/// The type of the value stored at a key, as the server reports it.
#[derive(Clone, Copy, Debug, PartialEq, Eq)]
pub enum KeyType {
    /// `none`: the key holds nothing.
    NoKey,
    /// `string`.
    StringValue,
    /// `list`.
    List,
    /// `hash`.
    Hash,
    /// `set`.
    SetValue,
    /// `zset`.
    SortedSet,
    /// `stream`.
    Stream,
}

/// The type that the tag `tag` names, if it names one.
pub open spec fn key_type_of(tag: Seq<u8>) -> Option<KeyType> {
    if tag == text("none") {
        Some(KeyType::NoKey)
    } else if tag == text("string") {
        Some(KeyType::StringValue)
    } else if tag == text("list") {
        Some(KeyType::List)
    } else if tag == text("hash") {
        Some(KeyType::Hash)
    } else if tag == text("set") {
        Some(KeyType::SetValue)
    } else if tag == text("zset") {
        Some(KeyType::SortedSet)
    } else if tag == text("stream") {
        Some(KeyType::Stream)
    } else {
        None
    }
}

impl KeyType {
    /// The type that the tag `tag` names, if it names one.
    pub fn from_tag(tag: &[u8]) -> (key_type: Option<KeyType>)
        ensures
            key_type == key_type_of(tag@),
    {
        if is_text(tag, "none") {
            Some(KeyType::NoKey)
        } else if is_text(tag, "string") {
            Some(KeyType::StringValue)
        } else if is_text(tag, "list") {
            Some(KeyType::List)
        } else if is_text(tag, "hash") {
            Some(KeyType::Hash)
        } else if is_text(tag, "set") {
            Some(KeyType::SetValue)
        } else if is_text(tag, "zset") {
            Some(KeyType::SortedSet)
        } else if is_text(tag, "stream") {
            Some(KeyType::Stream)
        } else {
            None
        }
    }
}

} // verus!
