//! Parsed scene-description documents.
//!
//! A `DocValue` is the in-memory form of a scene description: numbers carry
//! fixed-point quanta, and objects are ordered key/value lists. An outside
//! loader produces it from whatever encoding it reads; the scene builder in
//! `scene` consumes it and makes every acceptance decision itself.

use vstd::prelude::*;

verus! {

/// One node of a scene-description document.
#[derive(Debug)]
pub enum DocValue {
    Null,
    /// A number, already scaled to fixed-point quanta.
    Num(i64),
    Text(String),
    List(Vec<DocValue>),
    Object(Vec<(String, DocValue)>),
}

/// The first value under `key`, if any.
pub open spec fn doc_lookup(entries: Seq<(String, DocValue)>, key: Seq<char>) -> Option<DocValue>
    decreases entries.len(),
{
    if entries.len() == 0 {
        None
    } else if entries[0].0@ == key {
        Some(entries[0].1)
    } else {
        doc_lookup(entries.drop_first(), key)
    }
}

/// The value behind an optional borrowed node.
pub open spec fn opt_val(o: Option<&DocValue>) -> Option<DocValue> {
    match o {
        Some(d) => Some(*d),
        None => None,
    }
}

/// Look a key up in a document object's entries.
pub fn doc_get<'a>(entries: &'a Vec<(String, DocValue)>, key: &str) -> (r: Option<&'a DocValue>)
    ensures
        match r {
            Some(v) => doc_lookup(entries@, key@) == Some(*v),
            None => doc_lookup(entries@, key@) is None,
        },
{
    let owned_key = key.to_owned();
    let n = entries.len();
    let mut i: usize = 0;
    proof {
        assert(entries@.skip(0) =~= entries@);
    }
    while i < n
        invariant
            n == entries@.len(),
            0 <= i <= n,
            owned_key@ == key@,
            doc_lookup(entries@, key@) == doc_lookup(entries@.skip(i as int), key@),
        decreases n - i,
    {
        proof {
            assert(entries@.skip(i as int).drop_first() =~= entries@.skip(i as int + 1));
            assert(entries@.skip(i as int)[0] == entries@[i as int]);
        }
        if entries[i].0 == owned_key {
            return Some(&entries[i].1);
        }
        i = i + 1;
    }
    proof {
        assert(entries@.skip(n as int) =~= Seq::<(String, DocValue)>::empty());
    }
    None
}

} // verus!
