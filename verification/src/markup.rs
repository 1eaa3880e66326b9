//! The raw markup events the container adapters hand to the core: element
//! starts, empty elements, element ends and character data, each with its
//! attributes as plain name/value pairs. The adapters do the container and
//! markup I/O; everything from events on is the core's logic.

use vstd::prelude::*;

verus! {

/// One markup event, as plain values.
#[derive(Debug, Clone)]
pub enum MarkupEvent {
    /// An element start tag with its attributes.
    Start { name: String, attrs: Vec<(String, String)> },
    /// An empty element with its attributes.
    Empty { name: String, attrs: Vec<(String, String)> },
    /// An element end tag.
    End { name: String },
    /// Character data.
    Text(String),
}

/// The value of the last attribute with the given name, as repeated
/// assignment while scanning the attributes leaves it.
pub open spec fn attr_of(attrs: Seq<(String, String)>, key: Seq<char>) -> Option<Seq<char>>
    decreases attrs.len(),
{
    if attrs.len() == 0 {
        None
    } else if attrs.last().0@ == key {
        Some(attrs.last().1@)
    } else {
        attr_of(attrs.drop_last(), key)
    }
}

/// Whether two strings hold the same characters.
pub fn string_eq(a: &String, b: &str) -> (r: bool)
    ensures
        r == (a@ == b@),
{
    *a == String::from_str(b)
}

/// The value of the last attribute with the given name.
pub fn find_attr<'a>(attrs: &'a Vec<(String, String)>, key: &str) -> (r: Option<&'a String>)
    ensures
        match r {
            Some(v) => attr_of(attrs@, key@) == Some(v@),
            None => attr_of(attrs@, key@) is None,
        },
{
    let mut i = attrs.len();
    while i > 0
        invariant
            0 <= i <= attrs.len(),
            forall|j: int| i <= j < attrs.len() ==> (#[trigger] attrs@[j]).0@ != key@,
        decreases i,
    {
        i = i - 1;
        if string_eq(&attrs[i].0, key) {
            proof {
                lemma_attr_of_at(attrs@, key@, i as int);
            }
            return Some(&attrs[i].1);
        }
    }
    proof {
        lemma_attr_of_none(attrs@, key@);
    }
    None
}

/// When every attribute from a position on but the one there misses the
/// key, the lookup lands on that one.
proof fn lemma_attr_of_at(attrs: Seq<(String, String)>, key: Seq<char>, i: int)
    requires
        0 <= i < attrs.len(),
        attrs[i].0@ == key,
        forall|j: int| i < j < attrs.len() ==> (#[trigger] attrs[j]).0@ != key,
    ensures
        attr_of(attrs, key) == Some(attrs[i].1@),
    decreases attrs.len(),
{
    if i == attrs.len() - 1 {
    } else {
        assert(attrs.drop_last()[i] == attrs[i]);
        lemma_attr_of_at(attrs.drop_last(), key, i);
    }
}

/// When no attribute carries the key, the lookup misses.
proof fn lemma_attr_of_none(attrs: Seq<(String, String)>, key: Seq<char>)
    requires
        forall|j: int| 0 <= j < attrs.len() ==> (#[trigger] attrs[j]).0@ != key,
    ensures
        attr_of(attrs, key) is None,
    decreases attrs.len(),
{
    if attrs.len() > 0 {
        lemma_attr_of_none(attrs.drop_last(), key);
    }
}

/// The map an association list denotes, later pairs overwriting earlier
/// ones.
pub open spec fn assoc_map(pairs: Seq<(String, String)>) -> Map<Seq<char>, Seq<char>>
    decreases pairs.len(),
{
    if pairs.len() == 0 {
        Map::empty()
    } else {
        assoc_map(pairs.drop_last()).insert(pairs.last().0@, pairs.last().1@)
    }
}

/// Looking a key up in an association list from the back agrees with the
/// map it denotes.
pub proof fn lemma_assoc_lookup(pairs: Seq<(String, String)>, key: Seq<char>)
    ensures
        match attr_of(pairs, key) {
            Some(v) => assoc_map(pairs).contains_key(key) && assoc_map(pairs)[key] == v,
            None => !assoc_map(pairs).contains_key(key),
        },
    decreases pairs.len(),
{
    if pairs.len() > 0 {
        lemma_assoc_lookup(pairs.drop_last(), key);
    }
}

} // verus!
