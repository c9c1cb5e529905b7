//! A codec for two tagged binary serialization formats: a legacy
//! marker-dispatch format and its successor.  Decoding turns a byte
//! stream into a typed value tree; encoding writes a value tree back
//! to bytes.  Both directions carry contracts relating them to a
//! mathematical model of the wire format.
use vstd::prelude::*;

pub mod amf0;
pub mod amf3;
pub mod wire;

verus! {

/// A decoded value of whichever format an entry point produced,
/// tagged by format.
#[derive(Debug, PartialEq)]
pub enum Value {
    Amf0Value(amf0::Value),
}

/// A property map: keys paired with values, in insertion order.
/// Decoding keeps at most one entry per key (a later occurrence on the
/// wire overwrites the earlier one in place).
pub type Property<T> = Vec<(String, T)>;

/// A property map together with an optional class name; an empty class
/// name means an anonymous, untyped object.
#[derive(Debug, PartialEq, Clone)]
pub struct Object<T> {
    pub class_name: String,
    pub property: Property<T>,
}

/// The first index of the property list holding `k`, or the length
/// when no entry does.
pub open spec fn key_index<T>(ps: Seq<(String, T)>, k: Seq<char>) -> int
    decreases ps,
{
    if ps.len() == 0 {
        0
    } else if ps[0].0@ == k {
        0
    } else {
        1 + key_index(ps.subrange(1, ps.len() as int), k)
    }
}

impl<T> Object<T> {
    /// The value stored under `key`, which must be present: the one
    /// at the first entry holding it.
    pub fn index(&self, key: &String) -> (r: &T)
        requires
            exists|i: int| 0 <= i < self.property@.len() && self.property@[i].0@ == key@,
        ensures
            0 <= key_index(self.property@, key@) < self.property@.len(),
            r == &self.property@[key_index(self.property@, key@)].1,
    {
        let ghost k = key_index(self.property@, key@);
        proof {
            lemma_key_index(self.property@, key@);
        }
        let mut j: usize = 0;
        while j < self.property.len()
            invariant
                j <= self.property@.len(),
                exists|i: int| j <= i < self.property@.len() && self.property@[i].0@ == key@,
                k == key_index(self.property@, key@),
                0 <= k < self.property@.len(),
                self.property@[k].0@ == key@,
                forall|i: int| 0 <= i < k ==> (#[trigger] self.property@[i]).0@ != key@,
                j <= k,
            decreases self.property@.len() - j,
        {
            if self.property[j].0 == *key {
                proof {
                    assert(self.property@[j as int].0@ == key@);
                }
                return &self.property[j].1;
            }
            j = j + 1;
        }
        proof {
            assert(false);
        }
        unreached()
    }
}

/// `key_index` finds the first entry holding the key, or the length
/// when no entry does.
pub proof fn lemma_key_index<T>(ps: Seq<(String, T)>, k: Seq<char>)
    ensures
        0 <= key_index(ps, k) <= ps.len(),
        key_index(ps, k) < ps.len() ==> ps[key_index(ps, k)].0@ == k,
        forall|i: int| 0 <= i < key_index(ps, k) ==> (#[trigger] ps[i]).0@ != k,
    decreases ps,
{
    if ps.len() > 0 && ps[0].0@ != k {
        let rest = ps.subrange(1, ps.len() as int);
        lemma_key_index(rest, k);
        assert forall|i: int| 0 <= i < key_index(ps, k) implies (#[trigger] ps[i]).0@ != k by {
            if i > 0 {
                assert(ps[i] == rest[i - 1]);
            }
        }
    }
}

/// An instant in milliseconds since the epoch, transported as the raw
/// IEEE-754 bit pattern of a 64-bit float, together with a reserved
/// 16-bit timezone field that is always written as zero.
#[derive(Debug, PartialEq, Eq, Structural, Clone, Copy)]
pub struct Date {
    /// IEEE-754 bit pattern of the millisecond timestamp.
    pub millis: u64,
    /// Reserved on the wire; decoded values are preserved verbatim.
    pub timezone: u16,
}

impl Date {
    /// A date with the given timestamp bits and a zero timezone field.
    pub fn new(millis: u64) -> (d: Date)
        ensures
            d.millis == millis,
            d.timezone == 0,
    {
        Date { millis, timezone: 0 }
    }
}

/// Why a decode failed.
#[derive(Debug, PartialEq, Eq, Structural, Clone, Copy)]
pub enum DecodeError {
    /// The byte source ended in the middle of a value.
    Truncated,
    /// A string, key or class name held bytes that are not valid UTF-8.
    InvalidUtf8,
    /// The successor format saw a marker outside its decodable subset.
    UnsupportedMarker,
}

} // verus!
