use vstd::prelude::*;

use crate::de::{array_head_spec, Deserializer};
use crate::error::Error;
use crate::read::ReadSlice;

verus! {

/// A single-pass cursor over the elements of an array whose length was declared on the wire.
#[derive(Debug)]
pub struct SeqAccess {
    left: usize,
}

impl SeqAccess {
    /// How many elements are still to come.
    pub closed spec fn left(&self) -> usize {
        self.left
    }

    /// A cursor over `len` elements.
    pub fn new(len: usize) -> (r: Self)
        ensures
            r.left() == len,
    {
        SeqAccess { left: len }
    }

    /// Whether another element is to be decoded; counts it off if so. Once the declared
    /// elements are used up, it answers false every time.
    pub fn next_element(&mut self) -> (r: bool)
        ensures
            r == (old(self).left() > 0),
            final(self).left() == (if r { (old(self).left() - 1) as usize } else { 0 }),
    {
        if self.left > 0 {
            self.left = self.left - 1;
            true
        } else {
            false
        }
    }

    /// How many elements are still to come.
    pub fn size_hint(&self) -> (r: usize)
        ensures
            r == self.left(),
    {
        self.left
    }
}

/// A single-pass cursor over the key-value pairs of a map whose length was declared on the wire.
#[derive(Debug)]
pub struct MapAccess {
    left: usize,
}

impl MapAccess {
    /// How many pairs are still to come.
    pub closed spec fn left(&self) -> usize {
        self.left
    }

    /// A cursor over `len` pairs.
    pub fn new(len: usize) -> (r: Self)
        ensures
            r.left() == len,
    {
        MapAccess { left: len }
    }

    /// Whether another pair is to be decoded, key first; counts it off if so. Once the
    /// declared pairs are used up, it answers false every time.
    pub fn next_key(&mut self) -> (r: bool)
        ensures
            r == (old(self).left() > 0),
            final(self).left() == (if r { (old(self).left() - 1) as usize } else { 0 }),
    {
        if self.left > 0 {
            self.left = self.left - 1;
            true
        } else {
            false
        }
    }

    /// How many pairs are still to come.
    pub fn size_hint(&self) -> (r: usize)
        ensures
            r == self.left(),
    {
        self.left
    }
}

/// The variant of an enum that was written as a bare index: it carries no payload.
#[derive(Debug)]
pub struct UnitVariantAccess {
    variant_idx: u32,
}

impl UnitVariantAccess {
    /// The index of the variant.
    pub closed spec fn index(&self) -> u32 {
        self.variant_idx
    }

    /// The variant of index `variant_idx`.
    pub fn new(variant_idx: u32) -> (r: Self)
        ensures
            r.index() == variant_idx,
    {
        UnitVariantAccess { variant_idx }
    }

    /// The index of the variant.
    pub fn variant(&self) -> (r: u32)
        ensures
            r == self.index(),
    {
        self.variant_idx
    }

    /// Takes the variant as one without payload, which it is.
    pub fn unit_variant(self) -> (r: Result<(), Error>)
        ensures
            r is Ok,
    {
        Ok(())
    }

    /// Asks for a payload of one value, which the wire did not give.
    pub fn newtype_variant(self) -> (r: Result<(), Error>)
        ensures
            r matches Err(Error::Uncategorized(m)) && m@
                == "expected a unit variant, got a newtype variant"@,
    {
        Err(Error::Uncategorized("expected a unit variant, got a newtype variant".to_string()))
    }

    /// Asks for a payload of several values, which the wire did not give.
    pub fn tuple_variant(self, _len: usize) -> (r: Result<(), Error>)
        ensures
            r matches Err(Error::Uncategorized(m)) && m@
                == "expected a unit variant, got a tuple variant"@,
    {
        Err(Error::Uncategorized("expected a unit variant, got a tuple variant".to_string()))
    }

    /// Asks for a payload of named fields, which the wire did not give.
    pub fn struct_variant(self, _fields: usize) -> (r: Result<(), Error>)
        ensures
            r matches Err(Error::Uncategorized(m)) && m@
                == "expected a unit variant, got a struct variant"@,
    {
        Err(Error::Uncategorized("expected a unit variant, got a struct variant".to_string()))
    }
}

/// The variant of an enum that was written as a map of one entry, from its index to its
/// payload; both still follow on the wire.
#[derive(Debug)]
pub struct VariantAccess {}

impl VariantAccess {
    /// The access to a variant written as a map; the decoder reads its index and payload.
    pub fn new() -> (r: Self) {
        VariantAccess {}
    }

    /// Takes the variant as one without payload: the map value is then the head of an
    /// empty array, which is read and dropped.
    pub fn unit_variant<'de, R: ReadSlice<'de>>(self, de: &mut Deserializer<R>) -> (r: Result<(), Error>)
        ensures
            final(de).cached() is None,
            final(de).depth_left() == old(de).depth_left(),
            final(de).source().in_memory() == old(de).source().in_memory(),
            old(de).source().in_memory() ==> {
                let rem = old(de).source().remaining();
                let expected = array_head_spec(old(de).cached(), rem);
                &&& r == expected.0
                &&& r is Ok ==> final(de).source().remaining() == rem.skip(expected.1 as int)
            },
    {
        de.read_array_head()
    }
}

/// How an enum value was written.
#[derive(Debug)]
pub enum EnumAccess {
    /// As a bare index, without payload.
    Unit(UnitVariantAccess),
    /// As a map of one entry from the index to the payload.
    Keyed(VariantAccess),
}

impl EnumAccess {
    /// The index of a variant written bare, or none for one written as a map.
    pub open spec fn index(self) -> Option<u32> {
        match self {
            EnumAccess::Unit(u) => Some(u.index()),
            EnumAccess::Keyed(_) => None,
        }
    }
}

} // verus!
