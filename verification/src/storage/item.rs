//! The records of the two files and their byte layout.
//!
//! A needle in the volume log is a header of 13 bytes, `key` (4), `flag` (1)
//! and `size` (8), with exactly `size` payload bytes behind it. An entry of
//! the index file is 21 bytes: `key` (4), `flag` (1), `offset` (8) and
//! `size` (8).
use crate::diskio::struct_slice::Record;
use vstd::prelude::*;

verus! {

/// What the volume log says of a needle in front of its payload.
#[derive(Clone, Copy, Debug, PartialEq, Eq, Structural)]
pub struct NeedleHeader {
    /// The key of the object.
    pub key: u32,
    /// `false` once the object was deleted.
    pub flag: bool,
    /// The number of payload bytes behind the header.
    pub size: u64,
}

/// Where a needle lies in the volume log.
#[derive(Clone, Copy, Debug, PartialEq, Eq, Structural)]
pub struct IndexFileItem {
    /// The key of the object.
    pub key: u32,
    /// `false` once the object was deleted.
    pub flag: bool,
    /// The position in the volume log of the first byte of the needle's
    /// header.
    pub offset: u64,
    /// The number of payload bytes.
    pub size: u64,
}

/// The fields of a needle header, in the order in which they are written.
pub type HeaderFields = (u32, (bool, u64));

/// The fields of an index entry, in the order in which they are written.
pub type ItemFields = (u32, (bool, (u64, u64)));

impl NeedleHeader {
    /// The fields, in the order in which they are written.
    pub open spec fn fields(&self) -> HeaderFields {
        (self.key, (self.flag, self.size))
    }
}

impl IndexFileItem {
    /// The fields, in the order in which they are written.
    pub open spec fn fields(&self) -> ItemFields {
        (self.key, (self.flag, (self.offset, self.size)))
    }
}

impl Record for NeedleHeader {
    open spec fn width() -> nat {
        13
    }

    open spec fn encoding(&self) -> Seq<u8> {
        self.fields().encoding()
    }

    open spec fn decoding(bytes: Seq<u8>) -> Self {
        let (key, (flag, size)) = HeaderFields::decoding(bytes);
        NeedleHeader { key, flag, size }
    }

    proof fn lemma_round_trip(&self) {
        self.fields().lemma_round_trip();
    }

    fn encode(&self) -> (bytes: Vec<u8>) {
        (self.key, (self.flag, self.size)).encode()
    }

    fn decode(bytes: &[u8]) -> (r: Option<(Self, usize)>) {
        match HeaderFields::decode(bytes) {
            None => None,
            Some(((key, (flag, size)), taken)) => Some((NeedleHeader { key, flag, size }, taken)),
        }
    }
}

impl Record for IndexFileItem {
    open spec fn width() -> nat {
        21
    }

    open spec fn encoding(&self) -> Seq<u8> {
        self.fields().encoding()
    }

    open spec fn decoding(bytes: Seq<u8>) -> Self {
        let (key, (flag, (offset, size))) = ItemFields::decoding(bytes);
        IndexFileItem { key, flag, offset, size }
    }

    proof fn lemma_round_trip(&self) {
        self.fields().lemma_round_trip();
    }

    fn encode(&self) -> (bytes: Vec<u8>) {
        (self.key, (self.flag, (self.offset, self.size))).encode()
    }

    fn decode(bytes: &[u8]) -> (r: Option<(Self, usize)>) {
        match ItemFields::decode(bytes) {
            None => None,
            Some(((key, (flag, (offset, size))), taken)) => Some(
                (IndexFileItem { key, flag, offset, size }, taken),
            ),
        }
    }
}

impl IndexFileItem {
    /// Whether the object is still there: `true` until it is deleted.
    pub fn file_exists(&self) -> (alive: bool)
        ensures
            alive == self.flag,
    {
        self.flag
    }
}

} // verus!
