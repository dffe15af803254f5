//! Fixed-width records and their byte layout.
//!
//! Every record type has one width, and the bytes of a value depend on the
//! value alone: an integer is written little-endian, a boolean as one byte,
//! an array of bytes as it is, and a pair as its first part followed by its
//! second.
use crate::error::StorageError;
use vstd::bytes::*;
use vstd::prelude::*;
use vstd::slice::{slice_subrange, slice_to_vec};

verus! {

/// A type whose values are stored in a fixed number of bytes.
pub trait Record: Sized {
    /// The number of bytes that every value takes.
    spec fn width() -> nat;

    /// The bytes that stand for `self`.
    spec fn encoding(&self) -> Seq<u8>;

    /// The value that a run of `width()` bytes stands for.
    spec fn decoding(bytes: Seq<u8>) -> Self;

    /// An encoding has the declared width, and decoding it gives the value
    /// back.
    proof fn lemma_round_trip(&self)
        ensures
            self.encoding().len() == Self::width(),
            Self::decoding(self.encoding()) == *self,
    ;

    /// The bytes of `self`.
    fn encode(&self) -> (bytes: Vec<u8>)
        ensures
            bytes@ == self.encoding(),
    ;

    /// The value at the front of `bytes`, with the number of bytes that it
    /// takes; `None` where `bytes` is shorter than the width.
    fn decode(bytes: &[u8]) -> (r: Option<(Self, usize)>)
        ensures
            r == if bytes@.len() < Self::width() {
                None
            } else {
                Some(
                    (
                        Self::decoding(bytes@.subrange(0, Self::width() as int)),
                        Self::width() as usize,
                    ),
                )
            },
    ;
}

impl Record for u8 {
    open spec fn width() -> nat {
        1
    }

    open spec fn encoding(&self) -> Seq<u8> {
        seq![*self]
    }

    open spec fn decoding(bytes: Seq<u8>) -> Self {
        bytes[0]
    }

    proof fn lemma_round_trip(&self) {
    }

    fn encode(&self) -> (bytes: Vec<u8>) {
        let mut bytes: Vec<u8> = Vec::new();
        bytes.push(*self);
        assert(bytes@ =~= self.encoding());
        bytes
    }

    fn decode(bytes: &[u8]) -> (r: Option<(Self, usize)>) {
        if bytes.len() < 1 {
            None
        } else {
            Some((bytes[0], 1))
        }
    }
}

impl Record for bool {
    open spec fn width() -> nat {
        1
    }

    open spec fn encoding(&self) -> Seq<u8> {
        seq![if *self { 1u8 } else { 0u8 }]
    }

    /// Zero is `false`; every other byte reads as `true`.
    open spec fn decoding(bytes: Seq<u8>) -> Self {
        bytes[0] != 0
    }

    proof fn lemma_round_trip(&self) {
    }

    fn encode(&self) -> (bytes: Vec<u8>) {
        let byte: u8 = if *self { 1 } else { 0 };
        let mut bytes: Vec<u8> = Vec::new();
        bytes.push(byte);
        assert(bytes@ =~= self.encoding());
        bytes
    }

    fn decode(bytes: &[u8]) -> (r: Option<(Self, usize)>) {
        if bytes.len() < 1 {
            None
        } else {
            Some((bytes[0] != 0, 1))
        }
    }
}

impl Record for u16 {
    open spec fn width() -> nat {
        2
    }

    open spec fn encoding(&self) -> Seq<u8> {
        spec_u16_to_le_bytes(*self)
    }

    open spec fn decoding(bytes: Seq<u8>) -> Self {
        spec_u16_from_le_bytes(bytes)
    }

    proof fn lemma_round_trip(&self) {
        lemma_auto_spec_u16_to_from_le_bytes();
        assert(spec_u16_to_le_bytes(*self).len() == 2);
    }

    fn encode(&self) -> (bytes: Vec<u8>) {
        u16_to_le_bytes(*self)
    }

    fn decode(bytes: &[u8]) -> (r: Option<(Self, usize)>) {
        if bytes.len() < 2 {
            None
        } else {
            Some((u16_from_le_bytes(slice_subrange(bytes, 0, 2)), 2))
        }
    }
}

impl Record for u32 {
    open spec fn width() -> nat {
        4
    }

    open spec fn encoding(&self) -> Seq<u8> {
        spec_u32_to_le_bytes(*self)
    }

    open spec fn decoding(bytes: Seq<u8>) -> Self {
        spec_u32_from_le_bytes(bytes)
    }

    proof fn lemma_round_trip(&self) {
        lemma_auto_spec_u32_to_from_le_bytes();
        assert(spec_u32_to_le_bytes(*self).len() == 4);
    }

    fn encode(&self) -> (bytes: Vec<u8>) {
        u32_to_le_bytes(*self)
    }

    fn decode(bytes: &[u8]) -> (r: Option<(Self, usize)>) {
        if bytes.len() < 4 {
            None
        } else {
            Some((u32_from_le_bytes(slice_subrange(bytes, 0, 4)), 4))
        }
    }
}

impl Record for u64 {
    open spec fn width() -> nat {
        8
    }

    open spec fn encoding(&self) -> Seq<u8> {
        spec_u64_to_le_bytes(*self)
    }

    open spec fn decoding(bytes: Seq<u8>) -> Self {
        spec_u64_from_le_bytes(bytes)
    }

    proof fn lemma_round_trip(&self) {
        lemma_auto_spec_u64_to_from_le_bytes();
        assert(spec_u64_to_le_bytes(*self).len() == 8);
    }

    fn encode(&self) -> (bytes: Vec<u8>) {
        u64_to_le_bytes(*self)
    }

    fn decode(bytes: &[u8]) -> (r: Option<(Self, usize)>) {
        if bytes.len() < 8 {
            None
        } else {
            Some((u64_from_le_bytes(slice_subrange(bytes, 0, 8)), 8))
        }
    }
}

impl<const N: usize> Record for [u8; N] {
    open spec fn width() -> nat {
        N as nat
    }

    open spec fn encoding(&self) -> Seq<u8> {
        self@
    }

    /// The array whose elements are `bytes`.
    open spec fn decoding(bytes: Seq<u8>) -> Self {
        choose|array: [u8; N]| array@ == bytes
    }

    proof fn lemma_round_trip(&self) {
        broadcast use vstd::array::group_array_axioms;

        let back = Self::decoding(self.encoding());
        assert(back@ == self@);
        assert(back =~= *self);
    }

    fn encode(&self) -> (bytes: Vec<u8>) {
        slice_to_vec(self.as_slice())
    }

    fn decode(bytes: &[u8]) -> (r: Option<(Self, usize)>) {
        broadcast use vstd::array::group_array_axioms;

        if bytes.len() < N {
            return None;
        }
        let mut array = [0u8; N];
        let mut i: usize = 0;
        while i < N
            invariant
                i <= N <= bytes@.len(),
                forall|j: int| 0 <= j < i ==> array@[j] == bytes@[j],
            decreases N - i,
        {
            array[i] = bytes[i];
            i += 1;
        }
        proof {
            let front = bytes@.subrange(0, N as int);
            assert(array@ =~= front);
            let chosen = Self::decoding(front);
            assert(chosen@ == front);
            assert(chosen =~= array);
        }
        Some((array, N))
    }
}

impl<A: Record, B: Record> Record for (A, B) {
    open spec fn width() -> nat {
        A::width() + B::width()
    }

    open spec fn encoding(&self) -> Seq<u8> {
        self.0.encoding() + self.1.encoding()
    }

    open spec fn decoding(bytes: Seq<u8>) -> Self {
        (
            A::decoding(bytes.subrange(0, A::width() as int)),
            B::decoding(bytes.subrange(A::width() as int, (A::width() + B::width()) as int)),
        )
    }

    proof fn lemma_round_trip(&self) {
        self.0.lemma_round_trip();
        self.1.lemma_round_trip();
        let bytes = self.encoding();
        assert(bytes.subrange(0, A::width() as int) =~= self.0.encoding());
        assert(bytes.subrange(A::width() as int, (A::width() + B::width()) as int) =~= self.1.encoding());
    }

    fn encode(&self) -> (bytes: Vec<u8>) {
        let mut bytes = self.0.encode();
        let mut second = self.1.encode();
        bytes.append(&mut second);
        bytes
    }

    fn decode(bytes: &[u8]) -> (r: Option<(Self, usize)>) {
        match A::decode(bytes) {
            None => None,
            Some((first, taken)) => {
                let behind = slice_subrange(bytes, taken, bytes.len());
                match B::decode(behind) {
                    None => None,
                    Some((second, more)) => {
                        proof {
                            let whole = bytes@.subrange(0, taken + more);
                            assert(whole.subrange(0, taken as int) =~= bytes@.subrange(
                                0,
                                taken as int,
                            ));
                            assert(whole.subrange(taken as int, taken + more)
                                =~= behind@.subrange(0, more as int));
                        }
                        Some(((first, second), taken + more))
                    },
                }
            },
        }
    }
}

/// The bytes of a record.
pub fn struct_into_slice<T: Record>(s: &T) -> (bytes: Vec<u8>)
    ensures
        bytes@ == s.encoding(),
        bytes@.len() == T::width(),
{
    proof {
        s.lemma_round_trip();
    }
    s.encode()
}

/// What `slice_info_struct` makes of a run of bytes.
pub open spec fn slice_info_spec<T: Record>(s: Seq<u8>) -> Result<T, StorageError> {
    if s.len() < T::width() {
        Err(StorageError::TruncatedRecord)
    } else {
        Ok(T::decoding(s.subrange(0, T::width() as int)))
    }
}

/// The record that the first `width()` bytes of `s` stand for.
///
/// Fails with `TruncatedRecord` exactly when `s` is shorter than that; bytes
/// behind the record are not looked at.
pub fn slice_info_struct<T: Record>(s: &[u8]) -> (r: Result<T, StorageError>)
    ensures
        r == slice_info_spec::<T>(s@),
{
    match T::decode(s) {
        None => Err(StorageError::TruncatedRecord),
        Some((value, _)) => Ok(value),
    }
}

} // verus!
