//! Reading and writing records in a file whose bytes are held in memory.
//!
//! A file is the run of its bytes, and a position counts bytes from its
//! start. A position at or behind the end is the clean end of the file:
//! reading there finds nothing, which is no failure.
use crate::diskio::struct_slice::Record;
use crate::error::StorageError;
use vstd::prelude::*;
use vstd::slice::{slice_subrange, slice_to_vec};

verus! {

/// The record that starts at `pos`, if one does.
///
/// At the clean end there is none. Where the file ends inside the record, the
/// record is truncated.
pub open spec fn read_struct_spec<T: Record>(f: Seq<u8>, pos: int) -> Result<
    Option<T>,
    StorageError,
> {
    if pos >= f.len() {
        Ok(None)
    } else if f.len() - pos < T::width() {
        Err(StorageError::TruncatedRecord)
    } else {
        Ok(Some(T::decoding(f.subrange(pos, pos + T::width()))))
    }
}

/// The file `f` with the bytes from `pos` on replaced by `bytes`, one for one.
pub open spec fn overwritten(f: Seq<u8>, pos: int, bytes: Seq<u8>) -> Seq<u8>
    recommends
        0 <= pos,
        pos + bytes.len() <= f.len(),
{
    f.subrange(0, pos) + bytes + f.subrange(pos + bytes.len(), f.len() as int)
}

/// What `modify_struct_in_file` makes of a file: the file after the call, or
/// why it was left as it was.
pub open spec fn modify_struct_spec<T: Record>(s: T, f: Seq<u8>, pos: int) -> Result<
    Seq<u8>,
    StorageError,
> {
    if pos >= f.len() {
        Err(StorageError::NotFound)
    } else if f.len() - pos < T::width() {
        Err(StorageError::TruncatedRecord)
    } else {
        Ok(overwritten(f, pos, s.encoding()))
    }
}

/// The `size` bytes that start at `pos`, or `CorruptRecord` where the file
/// holds fewer.
pub open spec fn read_bytes_spec(size: int, f: Seq<u8>, pos: int) -> Result<Seq<u8>, StorageError> {
    if size == 0 {
        Ok(Seq::empty())
    } else if pos + size <= f.len() {
        Ok(f.subrange(pos, pos + size))
    } else {
        Err(StorageError::CorruptRecord)
    }
}

/// Appends the bytes of `s` to the file.
pub fn append_struct_to_file<T: Record>(s: &T, f: &mut Vec<u8>)
    ensures
        final(f)@ == old(f)@ + s.encoding(),
{
    let mut bytes = s.encode();
    f.append(&mut bytes);
}

/// Reads the record that starts at `pos`.
pub fn read_struct_from_file<T: Record>(f: &Vec<u8>, pos: u64) -> (r: Result<
    Option<T>,
    StorageError,
>)
    ensures
        r == read_struct_spec::<T>(f@, pos as int),
{
    if pos >= f.len() as u64 {
        Ok(None)
    } else {
        let start = pos as usize;
        let behind = slice_subrange(f.as_slice(), start, f.len());
        match T::decode(behind) {
            None => Err(StorageError::TruncatedRecord),
            Some((value, _)) => {
                assert(behind@.subrange(0, T::width() as int) =~= f@.subrange(
                    pos as int,
                    pos + T::width(),
                ));
                Ok(Some(value))
            },
        }
    }
}

/// Overwrites, in place, the record that starts at `pos` with `s`.
///
/// The file keeps its length. Where no whole record lies at `pos` the file is
/// left as it was: `NotFound` at the clean end, `TruncatedRecord` where the
/// file ends inside the record.
pub fn modify_struct_in_file<T: Record>(s: &T, f: &mut Vec<u8>, pos: u64) -> (r: Result<
    (),
    StorageError,
>)
    ensures
        match modify_struct_spec::<T>(*s, old(f)@, pos as int) {
            Ok(after) => r == Ok::<(), StorageError>(()) && final(f)@ == after,
            Err(e) => r == Err::<(), StorageError>(e) && final(f)@ == old(f)@,
        },
        final(f)@.len() == old(f)@.len(),
{
    if pos >= f.len() as u64 {
        return Err(StorageError::NotFound);
    }
    proof {
        s.lemma_round_trip();
    }
    let start = pos as usize;
    let bytes = s.encode();
    let width = bytes.len();
    if f.len() - start < width {
        return Err(StorageError::TruncatedRecord);
    }
    let mut i: usize = 0;
    while i < width
        invariant
            i <= width,
            width == bytes@.len(),
            start + width <= f@.len(),
            start + width <= usize::MAX,
            f@.len() == old(f)@.len(),
            forall|j: int| 0 <= j < f@.len() && !(start <= j < start + i) ==> f@[j] == old(f)@[j],
            forall|j: int| 0 <= j < i ==> f@[start + j] == bytes@[j],
        decreases width - i,
    {
        f[start + i] = bytes[i];
        i += 1;
    }
    assert(f@ =~= overwritten(old(f)@, pos as int, s.encoding()));
    Ok(())
}

/// Reads `size` bytes from `pos` on.
pub fn read_bytes_from_file(size: u64, f: &Vec<u8>, pos: u64) -> (r: Result<Vec<u8>, StorageError>)
    ensures
        match read_bytes_spec(size as int, f@, pos as int) {
            Ok(bytes) => r is Ok && r->Ok_0@ == bytes,
            Err(e) => r == Err::<Vec<u8>, StorageError>(e),
        },
{
    if size == 0 {
        return Ok(Vec::new());
    }
    let len = f.len() as u64;
    if pos > len || size > len - pos {
        return Err(StorageError::CorruptRecord);
    }
    let start = pos as usize;
    let end = start + size as usize;
    Ok(slice_to_vec(slice_subrange(f.as_slice(), start, end)))
}

/// Appends `bytes` to the file.
pub fn write_bytes_to_file(bytes: &Vec<u8>, f: &mut Vec<u8>)
    ensures
        final(f)@ == old(f)@ + bytes@,
{
    let mut copy = slice_to_vec(bytes.as_slice());
    f.append(&mut copy);
}

} // verus!
