//! The needle store: the append-only volume log.
//!
//! The log is the run of its needles, with nothing before, between or behind
//! them. A needle is written once; afterwards only its `flag` changes, when
//! the object is deleted.
use crate::diskio::read_write::{
    append_struct_to_file,
    modify_struct_in_file,
    overwritten,
    read_bytes_from_file,
    read_struct_from_file,
    read_struct_spec,
    write_bytes_to_file,
};
use crate::diskio::struct_slice::Record;
use crate::error::StorageError;
use crate::storage::agreement::{agree, lemma_rebuild_agrees, numbered};
use crate::storage::item::{IndexFileItem, NeedleHeader};
use vstd::prelude::*;

verus! {

/// A needle as it was read from the volume log: the header's fields, and the
/// payload.
#[derive(Debug)]
pub struct PhysicalFileItem {
    /// The key of the object.
    pub key: u32,
    /// `false` once the object was deleted.
    pub flag: bool,
    /// The number of payload bytes.
    pub size: u64,
    /// The payload.
    pub data: Vec<u8>,
}

/// The value of a `PhysicalFileItem`.
pub struct Needle {
    pub key: u32,
    pub flag: bool,
    pub size: u64,
    pub data: Seq<u8>,
}

impl View for PhysicalFileItem {
    type V = Needle;

    open spec fn view(&self) -> Needle {
        Needle { key: self.key, flag: self.flag, size: self.size, data: self.data@ }
    }
}

/// The index entry of a needle whose header `header` starts at `pos`.
pub open spec fn entry_of(header: NeedleHeader, pos: int) -> IndexFileItem {
    IndexFileItem { key: header.key, flag: header.flag, offset: pos as u64, size: header.size }
}

/// The header of the needle that starts at `pos`, if one does.
///
/// At the clean end there is none. A header that the file ends in is
/// truncated, and one that declares more payload than the file holds behind it
/// is corrupt.
pub open spec fn needle_at(f: Seq<u8>, pos: int) -> Result<Option<NeedleHeader>, StorageError> {
    match read_struct_spec::<NeedleHeader>(f, pos) {
        Err(e) => Err(e),
        Ok(None) => Ok(None),
        Ok(Some(header)) => if header.size <= f.len() - pos - 13 {
            Ok(Some(header))
        } else {
            Err(StorageError::CorruptRecord)
        },
    }
}

/// The needle that starts at `pos`, payload included.
pub open spec fn needle_read(f: Seq<u8>, pos: int) -> Result<Option<Needle>, StorageError> {
    match needle_at(f, pos) {
        Err(e) => Err(e),
        Ok(None) => Ok(None),
        Ok(Some(header)) => Ok(
            Some(
                Needle {
                    key: header.key,
                    flag: header.flag,
                    size: header.size,
                    data: f.subrange(pos + 13, pos + 13 + header.size),
                },
            ),
        ),
    }
}

/// The entries of the needles from `pos` to the end of the log, in the order
/// in which they lie there, deleted ones included; or the first failure on the
/// way.
pub open spec fn scan_from(f: Seq<u8>, pos: int) -> Result<Seq<IndexFileItem>, StorageError>
    decreases f.len() - pos,
{
    match needle_at(f, pos) {
        Err(e) => Err(e),
        Ok(None) => Ok(Seq::empty()),
        Ok(Some(header)) => match scan_from(f, pos + 13 + header.size) {
            Err(e) => Err(e),
            Ok(rest) => Ok(seq![entry_of(header, pos)] + rest),
        },
    }
}

/// The entries of all needles of the log.
pub open spec fn scan_spec(f: Seq<u8>) -> Result<Seq<IndexFileItem>, StorageError> {
    scan_from(f, 0)
}

/// The test for an entry that is not deleted.
pub open spec fn is_live() -> spec_fn(IndexFileItem) -> bool {
    |item: IndexFileItem| item.flag
}

/// The entries in `items` that are not deleted, in their order.
pub open spec fn live(items: Seq<IndexFileItem>) -> Seq<IndexFileItem> {
    items.filter(is_live())
}

/// The index that the log alone gives: an entry for each needle that is not
/// deleted.
pub open spec fn rebuild_spec(f: Seq<u8>) -> Result<Seq<IndexFileItem>, StorageError> {
    match scan_spec(f) {
        Err(e) => Err(e),
        Ok(items) => Ok(live(items)),
    }
}

/// The key of the next needle: the number of needles that the log holds.
pub open spec fn next_key(f: Seq<u8>) -> Result<u32, StorageError> {
    match scan_spec(f) {
        Err(e) => Err(e),
        Ok(items) => if items.len() <= u32::MAX {
            Ok(items.len() as u32)
        } else {
            Err(StorageError::KeySpaceExhausted)
        },
    }
}

/// The bytes of a new needle.
pub open spec fn needle_bytes(key: u32, data: Seq<u8>) -> Seq<u8> {
    NeedleHeader { key, flag: true, size: data.len() as u64 }.encoding() + data
}

/// The log after `index.key` and `index.flag` were written over the first
/// five bytes of the header at `index.offset`; or why nothing was written.
pub open spec fn sync_spec(index: IndexFileItem, f: Seq<u8>) -> Result<Seq<u8>, StorageError> {
    if index.offset >= f.len() {
        Err(StorageError::NotFound)
    } else if f.len() - index.offset < 13 {
        Err(StorageError::TruncatedRecord)
    } else {
        Ok(overwritten(f, index.offset as int, index.key.encoding() + index.flag.encoding()))
    }
}

/// `front` put before what a scan found behind it.
pub open spec fn found_behind(
    front: Seq<IndexFileItem>,
    behind: Result<Seq<IndexFileItem>, StorageError>,
) -> Result<Seq<IndexFileItem>, StorageError> {
    match behind {
        Err(e) => Err(e),
        Ok(rest) => Ok(front + rest),
    }
}

impl PhysicalFileItem {
    /// Reads the needle that `index` points at.
    ///
    /// Gives `None` where `index.offset` is at or behind the end of the log,
    /// `TruncatedRecord` where the log ends inside the header, and
    /// `CorruptRecord` where it holds fewer payload bytes than the header
    /// declares.
    pub fn get_from_index(index: &IndexFileItem, f: &Vec<u8>) -> (r: Result<
        Option<PhysicalFileItem>,
        StorageError,
    >)
        ensures
            match needle_read(f@, index.offset as int) {
                Ok(Some(needle)) => r is Ok && r->Ok_0 is Some && r->Ok_0->Some_0@ == needle,
                Ok(None) => r is Ok && r->Ok_0 is None,
                Err(e) => r is Err && r->Err_0 == e,
            },
    {
        match read_struct_from_file::<NeedleHeader>(f, index.offset) {
            Err(e) => Err(e),
            Ok(None) => Ok(None),
            Ok(Some(header)) => {
                assert(f@.len() == f.len());
                let start: u64 = index.offset + 13;
                assert(f@.subrange(start as int, start as int) =~= Seq::<u8>::empty());
                match read_bytes_from_file(header.size, f, start) {
                    Err(e) => Err(e),
                    Ok(data) => Ok(
                        Some(
                            PhysicalFileItem {
                                key: header.key,
                                flag: header.flag,
                                size: header.size,
                                data,
                            },
                        ),
                    ),
                }
            },
        }
    }

    /// Writes `index.key` and `index.flag` over the header at `index.offset`.
    ///
    /// Only those five bytes change. Where no whole header lies there, nothing
    /// is written: `NotFound` at or behind the end of the log,
    /// `TruncatedRecord` where the log ends inside the header.
    pub fn sync(index: &IndexFileItem, f: &mut Vec<u8>) -> (r: Result<(), StorageError>)
        ensures
            match sync_spec(*index, old(f)@) {
                Ok(after) => r is Ok && final(f)@ == after,
                Err(e) => r is Err && r->Err_0 == e && final(f)@ == old(f)@,
            },
    {
        let len = f.len() as u64;
        if index.offset >= len {
            return Err(StorageError::NotFound);
        }
        if len - index.offset < 13 {
            return Err(StorageError::TruncatedRecord);
        }
        proof {
            index.key.lemma_round_trip();
            index.flag.lemma_round_trip();
        }
        modify_struct_in_file(&index.key, f, index.offset)?;
        modify_struct_in_file(&index.flag, f, index.offset + 4)?;
        assert(f@ =~= overwritten(
            old(f)@,
            index.offset as int,
            index.key.encoding() + index.flag.encoding(),
        ));
        Ok(())
    }

    /// Appends a needle with the payload `data` to the log and gives its
    /// index entry.
    ///
    /// The needle starts where the log ended, and its key is the number of
    /// needles that the log held before. Where the log cannot be scanned, or
    /// holds as many needles as there are keys, nothing is appended.
    pub fn add_one_file(data: &Vec<u8>, f: &mut Vec<u8>) -> (r: Result<IndexFileItem, StorageError>)
        ensures
            match next_key(old(f)@) {
                Ok(key) => r == Ok::<IndexFileItem, StorageError>(
                    IndexFileItem {
                        key,
                        flag: true,
                        offset: old(f)@.len() as u64,
                        size: data@.len() as u64,
                    },
                ) && final(f)@ == old(f)@ + needle_bytes(key, data@),
                Err(e) => r == Err::<IndexFileItem, StorageError>(e) && final(f)@ == old(f)@,
            },
    {
        let count = match Self::scan(f) {
            Err(e) => {
                return Err(e);
            },
            Ok(items) => items.len(),
        };
        if count > u32::MAX as usize {
            return Err(StorageError::KeySpaceExhausted);
        }
        let key = count as u32;
        let offset = f.len() as u64;
        let size = data.len() as u64;
        let header = NeedleHeader { key, flag: true, size };
        append_struct_to_file(&header, f);
        write_bytes_to_file(data, f);
        assert(f@ =~= old(f)@ + needle_bytes(key, data@));
        Ok(IndexFileItem { key, flag: true, offset, size })
    }

    /// Reads the header of the needle that starts at `pos` and leaves the
    /// payload where it is.
    ///
    /// The next needle starts `13 + size` bytes behind `pos`.
    pub fn read_struct_from_file_without_data(f: &Vec<u8>, pos: u64) -> (r: Result<
        Option<NeedleHeader>,
        StorageError,
    >)
        ensures
            r == needle_at(f@, pos as int),
    {
        match read_struct_from_file::<NeedleHeader>(f, pos) {
            Err(e) => Err(e),
            Ok(None) => Ok(None),
            Ok(Some(header)) => {
                let behind = f.len() as u64 - pos - 13;
                if header.size <= behind {
                    Ok(Some(header))
                } else {
                    Err(StorageError::CorruptRecord)
                }
            },
        }
    }

    /// Walks the log from its start and gives the entry of every needle,
    /// deleted ones included, each with the position at which its header
    /// starts. No payload is read.
    pub fn scan(f: &Vec<u8>) -> (r: Result<Vec<IndexFileItem>, StorageError>)
        ensures
            match scan_spec(f@) {
                Ok(items) => r is Ok && r->Ok_0@ == items,
                Err(e) => r is Err && r->Err_0 == e,
            },
    {
        let mut items: Vec<IndexFileItem> = Vec::new();
        let mut pos: u64 = 0;
        loop
            invariant
                pos <= f@.len(),
                f@.len() == f.len(),
                scan_spec(f@) == found_behind(items@, scan_from(f@, pos as int)),
            decreases f@.len() - pos,
        {
            match Self::read_struct_from_file_without_data(f, pos) {
                Err(e) => {
                    return Err(e);
                },
                Ok(None) => {
                    assert(items@ + Seq::<IndexFileItem>::empty() =~= items@);
                    return Ok(items);
                },
                Ok(Some(header)) => {
                    let next: u64 = pos + 13 + header.size;
                    proof {
                        let behind = scan_from(f@, next as int);
                        if let Ok(rest) = behind {
                            assert(items@ + (seq![entry_of(header, pos as int)] + rest)
                                =~= items@.push(entry_of(header, pos as int)) + rest);
                        }
                    }
                    items.push(
                        IndexFileItem {
                            key: header.key,
                            flag: header.flag,
                            offset: pos,
                            size: header.size,
                        },
                    );
                    pos = next;
                },
            }
        }
    }

    /// Rebuilds the index from the log alone: an entry for every needle that
    /// is not deleted, in the order of the log.
    pub fn build_index_file(f: &Vec<u8>) -> (r: Result<Vec<IndexFileItem>, StorageError>)
        ensures
            match rebuild_spec(f@) {
                Ok(items) => r is Ok && r->Ok_0@ == items,
                Err(e) => r is Err && r->Err_0 == e,
            },
            numbered(f@) ==> r is Ok && agree(r->Ok_0@, f@),
    {
        proof {
            if numbered(f@) {
                lemma_rebuild_agrees(f@);
            }
        }
        let all = match Self::scan(f) {
            Err(e) => {
                return Err(e);
            },
            Ok(all) => all,
        };
        let mut kept: Vec<IndexFileItem> = Vec::new();
        let mut i: usize = 0;
        proof {
            reveal(Seq::filter);
        }
        while i < all.len()
            invariant
                i <= all@.len(),
                kept@ == live(all@.take(i as int)),
            decreases all@.len() - i,
        {
            proof {
                reveal(Seq::filter);
                assert(all@.take(i + 1).drop_last() =~= all@.take(i as int));
            }
            if all[i].flag {
                kept.push(all[i]);
            }
            i += 1;
        }
        assert(all@.take(all@.len() as int) =~= all@);
        Ok(kept)
    }
}

impl IndexFileItem {
    /// Writes the entry's key and flag to the header of its needle; see
    /// `PhysicalFileItem::sync`.
    pub fn sync(&self, f: &mut Vec<u8>) -> (r: Result<(), StorageError>)
        ensures
            match sync_spec(*self, old(f)@) {
                Ok(after) => r is Ok && final(f)@ == after,
                Err(e) => r is Err && r->Err_0 == e && final(f)@ == old(f)@,
            },
    {
        PhysicalFileItem::sync(self, f)
    }
}

} // verus!
