//! The index table: the entries of the needles, held in memory in the order
//! in which they were added.
//!
//! A key is looked up from the front, and the first entry that has it and is
//! not deleted counts. Deleting an object keeps its entry and clears its
//! flag. The table never turns an object away and never drops one: `max` is a
//! mark to warn at, not a limit.
use crate::diskio::read_write::{append_struct_to_file, read_struct_spec};
use crate::diskio::struct_slice::Record;
use crate::error::StorageError;
use crate::storage::agreement::{agree, lemma_delete, lemma_get_after_add};
use crate::storage::item::{IndexFileItem, NeedleHeader};
use crate::storage::needle::{
    needle_bytes,
    needle_read,
    next_key,
    sync_spec,
    PhysicalFileItem,
};
use vstd::prelude::*;

verus! {

/// The index of one volume.
#[derive(Debug, Clone)]
pub struct IndexFile {
    /// The entries, oldest first.
    pub indexes: Vec<IndexFileItem>,
    /// The number of entries that the table holds without a warning.
    pub max: usize,
    /// The path of the index file.
    pub index_filename: String,
    /// The path of the volume log.
    pub physical_filename: String,
}

/// The value of an `IndexFile`.
pub struct IndexTable {
    pub indexes: Seq<IndexFileItem>,
    pub max: usize,
    pub index_filename: Seq<char>,
    pub physical_filename: Seq<char>,
}

impl View for IndexFile {
    type V = IndexTable;

    open spec fn view(&self) -> IndexTable {
        IndexTable {
            indexes: self.indexes@,
            max: self.max,
            index_filename: self.index_filename@,
            physical_filename: self.physical_filename@,
        }
    }
}

/// Whether `item` is the entry of a live object with the key `key`.
pub open spec fn answers(item: IndexFileItem, key: u32) -> bool {
    item.key == key && item.flag
}

/// The position of the first entry that answers `key`, if there is one.
pub open spec fn first_alive(indexes: Seq<IndexFileItem>, key: u32) -> Option<int>
    decreases indexes.len(),
{
    if indexes.len() == 0 {
        None
    } else {
        match first_alive(indexes.drop_last(), key) {
            Some(i) => Some(i),
            None => if answers(indexes.last(), key) {
                Some(indexes.len() - 1)
            } else {
                None
            },
        }
    }
}

/// `first_alive` gives the least position whose entry answers the key, and
/// `None` exactly when no entry does.
pub proof fn lemma_first_alive(indexes: Seq<IndexFileItem>, key: u32)
    ensures
        match first_alive(indexes, key) {
            Some(i) => 0 <= i < indexes.len() && answers(indexes[i], key) && forall|j: int|
                0 <= j < i ==> !answers(#[trigger] indexes[j], key),
            None => forall|j: int| 0 <= j < indexes.len() ==> !answers(#[trigger] indexes[j], key),
        },
    decreases indexes.len(),
{
    if indexes.len() > 0 {
        let front = indexes.drop_last();
        lemma_first_alive(front, key);
        assert forall|j: int| 0 <= j < front.len() implies front[j] == indexes[j] by {}
        match first_alive(front, key) {
            Some(i) => {
                assert(front[i] == indexes[i]);
            },
            None => {
                assert forall|j: int| 0 <= j < front.len() implies !answers(
                    #[trigger] indexes[j],
                    key,
                ) by {
                    assert(front[j] == indexes[j]);
                }
            },
        }
    }
}

/// The position `i` is what `first_alive` gives, if its entry answers the key
/// and none before it does.
pub proof fn lemma_first_alive_is(indexes: Seq<IndexFileItem>, key: u32, i: int)
    requires
        0 <= i < indexes.len(),
        answers(indexes[i], key),
        forall|j: int| 0 <= j < i ==> !answers(#[trigger] indexes[j], key),
    ensures
        first_alive(indexes, key) == Some(i),
{
    lemma_first_alive(indexes, key);
}

/// The entry with its flag cleared.
pub open spec fn tombstone(item: IndexFileItem) -> IndexFileItem {
    IndexFileItem { flag: false, ..item }
}

/// The payload of the live object with the key `key`, read from `volume`.
pub open spec fn get_spec(indexes: Seq<IndexFileItem>, volume: Seq<u8>, key: u32) -> Result<
    Option<Seq<u8>>,
    StorageError,
> {
    match first_alive(indexes, key) {
        None => Ok(None),
        Some(i) => match needle_read(volume, indexes[i].offset as int) {
            Err(e) => Err(e),
            Ok(None) => Ok(None),
            Ok(Some(needle)) => Ok(Some(needle.data)),
        },
    }
}

/// The entries and the volume after an object with the payload `payload` was
/// added, and the new entry.
pub open spec fn add_spec(indexes: Seq<IndexFileItem>, volume: Seq<u8>, payload: Seq<u8>) -> Result<
    (Seq<IndexFileItem>, Seq<u8>, IndexFileItem),
    StorageError,
> {
    match next_key(volume) {
        Err(e) => Err(e),
        Ok(key) => {
            let item = IndexFileItem {
                key,
                flag: true,
                offset: volume.len() as u64,
                size: payload.len() as u64,
            };
            Ok((indexes.push(item), volume + needle_bytes(key, payload), item))
        },
    }
}

/// The entries and the volume after the live object with the key `key` was
/// deleted.
pub open spec fn delete_spec(indexes: Seq<IndexFileItem>, volume: Seq<u8>, key: u32) -> Result<
    (Seq<IndexFileItem>, Seq<u8>),
    StorageError,
> {
    match first_alive(indexes, key) {
        None => Err(StorageError::NotFound),
        Some(i) => match sync_spec(tombstone(indexes[i]), volume) {
            Err(e) => Err(e),
            Ok(after) => Ok((indexes.update(i, tombstone(indexes[i])), after)),
        },
    }
}

/// The bytes of the index file for the entries `indexes`: their encodings, one
/// behind the other.
pub open spec fn snapshot_bytes(indexes: Seq<IndexFileItem>) -> Seq<u8>
    decreases indexes.len(),
{
    if indexes.len() == 0 {
        Seq::empty()
    } else {
        snapshot_bytes(indexes.drop_last()) + indexes.last().encoding()
    }
}

/// The live entries that an index file holds from `pos` on, in their order;
/// or the failure of the first entry that cannot be read.
pub open spec fn load_from(f: Seq<u8>, pos: int) -> Result<Seq<IndexFileItem>, StorageError>
    decreases f.len() - pos,
{
    match read_struct_spec::<IndexFileItem>(f, pos) {
        Err(e) => Err(e),
        Ok(None) => Ok(Seq::empty()),
        Ok(Some(item)) => match load_from(f, pos + 21) {
            Err(e) => Err(e),
            Ok(rest) => Ok(
                if item.flag {
                    seq![item] + rest
                } else {
                    rest
                },
            ),
        },
    }
}

/// The live entries that an index file holds.
pub open spec fn load_spec(f: Seq<u8>) -> Result<Seq<IndexFileItem>, StorageError> {
    load_from(f, 0)
}

impl IndexFile {
    /// A table with the entries `indexes`, in their order.
    pub fn new(
        indexes: Vec<IndexFileItem>,
        max: usize,
        index_filename: String,
        physical_filename: String,
    ) -> (table: Self)
        ensures
            table.indexes == indexes,
            table.max == max,
            table.index_filename == index_filename,
            table.physical_filename == physical_filename,
    {
        IndexFile { indexes, max, index_filename, physical_filename }
    }

    /// Looks `key` up: whether a live object has it, and the first entry that
    /// says so.
    pub fn _exists(&self, key: u32) -> (r: (bool, Option<&IndexFileItem>))
        ensures
            match first_alive(self.indexes@, key) {
                Some(i) => r.0 && r.1 == Some(&self.indexes@[i]),
                None => !r.0 && r.1 is None,
            },
    {
        let mut i: usize = 0;
        while i < self.indexes.len()
            invariant
                i <= self.indexes@.len(),
                forall|j: int| 0 <= j < i ==> !answers(#[trigger] self.indexes@[j], key),
            decreases self.indexes@.len() - i,
        {
            if self.indexes[i].key == key && self.indexes[i].flag {
                proof {
                    lemma_first_alive_is(self.indexes@, key, i as int);
                }
                return (true, Some(&self.indexes[i]));
            }
            i += 1;
        }
        proof {
            lemma_first_alive(self.indexes@, key);
        }
        (false, None)
    }

    /// The first entry of a live object with the key `key`, to be changed in
    /// place.
    pub fn get_mut(&mut self, key: u32) -> (r: Option<&mut IndexFileItem>)
        ensures
            match first_alive(old(self).indexes@, key) {
                Some(i) => r is Some && *r->Some_0 == old(self).indexes@[i] && final(self)@
                    == (IndexTable {
                    indexes: old(self).indexes@.update(i, *final(r->Some_0)),
                    ..old(self)@
                }),
                None => r is None && final(self)@ == old(self)@,
            },
    {
        let mut i: usize = 0;
        while i < self.indexes.len()
            invariant
                i <= self.indexes@.len(),
                *self == *old(self),
                forall|j: int| 0 <= j < i ==> !answers(#[trigger] self.indexes@[j], key),
            decreases self.indexes@.len() - i,
        {
            if self.indexes[i].key == key && self.indexes[i].flag {
                proof {
                    lemma_first_alive_is(self.indexes@, key, i as int);
                }
                return Some(&mut self.indexes[i]);
            }
            i += 1;
        }
        proof {
            lemma_first_alive(self.indexes@, key);
        }
        None
    }

    /// Deletes the live object with the key `key`: clears the flag of its
    /// entry and of its needle in `volume`.
    ///
    /// Fails with `NotFound` where no live object has the key. Where the
    /// needle's header cannot be written, the entry keeps its flag, so that
    /// table and volume still agree.
    pub fn delete_item(&mut self, key: u32, volume: &mut Vec<u8>) -> (r: Result<(), StorageError>)
        ensures
            match delete_spec(old(self).indexes@, old(volume)@, key) {
                Ok((indexes, after)) => r is Ok && final(self)@ == (IndexTable {
                    indexes,
                    ..old(self)@
                }) && final(volume)@ == after,
                Err(e) => r is Err && r->Err_0 == e && final(self)@ == old(self)@
                    && final(volume)@ == old(volume)@,
            },
            agree(old(self).indexes@, old(volume)@) ==> agree(final(self).indexes@, final(volume)@),
            agree(old(self).indexes@, old(volume)@) && r is Ok ==> get_spec(
                final(self).indexes@,
                final(volume)@,
                key,
            ) == Ok::<Option<Seq<u8>>, StorageError>(None),
    {
        proof {
            if agree(self.indexes@, volume@) {
                lemma_delete(self.indexes@, volume@, key);
            }
        }
        match self.get_mut(key) {
            None => Err(StorageError::NotFound),
            Some(item) => {
                item.flag = false;
                let written = item.sync(volume);
                if written.is_err() {
                    item.flag = true;
                }
                proof {
                    lemma_first_alive(old(self).indexes@, key);
                    if written is Err {
                        assert(self.indexes@ =~= old(self).indexes@);
                    }
                }
                written
            },
        }
    }

    /// Adds an object with the payload `data`: appends its needle to `volume`
    /// and its entry to the table, and gives the entry.
    ///
    /// Where the needle cannot be appended, table and volume stay as they
    /// were. A table over its capacity still takes the object; see
    /// `is_over_capacity`.
    pub fn add_item(&mut self, data: &Vec<u8>, volume: &mut Vec<u8>) -> (r: Result<
        IndexFileItem,
        StorageError,
    >)
        ensures
            match add_spec(old(self).indexes@, old(volume)@, data@) {
                Ok((indexes, after, item)) => r == Ok::<IndexFileItem, StorageError>(item)
                    && final(self)@ == (IndexTable { indexes, ..old(self)@ }) && final(volume)@
                    == after,
                Err(e) => r == Err::<IndexFileItem, StorageError>(e) && final(self)@ == old(self)@
                    && final(volume)@ == old(volume)@,
            },
            agree(old(self).indexes@, old(volume)@) ==> agree(final(self).indexes@, final(volume)@),
            agree(old(self).indexes@, old(volume)@) && r is Ok ==> get_spec(
                final(self).indexes@,
                final(volume)@,
                r->Ok_0.key,
            ) == Ok::<Option<Seq<u8>>, StorageError>(Some(data@)),
    {
        match PhysicalFileItem::add_one_file(data, volume) {
            Err(e) => Err(e),
            Ok(item) => {
                proof {
                    if agree(self.indexes@, old(volume)@) {
                        let header = NeedleHeader { key: item.key, flag: true, size: item.size };
                        header.lemma_round_trip();
                        assert(volume.len() == old(volume)@.len() + 13 + data@.len());
                        lemma_get_after_add(self.indexes@, old(volume)@, data@);
                    }
                }
                self.indexes.push(item);
                Ok(item)
            },
        }
    }

    /// Whether the table holds more entries than `max`. It is a warning, and
    /// changes nothing of what the table does.
    pub fn is_over_capacity(&self) -> (over: bool)
        ensures
            over == (self.indexes@.len() > self.max),
    {
        self.indexes.len() > self.max
    }

    /// The payload of the live object with the key `key`, read from `volume`.
    ///
    /// Gives `None` where no live object has the key, or where its entry
    /// points at or behind the end of the volume. The table is left as it is.
    pub fn get_data(&mut self, key: u32, volume: &Vec<u8>) -> (r: Result<
        Option<Vec<u8>>,
        StorageError,
    >)
        ensures
            final(self)@ == old(self)@,
            match get_spec(old(self).indexes@, volume@, key) {
                Ok(Some(data)) => r is Ok && r->Ok_0 is Some && r->Ok_0->Some_0@ == data,
                Ok(None) => r is Ok && r->Ok_0 is None,
                Err(e) => r is Err && r->Err_0 == e,
            },
    {
        match self._exists(key).1 {
            None => Ok(None),
            Some(item) => match PhysicalFileItem::get_from_index(item, volume) {
                Err(e) => Err(e),
                Ok(None) => Ok(None),
                Ok(Some(needle)) => Ok(Some(needle.data)),
            },
        }
    }

    /// Writes the table to the index file `f`: what `f` held is dropped, and
    /// every entry is written, deleted ones included, in the table's order.
    pub fn store_into_file(&self, f: &mut Vec<u8>)
        ensures
            final(f)@ == snapshot_bytes(self.indexes@),
    {
        Self::write_entries(f, &self.indexes);
    }

    /// Writes the entries `indexes` to the index file `f`, as
    /// `store_into_file` writes those of a table.
    pub fn create_index_file_and_save(f: &mut Vec<u8>, indexes: Vec<IndexFileItem>)
        ensures
            final(f)@ == snapshot_bytes(indexes@),
    {
        Self::write_entries(f, &indexes);
    }

    /// Empties `f` and writes the entries to it, one behind the other.
    fn write_entries(f: &mut Vec<u8>, indexes: &Vec<IndexFileItem>)
        ensures
            final(f)@ == snapshot_bytes(indexes@),
    {
        f.clear();
        let mut i: usize = 0;
        while i < indexes.len()
            invariant
                i <= indexes@.len(),
                f@ == snapshot_bytes(indexes@.take(i as int)),
            decreases indexes@.len() - i,
        {
            proof {
                assert(indexes@.take(i + 1).drop_last() =~= indexes@.take(i as int));
            }
            append_struct_to_file(&indexes[i], f);
            i += 1;
        }
        assert(indexes@.take(indexes@.len() as int) =~= indexes@);
    }
}

} // verus!
