//! What holds of a table and a volume that went through the same calls.
//!
//! A volume that was filled by `add_item` alone numbers its needles: the key
//! of each is its place in the log. A table agrees with such a volume when
//! each of its entries is the entry of the needle with its key, and the keys
//! rise along the table. Adding and deleting keep that, and rebuilding the
//! index from the log brings it about.
use crate::diskio::read_write::{overwritten, read_struct_spec};
use crate::diskio::struct_slice::Record;
use crate::error::StorageError;
use crate::storage::index::{
    add_spec,
    answers,
    delete_spec,
    first_alive,
    get_spec,
    lemma_first_alive,
    lemma_first_alive_is,
    load_from,
    load_spec,
    snapshot_bytes,
    tombstone,
};
use crate::storage::item::{IndexFileItem, NeedleHeader};
use crate::storage::needle::{
    entry_of,
    is_live,
    live,
    needle_at,
    needle_bytes,
    needle_read,
    rebuild_spec,
    scan_from,
    scan_spec,
    Needle,
};
use vstd::prelude::*;

verus! {

/// A volume whose needles can all be read and are numbered by their keys:
/// the first has the key 0, the next the key 1, and so on.
pub open spec fn numbered(volume: Seq<u8>) -> bool {
    &&& volume.len() <= u64::MAX
    &&& scan_spec(volume) matches Ok(items) && forall|k: int|
        0 <= k < items.len() ==> (#[trigger] items[k]).key == k
}

/// The table `indexes` agrees with the volume: the volume is numbered, each
/// entry of the table is the entry of the needle that has its key, and the
/// keys rise from one entry to the next.
pub open spec fn agree(indexes: Seq<IndexFileItem>, volume: Seq<u8>) -> bool {
    &&& numbered(volume)
    &&& forall|i: int|
        0 <= i < indexes.len() ==> {
            &&& (#[trigger] indexes[i]).key < scan_spec(volume)->Ok_0.len()
            &&& indexes[i] == scan_spec(volume)->Ok_0[indexes[i].key as int]
        }
    &&& rising(indexes)
}

/// The keys rise from each entry to the next, so that no two entries share
/// one.
pub open spec fn rising(indexes: Seq<IndexFileItem>) -> bool {
    forall|i: int, j: int|
        0 <= i < j < indexes.len() ==> (#[trigger] indexes[i]).key < (#[trigger] indexes[j]).key
}

/// Every needle that a scan finds from `pos` on starts at or behind `pos`
/// and ends inside the volume.
pub proof fn lemma_scan_offsets(volume: Seq<u8>, pos: int)
    requires
        0 <= pos,
        volume.len() <= u64::MAX,
        scan_from(volume, pos) is Ok,
    ensures
        forall|j: int|
            0 <= j < scan_from(volume, pos)->Ok_0.len() ==> {
                let item = #[trigger] scan_from(volume, pos)->Ok_0[j];
                pos <= item.offset && item.offset + 13 + item.size <= volume.len()
            },
    decreases volume.len() - pos,
{
    if let Ok(Some(header)) = needle_at(volume, pos) {
        let next = pos + 13 + header.size;
        lemma_scan_offsets(volume, next);
        let rest = scan_from(volume, next)->Ok_0;
        let items = scan_from(volume, pos)->Ok_0;
        assert forall|j: int| 0 <= j < items.len() implies {
            let item = #[trigger] items[j];
            pos <= item.offset && item.offset + 13 + item.size <= volume.len()
        } by {
            if j > 0 {
                assert(items[j] == rest[j - 1]);
            }
        }
    }
}

/// A scan from `pos` on depends on the bytes from `pos` on alone.
pub proof fn lemma_scan_reads_behind(a: Seq<u8>, b: Seq<u8>, pos: int)
    requires
        0 <= pos,
        a.len() == b.len(),
        forall|i: int| pos <= i < a.len() ==> a[i] == b[i],
    ensures
        scan_from(a, pos) == scan_from(b, pos),
    decreases a.len() - pos,
{
    if pos < a.len() && a.len() - pos >= 13 {
        assert(a.subrange(pos, pos + 13) =~= b.subrange(pos, pos + 13));
        if let Ok(Some(header)) = needle_at(a, pos) {
            lemma_scan_reads_behind(a, b, pos + 13 + header.size);
        }
    }
}

/// Appending a needle adds its entry to what a scan finds, and changes no
/// other.
pub proof fn lemma_scan_append(volume: Seq<u8>, pos: int, key: u32, data: Seq<u8>)
    requires
        0 <= pos <= volume.len(),
        volume.len() <= u64::MAX,
        data.len() <= u64::MAX,
        scan_from(volume, pos) is Ok,
    ensures
        scan_from(volume + needle_bytes(key, data), pos) == Ok::<Seq<IndexFileItem>, StorageError>(
            scan_from(volume, pos)->Ok_0.push(
                IndexFileItem {
                    key,
                    flag: true,
                    offset: volume.len() as u64,
                    size: data.len() as u64,
                },
            ),
        ),
    decreases volume.len() - pos,
{
    let header = NeedleHeader { key, flag: true, size: data.len() as u64 };
    let longer = volume + needle_bytes(key, data);
    header.lemma_round_trip();
    if pos == volume.len() {
        assert(longer.subrange(pos, pos + 13) =~= header.encoding());
        assert(needle_at(longer, pos) == Ok::<Option<NeedleHeader>, StorageError>(Some(header)));
        assert(scan_from(longer, pos + 13 + header.size) == Ok::<
            Seq<IndexFileItem>,
            StorageError,
        >(Seq::empty()));
        assert(seq![entry_of(header, pos)] + Seq::<IndexFileItem>::empty()
            =~= Seq::<IndexFileItem>::empty().push(entry_of(header, pos)));
    } else {
        let found = needle_at(volume, pos)->Ok_0->Some_0;
        assert(longer.subrange(pos, pos + 13) =~= volume.subrange(pos, pos + 13));
        let next = pos + 13 + found.size;
        lemma_scan_append(volume, next, key, data);
        let rest = scan_from(volume, next)->Ok_0;
        let added = IndexFileItem {
            key,
            flag: true,
            offset: volume.len() as u64,
            size: data.len() as u64,
        };
        assert(seq![entry_of(found, pos)] + rest.push(added) =~= (seq![entry_of(found, pos)]
            + rest).push(added));
    }
}

/// The entries `items` once the needle that starts at `offset` was deleted.
pub open spec fn retired(items: Seq<IndexFileItem>, offset: u64) -> Seq<IndexFileItem> {
    Seq::new(
        items.len(),
        |j: int|
            if items[j].offset == offset {
                tombstone(items[j])
            } else {
                items[j]
            },
    )
}

/// The volume once the needle of `item` was deleted: its key written again,
/// and its flag cleared.
pub open spec fn tombstoned(volume: Seq<u8>, item: IndexFileItem) -> Seq<u8> {
    overwritten(
        volume,
        item.offset as int,
        tombstone(item).key.encoding() + tombstone(item).flag.encoding(),
    )
}

/// Deleting a needle clears the flag of its entry in what a scan finds, and
/// changes nothing else: every needle still starts where it did.
pub proof fn lemma_scan_tombstone(volume: Seq<u8>, pos: int, item: IndexFileItem)
    requires
        0 <= pos <= volume.len(),
        volume.len() <= u64::MAX,
        scan_from(volume, pos) is Ok,
        item.offset + 13 <= volume.len(),
        item.offset + 5 <= pos || scan_from(volume, pos)->Ok_0.contains(item),
    ensures
        scan_from(tombstoned(volume, item), pos) == Ok::<Seq<IndexFileItem>, StorageError>(
            retired(scan_from(volume, pos)->Ok_0, item.offset),
        ),
    decreases volume.len() - pos,
{
    let after = tombstoned(volume, item);
    let items = scan_from(volume, pos)->Ok_0;
    item.key.lemma_round_trip();
    assert(after.len() == volume.len());
    lemma_scan_offsets(volume, pos);
    if item.offset + 5 <= pos {
        lemma_scan_reads_behind(volume, after, pos);
        assert(retired(items, item.offset) =~= items);
    } else {
        let j = choose|j: int| 0 <= j < items.len() && items[j] == item;
        let header = needle_at(volume, pos)->Ok_0->Some_0;
        let next = pos + 13 + header.size;
        let rest = scan_from(volume, next)->Ok_0;
        lemma_scan_offsets(volume, next);
        assert(items =~= seq![entry_of(header, pos)] + rest);
        if item.offset == pos {
            if j > 0 {
                assert(items[j] == rest[j - 1]);
            }
            assert(item == entry_of(header, pos));
            let cleared = NeedleHeader { flag: false, ..header };
            let old_bytes = volume.subrange(pos, pos + 13);
            let new_bytes = after.subrange(pos, pos + 13);
            assert(new_bytes.subrange(0, 4) =~= item.key.encoding());
            assert(new_bytes.subrange(4, 13).subrange(0, 1) =~= seq![0u8]);
            assert(new_bytes.subrange(4, 13).subrange(1, 9) =~= old_bytes.subrange(
                4,
                13,
            ).subrange(1, 9));
            assert(needle_at(after, pos) == Ok::<Option<NeedleHeader>, StorageError>(
                Some(cleared),
            ));
            lemma_scan_reads_behind(volume, after, next);
            assert(retired(items, item.offset) =~= seq![entry_of(cleared, pos)] + rest) by {
                assert forall|k: int| 1 <= k < items.len() implies items[k].offset
                    != item.offset by {
                    assert(items[k] == rest[k - 1]);
                }
            }
        } else {
            assert(j > 0);
            assert(items[j] == rest[j - 1]);
            assert(rest.contains(item));
            assert(after.subrange(pos, pos + 13) =~= volume.subrange(pos, pos + 13));
            lemma_scan_tombstone(volume, next, item);
            assert(retired(items, item.offset) =~= seq![entry_of(header, pos)] + retired(
                rest,
                item.offset,
            )) by {
                assert forall|k: int| 1 <= k < items.len() implies items[k] == rest[k - 1] by {}
            }
        }
    }
}

/// The needles that a scan finds lie one behind the other.
pub proof fn lemma_scan_ordered(volume: Seq<u8>, pos: int)
    requires
        0 <= pos,
        volume.len() <= u64::MAX,
        scan_from(volume, pos) is Ok,
    ensures
        forall|a: int, b: int|
            0 <= a < b < scan_from(volume, pos)->Ok_0.len() ==> (#[trigger] scan_from(
                volume,
                pos,
            )->Ok_0[a]).offset < (#[trigger] scan_from(volume, pos)->Ok_0[b]).offset,
    decreases volume.len() - pos,
{
    if let Ok(Some(header)) = needle_at(volume, pos) {
        let next = pos + 13 + header.size;
        let items = scan_from(volume, pos)->Ok_0;
        let rest = scan_from(volume, next)->Ok_0;
        lemma_scan_ordered(volume, next);
        lemma_scan_offsets(volume, next);
        assert forall|a: int, b: int| 0 <= a < b < items.len() implies (#[trigger] items[a]).offset
            < (#[trigger] items[b]).offset by {
            assert(items[b] == rest[b - 1]);
            if a > 0 {
                assert(items[a] == rest[a - 1]);
            }
        }
    }
}

/// The live entries of `items` are entries of `items` whose flag is set.
pub proof fn lemma_live(items: Seq<IndexFileItem>)
    ensures
        live(items).len() <= items.len(),
        forall|i: int| 0 <= i < live(items).len() ==> (#[trigger] live(items)[i]).flag,
        forall|i: int| 0 <= i < live(items).len() ==> items.contains(#[trigger] live(items)[i]),
    decreases items.len(),
{
    reveal(Seq::filter);
    if items.len() > 0 {
        let front = items.drop_last();
        lemma_live(front);
        let kept = live(items);
        assert forall|i: int| 0 <= i < kept.len() implies items.contains(#[trigger] kept[i]) by {
            if i < live(front).len() {
                let a = choose|a: int| 0 <= a < front.len() && front[a] == live(front)[i];
                assert(items[a] == kept[i]);
            } else {
                assert(items[items.len() - 1] == kept[i]);
            }
        }
    }
}

/// Where no entry is deleted, the live entries are all the entries.
pub proof fn lemma_live_all(items: Seq<IndexFileItem>)
    requires
        forall|i: int| 0 <= i < items.len() ==> (#[trigger] items[i]).flag,
    ensures
        live(items) == items,
    decreases items.len(),
{
    reveal(Seq::filter);
    if items.len() > 0 {
        let front = items.drop_last();
        assert forall|i: int| 0 <= i < front.len() implies (#[trigger] front[i]).flag by {
            assert(front[i] == items[i]);
        }
        lemma_live_all(front);
        assert(live(items) =~= items);
    }
}

/// Dropping the deleted entries keeps the keys rising.
pub proof fn lemma_live_rising(items: Seq<IndexFileItem>)
    requires
        rising(items),
    ensures
        rising(live(items)),
    decreases items.len(),
{
    reveal(Seq::filter);
    if items.len() > 0 {
        let front = items.drop_last();
        let kept = live(items);
        assert(rising(front)) by {
            assert forall|i: int, j: int| 0 <= i < j < front.len() implies (
            #[trigger] front[i]).key < (#[trigger] front[j]).key by {
                assert(items[i].key < items[j].key);
            }
        }
        lemma_live_rising(front);
        lemma_live(front);
        assert forall|i: int, j: int| 0 <= i < j < kept.len() implies (#[trigger] kept[i]).key < (
        #[trigger] kept[j]).key by {
            if j < live(front).len() {
                assert(live(front)[i].key < live(front)[j].key);
            } else {
                let a = choose|a: int| 0 <= a < front.len() && front[a] == live(front)[i];
                assert(items[a].key < items[items.len() - 1].key);
            }
        }
    }
}

/// The empty table agrees with the empty volume.
pub proof fn lemma_empty_agrees()
    ensures
        agree(Seq::empty(), Seq::empty()),
        rebuild_spec(Seq::empty()) == Ok::<Seq<IndexFileItem>, StorageError>(Seq::empty()),
{
    reveal(Seq::filter);
}

/// The index that is rebuilt from a numbered volume agrees with it.
pub proof fn lemma_rebuild_agrees(volume: Seq<u8>)
    requires
        numbered(volume),
    ensures
        rebuild_spec(volume) is Ok,
        agree(rebuild_spec(volume)->Ok_0, volume),
{
    let items = scan_spec(volume)->Ok_0;
    let kept = live(items);
    lemma_live(items);
    assert forall|i: int| 0 <= i < kept.len() implies {
        &&& (#[trigger] kept[i]).key < items.len()
        &&& kept[i] == items[kept[i].key as int]
    } by {
        let a = choose|a: int| 0 <= a < items.len() && items[a] == kept[i];
        assert(items[a].key == a);
    }
    assert(rising(items)) by {
        assert forall|i: int, j: int| 0 <= i < j < items.len() implies (#[trigger] items[i]).key
            < (#[trigger] items[j]).key by {
            assert(items[i].key == i && items[j].key == j);
        }
    }
    lemma_live_rising(items);
}

/// A table that agrees with a volume still does so when its deleted entries
/// are dropped, as loading it from its index file does.
pub proof fn lemma_live_agrees(indexes: Seq<IndexFileItem>, volume: Seq<u8>)
    requires
        agree(indexes, volume),
    ensures
        agree(live(indexes), volume),
{
    let kept = live(indexes);
    lemma_live(indexes);
    assert forall|i: int| 0 <= i < kept.len() implies {
        &&& (#[trigger] kept[i]).key < scan_spec(volume)->Ok_0.len()
        &&& kept[i] == scan_spec(volume)->Ok_0[kept[i].key as int]
    } by {
        let a = choose|a: int| 0 <= a < indexes.len() && indexes[a] == kept[i];
        assert(indexes[a].key < scan_spec(volume)->Ok_0.len());
    }
    lemma_live_rising(indexes);
}

/// Adding an object to a table that agrees with its volume succeeds unless
/// the keys have run out. The new key is the number of needles that the
/// volume held, table and volume agree afterwards, and the object can be
/// read back at once: `get_data` with the new key gives the payload.
pub proof fn lemma_get_after_add(indexes: Seq<IndexFileItem>, volume: Seq<u8>, payload: Seq<u8>)
    requires
        agree(indexes, volume),
        volume.len() + 13 + payload.len() <= u64::MAX,
    ensures
        match add_spec(indexes, volume, payload) {
            Ok((indexes_after, volume_after, item)) => {
                &&& item.key == scan_spec(volume)->Ok_0.len()
                &&& get_spec(indexes_after, volume_after, item.key) == Ok::<
                    Option<Seq<u8>>,
                    StorageError,
                >(Some(payload))
                &&& agree(indexes_after, volume_after)
                &&& scan_spec(volume_after) == Ok::<Seq<IndexFileItem>, StorageError>(
                    scan_spec(volume)->Ok_0.push(item),
                )
            },
            Err(e) => e == StorageError::KeySpaceExhausted && scan_spec(volume)->Ok_0.len()
                > u32::MAX,
        },
{
    let items = scan_spec(volume)->Ok_0;
    if let Ok((indexes_after, volume_after, item)) = add_spec(indexes, volume, payload) {
        let key = item.key;
        let header = NeedleHeader { key, flag: true, size: payload.len() as u64 };
        header.lemma_round_trip();
        lemma_scan_append(volume, 0, key, payload);
        let items_after = items.push(item);
        assert(scan_spec(volume_after) == Ok::<Seq<IndexFileItem>, StorageError>(items_after));
        assert forall|j: int| 0 <= j < indexes.len() implies !answers(
            #[trigger] indexes_after[j],
            key,
        ) by {
            assert(indexes[j].key < items.len());
        }
        lemma_first_alive_is(indexes_after, key, indexes.len() as int);
        let pos = volume.len() as int;
        assert(volume_after.subrange(pos, pos + 13) =~= header.encoding());
        assert(volume_after.subrange(pos + 13, pos + 13 + header.size) =~= payload);
        assert forall|i: int| 0 <= i < indexes_after.len() implies {
            &&& (#[trigger] indexes_after[i]).key < items_after.len()
            &&& indexes_after[i] == items_after[indexes_after[i].key as int]
        } by {
            if i < indexes.len() {
                assert(indexes[i].key < items.len());
            }
        }
        assert forall|i: int, j: int| 0 <= i < j < indexes_after.len() implies (
        #[trigger] indexes_after[i]).key < (#[trigger] indexes_after[j]).key by {
            assert(indexes[i].key < items.len());
        }
    }
}

/// A key that no live entry of the table has is unknown: `get_data` finds
/// nothing, and `delete_item` fails with `NotFound`.
pub proof fn lemma_unknown_key(indexes: Seq<IndexFileItem>, volume: Seq<u8>, key: u32)
    requires
        forall|i: int| 0 <= i < indexes.len() ==> !answers(#[trigger] indexes[i], key),
    ensures
        get_spec(indexes, volume, key) == Ok::<Option<Seq<u8>>, StorageError>(None),
        delete_spec(indexes, volume, key) == Err::<(Seq<IndexFileItem>, Seq<u8>), StorageError>(
            StorageError::NotFound,
        ),
{
    lemma_first_alive(indexes, key);
}

/// Deleting from a table that agrees with its volume succeeds exactly when a
/// live object has the key. Afterwards `get_data` finds nothing under the
/// key, the needle's header in the volume says that it is deleted, so that an
/// index rebuilt from the volume has no entry with the key, and table and
/// volume still agree.
pub proof fn lemma_delete(indexes: Seq<IndexFileItem>, volume: Seq<u8>, key: u32)
    requires
        agree(indexes, volume),
    ensures
        match delete_spec(indexes, volume, key) {
            Ok((indexes_after, volume_after)) => {
                &&& get_spec(indexes_after, volume_after, key) == Ok::<
                    Option<Seq<u8>>,
                    StorageError,
                >(None)
                &&& scan_spec(volume_after) == Ok::<Seq<IndexFileItem>, StorageError>(
                    scan_spec(volume)->Ok_0.update(
                        key as int,
                        tombstone(scan_spec(volume)->Ok_0[key as int]),
                    ),
                )
                &&& rebuild_spec(volume_after) is Ok
                &&& forall|j: int|
                    0 <= j < rebuild_spec(volume_after)->Ok_0.len() ==> (
                    #[trigger] rebuild_spec(volume_after)->Ok_0[j]).key != key
                &&& agree(indexes_after, volume_after)
            },
            Err(e) => e == StorageError::NotFound && first_alive(indexes, key) is None,
        },
{
    lemma_first_alive(indexes, key);
    if let Some(i) = first_alive(indexes, key) {
        let items = scan_spec(volume)->Ok_0;
        let item = indexes[i];
        assert(item.key < items.len() && item == items[item.key as int]);
        lemma_scan_offsets(volume, 0);
        lemma_scan_ordered(volume, 0);
        assert(items.contains(item));
        lemma_scan_tombstone(volume, 0, item);
        let indexes_after = indexes.update(i, tombstone(item));
        let volume_after = tombstoned(volume, item);
        item.key.lemma_round_trip();
        assert(delete_spec(indexes, volume, key) == Ok::<
            (Seq<IndexFileItem>, Seq<u8>),
            StorageError,
        >((indexes_after, volume_after)));
        let items_after = items.update(key as int, tombstone(items[key as int]));
        assert(retired(items, item.offset) =~= items_after) by {
            assert forall|k: int| 0 <= k < items.len() && k != key implies items[k].offset
                != item.offset by {
                if k < key {
                    assert(items[k].offset < items[key as int].offset);
                } else {
                    assert(items[key as int].offset < items[k].offset);
                }
            }
        }
        assert forall|j: int| 0 <= j < indexes_after.len() implies !answers(
            #[trigger] indexes_after[j],
            key,
        ) by {
            if j < i {
                assert(indexes[j].key < indexes[i].key);
            } else if j > i {
                assert(indexes[i].key < indexes[j].key);
            }
        }
        lemma_first_alive(indexes_after, key);
        lemma_live(items_after);
        let rebuilt = live(items_after);
        assert forall|j: int| 0 <= j < rebuilt.len() implies (#[trigger] rebuilt[j]).key
            != key by {
            let a = choose|a: int| 0 <= a < items_after.len() && items_after[a] == rebuilt[j];
            assert(items_after[a].key == a);
        }
        assert forall|a: int| 0 <= a < indexes_after.len() implies {
            &&& (#[trigger] indexes_after[a]).key < items_after.len()
            &&& indexes_after[a] == items_after[indexes_after[a].key as int]
        } by {
            assert(indexes[a].key < items.len());
            if a < i {
                assert(indexes[a].key < indexes[i].key);
            } else if a > i {
                assert(indexes[i].key < indexes[a].key);
            }
        }
        assert forall|a: int, b: int| 0 <= a < b < indexes_after.len() implies (
        #[trigger] indexes_after[a]).key < (#[trigger] indexes_after[b]).key by {
            assert(indexes[a].key < indexes[b].key);
        }
    }
}

/// The table and the volume after the objects `payloads` were added, one
/// after the other, to an empty table and an empty volume.
pub open spec fn after_adds(payloads: Seq<Seq<u8>>) -> Result<
    (Seq<IndexFileItem>, Seq<u8>),
    StorageError,
>
    decreases payloads.len(),
{
    if payloads.len() == 0 {
        Ok((Seq::empty(), Seq::empty()))
    } else {
        match after_adds(payloads.drop_last()) {
            Err(e) => Err(e),
            Ok((indexes, volume)) => match add_spec(indexes, volume, payloads.last()) {
                Err(e) => Err(e),
                Ok((indexes_after, volume_after, _)) => Ok((indexes_after, volume_after)),
            },
        }
    }
}

/// Adding alone keeps every entry live and numbers the objects from 0 on in
/// the order in which they came; table and volume agree, and the table holds
/// the entry of every needle of the volume.
pub proof fn lemma_after_adds(payloads: Seq<Seq<u8>>)
    requires
        after_adds(payloads) is Ok,
        after_adds(payloads)->Ok_0.1.len() <= u64::MAX,
    ensures
        scan_spec(after_adds(payloads)->Ok_0.1) == Ok::<Seq<IndexFileItem>, StorageError>(
            after_adds(payloads)->Ok_0.0,
        ),
        agree(after_adds(payloads)->Ok_0.0, after_adds(payloads)->Ok_0.1),
        after_adds(payloads)->Ok_0.0.len() == payloads.len(),
        forall|i: int|
            0 <= i < payloads.len() ==> {
                let item = #[trigger] after_adds(payloads)->Ok_0.0[i];
                item.key == i && item.flag && item.size == payloads[i].len()
            },
    decreases payloads.len(),
{
    let (indexes, volume) = after_adds(payloads)->Ok_0;
    if payloads.len() == 0 {
        lemma_empty_agrees();
    } else {
        let front = payloads.drop_last();
        let payload = payloads.last();
        let (indexes_before, volume_before) = after_adds(front)->Ok_0;
        let added = add_spec(indexes_before, volume_before, payload)->Ok_0.2;
        assert(indexes == indexes_before.push(added));
        assert(volume.len() == volume_before.len() + 13 + payload.len()) by {
            let header = NeedleHeader { key: added.key, flag: true, size: payload.len() as u64 };
            header.lemma_round_trip();
        }
        lemma_after_adds(front);
        lemma_get_after_add(indexes_before, volume_before, payload);
        assert forall|i: int| 0 <= i < payloads.len() implies {
            let item = #[trigger] indexes[i];
            item.key == i && item.flag && item.size == payloads[i].len()
        } by {
            if i < front.len() {
                assert(indexes[i] == indexes_before[i]);
                assert(front[i] == payloads[i]);
            }
        }
    }
}

/// Rebuilding the index from a volume that was filled by adding alone gives
/// the table that the adding built: the same entries, in the same order.
pub proof fn lemma_rebuild_after_adds(payloads: Seq<Seq<u8>>)
    requires
        after_adds(payloads) is Ok,
        after_adds(payloads)->Ok_0.1.len() <= u64::MAX,
    ensures
        rebuild_spec(after_adds(payloads)->Ok_0.1) == Ok::<Seq<IndexFileItem>, StorageError>(
            after_adds(payloads)->Ok_0.0,
        ),
{
    lemma_after_adds(payloads);
    lemma_live_all(after_adds(payloads)->Ok_0.0);
}

/// The index file of a table is 21 bytes for each entry, and the bytes of
/// the entry number `k` are its encoding.
pub proof fn lemma_snapshot_layout(indexes: Seq<IndexFileItem>)
    ensures
        snapshot_bytes(indexes).len() == 21 * indexes.len(),
        forall|k: int|
            0 <= k < indexes.len() ==> #[trigger] snapshot_bytes(indexes).subrange(
                21 * k,
                21 * k + 21,
            ) == indexes[k].encoding(),
    decreases indexes.len(),
{
    if indexes.len() > 0 {
        let front = indexes.drop_last();
        let last = indexes.last();
        lemma_snapshot_layout(front);
        last.lemma_round_trip();
        let bytes = snapshot_bytes(indexes);
        assert forall|k: int| 0 <= k < indexes.len() implies #[trigger] bytes.subrange(
            21 * k,
            21 * k + 21,
        ) == indexes[k].encoding() by {
            if k < front.len() {
                assert(bytes.subrange(21 * k, 21 * k + 21) =~= snapshot_bytes(front).subrange(
                    21 * k,
                    21 * k + 21,
                ));
                assert(front[k] == indexes[k]);
            } else {
                assert(bytes.subrange(21 * k, 21 * k + 21) =~= last.encoding());
            }
        }
    }
}

/// Loading the index file of a table from the entry number `k` on gives the
/// live entries from there on.
pub proof fn lemma_load_from_entry(indexes: Seq<IndexFileItem>, k: int)
    requires
        0 <= k <= indexes.len(),
    ensures
        load_from(snapshot_bytes(indexes), 21 * k) == Ok::<Seq<IndexFileItem>, StorageError>(
            live(indexes.skip(k)),
        ),
    decreases indexes.len() - k,
{
    let bytes = snapshot_bytes(indexes);
    lemma_snapshot_layout(indexes);
    if k == indexes.len() {
        reveal(Seq::filter);
        assert(indexes.skip(k) =~= Seq::<IndexFileItem>::empty());
    } else {
        let item = indexes[k];
        item.lemma_round_trip();
        assert(bytes.subrange(21 * k, 21 * k + 21) == item.encoding());
        assert(read_struct_spec::<IndexFileItem>(bytes, 21 * k) == Ok::<
            Option<IndexFileItem>,
            StorageError,
        >(Some(item)));
        lemma_load_from_entry(indexes, k + 1);
        let behind = indexes.skip(k + 1);
        assert(indexes.skip(k) =~= seq![item] + behind);
        behind.lemma_filter_prepend(item, is_live());
        if !item.flag {
            assert(Seq::<IndexFileItem>::empty() + live(behind) =~= live(behind));
        }
    }
}

/// Loading the index file that `store_into_file` wrote gives the live entries
/// of the table, in the table's order, and no deleted one.
pub proof fn lemma_snapshot_round_trip(indexes: Seq<IndexFileItem>)
    ensures
        load_spec(snapshot_bytes(indexes)) == Ok::<Seq<IndexFileItem>, StorageError>(
            live(indexes),
        ),
{
    lemma_load_from_entry(indexes, 0);
    assert(indexes.skip(0) =~= indexes);
}

/// A needle whose header declares more payload than the volume holds behind
/// it is corrupt: reading it fails, and gives no shortened payload.
pub proof fn lemma_overlong_needle(indexes: Seq<IndexFileItem>, volume: Seq<u8>, key: u32)
    requires
        first_alive(indexes, key) is Some,
        read_struct_spec::<NeedleHeader>(
            volume,
            indexes[first_alive(indexes, key)->Some_0].offset as int,
        ) matches Ok(Some(header)) && indexes[first_alive(indexes, key)->Some_0].offset + 13
            + header.size > volume.len(),
    ensures
        needle_read(volume, indexes[first_alive(indexes, key)->Some_0].offset as int) == Err::<
            Option<Needle>,
            StorageError,
        >(StorageError::CorruptRecord),
        get_spec(indexes, volume, key) == Err::<Option<Seq<u8>>, StorageError>(
            StorageError::CorruptRecord,
        ),
{
}

/// The needles that a scan finds do not overlap: each ends before the next
/// one starts.
pub proof fn lemma_scan_apart(volume: Seq<u8>, pos: int)
    requires
        0 <= pos,
        volume.len() <= u64::MAX,
        scan_from(volume, pos) is Ok,
    ensures
        forall|a: int, b: int|
            0 <= a < b < scan_from(volume, pos)->Ok_0.len() ==> (#[trigger] scan_from(
                volume,
                pos,
            )->Ok_0[a]).offset + 13 + scan_from(volume, pos)->Ok_0[a].size <= (
            #[trigger] scan_from(volume, pos)->Ok_0[b]).offset,
    decreases volume.len() - pos,
{
    if let Ok(Some(header)) = needle_at(volume, pos) {
        let next = pos + 13 + header.size;
        let items = scan_from(volume, pos)->Ok_0;
        let rest = scan_from(volume, next)->Ok_0;
        lemma_scan_apart(volume, next);
        lemma_scan_offsets(volume, next);
        assert forall|a: int, b: int| 0 <= a < b < items.len() implies (#[trigger] items[a]).offset
            + 13 + items[a].size <= (#[trigger] items[b]).offset by {
            assert(items[b] == rest[b - 1]);
            if a > 0 {
                assert(items[a] == rest[a - 1]);
            }
        }
    }
}

/// A scan finds each needle as it is read at its own position: the header
/// that stands there is the one of the entry.
pub proof fn lemma_scan_reads(volume: Seq<u8>, pos: int, k: int)
    requires
        0 <= pos,
        volume.len() <= u64::MAX,
        scan_from(volume, pos) is Ok,
        0 <= k < scan_from(volume, pos)->Ok_0.len(),
    ensures
        ({
            let item = scan_from(volume, pos)->Ok_0[k];
            needle_at(volume, item.offset as int) == Ok::<Option<NeedleHeader>, StorageError>(
                Some(NeedleHeader { key: item.key, flag: item.flag, size: item.size }),
            )
        }),
    decreases volume.len() - pos,
{
    let header = needle_at(volume, pos)->Ok_0->Some_0;
    if k > 0 {
        let next = pos + 13 + header.size;
        lemma_scan_reads(volume, next, k - 1);
        assert(scan_from(volume, pos)->Ok_0[k] == scan_from(volume, next)->Ok_0[k - 1]);
    }
}

/// Every entry of a table that agrees with its volume points at the first
/// byte of the header of its needle: the header that is read at `offset` has
/// the key, the flag and the size of the entry, and the payload lies inside
/// the volume.
pub proof fn lemma_entry_points_at_header(indexes: Seq<IndexFileItem>, volume: Seq<u8>, i: int)
    requires
        agree(indexes, volume),
        0 <= i < indexes.len(),
    ensures
        needle_at(volume, indexes[i].offset as int) == Ok::<Option<NeedleHeader>, StorageError>(
            Some(
                NeedleHeader { key: indexes[i].key, flag: indexes[i].flag, size: indexes[i].size },
            ),
        ),
        indexes[i].offset + 13 + indexes[i].size <= volume.len(),
{
    let item = indexes[i];
    assert(item == scan_spec(volume)->Ok_0[item.key as int]);
    lemma_scan_reads(volume, 0, item.key as int);
    lemma_scan_offsets(volume, 0);
}

/// Deleting changes one byte of the volume, the flag in the header of the
/// needle. The rest of the header and every payload stay as they were
/// written.
pub proof fn lemma_delete_clears_one_byte(indexes: Seq<IndexFileItem>, volume: Seq<u8>, key: u32)
    requires
        agree(indexes, volume),
        delete_spec(indexes, volume, key) is Ok,
    ensures
        delete_spec(indexes, volume, key)->Ok_0.1 == volume.update(
            indexes[first_alive(indexes, key)->Some_0].offset + 4,
            0u8,
        ),
{
    lemma_first_alive(indexes, key);
    let item = indexes[first_alive(indexes, key)->Some_0];
    let items = scan_spec(volume)->Ok_0;
    let start = item.offset as int;
    assert(item == items[item.key as int]);
    lemma_scan_offsets(volume, 0);
    lemma_scan_reads(volume, 0, item.key as int);
    let written = volume.subrange(start, start + 13).subrange(0, 4);
    assert(written == item.key.encoding()) by {
        vstd::bytes::lemma_auto_spec_u32_to_from_le_bytes();
        assert(written.len() == 4);
    }
    item.key.lemma_round_trip();
    assert(tombstoned(volume, item) =~= volume.update(start + 4, 0u8)) by {
        assert forall|i: int| start <= i < start + 4 implies volume[i] == item.key.encoding()[i
            - start] by {
            assert(written[i - start] == volume[i]);
        }
    }
}

/// Adding an object leaves every other object as it was: what `get_data`
/// gives for another key is what it gave before.
pub proof fn lemma_add_keeps_others(
    indexes: Seq<IndexFileItem>,
    volume: Seq<u8>,
    payload: Seq<u8>,
    other: u32,
)
    requires
        agree(indexes, volume),
        add_spec(indexes, volume, payload) is Ok,
        other != add_spec(indexes, volume, payload)->Ok_0.2.key,
    ensures
        get_spec(
            add_spec(indexes, volume, payload)->Ok_0.0,
            add_spec(indexes, volume, payload)->Ok_0.1,
            other,
        ) == get_spec(indexes, volume, other),
{
    let (indexes_after, volume_after, item) = add_spec(indexes, volume, payload)->Ok_0;
    lemma_first_alive(indexes, other);
    lemma_first_alive(indexes_after, other);
    match first_alive(indexes, other) {
        Some(i) => {
            assert(indexes_after[i] == indexes[i]);
            assert forall|j: int| 0 <= j < i implies !answers(#[trigger] indexes_after[j], other) by {
                assert(indexes_after[j] == indexes[j]);
            }
            lemma_first_alive_is(indexes_after, other, i);
            let found = indexes[i];
            let start = found.offset as int;
            lemma_scan_offsets(volume, 0);
            lemma_scan_reads(volume, 0, found.key as int);
            assert(volume_after.subrange(start, start + 13) =~= volume.subrange(
                start,
                start + 13,
            ));
            assert(volume_after.subrange(start + 13, start + 13 + found.size) =~= volume.subrange(
                start + 13,
                start + 13 + found.size,
            ));
        },
        None => {
            assert forall|j: int| 0 <= j < indexes_after.len() implies !answers(
                #[trigger] indexes_after[j],
                other,
            ) by {
                if j < indexes.len() {
                    assert(indexes_after[j] == indexes[j]);
                }
            }
        },
    }
}

/// Deleting an object leaves every other object as it was: what `get_data`
/// gives for another key is what it gave before.
pub proof fn lemma_delete_keeps_others(
    indexes: Seq<IndexFileItem>,
    volume: Seq<u8>,
    key: u32,
    other: u32,
)
    requires
        agree(indexes, volume),
        delete_spec(indexes, volume, key) is Ok,
        other != key,
    ensures
        get_spec(
            delete_spec(indexes, volume, key)->Ok_0.0,
            delete_spec(indexes, volume, key)->Ok_0.1,
            other,
        ) == get_spec(indexes, volume, other),
{
    let (indexes_after, volume_after) = delete_spec(indexes, volume, key)->Ok_0;
    let deleted = first_alive(indexes, key)->Some_0;
    lemma_first_alive(indexes, key);
    lemma_first_alive(indexes, other);
    lemma_first_alive(indexes_after, other);
    lemma_delete_clears_one_byte(indexes, volume, key);
    let changed = indexes[deleted].offset + 4;
    match first_alive(indexes, other) {
        Some(i) => {
            assert(indexes_after[i] == indexes[i]);
            assert forall|j: int| 0 <= j < i implies !answers(#[trigger] indexes_after[j], other) by {
                if j != deleted {
                    assert(indexes_after[j] == indexes[j]);
                }
            }
            lemma_first_alive_is(indexes_after, other, i);
            let found = indexes[i];
            let start = found.offset as int;
            let items = scan_spec(volume)->Ok_0;
            lemma_scan_offsets(volume, 0);
            lemma_scan_apart(volume, 0);
            lemma_scan_reads(volume, 0, found.key as int);
            assert(found == items[other as int] && indexes[deleted] == items[key as int]);
            assert(!(start <= changed < start + 13 + found.size)) by {
                if other < key {
                    assert(items[other as int].offset + 13 + items[other as int].size
                        <= items[key as int].offset);
                } else {
                    assert(items[key as int].offset + 13 + items[key as int].size
                        <= items[other as int].offset);
                }
            }
            assert(volume_after.subrange(start, start + 13) =~= volume.subrange(
                start,
                start + 13,
            ));
            assert(volume_after.subrange(start + 13, start + 13 + found.size) =~= volume.subrange(
                start + 13,
                start + 13 + found.size,
            ));
        },
        None => {
            assert forall|j: int| 0 <= j < indexes_after.len() implies !answers(
                #[trigger] indexes_after[j],
                other,
            ) by {
                if j != deleted {
                    assert(indexes_after[j] == indexes[j]);
                }
            }
        },
    }
}

} // verus!
