use heystack::diskio::struct_slice::{slice_info_struct, struct_into_slice};
use heystack::error::StorageError;
use heystack::master::load_index_file;
use heystack::storage::index::IndexFile;
use heystack::storage::item::{IndexFileItem, NeedleHeader};
use heystack::storage::needle::PhysicalFileItem;

fn table(max: usize) -> IndexFile {
    IndexFile::new(
        Vec::new(),
        max,
        String::from("heystack.index"),
        String::from("heystack.volume"),
    )
}

fn entry(key: u32, flag: bool, offset: u64, size: u64) -> IndexFileItem {
    IndexFileItem {
        key,
        flag,
        offset,
        size,
    }
}

/// A table with three objects, the payloads `b"a"`, `b"bc"` and `b""`.
fn three() -> (IndexFile, Vec<u8>) {
    let mut volume: Vec<u8> = Vec::new();
    let mut index = table(8);
    index.add_item(&b"a".to_vec(), &mut volume).unwrap();
    index.add_item(&b"bc".to_vec(), &mut volume).unwrap();
    index.add_item(&Vec::new(), &mut volume).unwrap();
    (index, volume)
}

#[test]
fn add_get_delete_rebuild() {
    let mut volume: Vec<u8> = Vec::new();
    let mut index = table(16);
    let first = index.add_item(&b"hello".to_vec(), &mut volume).unwrap();
    assert_eq!(first.key, 0);
    let second = index.add_item(&b"world!".to_vec(), &mut volume).unwrap();
    assert_eq!(second.key, 1);
    assert_eq!(index.get_data(0, &volume), Ok(Some(b"hello".to_vec())));
    assert_eq!(index.delete_item(0, &mut volume), Ok(()));
    assert_eq!(index.get_data(0, &volume), Ok(None));
    assert_eq!(index.get_data(1, &volume), Ok(Some(b"world!".to_vec())));
    let rebuilt = PhysicalFileItem::build_index_file(&volume).unwrap();
    assert_eq!(rebuilt, vec![entry(1, true, 18, 6)]);
}

#[test]
fn a_needle_is_header_then_payload() {
    let mut volume: Vec<u8> = Vec::new();
    let first = PhysicalFileItem::add_one_file(&b"hello".to_vec(), &mut volume).unwrap();
    assert_eq!(first, entry(0, true, 0, 5));
    assert_eq!(
        volume,
        vec![0, 0, 0, 0, 1, 5, 0, 0, 0, 0, 0, 0, 0, b'h', b'e', b'l', b'l', b'o']
    );
    let second = PhysicalFileItem::add_one_file(&b"world!".to_vec(), &mut volume).unwrap();
    assert_eq!(second, entry(1, true, 18, 6));
    assert_eq!(volume.len(), 18 + 13 + 6);
    assert_eq!(&volume[18..31], &[1, 0, 0, 0, 1, 6, 0, 0, 0, 0, 0, 0, 0]);
    assert_eq!(&volume[31..], b"world!");
}

#[test]
fn an_index_entry_is_21_bytes() {
    let item = entry(0x0102_0304, true, 0x1122_3344_5566_7788, 6);
    let bytes = struct_into_slice(&item);
    assert_eq!(
        bytes,
        vec![
            4, 3, 2, 1, 1, 0x88, 0x77, 0x66, 0x55, 0x44, 0x33, 0x22, 0x11, 6, 0, 0, 0, 0, 0, 0,
            0
        ]
    );
    assert_eq!(slice_info_struct::<IndexFileItem>(&bytes), Ok(item));
    let header = NeedleHeader {
        key: 7,
        flag: false,
        size: 258,
    };
    let bytes = struct_into_slice(&header);
    assert_eq!(bytes, vec![7, 0, 0, 0, 0, 2, 1, 0, 0, 0, 0, 0, 0]);
    assert_eq!(slice_info_struct::<NeedleHeader>(&bytes), Ok(header));
}

#[test]
fn what_was_added_can_be_read_at_once() {
    let mut volume: Vec<u8> = Vec::new();
    let mut index = table(4);
    let payloads: Vec<Vec<u8>> = vec![
        b"one".to_vec(),
        Vec::new(),
        vec![0; 300],
        b"the last of them".to_vec(),
    ];
    for payload in &payloads {
        let item = index.add_item(payload, &mut volume).unwrap();
        assert_eq!(index.get_data(item.key, &volume), Ok(Some(payload.clone())));
    }
    for (key, payload) in payloads.iter().enumerate() {
        assert_eq!(
            index.get_data(key as u32, &volume),
            Ok(Some(payload.clone()))
        );
    }
}

#[test]
fn keys_count_the_needles() {
    let (mut index, mut volume) = three();
    assert_eq!(
        index.indexes,
        vec![
            entry(0, true, 0, 1),
            entry(1, true, 14, 2),
            entry(2, true, 29, 0)
        ]
    );
    assert_eq!(volume.len(), 42);
    index.delete_item(2, &mut volume).unwrap();
    index.delete_item(0, &mut volume).unwrap();
    let next = index.add_item(&b"d".to_vec(), &mut volume).unwrap();
    assert_eq!(next, entry(3, true, 42, 1));
}

#[test]
fn an_unknown_key_is_not_found() {
    let (mut index, mut volume) = three();
    let before = volume.clone();
    assert_eq!(index.get_data(3, &volume), Ok(None));
    assert_eq!(index.get_data(u32::MAX, &volume), Ok(None));
    assert_eq!(
        index.delete_item(3, &mut volume),
        Err(StorageError::NotFound)
    );
    assert_eq!(volume, before);
    assert_eq!(index.indexes.len(), 3);
    let mut empty = table(1);
    let mut nothing: Vec<u8> = Vec::new();
    assert_eq!(empty.get_data(0, &nothing), Ok(None));
    assert_eq!(
        empty.delete_item(0, &mut nothing),
        Err(StorageError::NotFound)
    );
    assert_eq!(nothing, Vec::<u8>::new());
}

#[test]
fn deleting_twice_is_not_found() {
    let (mut index, mut volume) = three();
    assert_eq!(index.delete_item(1, &mut volume), Ok(()));
    assert_eq!(
        index.delete_item(1, &mut volume),
        Err(StorageError::NotFound)
    );
}

#[test]
fn a_deleted_object_stays_deleted() {
    let (mut index, mut volume) = three();
    let before = volume.clone();
    assert_eq!(index.delete_item(1, &mut volume), Ok(()));
    assert_eq!(index.get_data(1, &volume), Ok(None));
    // the entry keeps its place, with its flag cleared
    assert_eq!(
        index.indexes,
        vec![
            entry(0, true, 0, 1),
            entry(1, false, 14, 2),
            entry(2, true, 29, 0)
        ]
    );
    // only the flag byte of the needle's header differs
    assert_eq!(volume.len(), before.len());
    for i in 0..volume.len() {
        if i == 14 + 4 {
            assert_eq!((before[i], volume[i]), (1, 0));
        } else {
            assert_eq!(before[i], volume[i]);
        }
    }
    let header = PhysicalFileItem::read_struct_from_file_without_data(&volume, 14).unwrap();
    assert_eq!(
        header,
        Some(NeedleHeader {
            key: 1,
            flag: false,
            size: 2
        })
    );
    let rebuilt = PhysicalFileItem::build_index_file(&volume).unwrap();
    assert_eq!(rebuilt, vec![entry(0, true, 0, 1), entry(2, true, 29, 0)]);
    // the payload is still there, and the needle can still be read
    let needle = PhysicalFileItem::get_from_index(&entry(1, false, 14, 2), &volume)
        .unwrap()
        .unwrap();
    assert_eq!(needle.data, b"bc".to_vec());
    assert!(!needle.flag);
}

#[test]
fn rebuilding_gives_what_adding_built() {
    let mut volume: Vec<u8> = Vec::new();
    let mut index = table(2);
    assert_eq!(PhysicalFileItem::build_index_file(&volume), Ok(Vec::new()));
    for n in 0..20u32 {
        let payload: Vec<u8> = vec![n as u8; (n as usize * 7) % 31];
        let item = index.add_item(&payload, &mut volume).unwrap();
        assert_eq!(item.key, n);
        assert_eq!(item.size, payload.len() as u64);
        assert_eq!(
            PhysicalFileItem::build_index_file(&volume).unwrap(),
            index.indexes
        );
    }
    assert_eq!(PhysicalFileItem::scan(&volume).unwrap(), index.indexes);
}

#[test]
fn scanning_gives_every_needle_where_it_starts() {
    let (mut index, mut volume) = three();
    index.delete_item(0, &mut volume).unwrap();
    assert_eq!(
        PhysicalFileItem::scan(&volume),
        Ok(vec![
            entry(0, false, 0, 1),
            entry(1, true, 14, 2),
            entry(2, true, 29, 0)
        ])
    );
    assert_eq!(PhysicalFileItem::scan(&Vec::new()), Ok(Vec::new()));
}

#[test]
fn a_snapshot_loads_the_live_entries() {
    let (mut index, mut volume) = three();
    index.delete_item(1, &mut volume).unwrap();
    let mut file: Vec<u8> = vec![0xEE; 100];
    index.store_into_file(&mut file);
    assert_eq!(file.len(), 3 * 21);
    assert_eq!(&file[21..26], &[1, 0, 0, 0, 0]);
    assert_eq!(
        load_index_file(&file),
        Ok(vec![entry(0, true, 0, 1), entry(2, true, 29, 0)])
    );
    // storing again replaces the file
    index.delete_item(0, &mut volume).unwrap();
    index.store_into_file(&mut file);
    assert_eq!(file.len(), 3 * 21);
    assert_eq!(load_index_file(&file), Ok(vec![entry(2, true, 29, 0)]));
    // a loaded table serves the same objects
    let mut loaded = IndexFile::new(
        load_index_file(&file).unwrap(),
        8,
        String::from("i"),
        String::from("v"),
    );
    assert_eq!(loaded.get_data(2, &volume), Ok(Some(Vec::new())));
    assert_eq!(loaded.get_data(0, &volume), Ok(None));
    assert_eq!(loaded.get_data(1, &volume), Ok(None));
}

#[test]
fn an_empty_table_gives_an_empty_snapshot() {
    let index = table(3);
    let mut file: Vec<u8> = vec![1, 2, 3];
    index.store_into_file(&mut file);
    assert_eq!(file, Vec::<u8>::new());
    assert_eq!(load_index_file(&file), Ok(Vec::new()));
}

#[test]
fn a_snapshot_that_ends_in_an_entry_is_truncated() {
    let (index, _) = three();
    let mut file: Vec<u8> = Vec::new();
    index.store_into_file(&mut file);
    file.pop();
    assert_eq!(load_index_file(&file), Err(StorageError::TruncatedRecord));
    file.truncate(42);
    assert_eq!(
        load_index_file(&file),
        Ok(vec![entry(0, true, 0, 1), entry(1, true, 14, 2)])
    );
    file.truncate(1);
    assert_eq!(load_index_file(&file), Err(StorageError::TruncatedRecord));
}

#[test]
fn saving_entries_is_saving_a_table() {
    let (index, _) = three();
    let mut one: Vec<u8> = Vec::new();
    let mut other: Vec<u8> = vec![5; 7];
    index.store_into_file(&mut one);
    IndexFile::create_index_file_and_save(&mut other, index.indexes.clone());
    assert_eq!(one, other);
}

#[test]
fn a_payload_that_runs_past_the_end_is_corrupt() {
    let (mut index, mut volume) = three();
    // the last needle has no payload; cut into the one before it
    volume.truncate(28);
    assert_eq!(
        index.get_data(1, &volume),
        Err(StorageError::CorruptRecord)
    );
    assert_eq!(index.get_data(0, &volume), Ok(Some(b"a".to_vec())));
    assert_eq!(
        PhysicalFileItem::get_from_index(&entry(1, true, 14, 2), &volume).map(|n| n.is_some()),
        Err(StorageError::CorruptRecord)
    );
    assert_eq!(
        PhysicalFileItem::read_struct_from_file_without_data(&volume, 14),
        Err(StorageError::CorruptRecord)
    );
    assert_eq!(
        PhysicalFileItem::scan(&volume),
        Err(StorageError::CorruptRecord)
    );
    assert_eq!(
        PhysicalFileItem::build_index_file(&volume),
        Err(StorageError::CorruptRecord)
    );
    // nothing is appended to a volume that cannot be scanned
    let before = volume.clone();
    assert_eq!(
        index.add_item(&b"x".to_vec(), &mut volume),
        Err(StorageError::CorruptRecord)
    );
    assert_eq!(volume, before);
    assert_eq!(index.indexes.len(), 3);
    // a header that claims far too much
    let mut huge: Vec<u8> = struct_into_slice(&NeedleHeader {
        key: 0,
        flag: true,
        size: u64::MAX,
    });
    huge.push(1);
    assert_eq!(
        PhysicalFileItem::get_from_index(&entry(0, true, 0, 1), &huge).map(|n| n.is_some()),
        Err(StorageError::CorruptRecord)
    );
}

#[test]
fn a_header_that_the_volume_ends_in_is_truncated() {
    let (mut index, mut volume) = three();
    volume.truncate(35);
    assert_eq!(
        index.get_data(2, &volume),
        Err(StorageError::TruncatedRecord)
    );
    assert_eq!(
        PhysicalFileItem::scan(&volume),
        Err(StorageError::TruncatedRecord)
    );
    assert_eq!(
        index.delete_item(2, &mut volume),
        Err(StorageError::TruncatedRecord)
    );
    // the entry kept its flag
    assert!(index.indexes[2].flag);
    assert_eq!(volume.len(), 35);
}

#[test]
fn an_entry_behind_the_end_has_no_data() {
    let (mut index, mut volume) = three();
    volume.truncate(29);
    assert_eq!(index.get_data(2, &volume), Ok(None));
    assert_eq!(
        PhysicalFileItem::get_from_index(&entry(9, true, 1000, 1), &volume).map(|n| n.is_some()),
        Ok(false)
    );
    assert_eq!(
        PhysicalFileItem::read_struct_from_file_without_data(&volume, 29),
        Ok(None)
    );
    // there is no header to write to: the delete fails and is taken back
    assert_eq!(
        index.delete_item(2, &mut volume),
        Err(StorageError::NotFound)
    );
    assert!(index.indexes[2].flag);
    assert_eq!(index.get_data(2, &volume), Ok(None));
    assert_eq!(
        PhysicalFileItem::sync(&entry(2, false, 29, 0), &mut volume),
        Err(StorageError::NotFound)
    );
}

#[test]
fn syncing_writes_key_and_flag_only() {
    let (_, mut volume) = three();
    let before = volume.clone();
    assert_eq!(
        PhysicalFileItem::sync(&entry(0x0A0B_0C0D, false, 14, 999), &mut volume),
        Ok(())
    );
    assert_eq!(&volume[..14], &before[..14]);
    assert_eq!(&volume[14..19], &[0x0D, 0x0C, 0x0B, 0x0A, 0]);
    assert_eq!(&volume[19..], &before[19..]);
    assert_eq!(entry(1, true, 14, 2).sync(&mut volume), Ok(()));
    assert_eq!(volume, before);
}

#[test]
fn the_first_live_entry_answers() {
    let mut index = IndexFile::new(
        vec![
            entry(5, false, 0, 1),
            entry(5, true, 14, 2),
            entry(5, true, 29, 0),
            entry(6, true, 29, 0),
        ],
        8,
        String::from("i"),
        String::from("v"),
    );
    let (found, item) = index._exists(5);
    assert!(found);
    assert_eq!(item, Some(&entry(5, true, 14, 2)));
    assert_eq!(index._exists(6), (true, Some(&entry(6, true, 29, 0))));
    assert_eq!(index._exists(7), (false, None));
    assert_eq!(index.get_mut(7), None);
    let item = index.get_mut(5).unwrap();
    assert_eq!(*item, entry(5, true, 14, 2));
    item.flag = false;
    assert_eq!(index._exists(5), (true, Some(&entry(5, true, 29, 0))));
    assert!(entry(1, true, 0, 0).file_exists());
    assert!(!entry(1, false, 0, 0).file_exists());
}

#[test]
fn the_capacity_only_warns() {
    let mut volume: Vec<u8> = Vec::new();
    let mut index = table(2);
    assert_eq!(index.max, 2);
    assert_eq!(index.index_filename, "heystack.index");
    assert_eq!(index.physical_filename, "heystack.volume");
    index.add_item(&b"a".to_vec(), &mut volume).unwrap();
    assert!(!index.is_over_capacity());
    index.add_item(&b"b".to_vec(), &mut volume).unwrap();
    assert!(!index.is_over_capacity());
    let third = index.add_item(&b"c".to_vec(), &mut volume).unwrap();
    assert!(index.is_over_capacity());
    assert_eq!(third.key, 2);
    assert_eq!(index.indexes.len(), 3);
    assert_eq!(index.get_data(0, &volume), Ok(Some(b"a".to_vec())));
    assert_eq!(index.get_data(2, &volume), Ok(Some(b"c".to_vec())));
}
