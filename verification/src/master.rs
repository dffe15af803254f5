//! What the service does when it starts: it loads the index file.
use crate::diskio::read_write::read_struct_from_file;
use crate::error::StorageError;
use crate::storage::index::{load_from, load_spec};
use crate::storage::item::IndexFileItem;
use crate::storage::needle::found_behind;
use vstd::prelude::*;

verus! {

/// Reads the entries of the index file `f`, one fixed-width record after the
/// other, up to the clean end of the file.
///
/// Entries of deleted objects are passed over: the table that is built from
/// the result holds live entries only. Where the file ends inside an entry,
/// the whole load fails with `TruncatedRecord`.
pub fn load_index_file(f: &Vec<u8>) -> (r: Result<Vec<IndexFileItem>, StorageError>)
    ensures
        match load_spec(f@) {
            Ok(items) => r is Ok && r->Ok_0@ == items,
            Err(e) => r is Err && r->Err_0 == e,
        },
{
    let mut items: Vec<IndexFileItem> = Vec::new();
    let mut pos: u64 = 0;
    loop
        invariant
            pos <= f@.len(),
            f@.len() == f.len(),
            load_spec(f@) == found_behind(items@, load_from(f@, pos as int)),
        decreases f@.len() - pos,
    {
        match read_struct_from_file::<IndexFileItem>(f, pos) {
            Err(e) => {
                return Err(e);
            },
            Ok(None) => {
                assert(items@ + Seq::<IndexFileItem>::empty() =~= items@);
                return Ok(items);
            },
            Ok(Some(item)) => {
                proof {
                    if let Ok(rest) = load_from(f@, pos + 21) {
                        assert(items@ + (seq![item] + rest) =~= items@.push(item) + rest);
                    }
                }
                if item.file_exists() {
                    items.push(item);
                }
                pos = pos + 21;
            },
        }
    }
}

} // verus!
