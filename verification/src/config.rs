//! The settings of a service instance, and what it does with its pid file
//! and its index file when it starts.
use crate::diskio::read_write::{
    append_struct_to_file,
    modify_struct_in_file,
    overwritten,
    read_struct_from_file,
    read_struct_spec,
};
use crate::diskio::struct_slice::Record;
use crate::error::StorageError;
use crate::storage::index::{snapshot_bytes, IndexFile};
use crate::storage::needle::{rebuild_spec, PhysicalFileItem};
use vstd::prelude::*;
use vstd::string::StringExecFns;

verus! {

/// The settings of a service instance.
#[derive(Debug)]
pub struct Config {
    /// The pid of this process.
    pub cpid: u32,
    /// The pid of the process that runs the service; 0 while none does.
    pub tpid: u32,
    /// Where the pid of the service is kept.
    pub pid_file: String,
    /// The port for `reload` and `stop`.
    pub config_port: u32,
    /// The port on which objects are served.
    pub service_port: u32,
    /// The path of the volume log.
    pub volume_name: String,
    /// The path of the index file.
    pub index_name: String,
    /// The memory, in bytes, that the index may take before the service
    /// warns.
    pub max_index_in_mem: u64,
}

/// The pid file after the pid `pid` was written at its start.
pub open spec fn pid_written(f: Seq<u8>, pid: u32) -> Seq<u8> {
    if f.len() >= 4 {
        overwritten(f, 0, pid.encoding())
    } else {
        pid.encoding()
    }
}

impl Config {
    /// The settings of a fresh instance in the process `cpid`: no service is
    /// known to run, and files, ports and memory have their usual values.
    pub fn new(cpid: u32) -> (config: Config)
        ensures
            config.cpid == cpid,
            config.tpid == 0,
            config.pid_file@ == "heystack.pid"@,
            config.config_port == 10001,
            config.service_port == 10002,
            config.volume_name@ == "heystack.volume"@,
            config.index_name@ == "heystack.index"@,
            config.max_index_in_mem == 1024 * 1024 * 1024,
    {
        Config {
            cpid,
            tpid: 0,
            pid_file: String::from_str("heystack.pid"),
            config_port: 10001,
            service_port: 10002,
            volume_name: String::from_str("heystack.volume"),
            index_name: String::from_str("heystack.index"),
            max_index_in_mem: 1024 * 1024 * 1024,
        }
    }

    /// The pid that the pid file `f` holds: the record at its start, or `None`
    /// where the file is empty.
    pub fn get_pid_from_file(f: &Vec<u8>) -> (r: Result<Option<u32>, StorageError>)
        ensures
            r == read_struct_spec::<u32>(f@, 0),
    {
        read_struct_from_file::<u32>(f, 0)
    }

    /// Takes note of what was found out about the pid file: `recorded` is the
    /// pid that it held, if any, and `running` says whether a service runs
    /// under that pid.
    ///
    /// A pid under which a service runs becomes `tpid`; in every other case
    /// `tpid` is 0. The result says whether the pid file is stale, that is,
    /// holds the pid of a service that is gone, and has to be removed.
    pub fn settle_pid(&mut self, recorded: Option<u32>, running: bool) -> (stale: bool)
        ensures
            final(self).tpid == (match recorded {
                Some(pid) if running => pid,
                _ => 0,
            }),
            stale == (recorded is Some && !running),
            final(self).cpid == old(self).cpid,
            final(self).pid_file == old(self).pid_file,
            final(self).config_port == old(self).config_port,
            final(self).service_port == old(self).service_port,
            final(self).volume_name == old(self).volume_name,
            final(self).index_name == old(self).index_name,
            final(self).max_index_in_mem == old(self).max_index_in_mem,
    {
        match recorded {
            Some(pid) => {
                if running {
                    self.tpid = pid;
                    false
                } else {
                    self.tpid = 0;
                    true
                }
            },
            None => {
                self.tpid = 0;
                false
            },
        }
    }

    /// Whether a service is known to run.
    pub fn is_started(&self) -> (started: bool)
        ensures
            started == (self.tpid != 0),
    {
        self.tpid != 0
    }

    /// Makes this process the service: `tpid` becomes `cpid`, and the pid is
    /// written at the start of the pid file `f`.
    pub fn as_main_service(&mut self, f: &mut Vec<u8>)
        ensures
            final(self).tpid == old(self).cpid,
            final(f)@ == pid_written(old(f)@, old(self).cpid),
            final(self).cpid == old(self).cpid,
            final(self).pid_file == old(self).pid_file,
            final(self).config_port == old(self).config_port,
            final(self).service_port == old(self).service_port,
            final(self).volume_name == old(self).volume_name,
            final(self).index_name == old(self).index_name,
            final(self).max_index_in_mem == old(self).max_index_in_mem,
    {
        self.tpid = self.cpid;
        if modify_struct_in_file(&self.tpid, f, 0).is_err() {
            f.clear();
            append_struct_to_file(&self.tpid, f);
            assert(f@ =~= self.tpid.encoding());
        }
    }

    /// Rebuilds the index file from the volume log: `index` is dropped, the
    /// volume is scanned, and the entries of its live needles are written.
    ///
    /// Where the volume cannot be scanned, `index` is left as it was.
    pub fn reload_index_file(&mut self, volume: &Vec<u8>, index: &mut Vec<u8>) -> (r: Result<
        (),
        StorageError,
    >)
        ensures
            *final(self) == *old(self),
            match rebuild_spec(volume@) {
                Ok(items) => r is Ok && final(index)@ == snapshot_bytes(items),
                Err(e) => r is Err && r->Err_0 == e && final(index)@ == old(index)@,
            },
    {
        match PhysicalFileItem::build_index_file(volume) {
            Err(e) => Err(e),
            Ok(items) => {
                IndexFile::create_index_file_and_save(index, items);
                Ok(())
            },
        }
    }

    /// The number of index entries that fit in `max_index_in_mem` bytes, each
    /// counted with the 21 bytes of its encoding: the capacity to build the
    /// table with.
    pub fn max_index_count(&self) -> (count: usize)
        ensures
            count == if self.max_index_in_mem / 21 <= usize::MAX {
                (self.max_index_in_mem / 21) as int
            } else {
                usize::MAX as int
            },
    {
        let count: u64 = self.max_index_in_mem / 21;
        if count <= usize::MAX as u64 {
            count as usize
        } else {
            usize::MAX
        }
    }
}

} // verus!
