//! The host interface: everything the machine asks its embedder to do.
//!
//! The machine itself never touches the outside world. `Emit` hands each
//! rendered value to [`HostIo::emit`], and the file built-ins hand plain
//! paths, handles and data to the host and take plain results back; all
//! argument checking, mode parsing and error mapping stays in the verified
//! machine. Nothing is assumed about what a host returns: the machine's
//! contracts hold for every answer.

use vstd::prelude::*;

use vstd::string::StringExecFns;

verus! {

/// The mode a file handle was opened with.
pub enum FileMode {
    /// `"r"`: read text.
    Read,
    /// `"rb"`: read bytes.
    ReadBin,
    /// `"w"`: write text, truncating.
    Write,
    /// `"wb"`: write bytes, truncating.
    WriteBin,
    /// `"a"`: append text.
    Append,
    /// `"ab"`: append bytes.
    AppendBin,
}

/// What a read from a file handle produced.
pub enum HostFileData {
    /// The whole file as text (handles opened in a text mode).
    Text(String),
    /// The whole file as bytes (handles opened in a binary mode).
    Bytes(Vec<u8>),
}

/// Why a file-handle operation failed.
pub enum HostFileErr {
    /// No open file under this handle.
    BadHandle,
    /// Text operation on a binary handle or the other way round.
    WrongKind,
    /// The operating system refused; the message says why.
    Io(String),
}

/// The services a host embeds the machine with. Implementations live
/// outside the machine; nothing is assumed of a host's answers. The one
/// observable output operation is `emit`: it appends the delivered line to
/// the host's abstract output log, and no other operation touches the log,
/// so the machine's contracts can speak of everything a run emits.
pub trait HostIo {
    /// The lines delivered so far, oldest first: the host's observable
    /// output. (The default stands in for hosts outside the library, which
    /// nothing verified observes; a host the proofs speak about, such as
    /// [`BufferHost`], gives its own.)
    open spec fn log(&self) -> Seq<Seq<char>> {
        Seq::empty()
    }

    /// Deliver one emitted value.
    fn emit(&mut self, line: String)
        ensures
            final(self).log() == old(self).log().push(line@),
    ;

    /// Read a whole file as text; `Err` carries the system's message.
    fn read_file(&mut self, path: &String) -> (r: Result<String, String>)
        ensures
            final(self).log() == old(self).log(),
    ;

    /// Does a file exist at this path?
    fn file_exists(&mut self, path: &String) -> (r: bool)
        ensures
            final(self).log() == old(self).log(),
    ;

    /// Open a file, returning a fresh handle.
    fn file_open(&mut self, path: &String, mode: FileMode) -> (r: Result<i64, String>)
        ensures
            final(self).log() == old(self).log(),
    ;

    /// Read the whole file behind a handle.
    fn file_read(&mut self, handle: i64) -> (r: Result<HostFileData, HostFileErr>)
        ensures
            final(self).log() == old(self).log(),
    ;

    /// Write text through a text handle.
    fn file_write_text(&mut self, handle: i64, data: &String) -> (r: Result<(), HostFileErr>)
        ensures
            final(self).log() == old(self).log(),
    ;

    /// Write bytes through a binary handle.
    fn file_write_bytes(&mut self, handle: i64, data: &Vec<u8>) -> (r: Result<(), HostFileErr>)
        ensures
            final(self).log() == old(self).log(),
    ;

    /// Close a handle; false when the handle was not open.
    fn file_close(&mut self, handle: i64) -> (r: bool)
        ensures
            final(self).log() == old(self).log(),
    ;
}

/// A host with no file system that collects emitted lines; the host the
/// tests run the machine with.
pub struct BufferHost {
    pub lines: Vec<String>,
}

impl BufferHost {
    /// A fresh host with no output yet.
    pub fn new() -> (r: BufferHost)
        ensures
            r.lines@.len() == 0,
            r.log() == Seq::<Seq<char>>::empty(),
    {
        let r = BufferHost { lines: Vec::new() };
        proof {
            assert(r.log() =~= Seq::<Seq<char>>::empty());
        }
        r
    }
}

impl HostIo for BufferHost {
    /// The views of the collected lines.
    open spec fn log(&self) -> Seq<Seq<char>> {
        self.lines@.map_values(|s: String| s@)
    }

    fn emit(&mut self, line: String) {
        self.lines.push(line);
        proof {
            assert(self.log() =~= old(self).log().push(line@));
        }
    }

    fn read_file(&mut self, _path: &String) -> (r: Result<String, String>) {
        Err(String::from_str("no file system"))
    }

    fn file_exists(&mut self, _path: &String) -> (r: bool) {
        false
    }

    fn file_open(&mut self, _path: &String, _mode: FileMode) -> (r: Result<i64, String>) {
        Err(String::from_str("no file system"))
    }

    fn file_read(&mut self, _handle: i64) -> (r: Result<HostFileData, HostFileErr>) {
        Err(HostFileErr::BadHandle)
    }

    fn file_write_text(&mut self, _handle: i64, _data: &String) -> (r: Result<(), HostFileErr>) {
        Err(HostFileErr::BadHandle)
    }

    fn file_write_bytes(&mut self, _handle: i64, _data: &Vec<u8>) -> (r: Result<(), HostFileErr>) {
        Err(HostFileErr::BadHandle)
    }

    fn file_close(&mut self, _handle: i64) -> (r: bool) {
        false
    }
}

} // verus!
