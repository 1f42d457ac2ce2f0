use vstd::prelude::*;

use crate::error::Error;
use crate::text::{ascii_lower_chars, ascii_lowercase};

verus! {

/// What a directory entry names.
#[derive(Debug, Clone, Copy, PartialEq, Eq, Structural)]
pub enum FileType {
    Directory,
    File,
}

/// Where a seek is measured from.
#[derive(Debug, Clone, Copy, PartialEq, Eq, Structural)]
pub enum SeekFrom {
    Start(u64),
    End(i64),
    Current(i64),
}

/// Where a bounded seek from `cur` in a file of `len` bytes lands, if it stays
/// inside the file.
pub open spec fn seek_target(pos: SeekFrom, cur: int, len: int) -> Option<int> {
    let t = match pos {
        SeekFrom::Start(o) => o as int,
        SeekFrom::End(d) => len + d,
        SeekFrom::Current(d) => cur + d,
    };
    if 0 <= t <= len { Some(t) } else { None }
}

/// `n` bytes starting at `at`, cut short at the end of `s`.
pub open spec fn window(s: Seq<u8>, at: int, n: int) -> Seq<u8> {
    if at >= s.len() {
        Seq::empty()
    } else if at + n <= s.len() {
        s.subrange(at, at + n)
    } else {
        s.subrange(at, s.len() as int)
    }
}

/// The little-endian value of two bytes.
pub open spec fn le_u16(lo: u8, hi: u8) -> u16 {
    (lo as int + 256 * (hi as int)) as u16
}

/// A random-access byte stream of known length with a cursor.
pub trait File {
    /// The bytes the handle presents; a handle that does not model them
    /// presents none.
    closed spec fn content(&self) -> Seq<u8> {
        Seq::empty()
    }

    /// The cursor.
    closed spec fn pos(&self) -> int {
        0
    }

    fn len(&self) -> (r: u64)
        ensures
            r == self.content().len(),
    ;

    fn position(&self) -> (r: u64)
        ensures
            r == self.pos(),
    ;

    fn set_position(&mut self, p: u64)
        requires
            p <= old(self).content().len(),
        ensures
            final(self).pos() == p,
            final(self).content() == old(self).content(),
    ;

    /// Reads up to `n` bytes at `at`; fewer only where the content ends.
    fn read_at(&self, at: u64, n: usize) -> (r: Result<Vec<u8>, Error>)
        ensures
            r matches Ok(v) ==> v@ == window(self.content(), at as int, n as int),
    ;

    /// Moves the cursor; a target outside `[0, len]` is refused and the
    /// cursor stays.
    fn seek(&mut self, pos: SeekFrom) -> (r: Result<u64, Error>)
        ensures
            final(self).content() == old(self).content(),
            match seek_target(pos, old(self).pos(), old(self).content().len() as int) {
                Some(t) => r == Ok::<u64, Error>(t as u64) && final(self).pos() == t,
                None => r == Err::<u64, Error>(Error::InvalidSeek) && final(self).pos()
                    == old(self).pos(),
            },
    {
        let len = self.len();
        let cur = self.position();
        let target: u64 = match pos {
            SeekFrom::Start(offset) => {
                if offset > len {
                    return Err(Error::InvalidSeek);
                }
                offset
            },
            SeekFrom::End(from_end) => {
                if from_end > 0 {
                    return Err(Error::InvalidSeek);
                }
                let back: u64 = if from_end == i64::MIN {
                    0x8000_0000_0000_0000u64
                } else {
                    (-from_end) as u64
                };
                if back > len {
                    return Err(Error::InvalidSeek);
                }
                len - back
            },
            SeekFrom::Current(delta) => {
                if delta >= 0 {
                    let fwd = delta as u64;
                    if cur > len || fwd > len - cur {
                        return Err(Error::InvalidSeek);
                    }
                    cur + fwd
                } else {
                    let back: u64 = if delta == i64::MIN {
                        0x8000_0000_0000_0000u64
                    } else {
                        (-delta) as u64
                    };
                    if back > cur || cur - back > len {
                        return Err(Error::InvalidSeek);
                    }
                    cur - back
                }
            },
        };
        self.set_position(target);
        Ok(target)
    }

    /// Reads up to `n` bytes at the cursor and advances it past them.
    fn read(&mut self, n: usize) -> (r: Result<Vec<u8>, Error>)
        ensures
            final(self).content() == old(self).content(),
            r matches Ok(v) ==> v@ == window(old(self).content(), old(self).pos(), n as int)
                && final(self).pos() == old(self).pos() + v.len(),
            r is Err ==> final(self).pos() == old(self).pos(),
    {
        let cur = self.position();
        let v = self.read_at(cur, n)?;
        let len = self.len();
        if cur < len {
            self.set_position(cur + v.len() as u64);
        }
        Ok(v)
    }

    /// Reads up to `n` bytes at `at`; the cursor is left where it was.
    fn read_buffer_at(&mut self, n: usize, at: u64) -> (r: Result<Vec<u8>, Error>)
        ensures
            final(self).content() == old(self).content(),
            final(self).pos() == old(self).pos(),
            r matches Ok(v) ==> v@ == window(old(self).content(), at as int, n as int),
    {
        self.read_at(at, n)
    }

    /// Reads exactly `n` bytes at `at`, or fails; the cursor is left where it
    /// was either way.
    fn read_exact_bytes_at(&mut self, n: usize, at: u64) -> (r: Result<Vec<u8>, Error>)
        ensures
            final(self).content() == old(self).content(),
            final(self).pos() == old(self).pos(),
            at + n <= old(self).content().len() ==> (r matches Ok(v) ==> v@ == old(
                self,
            ).content().subrange(at as int, at + n)),
            at + n > old(self).content().len() ==> r == Err::<Vec<u8>, Error>(
                Error::UnexpectedEof,
            ),
    {
        let len = self.len();
        if at > len || n as u64 > len - at {
            return Err(Error::UnexpectedEof);
        }
        self.read_at(at, n)
    }

    /// Reads exactly `n` bytes from the start of the content.
    fn read_bytes(&mut self, n: usize) -> (r: Result<Vec<u8>, Error>)
        ensures
            final(self).content() == old(self).content(),
            final(self).pos() == old(self).pos(),
            n <= old(self).content().len() ==> (r matches Ok(v) ==> v@ == old(
                self,
            ).content().subrange(0, n as int)),
            n > old(self).content().len() ==> r == Err::<Vec<u8>, Error>(Error::UnexpectedEof),
    {
        self.read_exact_bytes_at(n, 0)
    }

    /// Reads a little-endian `u16` at `at`; the cursor is left where it was.
    fn read_le_u16_at(&mut self, at: u64) -> (r: Result<u16, Error>)
        ensures
            final(self).content() == old(self).content(),
            final(self).pos() == old(self).pos(),
            at + 2 <= old(self).content().len() ==> (r matches Ok(v) ==> v == le_u16(
                old(self).content()[at as int],
                old(self).content()[at + 1],
            )),
            at + 2 > old(self).content().len() ==> r == Err::<u16, Error>(Error::UnexpectedEof),
    {
        let b = self.read_exact_bytes_at(2, at)?;
        Ok(b[0] as u16 + 256 * (b[1] as u16))
    }
}

/// The components of a path as text.
pub open spec fn path_view(p: Seq<String>) -> Seq<Seq<char>> {
    p.map_values(|c: String| c@)
}

/// An entry of a directory listing.
pub trait DirEntry {
    /// The components of the entry's path; an entry that does not model
    /// them has none.
    closed spec fn entry_path(&self) -> Seq<Seq<char>> {
        Seq::empty()
    }

    /// What the entry names.
    closed spec fn entry_kind(&self) -> FileType {
        FileType::File
    }

    /// The components of the entry's path, from the filesystem's root.
    fn path(&self) -> (r: Result<Vec<String>, Error>)
        ensures
            r matches Ok(p) ==> path_view(p@) == self.entry_path(),
    ;

    fn file_type(&self) -> (r: Result<FileType, Error>)
        ensures
            r matches Ok(t) ==> t == self.entry_kind(),
    ;

    /// The last component of the path in ASCII lower case, or empty where
    /// there is none.
    fn file_name(&self) -> (r: String)
        ensures
            r@.len() == 0 || (self.entry_path().len() > 0 && r@ == ascii_lower_chars(
                self.entry_path().last(),
            )),
    {
        match self.path() {
            Ok(p) => {
                if p.len() == 0 {
                    String::new()
                } else {
                    proof {
                        assert(path_view(p@).last() == p@.last()@);
                    }
                    ascii_lowercase(p[p.len() - 1].as_str())
                }
            },
            Err(_) => String::new(),
        }
    }
}

/// A read-only tree of files and directories.
pub trait FileSystem {
    type File: File;

    type DirEntry: DirEntry;

    fn is_file(&mut self, path: &Vec<String>) -> bool;

    fn is_dir(&mut self, path: &Vec<String>) -> bool;

    fn open_file(&mut self, path: &Vec<String>) -> Result<Self::File, Error>;

    fn read_dir(&mut self, path: &Vec<String>) -> Result<Vec<Self::DirEntry>, Error>;
}

/// A file whose whole content is held in memory.
pub struct MemFile {
    data: Vec<u8>,
    current: u64,
}

impl MemFile {
    pub fn new(data: Vec<u8>) -> (r: MemFile)
        requires
            data@.len() <= u64::MAX,
        ensures
            r.content() == data@,
            r.pos() == 0,
    {
        MemFile { data, current: 0 }
    }
}

impl File for MemFile {
    closed spec fn content(&self) -> Seq<u8> {
        self.data@
    }

    closed spec fn pos(&self) -> int {
        self.current as int
    }

    fn len(&self) -> (r: u64) {
        self.data.len() as u64
    }

    fn position(&self) -> (r: u64) {
        self.current
    }

    fn set_position(&mut self, p: u64) {
        self.current = p;
    }

    fn read_at(&self, at: u64, n: usize) -> (r: Result<Vec<u8>, Error>) {
        let len = self.data.len();
        let mut out: Vec<u8> = Vec::new();
        if at >= len as u64 {
            return Ok(out);
        }
        let start = at as usize;
        let end: usize = if n <= len - start { start + n } else { len };
        let mut i: usize = start;
        while i < end
            invariant
                start <= i <= end <= len == self.data@.len(),
                out@ == self.data@.subrange(start as int, i as int),
            decreases end - i,
        {
            out.push(self.data[i]);
            i += 1;
        }
        Ok(out)
    }
}

} // verus!
