use std::rc::Rc;

use vstd::prelude::*;

use crate::error::Error;
use crate::file::{path_view, window, DirEntry, File, FileSystem, FileType};

verus! {

/// A window of `len` bytes from `start` on over a shared parent file.
pub struct PartitionFile<F: File> {
    start: u64,
    len: u64,
    current: u64,
    file: Rc<F>,
}

impl<F: File> PartitionFile<F> {
    #[verifier::type_invariant]
    spec fn fits(self) -> bool {
        self.start + self.len <= (*self.file).content().len()
    }

    /// The window `start..start + len` of `file`.
    pub fn new(file: Rc<F>, start: u64, len: u64) -> (r: Result<PartitionFile<F>, Error>)
        ensures
            start + len <= (*file).content().len() ==> (r matches Ok(w) && w.content()
                == (*file).content().subrange(start as int, start + len) && w.pos() == 0),
            start + len > (*file).content().len() ==> r == Err::<PartitionFile<F>, Error>(
                Error::Corrupt,
            ),
    {
        let total = (*file).len();
        if start > total || len > total - start {
            return Err(Error::Corrupt);
        }
        Ok(PartitionFile { start, len, current: 0, file })
    }
}

impl<F: File> File for PartitionFile<F> {
    closed spec fn content(&self) -> Seq<u8> {
        (*self.file).content().subrange(self.start as int, self.start + self.len)
    }

    closed spec fn pos(&self) -> int {
        self.current as int
    }

    fn len(&self) -> (r: u64) {
        proof {
            use_type_invariant(self);
        }
        self.len
    }

    fn position(&self) -> (r: u64) {
        self.current
    }

    fn set_position(&mut self, p: u64) {
        proof {
            use_type_invariant(&*self);
        }
        self.current = p;
    }

    fn read_at(&self, at: u64, n: usize) -> (r: Result<Vec<u8>, Error>) {
        proof {
            use_type_invariant(self);
        }
        if at >= self.len {
            return Ok(Vec::new());
        }
        let room = self.len - at;
        let m: usize = if (n as u64) <= room {
            n
        } else {
            room as usize
        };
        let total = (*self.file).len();
        assert(self.start + at <= total);
        let v = (*self.file).read_at(self.start + at, m)?;
        proof {
            let c = (*self.file).content();
            let w = c.subrange(self.start as int, self.start + self.len);
            assert(window(c, self.start + at, m as int) =~= window(w, at as int, n as int));
        }
        Ok(v)
    }
}

/// The degenerate filesystem over a window: every path opens the window.
pub struct PartitionFileSystem<F: File> {
    file: Rc<F>,
    start: u64,
    len: u64,
}

/// The one entry a window's filesystem lists; it names the window itself.
pub struct PartitionDirEntry {}

impl DirEntry for PartitionDirEntry {
    open spec fn entry_path(&self) -> Seq<Seq<char>> {
        Seq::empty()
    }

    open spec fn entry_kind(&self) -> FileType {
        FileType::File
    }

    fn path(&self) -> (r: Result<Vec<String>, Error>) {
        let v: Vec<String> = Vec::new();
        assert(path_view(v@) =~= Seq::<Seq<char>>::empty());
        assert(self.entry_path() == Seq::<Seq<char>>::empty());
        assert(path_view(v@) == self.entry_path());
        Ok(v)
    }

    fn file_type(&self) -> (r: Result<FileType, Error>) {
        Ok(FileType::File)
    }
}

impl<F: File> PartitionFileSystem<F> {
    /// Makes a filesystem whose one file is `file`'s bytes `start..start + len`.
    pub fn from_file(file: F, start: u64, len: u64) -> (r: Result<Self, Error>)
        ensures
            start + len <= file.content().len() ==> (r matches Ok(fs) && fs.wf() && fs.window()
                == file.content().subrange(start as int, start + len)),
            start + len > file.content().len() ==> r == Err::<Self, Error>(Error::Corrupt),
    {
        let total = file.len();
        if start > total || len > total - start {
            return Err(Error::Corrupt);
        }
        Ok(PartitionFileSystem { file: Rc::new(file), start, len })
    }

    /// The bytes of the window.
    pub closed spec fn window(&self) -> Seq<u8> {
        (*self.file).content().subrange(self.start as int, self.start + self.len)
    }

    pub closed spec fn wf(&self) -> bool {
        self.start + self.len <= (*self.file).content().len()
    }

    /// A handle on the window, its cursor at the start.
    pub fn get_file(&self) -> (r: Result<PartitionFile<F>, Error>)
        ensures
            self.wf() ==> (r matches Ok(f) && f.content() == self.window() && f.pos() == 0),
    {
        PartitionFile::new(self.file.clone(), self.start, self.len)
    }
}

impl<F: File> FileSystem for PartitionFileSystem<F> {
    type File = PartitionFile<F>;

    type DirEntry = PartitionDirEntry;

    fn is_file(&mut self, path: &Vec<String>) -> bool {
        true
    }

    fn is_dir(&mut self, path: &Vec<String>) -> bool {
        false
    }

    fn open_file(&mut self, path: &Vec<String>) -> Result<Self::File, Error> {
        PartitionFile::new(self.file.clone(), self.start, self.len)
    }

    fn read_dir(&mut self, path: &Vec<String>) -> Result<Vec<Self::DirEntry>, Error> {
        Ok(Vec::new())
    }
}

} // verus!
