use std::num::NonZeroUsize;
use std::rc::Rc;

use vstd::prelude::*;

use crate::error::{Error, PathError};
use crate::file::{path_view, DirEntry, File, FileSystem, FileType};
use crate::text::{le16_at, le32_at, le64_at, read_le16, read_le32, read_le64};

verus! {

/// A decompressed metadata block and where the next one starts.
pub struct SquashFsBlockEntry {
    pub data: Vec<u8>,
    pub next: u64,
}

#[verifier::external_type_specification]
#[verifier::external_body]
#[verifier::reject_recursive_types(K)]
#[verifier::reject_recursive_types(V)]
#[verifier::reject_recursive_types(S)]
pub struct ExLruCache<K, V, S>(lru::LruCache<K, V, S>);

#[verifier::external_type_specification]
#[verifier::external_body]
pub struct ExDefaultHasher(lru::DefaultHasher);

/// The cache of decompressed metadata blocks, keyed by their offset.
pub type BlockLru = lru::LruCache<u64, SquashFsBlockEntry>;

/// The blocks a cache holds, by offset: their bytes and the next offset.
pub uninterp spec fn cached_blocks(c: BlockLru) -> Map<u64, (Seq<u8>, u64)>;

/// The bound the cache was made with.
pub uninterp spec fn cache_capacity(c: BlockLru) -> nat;

/// Relies on LruCache::new: an empty cache of that capacity.
#[verifier::external_body]
fn new_block_cache(cap: usize) -> (r: BlockLru)
    requires
        cap > 0,
    ensures
        cached_blocks(r).dom() == Set::<u64>::empty(),
        cache_capacity(r) == cap,
{
    lru::LruCache::new(NonZeroUsize::new(cap).unwrap())
}

/// Relies on LruCache::contains: whether the key is held.
#[verifier::external_body]
fn cache_contains(c: &BlockLru, k: u64) -> (r: bool)
    ensures
        r == cached_blocks(*c).contains_key(k),
{
    c.contains(&k)
}

/// Relies on LruCache::push: the key now holds the value; at most the least
/// recently used other entry left, the others stay as they were.
#[verifier::external_body]
fn cache_push(c: &mut BlockLru, k: u64, v: SquashFsBlockEntry)
    ensures
        cached_blocks(*final(c)).contains_key(k),
        cached_blocks(*final(c))[k] == (v.data@, v.next),
        forall|j: u64|
            #[trigger] cached_blocks(*final(c)).contains_key(j) && j != k ==> cached_blocks(
                *old(c),
            ).contains_key(j) && cached_blocks(*final(c))[j] == cached_blocks(*old(c))[j],
        cache_capacity(*final(c)) == cache_capacity(*old(c)),
{
    c.push(k, v);
}

/// Relies on LruCache::get: the value held under the key, if any; the
/// entries stay as they were.
#[verifier::external_body]
fn cache_get(c: &mut BlockLru, k: u64) -> (r: Option<
    &SquashFsBlockEntry,
>)
    ensures
        cached_blocks(*final(c)) == cached_blocks(*old(c)),
        cache_capacity(*final(c)) == cache_capacity(*old(c)),
        r is Some <==> cached_blocks(*old(c)).contains_key(k),
        r matches Some(e) ==> (e.data@, e.next) == cached_blocks(*old(c))[k],
{
    c.get(&k)
}

/// What zlib decompression makes of some bytes.
pub uninterp spec fn zlib_decoded(b: Seq<u8>) -> Seq<u8>;

/// Relies on flate2's ZlibDecoder: reading it to the end yields the
/// decompressed bytes, which depend on the input alone; corrupt input fails.
#[verifier::external_body]
fn zlib_decompress(b: &[u8]) -> (r: Result<Vec<u8>, Error>)
    ensures
        r matches Ok(v) ==> v@ == zlib_decoded(b@),
{
    let mut out: Vec<u8> = Vec::new();
    match std::io::Read::read_to_end(&mut flate2::read::ZlibDecoder::new(b), &mut out) {
        Ok(_) => Ok(out),
        Err(_) => Err(Error::Corrupt),
    }
}

/// The length of the superblock.
pub const SQUASHFS_HEADER_LEN: usize = 96;

/// The most bytes a metadata block holds.
pub const SQUASHFS_METADATA_LEN: u64 = 8192;

/// The most entries a directory header introduces.
pub const SQUASHFS_DIR_COUNT: u32 = 256;

/// The longest name a directory entry holds.
pub const SQUASHFS_NAME_LEN: u16 = 256;

pub const SQUASHFS_DIR_HEADER_LEN: usize = 12;

pub const SQUASHFS_DIR_ENTRY_LEN: usize = 8;

/// The superblock flag that selects three-byte metadata block headers.
pub const SQUASHFS_FLAG_UNUSED: u16 = 0x0004;

/// The compressors a superblock can name.
#[derive(Debug, Clone, Copy, PartialEq, Eq, Structural)]
pub enum Compressor {
    Gzip,
    Lzo,
    Lzma,
    Xz,
    Lz4,
    Zstd,
}

/// The compressor that a superblock id names: 1 gzip, 2 lzma, 3 lzo, 4 xz,
/// 5 lz4, 6 zstd.
pub fn decode_compressor(value: u16) -> (r: Result<Compressor, Error>)
    ensures
        r is Ok <==> 1 <= value <= 6,
        value == 1 ==> r == Ok::<Compressor, Error>(Compressor::Gzip),
        value == 2 ==> r == Ok::<Compressor, Error>(Compressor::Lzma),
        value == 3 ==> r == Ok::<Compressor, Error>(Compressor::Lzo),
        value == 4 ==> r == Ok::<Compressor, Error>(Compressor::Xz),
        value == 5 ==> r == Ok::<Compressor, Error>(Compressor::Lz4),
        value == 6 ==> r == Ok::<Compressor, Error>(Compressor::Zstd),
        r is Err ==> r == Err::<Compressor, Error>(Error::Unsupported),
{
    match value {
        1 => Ok(Compressor::Gzip),
        2 => Ok(Compressor::Lzma),
        3 => Ok(Compressor::Lzo),
        4 => Ok(Compressor::Xz),
        5 => Ok(Compressor::Lz4),
        6 => Ok(Compressor::Zstd),
        _ => Err(Error::Unsupported),
    }
}

/// The superblock fields that reading needs.
#[derive(Debug, Clone, Copy, PartialEq, Eq, Structural)]
pub struct SquashFsHeader {
    pub flags: u16,
    pub compressor: u16,
    pub block_size: u32,
    pub inode_table: u64,
    pub dir_table: u64,
    pub frag_table: u64,
}

impl SquashFsHeader {
    /// Decodes the superblock fields from its 96 bytes.
    pub fn from_raw(b: &[u8]) -> (r: SquashFsHeader)
        requires
            b@.len() >= SQUASHFS_HEADER_LEN,
        ensures
            r.block_size == le32_at(b@, 12),
            r.compressor == le16_at(b@, 20),
            r.flags == le16_at(b@, 24),
            r.inode_table == le64_at(b@, 64),
            r.dir_table == le64_at(b@, 72),
            r.frag_table == le64_at(b@, 80),
    {
        SquashFsHeader {
            flags: read_le16(b, 24),
            compressor: read_le16(b, 20),
            block_size: read_le32(b, 12),
            inode_table: read_le64(b, 64),
            dir_table: read_le64(b, 72),
            frag_table: read_le64(b, 80),
        }
    }
}

/// Bit 15 of a block header clear means the block is compressed.
pub open spec fn block_is_compressed(h: u16) -> bool {
    h & 0x8000 == 0
}

/// The low fifteen bits of a block header: the bytes on disk.
pub open spec fn block_size_of(h: u16) -> u16 {
    h & 0x7FFF
}

/// Whether a block is compressed, and its size on disk.
pub fn decode_block_header(header: u16) -> (r: (bool, u16))
    ensures
        r.0 == block_is_compressed(header),
        r.1 == block_size_of(header),
{
    (header & 0x8000 == 0, header & 0x7FFF)
}

/// A metadata block header, as its size and compression.
pub struct SquashFsMetadataHeader {
    pub data_size: u16,
    pub compressed: bool,
}

pub fn decode_metadata_header(header: u16) -> (r: SquashFsMetadataHeader)
    ensures
        r.data_size == block_size_of(header),
        r.compressed == block_is_compressed(header),
{
    SquashFsMetadataHeader { data_size: header & 0x7FFF, compressed: header & 0x8000 == 0 }
}

/// How many bytes precede a block's payload.
pub open spec fn block_header_len(flags: u16) -> int {
    if flags & SQUASHFS_FLAG_UNUSED != 0 {
        3
    } else {
        2
    }
}

/// The header of the block at `start`.
pub open spec fn block_header_at(img: Seq<u8>, start: int) -> u16 {
    (img[start] + 256 * img[start + 1]) as u16
}

/// The block at `start` lies within the image.
pub open spec fn block_valid(img: Seq<u8>, start: int, hl: int) -> bool {
    0 <= start && start + hl <= img.len() && hl >= 2 && start + hl + block_size_of(
        block_header_at(img, start),
    ) <= img.len()
}

/// Where the block after the one at `start` begins.
pub open spec fn block_next(img: Seq<u8>, start: int, hl: int) -> int {
    start + hl + block_size_of(block_header_at(img, start))
}

/// The logical bytes of the block at `start`.
pub open spec fn block_data(img: Seq<u8>, start: int, hl: int) -> Seq<u8> {
    let raw = img.subrange(start + hl, block_next(img, start, hl));
    if block_is_compressed(block_header_at(img, start)) {
        zlib_decoded(raw)
    } else {
        raw
    }
}

/// Reading `length` logical bytes from `offset` in the block at `block`,
/// on through the blocks that follow: the bytes and where reading stops.
pub open spec fn metadata_read(img: Seq<u8>, hl: int, block: int, offset: int, length: int) -> Option<
    (Seq<u8>, int, int),
>
    decreases length, img.len() - block,
{
    if length < 0 || !block_valid(img, block, hl) {
        None
    } else {
        let data = block_data(img, block, hl);
        let next = block_next(img, block, hl);
        if offset < 0 || offset > data.len() {
            None
        } else if data.len() - offset < length {
            match metadata_read(img, hl, next, 0, length - (data.len() - offset)) {
                Some(rest) => Some(
                    (data.subrange(offset, data.len() as int) + rest.0, rest.1, rest.2),
                ),
                None => None,
            }
        } else if data.len() - offset == length {
            Some((data.subrange(offset, data.len() as int), next, 0))
        } else {
            Some((data.subrange(offset, offset + length), block, offset + length))
        }
    }
}

/// Reading `b` more bytes from where a read stopped.
pub open spec fn read_on(img: Seq<u8>, hl: int, first: (Seq<u8>, int, int), b: int) -> Option<
    (Seq<u8>, int, int),
> {
    metadata_read(img, hl, first.1, first.2, b)
}

/// The bytes of two reads, and where the second stopped.
pub open spec fn joined_reads(first: (Seq<u8>, int, int), second: (Seq<u8>, int, int)) -> Option<
    (Seq<u8>, int, int),
> {
    Some((first.0 + second.0, second.1, second.2))
}

/// Reading `a` bytes and then `b` more from where the first read stopped
/// gives what reading `a + b` bytes at once gives.
pub proof fn lemma_metadata_read_spans(
    img: Seq<u8>,
    hl: int,
    block: int,
    offset: int,
    a: int,
    b: int,
)
    requires
        a >= 0,
        b > 0,
        metadata_read(img, hl, block, offset, a) is Some,
        read_on(img, hl, metadata_read(img, hl, block, offset, a)->0, b) is Some,
    ensures
        metadata_read(img, hl, block, offset, a + b) == joined_reads(
            metadata_read(img, hl, block, offset, a)->0,
            read_on(img, hl, metadata_read(img, hl, block, offset, a)->0, b)->0,
        ),
    decreases a, img.len() - block,
{
    let data = block_data(img, block, hl);
    let next = block_next(img, block, hl);
    let first = metadata_read(img, hl, block, offset, a)->0;
    let second = read_on(img, hl, first, b)->0;
    if data.len() - offset < a {
        let copy = data.len() - offset;
        lemma_metadata_read_spans(img, hl, next, 0, a - copy, b);
        let rest = metadata_read(img, hl, next, 0, a - copy)->0;
        assert(a + b - copy == (a - copy) + b);
        assert(data.subrange(offset, data.len() as int) + (rest.0 + second.0) =~= (data.subrange(
            offset,
            data.len() as int,
        ) + rest.0) + second.0);
    } else if data.len() - offset == a {
        assert(data.subrange(offset, data.len() as int) + second.0 =~= first.0 + second.0);
    } else {
        let pos = offset + a;
        if data.len() - offset < a + b {
            let rest = metadata_read(img, hl, next, 0, b - (data.len() - pos))->0;
            assert(a + b - (data.len() - offset) == b - (data.len() - pos));
            assert(data.subrange(offset, data.len() as int) + rest.0 =~= data.subrange(offset, pos)
                + (data.subrange(pos, data.len() as int) + rest.0));
        } else if data.len() - offset == a + b {
            assert(data.subrange(offset, data.len() as int) =~= data.subrange(offset, pos)
                + data.subrange(pos, data.len() as int));
        } else {
            assert(data.subrange(offset, offset + a + b) =~= data.subrange(offset, pos)
                + data.subrange(pos, pos + b));
        }
    }
}

/// A read gives as many bytes as it was asked for.
pub proof fn lemma_metadata_read_len(img: Seq<u8>, hl: int, block: int, offset: int, length: int)
    ensures
        metadata_read(img, hl, block, offset, length) matches Some(x) ==> x.0.len() == length,
    decreases length, img.len() - block,
{
    if length >= 0 && block_valid(img, block, hl) {
        let data = block_data(img, block, hl);
        let next = block_next(img, block, hl);
        if 0 <= offset <= data.len() && data.len() - offset < length {
            lemma_metadata_read_len(img, hl, next, 0, length - (data.len() - offset));
        }
    }
}

/// Bytes read from the metadata stream and where reading stopped.
pub struct SquashFsMetadataEntry {
    pub data: Vec<u8>,
    pub block: u64,
    pub offset: usize,
}

/// What the filesystem handles share: the superblock, the image and the
/// block cache.
pub struct SquashFsFileSystemInternal<F: File> {
    header: SquashFsHeader,
    file: Rc<F>,
    blocks_cache: BlockLru,
}

impl<F: File> SquashFsFileSystemInternal<F> {
    pub closed spec fn image(&self) -> Seq<u8> {
        (*self.file).content()
    }

    pub closed spec fn hl(&self) -> int {
        block_header_len(self.header.flags)
    }

    pub closed spec fn inode_table(&self) -> int {
        self.header.inode_table as int
    }

    pub closed spec fn dir_table(&self) -> int {
        self.header.dir_table as int
    }

    /// Every cached block is the block at its offset.
    pub closed spec fn wf(&self) -> bool {
        &&& self.image().len() <= u64::MAX
        &&& forall|k: u64| #[trigger]
            cached_blocks(self.blocks_cache).contains_key(k) ==> block_valid(
                self.image(),
                k as int,
                self.hl(),
            ) && cached_blocks(self.blocks_cache)[k] == (
                block_data(self.image(), k as int, self.hl()),
                block_next(self.image(), k as int, self.hl()) as u64,
            )
    }

    /// Reads and decompresses the metadata block at `start`.
    fn read_block(&self, start: u64) -> (r: Result<SquashFsBlockEntry, Error>)
        requires
            self.image().len() <= u64::MAX,
        ensures
            r matches Ok(e) ==> block_valid(self.image(), start as int, self.hl()) && e.data@
                == block_data(self.image(), start as int, self.hl()) && e.next == block_next(
                self.image(),
                start as int,
                self.hl(),
            ),
            r matches Ok(e) ==> e.data@.len() <= SQUASHFS_METADATA_LEN && block_size_of(
                block_header_at(self.image(), start as int),
            ) <= SQUASHFS_METADATA_LEN,
            start + 2 <= self.image().len() && block_size_of(
                block_header_at(self.image(), start as int),
            ) > SQUASHFS_METADATA_LEN ==> r is Err,
    {
        let hl: u64 = if self.header.flags & SQUASHFS_FLAG_UNUSED != 0 {
            3
        } else {
            2
        };
        let total = (*self.file).len();
        if start > total || hl > total - start {
            return Err(Error::UnexpectedEof);
        }
        let hb = (*self.file).read_at(start, 2)?;
        if hb.len() != 2 {
            return Err(Error::UnexpectedEof);
        }
        let header = hb[0] as u16 + 256 * (hb[1] as u16);
        assert(hl == block_header_len(self.header.flags));
        assert(header == block_header_at(self.image(), start as int));
        let (compressed, size) = decode_block_header(header);
        if size as u64 > SQUASHFS_METADATA_LEN {
            return Err(Error::Corrupt);
        }
        if size as u64 > total - start - hl {
            return Err(Error::UnexpectedEof);
        }
        let next = start + hl + size as u64;
        let buf = (*self.file).read_at(start + hl, size as usize)?;
        if buf.len() != size as usize {
            return Err(Error::UnexpectedEof);
        }
        assert(buf@ =~= self.image().subrange(start + hl, next as int));
        let data = if compressed {
            zlib_decompress(&buf)?
        } else {
            buf
        };
        if data.len() as u64 > SQUASHFS_METADATA_LEN {
            return Err(Error::Corrupt);
        }
        Ok(SquashFsBlockEntry { data, next })
    }

    /// The metadata block at `start`, from the cache or read into it.
    fn get_metadata(&mut self, start: u64) -> (r: Result<&SquashFsBlockEntry, Error>)
        requires
            old(self).wf(),
        ensures
            final(self).wf(),
            final(self).image() == old(self).image(),
            final(self).hl() == old(self).hl(),
            final(self).inode_table() == old(self).inode_table(),
            final(self).dir_table() == old(self).dir_table(),
            final(self).header_of() == old(self).header_of(),
            r matches Ok(e) ==> block_valid(old(self).image(), start as int, old(self).hl())
                && e.data@ == block_data(old(self).image(), start as int, old(self).hl())
                && e.next == block_next(old(self).image(), start as int, old(self).hl()),
    {
        if !cache_contains(&self.blocks_cache, start) {
            let entry = self.read_block(start)?;
            cache_push(&mut self.blocks_cache, start, entry);
        }
        match cache_get(&mut self.blocks_cache, start) {
            Some(e) => Ok(e),
            None => Err(Error::Corrupt),
        }
    }

    /// Reads `length` logical bytes from `offset` in the block at `block`,
    /// on through the blocks that follow.
    pub fn read_metadata(&mut self, block: u64, offset: usize, length: usize) -> (r: Result<
        SquashFsMetadataEntry,
        Error,
    >)
        requires
            old(self).wf(),
        ensures
            final(self).wf(),
            final(self).image() == old(self).image(),
            final(self).hl() == old(self).hl(),
            final(self).inode_table() == old(self).inode_table(),
            final(self).dir_table() == old(self).dir_table(),
            final(self).header_of() == old(self).header_of(),
            r matches Ok(m) ==> metadata_read(
                old(self).image(),
                old(self).hl(),
                block as int,
                offset as int,
                length as int,
            ) == Some((m.data@, m.block as int, m.offset as int)),
            r matches Ok(m) ==> m.data@.len() == length,
    {
        proof {
            lemma_metadata_read_len(self.image(), self.hl(), block as int, offset as int, length as int);
        }
        let ghost img = self.image();
        let ghost hl = self.hl();
        let ghost whole = metadata_read(img, hl, block as int, offset as int, length as int);
        let mut data: Vec<u8> = Vec::new();
        let mut blk = block;
        let mut off = offset;
        let mut len = length;
        loop
            invariant
                self.wf(),
                self.image() == img,
                self.hl() == hl,
                img == old(self).image(),
                self.header_of() == old(self).header_of(),
                whole == metadata_read(img, hl, block as int, offset as int, length as int),
                hl == old(self).hl(),
                self.inode_table() == old(self).inode_table(),
                self.dir_table() == old(self).dir_table(),
                img.len() <= u64::MAX,
                whole == match metadata_read(img, hl, blk as int, off as int, len as int) {
                    Some(rest) => Some((data@ + rest.0, rest.1, rest.2)),
                    None => None,
                },
            decreases len, img.len() - blk,
        {
            let entry = self.get_metadata(blk)?;
            let n = entry.data.len();
            if off > n {
                return Err(Error::Corrupt);
            }
            let ghost before = data@;
            if n - off < len {
                let copy = n - off;
                let mut i = off;
                while i < n
                    invariant
                        off <= i <= n == entry.data@.len(),
                        data@ == before + entry.data@.subrange(off as int, i as int),
                    decreases n - i,
                {
                    data.push(entry.data[i]);
                    i += 1;
                }
                proof {
                    let rest = metadata_read(img, hl, entry.next as int, 0, len - copy);
                    match rest {
                        Some(x) => {
                            assert(before + (entry.data@.subrange(off as int, n as int) + x.0)
                                =~= data@ + x.0);
                        },
                        None => {},
                    }
                }
                len = len - copy;
                blk = entry.next;
                off = 0;
            } else if n - off == len {
                let mut i = off;
                while i < n
                    invariant
                        off <= i <= n == entry.data@.len(),
                        data@ == before + entry.data@.subrange(off as int, i as int),
                    decreases n - i,
                {
                    data.push(entry.data[i]);
                    i += 1;
                }
                assert(metadata_read(img, hl, blk as int, off as int, len as int) == Some(
                    (entry.data@.subrange(off as int, n as int), entry.next as int, 0int),
                ));
                proof {
                    lemma_metadata_read_len(img, hl, block as int, offset as int, length as int);
                }
                return Ok(SquashFsMetadataEntry { data, block: entry.next, offset: 0 });
            } else {
                let end = off + len;
                let mut i = off;
                while i < end
                    invariant
                        off <= i <= end < n == entry.data@.len(),
                        data@ == before + entry.data@.subrange(off as int, i as int),
                    decreases end - i,
                {
                    data.push(entry.data[i]);
                    i += 1;
                }
                assert(metadata_read(img, hl, blk as int, off as int, len as int) == Some(
                    (entry.data@.subrange(off as int, end as int), blk as int, end as int),
                ));
                proof {
                    lemma_metadata_read_len(img, hl, block as int, offset as int, length as int);
                }
                return Ok(SquashFsMetadataEntry { data, block: blk, offset: end });
            }
        }
    }
}

/// The kinds of inode, numbered 1 to 14 on disk.
#[derive(Debug, Clone, Copy, PartialEq, Eq, Structural)]
pub enum InodeTypeRaw {
    BasicDir,
    BasicFile,
    BasicSymlink,
    BasicBlockDevice,
    BasicCharDevice,
    BasicNamedPipe,
    BasicSocket,
    ExtendedDir,
    ExtendedFile,
    ExtendedSymlink,
    ExtendedBlockDevice,
    ExtendedCharDevice,
    ExtendedNamedPipe,
    ExtendedSocket,
}

/// The kind of inode that a number stands for.
pub open spec fn inode_type_of(v: u16) -> Option<InodeTypeRaw> {
    match v {
        1 => Some(InodeTypeRaw::BasicDir),
        2 => Some(InodeTypeRaw::BasicFile),
        3 => Some(InodeTypeRaw::BasicSymlink),
        4 => Some(InodeTypeRaw::BasicBlockDevice),
        5 => Some(InodeTypeRaw::BasicCharDevice),
        6 => Some(InodeTypeRaw::BasicNamedPipe),
        7 => Some(InodeTypeRaw::BasicSocket),
        8 => Some(InodeTypeRaw::ExtendedDir),
        9 => Some(InodeTypeRaw::ExtendedFile),
        10 => Some(InodeTypeRaw::ExtendedSymlink),
        11 => Some(InodeTypeRaw::ExtendedBlockDevice),
        12 => Some(InodeTypeRaw::ExtendedCharDevice),
        13 => Some(InodeTypeRaw::ExtendedNamedPipe),
        14 => Some(InodeTypeRaw::ExtendedSocket),
        _ => None,
    }
}

pub fn decode_inode_type(value: u16) -> (r: Result<InodeTypeRaw, Error>)
    ensures
        match inode_type_of(value) {
            Some(t) => r == Ok::<InodeTypeRaw, Error>(t),
            None => r == Err::<InodeTypeRaw, Error>(Error::Unsupported),
        },
{
    match value {
        1 => Ok(InodeTypeRaw::BasicDir),
        2 => Ok(InodeTypeRaw::BasicFile),
        3 => Ok(InodeTypeRaw::BasicSymlink),
        4 => Ok(InodeTypeRaw::BasicBlockDevice),
        5 => Ok(InodeTypeRaw::BasicCharDevice),
        6 => Ok(InodeTypeRaw::BasicNamedPipe),
        7 => Ok(InodeTypeRaw::BasicSocket),
        8 => Ok(InodeTypeRaw::ExtendedDir),
        9 => Ok(InodeTypeRaw::ExtendedFile),
        10 => Ok(InodeTypeRaw::ExtendedSymlink),
        11 => Ok(InodeTypeRaw::ExtendedBlockDevice),
        12 => Ok(InodeTypeRaw::ExtendedCharDevice),
        13 => Ok(InodeTypeRaw::ExtendedNamedPipe),
        14 => Ok(InodeTypeRaw::ExtendedSocket),
        _ => Err(Error::Unsupported),
    }
}

/// The 16-byte header that every inode starts with.
pub struct SquashFsCommonInodeHeader {
    pub inode_type: InodeTypeRaw,
    pub inode_number: u32,
}

impl SquashFsCommonInodeHeader {
    pub fn from_raw(b: &[u8]) -> (r: Result<Self, Error>)
        requires
            b@.len() >= 16,
        ensures
            r is Ok <==> inode_type_of(le16_at(b@, 0) as u16) is Some,
            r matches Ok(h) ==> Some(h.inode_type) == inode_type_of(le16_at(b@, 0) as u16)
                && h.inode_number == le32_at(b@, 12),
    {
        let inode_type = decode_inode_type(read_le16(b, 0))?;
        Ok(SquashFsCommonInodeHeader { inode_type, inode_number: read_le32(b, 12) })
    }
}

/// The rest of a basic directory inode.
#[derive(Debug, Clone, Copy, PartialEq, Eq, Structural)]
pub struct SquashFsDirInodeHeader {
    pub block_index: u32,
    pub file_size: u16,
    pub block_offset: u16,
    pub parent_inode: u32,
}

impl SquashFsDirInodeHeader {
    pub fn from_raw(b: &[u8]) -> (r: Self)
        requires
            b@.len() >= 16,
        ensures
            r.block_index == le32_at(b@, 0),
            r.file_size == le16_at(b@, 8),
            r.block_offset == le16_at(b@, 10),
            r.parent_inode == le32_at(b@, 12),
    {
        SquashFsDirInodeHeader {
            block_index: read_le32(b, 0),
            file_size: read_le16(b, 8),
            block_offset: read_le16(b, 10),
            parent_inode: read_le32(b, 12),
        }
    }
}

/// The rest of an extended directory inode.
#[derive(Debug, Clone, Copy, PartialEq, Eq, Structural)]
pub struct SquashFsExtDirInodeHeader {
    pub link_count: u32,
    pub file_size: u32,
    pub block_index: u32,
    pub parent_inode: u32,
    pub index_count: u16,
    pub block_offset: u16,
}

impl SquashFsExtDirInodeHeader {
    pub fn from_raw(b: &[u8]) -> (r: Self)
        requires
            b@.len() >= 24,
        ensures
            r.link_count == le32_at(b@, 0),
            r.file_size == le32_at(b@, 4),
            r.block_index == le32_at(b@, 8),
            r.parent_inode == le32_at(b@, 12),
            r.index_count == le16_at(b@, 16),
            r.block_offset == le16_at(b@, 18),
    {
        SquashFsExtDirInodeHeader {
            link_count: read_le32(b, 0),
            file_size: read_le32(b, 4),
            block_index: read_le32(b, 8),
            parent_inode: read_le32(b, 12),
            index_count: read_le16(b, 16),
            block_offset: read_le16(b, 18),
        }
    }
}

/// The rest of a basic file inode.
#[derive(Debug, Clone, Copy, PartialEq, Eq, Structural)]
pub struct SquashFsFileInodeHeader {
    pub blocks_start: u32,
    pub frag_index: u32,
    pub block_offset: u32,
    pub file_size: u32,
}

impl SquashFsFileInodeHeader {
    pub fn from_raw(b: &[u8]) -> (r: Self)
        requires
            b@.len() >= 16,
        ensures
            r.blocks_start == le32_at(b@, 0),
            r.frag_index == le32_at(b@, 4),
            r.block_offset == le32_at(b@, 8),
            r.file_size == le32_at(b@, 12),
    {
        SquashFsFileInodeHeader {
            blocks_start: read_le32(b, 0),
            frag_index: read_le32(b, 4),
            block_offset: read_le32(b, 8),
            file_size: read_le32(b, 12),
        }
    }
}

/// The rest of an extended file inode.
#[derive(Debug, Clone, Copy, PartialEq, Eq, Structural)]
pub struct SquashFsExtFileInodeHeader {
    pub blocks_start: u64,
    pub file_size: u64,
    pub link_count: u32,
    pub frag_index: u32,
    pub block_offset: u32,
}

impl SquashFsExtFileInodeHeader {
    pub fn from_raw(b: &[u8]) -> (r: Self)
        requires
            b@.len() >= 40,
        ensures
            r.blocks_start == le64_at(b@, 0),
            r.file_size == le64_at(b@, 8),
            r.link_count == le32_at(b@, 24),
            r.frag_index == le32_at(b@, 28),
            r.block_offset == le32_at(b@, 32),
    {
        SquashFsExtFileInodeHeader {
            blocks_start: read_le64(b, 0),
            file_size: read_le64(b, 8),
            link_count: read_le32(b, 24),
            frag_index: read_le32(b, 28),
            block_offset: read_le32(b, 32),
        }
    }
}

/// An inode's type-specific part; the kinds that are only named carry none.
#[derive(Debug, Clone, Copy, PartialEq, Eq, Structural)]
pub enum InodeType {
    BasicDir(SquashFsDirInodeHeader),
    BasicFile(SquashFsFileInodeHeader),
    ExtendedDir(SquashFsExtDirInodeHeader),
    ExtendedFile(SquashFsExtFileInodeHeader),
    Other(InodeTypeRaw),
}

/// An inode: its number and its type-specific part.
#[derive(Debug, Clone, Copy, PartialEq, Eq, Structural)]
pub struct Inode {
    pub inode_number: u32,
    pub data: InodeType,
}

impl Inode {
    /// The size of a directory's listing or of a file.
    pub fn file_size(&self) -> (r: Result<u64, Error>)
        ensures
            match self.data {
                InodeType::BasicDir(d) => r == Ok::<u64, Error>(d.file_size as u64),
                InodeType::BasicFile(f) => r == Ok::<u64, Error>(f.file_size as u64),
                InodeType::ExtendedDir(d) => r == Ok::<u64, Error>(d.file_size as u64),
                InodeType::ExtendedFile(f) => r == Ok::<u64, Error>(f.file_size),
                InodeType::Other(_) => r == Err::<u64, Error>(Error::Unsupported),
            },
    {
        match &self.data {
            InodeType::BasicDir(d) => Ok(d.file_size as u64),
            InodeType::BasicFile(f) => Ok(f.file_size as u64),
            InodeType::ExtendedDir(d) => Ok(d.file_size as u64),
            InodeType::ExtendedFile(f) => Ok(f.file_size),
            InodeType::Other(_) => Err(Error::Unsupported),
        }
    }

    /// Where a directory's listing, or a file's data, starts.
    pub fn block_index(&self) -> (r: Result<u64, Error>)
        ensures
            match self.data {
                InodeType::BasicDir(d) => r == Ok::<u64, Error>(d.block_index as u64),
                InodeType::BasicFile(f) => r == Ok::<u64, Error>(f.blocks_start as u64),
                InodeType::ExtendedDir(d) => r == Ok::<u64, Error>(d.block_index as u64),
                InodeType::ExtendedFile(f) => r == Ok::<u64, Error>(f.blocks_start),
                InodeType::Other(_) => r == Err::<u64, Error>(Error::Unsupported),
            },
    {
        match &self.data {
            InodeType::BasicDir(d) => Ok(d.block_index as u64),
            InodeType::BasicFile(f) => Ok(f.blocks_start as u64),
            InodeType::ExtendedDir(d) => Ok(d.block_index as u64),
            InodeType::ExtendedFile(f) => Ok(f.blocks_start),
            InodeType::Other(_) => Err(Error::Unsupported),
        }
    }

    /// The offset within the first block.
    pub fn block_offset(&self) -> (r: Result<usize, Error>)
        ensures
            match self.data {
                InodeType::BasicDir(d) => r == Ok::<usize, Error>(d.block_offset as usize),
                InodeType::BasicFile(f) => r == Ok::<usize, Error>(f.block_offset as usize),
                InodeType::ExtendedDir(d) => r == Ok::<usize, Error>(d.block_offset as usize),
                InodeType::ExtendedFile(f) => r == Ok::<usize, Error>(f.block_offset as usize),
                InodeType::Other(_) => r == Err::<usize, Error>(Error::Unsupported),
            },
    {
        match &self.data {
            InodeType::BasicDir(d) => Ok(d.block_offset as usize),
            InodeType::BasicFile(f) => Ok(f.block_offset as usize),
            InodeType::ExtendedDir(d) => Ok(d.block_offset as usize),
            InodeType::ExtendedFile(f) => Ok(f.block_offset as usize),
            InodeType::Other(_) => Err(Error::Unsupported),
        }
    }
}

/// The metadata block of an inode reference: its high 48 bits.
pub fn to_inode_blk(v: u64) -> (r: u64)
    ensures
        r == v / 0x1_0000,
{
    assert(v >> 16u64 == v / 0x1_0000) by (bit_vector);
    v >> 16
}

/// The offset of an inode reference within its block: its low 16 bits.
pub fn to_inode_offset(v: u64) -> (r: u64)
    ensures
        r == v % 0x1_0000,
{
    assert(v & 0xffffu64 == v % 0x1_0000) by (bit_vector);
    v & 0xffff
}

/// The 12-byte header of a group of directory entries.
pub struct SquashFsDirHeader {
    pub count: u32,
    pub start: u32,
    pub inode_number: u32,
}

impl SquashFsDirHeader {
    pub fn from_raw(b: &[u8]) -> (r: Self)
        requires
            b@.len() >= 12,
        ensures
            r.count == le32_at(b@, 0),
            r.start == le32_at(b@, 4),
            r.inode_number == le32_at(b@, 8),
    {
        SquashFsDirHeader { count: read_le32(b, 0), start: read_le32(b, 4), inode_number: read_le32(b, 8) }
    }
}

/// A directory entry: where its inode is, its kind, number and name.
pub struct SquashFsSimpleDirEntry {
    pub block_index: u64,
    pub offset: u16,
    pub inode_type: InodeTypeRaw,
    pub inode_number: u32,
    pub name: String,
}

/// The signed value of two bytes read as a 16-bit two's complement number.
pub open spec fn signed16(v: int) -> int {
    if v >= 0x8000 {
        v - 0x1_0000
    } else {
        v
    }
}

impl SquashFsSimpleDirEntry {
    /// Decodes the 8-byte fixed part of an entry and its name; the inode
    /// number is the header's less the entry's signed delta.
    pub fn from_raw(header: &SquashFsDirHeader, entry: &[u8], raw_name: &[u8]) -> (r: Result<
        Self,
        Error,
    >)
        requires
            entry@.len() >= 8,
        ensures
            r is Ok <==> inode_type_of(le16_at(entry@, 4) as u16) is Some,
            r matches Ok(e) ==> e.block_index == header.start && e.offset == le16_at(entry@, 0)
                && Some(e.inode_type) == inode_type_of(le16_at(entry@, 4) as u16)
                && e.inode_number == (header.inode_number - signed16(le16_at(entry@, 2)))
                % 0x1_0000_0000 && e.name@ == crate::text::utf8_lossy(raw_name@),
    {
        let offset = read_le16(entry, 0);
        let delta = read_le16(entry, 2);
        let inode_type = decode_inode_type(read_le16(entry, 4))?;
        let d: i64 = if delta >= 0x8000 {
            delta as i64 - 0x1_0000
        } else {
            delta as i64
        };
        let n = header.inode_number as i64 - d;
        let inode_number: u32 = if n < 0 {
            (n + 0x1_0000_0000) as u32
        } else if n >= 0x1_0000_0000 {
            (n - 0x1_0000_0000) as u32
        } else {
            n as u32
        };
        Ok(
            SquashFsSimpleDirEntry {
                block_index: header.start as u64,
                offset,
                inode_type,
                inode_number,
                name: crate::text::lossy_string(raw_name),
            },
        )
    }

    pub fn is_file(&self) -> (r: bool)
        ensures
            r == (self.inode_type == InodeTypeRaw::BasicFile || self.inode_type
                == InodeTypeRaw::ExtendedFile),
    {
        match self.inode_type {
            InodeTypeRaw::BasicFile | InodeTypeRaw::ExtendedFile => true,
            _ => false,
        }
    }

    pub fn is_dir(&self) -> (r: bool)
        ensures
            r == (self.inode_type == InodeTypeRaw::BasicDir || self.inode_type
                == InodeTypeRaw::ExtendedDir),
    {
        match self.inode_type {
            InodeTypeRaw::BasicDir | InodeTypeRaw::ExtendedDir => true,
            _ => false,
        }
    }
}

/// The entries of a directory.
pub struct SquashFsDir {
    pub entries: Vec<SquashFsSimpleDirEntry>,
}

/// The common header of the inode at `offset` in the block `start_block`
/// of the inode table.
pub open spec fn inode_header_bytes(img: Seq<u8>, hl: int, itab: int, start_block: int, offset: int) -> Option<
    (Seq<u8>, int, int),
> {
    metadata_read(img, hl, itab + start_block, offset, 16)
}

/// `d` holds the basic directory inode tail `b`.
pub open spec fn dir_inode_from(d: SquashFsDirInodeHeader, b: Seq<u8>) -> bool {
    d.block_index == le32_at(b, 0) && d.file_size == le16_at(b, 8) && d.block_offset == le16_at(b, 10)
        && d.parent_inode == le32_at(b, 12)
}

/// `d` holds the extended directory inode tail `b`.
pub open spec fn ext_dir_inode_from(d: SquashFsExtDirInodeHeader, b: Seq<u8>) -> bool {
    d.link_count == le32_at(b, 0) && d.file_size == le32_at(b, 4) && d.block_index == le32_at(b, 8)
        && d.parent_inode == le32_at(b, 12) && d.index_count == le16_at(b, 16) && d.block_offset
        == le16_at(b, 18)
}

/// `f` holds the basic file inode tail `b`.
pub open spec fn file_inode_from(f: SquashFsFileInodeHeader, b: Seq<u8>) -> bool {
    f.blocks_start == le32_at(b, 0) && f.frag_index == le32_at(b, 4) && f.block_offset == le32_at(b, 8)
        && f.file_size == le32_at(b, 12)
}

/// `f` holds the extended file inode tail `b`.
pub open spec fn ext_file_inode_from(f: SquashFsExtFileInodeHeader, b: Seq<u8>) -> bool {
    f.blocks_start == le64_at(b, 0) && f.file_size == le64_at(b, 8) && f.link_count == le32_at(b, 24)
        && f.frag_index == le32_at(b, 28) && f.block_offset == le32_at(b, 32)
}

/// The tail of `len` bytes read right after the common header `h`.
pub open spec fn inode_tail(img: Seq<u8>, hl: int, h: (Seq<u8>, int, int), len: int) -> Option<
    (Seq<u8>, int, int),
> {
    metadata_read(img, hl, h.1, h.2, len)
}

/// `data` is what the common header `h` calls for: a directory or file tail
/// of 16, 24, 16 or 40 bytes read right after it for types 1, 8, 2 and 9,
/// and only the kind for the other types.
pub open spec fn inode_decoded(data: InodeType, img: Seq<u8>, hl: int, h: (Seq<u8>, int, int)) -> bool {
    match inode_type_of(le16_at(h.0, 0) as u16) {
        Some(InodeTypeRaw::BasicDir) => data matches InodeType::BasicDir(d) && inode_tail(img, hl, h, 16) matches Some(t)
            && dir_inode_from(d, t.0),
        Some(InodeTypeRaw::ExtendedDir) => data matches InodeType::ExtendedDir(d) && inode_tail(img, hl, h, 24) matches Some(t)
            && ext_dir_inode_from(d, t.0),
        Some(InodeTypeRaw::BasicFile) => data matches InodeType::BasicFile(f) && inode_tail(img, hl, h, 16) matches Some(t)
            && file_inode_from(f, t.0),
        Some(InodeTypeRaw::ExtendedFile) => data matches InodeType::ExtendedFile(f) && inode_tail(img, hl, h, 40) matches Some(t)
            && ext_file_inode_from(f, t.0),
        Some(other) => data == InodeType::Other(other),
        None => false,
    }
}

impl<F: File> SquashFsFileSystemInternal<F> {
    /// Reads the inode at `offset` in block `start_block` of the inode table:
    /// its common header, then the part its type calls for.
    fn read_inode(&mut self, start_block: u64, offset: u64) -> (r: Result<Inode, Error>)
        requires
            old(self).wf(),
        ensures
            final(self).wf(),
            final(self).image() == old(self).image(),
            final(self).hl() == old(self).hl(),
            final(self).inode_table() == old(self).inode_table(),
            final(self).dir_table() == old(self).dir_table(),
            final(self).header_of() == old(self).header_of(),
            r matches Ok(i) ==> (inode_header_bytes(
                old(self).image(),
                old(self).hl(),
                old(self).inode_table(),
                start_block as int,
                offset as int,
            ) matches Some(h) && i.inode_number == le32_at(h.0, 12) && inode_decoded(
                i.data,
                old(self).image(),
                old(self).hl(),
                h,
            )),
            start_block > u64::MAX - old(self).inode_table() || offset > 0xFFFF ==> r
                == Err::<Inode, Error>(Error::Corrupt),
    {
        if start_block > u64::MAX - self.header.inode_table || offset > 0xFFFF {
            return Err(Error::Corrupt);
        }
        let start = self.header.inode_table + start_block;
        let entry = self.read_metadata(start, offset as usize, 16)?;
        let header = SquashFsCommonInodeHeader::from_raw(&entry.data)?;
        let data = match header.inode_type {
            InodeTypeRaw::BasicDir => {
                let e = self.read_metadata(entry.block, entry.offset, 16)?;
                InodeType::BasicDir(SquashFsDirInodeHeader::from_raw(&e.data))
            },
            InodeTypeRaw::ExtendedDir => {
                let e = self.read_metadata(entry.block, entry.offset, 24)?;
                InodeType::ExtendedDir(SquashFsExtDirInodeHeader::from_raw(&e.data))
            },
            InodeTypeRaw::BasicFile => {
                let e = self.read_metadata(entry.block, entry.offset, 16)?;
                InodeType::BasicFile(SquashFsFileInodeHeader::from_raw(&e.data))
            },
            InodeTypeRaw::ExtendedFile => {
                let e = self.read_metadata(entry.block, entry.offset, 40)?;
                InodeType::ExtendedFile(SquashFsExtFileInodeHeader::from_raw(&e.data))
            },
            other => InodeType::Other(other),
        };
        Ok(Inode { inode_number: header.inode_number, data })
    }

    /// Lists the directory whose inode is at `offset` in block `start` of the
    /// inode table: groups of a 12-byte header and `count + 1` entries, each
    /// 8 bytes and a name of `name_size + 1` bytes, until `file_size - 3`
    /// bytes are read.
    fn open_dir(&mut self, start: u64, offset: u64) -> (r: Result<SquashFsDir, Error>)
        requires
            old(self).wf(),
        ensures
            final(self).wf(),
            final(self).image() == old(self).image(),
            final(self).hl() == old(self).hl(),
            final(self).inode_table() == old(self).inode_table(),
            final(self).dir_table() == old(self).dir_table(),
            final(self).header_of() == old(self).header_of(),
            r matches Ok(d) ==> exists|i: Inode|
                #[trigger] inode_at(
                    old(self).image(),
                    old(self).hl(),
                    old(self).inode_table(),
                    start as int,
                    offset as int,
                    i,
                ) && dir_listing(old(self).image(), old(self).hl(), old(self).dir_table(), i) == Some(
                    dir_entries_view(d.entries@),
                ),
    {
        let ghost img = self.image();
        let ghost hl = self.hl();
        let inode = self.read_inode(start, offset)?;
        let ghost itab = self.inode_table();
        assert(inode_at(img, hl, itab, start as int, offset as int, inode));
        match inode.data {
            InodeType::BasicDir(_) | InodeType::ExtendedDir(_) => {},
            _ => {
                return Err(Error::Corrupt);
            },
        }
        let size = inode.file_size()?;
        if size < 3 {
            return Err(Error::Corrupt);
        }
        let len = size - 3;
        let index = inode.block_index()?;
        if index > u64::MAX - self.header.dir_table {
            return Err(Error::Corrupt);
        }
        let mut block = self.header.dir_table + index;
        let mut off = inode.block_offset()?;
        let ghost whole = dir_groups(img, hl, block as int, off as int, 0, len as int);
        proof {
            assert(dir_listing(img, hl, self.dir_table(), inode) == whole);
        }
        let mut entries: Vec<SquashFsSimpleDirEntry> = Vec::new();
        let mut bytes: u64 = 0;
        while bytes < len
            invariant
                self.wf(),
                self.image() == img,
                self.hl() == hl,
                img == old(self).image(),
                hl == old(self).hl(),
                self.inode_table() == old(self).inode_table(),
                self.dir_table() == old(self).dir_table(),
                self.header_of() == old(self).header_of(),
                len <= u32::MAX,
                bytes <= len + 12 + 256 * 265,
                whole == (match dir_groups(img, hl, block as int, off as int, bytes as int, len as int) {
                    None => None,
                    Some(rest) => Some(dir_entries_view(entries@) + rest),
                }),
            decreases len + 12 + 256 * 265 - bytes,
        {
            let h = self.read_metadata(block, off, SQUASHFS_DIR_HEADER_LEN)?;
            let ghost gb = bytes as int;
            let ghost hv = (h.data@, h.block as int, h.offset as int);
            let ghost e0 = dir_entries_view(entries@);
            block = h.block;
            off = h.offset;
            let dir_header = SquashFsDirHeader::from_raw(&h.data);
            if dir_header.count >= SQUASHFS_DIR_COUNT {
                return Err(Error::Corrupt);
            }
            let mut dir_count = dir_header.count + 1;
            let ghost g0 = group_entries(img, hl, hv.1, hv.2, hv.0, dir_count as nat);
            let ghost mut gdone: Seq<DirEntryView> = Seq::empty();
            let ghost mut gused: int = 0;
            bytes = bytes + SQUASHFS_DIR_HEADER_LEN as u64;
            let ghost b0 = bytes;
            while dir_count > 0
                invariant
                    bytes >= b0,
                    bytes == b0 + gused,
                    gused >= 0,
                    len <= u32::MAX,
                    self.wf(),
                    self.image() == img,
                    self.hl() == hl,
                    img == old(self).image(),
                    hl == old(self).hl(),
                    self.inode_table() == old(self).inode_table(),
                    self.dir_table() == old(self).dir_table(),
                    self.header_of() == old(self).header_of(),
                    dir_count <= 256,
                    bytes <= len + 12 + 265 * (256 - dir_count),
                    h.data@ == hv.0,
                    dir_header.start == le32_at(hv.0, 4),
                    dir_header.inode_number == le32_at(hv.0, 8),
                    dir_entries_view(entries@) == e0 + gdone,
                    g0 == (match group_entries(img, hl, block as int, off as int, hv.0, dir_count as nat) {
                        None => None,
                        Some(r) => Some((gdone + r.0, r.1, r.2, gused + r.3)),
                    }),
                decreases dir_count,
            {
                let ghost pb = block as int;
                let ghost po = off as int;
                let ghost pc = dir_count;
                dir_count = dir_count - 1;
                let e = self.read_metadata(block, off, SQUASHFS_DIR_ENTRY_LEN)?;
                block = e.block;
                off = e.offset;
                let name_size = read_le16(&e.data, 6);
                if name_size > SQUASHFS_NAME_LEN {
                    return Err(Error::Corrupt);
                }
                let n = self.read_metadata(block, off, name_size as usize + 1)?;
                block = n.block;
                off = n.offset;
                let entry = SquashFsSimpleDirEntry::from_raw(&dir_header, &e.data, &n.data)?;
                proof {
                    let ev = dir_entry_view(entry);
                    assert(entry_from(hv.0, e.data@, n.data@) == Some(ev));
                    assert(group_entries(img, hl, pb, po, hv.0, pc as nat) == match group_entries(
                        img,
                        hl,
                        block as int,
                        off as int,
                        hv.0,
                        dir_count as nat,
                    ) {
                        None => None,
                        Some(rest) => Some((seq![ev] + rest.0, rest.1, rest.2, 8 + name_size + 1 + rest.3)),
                    });
                    match group_entries(img, hl, block as int, off as int, hv.0, dir_count as nat) {
                        Some(rest) => {
                            assert(gdone + (seq![ev] + rest.0) =~= gdone.push(ev) + rest.0);
                        },
                        None => {},
                    }
                    gdone = gdone.push(ev);
                    gused = gused + 8 + name_size + 1;
                }
                let ghost before = entries@;
                entries.push(entry);
                proof {
                    assert(dir_entries_view(entries@) =~= dir_entries_view(before).push(dir_entry_view(entry)));
                }
                bytes = bytes + SQUASHFS_DIR_ENTRY_LEN as u64 + name_size as u64 + 1;
            }
            proof {
                assert(g0 == Some((gdone, block as int, off as int, gused)));
                assert(e0 + (gdone + match dir_groups(img, hl, block as int, off as int, bytes as int, len as int) {
                    None => Seq::<DirEntryView>::empty(),
                    Some(rest) => rest,
                }) =~= (e0 + gdone) + match dir_groups(img, hl, block as int, off as int, bytes as int, len as int) {
                    None => Seq::<DirEntryView>::empty(),
                    Some(rest) => rest,
                });
            }
        }
        proof {
            assert(dir_entries_view(entries@) + Seq::<DirEntryView>::empty() =~= dir_entries_view(entries@));
            assert(inode_at(img, hl, itab, start as int, offset as int, inode));
        }
        Ok(SquashFsDir { entries })
    }
}

/// A directory entry as plain values: inode block, offset in it, kind,
/// inode number and name.
pub type DirEntryView = (u64, u16, InodeTypeRaw, u32, Seq<char>);

pub open spec fn dir_entry_view(e: SquashFsSimpleDirEntry) -> DirEntryView {
    (e.block_index, e.offset, e.inode_type, e.inode_number, e.name@)
}

pub open spec fn dir_entries_view(es: Seq<SquashFsSimpleDirEntry>) -> Seq<DirEntryView> {
    es.map_values(|e: SquashFsSimpleDirEntry| dir_entry_view(e))
}

/// The entry that the 8-byte part `e` and the name bytes give under the
/// group header `hdr`: its inode number is the header's less its signed delta.
pub open spec fn entry_from(hdr: Seq<u8>, e: Seq<u8>, name: Seq<u8>) -> Option<DirEntryView> {
    match inode_type_of(le16_at(e, 4) as u16) {
        None => None,
        Some(t) => Some(
            (
                le32_at(hdr, 4) as u64,
                le16_at(e, 0) as u16,
                t,
                ((le32_at(hdr, 8) - signed16(le16_at(e, 2))) % 0x1_0000_0000) as u32,
                crate::text::utf8_lossy(name),
            ),
        ),
    }
}

/// Reading `n` entries of a group from the cursor: the entries, where
/// reading stopped and how many bytes it took; names over 256 bytes are
/// refused.
pub open spec fn group_entries(img: Seq<u8>, hl: int, blk: int, off: int, hdr: Seq<u8>, n: nat) -> Option<
    (Seq<DirEntryView>, int, int, int),
>
    decreases n,
{
    if n == 0 {
        Some((Seq::empty(), blk, off, 0))
    } else {
        match metadata_read(img, hl, blk, off, SQUASHFS_DIR_ENTRY_LEN as int) {
            None => None,
            Some(e) => {
                let ns = le16_at(e.0, 6);
                if ns > SQUASHFS_NAME_LEN {
                    None
                } else {
                    match metadata_read(img, hl, e.1, e.2, ns + 1) {
                        None => None,
                        Some(nm) => match entry_from(hdr, e.0, nm.0) {
                            None => None,
                            Some(ev) => match group_entries(img, hl, nm.1, nm.2, hdr, (n - 1) as nat) {
                                None => None,
                                Some(rest) => Some(
                                    (seq![ev] + rest.0, rest.1, rest.2, 8 + ns + 1 + rest.3),
                                ),
                            },
                        },
                    }
                }
            },
        }
    }
}

/// The entries of the groups from the cursor on, `bytes` of `len` read so
/// far: a 12-byte header with `count` (at most 255), then `count + 1` entries.
pub open spec fn dir_groups(img: Seq<u8>, hl: int, blk: int, off: int, bytes: int, len: int) -> Option<
    Seq<DirEntryView>,
>
    decreases len - bytes,
{
    if bytes >= len {
        Some(Seq::empty())
    } else {
        match metadata_read(img, hl, blk, off, SQUASHFS_DIR_HEADER_LEN as int) {
            None => None,
            Some(h) => {
                let count = le32_at(h.0, 0);
                if count >= SQUASHFS_DIR_COUNT {
                    None
                } else {
                    match group_entries(img, hl, h.1, h.2, h.0, (count + 1) as nat) {
                        None => None,
                        Some(g) => {
                            let nb = bytes + SQUASHFS_DIR_HEADER_LEN + g.3;
                            if nb <= bytes {
                                None
                            } else if nb >= len {
                                Some(g.0)
                            } else {
                                match dir_groups(img, hl, g.1, g.2, nb, len) {
                                    None => None,
                                    Some(rest) => Some(g.0 + rest),
                                }
                            }
                        },
                    }
                }
            },
        }
    }
}

/// The directory inode `i`'s listing: groups read from `dir_table` plus its
/// block index and its block offset, `file_size - 3` bytes of them.
pub open spec fn dir_listing(img: Seq<u8>, hl: int, dir_table: int, i: Inode) -> Option<Seq<DirEntryView>> {
    match i.data {
        InodeType::BasicDir(d) => if d.file_size < 3 {
            None
        } else {
            dir_groups(img, hl, dir_table + d.block_index, d.block_offset as int, 0, d.file_size - 3)
        },
        InodeType::ExtendedDir(d) => if d.file_size < 3 {
            None
        } else {
            dir_groups(img, hl, dir_table + d.block_index, d.block_offset as int, 0, d.file_size - 3)
        },
        _ => None,
    }
}

/// `i` is the inode at `offset` in block `start` of the inode table.
pub open spec fn inode_at(img: Seq<u8>, hl: int, itab: int, start: int, offset: int, i: Inode) -> bool {
    inode_header_bytes(img, hl, itab, start, offset) matches Some(h) && i.inode_number == le32_at(h.0, 12)
        && inode_decoded(i.data, img, hl, h)
}

/// The most bytes a data block holds.
pub const SQUASHFS_MAX_BLOCK_SIZE: u32 = 0x10_0000;

/// A data block size word: bit 24 set means stored as is; the low 24 bits
/// are the size on disk, 0 for a block of zeros.
pub open spec fn data_block_stored(w: u32) -> bool {
    w & 0x100_0000 != 0
}

pub open spec fn data_block_size(w: u32) -> u32 {
    w & 0xFF_FFFF
}

impl<F: File> SquashFsFileSystemInternal<F> {
    /// The bytes of a data block or fragment block on disk at `start`,
    /// decompressed where its size word says so.
    fn read_data_block(&self, start: u64, word: u32) -> (r: Result<Vec<u8>, Error>)
        requires
            self.image().len() <= u64::MAX,
        ensures
            r matches Ok(v) ==> (data_block_stored(word) ==> v@ == crate::file::window(
                self.image(),
                start as int,
                data_block_size(word) as int,
            )),
    {
        let size = word & 0xFF_FFFF;
        let total = (*self.file).len();
        if start > total || size as u64 > total - start {
            return Err(Error::UnexpectedEof);
        }
        let raw = (*self.file).read_at(start, size as usize)?;
        if raw.len() != size as usize {
            return Err(Error::UnexpectedEof);
        }
        if word & 0x100_0000 != 0 {
            Ok(raw)
        } else {
            zlib_decompress(&raw)
        }
    }

    /// The tail fragment block `index`, found through the fragment table.
    fn read_fragment(&mut self, index: u32) -> (r: Result<Vec<u8>, Error>)
        requires
            old(self).wf(),
        ensures
            final(self).wf(),
            final(self).image() == old(self).image(),
            final(self).hl() == old(self).hl(),
            final(self).inode_table() == old(self).inode_table(),
            final(self).dir_table() == old(self).dir_table(),
            final(self).header_of() == old(self).header_of(),
    {
        let table_block = (index / 512) as u64;
        let entry_offset = ((index % 512) * 16) as usize;
        if self.header.frag_table > u64::MAX - 8 * table_block {
            return Err(Error::Corrupt);
        }
        let at = self.header.frag_table + 8 * table_block;
        let total = (*self.file).len();
        if at > total || 8 > total - at {
            return Err(Error::UnexpectedEof);
        }
        let ptr_bytes = (*self.file).read_at(at, 8)?;
        if ptr_bytes.len() != 8 {
            return Err(Error::UnexpectedEof);
        }
        let pointer = read_le64(&ptr_bytes, 0);
        let entry = self.read_metadata(pointer, entry_offset, 16)?;
        let start = read_le64(&entry.data, 0);
        let word = read_le32(&entry.data, 8);
        self.read_data_block(start, word)
    }

    /// The whole content of the file whose inode is at `offset` in block
    /// `start` of the inode table: its data blocks in order, then its tail
    /// from a fragment; it is as long as the inode says.
    fn read_file_data(&mut self, start: u64, offset: u64) -> (r: Result<Vec<u8>, Error>)
        requires
            old(self).wf(),
        ensures
            final(self).wf(),
            final(self).image() == old(self).image(),
            final(self).hl() == old(self).hl(),
            final(self).inode_table() == old(self).inode_table(),
            final(self).dir_table() == old(self).dir_table(),
            final(self).header_of() == old(self).header_of(),
    {
        if start > u64::MAX - self.header.inode_table || offset > 0xFFFF {
            return Err(Error::Corrupt);
        }
        let common = self.read_metadata(self.header.inode_table + start, offset as usize, 16)?;
        let header = SquashFsCommonInodeHeader::from_raw(&common.data)?;
        let (blocks_start, file_size, frag_index, frag_offset, cursor) = match header.inode_type {
            InodeTypeRaw::BasicFile => {
                let e = self.read_metadata(common.block, common.offset, 16)?;
                let h = SquashFsFileInodeHeader::from_raw(&e.data);
                (h.blocks_start as u64, h.file_size as u64, h.frag_index, h.block_offset, (e.block, e.offset))
            },
            InodeTypeRaw::ExtendedFile => {
                let e = self.read_metadata(common.block, common.offset, 40)?;
                let h = SquashFsExtFileInodeHeader::from_raw(&e.data);
                (h.blocks_start, h.file_size, h.frag_index, h.block_offset, (e.block, e.offset))
            },
            _ => {
                return Err(Error::NotFilePath(crate::error::NotFilePathError { file: String::new(), path: String::new() }));
            },
        };
        let block_size = self.header.block_size;
        if block_size == 0 || block_size > SQUASHFS_MAX_BLOCK_SIZE || file_size > 0xFFFF_FFFF_FFFF {
            return Err(Error::Corrupt);
        }
        let has_fragment = frag_index != 0xFFFF_FFFF;
        let count: u64 = if has_fragment {
            file_size / block_size as u64
        } else {
            (file_size + block_size as u64 - 1) / block_size as u64
        };
        if count > 0x1000_0000 {
            return Err(Error::Corrupt);
        }
        let sizes = self.read_metadata(cursor.0, cursor.1, (count * 4) as usize)?;
        let mut data: Vec<u8> = Vec::new();
        let mut pos = blocks_start;
        let mut i: usize = 0;
        while i < count as usize
            invariant
                self.wf(),
                self.image() == old(self).image(),
                self.hl() == old(self).hl(),
                self.inode_table() == old(self).inode_table(),
                self.dir_table() == old(self).dir_table(),
                self.header_of() == old(self).header_of(),
                sizes.data@.len() == count * 4,
                count <= 0x1000_0000,
                block_size <= SQUASHFS_MAX_BLOCK_SIZE,
            decreases count - i,
        {
            let word = read_le32(&sizes.data, i * 4);
            if word & 0xFF_FFFF == 0 {
                let mut k: u32 = 0;
                while k < block_size
                    decreases block_size - k,
                {
                    data.push(0);
                    k += 1;
                }
            } else {
                let block = self.read_data_block(pos, word)?;
                let mut k: usize = 0;
                while k < block.len()
                    decreases block.len() - k,
                {
                    data.push(block[k]);
                    k += 1;
                }
                let on_disk = (word & 0xFF_FFFF) as u64;
                if pos > u64::MAX - on_disk {
                    return Err(Error::Corrupt);
                }
                pos = pos + on_disk;
            }
            i += 1;
        }
        if has_fragment {
            let fragment = self.read_fragment(frag_index)?;
            let tail = file_size % block_size as u64;
            let from = frag_offset as usize;
            if from > fragment.len() || tail as usize > fragment.len() - from {
                return Err(Error::Corrupt);
            }
            let to = from + tail as usize;
            let mut k = from;
            while k < to
                invariant
                    to <= fragment@.len(),
                decreases to - k,
            {
                data.push(fragment[k]);
                k += 1;
            }
        }
        if data.len() as u64 > file_size {
            data.truncate(file_size as usize);
        }
        if data.len() as u64 != file_size {
            return Err(Error::Corrupt);
        }
        Ok(data)
    }

    pub closed spec fn header_of(&self) -> SquashFsHeader {
        self.header
    }
}

/// A SquashFS image: its superblock, the shared image and block cache, and
/// its root directory. Opening a file starts from an empty cache.
pub struct SquashFsFileSystem<F: File> {
    fs: SquashFsFileSystemInternal<F>,
    root: SquashFsDir,
}

/// A file of a SquashFS image, its data blocks and tail decoded when it is
/// opened.
pub struct SquashFsFile {
    data: crate::file::MemFile,
}

impl File for SquashFsFile {
    closed spec fn content(&self) -> Seq<u8> {
        self.data.content()
    }

    closed spec fn pos(&self) -> int {
        self.data.pos()
    }

    fn len(&self) -> (r: u64) {
        self.data.len()
    }

    fn position(&self) -> (r: u64) {
        self.data.position()
    }

    fn set_position(&mut self, p: u64) {
        self.data.set_position(p)
    }

    fn read_at(&self, at: u64, n: usize) -> (r: Result<Vec<u8>, Error>) {
        self.data.read_at(at, n)
    }
}

/// An entry of a SquashFS directory listing.
pub struct SquashFsDirEntry {
    path: Vec<String>,
    entry_type: FileType,
    inner: SquashFsSimpleDirEntry,
}

impl DirEntry for SquashFsDirEntry {
    closed spec fn entry_path(&self) -> Seq<Seq<char>> {
        path_view(self.path@)
    }

    closed spec fn entry_kind(&self) -> FileType {
        self.entry_type
    }

    fn path(&self) -> (r: Result<Vec<String>, Error>) {
        let p = crate::isofile::clone_path(&self.path);
        assert(path_view(p@) == self.entry_path());
        Ok(p)
    }

    fn file_type(&self) -> (r: Result<FileType, Error>) {
        Ok(self.entry_type)
    }
}

impl<F: File> SquashFsFileSystem<F> {
    /// Reads the superblock (magic `hsqs`, version 4.0, a non-zero id count
    /// and an id table within the bytes used, gzip compression) and lists the
    /// root directory.
    pub fn from_file(mut file: F) -> (r: Result<Self, Error>)
        ensures
            r is Ok ==> file.content().len() >= SQUASHFS_HEADER_LEN && crate::squash::has_squashfs_magic(file.content())
                && le16_at(file.content(), 28) == 4 && le16_at(file.content(), 30) == 0
                && le16_at(file.content(), 26) != 0 && le64_at(file.content(), 48) <= le64_at(
                file.content(),
                40,
            ),
    {
        let bytes = file.read_exact_bytes_at(SQUASHFS_HEADER_LEN, 0)?;
        if !crate::squash::check_squashfs_magic(&bytes) {
            return Err(Error::BadMagic);
        }
        proof {
            assert(bytes@.subrange(0, 4) =~= file.content().subrange(0, 4));
        }
        let version_major = read_le16(&bytes, 28);
        let version_minor = read_le16(&bytes, 30);
        if version_major != 4 || version_minor != 0 {
            return Err(Error::Unsupported);
        }
        let bytes_used = read_le64(&bytes, 40);
        let id_count = read_le16(&bytes, 26);
        let id_table = read_le64(&bytes, 48);
        if id_count == 0 || id_table > bytes_used {
            return Err(Error::Corrupt);
        }
        let header = SquashFsHeader::from_raw(&bytes);
        if decode_compressor(header.compressor)? != Compressor::Gzip {
            return Err(Error::Unsupported);
        }
        let root_inode_ref = read_le64(&bytes, 32);
        let total = file.len();
        let mut fs = SquashFsFileSystemInternal {
            header,
            file: Rc::new(file),
            blocks_cache: new_block_cache(100),
        };
        let root = fs.open_dir(to_inode_blk(root_inode_ref), to_inode_offset(root_inode_ref))?;
        Ok(SquashFsFileSystem { fs, root })
    }

    /// The root entry that a one-component path names.
    fn get_dir_entry_from_path(&self, path: &Vec<String>) -> (r: Result<usize, Error>)
        ensures
            r matches Ok(i) ==> i < self.root.entries@.len() && path@.len() == 1
                && self.root.entries@[i as int].name@ == path@[0]@,
            r matches Err(e) ==> (e matches Error::Path(p) && p.path@ == crate::detect::joined_path(
                path_view(path@),
            )),
    {
        if path.len() == 1 {
            let mut i: usize = 0;
            while i < self.root.entries.len()
                invariant
                    i <= self.root.entries@.len(),
                    path@.len() == 1,
                decreases self.root.entries@.len() - i,
            {
                if crate::cd::text_is(self.root.entries[i].name.as_str(), path[0].as_str()) {
                    return Ok(i);
                }
                i += 1;
            }
        }
        Err(Error::Path(PathError { file: String::new(), path: crate::detect::path_to_string(path) }))
    }
}

impl<F: File> FileSystem for SquashFsFileSystem<F> {
    type File = SquashFsFile;

    type DirEntry = SquashFsDirEntry;

    fn is_file(&mut self, path: &Vec<String>) -> bool {
        match self.get_dir_entry_from_path(path) {
            Ok(i) => self.root.entries[i].is_file(),
            Err(_) => false,
        }
    }

    fn is_dir(&mut self, path: &Vec<String>) -> bool {
        match self.get_dir_entry_from_path(path) {
            Ok(i) => self.root.entries[i].is_dir(),
            Err(_) => false,
        }
    }

    fn open_file(&mut self, path: &Vec<String>) -> Result<Self::File, Error> {
        let i = self.get_dir_entry_from_path(path)?;
        if self.root.entries[i].is_dir() {
            return Err(
                Error::NotFilePath(
                    crate::error::NotFilePathError {
                        file: String::new(),
                        path: crate::detect::path_to_string(path),
                    },
                ),
            );
        }
        let block = self.root.entries[i].block_index;
        let offset = self.root.entries[i].offset as u64;
        let _total = (*self.fs.file).len();
        self.fs.blocks_cache = new_block_cache(100);
        let data = self.fs.read_file_data(block, offset)?;
        if data.len() as u64 > u64::MAX {
            return Err(Error::TooLarge);
        }
        Ok(SquashFsFile { data: crate::file::MemFile::new(data) })
    }

    /// Lists the root directory; no other directory is walked.
    fn read_dir(&mut self, path: &Vec<String>) -> Result<Vec<Self::DirEntry>, Error> {
        if path.len() != 0 {
            return Err(Error::Unsupported);
        }
        let mut out: Vec<SquashFsDirEntry> = Vec::new();
        let mut i: usize = 0;
        while i < self.root.entries.len()
            invariant
                i <= self.root.entries@.len(),
            decreases self.root.entries@.len() - i,
        {
            let e = &self.root.entries[i];
            let entry_type = if e.is_dir() {
                FileType::Directory
            } else {
                FileType::File
            };
            let mut p: Vec<String> = Vec::new();
            p.push(e.name.clone());
            let inner = SquashFsSimpleDirEntry {
                block_index: e.block_index,
                offset: e.offset,
                inode_type: e.inode_type,
                inode_number: e.inode_number,
                name: e.name.clone(),
            };
            out.push(SquashFsDirEntry { path: p, entry_type, inner });
            i += 1;
        }
        Ok(out)
    }
}

} // verus!
