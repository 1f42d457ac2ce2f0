use vstd::prelude::*;
use vstd::utf8::{decode_utf8, encode_utf8, encode_utf8_decode_utf8};

use crate::error::Error;
use crate::file::{path_view, DirEntry, File, FileSystem, FileType};
use crate::text::{ascii_lower_chars, slice_bytes, ascii_lowercase, bytes_eq, lex_le, lex_less_eq, lemma_lex_total};

verus! {

/// The trailers manifest and the trailers audio of a disc.
pub struct TrailerEntries<F> {
    pub metadata: (F, Vec<String>),
    pub audio: (F, Vec<String>),
}

/// The reels of a disc, sorted by name, and its trailers if it has both
/// files of them.
pub struct CdTreeEntries<F> {
    pub reels: Vec<(F, Vec<String>)>,
    pub trailers: Option<TrailerEntries<F>>,
}

/// `r[1-9][0-3]?t5\.(aud|aue)` matches `s` from `i` on.
pub open spec fn reel_match_at(s: Seq<char>, i: int) -> bool {
    &&& 0 <= i
    &&& i + 2 <= s.len()
    &&& s[i] == 'r'
    &&& '1' <= s[i + 1] <= '9'
    &&& (reel_tail_at(s, i + 2) || (i + 3 <= s.len() && '0' <= s[i + 2] <= '3' && reel_tail_at(
        s,
        i + 3,
    )))
}

/// `t5\.(aud|aue)` matches `s` from `j` on.
pub open spec fn reel_tail_at(s: Seq<char>, j: int) -> bool {
    &&& 0 <= j
    &&& j + 6 <= s.len()
    &&& s[j] == 't'
    &&& s[j + 1] == '5'
    &&& s[j + 2] == '.'
    &&& s[j + 3] == 'a'
    &&& s[j + 4] == 'u'
    &&& (s[j + 5] == 'd' || s[j + 5] == 'e')
}

/// The reel pattern matches somewhere in `s`.
pub open spec fn contains_reel_name(s: Seq<char>) -> bool {
    exists|i: int| reel_match_at(s, i)
}

/// Relies on regex::Regex::new, which compiles this pattern, and
/// Regex::is_match, which reports whether it matches anywhere in the text.
#[verifier::external_body]
fn regex_is_match(pattern: &str, text: &str) -> (r: bool)
    requires
        pattern@ == "r[1-9][0-3]?t5\\.(aud|aue)"@,
    ensures
        r == contains_reel_name(text@),
{
    match regex::Regex::new(pattern) {
        Ok(re) => re.is_match(text),
        Err(_) => false,
    }
}

/// Whether the name holds a reel file name.
pub fn is_reel_name(name: &str) -> (r: bool)
    ensures
        r == contains_reel_name(name@),
{
    regex_is_match("r[1-9][0-3]?t5\\.(aud|aue)", name)
}

/// Whether the text is the literal `lit`.
pub(crate) fn text_is(s: &str, lit: &str) -> (r: bool)
    ensures
        r == (s@ == lit@),
{
    broadcast use encode_utf8_decode_utf8;

    let a = s.as_bytes();
    let b = lit.as_bytes();
    let r = bytes_eq(a, b);
    proof {
        assert(a@ == encode_utf8(s@));
        assert(b@ == encode_utf8(lit@));
        if r {
            assert(decode_utf8(encode_utf8(s@)) == s@);
            assert(decode_utf8(encode_utf8(lit@)) == lit@);
        }
    }
    r
}

/// A listing holds the file `dts.exe` and the directory `dts`, both
/// spelt exactly so.
pub open spec fn is_disc_listing(l: Seq<(Seq<char>, FileType)>) -> bool {
    (exists|i: int| 0 <= i < l.len() && l[i] == ("dts.exe"@, FileType::File)) && (exists|j: int|
        0 <= j < l.len() && l[j] == ("dts"@, FileType::Directory))
}

pub open spec fn listing_view(l: Seq<(String, FileType)>) -> Seq<(Seq<char>, FileType)> {
    l.map_values(|e: (String, FileType)| (e.0@, e.1))
}

/// Where the `dts` directory of a disc listing stands, if the listing is
/// that of a disc.
pub fn dts_dir_index(listing: &Vec<(String, FileType)>) -> (r: Option<usize>)
    ensures
        r is Some <==> is_disc_listing(listing_view(listing@)),
        r matches Some(j) ==> j < listing@.len() && listing_view(listing@)[j as int] == (
            "dts"@,
            FileType::Directory,
        ),
{
    let ghost l = listing_view(listing@);
    let mut exe = false;
    let mut dir: Option<usize> = None;
    let mut i: usize = 0;
    while i < listing.len()
        invariant
            i <= listing@.len(),
            l == listing_view(listing@),
            exe == exists|k: int| 0 <= k < i && l[k] == ("dts.exe"@, FileType::File),
            dir is Some == exists|k: int| 0 <= k < i && l[k] == ("dts"@, FileType::Directory),
            dir matches Some(j) ==> j < i && l[j as int] == ("dts"@, FileType::Directory),
        decreases listing@.len() - i,
    {
        let name = listing[i].0.as_str();
        assert(l[i as int] == (listing@[i as int].0@, listing@[i as int].1));
        match listing[i].1 {
            FileType::File => {
                if text_is(name, "dts.exe") {
                    exe = true;
                }
            },
            FileType::Directory => {
                if dir.is_none() && text_is(name, "dts") {
                    dir = Some(i);
                }
            },
        }
        i += 1;
    }
    if exe {
        dir
    } else {
        None
    }
}

/// How a name in a disc's `dts` directory is used.
pub open spec fn is_trailer_metadata_name(n: Seq<char>) -> bool {
    n == "r14trlr.txt"@ || n == "r14.txt"@
}

pub open spec fn is_trailer_audio_name(n: Seq<char>) -> bool {
    n == "r14t5.aud"@ || n == "r14t5.aue"@
}

pub open spec fn is_reel_file(e: (Seq<char>, FileType)) -> bool {
    e.1 == FileType::File && !is_trailer_metadata_name(e.0) && !is_trailer_audio_name(e.0)
        && contains_reel_name(e.0)
}

pub open spec fn is_trailer_metadata_file(e: (Seq<char>, FileType)) -> bool {
    e.1 == FileType::File && is_trailer_metadata_name(e.0)
}

pub open spec fn is_trailer_audio_file(e: (Seq<char>, FileType)) -> bool {
    e.1 == FileType::File && !is_trailer_metadata_name(e.0) && is_trailer_audio_name(e.0)
}

/// The indices of the reel files among the first `n` entries, in order.
pub open spec fn reel_indices(l: Seq<(Seq<char>, FileType)>, n: int) -> Seq<usize>
    decreases n,
{
    if n <= 0 {
        Seq::empty()
    } else if is_reel_file(l[n - 1]) {
        reel_indices(l, n - 1).push((n - 1) as usize)
    } else {
        reel_indices(l, n - 1)
    }
}

/// The index of the last entry among the first `n` that is a trailers
/// manifest, or audio.
pub open spec fn last_trailer_metadata(l: Seq<(Seq<char>, FileType)>, n: int) -> Option<usize>
    decreases n,
{
    if n <= 0 {
        None
    } else if is_trailer_metadata_file(l[n - 1]) {
        Some((n - 1) as usize)
    } else {
        last_trailer_metadata(l, n - 1)
    }
}

pub open spec fn last_trailer_audio(l: Seq<(Seq<char>, FileType)>, n: int) -> Option<usize>
    decreases n,
{
    if n <= 0 {
        None
    } else if is_trailer_audio_file(l[n - 1]) {
        Some((n - 1) as usize)
    } else {
        last_trailer_audio(l, n - 1)
    }
}

/// What the files of a `dts` directory are: reel indices and the indices of
/// the trailers manifest and audio.
pub struct DtsFiles {
    pub reels: Vec<usize>,
    pub trailer_metadata: Option<usize>,
    pub trailer_audio: Option<usize>,
}

/// Sorts the files of a `dts` directory listing (names in lower case) into
/// reels, in listing order, and the trailers manifest and audio; of several
/// candidates for a trailers file the last one counts.
pub fn classify_dts_files(listing: &Vec<(String, FileType)>) -> (r: DtsFiles)
    ensures
        r.reels@ == reel_indices(listing_view(listing@), listing@.len() as int),
        r.trailer_metadata == last_trailer_metadata(listing_view(listing@), listing@.len() as int),
        r.trailer_audio == last_trailer_audio(listing_view(listing@), listing@.len() as int),
{
    let ghost l = listing_view(listing@);
    let mut reels: Vec<usize> = Vec::new();
    let mut meta: Option<usize> = None;
    let mut audio: Option<usize> = None;
    let mut i: usize = 0;
    while i < listing.len()
        invariant
            i <= listing@.len(),
            l == listing_view(listing@),
            reels@ == reel_indices(l, i as int),
            meta == last_trailer_metadata(l, i as int),
            audio == last_trailer_audio(l, i as int),
        decreases listing@.len() - i,
    {
        assert(l[i as int] == (listing@[i as int].0@, listing@[i as int].1));
        if listing[i].1 == FileType::File {
            let name = listing[i].0.as_str();
            if text_is(name, "r14trlr.txt") || text_is(name, "r14.txt") {
                meta = Some(i);
            } else if text_is(name, "r14t5.aud") || text_is(name, "r14t5.aue") {
                audio = Some(i);
            } else if is_reel_name(name) {
                reels.push(i);
            }
        }
        i += 1;
    }
    DtsFiles { reels, trailer_metadata: meta, trailer_audio: audio }
}

/// Each index is followed by one whose key does not come before its own.
pub open spec fn sorted_by_key(v: Seq<usize>, keys: Seq<Seq<u8>>) -> bool {
    forall|a: int|
        0 <= a < v.len() - 1 ==> lex_le(#[trigger] keys[v[a] as int], keys[v[a + 1] as int])
}

/// Sorts indices by their keys, keeping the order of equal keys.
pub fn sort_by_key(idx: &Vec<usize>, keys: &Vec<Vec<u8>>) -> (r: Vec<usize>)
    requires
        forall|k: int| 0 <= k < idx@.len() ==> idx@[k] < keys@.len(),
    ensures
        r@.to_multiset() == idx@.to_multiset(),
        sorted_by_key(r@, keys@.map_values(|k: Vec<u8>| k@)),
        forall|k: int| 0 <= k < r@.len() ==> r@[k] < keys@.len(),
{
    broadcast use vstd::seq_lib::group_to_multiset_ensures;

    let ghost kv = keys@.map_values(|k: Vec<u8>| k@);
    let mut out: Vec<usize> = Vec::new();
    let mut i: usize = 0;
    assert(idx@.subrange(0, 0) =~= out@);
    while i < idx.len()
        invariant
            i <= idx@.len(),
            kv == keys@.map_values(|k: Vec<u8>| k@),
            forall|k: int| 0 <= k < idx@.len() ==> idx@[k] < keys@.len(),
            forall|k: int| 0 <= k < out@.len() ==> out@[k] < keys@.len(),
            out@.to_multiset() == idx@.subrange(0, i as int).to_multiset(),
            sorted_by_key(out@, kv),
        decreases idx@.len() - i,
    {
        let x = idx[i];
        let mut p: usize = 0;
        while p < out.len() && lex_less_eq(keys[out[p]].as_slice(), keys[x].as_slice())
            invariant
                p <= out@.len(),
                x < keys@.len(),
                kv == keys@.map_values(|k: Vec<u8>| k@),
                forall|k: int| 0 <= k < out@.len() ==> out@[k] < keys@.len(),
                p > 0 ==> lex_le(kv[out@[p - 1] as int], kv[x as int]),
            decreases out@.len() - p,
        {
            p += 1;
        }
        let ghost before = out@;
        proof {
            if p < out@.len() {
                lemma_lex_total(kv[out@[p as int] as int], kv[x as int]);
            }
        }
        out.insert(p, x);
        proof {
            assert(idx@.subrange(0, i + 1) =~= idx@.subrange(0, i as int).push(x));
            assert(out@ == before.insert(p as int, x));
            vstd::seq_lib::to_multiset_insert(before, p as int, x);
            vstd::seq_lib::to_multiset_build(idx@.subrange(0, i as int), x);
            assert forall|a: int| 0 <= a < out@.len() - 1 implies lex_le(
                #[trigger] kv[out@[a] as int],
                kv[out@[a + 1] as int],
            ) by {
                if a < p - 1 {
                    assert(out@[a] == before[a] && out@[a + 1] == before[a + 1]);
                } else if a == p - 1 {
                    assert(out@[a] == before[a] && out@[a + 1] == x);
                } else if a == p {
                    assert(out@[a] == x && out@[a + 1] == before[a]);
                } else {
                    assert(out@[a] == before[a - 1] && out@[a + 1] == before[a]);
                    assert(lex_le(kv[before[a - 1] as int], kv[before[a] as int]));
                }
            }
            assert forall|k: int| 0 <= k < out@.len() implies out@[k] < keys@.len() by {
                if k < p {
                    assert(out@[k] == before[k]);
                } else if k > p {
                    assert(out@[k] == before[k - 1]);
                }
            }
        }
        i += 1;
    }
    assert(idx@.subrange(0, idx@.len() as int) =~= idx@);
    out
}

/// The last component of an entry's path, or nothing.
pub open spec fn entry_name<D: DirEntry>(e: D) -> Seq<char> {
    if e.entry_path().len() > 0 {
        e.entry_path().last()
    } else {
        Seq::empty()
    }
}

/// The listing of entries as (last path component, kind).
pub open spec fn entries_listing<D: DirEntry>(entries: Seq<D>) -> Seq<(Seq<char>, FileType)> {
    entries.map_values(|e: D| (entry_name(e), e.entry_kind()))
}

/// The listing of entries as (last path component in ASCII lower case, kind).
pub open spec fn lower_listing<D: DirEntry>(entries: Seq<D>) -> Seq<(Seq<char>, FileType)> {
    entries.map_values(|e: D| (ascii_lower_chars(entry_name(e)), e.entry_kind()))
}

/// The sort keys of a listing: the UTF-8 bytes of each name.
pub open spec fn name_keys(l: Seq<(Seq<char>, FileType)>) -> Seq<Seq<u8>> {
    l.map_values(|e: (Seq<char>, FileType)| encode_utf8(e.0))
}

/// The path of the `j`-th entry.
pub open spec fn entry_path_at<D: DirEntry>(entries: Seq<D>, j: usize) -> Seq<Seq<char>> {
    entries[j as int].entry_path()
}

/// The order in which the reels of a `dts` directory are opened: each reel
/// file once, ascending by lower-case name.
pub open spec fn reel_order(order: Seq<usize>, l: Seq<(Seq<char>, FileType)>) -> bool {
    &&& order.to_multiset() == reel_indices(l, l.len() as int).to_multiset()
    &&& sorted_by_key(order, name_keys(l))
}

/// `t` holds the files of the `dts` directory whose listing is `entries`:
/// its reel files in ascending lower-case name order, and its trailers
/// manifest and audio exactly when both are there.
pub open spec fn dts_tree<D: DirEntry, F>(t: CdTreeEntries<F>, entries: Seq<D>) -> bool {
    let l = lower_listing(entries);
    let n = entries.len() as int;
    &&& exists|order: Seq<usize>|
        #[trigger] reel_order(order, l) && order.len() == t.reels@.len() && forall|q: int|
            0 <= q < order.len() ==> path_view((#[trigger] t.reels@[q]).1@) == entry_path_at(
                entries,
                order[q],
            )
    &&& (t.trailers is Some <==> (last_trailer_metadata(l, n) is Some && last_trailer_audio(l, n)
        is Some))
    &&& (t.trailers matches Some(tr) ==> path_view(tr.metadata.1@) == entry_path_at(
        entries,
        last_trailer_metadata(l, n)->0,
    ) && path_view(tr.audio.1@) == entry_path_at(entries, last_trailer_audio(l, n)->0))
}

/// Scans a directory listing for `dts.exe` and the `dts` directory; where
/// both are there, lists the `dts` directory. An entry whose path or kind
/// cannot be read aborts the scan.
fn get_if_dts_cd<FS: FileSystem>(fs: &mut FS, entries: &Vec<FS::DirEntry>) -> (r: Result<
    Option<Vec<FS::DirEntry>>,
    Error,
>)
    ensures
        r matches Ok(Some(_)) ==> is_disc_listing(entries_listing(entries@)),
        r matches Ok(None) ==> !is_disc_listing(entries_listing(entries@)),
        entries@.len() == 0 ==> r matches Ok(None),
{
    let ghost el = entries_listing(entries@);
    proof {
        reveal_strlit("dts.exe");
        reveal_strlit("dts");
    }
    let mut exe = false;
    let mut dir: Option<usize> = None;
    let mut i: usize = 0;
    while i < entries.len()
        invariant
            i <= entries@.len(),
            el == entries_listing(entries@),
            "dts.exe"@.len() == 7,
            "dts"@.len() == 3,
            exe == exists|k: int| 0 <= k < i && el[k] == ("dts.exe"@, FileType::File),
            dir is Some == exists|k: int| 0 <= k < i && el[k] == ("dts"@, FileType::Directory),
            dir matches Some(j) ==> j < i && el[j as int] == ("dts"@, FileType::Directory),
        decreases entries@.len() - i,
    {
        let e = &entries[i];
        let p = e.path()?;
        let t = e.file_type()?;
        proof {
            assert(path_view(p@) == e.entry_path());
            if p@.len() > 0 {
                assert(path_view(p@).last() == p@.last()@);
            }
            assert(el[i as int] == (entry_name(entries@[i as int]), t));
        }
        if p.len() > 0 {
            let name = p[p.len() - 1].as_str();
            match t {
                FileType::File => {
                    if text_is(name, "dts.exe") {
                        exe = true;
                    }
                },
                FileType::Directory => {
                    if dir.is_none() && text_is(name, "dts") {
                        dir = Some(i);
                    }
                },
            }
        }
        i += 1;
    }
    match dir {
        Some(j) => {
            if exe {
                let path = entries[j].path()?;
                let listing = fs.read_dir(&path)?;
                Ok(Some(listing))
            } else {
                Ok(None)
            }
        },
        None => Ok(None),
    }
}

/// The (lower-case last component, kind) listing of the entries; an entry
/// whose path or kind cannot be read aborts it.
fn lowercase_listing<D: DirEntry>(entries: &Vec<D>) -> (r: Result<Vec<(String, FileType)>, Error>)
    ensures
        r matches Ok(l) ==> listing_view(l@) == lower_listing(entries@),
        entries@.len() == 0 ==> r is Ok,
{
    let mut listing: Vec<(String, FileType)> = Vec::new();
    let mut i: usize = 0;
    while i < entries.len()
        invariant
            i <= entries@.len(),
            listing_view(listing@) == lower_listing(entries@.subrange(0, i as int)),
        decreases entries@.len() - i,
    {
        let p = entries[i].path()?;
        let t = entries[i].file_type()?;
        let name = if p.len() > 0 {
            proof {
                assert(path_view(p@).last() == p@.last()@);
            }
            ascii_lowercase(p[p.len() - 1].as_str())
        } else {
            proof {
                assert(ascii_lower_chars(Seq::<char>::empty()) =~= Seq::<char>::empty());
            }
            String::new()
        };
        let ghost before = listing@;
        listing.push((name, t));
        proof {
            assert(path_view(p@) == entries@[i as int].entry_path());
            assert(entries@.subrange(0, i + 1) =~= entries@.subrange(0, i as int).push(entries@[i as int]));
            assert(listing@ == before.push((name, t)));
            assert(listing_view(listing@) =~= listing_view(before).push((name@, t)));
            assert(lower_listing(entries@.subrange(0, i + 1)) =~= lower_listing(entries@.subrange(0, i as int)).push(
                (ascii_lower_chars(entry_name(entries@[i as int])), entries@[i as int].entry_kind()),
            ));
        }
        i += 1;
    }
    assert(entries@.subrange(0, entries@.len() as int) =~= entries@);
    Ok(listing)
}

/// Opens the reels of a `dts` directory, sorted by lower-case name, and its
/// trailers manifest and audio where both are there.
fn get_dts_files<FS: FileSystem>(fs: &mut FS, entries: &Vec<FS::DirEntry>) -> (r: Result<
    Option<CdTreeEntries<FS::File>>,
    Error,
>)
    ensures
        r is Ok ==> r->Ok_0 is Some,
        r matches Ok(Some(t)) ==> dts_tree(t, entries@),
        entries@.len() == 0 ==> (r matches Ok(Some(t)) && t.reels@.len() == 0 && t.trailers is None),
{
    let listing = lowercase_listing(entries)?;
    let ghost l = lower_listing(entries@);
    let files = classify_dts_files(&listing);
    let mut keys: Vec<Vec<u8>> = Vec::new();
    let mut k: usize = 0;
    while k < listing.len()
        invariant
            k <= listing@.len(),
            keys@.len() == k,
            forall|j: int| 0 <= j < k ==> (#[trigger] keys@[j])@ == encode_utf8(listing@[j].0@),
        decreases listing@.len() - k,
    {
        let b = listing[k].0.as_str().as_bytes();
        keys.push(slice_bytes(b, 0, b.len()));
        proof {
            assert(b@.subrange(0, b@.len() as int) =~= b@);
        }
        k += 1;
    }
    proof {
        assert(listing_view(listing@).len() == listing@.len());
        assert(keys@.map_values(|k: Vec<u8>| k@) =~= name_keys(l)) by {
            assert forall|j: int| 0 <= j < keys@.len() implies keys@.map_values(|k: Vec<u8>| k@)[j]
                == name_keys(l)[j] by {
                assert(listing_view(listing@)[j] == (listing@[j].0@, listing@[j].1));
            }
        }
        lemma_reel_indices_bound(l, listing@.len() as int);
    }
    let order = sort_by_key(&files.reels, &keys);
    let mut reels: Vec<(FS::File, Vec<String>)> = Vec::new();
    let mut n: usize = 0;
    while n < order.len()
        invariant
            n <= order@.len(),
            reels@.len() == n,
            listing@.len() == entries@.len(),
            forall|q: int| 0 <= q < order@.len() ==> order@[q] < keys@.len(),
            keys@.len() == listing@.len(),
            forall|q: int| 0 <= q < n ==> path_view((#[trigger] reels@[q]).1@) == entry_path_at(
                entries@,
                order@[q],
            ),
        decreases order@.len() - n,
    {
        let path = entries[order[n]].path()?;
        let file = fs.open_file(&path)?;
        let ghost before = reels@;
        reels.push((file, path));
        proof {
            assert forall|q: int| 0 <= q < n + 1 implies path_view((#[trigger] reels@[q]).1@)
                == entry_path_at(entries@, order@[q]) by {
                if q < n {
                    assert(reels@[q] == before[q]);
                }
            }
        }
        n += 1;
    }
    proof {
        lemma_last_trailer_bounds(l, listing@.len() as int);
        broadcast use vstd::seq_lib::group_to_multiset_ensures;

        assert(order@.len() == order@.to_multiset().len());
        assert(reel_order(order@, l));
    }
    let trailers = match (files.trailer_metadata, files.trailer_audio) {
        (Some(m), Some(a)) => {
            let metadata_path = entries[m].path()?;
            let audio_path = entries[a].path()?;
            let metadata = fs.open_file(&metadata_path)?;
            let audio = fs.open_file(&audio_path)?;
            Some(TrailerEntries { metadata: (metadata, metadata_path), audio: (audio, audio_path) })
        },
        _ => None,
    };
    let t = CdTreeEntries { reels, trailers };
    proof {
        assert(reel_order(order@, l) && order@.len() == t.reels@.len());
    }
    Ok(Some(t))
}

pub proof fn lemma_reel_indices_bound(l: Seq<(Seq<char>, FileType)>, n: int)
    requires
        0 <= n <= l.len(),
    ensures
        reel_indices(l, n).len() <= n,
        forall|q: int| 0 <= q < reel_indices(l, n).len() ==> reel_indices(l, n)[q] < n,
    decreases n,
{
    if n > 0 {
        lemma_reel_indices_bound(l, n - 1);
    }
}

pub proof fn lemma_last_trailer_bounds(l: Seq<(Seq<char>, FileType)>, n: int)
    requires
        0 <= n <= l.len(),
    ensures
        last_trailer_metadata(l, n) matches Some(m) ==> m < n,
        last_trailer_audio(l, n) matches Some(m) ==> m < n,
    decreases n,
{
    if n > 0 {
        lemma_last_trailer_bounds(l, n - 1);
    }
}

/// Where the listing is that of a content disc, opens its reels, sorted by
/// name, and its trailers manifest and audio.
pub fn get_if_dts_cd_dir_entry<FS: FileSystem>(fs: &mut FS, entries: &Vec<FS::DirEntry>) -> (r: Result<
    Option<CdTreeEntries<FS::File>>,
    Error,
>)
    ensures
        entries@.len() == 0 ==> r matches Ok(None),
        r matches Ok(None) ==> !is_disc_listing(entries_listing(entries@)),
        r matches Ok(Some(t)) ==> is_disc_listing(entries_listing(entries@)) && exists|
            d: Seq<FS::DirEntry>,
        | #[trigger] dts_tree(t, d),
{
    match get_if_dts_cd(fs, entries)? {
        Some(dts) => {
            let r = get_dts_files(fs, &dts);
            match r {
                Ok(Some(t)) => {
                    assert(dts_tree(t, dts@));
                    Ok(Some(t))
                },
                Ok(None) => Ok(None),
                Err(e) => Err(e),
            }
        },
        None => Ok(None),
    }
}

} // verus!
