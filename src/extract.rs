use vstd::prelude::*;
use vstd::utf8::encode_utf8;

use crate::cd::text_is;
use crate::detect::{get_dir_type, DirType};
use crate::error::Error;
use crate::file::{path_view, DirEntry, File, FileSystem};
use crate::hdr::{decode_hdr_from_file, hdr_decodable, hdr_describes};
use crate::metadata::{HdrFileMetadata, SndFileMetadata, TrailersMetadata, TrailersMetadataTxtEntry};
use crate::snd::{snd_decodable, snd_describes, is_generic_trailers_header, snd_header_bytes, encode_header, get_generic_trailers_header, snd_fits, decode_snd_header_from_file, SND_HEADER_LEN, TRAILER_REEL};
use crate::text::{extension_of, last_dot, lemma_last_dot_bounds, lower_bytes, lowercase_bytes, slice_bytes, stem_of, bytes_eq};
use crate::trailers::{digits_of, encode_trailers_txt, push_decimal};

verus! {

/// A feature, selected by id or by title.
pub enum Feature {
    Id(FeatureId),
    Name(FeatureName),
}

pub struct FeatureName {
    pub name: String,
}

pub struct FeatureId {
    pub id: u16,
}

/// Trailers, selected by ids or by titles.
pub enum Trailers {
    Ids(TrailerIds),
    Names(TrailerNames),
}

pub struct TrailerNames {
    pub names: Vec<String>,
}

pub struct TrailerIds {
    pub ids: Vec<u16>,
}

/// A header file beside a sound file.
pub struct HdrEntryWithMetadata {
    pub path: Vec<String>,
    pub metadata: HdrFileMetadata,
}

/// A sound file and what its header says.
pub struct SndEntryWithMetadata {
    pub path: Vec<String>,
    pub metadata: SndFileMetadata,
}

/// A sound file and its header file, if there is one.
pub struct EntryWithMetadata {
    pub hdr: Option<HdrEntryWithMetadata>,
    pub snd: SndEntryWithMetadata,
}

/// The sound files of a directory.
pub struct Files {
    pub entries: Vec<EntryWithMetadata>,
}

/// A copy of a source file to a name in the output directory.
pub struct FeatureCopy {
    pub source: Vec<String>,
    pub target: Vec<u8>,
}

/// The combined trailers reel: its header, the files whose payloads follow
/// it in order, and its manifest.
pub struct TrailerPlan {
    pub header_metadata: SndFileMetadata,
    pub header: Vec<u8>,
    pub payload_lens: Vec<u64>,
    pub sources: Vec<Vec<String>>,
    pub metadata: TrailersMetadata,
    pub manifest: Vec<u8>,
}

/// What extraction writes: the reel numbers of the feature, sorted, with the
/// copies that make it, and the trailers reel.
pub struct ExtractPlan {
    pub feature_reels: Vec<u8>,
    pub feature_copies: Vec<FeatureCopy>,
    pub trailers: Option<TrailerPlan>,
}

/// The key under which a file name is matched: its stem in ASCII lower case.
pub open spec fn stem_key(name: Seq<u8>) -> Seq<u8> {
    lower_bytes(stem_of(name))
}

/// Names equal but for ASCII case have the same stem key and the same
/// extension, in lower case.
pub proof fn lemma_case_insensitive_stems(a: Seq<u8>, b: Seq<u8>)
    requires
        lower_bytes(a) == lower_bytes(b),
    ensures
        stem_key(a) == stem_key(b),
        (extension_of(a) is Some) == (extension_of(b) is Some),
        extension_of(a) matches Some(x) ==> lower_bytes(x) == lower_bytes(extension_of(b)->0),
{
    lemma_lower_keeps_dots(a, b);
    let d = last_dot(a);
    lemma_last_dot_bounds(a);
    assert(a.len() == b.len()) by {
        assert(lower_bytes(a).len() == a.len());
    }
    if d > 0 {
        assert(lower_bytes(a.subrange(0, d)) =~= lower_bytes(a).subrange(0, d));
        assert(lower_bytes(b.subrange(0, d)) =~= lower_bytes(b).subrange(0, d));
        assert(lower_bytes(a.subrange(d + 1, a.len() as int)) =~= lower_bytes(a).subrange(d + 1, a.len() as int));
        assert(lower_bytes(b.subrange(d + 1, b.len() as int)) =~= lower_bytes(b).subrange(d + 1, b.len() as int));
    }
}

/// Lower case leaves dots where they are.
pub proof fn lemma_lower_keeps_dots(a: Seq<u8>, b: Seq<u8>)
    requires
        lower_bytes(a) == lower_bytes(b),
    ensures
        last_dot(a) == last_dot(b),
    decreases a.len(),
{
    assert(lower_bytes(a).len() == a.len() && lower_bytes(b).len() == b.len());
    if a.len() > 0 {
        assert(lower_bytes(a)[a.len() - 1] == lower_bytes(b)[b.len() - 1]);
        assert(lower_bytes(a.drop_last()) =~= lower_bytes(a).drop_last());
        assert(lower_bytes(b.drop_last()) =~= lower_bytes(b).drop_last());
        lemma_lower_keeps_dots(a.drop_last(), b.drop_last());
    }
}

/// The name of a feature reel in the output: `r{reel}t5.aue` where it is
/// encrypted, else `r{reel}t5.aud`.
pub open spec fn reel_file_name(reel: u8, encrypted: bool) -> Seq<u8> {
    seq![0x72u8] + digits_of(reel as nat) + seq![0x74u8, 0x35u8, 0x2Eu8, 0x61u8, 0x75u8] + (if encrypted {
        seq![0x65u8]
    } else {
        seq![0x64u8]
    })
}

pub fn reel_file_name_of(reel: u8, encrypted: bool) -> (r: Vec<u8>)
    ensures
        r@ == reel_file_name(reel, encrypted),
{
    let mut out: Vec<u8> = Vec::new();
    out.push(0x72);
    push_decimal(&mut out, reel as u64);
    out.push(0x74);
    out.push(0x35);
    out.push(0x2E);
    out.push(0x61);
    out.push(0x75);
    out.push(if encrypted { 0x65 } else { 0x64 });
    assert(out@ =~= reel_file_name(reel, encrypted));
    out
}

/// The reel numbers of the selected entries, in selection order.
pub open spec fn reels_of(es: Seq<EntryWithMetadata>, sel: Seq<usize>) -> Seq<u8> {
    sel.map_values(|i: usize| es[i as int].snd.metadata.reel)
}

/// The first entry with the title exists and may go into the trailers reel.
pub open spec fn trailer_title_available(es: Seq<EntryWithMetadata>, name: Seq<char>) -> bool {
    let t = titled(es, name, es.len() as int);
    t.len() > 0 && is_trailer_entry(es[t[0] as int])
}

/// The first entry with the id exists and may go into the trailers reel.
pub open spec fn trailer_id_available(es: Seq<EntryWithMetadata>, id: u16) -> bool {
    let t = with_id(es, id, es.len() as int);
    t.len() > 0 && is_trailer_entry(es[t[0] as int])
}

/// The copy that puts a sound file in place as a feature reel.
pub open spec fn copy_made(c: FeatureCopy, e: EntryWithMetadata) -> bool {
    c.source@ == e.snd.path@ && c.target@ == reel_file_name(e.snd.metadata.reel, e.snd.metadata.encrypted)
}

/// The indices, in order, of the first `n` entries with the title.
pub open spec fn titled(es: Seq<EntryWithMetadata>, name: Seq<char>, n: int) -> Seq<usize>
    decreases n,
{
    if n <= 0 {
        Seq::empty()
    } else if es[n - 1].snd.metadata.title@ == name {
        titled(es, name, n - 1).push((n - 1) as usize)
    } else {
        titled(es, name, n - 1)
    }
}

/// The indices, in order, of the first `n` entries with the id.
pub open spec fn with_id(es: Seq<EntryWithMetadata>, id: u16, n: int) -> Seq<usize>
    decreases n,
{
    if n <= 0 {
        Seq::empty()
    } else if es[n - 1].snd.metadata.id == id {
        with_id(es, id, n - 1).push((n - 1) as usize)
    } else {
        with_id(es, id, n - 1)
    }
}

pub proof fn lemma_titled_bounds(es: Seq<EntryWithMetadata>, name: Seq<char>, n: int)
    requires
        0 <= n <= es.len() <= usize::MAX,
    ensures
        forall|k: int| 0 <= k < titled(es, name, n).len() ==> titled(es, name, n)[k] < n
            && es[titled(es, name, n)[k] as int].snd.metadata.title@ == name,
    decreases n,
{
    if n > 0 {
        lemma_titled_bounds(es, name, n - 1);
        let p = titled(es, name, n - 1);
        if es[n - 1].snd.metadata.title@ == name {
            assert forall|k: int| 0 <= k < p.len() + 1 implies #[trigger] p.push((n - 1) as usize)[k] < n
                && es[p.push((n - 1) as usize)[k] as int].snd.metadata.title@ == name by {
                if k < p.len() {
                    assert(p.push((n - 1) as usize)[k] == p[k]);
                }
            }
        }
    }
}

pub proof fn lemma_with_id_bounds(es: Seq<EntryWithMetadata>, id: u16, n: int)
    requires
        0 <= n <= es.len() <= usize::MAX,
    ensures
        forall|k: int| 0 <= k < with_id(es, id, n).len() ==> with_id(es, id, n)[k] < n
            && es[with_id(es, id, n)[k] as int].snd.metadata.id == id,
    decreases n,
{
    if n > 0 {
        lemma_with_id_bounds(es, id, n - 1);
        let p = with_id(es, id, n - 1);
        if es[n - 1].snd.metadata.id == id {
            assert forall|k: int| 0 <= k < p.len() + 1 implies #[trigger] p.push((n - 1) as usize)[k] < n
                && es[p.push((n - 1) as usize)[k] as int].snd.metadata.id == id by {
                if k < p.len() {
                    assert(p.push((n - 1) as usize)[k] == p[k]);
                }
            }
        }
    }
}

impl Files {
    /// The indices of the entries whose title is `name`, in order.
    pub fn find_entries_by_title(&self, name: &str) -> (r: Vec<usize>)
        ensures
            r@ == titled(self.entries@, name@, self.entries@.len() as int),
    {
        let mut found: Vec<usize> = Vec::new();
        let mut i: usize = 0;
        while i < self.entries.len()
            invariant
                i <= self.entries@.len(),
                found@ == titled(self.entries@, name@, i as int),
            decreases self.entries@.len() - i,
        {
            if text_is(self.entries[i].snd.metadata.title.as_str(), name) {
                found.push(i);
            }
            i += 1;
        }
        found
    }

    /// The indices of the entries whose id is `id`, in order.
    pub fn find_entries_by_id(&self, id: u16) -> (r: Vec<usize>)
        ensures
            r@ == with_id(self.entries@, id, self.entries@.len() as int),
    {
        let mut found: Vec<usize> = Vec::new();
        let mut i: usize = 0;
        while i < self.entries.len()
            invariant
                i <= self.entries@.len(),
                found@ == with_id(self.entries@, id, i as int),
            decreases self.entries@.len() - i,
        {
            if self.entries[i].snd.metadata.id == id {
                found.push(i);
            }
            i += 1;
        }
        found
    }

    /// The copies that make a feature: each selected sound file goes to
    /// `r{reel}t5.aud`, or `.aue` where encrypted; and the reel numbers,
    /// sorted. An empty selection is refused.
    pub fn convert_to_feature_files(&self, entries: &Vec<usize>) -> (r: Result<(Vec<u8>, Vec<FeatureCopy>), Error>)
        requires
            forall|k: int| 0 <= k < entries@.len() ==> entries@[k] < self.entries@.len(),
        ensures
            entries@.len() == 0 ==> r == Err::<(Vec<u8>, Vec<FeatureCopy>), Error>(Error::FeatureNotFound),
            entries@.len() > 0 ==> r is Ok,
            r matches Ok((reels, copies)) ==> reels@.to_multiset() == reels_of(self.entries@, entries@).to_multiset(),
            r matches Ok((reels, copies)) ==> copies@.len() == entries@.len() && reels@.len()
                == entries@.len() && (forall|k: int| 0 <= k < copies@.len() ==> copy_made(#[trigger] copies@[k], self.entries@[entries@[k] as int])) && (forall|a: int| 0 <= a < reels@.len() - 1 ==> #[trigger] reels@[a] <= reels@[a + 1]),
    {
        if entries.len() == 0 {
            return Err(Error::FeatureNotFound);
        }
        let mut reels: Vec<u8> = Vec::new();
        let mut copies: Vec<FeatureCopy> = Vec::new();
        let mut i: usize = 0;
        proof {
            assert(reels_of(self.entries@, entries@.subrange(0, 0)) =~= Seq::<u8>::empty());
            assert(reels@ =~= Seq::<u8>::empty());
        }
        while i < entries.len()
            invariant
                i <= entries@.len(),
                forall|k: int| 0 <= k < entries@.len() ==> entries@[k] < self.entries@.len(),
                copies@.len() == i,
                reels@.len() == i,
                reels@.to_multiset() == reels_of(self.entries@, entries@.subrange(0, i as int)).to_multiset(),
                forall|a: int| 0 <= a < reels@.len() - 1 ==> #[trigger] reels@[a] <= reels@[a + 1],
                forall|k: int| 0 <= k < copies@.len() ==> copy_made(#[trigger] copies@[k], self.entries@[entries@[k] as int]),
            decreases entries@.len() - i,
        {
            let e = &self.entries[entries[i]];
            let reel = e.snd.metadata.reel;
            let mut p: usize = 0;
            while p < reels.len() && reels[p] <= reel
                invariant
                    p <= reels@.len(),
                    p > 0 ==> reels@[p - 1] <= reel,
                decreases reels@.len() - p,
            {
                p += 1;
            }
            let ghost before = reels@;
            reels.insert(p, reel);
            proof {
                vstd::seq_lib::to_multiset_insert(before, p as int, reel);
                let sel = reels_of(self.entries@, entries@.subrange(0, i as int));
                assert(reels_of(self.entries@, entries@.subrange(0, i + 1)) =~= sel.push(reel));
                vstd::seq_lib::to_multiset_build(sel, reel);
            }
            assert forall|a: int| 0 <= a < reels@.len() - 1 implies #[trigger] reels@[a] <= reels@[a + 1] by {
                if a < p as int - 1 {
                    assert(reels@[a] == before[a] && reels@[a + 1] == before[a + 1]);
                } else if a == p - 1 {
                } else if a == p {
                    assert(reels@[a + 1] == before[a]);
                } else {
                    assert(reels@[a] == before[a - 1] && reels@[a + 1] == before[a]);
                }
            }
            let source = crate::isofile::clone_path(&e.snd.path);
            let target = reel_file_name_of(reel, e.snd.metadata.encrypted);
            copies.push(FeatureCopy { source, target });
            i += 1;
        }
        proof {
            assert(entries@.subrange(0, entries@.len() as int) =~= entries@);
        }
        Ok((reels, copies))
    }
}

/// A sound file that may go into the trailers reel: reel 14, unencrypted.
pub open spec fn is_trailer_entry(e: EntryWithMetadata) -> bool {
    e.snd.metadata.reel == TRAILER_REEL && !e.snd.metadata.encrypted
}

/// The payloads before the `k`-th, summed.
pub open spec fn sum_before(lens: Seq<u64>, k: int) -> int
    decreases k,
{
    if k <= 0 {
        0
    } else {
        sum_before(lens, k - 1) + lens[k - 1]
    }
}

/// The manifest line of the `k`-th trailer: its title and id, start 0, its
/// payload in frames of 3675 bytes, and where its payload starts in the reel,
/// after the 92-byte header and the payloads before it.
pub open spec fn trailer_line_made(m: TrailersMetadataTxtEntry, e: EntryWithMetadata, lens: Seq<u64>, k: int) -> bool {
    &&& m.title@ == e.snd.metadata.title@
    &&& m.id == e.snd.metadata.id
    &&& m.start == 0
    &&& m.end == lens[k] / 3675
    &&& m.offset == SND_HEADER_LEN + sum_before(lens, k)
}

/// `i` is the first entry with the title, and it may go into the trailers
/// reel.
pub open spec fn picked_by_title(es: Seq<EntryWithMetadata>, name: Seq<char>, i: usize) -> bool {
    let t = titled(es, name, es.len() as int);
    &&& t.len() > 0
    &&& i == t[0]
    &&& is_trailer_entry(es[i as int])
}

/// `i` is the first entry with the id, and it may go into the trailers reel.
pub open spec fn picked_by_id(es: Seq<EntryWithMetadata>, id: u16, i: usize) -> bool {
    let t = with_id(es, id, es.len() as int);
    &&& t.len() > 0
    &&& i == t[0]
    &&& is_trailer_entry(es[i as int])
}

impl Files {
    /// The first entry with each title; each must be an unencrypted reel 14.
    pub fn select_trailers_by_names(&self, names: &Vec<String>) -> (r: Result<Vec<usize>, Error>)
        ensures
            (forall|k: int| 0 <= k < names@.len() ==> trailer_title_available(self.entries@, #[trigger] names@[k]@))
                ==> r is Ok,
            r matches Ok(v) ==> v@.len() == names@.len() && forall|k: int|
                0 <= k < v@.len() ==> picked_by_title(self.entries@, names@[k]@, #[trigger] v@[k]),
            r matches Err(Error::TrailerNotFound(n)) ==> exists|k: int|
                0 <= k < names@.len() && names@[k]@ == n@ && titled(self.entries@, names@[k]@, self.entries@.len() as int).len() == 0,
            r matches Err(Error::NotATrailer(n)) ==> exists|k: int|
                0 <= k < names@.len() && names@[k]@ == n@ && !is_trailer_entry(
                    self.entries@[titled(self.entries@, names@[k]@, self.entries@.len() as int)[0] as int],
                ),
    {
        let mut out: Vec<usize> = Vec::new();
        let mut k: usize = 0;
        let _n = self.entries.len();
        while k < names.len()
            invariant
                k <= names@.len(),
                self.entries@.len() <= usize::MAX,
                out@.len() == k,
                forall|j: int|
                    0 <= j < k ==> picked_by_title(self.entries@, names@[j]@, #[trigger] out@[j]),
            decreases names@.len() - k,
        {
            let found = self.find_entries_by_title(names[k].as_str());
            proof {
                lemma_titled_bounds(self.entries@, names@[k as int]@, self.entries@.len() as int);
            }
            if found.len() == 0 {
                return Err(Error::TrailerNotFound(names[k].clone()));
            }
            let i = found[0];
            let e = &self.entries[i];
            if e.snd.metadata.reel != TRAILER_REEL || e.snd.metadata.encrypted {
                return Err(Error::NotATrailer(names[k].clone()));
            }
            let ghost prev = out@;
            out.push(i);
            assert forall|j: int| 0 <= j < k implies #[trigger] out@[j] == prev[j] by {}
            assert(out@[k as int] == i);
            k += 1;
        }
        Ok(out)
    }

    /// The first entry with each id; each must be an unencrypted reel 14.
    pub fn select_trailers_by_ids(&self, ids: &Vec<u16>) -> (r: Result<Vec<usize>, Error>)
        ensures
            (forall|k: int| 0 <= k < ids@.len() ==> trailer_id_available(self.entries@, #[trigger] ids@[k]))
                ==> r is Ok,
            r matches Ok(v) ==> v@.len() == ids@.len() && forall|k: int|
                0 <= k < v@.len() ==> picked_by_id(self.entries@, ids@[k], #[trigger] v@[k]),
            r matches Err(Error::TrailerIdNotFound(n)) ==> exists|k: int|
                0 <= k < ids@.len() && ids@[k] == n && with_id(self.entries@, ids@[k], self.entries@.len() as int).len() == 0,
            r matches Err(Error::NotATrailerId(n)) ==> exists|k: int|
                0 <= k < ids@.len() && ids@[k] == n && !is_trailer_entry(
                    self.entries@[with_id(self.entries@, ids@[k], self.entries@.len() as int)[0] as int],
                ),
    {
        let mut out: Vec<usize> = Vec::new();
        let mut k: usize = 0;
        let _n = self.entries.len();
        while k < ids.len()
            invariant
                k <= ids@.len(),
                self.entries@.len() <= usize::MAX,
                out@.len() == k,
                forall|j: int|
                    0 <= j < k ==> picked_by_id(self.entries@, ids@[j], #[trigger] out@[j]),
            decreases ids@.len() - k,
        {
            let found = self.find_entries_by_id(ids[k]);
            proof {
                lemma_with_id_bounds(self.entries@, ids@[k as int], self.entries@.len() as int);
            }
            if found.len() == 0 {
                return Err(Error::TrailerIdNotFound(ids[k]));
            }
            let i = found[0];
            let e = &self.entries[i];
            if e.snd.metadata.reel != TRAILER_REEL || e.snd.metadata.encrypted {
                return Err(Error::NotATrailerId(ids[k]));
            }
            let ghost prev = out@;
            out.push(i);
            assert forall|j: int| 0 <= j < k implies #[trigger] out@[j] == prev[j] by {}
            assert(out@[k as int] == i);
            k += 1;
        }
        Ok(out)
    }

    /// The manifest of a trailers reel made of the selected entries, whose
    /// payloads (their files without the 92-byte header) have the lengths
    /// `lens`.
    pub fn trailer_manifest(&self, entries: &Vec<usize>, lens: &Vec<u64>) -> (r: Result<TrailersMetadata, Error>)
        requires
            entries@.len() == lens@.len(),
            forall|k: int| 0 <= k < entries@.len() ==> entries@[k] < self.entries@.len(),
        ensures
            r matches Ok(m) ==> m.entries@.len() == entries@.len() && forall|k: int|
                0 <= k < entries@.len() ==> trailer_line_made(
                    #[trigger] m.entries@[k],
                    self.entries@[entries@[k] as int],
                    lens@,
                    k,
                ),
            SND_HEADER_LEN + sum_before(lens@, lens@.len() as int) <= usize::MAX ==> r is Ok,
    {
        let mut out: Vec<TrailersMetadataTxtEntry> = Vec::new();
        let mut offset: u64 = SND_HEADER_LEN as u64;
        let mut k: usize = 0;
        while k < entries.len()
            invariant
                k <= entries@.len() == lens@.len(),
                forall|j: int| 0 <= j < entries@.len() ==> entries@[j] < self.entries@.len(),
                out@.len() == k,
                offset == SND_HEADER_LEN + sum_before(lens@, k as int),
                forall|j: int|
                    0 <= j < k ==> trailer_line_made(#[trigger] out@[j], self.entries@[entries@[j] as int], lens@, j),
            decreases entries@.len() - k,
        {
            proof {
                lemma_sum_before_monotone(lens@, k as int, lens@.len() as int);
            }
            if offset > usize::MAX as u64 || lens[k] / 3675 > usize::MAX as u64 {
                return Err(Error::TooLarge);
            }
            let e = &self.entries[entries[k]];
            out.push(
                TrailersMetadataTxtEntry {
                    title: e.snd.metadata.title.clone(),
                    id: e.snd.metadata.id,
                    start: 0,
                    end: (lens[k] / 3675) as usize,
                    offset: offset as usize,
                },
            );
            if lens[k] > u64::MAX - offset {
                return Err(Error::TooLarge);
            }
            offset = offset + lens[k];
            k += 1;
        }
        Ok(TrailersMetadata { entries: out })
    }
}

pub proof fn lemma_sum_before_nonneg(lens: Seq<u64>, k: int)
    requires
        k <= lens.len(),
    ensures
        sum_before(lens, k) >= 0,
    decreases k,
{
    if k > 0 {
        lemma_sum_before_nonneg(lens, k - 1);
    }
}

pub proof fn lemma_sum_before_monotone(lens: Seq<u64>, i: int, j: int)
    requires
        0 <= i <= j <= lens.len(),
    ensures
        sum_before(lens, i) + (if i < j { lens[i] as int } else { 0 }) <= sum_before(lens, j),
        sum_before(lens, i) >= 0,
    decreases j,
{
    lemma_sum_before_nonneg(lens, i);
    if i < j {
        if i < j - 1 {
            lemma_sum_before_monotone(lens, i, j - 1);
        }
    }
}

/// The last component of a path as bytes, or nothing.
pub open spec fn last_name(p: Seq<String>) -> Seq<u8> {
    if p.len() == 0 {
        Seq::empty()
    } else {
        encode_utf8(p.last()@)
    }
}

/// The lower-case stem of a path's last component.
fn stem_key_of(path: &Vec<String>) -> (r: Option<Vec<u8>>)
    ensures
        path@.len() == 0 ==> r is None,
        path@.len() > 0 ==> (r matches Some(k) && k@ == stem_key(last_name(path@))),
{
    if path.len() == 0 {
        return None;
    }
    let name = path[path.len() - 1].as_str().as_bytes();
    proof {
        lemma_last_dot_bounds(name@);
    }
    let stem = match crate::text::extension_dot(name) {
        Some(d) => slice_bytes(name, 0, d),
        None => slice_bytes(name, 0, name.len()),
    };
    proof {
        assert(name@.subrange(0, name@.len() as int) =~= name@);
    }
    Some(lowercase_bytes(&stem))
}

/// The entry is the header file of the sound file `snd`: its stem equals the
/// sound file's ignoring ASCII case, and its extension is `hdr`.
pub open spec fn hdr_match<D: DirEntry>(e: D, snd: Seq<String>) -> bool {
    &&& snd.len() > 0
    &&& e.entry_path().len() > 0
    &&& stem_key(encode_utf8(e.entry_path().last())) == stem_key(last_name(snd))
    &&& crate::detect::extension_is(e.entry_path(), "hdr"@)
}

/// The header file beside a sound file: the first entry whose stem matches
/// the sound file's, ignoring ASCII case, and whose extension is `hdr`. An
/// entry whose path cannot be read aborts the search.
fn get_hdr_from_snd<D: DirEntry>(entries: &Vec<D>, snd: &Vec<String>) -> (r: Result<
    Option<Vec<String>>,
    Error,
>)
    ensures
        r matches Ok(Some(p)) ==> exists|i: int|
            0 <= i < entries@.len() && path_view(p@) == entries@[i].entry_path() && #[trigger] hdr_match(
                entries@[i],
                snd@,
            ) && forall|j: int| 0 <= j < i ==> !hdr_match(#[trigger] entries@[j], snd@),
        r matches Ok(None) ==> forall|j: int| 0 <= j < entries@.len() ==> !hdr_match(#[trigger] entries@[j], snd@),
{
    let snd_stem = match stem_key_of(snd) {
        Some(k) => k,
        None => {
            return Ok(None);
        },
    };
    let mut i: usize = 0;
    while i < entries.len()
        invariant
            i <= entries@.len(),
            snd@.len() > 0,
            snd_stem@ == stem_key(last_name(snd@)),
            forall|j: int| 0 <= j < i ==> !hdr_match(#[trigger] entries@[j], snd@),
        decreases entries@.len() - i,
    {
        let p = entries[i].path()?;
        proof {
            assert(path_view(p@) == entries@[i as int].entry_path());
            if p@.len() > 0 {
                assert(path_view(p@).last() == p@.last()@);
            }
        }
        match stem_key_of(&p) {
            Some(stem) => {
                if bytes_eq(&stem, &snd_stem) && crate::detect::path_has_extension(&p, "hdr") {
                    assert(hdr_match(entries@[i as int], snd@));
                    return Ok(Some(p));
                }
            },
            None => {},
        }
        i += 1;
    }
    Ok(None)
}

/// Every entry is a sound file (extension `snd`).
pub open spec fn all_sound(es: Seq<EntryWithMetadata>) -> bool {
    forall|k: int| 0 <= k < es.len() ==> crate::detect::extension_is(
        path_view(#[trigger] es[k].snd.path@),
        "snd"@,
    )
}

/// The entry was made from the listing: its sound file is a listed entry
/// whose header decodes to its metadata, and its header file, if any, is
/// the first listed header file beside it, decoded.
pub open spec fn kept_entry<D: DirEntry>(e: EntryWithMetadata, entries: Seq<D>) -> bool {
    &&& exists|j: int| 0 <= j < entries.len() && path_view(e.snd.path@) == #[trigger] entries[j].entry_path()
    &&& exists|c: Seq<u8>| #[trigger] snd_decodable(c) && snd_describes(e.snd.metadata, c)
    &&& (e.hdr matches Some(h) ==> (exists|j: int|
        0 <= j < entries.len() && path_view(h.path@) == entries[j].entry_path() && #[trigger] hdr_match(
            entries[j],
            e.snd.path@,
        )) && exists|c: Seq<u8>| #[trigger] hdr_decodable(c) && hdr_describes(h.metadata, c))
}

/// Every entry was made from the listing.
pub open spec fn all_kept<D: DirEntry>(es: Seq<EntryWithMetadata>, entries: Seq<D>) -> bool {
    forall|k: int| 0 <= k < es.len() ==> kept_entry(#[trigger] es[k], entries)
}

/// Appends a sound file's entry to entries that are all sound files.
fn push_sound_entry<D: DirEntry>(out: &mut Vec<EntryWithMetadata>, e: EntryWithMetadata, entries: Ghost<Seq<D>>)
    requires
        crate::detect::extension_is(path_view(e.snd.path@), "snd"@),
        all_sound(old(out)@),
        kept_entry(e, entries@),
        all_kept(old(out)@, entries@),
    ensures
        final(out)@ == old(out)@.push(e),
        all_sound(final(out)@),
        all_kept(final(out)@, entries@),
{
    out.push(e);
    assert forall|k: int| 0 <= k < out@.len() implies kept_entry(#[trigger] out@[k], entries@) by {
        if k < old(out)@.len() {
            assert(out@[k] == old(out)@[k]);
        }
    }
    assert forall|k: int| 0 <= k < out@.len() implies crate::detect::extension_is(
        path_view(#[trigger] out@[k].snd.path@),
        "snd"@,
    ) by {
        if k < old(out)@.len() {
            assert(out@[k] == old(out)@[k]);
        }
    }
}

/// The sound files among the entries (extension `snd`) whose header
/// decodes, each with its header file where one beside it decodes; the
/// others are passed over.
pub fn build_files<FS: FileSystem>(fs: &mut FS, entries: &Vec<FS::DirEntry>) -> (r: Files)
    ensures
        all_sound(r.entries@),
        all_kept(r.entries@, entries@),
{
    let mut out: Vec<EntryWithMetadata> = Vec::new();
    let mut i: usize = 0;
    while i < entries.len()
        invariant
            i <= entries@.len(),
            all_sound(out@),
            all_kept(out@, entries@),
        decreases entries@.len() - i,
    {
        if let Ok(path) = entries[i].path() {
            if crate::detect::path_has_extension(&path, "snd") {
                if let Ok(mut snd_file) = fs.open_file(&path) {
                    let name = crate::detect::path_to_string(&path);
                    let ghost sc = snd_file.content();
                    if let Ok(metadata) = decode_snd_header_from_file(&mut snd_file, name.as_str()) {
                        let hdr = match get_hdr_from_snd(entries, &path) {
                            Ok(Some(hdr_path)) => {
                                match fs.open_file(&hdr_path) {
                                    Ok(mut hdr_file) => {
                                        let hdr_name = crate::detect::path_to_string(&hdr_path);
                                        let ghost hc = hdr_file.content();
                                        match decode_hdr_from_file(&mut hdr_file, hdr_name.as_str()) {
                                            Ok(m) => {
                                                assert(hdr_decodable(hc) && hdr_describes(m, hc));
                                                Some(HdrEntryWithMetadata { path: hdr_path, metadata: m })
                                            },
                                            Err(_) => None,
                                        }
                                    },
                                    Err(_) => None,
                                }
                            },
                            _ => None,
                        };
                        let e = EntryWithMetadata { hdr, snd: SndEntryWithMetadata { path, metadata } };
                        proof {
                            assert(path_view(e.snd.path@) == entries@[i as int].entry_path());
                            assert(snd_decodable(sc) && snd_describes(e.snd.metadata, sc));
                        }
                        push_sound_entry::<FS::DirEntry>(&mut out, e, Ghost(entries@));
                    }
                }
            }
        }
        i += 1;
    }
    Files { entries: out }
}

impl Files {
    /// The trailers reel made of the selected entries: the generic trailers
    /// header, their payloads in order and the manifest of them.
    pub fn convert_to_trailer_file<FS: FileSystem>(&self, fs: &mut FS, entries: &Vec<usize>) -> (r: Result<TrailerPlan, Error>)
        requires
            forall|k: int| 0 <= k < entries@.len() ==> entries@[k] < self.entries@.len(),
        ensures
            entries@.len() == 0 ==> r is Ok,
            r matches Ok(p) ==> is_generic_trailers_header(p.header_metadata) && p.header@
                == snd_header_bytes(p.header_metadata) && p.header@.len() == SND_HEADER_LEN,
            r matches Ok(p) ==> p.payload_lens@.len() == entries@.len() && forall|k: int|
                0 <= k < entries@.len() ==> trailer_line_made(
                    #[trigger] p.metadata.entries@[k],
                    self.entries@[entries@[k] as int],
                    p.payload_lens@,
                    k,
                ),
            r matches Ok(p) ==> p.sources@.len() == entries@.len() && p.metadata.entries@.len() == entries@.len()
                && p.manifest@ == crate::trailers::encoded_manifest(
                    p.metadata.entries@.map_values(|e: TrailersMetadataTxtEntry| crate::trailers::entry_view(e)),
                ) && forall|k: int| 0 <= k < entries@.len() ==> (#[trigger] p.sources@[k])@
                    == self.entries@[entries@[k] as int].snd.path@,
    {
        let generic = get_generic_trailers_header();
        if !snd_fits(&generic) {
            return Err(Error::Corrupt);
        }
        let header = encode_header(&generic);
        let mut lens: Vec<u64> = Vec::new();
        let mut sources: Vec<Vec<String>> = Vec::new();
        let mut k: usize = 0;
        while k < entries.len()
            invariant
                k <= entries@.len(),
                forall|j: int| 0 <= j < entries@.len() ==> entries@[j] < self.entries@.len(),
                lens@.len() == k,
                sources@.len() == k,
                forall|j: int| 0 <= j < k ==> (#[trigger] sources@[j])@ == self.entries@[entries@[j] as int].snd.path@,
            decreases entries@.len() - k,
        {
            let path = &self.entries[entries[k]].snd.path;
            let file = fs.open_file(path)?;
            let len = file.len();
            if len < SND_HEADER_LEN as u64 {
                return Err(Error::Corrupt);
            }
            lens.push(len - SND_HEADER_LEN as u64);
            let ghost prev = sources@;
            sources.push(crate::isofile::clone_path(path));
            assert forall|j: int| 0 <= j < k implies #[trigger] sources@[j] == prev[j] by {}
            k += 1;
        }
        proof {
            if entries@.len() == 0 {
                assert(sum_before(lens@, 0) == 0);
            }
        }
        let metadata = self.trailer_manifest(entries, &lens)?;
        let manifest = encode_trailers_txt(&metadata);
        Ok(TrailerPlan { header_metadata: generic, header, payload_lens: lens, sources, metadata, manifest })
    }
}

/// The copies that a plan makes for a feature: at least one, each the copy
/// of a sound file whose title, or id, is the one asked for.
pub open spec fn feature_planned(feature: Option<Feature>, p: ExtractPlan) -> bool {
    match feature {
        None => p.feature_copies@.len() == 0,
        Some(f) => p.feature_copies@.len() > 0 && forall|k: int|
            0 <= k < p.feature_copies@.len() ==> copy_for(#[trigger] p.feature_copies@[k], f),
    }
}

/// The entry has the title, or id, that the feature asks for.
pub open spec fn entry_selected(e: EntryWithMetadata, f: Feature) -> bool {
    match f {
        Feature::Name(n) => e.snd.metadata.title@ == n.name@,
        Feature::Id(i) => e.snd.metadata.id == i.id,
    }
}

/// The copy puts in place a sound file that the feature asks for.
pub open spec fn copy_for(c: FeatureCopy, f: Feature) -> bool {
    exists|e: EntryWithMetadata| copy_made(c, e) && entry_selected(e, f)
}

impl ExtractPlan {
    /// A plan that writes nothing.
    pub fn empty() -> (r: ExtractPlan)
        ensures
            r.feature_reels@.len() == 0,
            r.feature_copies@.len() == 0,
            r.trailers is None,
    {
        ExtractPlan { feature_reels: Vec::new(), feature_copies: Vec::new(), trailers: None }
    }
}

/// Plans an extraction from a plain directory's entries: the feature's
/// reels by title or id, and the trailers reel by titles or ids.
fn extract_from_regular_dir<FS: FileSystem>(
    fs: &mut FS,
    entries: &Vec<FS::DirEntry>,
    feature: &Option<Feature>,
    trailers: &Option<Trailers>,
) -> (r: Result<ExtractPlan, Error>)
    ensures
        feature is None ==> (r matches Ok(p) ==> p.feature_copies@.len() == 0),
        trailers is None ==> (r matches Ok(p) ==> p.trailers is None),
        trailers is Some ==> (r matches Ok(p) ==> p.trailers is Some),
        r matches Ok(p) ==> feature_planned(*feature, p),
{
    let files = build_files(fs, entries);
    let _n = files.entries.len();
    let mut plan = ExtractPlan::empty();
    match feature {
        Some(f) => {
            let selected = match f {
                Feature::Name(n) => files.find_entries_by_title(n.name.as_str()),
                Feature::Id(i) => files.find_entries_by_id(i.id),
            };
            proof {
                match f {
                    Feature::Name(n) => lemma_titled_bounds(files.entries@, n.name@, files.entries@.len() as int),
                    Feature::Id(i) => lemma_with_id_bounds(files.entries@, i.id, files.entries@.len() as int),
                }
            }
            let (reels, copies) = files.convert_to_feature_files(&selected)?;
            proof {
                assert forall|k: int| 0 <= k < copies@.len() implies copy_for(#[trigger] copies@[k], *f) by {
                    let e = files.entries@[selected@[k] as int];
                    assert(copy_made(copies@[k], e));
                    assert(entry_selected(e, *f));
                }
            }
            plan.feature_reels = reels;
            plan.feature_copies = copies;
            assert(feature_planned(*feature, plan));
        },
        None => {},
    }
    let ghost copies_made = plan.feature_copies;
    match trailers {
        Some(t) => {
            let selected = match t {
                Trailers::Names(n) => files.select_trailers_by_names(&n.names)?,
                Trailers::Ids(i) => files.select_trailers_by_ids(&i.ids)?,
            };
            proof {
                assert forall|k: int| 0 <= k < selected@.len() implies selected@[k] < files.entries@.len() by {
                    match t {
                        Trailers::Names(n) => {
                            lemma_titled_bounds(files.entries@, n.names@[k]@, files.entries@.len() as int);
                            assert(picked_by_title(files.entries@, n.names@[k]@, selected@[k]));
                        },
                        Trailers::Ids(i) => {
                            lemma_with_id_bounds(files.entries@, i.ids@[k], files.entries@.len() as int);
                            assert(picked_by_id(files.entries@, i.ids@[k], selected@[k]));
                        },
                    }
                }
            }
            plan.trailers = Some(files.convert_to_trailer_file(fs, &selected)?);
            assert(plan.feature_copies == copies_made);
        },
        None => {},
    }
    Ok(plan)
}

/// Plans an extraction from the directory `input`; a content disc's root is
/// not handled.
fn extract_from_dir<FS: FileSystem>(
    fs: &mut FS,
    input: &Vec<String>,
    feature: &Option<Feature>,
    trailers: &Option<Trailers>,
) -> (r: Result<ExtractPlan, Error>)
    ensures
        feature is None ==> (r matches Ok(p) ==> p.feature_copies@.len() == 0),
        trailers is None ==> (r matches Ok(p) ==> p.trailers is None),
        trailers is Some ==> (r matches Ok(p) ==> p.trailers is Some),
        r matches Ok(p) ==> feature_planned(*feature, p),
{
    let entries = fs.read_dir(input)?;
    match get_dir_type(fs, &entries)? {
        DirType::DiscTree(_) => Err(Error::Unsupported),
        DirType::Regular => extract_from_regular_dir(fs, &entries, feature, trailers),
    }
}

/// Plans what extraction from the directory `input` writes: the selected
/// feature's reels as copies, and the trailers reel.
pub fn extract_files<FS: FileSystem>(
    fs: &mut FS,
    input: &Vec<String>,
    feature: &Option<Feature>,
    trailers: &Option<Trailers>,
) -> (r: Result<ExtractPlan, Error>)
    ensures
        feature is None ==> (r matches Ok(p) ==> p.feature_copies@.len() == 0),
        trailers is None ==> (r matches Ok(p) ==> p.trailers is None),
        trailers is Some ==> (r matches Ok(p) ==> p.trailers is Some),
        r matches Ok(p) ==> feature_planned(*feature, p),
{
    if fs.is_dir(input) {
        extract_from_dir(fs, input, feature, trailers)
    } else {
        Err(
            Error::NotDirPath(
                crate::error::NotDirPathError {
                    file: String::new(),
                    path: crate::detect::path_to_string(input),
                },
            ),
        )
    }
}

} // verus!
