//! The archive extractor: streaming decoders and entry listings of the
//! supported archive formats behind trusted wrappers, platform-independent
//! path normalisation, and the verified matching of archive entries against
//! the per-binary patterns.

use vstd::prelude::*;
use crate::error::Error;
use crate::manifest::{ArchiveFormat, AssetType, BinaryInArchive, BinaryInArchiveView};
use crate::pattern::regex_match;
use crate::util::{join_iter, spec_join};
use vstd::string::StrSliceExecFns;
use vstd::pervasive::VecAdditionalExecFns;

verus! {

/// One entry of an archive: its path inside the archive, whether it is a
/// regular file, and its bytes.
#[derive(Debug)]
pub struct ArchiveEntry {
    pub path: String,
    pub is_file: bool,
    pub data: Vec<u8>,
}

pub struct ArchiveEntryView {
    pub path: Seq<char>,
    pub is_file: bool,
    pub data: Seq<u8>,
}

impl View for ArchiveEntry {
    type V = ArchiveEntryView;

    open spec fn view(&self) -> ArchiveEntryView {
        ArchiveEntryView { path: self.path@, is_file: self.is_file, data: self.data@ }
    }
}

impl DeepView for ArchiveEntry {
    type V = ArchiveEntryView;

    open spec fn deep_view(&self) -> ArchiveEntryView {
        self.view()
    }
}

// ---------------------------------------------------------------------------
// Trusted decoders and listers
// ---------------------------------------------------------------------------
/// The bytes that gzip decompression yields: a function of the compressed
/// bytes alone.
pub uninterp spec fn gz_plain(bytes: Seq<u8>) -> Seq<u8>;

/// Whether gzip decompression of these bytes succeeds: a function of the
/// compressed bytes alone.
pub uninterp spec fn gz_ok(bytes: Seq<u8>) -> bool;

/// The bytes that xz decompression yields: a function of the compressed
/// bytes alone.
pub uninterp spec fn xz_plain(bytes: Seq<u8>) -> Seq<u8>;

/// Whether xz decompression of these bytes succeeds: a function of the
/// compressed bytes alone.
pub uninterp spec fn xz_ok(bytes: Seq<u8>) -> bool;

/// The entries of a tar archive: a function of the archive bytes alone.
pub uninterp spec fn tar_entry_list(bytes: Seq<u8>) -> Seq<ArchiveEntryView>;

/// Whether listing these bytes as a tar archive succeeds: a function of the
/// bytes alone.
pub uninterp spec fn tar_ok(bytes: Seq<u8>) -> bool;

/// The entries of a zip archive: a function of the archive bytes alone.
pub uninterp spec fn zip_entry_list(bytes: Seq<u8>) -> Seq<ArchiveEntryView>;

/// Whether listing these bytes as a zip archive succeeds: a function of the
/// bytes alone.
pub uninterp spec fn zip_ok(bytes: Seq<u8>) -> bool;

/// Relies on `flate2::read::GzDecoder`: decompressing a gzip stream yields
/// bytes that depend on the compressed bytes alone.
#[verifier::external_body]
fn gz_decode(bytes: &[u8]) -> (r: Result<Vec<u8>, Error>)
    ensures
        r is Ok <==> gz_ok(bytes@),
        r matches Ok(v) ==> v@ == gz_plain(bytes@),
        r matches Err(e) ==> e is ArchiveOpenFailed,
{
    let mut out = Vec::new();
    match std::io::Read::read_to_end(
        &mut flate2::read::GzDecoder::new(std::io::Cursor::new(bytes)),
        &mut out,
    ) {
        Ok(_) => Ok(out),
        Err(e) => Err(Error::ArchiveOpenFailed { message: format!("gzip: {e}") }),
    }
}

/// Relies on `xz2::read::XzDecoder`: decompressing an xz stream yields bytes
/// that depend on the compressed bytes alone.
#[verifier::external_body]
fn xz_decode(bytes: &[u8]) -> (r: Result<Vec<u8>, Error>)
    ensures
        r is Ok <==> xz_ok(bytes@),
        r matches Ok(v) ==> v@ == xz_plain(bytes@),
        r matches Err(e) ==> e is ArchiveOpenFailed,
{
    let mut out = Vec::new();
    match std::io::Read::read_to_end(
        &mut xz2::read::XzDecoder::new(std::io::Cursor::new(bytes)),
        &mut out,
    ) {
        Ok(_) => Ok(out),
        Err(e) => Err(Error::ArchiveOpenFailed { message: format!("xz: {e}") }),
    }
}

/// Relies on `tar::Archive`: the entry paths, types and contents of a tar
/// archive depend on the archive bytes alone.
#[verifier::external_body]
fn tar_list(bytes: &[u8]) -> (r: Result<Vec<ArchiveEntry>, Error>)
    ensures
        r is Ok <==> tar_ok(bytes@),
        r matches Ok(v) ==> v.deep_view() == tar_entry_list(bytes@),
        r matches Err(e) ==> e is ArchiveOpenFailed,
{
    let mut archive = tar::Archive::new(std::io::Cursor::new(bytes));
    let mut out = Vec::new();
    let err = |e: std::io::Error| Error::ArchiveOpenFailed { message: format!("tar: {e}") };
    for entry in archive.entries().map_err(err)? {
        let mut entry = entry.map_err(err)?;
        let path = String::from_utf8_lossy(&entry.path_bytes()).into_owned();
        let is_file = entry.header().entry_type().is_file();
        let mut data = Vec::new();
        std::io::Read::read_to_end(&mut entry, &mut data).map_err(err)?;
        out.push(ArchiveEntry { path, is_file, data });
    }
    Ok(out)
}

/// Relies on `zip::ZipArchive`: the entry names, types and contents of a zip
/// archive depend on the archive bytes alone.
#[verifier::external_body]
fn zip_list(bytes: &[u8]) -> (r: Result<Vec<ArchiveEntry>, Error>)
    ensures
        r is Ok <==> zip_ok(bytes@),
        r matches Ok(v) ==> v.deep_view() == zip_entry_list(bytes@),
        r matches Err(e) ==> e is ArchiveOpenFailed,
{
    let err = |e: String| Error::ArchiveOpenFailed { message: format!("zip: {e}") };
    let mut archive =
        zip::ZipArchive::new(std::io::Cursor::new(bytes)).map_err(|e| err(e.to_string()))?;
    let mut out = Vec::new();
    for idx in 0..archive.len() {
        let mut entry = archive.by_index(idx).map_err(|e| err(e.to_string()))?;
        let path = entry.name().to_owned();
        let is_file = entry.is_file();
        let mut data = Vec::new();
        std::io::Read::read_to_end(&mut entry, &mut data).map_err(|e| err(e.to_string()))?;
        out.push(ArchiveEntry { path, is_file, data });
    }
    Ok(out)
}

/// The entries of an archive of the given format.
pub open spec fn spec_archive_entries(format: ArchiveFormat, bytes: Seq<u8>) -> Seq<
    ArchiveEntryView,
> {
    match format {
        ArchiveFormat::TarGz => tar_entry_list(gz_plain(bytes)),
        ArchiveFormat::TarXz => tar_entry_list(xz_plain(bytes)),
        ArchiveFormat::Zip => zip_entry_list(bytes),
    }
}

/// Whether these bytes decode and list as an archive of the given format.
pub open spec fn spec_archive_ok(format: ArchiveFormat, bytes: Seq<u8>) -> bool {
    match format {
        ArchiveFormat::TarGz => gz_ok(bytes) && tar_ok(gz_plain(bytes)),
        ArchiveFormat::TarXz => xz_ok(bytes) && tar_ok(xz_plain(bytes)),
        ArchiveFormat::Zip => zip_ok(bytes),
    }
}

/// A reader over the entries of a tar archive held in memory.
#[derive(Debug)]
pub struct TarReader {
    pub data: Vec<u8>,
}

impl TarReader {
    pub fn new(data: Vec<u8>) -> (r: Self)
        ensures
            r.data == data,
    {
        TarReader { data }
    }

    /// Lists the archive's entries, in order; this succeeds exactly when the
    /// bytes list as a tar archive.
    pub fn iter(&self) -> (r: Result<TarReaderIter, Error>)
        ensures
            r is Ok <==> tar_ok(self.data@),
            r matches Ok(it) ==> it.entries.deep_view() == tar_entry_list(self.data@) && it.pos
                == 0,
            r matches Err(e) ==> e is ArchiveOpenFailed,
    {
        match tar_list(self.data.as_slice()) {
            Ok(entries) => Ok(TarReaderIter { entries, pos: 0 }),
            Err(e) => Err(e),
        }
    }
}

/// A reader over the entries of a zip archive held in memory.
#[derive(Debug)]
pub struct ZipReader {
    pub data: Vec<u8>,
}

impl ZipReader {
    pub fn new(data: Vec<u8>) -> (r: Self)
        ensures
            r.data == data,
    {
        ZipReader { data }
    }

    /// Lists the archive's entries, in order; this succeeds exactly when the
    /// bytes list as a zip archive.
    pub fn iter(&self) -> (r: Result<ZipReaderIter, Error>)
        ensures
            r is Ok <==> zip_ok(self.data@),
            r matches Ok(it) ==> it.entries.deep_view() == zip_entry_list(self.data@) && it.pos
                == 0,
            r matches Err(e) ==> e is ArchiveOpenFailed,
    {
        match zip_list(self.data.as_slice()) {
            Ok(entries) => Ok(ZipReaderIter { entries, pos: 0 }),
            Err(e) => Err(e),
        }
    }
}

/// Walks the entries of a tar archive.
#[derive(Debug)]
pub struct TarReaderIter {
    pub entries: Vec<ArchiveEntry>,
    pub pos: usize,
}

impl TarReaderIter {
    /// The next entry, if any.
    pub fn next_file(&mut self) -> (r: Option<&ArchiveEntry>)
        ensures
            final(self).entries == old(self).entries,
            old(self).pos < old(self).entries@.len() ==> (final(self).pos == old(self).pos + 1
                && (r matches Some(e) && e == &old(self).entries@[old(self).pos as int])),
            old(self).pos >= old(self).entries@.len() ==> *final(self) == *old(self) && r is None,
    {
        if self.pos < self.entries.len() {
            let e = &self.entries[self.pos];
            self.pos = self.pos + 1;
            Some(e)
        } else {
            None
        }
    }
}

/// Walks the entries of a zip archive.
#[derive(Debug)]
pub struct ZipReaderIter {
    pub entries: Vec<ArchiveEntry>,
    pub pos: usize,
}

impl ZipReaderIter {
    /// The next entry, if any.
    pub fn next_file(&mut self) -> (r: Option<&ArchiveEntry>)
        ensures
            final(self).entries == old(self).entries,
            old(self).pos < old(self).entries@.len() ==> (final(self).pos == old(self).pos + 1
                && (r matches Some(e) && e == &old(self).entries@[old(self).pos as int])),
            old(self).pos >= old(self).entries@.len() ==> *final(self) == *old(self) && r is None,
    {
        if self.pos < self.entries.len() {
            let e = &self.entries[self.pos];
            self.pos = self.pos + 1;
            Some(e)
        } else {
            None
        }
    }
}

// ---------------------------------------------------------------------------
// Path normalisation
// ---------------------------------------------------------------------------
/// One step of splitting a path on `/`: finished segments plus the segment
/// being read.
pub open spec fn split_step(acc: (Seq<Seq<char>>, Seq<char>), c: char) -> (Seq<Seq<char>>, Seq<
    char,
>) {
    if c == '/' {
        (acc.0.push(acc.1), Seq::empty())
    } else {
        (acc.0, acc.1.push(c))
    }
}

/// Splitting a path on `/`, folded over its characters.
pub open spec fn split_fold(s: Seq<char>) -> (Seq<Seq<char>>, Seq<char>)
    decreases s.len(),
{
    if s.len() == 0 {
        (Seq::empty(), Seq::empty())
    } else {
        split_step(split_fold(s.drop_last()), s.last())
    }
}

/// The `/`-separated segments of a path.
pub open spec fn path_segments(s: Seq<char>) -> Seq<Seq<char>> {
    split_fold(s).0.push(split_fold(s).1)
}

/// Resolves the segments of a path: empty segments and `.` are dropped, and
/// `..` pops one resolved segment, never escaping above the root.
pub open spec fn normalize_segments(segs: Seq<Seq<char>>) -> Seq<Seq<char>>
    decreases segs.len(),
{
    if segs.len() == 0 {
        Seq::empty()
    } else {
        let rest = normalize_segments(segs.drop_last());
        let last = segs.last();
        if last.len() == 0 || last == seq!['.'] {
            rest
        } else if last == seq!['.', '.'] {
            if rest.len() > 0 {
                rest.drop_last()
            } else {
                rest
            }
        } else {
            rest.push(last)
        }
    }
}

/// The platform-independent normal form of an archive entry path.
pub open spec fn spec_simplify_path(s: Seq<char>) -> Seq<char> {
    spec_join(normalize_segments(path_segments(s)), seq!['/'])
}

/// Normalises an archive entry path: splits on `/`, drops empty and `.`
/// segments, resolves `..` by popping one segment without ever escaping
/// above the root, and joins the result with `/` separators.
pub fn simplify_path(path: &str) -> (r: String)
    ensures
        r@ == spec_simplify_path(path@),
{
    let len = path.unicode_len();
    let mut segments: Vec<String> = Vec::new();
    let mut cur = String::new();
    let mut i: usize = 0;
    while i < len
        invariant
            0 <= i <= len,
            len == path@.len(),
            segments.deep_view() == split_fold(path@.take(i as int)).0,
            cur@ == split_fold(path@.take(i as int)).1,
        decreases len - i,
    {
        let c = path.get_char(i);
        proof {
            assert(path@.take(i + 1).drop_last() =~= path@.take(i as int));
            assert(path@.take(i + 1).last() == path@[i as int]);
        }
        if c == '/' {
            let ghost segs0 = segments.deep_view();
            segments.push(cur);
            cur = String::new();
            proof {
                assert(segments.deep_view() =~= segs0.push(split_fold(path@.take(i as int)).1));
            }
        } else {
            crate::util::push_char(&mut cur, c);
        }
        i += 1;
    }
    proof {
        assert(path@.take(len as int) =~= path@);
    }
    let ghost raw_segs = segments.deep_view();
    segments.push(cur);
    proof {
        assert(segments.deep_view() =~= path_segments(path@));
    }

    let mut out: Vec<String> = Vec::new();
    let n = segments.len();
    let mut k: usize = 0;
    while k < n
        invariant
            0 <= k <= n,
            n == segments@.len(),
            segments.deep_view() == path_segments(path@),
            out.deep_view() == normalize_segments(segments.deep_view().take(k as int)),
        decreases n - k,
    {
        let seg = &segments[k];
        proof {
            assert(segments.deep_view().take(k + 1).drop_last() =~= segments.deep_view().take(
                k as int,
            ));
            assert(segments.deep_view().take(k + 1).last() == segments@[k as int]@);
            reveal_strlit(".");
            reveal_strlit("..");
            assert("."@ =~= seq!['.']);
            assert(".."@ =~= seq!['.', '.']);
        }
        let ghost out0 = out.deep_view();
        if seg.as_str().unicode_len() == 0 || crate::util::str_eq(seg.as_str(), ".") {
            // dropped
        } else if crate::util::str_eq(seg.as_str(), "..") {
            if out.len() > 0 {
                let _ = out.pop();
                proof {
                    assert(out.deep_view() =~= out0.drop_last());
                }
            }
        } else {
            out.push(seg.clone());
            proof {
                assert(out.deep_view() =~= out0.push(segments@[k as int]@));
            }
        }
        k += 1;
    }
    proof {
        assert(segments.deep_view().take(n as int) =~= segments.deep_view());
        reveal_strlit("/");
        assert("/"@ =~= seq!['/']);
        assert(out@.map_values(|s: String| s@) =~= out.deep_view());
    }
    join_iter(&out, "/")
}

// ---------------------------------------------------------------------------
// Matching entries against patterns
// ---------------------------------------------------------------------------
/// Whether an archive entry is matched by a per-binary pattern: only regular
/// files match, against the normalised entry path.
pub open spec fn entry_matches(e: ArchiveEntryView, f: BinaryInArchiveView) -> bool {
    e.is_file && regex_match(f.path_matcher, spec_simplify_path(e.path))
}

/// The normalised paths of all entries, the diagnostic listing.
pub open spec fn spec_listing(entries: Seq<ArchiveEntryView>) -> Seq<Seq<char>> {
    entries.map_values(|e: ArchiveEntryView| spec_simplify_path(e.path))
}

/// The views of the per-binary patterns.
pub open spec fn files_views(files: Seq<BinaryInArchive>) -> Seq<BinaryInArchiveView> {
    files.map_values(|f: BinaryInArchive| f@)
}

/// No entry of the archive is matched by this pattern.
pub open spec fn no_entry_matches(entries: Seq<ArchiveEntryView>, f: BinaryInArchiveView) -> bool {
    forall|t: int| 0 <= t < entries.len() ==> !entry_matches(#[trigger] entries[t], f)
}

/// A correct extraction plan: for every pattern the index of the single
/// entry it matches, no entry being claimed by two patterns.
pub open spec fn extraction_plan_ok(
    entries: Seq<ArchiveEntryView>,
    files: Seq<BinaryInArchiveView>,
    picks: Seq<usize>,
) -> bool {
    &&& picks.len() == files.len()
    &&& forall|i: int|
        0 <= i < files.len() ==> (#[trigger] picks[i]) < entries.len() && entry_matches(
            entries[picks[i] as int],
            files[i],
        )
    &&& forall|i: int, e: int|
        0 <= i < files.len() && 0 <= e < entries.len() && entry_matches(
            #[trigger] entries[e],
            #[trigger] files[i],
        ) ==> picks[i] == e
    &&& forall|i1: int, i2: int|
        0 <= i1 < i2 < files.len() ==> #[trigger] picks[i1] != #[trigger] picks[i2]
}

/// Matches every archive entry against every per-binary pattern.
///
/// Each pattern must match exactly one regular-file entry, and each entry at
/// most one pattern: a pattern matching two entries is
/// `PatternMatchedMultiple`, an entry matched by two patterns
/// `EntryMatchedByMultiplePatterns`, and a pattern matching nothing
/// `PatternMatchedNothing`, carrying the listing of all normalised entry
/// paths.
pub fn plan_extraction(entries: &Vec<ArchiveEntry>, files: &Vec<BinaryInArchive>) -> (r: Result<
    Vec<usize>,
    Error,
>)
    ensures
        match r {
            Ok(picks) => extraction_plan_ok(entries.deep_view(), files_views(files@), picks@),
            Err(e) => {
                &&& (e matches Error::PatternMatchedNothing { listing, .. } ==> listing.deep_view()
                    == spec_listing(entries.deep_view()) && exists|i: int|
                    #![trigger files_views(files@)[i]]
                    0 <= i < files@.len() && no_entry_matches(
                        entries.deep_view(),
                        files_views(files@)[i],
                    ))
                &&& (e is PatternMatchedMultiple ==> exists|i: int, e1: int, e2: int|
                    #![trigger entries.deep_view()[e1], entries.deep_view()[e2], files_views(files@)[i]]
                    0 <= i < files@.len() && 0 <= e1 < e2 < entries.deep_view().len()
                        && entry_matches(entries.deep_view()[e1], files_views(files@)[i])
                        && entry_matches(entries.deep_view()[e2], files_views(files@)[i]))
                &&& (e is EntryMatchedByMultiplePatterns ==> exists|i1: int, i2: int, t: int|
                    #![trigger files_views(files@)[i1], files_views(files@)[i2], entries.deep_view()[t]]
                    0 <= i1 < i2 < files@.len() && 0 <= t < entries.deep_view().len()
                        && entry_matches(entries.deep_view()[t], files_views(files@)[i1])
                        && entry_matches(entries.deep_view()[t], files_views(files@)[i2]))
                &&& (e is PatternMatchedNothing || e is PatternMatchedMultiple
                    || e is EntryMatchedByMultiplePatterns)
            },
        },
{
    let ghost ev = entries.deep_view();
    let ghost fv = files_views(files@);
    let n_entries = entries.len();
    let n_files = files.len();

    // The normalised path of every entry, for matching and diagnostics.
    let mut listing: Vec<String> = Vec::new();
    let mut t: usize = 0;
    while t < n_entries
        invariant
            0 <= t <= n_entries,
            n_entries == entries@.len(),
            ev == entries.deep_view(),
            listing@.len() == t,
            forall|j: int| 0 <= j < t ==> (#[trigger] listing@[j])@ == spec_simplify_path(ev[j].path),
        decreases n_entries - t,
    {
        proof {
            assert(ev[t as int] == entries@[t as int]@);
        }
        listing.push(simplify_path(entries[t].path.as_str()));
        t += 1;
    }

    let mut picks: Vec<Option<usize>> = Vec::new();
    let mut i: usize = 0;
    while i < n_files
        invariant
            0 <= i <= n_files,
            picks@.len() == i,
            forall|j: int| 0 <= j < i ==> (#[trigger] picks@[j]) is None,
        decreases n_files - i,
    {
        picks.push(None);
        i += 1;
    }

    let mut t: usize = 0;
    while t < n_entries
        invariant
            0 <= t <= n_entries,
            n_entries == entries@.len(),
            n_files == files@.len(),
            ev == entries.deep_view(),
            fv == files_views(files@),
            picks@.len() == n_files,
            listing@.len() == n_entries,
            forall|j: int|
                0 <= j < n_entries ==> (#[trigger] listing@[j])@ == spec_simplify_path(ev[j].path),
            forall|i2: int|
                0 <= i2 < n_files ==> match #[trigger] picks@[i2] {
                    Some(e) => e < t && entry_matches(ev[e as int], fv[i2]) && (forall|e2: int|
                        0 <= e2 < t && e2 != e ==> !entry_matches(#[trigger] ev[e2], fv[i2])),
                    None => forall|e2: int| 0 <= e2 < t ==> !entry_matches(#[trigger] ev[e2], fv[i2]),
                },
            forall|i1: int, i2: int|
                0 <= i1 < n_files && 0 <= i2 < n_files && i1 != i2 && (#[trigger] picks@[i1]) is Some
                    && (#[trigger] picks@[i2]) is Some ==> picks@[i1] != picks@[i2],
        decreases n_entries - t,
    {
        let entry = &entries[t];
        proof {
            assert(ev[t as int] == entries@[t as int]@);
        }
        let mut i: usize = 0;
        while i < n_files
            invariant
                0 <= i <= n_files,
                0 <= t < n_entries,
                n_entries == entries@.len(),
                n_files == files@.len(),
                ev == entries.deep_view(),
                fv == files_views(files@),
                entry == &entries@[t as int],
                ev[t as int] == entries@[t as int]@,
                picks@.len() == n_files,
                listing@.len() == n_entries,
                forall|j: int|
                    0 <= j < n_entries ==> (#[trigger] listing@[j])@ == spec_simplify_path(
                        ev[j].path,
                    ),
                forall|i2: int|
                    i <= i2 < n_files ==> match #[trigger] picks@[i2] {
                        Some(e) => e < t && entry_matches(ev[e as int], fv[i2]) && (forall|e2: int|
                            0 <= e2 < t && e2 != e ==> !entry_matches(#[trigger] ev[e2], fv[i2])),
                        None => forall|e2: int|
                            0 <= e2 < t ==> !entry_matches(#[trigger] ev[e2], fv[i2]),
                    },
                forall|i2: int|
                    0 <= i2 < i ==> match #[trigger] picks@[i2] {
                        Some(e) => e <= t && entry_matches(ev[e as int], fv[i2]) && (forall|e2: int|
                            0 <= e2 < t + 1 && e2 != e ==> !entry_matches(#[trigger] ev[e2], fv[i2])),
                        None => forall|e2: int|
                            0 <= e2 < t + 1 ==> !entry_matches(#[trigger] ev[e2], fv[i2]),
                    },
                forall|i1: int, i2: int|
                    0 <= i1 < n_files && 0 <= i2 < n_files && i1 != i2 && (#[trigger] picks@[i1]) is Some
                        && (#[trigger] picks@[i2]) is Some ==> picks@[i1] != picks@[i2],
            decreases n_files - i,
        {
            let file = &files[i];
            proof {
                assert(fv[i as int] == files@[i as int]@);
            }
            let is_match = entry.is_file && file.path_matcher.is_match(listing[t].as_str());
            proof {
                assert(listing@[t as int]@ == spec_simplify_path(ev[t as int].path));
                assert(is_match == entry_matches(ev[t as int], fv[i as int]));
            }
            if is_match {
                match picks[i] {
                    Some(prev) => {
                        proof {
                            assert(files_views(files@) == fv && entries.deep_view() == ev);
                            assert(0 <= i < files@.len() && 0 <= prev < t < ev.len()
                                && entry_matches(ev[prev as int], files_views(files@)[i as int])
                                && entry_matches(ev[t as int], files_views(files@)[i as int]));
                        }
                        return Err(
                            Error::PatternMatchedMultiple {
                                pattern: crate::util::copy_str(file.path_matcher.source()),
                                first: listing[prev].clone(),
                                second: listing[t].clone(),
                            },
                        );
                    },
                    None => {},
                }
                // Another pattern may already have claimed this entry.
                let mut i2: usize = 0;
                while i2 < n_files
                    invariant
                        0 <= i2 <= n_files,
                        0 <= i < n_files,
                        0 <= t < n_entries,
                        n_files == files@.len(),
                        n_entries == entries@.len(),
                        ev == entries.deep_view(),
                        fv == files_views(files@),
                        picks@.len() == n_files,
                        listing@.len() == n_entries,
                        entry_matches(ev[t as int], fv[i as int]),
                        forall|j: int|
                            0 <= j < n_files && #[trigger] picks@[j] == Some(t as usize) ==> j
                                < i && entry_matches(ev[t as int], fv[j]),
                        forall|j: int|
                            0 <= j < i2 ==> #[trigger] picks@[j] != Some(t as usize)
                                || j == i as int,
                    decreases n_files - i2,
                {
                    if i2 != i {
                        match picks[i2] {
                            Some(other) => {
                                if other == t {
                                    proof {
                                        assert(files_views(files@) == fv && entries.deep_view()
                                            == ev);
                                        assert(entry_matches(
                                            ev[t as int],
                                            files_views(files@)[i2 as int],
                                        ));
                                        assert(entry_matches(
                                            ev[t as int],
                                            files_views(files@)[i as int],
                                        ));
                                        assert(i2 < i);
                                    }
                                    return Err(
                                        Error::EntryMatchedByMultiplePatterns {
                                            path: listing[t].clone(),
                                            first: crate::util::copy_str(
                                                files[if i2 < i {
                                                    i2
                                                } else {
                                                    i
                                                }].path_matcher.source(),
                                            ),
                                            second: crate::util::copy_str(
                                                files[if i2 < i {
                                                    i
                                                } else {
                                                    i2
                                                }].path_matcher.source(),
                                            ),
                                        },
                                    );
                                }
                            },
                            None => {},
                        }
                    }
                    i2 += 1;
                }
                picks.set(i, Some(t));
            }
            i += 1;
        }
        t += 1;
    }

    // Every pattern must have matched something.
    let mut out: Vec<usize> = Vec::new();
    let mut i: usize = 0;
    while i < n_files
        invariant
            0 <= i <= n_files,
            n_files == files@.len(),
            n_entries == entries@.len(),
            ev == entries.deep_view(),
            fv == files_views(files@),
            picks@.len() == n_files,
            listing@.len() == n_entries,
            forall|j: int|
                0 <= j < n_entries ==> (#[trigger] listing@[j])@ == spec_simplify_path(ev[j].path),
            forall|i2: int|
                0 <= i2 < n_files ==> match #[trigger] picks@[i2] {
                    Some(e) => e < n_entries && entry_matches(ev[e as int], fv[i2]) && (forall|
                        e2: int,
                    |
                        0 <= e2 < n_entries && e2 != e ==> !entry_matches(#[trigger] ev[e2], fv[i2])),
                    None => forall|e2: int|
                        0 <= e2 < n_entries ==> !entry_matches(#[trigger] ev[e2], fv[i2]),
                },
            forall|i1: int, i2: int|
                0 <= i1 < n_files && 0 <= i2 < n_files && i1 != i2 && (#[trigger] picks@[i1]) is Some
                    && (#[trigger] picks@[i2]) is Some ==> picks@[i1] != picks@[i2],
            out@.len() == i,
            forall|j: int| 0 <= j < i ==> Some(#[trigger] out@[j]) == picks@[j],
        decreases n_files - i,
    {
        match picks[i] {
            Some(e) => {
                out.push(e);
            },
            None => {
                proof {
                    assert(listing.deep_view() =~= spec_listing(ev));
                    assert(files_views(files@) == fv && entries.deep_view() == ev);
                    assert(no_entry_matches(ev, files_views(files@)[i as int]));
                }
                return Err(
                    Error::PatternMatchedNothing {
                        pattern: crate::util::copy_str(files[i].path_matcher.source()),
                        listing,
                    },
                );
            },
        }
        i += 1;
    }
    proof {
        assert(files_views(files@) == fv && entries.deep_view() == ev);
    }
    Ok(out)
}

/// One staged binary: the filename it will carry in the binary directory and
/// its bytes.
#[derive(Debug)]
pub struct ItemToCopy {
    pub bin_name: String,
    pub data: Vec<u8>,
}

pub struct ItemToCopyView {
    pub bin_name: Seq<char>,
    pub data: Seq<u8>,
}

impl View for ItemToCopy {
    type V = ItemToCopyView;

    open spec fn view(&self) -> ItemToCopyView {
        ItemToCopyView { bin_name: self.bin_name@, data: self.data@ }
    }
}

/// Extracts the binaries of one downloaded asset.
///
/// A plain binary asset is the binary itself, placed under its `copy_as`
/// name. An archive asset is decoded by its format — `ArchiveOpenFailed`
/// comes exactly when decoding fails — its entries are matched against the
/// per-binary patterns, and each pattern's single matching entry is staged
/// under the pattern's `copy_as` name; every matching error certifies its
/// violation.
pub fn extract_asset(asset_data: &Vec<u8>, content: &AssetType) -> (r: Result<Vec<ItemToCopy>, Error>)
    ensures
        match content@ {
            crate::manifest::AssetTypeView::Binary { copy_as } => r matches Ok(v) && v@.len() == 1
                && v@[0]@.bin_name == copy_as && v@[0]@.data == asset_data@,
            crate::manifest::AssetTypeView::Archive { format, files } => {
                match r {
                    Ok(v) => exists|picks: Seq<usize>|
                        {
                            &&& extraction_plan_ok(
                                spec_archive_entries(format, asset_data@),
                                files,
                                picks,
                            )
                            &&& v@.len() == files.len()
                            &&& forall|i: int|
                                0 <= i < files.len() ==> (#[trigger] v@[i])@.bin_name
                                    == files[i].copy_as && v@[i]@.data == spec_archive_entries(
                                    format,
                                    asset_data@,
                                )[picks[i] as int].data
                        },
                    Err(e) => {
                        &&& (e is ArchiveOpenFailed || e is PatternMatchedNothing
                            || e is PatternMatchedMultiple || e is EntryMatchedByMultiplePatterns)
                        &&& (e is ArchiveOpenFailed <==> !spec_archive_ok(format, asset_data@))
                        &&& (e matches Error::PatternMatchedNothing { listing, .. }
                            ==> listing.deep_view() == spec_listing(
                            spec_archive_entries(format, asset_data@),
                        ) && exists|i: int|
                            #![trigger files[i]]
                            0 <= i < files.len() && no_entry_matches(
                                spec_archive_entries(format, asset_data@),
                                files[i],
                            ))
                        &&& (e is PatternMatchedMultiple ==> exists|i: int, e1: int, e2: int|
                            #![trigger files[i], spec_archive_entries(format, asset_data@)[e1], spec_archive_entries(format, asset_data@)[e2]]
                            0 <= i < files.len() && 0 <= e1 < e2 < spec_archive_entries(
                                format,
                                asset_data@,
                            ).len() && entry_matches(
                                spec_archive_entries(format, asset_data@)[e1],
                                files[i],
                            ) && entry_matches(
                                spec_archive_entries(format, asset_data@)[e2],
                                files[i],
                            ))
                        &&& (e is EntryMatchedByMultiplePatterns ==> exists|i1: int, i2: int, t: int|
                            #![trigger files[i1], files[i2], spec_archive_entries(format, asset_data@)[t]]
                            0 <= i1 < i2 < files.len() && 0 <= t < spec_archive_entries(
                                format,
                                asset_data@,
                            ).len() && entry_matches(
                                spec_archive_entries(format, asset_data@)[t],
                                files[i1],
                            ) && entry_matches(
                                spec_archive_entries(format, asset_data@)[t],
                                files[i2],
                            ))
                    },
                }
            },
        },
{
    match content {
        AssetType::Binary { copy_as } => {
            let item = ItemToCopy { bin_name: copy_as.clone(), data: asset_data.clone() };
            proof {
                assert(item.data@ =~= asset_data@);
            }
            Ok(vec![item])
        },
        AssetType::Archive { format, files } => {
            let entries: Vec<ArchiveEntry> = match format {
                ArchiveFormat::TarGz => {
                    let plain = match gz_decode(asset_data.as_slice()) {
                        Ok(p) => p,
                        Err(e) => {
                            return Err(e);
                        },
                    };
                    match tar_list(plain.as_slice()) {
                        Ok(entries) => entries,
                        Err(e) => {
                            return Err(e);
                        },
                    }
                },
                ArchiveFormat::TarXz => {
                    let plain = match xz_decode(asset_data.as_slice()) {
                        Ok(p) => p,
                        Err(e) => {
                            return Err(e);
                        },
                    };
                    match tar_list(plain.as_slice()) {
                        Ok(entries) => entries,
                        Err(e) => {
                            return Err(e);
                        },
                    }
                },
                ArchiveFormat::Zip => {
                    match zip_list(asset_data.as_slice()) {
                        Ok(entries) => entries,
                        Err(e) => {
                            return Err(e);
                        },
                    }
                },
            };
            proof {
                assert(entries.deep_view() == spec_archive_entries(*format, asset_data@));
                assert(spec_archive_ok(*format, asset_data@));
            }
            let picks = match plan_extraction(&entries, files) {
                Ok(picks) => picks,
                Err(e) => {
                    proof {
                        assert(!(e is ArchiveOpenFailed));
                        assert(files_views(files@) == (match content@ {
                            crate::manifest::AssetTypeView::Archive { files: fv2, .. } => fv2,
                            _ => arbitrary(),
                        }));
                    }
                    return Err(e);
                },
            };
            let mut out: Vec<ItemToCopy> = Vec::new();
            let n = files.len();
            let mut i: usize = 0;
            while i < n
                invariant
                    0 <= i <= n,
                    n == files@.len(),
                    picks@.len() == files@.len(),
                    entries.deep_view() == spec_archive_entries(*format, asset_data@),
                    extraction_plan_ok(entries.deep_view(), files_views(files@), picks@),
                    out@.len() == i,
                    forall|j: int|
                        0 <= j < i ==> (#[trigger] out@[j])@.bin_name == files_views(files@)[j].copy_as
                            && out@[j]@.data == entries.deep_view()[picks@[j] as int].data,
                decreases n - i,
            {
                let e = picks[i];
                proof {
                    assert(files_views(files@)[i as int] == files@[i as int]@);
                    assert(entries.deep_view()[e as int] == entries@[e as int]@);
                }
                out.push(
                    ItemToCopy {
                        bin_name: files[i].copy_as.clone(),
                        data: entries[e].data.clone(),
                    },
                );
                proof {
                    assert(out@[i as int]@.data =~= entries.deep_view()[e as int].data);
                }
                i += 1;
            }
            proof {
                let ghost fv2 = files_views(files@);
                assert(content@ matches crate::manifest::AssetTypeView::Archive { files: cf, .. }
                    ==> cf =~= fv2);
            }
            Ok(out)
        },
    }
}

} // verus!
