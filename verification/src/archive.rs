//! Extracting a downloaded archive: which files and directories it puts where.
use crate::paths::{
    bare_drive, is_sep, is_windows, join_path, len_of_volume, main_sep, on_windows, path_join, sep,
    volume_len,
};
use crate::text::{is_empty, opt_text, same, split, split_text, texts, to_chars};
use vstd::prelude::*;

verus! {

/// One entry of an archive.
pub struct ZipEntry {
    /// Its path, where the archive's reader takes it for one that stays inside the directory it
    /// is extracted into.
    pub path: Option<String>,
    pub is_dir: bool,
    pub unix_mode: Option<u32>,
    /// Its contents, as far as they could be decompressed.
    pub contents: Vec<u8>,
    /// Why they could not be decompressed to the end.
    pub failure: Option<String>,
}

/// The model of an entry.
pub struct EntryView {
    pub path: Option<Seq<char>>,
    pub is_dir: bool,
    pub unix_mode: Option<u32>,
    pub contents: Seq<u8>,
    pub failure: Option<Seq<char>>,
}

impl ZipEntry {
    pub open spec fn view(self) -> EntryView {
        EntryView {
            path: opt_text(self.path),
            is_dir: self.is_dir,
            unix_mode: self.unix_mode,
            contents: self.contents@,
            failure: opt_text(self.failure),
        }
    }
}

/// How deep a path ends below its start, or `None` where it ever rises above it.
pub open spec fn depth(parts: Seq<Seq<char>>) -> Option<int>
    decreases parts.len(),
{
    if parts.len() == 0 {
        Some(0)
    } else {
        match depth(parts.drop_last()) {
            None => None,
            Some(d) => if parts.last() == ".."@ {
                if d > 0 {
                    Some(d - 1)
                } else {
                    None
                }
            } else if parts.last().len() == 0 || parts.last() == "."@ {
                Some(d)
            } else {
                Some(d + 1)
            },
        }
    }
}

proof fn lemma_depth_is_lost(parts: Seq<Seq<char>>, n: int)
    requires
        0 <= n <= parts.len(),
        depth(parts.take(n)) is None,
    ensures
        depth(parts) is None,
    decreases parts.len(),
{
    if n == parts.len() {
        assert(parts.take(n) =~= parts);
    } else {
        assert(parts.drop_last().take(n) =~= parts.take(n));
        lemma_depth_is_lost(parts.drop_last(), n);
    }
}

/// A path with a slash for each of its separators.
pub open spec fn slashed(path: Seq<char>, os: Seq<char>) -> Seq<char> {
    path.map_values(
        |c: char|
            if is_sep(c, os) {
                '/'
            } else {
                c
            },
    )
}

/// A relative path that never leaves the directory it starts in, as the operating system reads
/// it.
pub open spec fn stays_inside(path: Seq<char>, os: Seq<char>) -> bool {
    &&& path.len() == 0 || !is_sep(path[0], os)
    &&& volume_len(path, os) == 0
    &&& depth(split(slashed(path, os), '/')) is Some
}

/// Whether a relative path never leaves the directory it starts in.
pub fn is_enclosed(path: &str, os: &str) -> (res: bool)
    ensures
        res == stays_inside(path@, os@),
{
    let c = to_chars(path);
    let windows = on_windows(os);
    if len_of_volume(c.as_slice(), os) > 0 || (c.len() > 0 && sep(c[0], windows)) {
        return false;
    }
    let ghost want = slashed(path@, os@);
    let mut plain: Vec<char> = Vec::new();
    for i in 0..c.len()
        invariant
            c@ == path@,
            windows == is_windows(os@),
            want == slashed(path@, os@),
            plain@ == want.take(i as int),
    {
        let one = if sep(c[i], windows) {
            '/'
        } else {
            c[i]
        };
        plain.push(one);
        assert(plain@ =~= want.take(i + 1));
    }
    assert(want.take(c@.len() as int) =~= want);
    let parts = split_text(plain.as_slice(), '/');
    let ghost all = texts(parts@);
    let mut d: usize = 0;
    for i in 0..parts.len()
        invariant
            all == texts(parts@),
            all == split(want, '/'),
            d <= i,
            depth(all.take(i as int)) == Some(d as int),
            want == slashed(path@, os@),
    {
        let part = parts[i].as_str();
        assert(all.take(i + 1).drop_last() =~= all.take(i as int));
        assert(all.take(i + 1).last() == part@);
        if same(part, "..") {
            if d == 0 {
                proof {
                    lemma_depth_is_lost(all, i + 1);
                }
                return false;
            }
            d = d - 1;
        } else if !is_empty(part) && !same(part, ".") {
            d = d + 1;
        }
    }
    assert(all.take(parts@.len() as int) =~= all);
    true
}

/// How many entries an archive has, or why it cannot be opened.
pub uninterp spec fn zip_len(data: Seq<u8>) -> Result<int, Seq<char>>;

/// An entry of an archive, or why it cannot be read.
pub uninterp spec fn zip_entry(data: Seq<u8>, index: int) -> Result<EntryView, Seq<char>>;

/// The model of what reading an entry gives.
pub open spec fn entry_view(e: Result<ZipEntry, String>) -> Result<EntryView, Seq<char>> {
    match e {
        Ok(e) => Ok(e@),
        Err(cause) => Err(cause@),
    }
}

/// `zip::ZipArchive::new` and `len` on the bytes of an archive, named [`zip_len`]: the number
/// of its entries, or the text of the crate's error where the bytes are no archive.
#[verifier::external_body]
fn archive_len(data: &[u8]) -> (res: Result<usize, String>)
    ensures
        zip_len(data@) == match res {
            Ok(n) => Ok::<int, Seq<char>>(n as int),
            Err(cause) => Err(cause@),
        },
{
    zip::ZipArchive::new(std::io::Cursor::new(data)).map(|a| a.len()).map_err(|e| e.to_string())
}

/// `zip::ZipArchive::by_index` with the entry's `enclosed_name`, `is_dir`, `unix_mode` and
/// decompressed bytes, named [`zip_entry`], or the text of the crate's error. Where the bytes
/// cannot be decompressed to the end, those that could be stand beside the text of that error.
/// What `enclosed_name` takes for a path that stays inside is left unsaid: it reads separators as
/// the system does that the crate was built for.
#[verifier::external_body]
fn archive_entry(data: &[u8], index: usize) -> (res: Result<ZipEntry, String>)
    ensures
        entry_view(res) == zip_entry(data@, index as int),
{
    let cursor = std::io::Cursor::new(data);
    let mut archive = zip::ZipArchive::new(cursor).map_err(|e| e.to_string())?;
    let mut entry = archive.by_index(index).map_err(|e| e.to_string())?;
    let mut contents: Vec<u8> = Vec::new();
    let read = std::io::Read::read_to_end(&mut entry, &mut contents);
    Ok(
        ZipEntry {
            path: entry.enclosed_name().map(|p| p.to_string_lossy().into_owned()),
            is_dir: entry.is_dir(),
            unix_mode: entry.unix_mode(),
            contents,
            failure: read.err().map(|e| e.to_string()),
        },
    )
}

/// What extracting one entry does.
pub enum ExtractStep {
    /// The entry's path is unsafe: it is passed over.
    Skip,
    /// Create this directory.
    Directory(String),
    /// Write this file, and give it this mode where there is one.
    File { path: String, mode: Option<u32>, contents: Vec<u8> },
    /// Write this file, which is all that there is of it, and give up with this message.
    Broken { path: String, contents: Vec<u8>, message: String },
}

/// Whether a step is what an entry asks for.
pub open spec fn is_step(step: ExtractStep, entry: EntryView, dest: Seq<char>, os: Seq<char>) -> bool {
    match entry.path {
        Some(rel) => if !stays_inside(rel, os) {
            step is Skip
        } else if entry.is_dir {
            step matches ExtractStep::Directory(p) && p@ == path_join(dest, rel, os)
        } else {
            match entry.failure {
                None => {
                    &&& step matches ExtractStep::File { path, mode, contents }
                    &&& path@ == path_join(dest, rel, os)
                    &&& mode == entry.unix_mode
                    &&& contents@ == entry.contents
                },
                Some(cause) => {
                    &&& step matches ExtractStep::Broken { path, contents, message }
                    &&& path@ == path_join(dest, rel, os)
                    &&& contents@ == entry.contents
                    &&& message@ == "failed to write "@ + path@ + ": "@ + cause
                },
            }
        },
        None => step is Skip,
    }
}

/// How many entries there are to extract.
pub fn open_archive(data: &[u8]) -> (res: Result<usize, String>)
    ensures
        match zip_len(data@) {
            Ok(n) => res is Ok && res->Ok_0 == n,
            Err(cause) => res is Err && res->Err_0@ == "failed to open downloaded zip: "@ + cause,
        },
{
    match archive_len(data) {
        Ok(n) => Ok(n),
        Err(cause) => {
            let mut e = "failed to open downloaded zip: ".to_owned();
            e.append(cause.as_str());
            Err(e)
        },
    }
}

/// What the entry at `index` asks for. Nothing is ever written outside `dest`.
pub fn extract_zip(data: &[u8], index: usize, dest: &str, os: &str) -> (res: Result<
    ExtractStep,
    String,
>)
    ensures
        match zip_len(data@) {
            Err(cause) => res is Err && res->Err_0@ == "failed to open downloaded zip: "@ + cause,
            Ok(_) => match zip_entry(data@, index as int) {
                Err(cause) => res is Err && res->Err_0@ == "failed to read zip entry: "@ + cause,
                Ok(entry) => res is Ok && is_step(res->Ok_0, entry, dest@, os@),
            },
        },
{
    match open_archive(data) {
        Ok(_) => {},
        Err(e) => {
            return Err(e);
        },
    }
    match archive_entry(data, index) {
        Ok(entry) => Ok(extract_entry(entry, dest, os)),
        Err(cause) => {
            let mut e = "failed to read zip entry: ".to_owned();
            e.append(cause.as_str());
            Err(e)
        },
    }
}

/// What an entry asks for: nothing where its path leaves the directory it starts in, else a
/// directory or a file below `dest`.
pub fn extract_entry(entry: ZipEntry, dest: &str, os: &str) -> (res: ExtractStep)
    ensures
        is_step(res, entry@, dest@, os@),
        entry.path is None ==> res is Skip,
        entry.path matches Some(rel) ==> {
            let to = path_join(dest@, rel@, os@);
            &&& !stays_inside(rel@, os@) ==> res is Skip
            &&& stays_inside(rel@, os@) && entry.is_dir ==> (res matches ExtractStep::Directory(p)
                && p@ == to)
            &&& stays_inside(rel@, os@) && !entry.is_dir && entry.failure is None ==> (
            res matches ExtractStep::File { path, mode, contents } && path@ == to && mode
                == entry.unix_mode && contents@ == entry.contents@)
            &&& stays_inside(rel@, os@) && !entry.is_dir && entry.failure is Some ==> (
            res matches ExtractStep::Broken { path, contents, message } && path@ == to && contents@
                == entry.contents@ && message@ == "failed to write "@ + to + ": "@
                + entry.failure.unwrap()@)
        },
{
    let rel = match entry.path {
        Some(p) => p,
        None => {
            return ExtractStep::Skip;
        },
    };
    if !is_enclosed(rel.as_str(), os) {
        return ExtractStep::Skip;
    }
    let path = join_path(dest, rel.as_str(), os);
    if entry.is_dir {
        return ExtractStep::Directory(path);
    }
    match entry.failure {
        None => ExtractStep::File { path, mode: entry.unix_mode, contents: entry.contents },
        Some(cause) => {
            let mut message = "failed to write ".to_owned();
            message.append(path.as_str());
            message.append(": ");
            message.append(cause.as_str());
            ExtractStep::Broken { path, contents: entry.contents, message }
        },
    }
}

// -- laws ------------------------------------------------------------------------------
/// The path that a step writes to.
pub open spec fn written_path(step: ExtractStep) -> Option<Seq<char>> {
    match step {
        ExtractStep::Skip => None,
        ExtractStep::Directory(path) => Some(path@),
        ExtractStep::File { path, .. } => Some(path@),
        ExtractStep::Broken { path, .. } => Some(path@),
    }
}

/// Whatever is extracted lands below the destination: it is written to the destination, a
/// separator and a path that never rises above its start.
pub proof fn law_extraction_stays_below_destination(
    step: ExtractStep,
    entry: EntryView,
    dest: Seq<char>,
    os: Seq<char>,
)
    requires
        is_step(step, entry, dest, os),
        dest.len() > 0,
        !is_sep(dest.last(), os),
        !bare_drive(dest, os),
    ensures
        written_path(step) matches Some(path) ==> entry.path matches Some(rel) && stays_inside(
            rel,
            os,
        ) && path == dest + main_sep(os) + rel,
{
}

/// How a path rises and falls: a name goes one deeper, `..` one back, which loses the path where
/// it was at its start, and `.` or nothing stays.
pub proof fn law_depth_of_a_path(parts: Seq<Seq<char>>, p: Seq<char>)
    ensures
        depth(Seq::<Seq<char>>::empty()) == Some(0int),
        depth(parts) is None ==> depth(parts.push(p)) is None,
        depth(parts) matches Some(d) ==> ({
            &&& d >= 0
            &&& p == ".."@ && d > 0 ==> depth(parts.push(p)) == Some(d - 1)
            &&& p == ".."@ && d == 0 ==> depth(parts.push(p)) is None
            &&& p != ".."@ && (p.len() == 0 || p == "."@) ==> depth(parts.push(p)) == Some(d)
            &&& p != ".."@ && p.len() > 0 && p != "."@ ==> depth(parts.push(p)) == Some(d + 1)
        }),
    decreases parts.len(),
{
    reveal_strlit("..");
    assert(".."@.len() == 2);
    assert(parts.push(p).drop_last() =~= parts);
    if parts.len() > 0 {
        law_depth_of_a_path(parts.drop_last(), parts.last());
        assert(parts.drop_last().push(parts.last()) =~= parts);
    }
}

/// Which paths stay inside: those that are relative, name no volume, and never rise above where
/// they start, component by component.
pub proof fn law_paths_that_stay_inside(path: Seq<char>, os: Seq<char>, i: int)
    ensures
        path.len() > 0 && is_sep(path[0], os) ==> !stays_inside(path, os),
        volume_len(path, os) > 0 ==> !stays_inside(path, os),
        depth(split(slashed(path, os), '/')) is None ==> !stays_inside(path, os),
        (path.len() == 0 || !is_sep(path[0], os)) && volume_len(path, os) == 0 && depth(
            split(slashed(path, os), '/'),
        ) is Some ==> stays_inside(path, os),
        slashed(path, os).len() == path.len(),
        0 <= i < path.len() && is_sep(path[i], os) ==> slashed(path, os)[i] == '/',
        0 <= i < path.len() && !is_sep(path[i], os) ==> slashed(path, os)[i] == path[i],
{
}

/// The model of an entry is its fields.
pub proof fn law_entry_models(e: ZipEntry)
    ensures
        e@.path == opt_text(e.path),
        e@.is_dir == e.is_dir,
        e@.unix_mode == e.unix_mode,
        e@.contents == e.contents@,
        e@.failure == opt_text(e.failure),
{
}

/// What an entry asks for: nothing without a path that stays inside, else a directory, a file,
/// or what there is of one, at its path below the destination.
pub proof fn law_steps_of_an_entry(step: ExtractStep, entry: EntryView, dest: Seq<char>, os: Seq<char>)
    requires
        is_step(step, entry, dest, os),
    ensures
        step is Skip <==> entry.path is None || !stays_inside(entry.path.unwrap(), os),
        step is Directory <==> entry.path is Some && stays_inside(entry.path.unwrap(), os)
            && entry.is_dir,
        written_path(step) matches Some(p) ==> p == path_join(dest, entry.path.unwrap(), os),
        step matches ExtractStep::File { path, mode, contents } ==> mode == entry.unix_mode
            && contents@ == entry.contents && entry.failure is None,
        step matches ExtractStep::Broken { path, contents, message } ==> contents@ == entry.contents
            && entry.failure is Some && message@ == "failed to write "@ + path@ + ": "@
            + entry.failure.unwrap(),
{
}

} // verus!
