//! Reading release archives: which entries they hold, and what unpacking each
//! of them takes.
use vstd::prelude::*;

use crate::apple::{EntryPath, ExtractStep, step_views, entry_steps, zip_entry_steps};
use crate::android::{pair_list_views, android_targets, android_library_targets};
use crate::text::views;

verus! {

/// One entry of a zip archive: its name as a path, if the name stays inside
/// the archive (`ZipFile::enclosed_name`), whether it is a directory, and
/// whether it is a plain file.
pub struct ZipEntryInfo {
    pub name: Option<String>,
    pub is_dir: bool,
    pub is_file: bool,
}

/// An entry with its name as text.
pub open spec fn entry_view(e: ZipEntryInfo) -> (Option<Seq<char>>, bool, bool) {
    (
        match e.name {
            Some(n) => Some(n@),
            None => None,
        },
        e.is_dir,
        e.is_file,
    )
}

pub open spec fn entry_views(v: Seq<ZipEntryInfo>) -> Seq<(Option<Seq<char>>, bool, bool)> {
    v.map_values(|e: ZipEntryInfo| entry_view(e))
}

/// The entries of the zip archive `archive`, in the order of its central
/// directory, as the `zip` crate reads them; `None` when it cannot.
pub uninterp spec fn zip_listing(archive: Seq<u8>) -> Option<Seq<(Option<Seq<char>>, bool, bool)>>;

/// The decompressed data of entry `i` of the zip archive `archive`, as the
/// `zip` crate reads it; `None` when it cannot.
pub uninterp spec fn zip_entry_bytes(archive: Seq<u8>, i: usize) -> Option<Seq<u8>>;

/// The components of a path, as `Path::components` splits it, each as text.
pub uninterp spec fn path_components_of(p: Seq<char>) -> Seq<Seq<char>>;

/// `zip::ZipArchive::new` on the bytes, then for each entry (`by_index`) its
/// `enclosed_name` as text, `is_dir` and `is_file`. What these are is left to
/// the name `zip_listing`.
#[verifier::external_body]
fn list_zip_entries(archive: &[u8]) -> (res: Option<Vec<ZipEntryInfo>>)
    ensures
        match res {
            Some(v) => zip_listing(archive@) == Some(entry_views(v@)),
            None => zip_listing(archive@) is None,
        },
{
    let mut zip = match zip::ZipArchive::new(std::io::Cursor::new(archive)) {
        Ok(z) => z,
        Err(_) => return None,
    };
    let mut res = Vec::new();
    for i in 0..zip.len() {
        let entry = match zip.by_index(i) {
            Ok(e) => e,
            Err(_) => return None,
        };
        let name = entry.enclosed_name().map(|p| p.to_string_lossy().into_owned());
        res.push(ZipEntryInfo { name, is_dir: entry.is_dir(), is_file: entry.is_file() });
    }
    Some(res)
}

/// `zip::ZipArchive::new` on the bytes, then `by_index(i)` read to its end:
/// the decompressed data of entry `i`. What it is is left to the name
/// `zip_entry_bytes`.
#[verifier::external_body]
fn read_zip_entry(archive: &[u8], i: usize) -> (res: Option<Vec<u8>>)
    ensures
        match res {
            Some(d) => zip_entry_bytes(archive@, i) == Some(d@),
            None => zip_entry_bytes(archive@, i) is None,
        },
{
    let mut zip = zip::ZipArchive::new(std::io::Cursor::new(archive)).ok()?;
    let mut entry = zip.by_index(i).ok()?;
    let mut data = Vec::new();
    std::io::Read::read_to_end(&mut entry, &mut data).ok()?;
    Some(data)
}

/// `Path::components` on `p`, each component as text. What they are is left
/// to the name `path_components_of`.
#[verifier::external_body]
fn path_components(p: &str) -> (res: Vec<String>)
    ensures
        views(res@) == path_components_of(p@),
{
    std::path::Path::new(p).components().map(|c| c.as_os_str().to_string_lossy().into_owned()).collect()
}

/// The decompressed data of entry `i` of the zip archive `archive`; `None`
/// when it cannot be read.
pub fn entry_data(archive: &[u8], i: usize) -> (res: Option<Vec<u8>>)
    ensures
        match res {
            Some(d) => zip_entry_bytes(archive@, i) == Some(d@),
            None => zip_entry_bytes(archive@, i) is None,
        },
{
    read_zip_entry(archive, i)
}

/// What unpacking one listed entry into `out` takes (see `entry_steps`):
/// nothing for an entry whose name leaves the archive.
pub open spec fn listed_entry_steps(
    e: (Option<Seq<char>>, bool, bool),
    out: Seq<char>,
    debug_build: bool,
) -> Seq<crate::apple::StepView> {
    match e.0 {
        None => seq![],
        Some(name) => entry_steps(name, path_components_of(name), e.1, out, debug_build),
    }
}

/// What unpacking a release archive into `output_path` takes, entry by entry
/// in the order of the archive: the entry's index and its steps (see
/// `entry_steps`). `None` when the archive cannot be read.
pub fn unpack_plan(archive: &[u8], output_path: &str, debug_build: bool) -> (res: Option<
    Vec<(usize, Vec<ExtractStep>)>,
>)
    ensures
        match zip_listing(archive@) {
            None => res is None,
            Some(es) => res matches Some(v) && v@.len() == es.len() && forall|i: int|
                0 <= i < es.len() ==> #[trigger] v@[i].0 == i && step_views(v@[i].1@)
                    == listed_entry_steps(es[i], output_path@, debug_build),
        },
{
    let entries = match list_zip_entries(archive) {
        None => return None,
        Some(v) => v,
    };
    let ghost es = entry_views(entries@);
    let mut res: Vec<(usize, Vec<ExtractStep>)> = Vec::new();
    let mut i: usize = 0;
    while i < entries.len()
        invariant
            i <= entries@.len(),
            es == entry_views(entries@),
            res@.len() == i,
            forall|j: int|
                0 <= j < i ==> #[trigger] res@[j].0 == j && step_views(res@[j].1@)
                    == listed_entry_steps(es[j], output_path@, debug_build),
        decreases entries@.len() - i,
    {
        let e = &entries[i];
        let steps = match &e.name {
            None => Vec::new(),
            Some(name) => {
                let path = EntryPath { text: name.clone(), components: path_components(name.as_str()) };
                zip_entry_steps(Some(&path), e.is_dir, output_path, debug_build)
            },
        };
        assert(step_views(steps@) == listed_entry_steps(es[i as int], output_path@, debug_build));
        res.push((i, steps));
        i = i + 1;
    }
    Some(res)
}

/// Where unpacking one listed entry of the Android archive under `dest` puts
/// its data (see `android_targets`): nothing unless the entry is a plain file
/// whose name stays inside the archive.
pub open spec fn listed_android_targets(e: (Option<Seq<char>>, bool, bool), dest: Seq<char>) -> Seq<
    (Seq<char>, Seq<char>),
> {
    match e.0 {
        Some(name) => if e.2 {
            android_targets(name, dest)
        } else {
            seq![]
        },
        None => seq![],
    }
}

/// Where unpacking the Android archive under `dest` puts each entry's data,
/// entry by entry in the order of the archive: the entry's index and its
/// (directory, file) pairs. `None` when the archive cannot be read.
pub fn android_unpack_plan(aar: &[u8], dest: &str) -> (res: Option<Vec<(usize, Vec<(String, String)>)>>)
    ensures
        match zip_listing(aar@) {
            None => res is None,
            Some(es) => res matches Some(v) && v@.len() == es.len() && forall|i: int|
                0 <= i < es.len() ==> #[trigger] v@[i].0 == i && pair_list_views(v@[i].1@)
                    == listed_android_targets(es[i], dest@),
        },
{
    let entries = match list_zip_entries(aar) {
        None => return None,
        Some(v) => v,
    };
    let ghost es = entry_views(entries@);
    let mut res: Vec<(usize, Vec<(String, String)>)> = Vec::new();
    let mut i: usize = 0;
    while i < entries.len()
        invariant
            i <= entries@.len(),
            es == entry_views(entries@),
            res@.len() == i,
            forall|j: int|
                0 <= j < i ==> #[trigger] res@[j].0 == j && pair_list_views(res@[j].1@)
                    == listed_android_targets(es[j], dest@),
        decreases entries@.len() - i,
    {
        let e = &entries[i];
        let targets = match &e.name {
            Some(name) => if e.is_file {
                android_library_targets(name.as_str(), dest)
            } else {
                Vec::new()
            },
            None => Vec::new(),
        };
        assert(pair_list_views(targets@) == listed_android_targets(es[i as int], dest@));
        res.push((i, targets));
        i = i + 1;
    }
    Some(res)
}

} // verus!
