//! The Apple prebuilt binaries: where they are published, what a release
//! holds, and which parts of its archives are kept.
use vstd::prelude::*;

use crate::manifest::{pair_views, distinct_keys};
use crate::paths::{version_text, version_tag, version_string, version_tag_string};
use crate::text::{
    is_tag_pattern, starts_at_boundary, lemma_replace_all_prefix, lemma_replace_all_word,
    lemma_replace_all_plain, occurs_at,
    contains, replace_all, views, join_slash, same_text, str_contains, chars_of, replace_chars,
    string_of, join_with_slash,
};

verus! {

/// Where the Apple binaries of every release are published.
pub const BASE_URL: &'static str = "https://ossci-ios.s3.amazonaws.com/executorch/";

/// One binary of a release: its file name, its address and its checksum.
#[derive(Debug)]
pub struct BinaryPayload {
    pub name: String,
    pub url: String,
    pub expected_sha: String,
}

/// The three architecture directories of an Apple release.
pub open spec fn architecture_names() -> Seq<Seq<char>> {
    seq!["ios-arm64-simulator"@, "macos-arm64"@, "ios-arm64"@]
}

/// `name` is one of the architecture directories.
pub open spec fn is_architecture(name: Seq<char>) -> bool {
    architecture_names().contains(name)
}

/// The architecture directory names, each once.
pub fn architectures() -> (res: Vec<String>)
    ensures
        res@.map_values(|s: String| s@) == architecture_names(),
{
    let mut res: Vec<String> = Vec::new();
    res.push(String::from_str("ios-arm64-simulator"));
    res.push(String::from_str("macos-arm64"));
    res.push(String::from_str("ios-arm64"));
    assert(res@.map_values(|s: String| s@) =~= architecture_names());
    res
}

/// `out_dir/arch` for each architecture directory `arch`, in the order of
/// `architecture_names`.
pub fn architecture_dirs(out_dir: &str) -> (res: Vec<String>)
    ensures
        res@.len() == 3,
        forall|i: int|
            0 <= i < 3 ==> #[trigger] res@[i]@ == out_dir@ + "/"@ + architecture_names()[i],
{
    let names = architectures();
    assert(names@.map_values(|s: String| s@).len() == names@.len());
    let mut res: Vec<String> = Vec::new();
    let mut i: usize = 0;
    while i < names.len()
        invariant
            i <= names@.len(),
            names@.len() == 3,
            names@.map_values(|s: String| s@) == architecture_names(),
            res@.len() == i,
            forall|j: int|
                0 <= j < i ==> #[trigger] res@[j]@ == out_dir@ + "/"@ + architecture_names()[j],
        decreases names@.len() - i,
    {
        let mut d = out_dir.to_owned();
        d.append("/");
        d.append(names[i].as_str());
        assert(names@.map_values(|s: String| s@)[i as int] == names@[i as int]@);
        res.push(d);
        i = i + 1;
    }
    res
}

/// `pb/executorch_binaries/xt_a_b_c`, where the binaries of release `a.b.c`
/// are unpacked.
pub fn binaries_dir(pb: &str, a: u8, b: u8, c: u8) -> (res: String)
    ensures
        res@ == pb@ + "/executorch_binaries/xt_"@ + version_tag(a, b, c),
{
    let mut res = pb.to_owned();
    res.append("/executorch_binaries/xt_");
    res.append(version_tag_string(a, b, c).as_str());
    res
}

/// The address of the Swift package manifest of release `a.b.c`.
pub fn manifest_url(a: u8, b: u8, c: u8) -> (res: String)
    ensures
        res@ == "https://raw.githubusercontent.com/pytorch/executorch/refs/heads/swiftpm-"@
            + version_text(a, b, c) + "/Package.swift"@,
{
    let mut res = String::from_str(
        "https://raw.githubusercontent.com/pytorch/executorch/refs/heads/swiftpm-",
    );
    res.append(version_string(a, b, c).as_str());
    res.append("/Package.swift");
    res
}

/// The file name of binary `key` of release `a.b.c`: `key-a.b.c.zip`.
pub open spec fn payload_file_name(key: Seq<char>, a: u8, b: u8, c: u8) -> Seq<char> {
    key + "-"@ + version_text(a, b, c) + ".zip"@
}

/// The payload of one manifest entry of release `a.b.c`.
pub open spec fn payload_matches(
    p: BinaryPayload,
    key: Seq<char>,
    sha: Seq<char>,
    a: u8,
    b: u8,
    c: u8,
) -> bool {
    &&& p.name@ == payload_file_name(key, a, b, c)
    &&& p.url@ == BASE_URL@ + payload_file_name(key, a, b, c)
    &&& p.expected_sha@ == sha
}

/// The binaries of release `a.b.c`, one for each (key, checksum) entry of its
/// manifest, in the order of the entries: `key-a.b.c.zip`, published under
/// `BASE_URL`, with that checksum. Distinct keys give distinct file names.
pub fn binary_payloads(checksums: &Vec<(String, String)>, a: u8, b: u8, c: u8) -> (res: Vec<
    BinaryPayload,
>)
    ensures
        res@.len() == checksums@.len(),
        forall|i: int|
            0 <= i < res@.len() ==> payload_matches(
                #[trigger] res@[i],
                checksums@[i].0@,
                checksums@[i].1@,
                a,
                b,
                c,
            ),
        distinct_keys(pair_views(checksums@)) ==> forall|i: int, j: int|
            0 <= i < res@.len() && 0 <= j < res@.len() && i != j ==> #[trigger] res@[i].name@
                != #[trigger] res@[j].name@,
{
    let version = version_string(a, b, c);
    let mut res: Vec<BinaryPayload> = Vec::new();
    let mut i: usize = 0;
    while i < checksums.len()
        invariant
            i <= checksums@.len(),
            version@ == version_text(a, b, c),
            res@.len() == i,
            forall|j: int|
                0 <= j < i ==> payload_matches(
                    #[trigger] res@[j],
                    checksums@[j].0@,
                    checksums@[j].1@,
                    a,
                    b,
                    c,
                ),
        decreases checksums@.len() - i,
    {
        let mut name = checksums[i].0.clone();
        name.append("-");
        name.append(version.as_str());
        name.append(".zip");
        let mut url = String::from_str(BASE_URL);
        url.append(name.as_str());
        let expected_sha = checksums[i].1.clone();
        res.push(BinaryPayload { name, url, expected_sha });
        i = i + 1;
    }
    proof {
        if distinct_keys(pair_views(checksums@)) {
            assert forall|i: int, j: int|
                0 <= i < res@.len() && 0 <= j < res@.len() && i != j implies #[trigger] res@[i].name@
                != #[trigger] res@[j].name@ by {
                let ki = checksums@[i].0@;
                let kj = checksums@[j].0@;
                let tail = "-"@ + version_text(a, b, c) + ".zip"@;
                assert(pair_views(checksums@)[i].0 == ki);
                assert(pair_views(checksums@)[j].0 == kj);
                assert(ki != kj);
                assert(res@[i].name@ =~= ki + tail);
                assert(res@[j].name@ =~= kj + tail);
                if ki + tail == kj + tail {
                    assert((ki + tail).subrange(0, ki.len() as int) =~= ki);
                    assert((kj + tail).subrange(0, kj.len() as int) =~= kj);
                    assert(ki.len() == kj.len());
                }
            }
        }
    }
    res
}


/// What to do with one entry of a release archive.
#[derive(Debug, Clone, PartialEq, Eq)]
pub enum ExtractStep {
    /// Create this directory and any missing parents.
    CreateDirAll(String),
    /// Write the entry's data into a new file at this path.
    CopyTo(String),
    /// Print this line.
    Report(String),
}

/// An `ExtractStep` with its paths as text.
pub enum StepView {
    CreateDirAll(Seq<char>),
    CopyTo(Seq<char>),
    Report(Seq<char>),
}

impl View for ExtractStep {
    type V = StepView;

    open spec fn view(&self) -> StepView {
        match self {
            ExtractStep::CreateDirAll(p) => StepView::CreateDirAll(p@),
            ExtractStep::CopyTo(p) => StepView::CopyTo(p@),
            ExtractStep::Report(p) => StepView::Report(p@),
        }
    }
}

/// The views of a list of steps.
pub open spec fn step_views(v: Seq<ExtractStep>) -> Seq<StepView> {
    v.map_values(|s: ExtractStep| s@)
}

/// The name of an archive entry as a path: the text of the name, and its
/// components as `Path::components` splits it.
pub struct EntryPath {
    pub text: String,
    pub components: Vec<String>,
}

/// The architecture an entry belongs to: the last of its components that
/// names an architecture directory.
pub open spec fn arch_of(comps: Seq<Seq<char>>) -> Option<Seq<char>>
    decreases comps.len(),
{
    if comps.len() == 0 {
        None
    } else if is_architecture(comps.last()) {
        Some(comps.last())
    } else {
        arch_of(comps.drop_last())
    }
}

/// The components from the first `Headers` one on, that one included; none if
/// no component is `Headers`.
pub open spec fn header_tail(comps: Seq<Seq<char>>) -> Seq<Seq<char>>
    decreases comps.len(),
{
    if comps.len() == 0 {
        seq![]
    } else if comps[0] == "Headers"@ {
        comps
    } else {
        header_tail(comps.drop_first())
    }
}

/// A component that names a static library of the wanted build: it holds
/// `.a`, and holds `debug` exactly when a debug build is wanted.
pub open spec fn is_library_component(c: Seq<char>, debug_build: bool) -> bool {
    contains(c, ".a"@) && (contains(c, "debug"@) == debug_build)
}

/// The file name a library is kept under: its component without `_debug`,
/// `_simulator`, `_ios` and `_macos` (removed in that order).
pub open spec fn library_file_name(c: Seq<char>) -> Seq<char> {
    replace_all(
        replace_all(
            replace_all(replace_all(c, "_debug"@, ""@), "_simulator"@, ""@),
            "_ios"@,
            ""@,
        ),
        "_macos"@,
        ""@,
    )
}

/// A path that names a C or C++ source or header: it holds `.c`, `.h`, `.cpp`
/// or `.hpp`.
pub open spec fn is_source_path(p: Seq<char>) -> bool {
    contains(p, ".c"@) || contains(p, ".h"@) || contains(p, ".cpp"@) || contains(p, ".hpp"@)
}

/// For each library component, in order: copy the entry to
/// `out/arch/<library file name>`, then report `arch/<component>`.
pub open spec fn library_steps(
    comps: Seq<Seq<char>>,
    arch: Seq<char>,
    out: Seq<char>,
    debug_build: bool,
) -> Seq<StepView>
    decreases comps.len(),
{
    if comps.len() == 0 {
        seq![]
    } else {
        library_steps(comps.drop_last(), arch, out, debug_build) + if is_library_component(
            comps.last(),
            debug_build,
        ) {
            seq![
                StepView::CopyTo(out + "/"@ + arch + "/"@ + library_file_name(comps.last())),
                StepView::Report(arch + "/"@ + comps.last()),
            ]
        } else {
            seq![]
        }
    }
}

/// What becomes of an archive entry whose name is `text` with components
/// `comps`, when unpacking into `out`. Nothing is kept of an entry outside
/// every architecture directory. Of a directory, the part from `Headers` on
/// is created under `out/arch`. Of a file, each static library of the wanted
/// build is copied to `out/arch` under its plain file name, and a source or
/// header file is copied to `out/arch` under its part from `Headers` on.
pub open spec fn entry_steps(
    text: Seq<char>,
    comps: Seq<Seq<char>>,
    is_dir: bool,
    out: Seq<char>,
    debug_build: bool,
) -> Seq<StepView> {
    match arch_of(comps) {
        None => seq![],
        Some(arch) => {
            let headers = out + "/"@ + arch + "/"@ + join_slash(header_tail(comps));
            if is_dir {
                seq![StepView::CreateDirAll(headers)]
            } else {
                library_steps(comps, arch, out, debug_build) + if is_source_path(text) {
                    seq![StepView::CopyTo(headers)]
                } else {
                    seq![]
                }
            }
        },
    }
}

fn is_architecture_exec(name: &str) -> (res: bool)
    ensures
        res == is_architecture(name@),
{
    let r = same_text(name, "ios-arm64-simulator") || same_text(name, "macos-arm64") || same_text(
        name,
        "ios-arm64",
    );
    assert(architecture_names()[0] == "ios-arm64-simulator"@);
    assert(architecture_names()[1] == "macos-arm64"@);
    assert(architecture_names()[2] == "ios-arm64"@);
    r
}

fn arch_of_exec(comps: &Vec<String>) -> (res: Option<String>)
    ensures
        match arch_of(views(comps@)) {
            None => res is None,
            Some(a) => res matches Some(r) && r@ == a,
        },
{
    let mut found: Option<String> = None;
    let mut i: usize = 0;
    while i < comps.len()
        invariant
            i <= comps@.len(),
            match arch_of(views(comps@).take(i as int)) {
                None => found is None,
                Some(a) => found matches Some(r) && r@ == a,
            },
        decreases comps@.len() - i,
    {
        let ghost before = views(comps@).take(i as int);
        if is_architecture_exec(comps[i].as_str()) {
            found = Some(comps[i].clone());
        }
        i = i + 1;
        proof {
            let now = views(comps@).take(i as int);
            assert(now.drop_last() =~= before);
            assert(now.last() == comps@[i - 1]@);
        }
    }
    assert(views(comps@).take(comps@.len() as int) =~= views(comps@));
    found
}

fn header_tail_exec(comps: &Vec<String>) -> (res: Vec<String>)
    ensures
        views(res@) == header_tail(views(comps@)),
{
    let mut i: usize = 0;
    assert(views(comps@).skip(0) =~= views(comps@));
    while i < comps.len() && !same_text(comps[i].as_str(), "Headers")
        invariant
            i <= comps@.len(),
            header_tail(views(comps@)) == header_tail(views(comps@).skip(i as int)),
        decreases comps@.len() - i,
    {
        assert(views(comps@).skip(i as int).drop_first() =~= views(comps@).skip(i + 1));
        i = i + 1;
    }
    let mut res: Vec<String> = Vec::new();
    let mut k = i;
    while k < comps.len()
        invariant
            i <= k <= comps@.len(),
            views(res@) == views(comps@).subrange(i as int, k as int),
        decreases comps@.len() - k,
    {
        let ghost old_res = res@;
        let c = comps[k].clone();
        assert(c@ == comps@[k as int]@);
        res.push(c);
        k = k + 1;
        assert(views(res@) =~= views(old_res).push(c@));
        assert(views(res@) =~= views(comps@).subrange(i as int, k as int));
    }
    assert(views(comps@).subrange(i as int, comps@.len() as int) =~= views(comps@).skip(i as int));
    res
}

/// `c` without `_debug`, `_simulator`, `_ios` and `_macos`.
fn library_file_name_exec(c: &str) -> (res: String)
    ensures
        res@ == library_file_name(c@),
{
    let empty: Vec<char> = Vec::new();
    let v0 = chars_of(c);
    let p1 = chars_of("_debug");
    let p2 = chars_of("_simulator");
    let p3 = chars_of("_ios");
    let p4 = chars_of("_macos");
    proof {
        reveal_strlit("_debug");
        reveal_strlit("_simulator");
        reveal_strlit("_ios");
        reveal_strlit("_macos");
        reveal_strlit("");
        assert(empty@ =~= ""@);
    }
    let v1 = replace_chars(&v0, &p1, &empty);
    let v2 = replace_chars(&v1, &p2, &empty);
    let v3 = replace_chars(&v2, &p3, &empty);
    let v4 = replace_chars(&v3, &p4, &empty);
    string_of(&v4)
}

/// `a/b/c` of three texts.
fn slash3(a: &str, b: &str, c: &str) -> (res: String)
    ensures
        res@ == a@ + "/"@ + b@ + "/"@ + c@,
{
    let mut res = a.to_owned();
    res.append("/");
    res.append(b);
    res.append("/");
    res.append(c);
    res
}

/// The steps that unpacking an archive entry into `output_path` takes, in
/// order (see `entry_steps`); none for an entry without a usable name.
pub fn zip_entry_steps(path: Option<&EntryPath>, is_dir: bool, output_path: &str, debug_build: bool)
    -> (res: Vec<ExtractStep>)
    ensures
        match path {
            None => res@.len() == 0,
            Some(p) => step_views(res@) == entry_steps(
                p.text@,
                views(p.components@),
                is_dir,
                output_path@,
                debug_build,
            ),
        },
{
    let mut res: Vec<ExtractStep> = Vec::new();
    let p = match path {
        None => {
            return res;
        },
        Some(p) => p,
    };
    let ghost comps = views(p.components@);
    let arch = match arch_of_exec(&p.components) {
        None => {
            assert(step_views(res@) =~= Seq::<StepView>::empty());
            return res;
        },
        Some(a) => a,
    };
    let tail = header_tail_exec(&p.components);
    let joined = join_with_slash(&tail);
    let headers = slash3(output_path, arch.as_str(), joined.as_str());
    if is_dir {
        res.push(ExtractStep::CreateDirAll(headers));
        assert(step_views(res@) =~= entry_steps(
            p.text@,
            comps,
            is_dir,
            output_path@,
            debug_build,
        ));
        return res;
    }
    let mut i: usize = 0;
    while i < p.components.len()
        invariant
            i <= p.components@.len(),
            comps == views(p.components@),
            arch_of(comps) == Some(arch@),
            step_views(res@) == library_steps(comps.take(i as int), arch@, output_path@, debug_build),
        decreases p.components@.len() - i,
    {
        let ghost before = comps.take(i as int);
        let ghost old_steps = step_views(res@);
        let c = p.components[i].as_str();
        let is_lib = str_contains(c, ".a") && (str_contains(c, "debug") == debug_build);
        if is_lib {
            let name = library_file_name_exec(c);
            res.push(ExtractStep::CopyTo(slash3(output_path, arch.as_str(), name.as_str())));
            let mut report = arch.clone();
            report.append("/");
            report.append(c);
            res.push(ExtractStep::Report(report));
        }
        i = i + 1;
        proof {
            let now = comps.take(i as int);
            assert(now.drop_last() =~= before);
            assert(now.last() == c@);
            if is_lib {
                assert(step_views(res@) =~= old_steps + seq![
                    StepView::CopyTo(output_path@ + "/"@ + arch@ + "/"@ + library_file_name(c@)),
                    StepView::Report(arch@ + "/"@ + c@),
                ]);
            } else {
                assert(step_views(res@) =~= old_steps + Seq::<StepView>::empty());
            }
        }
    }
    assert(comps.take(p.components@.len() as int) =~= comps);
    let ghost lib_steps = step_views(res@);
    let text = p.text.as_str();
    if str_contains(text, ".c") || str_contains(text, ".h") || str_contains(text, ".cpp")
        || str_contains(text, ".hpp") {
        res.push(ExtractStep::CopyTo(headers));
        assert(step_views(res@) =~= lib_steps + seq![StepView::CopyTo(headers@)]);
    } else {
        assert(step_views(res@) =~= lib_steps + Seq::<StepView>::empty());
    }
    res
}

/// The paths a step writes: a created directory or a written file.
pub open spec fn written_path(s: StepView) -> Option<Seq<char>> {
    match s {
        StepView::CreateDirAll(p) => Some(p),
        StepView::CopyTo(p) => Some(p),
        StepView::Report(_) => None,
    }
}

/// The path a step writes, if any, begins with the text `pre`.
pub open spec fn written_path_starts_with(s: StepView, pre: Seq<char>) -> bool {
    match written_path(s) {
        Some(p) => pre.is_prefix_of(p),
        None => true,
    }
}

/// The path a step writes, if any, begins with `out/arch/` for an
/// architecture directory `arch`. The text is compared as it stands: `..`
/// components after that beginning are not resolved.
pub open spec fn written_path_starts_in_architecture(s: StepView, out: Seq<char>) -> bool {
    match written_path(s) {
        Some(p) => exists|arch: Seq<char>|
            is_architecture(arch) && (out + "/"@ + arch + "/"@).is_prefix_of(p),
        None => true,
    }
}

proof fn lemma_arch_of(comps: Seq<Seq<char>>)
    ensures
        arch_of(comps) matches Some(a) ==> is_architecture(a),
    decreases comps.len(),
{
    if comps.len() > 0 && !is_architecture(comps.last()) {
        lemma_arch_of(comps.drop_last());
    }
}

proof fn lemma_library_steps_inside(
    comps: Seq<Seq<char>>,
    arch: Seq<char>,
    out: Seq<char>,
    debug_build: bool,
)
    ensures
        forall|i: int|
            0 <= i < library_steps(comps, arch, out, debug_build).len() ==> written_path_starts_with(
                #[trigger] library_steps(comps, arch, out, debug_build)[i],
                out + "/"@ + arch + "/"@,
            ),
    decreases comps.len(),
{
    if comps.len() > 0 {
        lemma_library_steps_inside(comps.drop_last(), arch, out, debug_build);
        let prev = library_steps(comps.drop_last(), arch, out, debug_build);
        let all = library_steps(comps, arch, out, debug_build);
        let pre = out + "/"@ + arch + "/"@;
        assert forall|i: int| 0 <= i < all.len() implies written_path_starts_with(#[trigger] all[i], pre) by {
            if i < prev.len() {
                assert(all[i] == prev[i]);
            } else if i == prev.len() {
                let p = pre + library_file_name(comps.last());
                assert(p.subrange(0, pre.len() as int) =~= pre);
            }
        }
    }
}

/// The path of every directory created and every file written for an
/// archive entry begins with `out/arch/`, where `arch` is an architecture
/// directory. (A part from `Headers` on that holds `..` components can still
/// name a place above that directory once resolved.)
pub proof fn lemma_entry_step_paths_start_in_architecture(
    text: Seq<char>,
    comps: Seq<Seq<char>>,
    is_dir: bool,
    out: Seq<char>,
    debug_build: bool,
)
    ensures
        forall|i: int|
            0 <= i < entry_steps(text, comps, is_dir, out, debug_build).len()
                ==> written_path_starts_in_architecture(
                #[trigger] entry_steps(text, comps, is_dir, out, debug_build)[i],
                out,
            ),
{
    lemma_arch_of(comps);
    if let Some(arch) = arch_of(comps) {
        let steps = entry_steps(text, comps, is_dir, out, debug_build);
        let pre = out + "/"@ + arch + "/"@;
        let headers = pre + join_slash(header_tail(comps));
        assert(headers.subrange(0, pre.len() as int) =~= pre);
        assert(out + "/"@ + arch + "/"@ + join_slash(header_tail(comps)) =~= headers);
        lemma_library_steps_inside(comps, arch, out, debug_build);
        let libs = library_steps(comps, arch, out, debug_build);
        assert forall|i: int| 0 <= i < steps.len() implies written_path_starts_in_architecture(
            #[trigger] steps[i],
            out,
        ) by {
            assert(written_path_starts_with(steps[i], pre) ==> written_path_starts_in_architecture(steps[i], out));
            if !is_dir && i < libs.len() {
                assert(steps[i] == libs[i]);
                assert(written_path_starts_with(libs[i], pre));
            }
        }
    }
}

/// The tags that library file names carry, with what the kept name drops.
proof fn lemma_tags()
    ensures
        is_tag_pattern("_debug"@),
        is_tag_pattern("_simulator"@),
        is_tag_pattern("_ios"@),
        is_tag_pattern("_macos"@),
        ""@ == Seq::<char>::empty(),
        !".a"@.contains('_'),
        ".a"@.len() > 0 && ".a"@[0] == '.',
        forall|x: Seq<char>, y: Seq<char>|
            (x == "_debug"@ || x == "_simulator"@ || x == "_ios"@ || x == "_macos"@) && (y
                == "_debug"@ || y == "_simulator"@ || y == "_ios"@ || y == "_macos"@) && x[1] != y[1]
                ==> x != y && !#[trigger] occurs_at(x, y, 0),
        "_debug"@[1] == 'd' && "_simulator"@[1] == 's' && "_ios"@[1] == 'i' && "_macos"@[1] == 'm',
{
    reveal_strlit("_debug");
    reveal_strlit("_simulator");
    reveal_strlit("_ios");
    reveal_strlit("_macos");
    reveal_strlit("");
    reveal_strlit(".a");
    assert forall|x: Seq<char>, y: Seq<char>|
        (x == "_debug"@ || x == "_simulator"@ || x == "_ios"@ || x == "_macos"@) && (y == "_debug"@
            || y == "_simulator"@ || y == "_ios"@ || y == "_macos"@) && x[1] != y[1] implies x != y
        && !#[trigger] occurs_at(x, y, 0) by {
        if occurs_at(x, y, 0) {
            assert(x.subrange(0, y.len() as int)[1] == y[1]);
        }
    }
}

proof fn lemma_tail_one(w: Seq<char>, p: Seq<char>)
    requires
        is_tag_pattern(w),
        is_tag_pattern(p),
        w == p || !occurs_at(w, p, 0),
        !".a"@.contains('_'),
        ".a"@.len() > 0 && ".a"@[0] == '.',
        ""@ == Seq::<char>::empty(),
    ensures
        replace_all(w + ".a"@, p, ""@) == if w == p {
            ".a"@
        } else {
            w + ".a"@
        },
{
    lemma_replace_all_word(w, ".a"@, p, ""@);
    lemma_replace_all_plain(".a"@, p, ""@);
    assert(""@ + ".a"@ =~= ".a"@);
}

proof fn lemma_tail_two(w1: Seq<char>, w2: Seq<char>, p: Seq<char>)
    requires
        is_tag_pattern(w1),
        is_tag_pattern(w2),
        is_tag_pattern(p),
        w1 == p || !occurs_at(w1, p, 0),
        w2 == p || !occurs_at(w2, p, 0),
        !".a"@.contains('_'),
        ".a"@.len() > 0 && ".a"@[0] == '.',
        ""@ == Seq::<char>::empty(),
    ensures
        replace_all(w1 + (w2 + ".a"@), p, ""@) == (if w1 == p {
            Seq::<char>::empty()
        } else {
            w1
        }) + replace_all(w2 + ".a"@, p, ""@),
{
    lemma_replace_all_word(w1, w2 + ".a"@, p, ""@);
    assert(""@ + replace_all(w2 + ".a"@, p, ""@) =~= replace_all(w2 + ".a"@, p, ""@));
}

/// The file name a library is kept under drops its build and platform tags:
/// a name `b` with tags `_ios`, `_macos` or `_simulator`, after `_debug` or
/// not, then `.a`, is kept as `b.a`, whenever `b` holds none of the tags.
pub proof fn lemma_library_file_name_drops_tags(b: Seq<char>, debug: bool, platform: Seq<char>)
    requires
        platform == "_ios"@ || platform == "_macos"@ || platform == "_simulator"@,
        !contains(b, "_debug"@),
        !contains(b, "_simulator"@),
        !contains(b, "_ios"@),
        !contains(b, "_macos"@),
    ensures
        library_file_name(
            b + (if debug {
                "_debug"@
            } else {
                Seq::<char>::empty()
            }) + platform + ".a"@,
        ) == b + ".a"@,
{
    lemma_tags();
    let d = "_debug"@;
    let tag = if debug {
        d
    } else {
        Seq::<char>::empty()
    };
    let t0 = tag + (platform + ".a"@);
    assert(b + tag + platform + ".a"@ =~= b + t0);
    let pats = seq!["_debug"@, "_simulator"@, "_ios"@, "_macos"@];
    // The tail after each replacement, and that `b` is kept in front of it.
    let t1 = replace_all(t0, pats[0], ""@);
    let t2 = replace_all(t1, pats[1], ""@);
    let t3 = replace_all(t2, pats[2], ""@);
    let t4 = replace_all(t3, pats[3], ""@);
    if debug {
        assert(t0 =~= d + (platform + ".a"@));
        lemma_tail_two(d, platform, pats[0]);
        lemma_tail_one(platform, pats[0]);
        assert(t1 == platform + ".a"@);
    } else {
        assert(t0 =~= platform + ".a"@);
        lemma_tail_one(platform, pats[0]);
        assert(t1 == platform + ".a"@);
    }
    lemma_tail_one(platform, pats[1]);
    lemma_tail_one(platform, pats[2]);
    lemma_tail_one(platform, pats[3]);
    if platform == pats[1] {
        assert(t2 == ".a"@);
        lemma_replace_all_plain(".a"@, pats[2], ""@);
        lemma_replace_all_plain(".a"@, pats[3], ""@);
    } else if platform == pats[2] {
        assert(t2 == platform + ".a"@);
        assert(t3 == ".a"@);
        lemma_replace_all_plain(".a"@, pats[3], ""@);
    } else {
        assert(t3 == platform + ".a"@);
    }
    assert(t4 == ".a"@);
    assert(starts_at_boundary(t0));
    assert(starts_at_boundary(t1));
    assert(starts_at_boundary(t2));
    assert(starts_at_boundary(t3));
    lemma_replace_all_prefix(b, t0, pats[0], ""@);
    lemma_replace_all_prefix(b, t1, pats[1], ""@);
    lemma_replace_all_prefix(b, t2, pats[2], ""@);
    lemma_replace_all_prefix(b, t3, pats[3], ""@);
}
} // verus!
