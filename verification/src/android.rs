//! The Android prebuilt library: where a release is published and what is
//! kept of its archive.
use vstd::prelude::*;

use crate::paths::{join, join_path, version_text, version_tag, version_string, version_tag_string};
use crate::text::{contains, str_contains};

verus! {

/// `out_dir/executorch_binaries/android_a_b_c`, where the Android library of
/// release `a.b.c` is unpacked.
pub fn android_dir(out_dir: &str, a: u8, b: u8, c: u8) -> (res: String)
    ensures
        res@ == join_path(
            join_path(out_dir@, "executorch_binaries"@),
            "android_"@ + version_tag(a, b, c),
        ),
{
    let base = join(out_dir, "executorch_binaries");
    let mut name = String::from_str("android_");
    name.append(version_tag_string(a, b, c).as_str());
    join(base.as_str(), name.as_str())
}

/// The address of the Android archive of release `a.b.c`.
pub open spec fn aar_url_text(a: u8, b: u8, c: u8) -> Seq<char> {
    "https://repo1.maven.org/maven2/org/pytorch/executorch-android/"@ + version_text(a, b, c)
        + "/executorch-android-"@ + version_text(a, b, c) + ".aar"@
}

/// The address of the Android archive of release `a.b.c`.
pub fn aar_url(a: u8, b: u8, c: u8) -> (res: String)
    ensures
        res@ == aar_url_text(a, b, c),
{
    let version = version_string(a, b, c);
    let mut res = String::from_str("https://repo1.maven.org/maven2/org/pytorch/executorch-android/");
    res.append(version.as_str());
    res.append("/executorch-android-");
    res.append(version.as_str());
    res.append(".aar");
    res
}

/// The address of the published checksum of the Android archive of release
/// `a.b.c`: the archive's address followed by `.sha256`.
pub fn aar_checksum_url(a: u8, b: u8, c: u8) -> (res: String)
    ensures
        res@ == aar_url_text(a, b, c) + ".sha256"@,
{
    let mut res = aar_url(a, b, c);
    res.append(".sha256");
    res
}

/// Where the downloaded archive is stored: `dest/aar`.
pub fn aar_path(dest: &str) -> (res: String)
    ensures
        res@ == join_path(dest@, "aar"@),
{
    join(dest, "aar")
}

/// The architectures of the Android library, in the order they are tried.
pub open spec fn android_arch_names() -> Seq<Seq<char>> {
    seq!["x86_64"@, "arm64"@]
}

/// Where an archive entry named `name` is unpacked to under `dest`, as
/// (directory, file) pairs: nothing unless the name holds `libexecutorch.so`;
/// then, for `x86_64` and for `arm64` in that order, when the name holds it,
/// the directory `dest/arch` and the file `dest/arch/libexecutorch.so`.
pub open spec fn android_targets(name: Seq<char>, dest: Seq<char>) -> Seq<(Seq<char>, Seq<char>)> {
    if !contains(name, "libexecutorch.so"@) {
        seq![]
    } else {
        android_arch_names().filter(|arch: Seq<char>| contains(name, arch)).map_values(
            |arch: Seq<char>|
                (join_path(dest, arch), join_path(join_path(dest, arch), "libexecutorch.so"@)),
        )
    }
}

/// The views of a list of string pairs.
pub open spec fn pair_list_views(v: Seq<(String, String)>) -> Seq<(Seq<char>, Seq<char>)> {
    v.map_values(|e: (String, String)| (e.0@, e.1@))
}

/// Where an entry of the Android archive named `name` is unpacked to under
/// `dest` (see `android_targets`).
pub fn android_library_targets(name: &str, dest: &str) -> (res: Vec<(String, String)>)
    ensures
        pair_list_views(res@) == android_targets(name@, dest@),
{
    let mut res: Vec<(String, String)> = Vec::new();
    if !str_contains(name, "libexecutorch.so") {
        assert(pair_list_views(res@) =~= android_targets(name@, dest@));
        return res;
    }
    let x86 = str_contains(name, "x86_64");
    if x86 {
        let dir = join(dest, "x86_64");
        let file = join(dir.as_str(), "libexecutorch.so");
        res.push((dir, file));
    }
    let arm = str_contains(name, "arm64");
    if arm {
        let dir = join(dest, "arm64");
        let file = join(dir.as_str(), "libexecutorch.so");
        res.push((dir, file));
    }
    proof {
        let pred = |arch: Seq<char>| contains(name@, arch);
        let names = android_arch_names();
        reveal_with_fuel(Seq::filter, 3);
        assert(names.drop_last() =~= seq!["x86_64"@]);
        assert(names.drop_last().drop_last() =~= Seq::<Seq<char>>::empty());
        let f = names.filter(pred);
        if x86 && arm {
            assert(f =~= seq!["x86_64"@, "arm64"@]);
        } else if x86 {
            assert(f =~= seq!["x86_64"@]);
        } else if arm {
            assert(f =~= seq!["arm64"@]);
        } else {
            assert(f =~= Seq::<Seq<char>>::empty());
        }
        assert(pair_list_views(res@) =~= android_targets(name@, dest@));
    }
    res
}

} // verus!
