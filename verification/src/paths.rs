//! Building file system paths and addresses as text.
use vstd::prelude::*;

use crate::text::{decimal, decimal_u8, string_of};

verus! {

/// `base` joined with the relative path `name` by `/` (`Path::join` on Unix):
/// a `/` goes between them unless `base` is empty or already ends in one.
/// Paths are built with `/` on every host; Windows accepts it as a separator
/// too, where `Path::join` would put `\`.
pub open spec fn join_path(base: Seq<char>, name: Seq<char>) -> Seq<char> {
    if base.len() == 0 {
        name
    } else if base.last() == '/' {
        base + name
    } else {
        base + seq!['/'] + name
    }
}

/// `base` joined with the relative path `name`.
pub fn join(base: &str, name: &str) -> (res: String)
    ensures
        res@ == join_path(base@, name@),
{
    let mut res = base.to_owned();
    if base.is_empty() {
        assert(res@ == Seq::<char>::empty());
        res.append(name);
        assert(res@ =~= name@);
        return res;
    }
    let chars = crate::text::chars_of(base);
    if chars[chars.len() - 1] != '/' {
        res.append("/");
        proof {
            reveal_strlit("/");
        }
    }
    res.append(name);
    res
}

/// The text of a byte value in decimal.
pub fn decimal_string(n: u8) -> (res: String)
    ensures
        res@ == decimal(n as nat),
{
    let digits = decimal_u8(n);
    string_of(&digits)
}

/// `a.b.c`, the version as the release names it.
pub open spec fn version_text(a: u8, b: u8, c: u8) -> Seq<char> {
    decimal(a as nat) + "."@ + decimal(b as nat) + "."@ + decimal(c as nat)
}

/// `a_b_c`, the version as directory names hold it.
pub open spec fn version_tag(a: u8, b: u8, c: u8) -> Seq<char> {
    decimal(a as nat) + "_"@ + decimal(b as nat) + "_"@ + decimal(c as nat)
}

/// The release version `a.b.c`.
pub fn version_string(a: u8, b: u8, c: u8) -> (res: String)
    ensures
        res@ == version_text(a, b, c),
{
    let mut res = decimal_string(a);
    res.append(".");
    res.append(decimal_string(b).as_str());
    res.append(".");
    res.append(decimal_string(c).as_str());
    res
}

/// The version as it stands in directory names, `a_b_c`.
pub fn version_tag_string(a: u8, b: u8, c: u8) -> (res: String)
    ensures
        res@ == version_tag(a, b, c),
{
    let mut res = decimal_string(a);
    res.append("_");
    res.append(decimal_string(b).as_str());
    res.append("_");
    res.append(decimal_string(c).as_str());
    res
}


/// Text followed by more text.
pub fn cat(a: &str, b: &str) -> (res: String)
    ensures
        res@ == a@ + b@,
{
    let mut res = a.to_owned();
    res.append(b);
    res
}

/// The parent directory of a path, as `Path::parent` gives it.
pub uninterp spec fn path_parent(p: Seq<char>) -> Option<Seq<char>>;

/// `Path::parent` on the path `p`, as text: `None` when the path has no
/// parent (its documentation: "if the path terminates in a root or prefix, or
/// if it's the empty string"). Which parent, and when there is none, is left
/// to the name `path_parent`.
#[verifier::external_body]
pub(crate) fn parent_of(p: &str) -> (res: Option<String>)
    ensures
        match res {
            Some(r) => path_parent(p@) == Some(r@),
            None => path_parent(p@) is None,
        },
{
    match std::path::Path::new(p).parent() {
        Some(q) => Some(q.to_string_lossy().into_owned()),
        None => None,
    }
}

} // verus!
