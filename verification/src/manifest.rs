//! Reading the binary checksums out of a Swift package manifest.
//!
//! A manifest lists its binaries as dictionary blocks of the form
//! `"backend_coreml": [ "sha256": "<64 hex digits>", "sha256" + debug_suffix: "<64 hex digits>" ]`.
//! The grammar recognised here is the pair of patterns
//!
//! ```text
//! block:    "NAME"\s*:\s*\[BODY\]              NAME = [a-zA-Z0-9_]+, BODY = [^\]]+
//! checksum: "sha256"(\s*\+\s*debug_suffix)?\s*:\s*"SHA"    SHA = [a-fA-F0-9]{64}
//! ```
//!
//! with `\s` the Unicode `White_Space` characters. Blocks are found left to
//! right without overlap, and within each block body the checksums likewise.
//! A checksum whose key carries `+ debug_suffix` is recorded under
//! `NAME_debug`, the others under `NAME`; a later entry for the same key
//! replaces an earlier one.
use vstd::prelude::*;

use crate::text::{is_white_space, white_space, string_of, chars_of};

verus! {

/// The character classes of the manifest grammar.
#[derive(Clone, Copy, PartialEq, Eq, Debug)]
pub enum CharClass {
    /// `\s`
    Space,
    /// `[a-zA-Z0-9_]`
    Word,
    /// `[^\]]`
    NotClose,
    /// `[a-fA-F0-9]`
    Hex,
}

pub open spec fn in_class(cls: CharClass, c: char) -> bool {
    let u = c as u32;
    match cls {
        CharClass::Space => is_white_space(c),
        CharClass::Word => (0x61 <= u <= 0x7a) || (0x41 <= u <= 0x5a) || (0x30 <= u <= 0x39) || u
            == 0x5f,
        CharClass::NotClose => c != ']',
        CharClass::Hex => (0x61 <= u <= 0x66) || (0x41 <= u <= 0x46) || (0x30 <= u <= 0x39),
    }
}

fn class_has(cls: CharClass, c: char) -> (res: bool)
    ensures
        res == in_class(cls, c),
{
    let u = c as u32;
    match cls {
        CharClass::Space => white_space(c),
        CharClass::Word => (0x61 <= u && u <= 0x7a) || (0x41 <= u && u <= 0x5a) || (0x30 <= u
            && u <= 0x39) || u == 0x5f,
        CharClass::NotClose => c != ']',
        CharClass::Hex => (0x61 <= u && u <= 0x66) || (0x41 <= u && u <= 0x46) || (0x30 <= u
            && u <= 0x39),
    }
}

/// The end of the longest run of `cls` characters of `s` that starts at `i`.
pub open spec fn run_end(s: Seq<char>, i: int, cls: CharClass) -> int
    decreases s.len() - i,
{
    if i < 0 || i >= s.len() || !in_class(cls, s[i]) {
        i
    } else {
        run_end(s, i + 1, cls)
    }
}

pub proof fn lemma_run_end(s: Seq<char>, i: int, cls: CharClass)
    requires
        0 <= i <= s.len(),
    ensures
        i <= run_end(s, i, cls) <= s.len(),
        forall|k: int| i <= k < run_end(s, i, cls) ==> in_class(cls, #[trigger] s[k]),
        run_end(s, i, cls) < s.len() ==> !in_class(cls, s[run_end(s, i, cls)]),
    decreases s.len() - i,
{
    if i < s.len() && in_class(cls, s[i]) {
        lemma_run_end(s, i + 1, cls);
    }
}

fn run_end_exec(s: &Vec<char>, i: usize, cls: CharClass) -> (r: usize)
    requires
        i <= s@.len(),
    ensures
        r == run_end(s@, i as int, cls),
{
    let mut j = i;
    while j < s.len() && class_has(cls, s[j])
        invariant
            i <= j <= s@.len(),
            run_end(s@, j as int, cls) == run_end(s@, i as int, cls),
        decreases s@.len() - j,
    {
        j = j + 1;
    }
    j
}

/// `"sha256"`
pub open spec fn sha_key() -> Seq<char> {
    seq!['"', 's', 'h', 'a', '2', '5', '6', '"']
}

/// `debug_suffix`
pub open spec fn debug_marker() -> Seq<char> {
    seq!['d', 'e', 'b', 'u', 'g', '_', 's', 'u', 'f', 'f', 'i', 'x']
}

/// `_debug`, appended to the name of a block for its debug checksum.
pub open spec fn debug_key_suffix() -> Seq<char> {
    seq!['_', 'd', 'e', 'b', 'u', 'g']
}

/// The block pattern matched at position `i` of `s`: the end of the match, the
/// name and the body.
pub open spec fn block_at(s: Seq<char>, i: int) -> Option<(int, Seq<char>, Seq<char>)> {
    if 0 <= i < s.len() && s[i] == '"' {
        let ne = run_end(s, i + 1, CharClass::Word);
        if ne > i + 1 && ne < s.len() && s[ne] == '"' {
            let a = run_end(s, ne + 1, CharClass::Space);
            if a < s.len() && s[a] == ':' {
                let b = run_end(s, a + 1, CharClass::Space);
                if b < s.len() && s[b] == '[' {
                    let c = run_end(s, b + 1, CharClass::NotClose);
                    if c > b + 1 && c < s.len() {
                        Some((c + 1, s.subrange(i + 1, ne), s.subrange(b + 1, c)))
                    } else {
                        None
                    }
                } else {
                    None
                }
            } else {
                None
            }
        } else {
            None
        }
    } else {
        None
    }
}

pub proof fn lemma_block_at(s: Seq<char>, i: int)
    ensures
        block_at(s, i) matches Some((e, name, body)) ==> {
            &&& i < e <= s.len()
            &&& name.len() > 0
            &&& forall|k: int| 0 <= k < name.len() ==> in_class(CharClass::Word, #[trigger] name[k])
            &&& body.len() > 0
        },
{
    if 0 <= i < s.len() && s[i] == '"' {
        lemma_run_end(s, i + 1, CharClass::Word);
        let ne = run_end(s, i + 1, CharClass::Word);
        if ne > i + 1 && ne < s.len() && s[ne] == '"' {
            lemma_run_end(s, ne + 1, CharClass::Space);
            let a = run_end(s, ne + 1, CharClass::Space);
            if a < s.len() && s[a] == ':' {
                lemma_run_end(s, a + 1, CharClass::Space);
                let b = run_end(s, a + 1, CharClass::Space);
                if b < s.len() && s[b] == '[' {
                    lemma_run_end(s, b + 1, CharClass::NotClose);
                    let name = s.subrange(i + 1, ne);
                    assert forall|k: int| 0 <= k < name.len() implies in_class(
                        CharClass::Word,
                        #[trigger] name[k],
                    ) by {
                        assert(name[k] == s[i + 1 + k]);
                    }
                }
            }
        }
    }
}

/// The blocks of `s` at or after `pos`, leftmost first and without overlap.
pub open spec fn blocks_from(s: Seq<char>, pos: int) -> Seq<(Seq<char>, Seq<char>)>
    decreases s.len() - pos,
{
    if pos < 0 || pos >= s.len() {
        seq![]
    } else {
        match block_at(s, pos) {
            Some((e, name, body)) => {
                proof {
                    lemma_block_at(s, pos);
                }
                seq![(name, body)] + blocks_from(s, e)
            },
            None => blocks_from(s, pos + 1),
        }
    }
}

/// The checksum pattern matched at position `i` of `s`: the end of the match,
/// whether it is the debug checksum, and the hex digits.
pub open spec fn sha_at(s: Seq<char>, i: int) -> Option<(int, bool, Seq<char>)> {
    if 0 <= i && i + 8 <= s.len() && s.subrange(i, i + 8) == sha_key() {
        let k = run_end(s, i + 8, CharClass::Space);
        let after: Option<(bool, int)> = if k < s.len() && s[k] == '+' {
            let k2 = run_end(s, k + 1, CharClass::Space);
            if k2 + 12 <= s.len() && s.subrange(k2, k2 + 12) == debug_marker() {
                Some((true, k2 + 12))
            } else {
                None
            }
        } else {
            Some((false, i + 8))
        };
        match after {
            Some((debug, p)) => {
                let q = run_end(s, p, CharClass::Space);
                if q < s.len() && s[q] == ':' {
                    let q2 = run_end(s, q + 1, CharClass::Space);
                    if q2 + 65 < s.len() && s[q2] == '"' && run_end(s, q2 + 1, CharClass::Hex) >= q2
                        + 65 && s[q2 + 65] == '"' {
                        Some((q2 + 66, debug, s.subrange(q2 + 1, q2 + 65)))
                    } else {
                        None
                    }
                } else {
                    None
                }
            },
            None => None,
        }
    } else {
        None
    }
}

/// A string of exactly 64 hex digits.
pub open spec fn is_sha_digits(t: Seq<char>) -> bool {
    &&& t.len() == 64
    &&& forall|k: int| 0 <= k < t.len() ==> in_class(CharClass::Hex, #[trigger] t[k])
}

pub proof fn lemma_sha_at(s: Seq<char>, i: int)
    ensures
        sha_at(s, i) matches Some((e, debug, sha)) ==> i < e <= s.len() && is_sha_digits(sha),
{
    if 0 <= i && i + 8 <= s.len() && s.subrange(i, i + 8) == sha_key() {
        lemma_run_end(s, i + 8, CharClass::Space);
        let k = run_end(s, i + 8, CharClass::Space);
        if k < s.len() && s[k] == '+' {
            lemma_run_end(s, k + 1, CharClass::Space);
        }
        if let Some((e, debug, sha)) = sha_at(s, i) {
            let after: Option<(bool, int)> = if k < s.len() && s[k] == '+' {
                let k2 = run_end(s, k + 1, CharClass::Space);
                if k2 + 12 <= s.len() && s.subrange(k2, k2 + 12) == debug_marker() {
                    Some((true, k2 + 12))
                } else {
                    None
                }
            } else {
                Some((false, i + 8))
            };
            let p = match after {
                Some((_, p)) => p,
                None => 0,
            };
            lemma_run_end(s, p, CharClass::Space);
            let q = run_end(s, p, CharClass::Space);
            lemma_run_end(s, q + 1, CharClass::Space);
            let q2 = run_end(s, q + 1, CharClass::Space);
            lemma_run_end(s, q2 + 1, CharClass::Hex);
            assert forall|k: int| 0 <= k < sha.len() implies in_class(
                CharClass::Hex,
                #[trigger] sha[k],
            ) by {
                assert(sha[k] == s[q2 + 1 + k]);
            }
        }
    }
}

/// The checksums of a block body at or after `pos`, leftmost first and without
/// overlap.
pub open spec fn shas_from(s: Seq<char>, pos: int) -> Seq<(bool, Seq<char>)>
    decreases s.len() - pos,
{
    if pos < 0 || pos >= s.len() {
        seq![]
    } else {
        match sha_at(s, pos) {
            Some((e, debug, sha)) => {
                proof {
                    lemma_sha_at(s, pos);
                }
                seq![(debug, sha)] + shas_from(s, e)
            },
            None => shas_from(s, pos + 1),
        }
    }
}

/// The key under which a checksum of block `name` is recorded.
pub open spec fn checksum_key(name: Seq<char>, debug: bool) -> Seq<char> {
    if debug {
        name + debug_key_suffix()
    } else {
        name
    }
}

/// The entries that one block contributes, in order.
pub open spec fn block_entries(name: Seq<char>, shas: Seq<(bool, Seq<char>)>) -> Seq<
    (Seq<char>, Seq<char>),
> {
    shas.map_values(|x: (bool, Seq<char>)| (checksum_key(name, x.0), x.1))
}

/// The entries of a list of blocks, in order.
pub open spec fn entries_of_blocks(blocks: Seq<(Seq<char>, Seq<char>)>) -> Seq<
    (Seq<char>, Seq<char>),
>
    decreases blocks.len(),
{
    if blocks.len() == 0 {
        seq![]
    } else {
        entries_of_blocks(blocks.drop_last()) + block_entries(
            blocks.last().0,
            shas_from(blocks.last().1, 0),
        )
    }
}

/// Every (key, checksum) entry of a manifest, in the order of the text.
pub open spec fn manifest_entries(text: Seq<char>) -> Seq<(Seq<char>, Seq<char>)> {
    entries_of_blocks(blocks_from(text, 0))
}

/// The table that results from recording `entries` one after the other, a
/// later entry replacing an earlier one with the same key.
pub open spec fn table_of(entries: Seq<(Seq<char>, Seq<char>)>) -> Map<Seq<char>, Seq<char>>
    decreases entries.len(),
{
    if entries.len() == 0 {
        Map::empty()
    } else {
        table_of(entries.drop_last()).insert(entries.last().0, entries.last().1)
    }
}

/// The checksums that a manifest declares, by binary name.
pub open spec fn manifest_checksums(text: Seq<char>) -> Map<Seq<char>, Seq<char>> {
    table_of(manifest_entries(text))
}

/// The views of a list of string pairs.
pub open spec fn pair_views(v: Seq<(String, String)>) -> Seq<(Seq<char>, Seq<char>)> {
    v.map_values(|e: (String, String)| (e.0@, e.1@))
}

/// No key occurs twice.
pub open spec fn distinct_keys(ps: Seq<(Seq<char>, Seq<char>)>) -> bool {
    forall|i: int, j: int| 0 <= i < ps.len() && 0 <= j < ps.len() && i != j ==> #[trigger] ps[i].0
        != #[trigger] ps[j].0
}

/// The table of a list of pairs whose keys are distinct.
pub open spec fn pairs_table(ps: Seq<(Seq<char>, Seq<char>)>) -> Map<Seq<char>, Seq<char>> {
    Map::new(
        |k: Seq<char>| exists|i: int| 0 <= i < ps.len() && ps[i].0 == k,
        |k: Seq<char>| ps[choose|i: int| 0 <= i < ps.len() && ps[i].0 == k].1,
    )
}


fn copy_range(s: &Vec<char>, lo: usize, hi: usize) -> (res: Vec<char>)
    requires
        lo <= hi <= s@.len(),
    ensures
        res@ == s@.subrange(lo as int, hi as int),
{
    let mut res: Vec<char> = Vec::new();
    let mut k = lo;
    while k < hi
        invariant
            lo <= k <= hi <= s@.len(),
            res@ == s@.subrange(lo as int, k as int),
        decreases hi - k,
    {
        res.push(s[k]);
        k = k + 1;
        assert(res@ == s@.subrange(lo as int, k as int));
    }
    res
}

/// Whether the characters `lit` stand in `s` from position `i` on.
fn literal_at(s: &Vec<char>, i: usize, lit: &[char]) -> (res: bool)
    requires
        i <= s@.len(),
    ensures
        res == (i + lit@.len() <= s@.len() && s@.subrange(i as int, i + lit@.len()) == lit@),
{
    if lit.len() > s.len() - i {
        return false;
    }
    let n = s.len();
    let mut k: usize = 0;
    while k < lit.len()
        invariant
            n == s@.len(),
            i + lit@.len() <= s@.len(),
            k <= lit@.len(),
            forall|m: int| 0 <= m < k ==> s@[i + m] == lit@[m],
        decreases lit@.len() - k,
    {
        if s[i + k] != lit[k] {
            assert(s@.subrange(i as int, i + lit@.len())[k as int] != lit@[k as int]);
            return false;
        }
        k = k + 1;
    }
    assert(s@.subrange(i as int, i + lit@.len()) =~= lit@);
    true
}

/// The block match at position `i`, as the end of the match and the bounds of
/// its name and its body.
fn block_at_exec(s: &Vec<char>, i: usize) -> (res: Option<(usize, usize, usize, usize, usize)>)
    requires
        i < s@.len(),
    ensures
        match block_at(s@, i as int) {
            None => res is None,
            Some((e, name, body)) => res matches Some((e2, nl, nh, bl, bh)) && {
                &&& e2 == e
                &&& nl <= nh <= s@.len()
                &&& bl <= bh <= s@.len()
                &&& s@.subrange(nl as int, nh as int) == name
                &&& s@.subrange(bl as int, bh as int) == body
            },
        },
{
    let n = s.len();
    if s[i] != '"' {
        return None;
    }
    let ne = run_end_exec(s, i + 1, CharClass::Word);
    proof {
        lemma_run_end(s@, i + 1, CharClass::Word);
    }
    if !(ne > i + 1 && ne < s.len() && s[ne] == '"') {
        return None;
    }
    let a = run_end_exec(s, ne + 1, CharClass::Space);
    proof {
        lemma_run_end(s@, ne + 1, CharClass::Space);
    }
    if !(a < s.len() && s[a] == ':') {
        return None;
    }
    let b = run_end_exec(s, a + 1, CharClass::Space);
    proof {
        lemma_run_end(s@, a + 1, CharClass::Space);
    }
    if !(b < s.len() && s[b] == '[') {
        return None;
    }
    let c = run_end_exec(s, b + 1, CharClass::NotClose);
    proof {
        lemma_run_end(s@, b + 1, CharClass::NotClose);
    }
    if !(c > b + 1 && c < s.len()) {
        return None;
    }
    Some((c + 1, i + 1, ne, b + 1, c))
}

/// The checksum match at position `i`, as the end of the match, whether it is
/// the debug checksum, and the bounds of its digits.
fn sha_at_exec(s: &Vec<char>, i: usize) -> (res: Option<(usize, bool, usize, usize)>)
    requires
        i < s@.len(),
    ensures
        match sha_at(s@, i as int) {
            None => res is None,
            Some((e, debug, sha)) => res matches Some((e2, d2, lo, hi)) && {
                &&& e2 == e
                &&& d2 == debug
                &&& lo <= hi <= s@.len()
                &&& s@.subrange(lo as int, hi as int) == sha
            },
        },
{
    let key: [char; 8] = ['"', 's', 'h', 'a', '2', '5', '6', '"'];
    assert(key@ == sha_key());
    let n = s.len();
    if !literal_at(s, i, &key) {
        return None;
    }
    let k = run_end_exec(s, i + 8, CharClass::Space);
    proof {
        lemma_run_end(s@, i + 8, CharClass::Space);
    }
    let debug: bool;
    let p: usize;
    if k < s.len() && s[k] == '+' {
        let k2 = run_end_exec(s, k + 1, CharClass::Space);
        proof {
            lemma_run_end(s@, k + 1, CharClass::Space);
        }
        let marker: [char; 12] = ['d', 'e', 'b', 'u', 'g', '_', 's', 'u', 'f', 'f', 'i', 'x'];
        assert(marker@ == debug_marker());
        if !literal_at(s, k2, &marker) {
            return None;
        }
        debug = true;
        p = k2 + 12;
    } else {
        debug = false;
        p = i + 8;
    }
    let q = run_end_exec(s, p, CharClass::Space);
    proof {
        lemma_run_end(s@, p as int, CharClass::Space);
    }
    if !(q < s.len() && s[q] == ':') {
        return None;
    }
    let q2 = run_end_exec(s, q + 1, CharClass::Space);
    proof {
        lemma_run_end(s@, q + 1, CharClass::Space);
    }
    if !(q2 < s.len() && s.len() - q2 > 65 && s[q2] == '"') {
        return None;
    }
    let h = run_end_exec(s, q2 + 1, CharClass::Hex);
    if !(h >= q2 + 65 && s[q2 + 65] == '"') {
        return None;
    }
    Some((q2 + 66, debug, q2 + 1, q2 + 65))
}

pub proof fn lemma_pairs_table_lookup(ps: Seq<(Seq<char>, Seq<char>)>, i: int)
    requires
        distinct_keys(ps),
        0 <= i < ps.len(),
    ensures
        pairs_table(ps).contains_key(ps[i].0),
        pairs_table(ps)[ps[i].0] == ps[i].1,
{
    let k = ps[i].0;
    assert(exists|j: int| 0 <= j < ps.len() && ps[j].0 == k);
    let j = choose|j: int| 0 <= j < ps.len() && ps[j].0 == k;
    assert(j == i);
}

/// Records `value` under `key`: an entry with that key takes the new value in
/// its place, else the entry goes at the end.
fn insert_checksum(entries: &mut Vec<(String, String)>, key: String, value: String)
    requires
        distinct_keys(pair_views(old(entries)@)),
    ensures
        distinct_keys(pair_views(final(entries)@)),
        pairs_table(pair_views(final(entries)@)) == pairs_table(pair_views(old(entries)@)).insert(
            key@,
            value@,
        ),
{
    let ghost ps = pair_views(entries@);
    let ghost kv = key@;
    let ghost vv = value@;
    let mut i: usize = 0;
    while i < entries.len()
        invariant
            i <= entries@.len(),
            entries@ == old(entries)@,
            ps == pair_views(entries@),
            kv == key@,
            vv == value@,
            distinct_keys(ps),
            forall|j: int| 0 <= j < i ==> ps[j].0 != kv,
        decreases entries@.len() - i,
    {
        if entries[i].0 == key {
            let ghost j = i as int;
            let ghost before = entries@;
            let pair = (key, value);
            assert(pair.0@ == kv && pair.1@ == vv);
            entries.set(i, pair);
            assert(entries@ == before.update(j, pair));
            let ghost ps2 = pair_views(entries@);
            assert(ps2.len() == ps.len());
            assert(forall|m: int| 0 <= m < ps.len() && m != j ==> ps2[m] == ps[m]);
            assert(ps2[j] == (kv, vv));
            assert(ps2 =~= ps.update(j, (kv, vv)));
            assert(distinct_keys(ps2)) by {
                assert forall|a: int, b: int|
                    0 <= a < ps2.len() && 0 <= b < ps2.len() && a != b implies #[trigger] ps2[a].0
                    != #[trigger] ps2[b].0 by {
                    if a != j && b != j {
                        assert(ps2[a] == ps[a] && ps2[b] == ps[b]);
                    } else if a == j {
                        assert(ps2[b] == ps[b] && ps[j].0 == kv);
                        assert(ps[b].0 != ps[j].0);
                    } else {
                        assert(ps2[a] == ps[a] && ps[j].0 == kv);
                        assert(ps[a].0 != ps[j].0);
                    }
                }
            }
            let ghost t1 = pairs_table(ps2);
            let ghost t0 = pairs_table(ps).insert(kv, vv);
            assert forall|k: Seq<char>| #[trigger] t1.contains_key(k) == t0.contains_key(k) by {
                if t1.contains_key(k) {
                    let a = choose|a: int| 0 <= a < ps2.len() && ps2[a].0 == k;
                    if a != j {
                        assert(ps[a].0 == k);
                    }
                }
                if k != kv && t0.contains_key(k) {
                    let a = choose|a: int| 0 <= a < ps.len() && ps[a].0 == k;
                    assert(ps2[a].0 == k);
                }
                if k == kv {
                    assert(ps2[j].0 == k);
                }
            }
            assert forall|k: Seq<char>| #[trigger] t1.contains_key(k) implies t1[k] == t0[k] by {
                let a = choose|a: int| 0 <= a < ps2.len() && ps2[a].0 == k;
                lemma_pairs_table_lookup(ps2, a);
                if a != j {
                    assert(ps2[a].0 != ps2[j].0);
                    assert(ps[a] == ps2[a]);
                    lemma_pairs_table_lookup(ps, a);
                } else {
                    assert(ps2[j] == (kv, vv));
                }
            }
            assert(t1 =~= t0);
            return ;
        }
        i = i + 1;
    }
    entries.push((key, value));
    let ghost ps2 = pair_views(entries@);
    assert(ps2 =~= ps.push((kv, vv)));
    let ghost n = ps.len() as int;
    assert(distinct_keys(ps2)) by {
        assert forall|a: int, b: int|
            0 <= a < ps2.len() && 0 <= b < ps2.len() && a != b implies #[trigger] ps2[a].0
            != #[trigger] ps2[b].0 by {
            if a != n && b != n {
                assert(ps2[a] == ps[a] && ps2[b] == ps[b]);
            } else if a == n {
                assert(ps2[b] == ps[b]);
            } else {
                assert(ps2[a] == ps[a]);
            }
        }
    }
    let ghost t1 = pairs_table(ps2);
    let ghost t0 = pairs_table(ps).insert(kv, vv);
    assert forall|k: Seq<char>| #[trigger] t1.contains_key(k) == t0.contains_key(k) by {
        if t1.contains_key(k) {
            let a = choose|a: int| 0 <= a < ps2.len() && ps2[a].0 == k;
            if a != n {
                assert(ps[a].0 == k);
            }
        }
        if k != kv && t0.contains_key(k) {
            let a = choose|a: int| 0 <= a < ps.len() && ps[a].0 == k;
            assert(ps2[a].0 == k);
        }
        if k == kv {
            assert(ps2[n].0 == k);
        }
    }
    assert forall|k: Seq<char>| #[trigger] t1.contains_key(k) implies t1[k] == t0[k] by {
        let a = choose|a: int| 0 <= a < ps2.len() && ps2[a].0 == k;
        lemma_pairs_table_lookup(ps2, a);
        if a != n {
            assert(ps[a] == ps2[a]);
            lemma_pairs_table_lookup(ps, a);
        }
    }
    assert(t1 =~= t0);
}

proof fn lemma_table_of_push(es: Seq<(Seq<char>, Seq<char>)>, e: (Seq<char>, Seq<char>))
    ensures
        table_of(es.push(e)) == table_of(es).insert(e.0, e.1),
{
    assert(es.push(e).drop_last() =~= es);
}

/// The key of a checksum of block `name`, as a string.
fn key_string(name: &Vec<char>, debug: bool) -> (res: String)
    ensures
        res@ == checksum_key(name@, debug),
{
    if debug {
        let mut chars = name.clone();
        let suffix: [char; 6] = ['_', 'd', 'e', 'b', 'u', 'g'];
        assert(suffix@ == debug_key_suffix());
        let mut k: usize = 0;
        while k < 6
            invariant
                k <= 6,
                chars@ == name@ + suffix@.take(k as int),
            decreases 6 - k,
        {
            chars.push(suffix[k]);
            k = k + 1;
            assert(suffix@.take(k as int) == suffix@.take(k - 1).push(suffix@[k - 1]));
        }
        assert(suffix@.take(6) == suffix@);
        string_of(&chars)
    } else {
        string_of(name)
    }
}

/// Records every checksum of one block, in order.
fn record_block(
    res: &mut Vec<(String, String)>,
    name: &Vec<char>,
    body: &Vec<char>,
    Ghost(prior): Ghost<Seq<(Seq<char>, Seq<char>)>>,
)
    requires
        distinct_keys(pair_views(old(res)@)),
        pairs_table(pair_views(old(res)@)) == table_of(entries_of_blocks(prior)),
    ensures
        distinct_keys(pair_views(final(res)@)),
        pairs_table(pair_views(final(res)@)) == table_of(
            entries_of_blocks(prior.push((name@, body@))),
        ),
{
    let ghost before = entries_of_blocks(prior);
    let ghost mut seen: Seq<(bool, Seq<char>)> = seq![];
    let mut p: usize = 0;
    while p < body.len()
        invariant
            p <= body@.len(),
            shas_from(body@, 0) == seen + shas_from(body@, p as int),
            distinct_keys(pair_views(res@)),
            pairs_table(pair_views(res@)) == table_of(before + block_entries(name@, seen)),
        decreases body@.len() - p,
    {
        match sha_at_exec(body, p) {
            Some((e, debug, lo, hi)) => {
                proof {
                    lemma_sha_at(body@, p as int);
                }
                let ghost sha = body@.subrange(lo as int, hi as int);
                let digits = copy_range(body, lo, hi);
                let key = key_string(name, debug);
                let value = string_of(&digits);
                insert_checksum(res, key, value);
                proof {
                    let entry = (checksum_key(name@, debug), sha);
                    assert(block_entries(name@, seen.push((debug, sha))) =~= block_entries(
                        name@,
                        seen,
                    ).push(entry));
                    assert(before + block_entries(name@, seen).push(entry) =~= (before
                        + block_entries(name@, seen)).push(entry));
                    lemma_table_of_push(before + block_entries(name@, seen), entry);
                    assert(seen + shas_from(body@, p as int) =~= seen.push((debug, sha))
                        + shas_from(body@, e as int));
                    seen = seen.push((debug, sha));
                }
                p = e;
            },
            None => {
                p = p + 1;
            },
        }
    }
    proof {
        assert(seen + shas_from(body@, p as int) =~= seen);
        assert(prior.push((name@, body@)).drop_last() =~= prior);
    }
}

/// The checksums that a Swift package manifest declares, by binary name: for
/// every block `"NAME": [ ... ]`, each `"sha256": "<digits>"` in it is recorded
/// under `NAME`, each `"sha256" + debug_suffix: "<digits>"` under `NAME_debug`.
/// The result lists each key once.
pub fn parse_swift_manifest(manifest_content: &str) -> (res: Vec<(String, String)>)
    ensures
        distinct_keys(pair_views(res@)),
        pairs_table(pair_views(res@)) == manifest_checksums(manifest_content@),
{
    let s = chars_of(manifest_content);
    let mut res: Vec<(String, String)> = Vec::new();
    let ghost mut done: Seq<(Seq<char>, Seq<char>)> = seq![];
    let mut pos: usize = 0;
    proof {
        assert(pairs_table(pair_views(res@)) =~= Map::empty());
    }
    while pos < s.len()
        invariant
            pos <= s@.len(),
            blocks_from(s@, 0) == done + blocks_from(s@, pos as int),
            distinct_keys(pair_views(res@)),
            pairs_table(pair_views(res@)) == table_of(entries_of_blocks(done)),
        decreases s@.len() - pos,
    {
        match block_at_exec(&s, pos) {
            Some((e, nl, nh, bl, bh)) => {
                proof {
                    lemma_block_at(s@, pos as int);
                }
                let name = copy_range(&s, nl, nh);
                let body = copy_range(&s, bl, bh);
                record_block(&mut res, &name, &body, Ghost(done));
                proof {
                    assert(done + blocks_from(s@, pos as int) =~= done.push((name@, body@))
                        + blocks_from(s@, e as int));
                    done = done.push((name@, body@));
                }
                pos = e;
            },
            None => {
                pos = pos + 1;
            },
        }
    }
    proof {
        assert(done + blocks_from(s@, pos as int) =~= done);
    }
    res
}

/// A binary name of the manifest grammar: one or more of `[a-zA-Z0-9_]`.
pub open spec fn is_block_name(n: Seq<char>) -> bool {
    &&& n.len() > 0
    &&& forall|k: int| 0 <= k < n.len() ==> in_class(CharClass::Word, #[trigger] n[k])
}

/// A key that the parser can produce: a block name, or a block name followed
/// by `_debug`.
pub open spec fn is_checksum_key(k: Seq<char>) -> bool {
    exists|n: Seq<char>| is_block_name(n) && (k == n || k == n + debug_key_suffix())
}

proof fn lemma_blocks_from_names(s: Seq<char>, pos: int)
    ensures
        forall|i: int|
            0 <= i < blocks_from(s, pos).len() ==> is_block_name(#[trigger] blocks_from(s, pos)[i].0),
    decreases s.len() - pos,
{
    if 0 <= pos < s.len() {
        lemma_block_at(s, pos);
        match block_at(s, pos) {
            Some((e, name, body)) => {
                lemma_blocks_from_names(s, e);
                let rest = blocks_from(s, e);
                assert(blocks_from(s, pos) == seq![(name, body)] + rest);
                assert(is_block_name(name));
                assert forall|i: int|
                    0 <= i < blocks_from(s, pos).len() implies is_block_name(
                    #[trigger] blocks_from(s, pos)[i].0,
                ) by {
                    if i > 0 {
                        assert(blocks_from(s, pos)[i] == rest[i - 1]);
                    }
                }
            },
            None => {
                lemma_blocks_from_names(s, pos + 1);
                assert(blocks_from(s, pos) == blocks_from(s, pos + 1));
            },
        }
    }
}

proof fn lemma_shas_from_digits(s: Seq<char>, pos: int)
    ensures
        forall|i: int|
            0 <= i < shas_from(s, pos).len() ==> is_sha_digits(#[trigger] shas_from(s, pos)[i].1),
    decreases s.len() - pos,
{
    if 0 <= pos < s.len() {
        lemma_sha_at(s, pos);
        match sha_at(s, pos) {
            Some((e, debug, sha)) => {
                lemma_shas_from_digits(s, e);
                let rest = shas_from(s, e);
                assert(shas_from(s, pos) == seq![(debug, sha)] + rest);
                assert(is_sha_digits(sha));
                assert forall|i: int|
                    0 <= i < shas_from(s, pos).len() implies is_sha_digits(
                    #[trigger] shas_from(s, pos)[i].1,
                ) by {
                    if i > 0 {
                        assert(shas_from(s, pos)[i] == rest[i - 1]);
                    }
                }
            },
            None => {
                lemma_shas_from_digits(s, pos + 1);
                assert(shas_from(s, pos) == shas_from(s, pos + 1));
            },
        }
    }
}

proof fn lemma_entries_of_blocks(blocks: Seq<(Seq<char>, Seq<char>)>)
    requires
        forall|i: int| 0 <= i < blocks.len() ==> is_block_name(#[trigger] blocks[i].0),
    ensures
        forall|i: int|
            0 <= i < entries_of_blocks(blocks).len() ==> is_checksum_key(
                #[trigger] entries_of_blocks(blocks)[i].0,
            ) && is_sha_digits(entries_of_blocks(blocks)[i].1),
    decreases blocks.len(),
{
    if blocks.len() > 0 {
        let init = blocks.drop_last();
        assert forall|i: int| 0 <= i < init.len() implies is_block_name(#[trigger] init[i].0) by {
            assert(init[i] == blocks[i]);
        }
        lemma_entries_of_blocks(init);
        let last = blocks.last();
        assert(is_block_name(blocks[blocks.len() - 1].0));
        let shas = shas_from(last.1, 0);
        lemma_shas_from_digits(last.1, 0);
        let a = entries_of_blocks(init);
        let b = block_entries(last.0, shas);
        assert forall|i: int|
            0 <= i < entries_of_blocks(blocks).len() implies is_checksum_key(
            #[trigger] entries_of_blocks(blocks)[i].0,
        ) && is_sha_digits(entries_of_blocks(blocks)[i].1) by {
            if i >= a.len() {
                let j = i - a.len();
                assert(entries_of_blocks(blocks)[i] == b[j]);
                assert(b[j] == (checksum_key(last.0, shas[j].0), shas[j].1));
                assert(is_sha_digits(shas[j].1));
                assert(is_block_name(last.0));
            } else {
                assert(entries_of_blocks(blocks)[i] == a[i]);
            }
        }
    }
}

proof fn lemma_table_of_entries(es: Seq<(Seq<char>, Seq<char>)>)
    requires
        forall|i: int|
            0 <= i < es.len() ==> is_checksum_key(#[trigger] es[i].0) && is_sha_digits(es[i].1),
    ensures
        forall|k: Seq<char>|
            #[trigger] table_of(es).contains_key(k) ==> is_checksum_key(k) && is_sha_digits(
                table_of(es)[k],
            ),
    decreases es.len(),
{
    if es.len() > 0 {
        let init = es.drop_last();
        assert forall|i: int| 0 <= i < init.len() implies is_checksum_key(#[trigger] init[i].0)
            && is_sha_digits(init[i].1) by {
            assert(init[i] == es[i]);
        }
        lemma_table_of_entries(init);
        let n = es.len() - 1;
        assert(0 <= n < es.len());
        assert(is_checksum_key(es[n].0));
        let last = es[n];
        assert forall|k: Seq<char>| #[trigger] table_of(es).contains_key(k) implies is_checksum_key(k)
            && is_sha_digits(table_of(es)[k]) by {
            if k != last.0 {
                assert(table_of(init).contains_key(k));
            }
        }
    }
}

/// Every key that a manifest yields is a block name, or a block name followed
/// by `_debug`, and every checksum is exactly 64 hex digits.
pub proof fn lemma_manifest_checksums_shape(text: Seq<char>)
    ensures
        forall|k: Seq<char>|
            #[trigger] manifest_checksums(text).contains_key(k) ==> is_checksum_key(k)
                && is_sha_digits(manifest_checksums(text)[k]),
{
    lemma_blocks_from_names(text, 0);
    lemma_entries_of_blocks(blocks_from(text, 0));
    lemma_table_of_entries(manifest_entries(text));
}

/// An ASCII letter, digit or underscore.
pub open spec fn is_ascii_word_char(c: char) -> bool {
    ('a' <= c && c <= 'z') || ('A' <= c && c <= 'Z') || ('0' <= c && c <= '9') || c == '_'
}

/// An ASCII hex digit, in either case.
pub open spec fn is_ascii_hex_char(c: char) -> bool {
    ('a' <= c && c <= 'f') || ('A' <= c && c <= 'F') || ('0' <= c && c <= '9')
}

/// The character classes of the grammar, by their characters: a name is made
/// of ASCII letters, digits and `_`; a checksum of ASCII hex digits in either
/// case; a body of anything but `]`; white space holds the ASCII blanks and
/// none of the grammar's punctuation.
pub proof fn lemma_char_classes(c: char)
    ensures
        in_class(CharClass::Word, c) <==> is_ascii_word_char(c),
        in_class(CharClass::Hex, c) <==> is_ascii_hex_char(c),
        in_class(CharClass::NotClose, c) <==> c != ']',
        in_class(CharClass::Space, c) ==> c != '"' && c != ':' && c != '[' && c != '+',
        c == ' ' || c == '\t' || c == '\n' || c == '\r' ==> in_class(CharClass::Space, c),
{
}

/// The end of a run of `cls` characters is where the run stops.
pub proof fn lemma_run_end_at(s: Seq<char>, i: int, e: int, cls: CharClass)
    requires
        0 <= i <= e <= s.len(),
        forall|k: int| i <= k < e ==> in_class(cls, #[trigger] s[k]),
        e == s.len() || !in_class(cls, s[e]),
    ensures
        run_end(s, i, cls) == e,
    decreases e - i,
{
    if i < e {
        lemma_run_end_at(s, i + 1, e, cls);
    }
}

/// The body of a block that holds one release checksum `h`:
/// ` "sha256": "h" `.
pub open spec fn release_body(h: Seq<char>) -> Seq<char> {
    seq![' ', '"', 's', 'h', 'a', '2', '5', '6', '"', ':', ' ', '"'] + h + seq!['"', ' ']
}

/// The block `"n": [ "sha256": "h" ]`, as a manifest lists a binary.
pub open spec fn release_block(n: Seq<char>, h: Seq<char>) -> Seq<char> {
    seq!['"'] + n + seq!['"', ':', ' ', '['] + release_body(h) + seq![']']
}

/// A manifest made of one block `"n": [ "sha256": "h" ]` declares exactly the
/// checksum `h` for `n`, for every name `n` of ASCII letters, digits and `_`
/// and every 64 hex digits `h`.
pub proof fn lemma_release_block(n: Seq<char>, h: Seq<char>)
    requires
        n.len() > 0,
        forall|i: int| 0 <= i < n.len() ==> is_ascii_word_char(#[trigger] n[i]),
        h.len() == 64,
        forall|i: int| 0 <= i < h.len() ==> is_ascii_hex_char(#[trigger] h[i]),
    ensures
        manifest_checksums(release_block(n, h)) == map![n => h],
{
    let s = release_block(n, h);
    let body = release_body(h);
    let l = n.len() as int;
    assert forall|c: char| #![auto] in_class(CharClass::Word, c) <==> is_ascii_word_char(c) by {
        lemma_char_classes(c);
    }
    assert forall|c: char| #![auto] in_class(CharClass::Hex, c) <==> is_ascii_hex_char(c) by {
        lemma_char_classes(c);
    }
    assert(s.len() == l + 84);
    assert(body.len() == 78);
    assert forall|k: int| 0 <= k < l implies s[1 + k] == n[k] by {}
    assert forall|k: int| 0 <= k < 78 implies s[l + 5 + k] == body[k] by {}
    assert forall|k: int| 0 <= k < 64 implies body[12 + k] == h[k] by {}
    assert(s[0] == '"' && s[l + 1] == '"' && s[l + 2] == ':' && s[l + 3] == ' ' && s[l + 4] == '['
        && s[l + 83] == ']');
    // The block.
    lemma_run_end_at(s, 1, l + 1, CharClass::Word);
    lemma_run_end_at(s, l + 2, l + 2, CharClass::Space);
    lemma_run_end_at(s, l + 3, l + 4, CharClass::Space);
    assert forall|k: int| l + 5 <= k < l + 83 implies in_class(CharClass::NotClose, #[trigger] s[k]) by {
        assert(s[k] == body[k - l - 5]);
        if 12 <= k - l - 5 < 76 {
            assert(body[k - l - 5] == h[k - l - 17]);
        }
    }
    lemma_run_end_at(s, l + 5, l + 83, CharClass::NotClose);
    assert(s.subrange(1, l + 1) =~= n);
    assert(s.subrange(l + 5, l + 83) =~= body);
    assert(block_at(s, 0) == Some((l + 84, n, body)));
    assert(blocks_from(s, l + 84) == Seq::<(Seq<char>, Seq<char>)>::empty());
    assert(blocks_from(s, 0) =~= seq![(n, body)]);
    // The checksum in its body.
    assert(sha_at(body, 0) is None);
    assert(body.subrange(1, 9) =~= sha_key());
    lemma_run_end_at(body, 9, 9, CharClass::Space);
    lemma_run_end_at(body, 10, 11, CharClass::Space);
    lemma_run_end_at(body, 12, 76, CharClass::Hex);
    assert(body.subrange(12, 76) =~= h);
    assert(sha_at(body, 1) == Some((77int, false, h)));
    assert(sha_at(body, 77) is None);
    assert(shas_from(body, 78) == Seq::<(bool, Seq<char>)>::empty());
    assert(shas_from(body, 77) == Seq::<(bool, Seq<char>)>::empty());
    assert(shas_from(body, 1) =~= seq![(false, h)]);
    assert(shas_from(body, 0) == shas_from(body, 1));
    // The table.
    let blocks = seq![(n, body)];
    assert(blocks.drop_last() =~= Seq::<(Seq<char>, Seq<char>)>::empty());
    assert(block_entries(n, seq![(false, h)]) =~= seq![(n, h)]);
    assert(blocks.last() == (n, body));
    assert(entries_of_blocks(blocks.drop_last()) == Seq::<(Seq<char>, Seq<char>)>::empty());
    assert(shas_from(blocks.last().1, 0) == seq![(false, h)]);
    assert(entries_of_blocks(blocks) =~= seq![(n, h)]);
    let es = seq![(n, h)];
    assert(es.drop_last() =~= Seq::<(Seq<char>, Seq<char>)>::empty());
    assert(table_of(es.drop_last()) == Map::<Seq<char>, Seq<char>>::empty());
    assert(es.last() == (n, h));
    assert(table_of(es) =~= map![n => h]);
}
}
