use vstd::prelude::*;

verus! {

/// Unicode `White_Space`: the characters that `\s` of a Unicode regex and
/// `char::is_whitespace` accept.
pub open spec fn is_white_space(c: char) -> bool {
    let u = c as u32;
    ||| 0x09 <= u <= 0x0d
    ||| u == 0x20
    ||| u == 0x85
    ||| u == 0xa0
    ||| u == 0x1680
    ||| 0x2000 <= u <= 0x200a
    ||| u == 0x2028
    ||| u == 0x2029
    ||| u == 0x202f
    ||| u == 0x205f
    ||| u == 0x3000
}

pub fn white_space(c: char) -> (res: bool)
    ensures
        res == is_white_space(c),
{
    let u = c as u32;
    (0x09 <= u && u <= 0x0d) || u == 0x20 || u == 0x85 || u == 0xa0 || u == 0x1680 || (0x2000
        <= u && u <= 0x200a) || u == 0x2028 || u == 0x2029 || u == 0x202f || u == 0x205f || u
        == 0x3000
}

/// The characters of `s`, one per element.
pub fn chars_of(s: &str) -> (res: Vec<char>)
    ensures
        res@ == s@,
{
    let mut res: Vec<char> = Vec::new();
    for c in it: s.chars()
        invariant
            res@ == it.seq().take(it.index() as int),
            it.seq() == s@,
    {
        res.push(c);
    }
    res
}

/// Appends one character to a string (`String::push`).
#[verifier::external_body]
fn push_char(s: &mut String, c: char)
    ensures
        final(s)@ == old(s)@.push(c),
{
    s.push(c);
}

/// A string holding exactly the given characters.
pub fn string_of(chars: &[char]) -> (res: String)
    ensures
        res@ == chars@,
{
    let mut res = String::new();
    let mut i: usize = 0;
    while i < chars.len()
        invariant
            i <= chars@.len(),
            res@ == chars@.take(i as int),
        decreases chars@.len() - i,
    {
        push_char(&mut res, chars[i]);
        i = i + 1;
        assert(chars@.take(i as int) == chars@.take(i - 1).push(chars@[i - 1]));
    }
    assert(chars@.take(chars@.len() as int) == chars@);
    res
}


/// `p` stands in `s` from position `i` on.
pub open spec fn occurs_at(s: Seq<char>, p: Seq<char>, i: int) -> bool {
    0 <= i && i + p.len() <= s.len() && s.subrange(i, i + p.len()) == p
}

/// `p` stands somewhere in `s` (`str::contains`).
pub open spec fn contains(s: Seq<char>, p: Seq<char>) -> bool {
    exists|i: int| #[trigger] occurs_at(s, p, i)
}

/// Whether `p` stands in `s` from position `i` on.
pub fn occurs_at_exec(s: &Vec<char>, p: &Vec<char>, i: usize) -> (res: bool)
    ensures
        res == occurs_at(s@, p@, i as int),
{
    let n = s.len();
    if i > n || p.len() > n - i {
        return false;
    }
    let mut k: usize = 0;
    while k < p.len()
        invariant
            n == s@.len(),
            i + p@.len() <= s@.len(),
            k <= p@.len(),
            forall|m: int| 0 <= m < k ==> s@[i + m] == p@[m],
        decreases p@.len() - k,
    {
        if s[i + k] != p[k] {
            assert(s@.subrange(i as int, i + p@.len())[k as int] != p@[k as int]);
            return false;
        }
        k = k + 1;
    }
    assert(s@.subrange(i as int, i + p@.len()) =~= p@);
    true
}

/// Whether `p` stands somewhere in `s`.
pub fn contains_chars(s: &Vec<char>, p: &Vec<char>) -> (res: bool)
    ensures
        res == contains(s@, p@),
{
    if p.len() == 0 {
        assert(s@.subrange(0, 0) =~= p@);
        assert(occurs_at(s@, p@, 0));
        return true;
    }
    if p.len() > s.len() {
        assert forall|i: int| !#[trigger] occurs_at(s@, p@, i) by {}
        return false;
    }
    let end = s.len() - p.len() + 1;
    let mut i: usize = 0;
    while i < end
        invariant
            end == s@.len() - p@.len() + 1,
            i <= end,
            forall|j: int| 0 <= j < i ==> !#[trigger] occurs_at(s@, p@, j),
        decreases end - i,
    {
        if occurs_at_exec(s, p, i) {
            return true;
        }
        i = i + 1;
    }
    assert forall|j: int| !#[trigger] occurs_at(s@, p@, j) by {
        if 0 <= j && j + p@.len() <= s@.len() {
            assert(j < i);
        }
    }
    false
}

/// Whether the text `p` stands somewhere in the text `s` (`str::contains`).
pub fn str_contains(s: &str, p: &str) -> (res: bool)
    ensures
        res == contains(s@, p@),
{
    let sv = chars_of(s);
    let pv = chars_of(p);
    contains_chars(&sv, &pv)
}

/// `s` with every occurrence of the non-empty `p` replaced by `r`, occurrences
/// taken left to right without overlap (`str::replace`).
pub open spec fn replace_all(s: Seq<char>, p: Seq<char>, r: Seq<char>) -> Seq<char>
    decreases s.len(),
{
    if s.len() == 0 {
        seq![]
    } else if p.len() > 0 && occurs_at(s, p, 0) {
        r + replace_all(s.skip(p.len() as int), p, r)
    } else {
        seq![s[0]] + replace_all(s.skip(1), p, r)
    }
}

proof fn lemma_occurs_skip(s: Seq<char>, p: Seq<char>, i: int)
    requires
        0 <= i <= s.len(),
    ensures
        occurs_at(s.skip(i), p, 0) == occurs_at(s, p, i),
{
    if i + p.len() <= s.len() {
        assert(s.skip(i).subrange(0, p.len() as int) =~= s.subrange(i, i + p.len()));
    }
}

/// `s` with every occurrence of `p` replaced by `r`.
pub fn replace_chars(s: &Vec<char>, p: &Vec<char>, r: &Vec<char>) -> (res: Vec<char>)
    requires
        p@.len() > 0,
    ensures
        res@ == replace_all(s@, p@, r@),
{
    let mut out: Vec<char> = Vec::new();
    let mut i: usize = 0;
    assert(s@.skip(0) =~= s@);
    while i < s.len()
        invariant
            p@.len() > 0,
            i <= s@.len(),
            replace_all(s@, p@, r@) == out@ + replace_all(s@.skip(i as int), p@, r@),
        decreases s@.len() - i,
    {
        proof {
            lemma_occurs_skip(s@, p@, i as int);
        }
        let ghost rest = s@.skip(i as int);
        if occurs_at_exec(s, p, i) {
            let mut k: usize = 0;
            let ghost before = out@;
            while k < r.len()
                invariant
                    k <= r@.len(),
                    out@ == before + r@.take(k as int),
                decreases r@.len() - k,
            {
                out.push(r[k]);
                k = k + 1;
                assert(r@.take(k as int) =~= r@.take(k - 1).push(r@[k - 1]));
            }
            assert(r@.take(r@.len() as int) =~= r@);
            assert(rest.skip(p@.len() as int) =~= s@.skip(i + p@.len()));
            assert(out@ + replace_all(s@.skip(i + p@.len()), p@, r@) =~= before + (r@ + replace_all(
                rest.skip(p@.len() as int),
                p@,
                r@,
            )));
            i = i + p.len();
        } else {
            let ghost before = out@;
            out.push(s[i as usize]);
            assert(rest.skip(1) =~= s@.skip(i + 1));
            assert(rest[0] == s@[i as int]);
            assert(out@ + replace_all(s@.skip(i + 1), p@, r@) =~= before + (seq![rest[0]]
                + replace_all(rest.skip(1), p@, r@)));
            i = i + 1;
        }
    }
    assert(s@.skip(i as int) =~= Seq::<char>::empty());
    assert(out@ + replace_all(s@.skip(i as int), p@, r@) =~= out@);
    out
}

/// The character of a decimal digit.
pub open spec fn digit_char(d: int) -> char {
    seq!['0', '1', '2', '3', '4', '5', '6', '7', '8', '9'][d]
}

/// The decimal digits of `n`, without leading zeros (`format!("{n}")`).
pub open spec fn decimal(n: nat) -> Seq<char>
    decreases n,
{
    if n < 10 {
        seq![digit_char(n as int)]
    } else {
        decimal(n / 10).push(digit_char((n % 10) as int))
    }
}

/// The decimal digits of a byte value.
pub fn decimal_u8(n: u8) -> (res: Vec<char>)
    ensures
        res@ == decimal(n as nat),
{
    let digits: [char; 10] = ['0', '1', '2', '3', '4', '5', '6', '7', '8', '9'];
    assert(digits@ == seq!['0', '1', '2', '3', '4', '5', '6', '7', '8', '9']);
    let mut res: Vec<char> = Vec::new();
    if n >= 100 {
        res.push(digits[(n / 100) as usize]);
        res.push(digits[((n / 10) % 10) as usize]);
        res.push(digits[(n % 10) as usize]);
        assert(decimal((n / 100) as nat) == seq![digit_char((n / 100) as int)]);
        assert(decimal((n / 10) as nat) == decimal((n / 100) as nat).push(
            digit_char(((n / 10) % 10) as int),
        ));
    } else if n >= 10 {
        res.push(digits[(n / 10) as usize]);
        res.push(digits[(n % 10) as usize]);
        assert(decimal((n / 10) as nat) == seq![digit_char((n / 10) as int)]);
    } else {
        res.push(digits[n as usize]);
    }
    res
}

/// `s` without its leading white space (`str::trim_start`).
pub open spec fn trim_start(s: Seq<char>) -> Seq<char>
    decreases s.len(),
{
    if s.len() > 0 && is_white_space(s[0]) {
        trim_start(s.drop_first())
    } else {
        s
    }
}

/// `s` without its trailing white space (`str::trim_end`).
pub open spec fn trim_end(s: Seq<char>) -> Seq<char>
    decreases s.len(),
{
    if s.len() > 0 && is_white_space(s.last()) {
        trim_end(s.drop_last())
    } else {
        s
    }
}

/// `s` without leading or trailing white space (`str::trim`).
pub open spec fn trim(s: Seq<char>) -> Seq<char> {
    trim_end(trim_start(s))
}

/// The text `s` without leading or trailing white space.
pub fn trim_string(s: &str) -> (res: String)
    ensures
        res@ == trim(s@),
{
    let v = chars_of(s);
    let mut lo: usize = 0;
    assert(v@.skip(0) =~= v@);
    while lo < v.len() && white_space(v[lo])
        invariant
            lo <= v@.len(),
            trim_start(v@) == trim_start(v@.skip(lo as int)),
        decreases v@.len() - lo,
    {
        assert(v@.skip(lo as int).drop_first() =~= v@.skip(lo + 1));
        lo = lo + 1;
    }
    let ghost mid = v@.skip(lo as int);
    assert(trim_start(v@) == mid);
    let mut hi: usize = v.len();
    while hi > lo && white_space(v[hi - 1])
        invariant
            lo <= hi <= v@.len(),
            mid == v@.skip(lo as int),
            trim_end(mid) == trim_end(v@.subrange(lo as int, hi as int)),
        decreases hi,
    {
        assert(v@.subrange(lo as int, hi as int).drop_last() =~= v@.subrange(lo as int, hi - 1));
        hi = hi - 1;
    }
    let mut out: Vec<char> = Vec::new();
    let mut k = lo;
    while k < hi
        invariant
            lo <= k <= hi <= v@.len(),
            out@ == v@.subrange(lo as int, k as int),
        decreases hi - k,
    {
        out.push(v[k]);
        k = k + 1;
        assert(out@ =~= v@.subrange(lo as int, k as int));
    }
    assert(trim_end(v@.subrange(lo as int, hi as int)) == v@.subrange(lo as int, hi as int));
    assert(mid =~= v@.subrange(lo as int, v@.len() as int));
    string_of(&out)
}

/// Whether two texts are equal, character for character.
pub fn same_text(a: &str, b: &str) -> (res: bool)
    ensures
        res == (a@ == b@),
{
    let x = a.to_owned();
    let y = b.to_owned();
    x == y
}

/// The views of a list of strings.
pub open spec fn views(v: Seq<String>) -> Seq<Seq<char>> {
    v.map_values(|s: String| s@)
}

/// `parts` joined with `/` between neighbours (`[String]::join("/")`).
pub open spec fn join_slash(parts: Seq<Seq<char>>) -> Seq<char>
    decreases parts.len(),
{
    if parts.len() == 0 {
        seq![]
    } else if parts.len() == 1 {
        parts[0]
    } else {
        join_slash(parts.drop_last()) + seq!['/'] + parts.last()
    }
}

/// The strings of `parts` joined with `/` between neighbours.
pub fn join_with_slash(parts: &Vec<String>) -> (res: String)
    ensures
        res@ == join_slash(views(parts@)),
{
    let mut res = String::new();
    let mut i: usize = 0;
    while i < parts.len()
        invariant
            i <= parts@.len(),
            res@ == join_slash(views(parts@).take(i as int)),
        decreases parts@.len() - i,
    {
        let ghost before = views(parts@).take(i as int);
        if i > 0 {
            res.append("/");
            proof {
                reveal_strlit("/");
            }
        }
        res.append(parts[i].as_str());
        i = i + 1;
        proof {
            let now = views(parts@).take(i as int);
            assert(now.drop_last() =~= before);
            assert(now.last() == parts@[i - 1]@);
            if i == 1 {
                assert(before.len() == 0);
                assert(res@ =~= parts@[0]@);
            }
        }
    }
    assert(views(parts@).take(parts@.len() as int) =~= views(parts@));
    res
}

/// A pattern that starts with `_` and holds neither `_` nor `.` after that.
pub open spec fn is_tag_pattern(p: Seq<char>) -> bool {
    &&& p.len() > 0
    &&& p[0] == '_'
    &&& forall|i: int| 1 <= i < p.len() ==> #[trigger] p[i] != '_' && p[i] != '.'
}

/// Text that is empty or starts with `_` or `.`.
pub open spec fn starts_at_boundary(t: Seq<char>) -> bool {
    t.len() == 0 || t[0] == '_' || t[0] == '.'
}

/// Replacing a tag pattern in `b + t` leaves `b` alone when `b` holds no
/// occurrence of it and `t` starts at a boundary.
pub proof fn lemma_replace_all_prefix(b: Seq<char>, t: Seq<char>, p: Seq<char>, r: Seq<char>)
    requires
        is_tag_pattern(p),
        !contains(b, p),
        starts_at_boundary(t),
    ensures
        replace_all(b + t, p, r) == b + replace_all(t, p, r),
    decreases b.len(),
{
    let s = b + t;
    if b.len() == 0 {
        assert(s =~= t);
        assert(b + replace_all(t, p, r) =~= replace_all(t, p, r));
    } else {
        if occurs_at(s, p, 0) {
            if p.len() <= b.len() {
                assert(b.subrange(0, p.len() as int) =~= s.subrange(0, p.len() as int));
                assert(occurs_at(b, p, 0));
            } else {
                assert(s.subrange(0, p.len() as int)[b.len() as int] == p[b.len() as int]);
                assert(s[b.len() as int] == t[0]);
                assert(p[b.len() as int] != '_' && p[b.len() as int] != '.');
            }
        }
        let b1 = b.skip(1);
        assert(!contains(b1, p)) by {
            if contains(b1, p) {
                let i = choose|i: int| occurs_at(b1, p, i);
                assert(b.subrange(i + 1, i + 1 + p.len()) =~= b1.subrange(i, i + p.len()));
                assert(occurs_at(b, p, i + 1));
            }
        }
        lemma_replace_all_prefix(b1, t, p, r);
        assert(s.skip(1) =~= b1 + t);
        assert(seq![s[0]] + (b1 + replace_all(t, p, r)) =~= b + replace_all(t, p, r));
    }
}

/// A word that starts with `_` and holds no other `_` or `.`, followed by text
/// that starts at a boundary: replacing a tag pattern drops the word when it is
/// the pattern, and keeps it when the pattern does not start it.
pub proof fn lemma_replace_all_word(w: Seq<char>, rest: Seq<char>, p: Seq<char>, r: Seq<char>)
    requires
        is_tag_pattern(p),
        is_tag_pattern(w),
        starts_at_boundary(rest),
    ensures
        w == p ==> replace_all(w + rest, p, r) == r + replace_all(rest, p, r),
        !occurs_at(w, p, 0) ==> replace_all(w + rest, p, r) == w + replace_all(rest, p, r),
{
    if w == p {
        assert((w + rest).subrange(0, p.len() as int) =~= p);
        assert((w + rest).skip(p.len() as int) =~= rest);
    }
    if !occurs_at(w, p, 0) {
        assert(!contains(w, p)) by {
            if contains(w, p) {
                let i = choose|i: int| occurs_at(w, p, i);
                assert(w.subrange(i, i + p.len())[0] == p[0]);
                assert(w[i] == '_');
            }
        }
        lemma_replace_all_prefix(w, rest, p, r);
    }
}

/// Text without `_` is left alone by replacing a tag pattern.
pub proof fn lemma_replace_all_plain(t: Seq<char>, p: Seq<char>, r: Seq<char>)
    requires
        is_tag_pattern(p),
        !t.contains('_'),
    ensures
        replace_all(t, p, r) == t,
{
    assert(!contains(t, p)) by {
        if contains(t, p) {
            let i = choose|i: int| occurs_at(t, p, i);
            assert(t.subrange(i, i + p.len())[0] == p[0]);
            assert(t[i] == '_');
        }
    }
    assert(replace_all(Seq::<char>::empty(), p, r) =~= Seq::<char>::empty());
    lemma_replace_all_prefix(t, Seq::<char>::empty(), p, r);
    assert(t + Seq::<char>::empty() =~= t);
}
}
