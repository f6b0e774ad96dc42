//! Character-sequence helpers shared by the parsers in this crate.
//!
//! Everything here works on `Vec<char>` / `Seq<char>`: the parsers index
//! characters, never bytes, so a slice can never split a UTF-8 sequence.
use vstd::prelude::*;

verus! {

/// The characters of `s`, in order.
pub fn chars_of(s: &str) -> (r: Vec<char>)
    ensures
        r@ == s@,
{
    let mut out: Vec<char> = Vec::new();
    for c in it: s.chars()
        invariant
            out@ == it.seq().take(it.index() as int),
    {
        out.push(c);
    }
    out
}

/// Collects characters into a `String` (std's `FromIterator<&char>` for
/// `String`, which appends each character in order).
#[verifier::external_body]
pub(crate) fn string_of(v: &[char]) -> (r: String)
    ensures
        r@ == v@,
{
    v.iter().collect()
}

/// Unicode `White_Space`, exactly as `char::is_whitespace` defines it.
pub open spec fn spec_is_ws(c: char) -> bool {
    let u = c as u32;
    ||| (0x09 <= u && u <= 0x0d)
    ||| u == 0x20
    ||| u == 0x85
    ||| u == 0xa0
    ||| u == 0x1680
    ||| (0x2000 <= u && u <= 0x200a)
    ||| u == 0x2028
    ||| u == 0x2029
    ||| u == 0x202f
    ||| u == 0x205f
    ||| u == 0x3000
}

/// `char::is_whitespace`.
pub fn is_ws(c: char) -> (r: bool)
    ensures
        r == spec_is_ws(c),
{
    let u = c as u32;
    (0x09 <= u && u <= 0x0d) || u == 0x20 || u == 0x85 || u == 0xa0 || u == 0x1680 || (0x2000
        <= u && u <= 0x200a) || u == 0x2028 || u == 0x2029 || u == 0x202f || u == 0x205f || u
        == 0x3000
}

/// Number of leading whitespace characters of `s`.
pub open spec fn ws_prefix_len(s: Seq<char>) -> nat
    decreases s.len(),
{
    if s.len() > 0 && spec_is_ws(s[0]) {
        1 + ws_prefix_len(s.drop_first())
    } else {
        0
    }
}

/// Number of trailing whitespace characters of `s`.
pub open spec fn ws_suffix_len(s: Seq<char>) -> nat
    decreases s.len(),
{
    if s.len() > 0 && spec_is_ws(s.last()) {
        1 + ws_suffix_len(s.drop_last())
    } else {
        0
    }
}

pub proof fn lemma_ws_prefix_len_bound(s: Seq<char>)
    ensures
        ws_prefix_len(s) <= s.len(),
    decreases s.len(),
{
    if s.len() > 0 && spec_is_ws(s[0]) {
        lemma_ws_prefix_len_bound(s.drop_first());
    }
}

pub proof fn lemma_ws_suffix_len_bound(s: Seq<char>)
    ensures
        ws_suffix_len(s) <= s.len(),
    decreases s.len(),
{
    if s.len() > 0 && spec_is_ws(s.last()) {
        lemma_ws_suffix_len_bound(s.drop_last());
    }
}

/// `str::trim_start`.
pub open spec fn trim_start(s: Seq<char>) -> Seq<char> {
    s.skip(ws_prefix_len(s) as int)
}

/// `str::trim_end`.
pub open spec fn trim_end(s: Seq<char>) -> Seq<char> {
    s.take(s.len() - ws_suffix_len(s))
}

/// `str::trim`.
pub open spec fn trim(s: Seq<char>) -> Seq<char> {
    trim_end(trim_start(s))
}

/// Bounds `(a, b)` such that `t[a..b]` is `t[lo..hi]` trimmed.
pub fn trim_bounds(t: &Vec<char>, lo: usize, hi: usize) -> (r: (usize, usize))
    requires
        lo <= hi <= t.len(),
    ensures
        lo <= r.0 <= r.1 <= hi,
        t@.subrange(r.0 as int, r.1 as int) == trim(t@.subrange(lo as int, hi as int)),
{
    let ghost s = t@.subrange(lo as int, hi as int);
    let mut a = lo;
    while a < hi && is_ws(t[a])
        invariant
            lo <= a <= hi <= t.len(),
            s == t@.subrange(lo as int, hi as int),
            ws_prefix_len(s) == (a - lo) + ws_prefix_len(t@.subrange(a as int, hi as int)),
        decreases hi - a,
    {
        assert(t@.subrange(a as int, hi as int).drop_first() =~= t@.subrange(
            a + 1,
            hi as int,
        ));
        a = a + 1;
    }
    assert(ws_prefix_len(t@.subrange(a as int, hi as int)) == 0);
    assert(trim_start(s) =~= t@.subrange(a as int, hi as int));
    let ghost s2 = t@.subrange(a as int, hi as int);
    let mut b = hi;
    while b > a && is_ws(t[b - 1])
        invariant
            lo <= a <= b <= hi <= t.len(),
            s2 == t@.subrange(a as int, hi as int),
            ws_suffix_len(s2) == (hi - b) + ws_suffix_len(t@.subrange(a as int, b as int)),
        decreases b - a,
    {
        assert(t@.subrange(a as int, b as int).drop_last() =~= t@.subrange(
            a as int,
            b - 1,
        ));
        b = b - 1;
    }
    assert(ws_suffix_len(t@.subrange(a as int, b as int)) == 0);
    assert(trim_end(s2) =~= t@.subrange(a as int, b as int));
    (a, b)
}

/// A copy of `t[lo..hi]`.
pub fn copy_range(t: &Vec<char>, lo: usize, hi: usize) -> (r: Vec<char>)
    requires
        lo <= hi <= t.len(),
    ensures
        r@ == t@.subrange(lo as int, hi as int),
{
    let mut out: Vec<char> = Vec::new();
    let mut i = lo;
    while i < hi
        invariant
            lo <= i <= hi <= t.len(),
            out@ == t@.subrange(lo as int, i as int),
        decreases hi - i,
    {
        out.push(t[i]);
        i = i + 1;
        assert(out@ =~= t@.subrange(lo as int, i as int));
    }
    out
}

/// A copy of `v`.
pub fn copy_chars(v: &Vec<char>) -> (r: Vec<char>)
    ensures
        r@ == v@,
{
    let r = copy_range(v, 0, v.len());
    assert(v@.subrange(0, v@.len() as int) =~= v@);
    r
}

/// Whether `w` holds exactly the characters of `lit`.
pub fn word_is(w: &Vec<char>, lit: &str) -> (r: bool)
    ensures
        r == (w@ == lit@),
{
    let l = chars_of(lit);
    eq_chars(w, &l)
}

/// Appends `src[lo..hi]` to `out`.
pub fn push_range(out: &mut Vec<char>, src: &Vec<char>, lo: usize, hi: usize)
    requires
        lo <= hi <= src.len(),
    ensures
        final(out)@ == old(out)@ + src@.subrange(lo as int, hi as int),
{
    let ghost start = out@;
    let mut i = lo;
    while i < hi
        invariant
            lo <= i <= hi <= src.len(),
            out@ == start + src@.subrange(lo as int, i as int),
        decreases hi - i,
    {
        out.push(src[i]);
        i = i + 1;
        assert(out@ =~= start + src@.subrange(lo as int, i as int));
    }
}

/// Appends all of `src` to `out`.
pub fn push_all(out: &mut Vec<char>, src: &Vec<char>)
    ensures
        final(out)@ == old(out)@ + src@,
{
    push_range(out, src, 0, src.len());
    assert(src@.subrange(0, src@.len() as int) =~= src@);
}

/// Whether `a` and `b` hold the same characters.
pub fn eq_chars(a: &Vec<char>, b: &Vec<char>) -> (r: bool)
    ensures
        r == (a@ == b@),
{
    if a.len() != b.len() {
        return false;
    }
    let mut i: usize = 0;
    while i < a.len()
        invariant
            0 <= i <= a.len(),
            a.len() == b.len(),
            forall|j: int| 0 <= j < i ==> a@[j] == b@[j],
        decreases a.len() - i,
    {
        if a[i] != b[i] {
            return false;
        }
        i = i + 1;
    }
    assert(a@ =~= b@);
    true
}

/// Whether `t[i..]` starts with `pat`.
pub open spec fn has_at(t: Seq<char>, i: int, pat: Seq<char>) -> bool {
    0 <= i && i + pat.len() <= t.len() && t.subrange(i, i + pat.len()) == pat
}

/// Whether `t[i..]` starts with `pat`.
pub fn matches_at(t: &Vec<char>, i: usize, pat: &Vec<char>) -> (r: bool)
    ensures
        r == has_at(t@, i as int, pat@),
{
    if i > t.len() || pat.len() > t.len() - i {
        return false;
    }
    let mut k: usize = 0;
    while k < pat.len()
        invariant
            0 <= k <= pat.len(),
            i + pat.len() <= t.len(),
            forall|j: int| 0 <= j < k ==> t@[i + j] == pat@[j],
        decreases pat.len() - k,
    {
        if t[i + k] != pat[k] {
            return false;
        }
        k = k + 1;
    }
    assert(t@.subrange(i as int, i + pat.len()) =~= pat@);
    true
}

/// `s.starts_with(pat)`.
pub open spec fn starts_with(s: Seq<char>, pat: Seq<char>) -> bool {
    has_at(s, 0, pat)
}

/// Position of the first occurrence of `pat` in `s` (`str::find`).
pub open spec fn find(s: Seq<char>, pat: Seq<char>) -> Option<int>
    decreases s.len(),
{
    if s.len() < pat.len() {
        None
    } else if starts_with(s, pat) {
        Some(0)
    } else if s.len() == 0 {
        None
    } else {
        match find(s.drop_first(), pat) {
            Some(k) => Some(k + 1),
            None => None,
        }
    }
}

pub proof fn lemma_find_bound(s: Seq<char>, pat: Seq<char>)
    ensures
        find(s, pat) matches Some(k) ==> 0 <= k && k + pat.len() <= s.len() && has_at(
            s,
            k,
            pat,
        ),
    decreases s.len(),
{
    if s.len() >= pat.len() && !starts_with(s, pat) && s.len() > 0 {
        lemma_find_bound(s.drop_first(), pat);
        if let Some(k) = find(s.drop_first(), pat) {
            assert(s.subrange(k + 1, k + 1 + pat.len()) =~= s.drop_first().subrange(
                k,
                k + pat.len(),
            ));
        }
    }
}

/// Absolute index of the first occurrence of `pat` in `t[from..]`.
pub fn find_from(t: &Vec<char>, from: usize, pat: &Vec<char>) -> (r: Option<usize>)
    requires
        from <= t.len(),
    ensures
        match find(t@.skip(from as int), pat@) {
            Some(k) => r == Some((k + from) as usize),
            None => r is None,
        },
{
    let mut i = from;
    while i <= t.len()
        invariant
            from <= i <= t.len() + 1,
            i <= t.len() ==> find(t@.skip(from as int), pat@) == match find(
                t@.skip(i as int),
                pat@,
            ) {
                Some(k) => Some(k + (i - from)),
                None => None,
            },
            i > t.len() ==> find(t@.skip(from as int), pat@) is None,
        decreases t.len() + 1 - i,
    {
        let ghost s = t@.skip(i as int);
        if pat.len() > t.len() - i {
            return None;
        }
        if matches_at(t, i, pat) {
            assert(s.subrange(0, pat@.len() as int) =~= t@.subrange(i as int, i + pat@.len()));
            return Some(i);
        }
        assert(s.subrange(0, pat@.len() as int) =~= t@.subrange(i as int, i + pat@.len()));
        if i == t.len() {
            return None;
        }
        assert(s.drop_first() =~= t@.skip(i + 1));
        i = i + 1;
    }
    None
}

pub proof fn lemma_trim_has_no_leading_ws(x: Seq<char>)
    ensures
        trim_start(trim(x)) == trim(x),
        ws_prefix_len(trim(x)) == 0,
{
    lemma_ws_prefix_len_bound(x);
    let s = trim_start(x);
    lemma_ws_suffix_len_bound(s);
    let k = ws_prefix_len(x);
    lemma_ws_prefix_skip(x);
    assert(trim(x) =~= s.take(s.len() - ws_suffix_len(s)));
    if trim(x).len() > 0 {
        assert(trim(x)[0] == s[0]);
    }
    assert(trim(x).skip(0) =~= trim(x));
}

pub proof fn lemma_ws_prefix_skip(x: Seq<char>)
    ensures
        ws_prefix_len(trim_start(x)) == 0,
    decreases x.len(),
{
    lemma_ws_prefix_len_bound(x);
    if x.len() > 0 && spec_is_ws(x[0]) {
        lemma_ws_prefix_skip(x.drop_first());
        lemma_ws_prefix_len_bound(x.drop_first());
        assert(trim_start(x) =~= trim_start(x.drop_first()));
    } else {
        assert(trim_start(x) =~= x);
    }
}

/// The first whitespace-separated word of `s`
/// (`s.split_whitespace().next().unwrap_or_default()`).
pub open spec fn first_word(s: Seq<char>) -> Seq<char> {
    word_at_start(trim_start(s))
}

/// The longest whitespace-free prefix of `s`.
pub open spec fn word_at_start(s: Seq<char>) -> Seq<char>
    decreases s.len(),
{
    if s.len() == 0 || spec_is_ws(s[0]) {
        Seq::empty()
    } else {
        seq![s[0]] + word_at_start(s.drop_first())
    }
}

/// Index just past the whitespace-free run starting at `i`.
pub fn word_end(t: &Vec<char>, i: usize, hi: usize) -> (r: usize)
    requires
        i <= hi <= t.len(),
    ensures
        i <= r <= hi,
        t@.subrange(i as int, r as int) == word_at_start(t@.subrange(i as int, hi as int)),
{
    let mut j = i;
    while j < hi && !is_ws(t[j])
        invariant
            i <= j <= hi <= t.len(),
            word_at_start(t@.subrange(i as int, hi as int)) == t@.subrange(i as int, j as int)
                + word_at_start(t@.subrange(j as int, hi as int)),
        decreases hi - j,
    {
        assert(t@.subrange(j as int, hi as int).drop_first() =~= t@.subrange(j + 1, hi as int));
        assert(t@.subrange(i as int, j + 1) =~= t@.subrange(i as int, j as int) + seq![t@[j as int]]);
        j = j + 1;
    }
    assert(t@.subrange(i as int, j as int) + Seq::<char>::empty() =~= t@.subrange(i as int, j as int));
    j
}


/// How `{:?}` writes one character inside a quoted string.
pub open spec fn escape_debug_char(c: char) -> Seq<char> {
    if c == '"' {
        seq!['\\', '"']
    } else if c == '\\' {
        seq!['\\', '\\']
    } else if c == '\n' {
        seq!['\\', 'n']
    } else if c == '\r' {
        seq!['\\', 'r']
    } else if c == '\t' {
        seq!['\\', 't']
    } else {
        seq![c]
    }
}

/// `s` with each character escaped as `{:?}` escapes it.
pub open spec fn escape_debug(s: Seq<char>) -> Seq<char>
    decreases s.len(),
{
    if s.len() == 0 {
        Seq::empty()
    } else {
        escape_debug(s.drop_last()) + escape_debug_char(s.last())
    }
}

/// `s` quoted and escaped, as `{:?}` shows a string.
pub open spec fn debug_quoted(s: Seq<char>) -> Seq<char> {
    seq!['"'] + escape_debug(s) + seq!['"']
}

/// Appends `s` quoted and escaped to `out`.
pub fn push_debug_quoted(out: &mut Vec<char>, s: &Vec<char>)
    ensures
        final(out)@ == old(out)@ + debug_quoted(s@),
{
    let ghost start = out@;
    out.push('"');
    let mut i: usize = 0;
    assert(s@.take(0) =~= Seq::<char>::empty());
    while i < s.len()
        invariant
            0 <= i <= s.len(),
            out@ == start + seq!['"'] + escape_debug(s@.take(i as int)),
        decreases s.len() - i,
    {
        let c = s[i];
        let ghost before = out@;
        if c == '"' {
            out.push('\\');
            out.push('"');
        } else if c == '\\' {
            out.push('\\');
            out.push('\\');
        } else if c == '\n' {
            out.push('\\');
            out.push('n');
        } else if c == '\r' {
            out.push('\\');
            out.push('r');
        } else if c == '\t' {
            out.push('\\');
            out.push('t');
        } else {
            out.push(c);
        }
        assert(out@ =~= before + escape_debug_char(c));
        assert(s@.take(i + 1).drop_last() =~= s@.take(i as int));
        i = i + 1;
    }
    out.push('"');
    assert(s@.take(s@.len() as int) =~= s@);
    assert(out@ =~= start + debug_quoted(s@));
}

/// Appends the characters of `lit` to `out`.
pub fn push_str(out: &mut Vec<char>, lit: &str)
    ensures
        final(out)@ == old(out)@ + lit@,
{
    let l = chars_of(lit);
    push_all(out, &l);
}


/// A copy of `t`, trimmed of whitespace at both ends (`str::trim`).
pub fn trimmed(t: &Vec<char>) -> (r: Vec<char>)
    ensures
        r@ == trim(t@),
{
    let (a, b) = trim_bounds(t, 0, t.len());
    assert(t@.subrange(0, t@.len() as int) =~= t@);
    copy_range(t, a, b)
}

pub open spec fn all_ascii(s: Seq<char>) -> bool {
    forall|i: int| 0 <= i < s.len() ==> (#[trigger] s[i] as u32) < 128
}

pub open spec fn ascii_upper_char(c: char) -> char {
    if 'a' <= c && c <= 'z' {
        ((c as u32) - 32) as char
    } else {
        c
    }
}

pub open spec fn ascii_lower_char(c: char) -> char {
    if 'A' <= c && c <= 'Z' {
        ((c as u32) + 32) as char
    } else {
        c
    }
}

/// What `str::to_uppercase` returns for a string (full Unicode case
/// mapping; a character may map to several).
pub uninterp spec fn uppercase(s: Seq<char>) -> Seq<char>;

/// What `str::to_lowercase` returns for a string.
pub uninterp spec fn lowercase(s: Seq<char>) -> Seq<char>;

/// `str::to_uppercase`. Its result is named [`uppercase`]; on ASCII text it
/// maps `a`-`z` to `A`-`Z` and keeps every other character.
#[verifier::external_body]
pub(crate) fn to_upper(s: &str) -> (r: String)
    ensures
        r@ == uppercase(s@),
        all_ascii(s@) ==> r@ == s@.map_values(|c: char| ascii_upper_char(c)),
{
    s.to_uppercase()
}

/// `str::to_lowercase`. Its result is named [`lowercase`]; on ASCII text it
/// maps `A`-`Z` to `a`-`z` and keeps every other character.
#[verifier::external_body]
pub(crate) fn to_lower(s: &str) -> (r: String)
    ensures
        r@ == lowercase(s@),
        all_ascii(s@) ==> r@ == s@.map_values(|c: char| ascii_lower_char(c)),
{
    s.to_lowercase()
}


/// Position of the first occurrence of `pat` in `t` (`str::find`).
pub fn find_in(t: &Vec<char>, pat: &Vec<char>) -> (r: Option<usize>)
    ensures
        match find(t@, pat@) {
            Some(k) => r matches Some(j) && j == k && k + pat@.len() <= t@.len(),
            None => r is None,
        },
{
    proof {
        assert(t@.skip(0) =~= t@);
        lemma_find_bound(t@, pat@);
    }
    let r = find_from(t, 0, pat);
    proof {
        let f = find(t@, pat@);
        assert(find(t@.skip(0), pat@) == f);
        if let Some(k) = f {
            assert(t@.len() == t.len());
            assert(0 <= k <= t@.len());
            assert(r == Some((k + 0) as usize));
            assert((k + 0) as usize as int == k);
        }
    }
    r
}

} // verus!
