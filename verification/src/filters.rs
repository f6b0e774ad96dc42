//! The filter functions used by the Cardigann v11 corpus.
//!
//! Each filter's meaning is a spec function of this module over character
//! sequences (and, for byte-level filters, UTF-8 bytes); the Unicode case
//! mappings, regular expressions and date parsing are outside code, named
//! by the spec functions their wrappers speak of.
use vstd::prelude::*;

use crate::engine::dec_value;
use crate::error::CardigannError;
use crate::pattern::{spec_compile, spec_first_group, spec_replace_all, Pattern};
use crate::selector::{alphanumeric, char_from_u32, hex_value, is_alphanumeric, is_hex, scalar};
use crate::template::join_with;
use crate::netlayout::{net_layout_to_chrono, spec_layout};
use crate::fuzzydate::{fuzzy_rfc3339, in_i64, parse_fuzzy, Instant};
use crate::datetime::{
    naive_date_midnight, naive_datetime_rfc3339, naive_time_of_day, offset_parse_rfc3339, parse_naive_date,
    parse_naive_datetime, parse_naive_time, parse_with_offset, midnight_of, rfc3339, rfc3339_at, utc_midnight,
};

use crate::text::{chars_of, copy_chars, copy_range, find, find_in, matches_at, push_all, push_range, spec_is_ws, starts_with, string_of, trim, trimmed, is_ws, word_is, lowercase, to_lower, uppercase, to_upper};

verus! {

// ---------------------------------------------------------------------------
// Numbers in text
// ---------------------------------------------------------------------------
pub open spec fn is_digit(c: char) -> bool {
    '0' <= c && c <= '9'
}

pub open spec fn all_digits(s: Seq<char>) -> bool {
    forall|i: int| 0 <= i < s.len() ==> is_digit(#[trigger] s[i])
}

/// What `str::parse` gives for an unsigned integer type whose largest
/// value is `max`: an optional `+`, then one or more ASCII digits, with a
/// value no larger than `max`.
pub open spec fn parse_unsigned(s: Seq<char>, max: nat) -> Option<nat> {
    let body = if s.len() > 0 && s[0] == '+' {
        s.drop_first()
    } else {
        s
    };
    if body.len() == 0 || !all_digits(body) || dec_value(body) > max {
        None
    } else {
        Some(dec_value(body))
    }
}

/// What `str::parse::<i64>` gives: an optional sign, then one or more
/// ASCII digits, with a value in range.
pub open spec fn parse_i64(s: Seq<char>) -> Option<int> {
    if s.len() > 0 && s[0] == '-' {
        let body = s.drop_first();
        if body.len() == 0 || !all_digits(body) || dec_value(body) > 0x8000_0000_0000_0000 {
            None
        } else {
            Some(-(dec_value(body) as int))
        }
    } else {
        match parse_unsigned(s, 0x7fff_ffff_ffff_ffff) {
            Some(v) => Some(v as int),
            None => None,
        }
    }
}

/// Parses the ASCII digits of `s[lo..hi]`, capping the value just above
/// `cap` so that it cannot overflow.
fn digits_value(s: &Vec<char>, lo: usize, hi: usize, cap: u128) -> (r: Option<u128>)
    requires
        lo <= hi <= s.len(),
        cap <= 0xffff_ffff_ffff_ffff_ffffu128,
    ensures
        match r {
            Some(v) => all_digits(s@.subrange(lo as int, hi as int)) && v == dec_value(
                s@.subrange(lo as int, hi as int),
            ) && v <= cap,
            None => !all_digits(s@.subrange(lo as int, hi as int)) || dec_value(
                s@.subrange(lo as int, hi as int),
            ) > cap,
        },
{
    let mut v: u128 = 0;
    let mut i = lo;
    while i < hi
        invariant
            lo <= i <= hi <= s.len(),
            cap <= 0xffff_ffff_ffff_ffff_ffffu128,
            all_digits(s@.subrange(lo as int, i as int)),
            v == dec_value(s@.subrange(lo as int, i as int)),
            v <= cap,
        decreases hi - i,
    {
        let c = s[i];
        assert(s@.subrange(lo as int, i + 1).drop_last() =~= s@.subrange(lo as int, i as int));
        if !('0' <= c && c <= '9') {
            assert(s@.subrange(lo as int, hi as int)[i - lo] == c);
            return None;
        }
        let d = (c as u32 - '0' as u32) as u128;
        let nv = v * 10 + d;
        assert(s@.subrange(lo as int, i + 1).last() == c);
        assert(dec_value(s@.subrange(lo as int, i + 1)) == nv);
        if nv > cap {
            if all_digits_in(s, i + 1, hi) {
                proof {
                    assert forall|k: int| 0 <= k < hi - lo implies is_digit(#[trigger] s@.subrange(lo as int, hi as int)[k]) by {
                        if k < i - lo {
                            assert(s@.subrange(lo as int, i as int)[k] == s@.subrange(lo as int, hi as int)[k]);
                        } else if k > i - lo {
                            assert(s@.subrange(i + 1, hi as int)[k - (i + 1 - lo)] == s@.subrange(lo as int, hi as int)[k]);
                        }
                    }
                    lemma_dec_prefix_le(s@.subrange(lo as int, hi as int), i + 1 - lo);
                    assert(s@.subrange(lo as int, hi as int).take(i + 1 - lo) =~= s@.subrange(lo as int, i + 1));
                }
            } else {
                proof {
                    let t = s@.subrange(i + 1, hi as int);
                    let j = choose|j: int| 0 <= j < t.len() && !is_digit(#[trigger] t[j]);
                    assert(s@.subrange(lo as int, hi as int)[j + (i + 1 - lo)] == t[j]);
                }
            }
            return None;
        }
        v = nv;
        i = i + 1;
    }
    Some(v)
}

fn all_digits_in(s: &Vec<char>, lo: usize, hi: usize) -> (r: bool)
    requires
        lo <= hi <= s.len(),
    ensures
        r == all_digits(s@.subrange(lo as int, hi as int)),
{
    let mut i = lo;
    while i < hi
        invariant
            lo <= i <= hi <= s.len(),
            forall|k: int| lo <= k < i ==> is_digit(#[trigger] s@[k]),
        decreases hi - i,
    {
        if !('0' <= s[i] && s[i] <= '9') {
            assert(s@.subrange(lo as int, hi as int)[i - lo] == s@[i as int]);
            return false;
        }
        i = i + 1;
    }
    assert forall|k: int| 0 <= k < hi - lo implies is_digit(#[trigger] s@.subrange(lo as int, hi as int)[k]) by {
        assert(s@.subrange(lo as int, hi as int)[k] == s@[lo + k]);
    }
    true
}

/// A prefix of a digit string denotes no more than the whole.
proof fn lemma_dec_prefix_le(s: Seq<char>, k: int)
    requires
        0 <= k <= s.len(),
        all_digits(s),
    ensures
        dec_value(s.take(k)) <= dec_value(s),
    decreases s.len(),
{
    if k < s.len() {
        assert(s.drop_last().take(k) =~= s.take(k));
        assert forall|i: int| 0 <= i < s.drop_last().len() implies is_digit(#[trigger] s.drop_last()[i]) by {
            assert(s.drop_last()[i] == s[i]);
        }
        lemma_dec_prefix_le(s.drop_last(), k);
    } else {
        assert(s.take(k) =~= s);
    }
}

/// `str::parse::<usize>`.
pub fn parse_usize(s: &Vec<char>) -> (r: Option<usize>)
    ensures
        match parse_unsigned(s@, usize::MAX as nat) {
            Some(v) => r == Some(v as usize),
            None => r is None,
        },
{
    let lo: usize = if s.len() > 0 && s[0] == '+' { 1 } else { 0 };
    assert(s@.subrange(lo as int, s@.len() as int) =~= (if s@.len() > 0 && s@[0] == '+' { s@.drop_first() } else { s@ }));
    if lo == s.len() {
        return None;
    }
    match digits_value(s, lo, s.len(), usize::MAX as u128) {
        Some(v) => Some(v as usize),
        None => None,
    }
}

/// `str::parse::<i64>`.
pub fn parse_int(s: &Vec<char>) -> (r: Option<i64>)
    ensures
        match parse_i64(s@) {
            Some(v) => r == Some(v as i64),
            None => r is None,
        },
{
    if s.len() > 0 && s[0] == '-' {
        assert(s@.subrange(1, s@.len() as int) =~= s@.drop_first());
        if s.len() == 1 {
            return None;
        }
        match digits_value(s, 1, s.len(), 0x8000_0000_0000_0000u128) {
            Some(v) => {
                if v == 0x8000_0000_0000_0000u128 {
                    Some(i64::MIN)
                } else {
                    Some(-(v as i64))
                }
            },
            None => None,
        }
    } else {
        let lo: usize = if s.len() > 0 && s[0] == '+' { 1 } else { 0 };
        assert(s@.subrange(lo as int, s@.len() as int) =~= (if s@.len() > 0 && s@[0] == '+' { s@.drop_first() } else { s@ }));
        if lo == s.len() {
            return None;
        }
        match digits_value(s, lo, s.len(), 0x7fff_ffff_ffff_ffffu128) {
            Some(v) => Some(v as i64),
            None => None,
        }
    }
}


// ---------------------------------------------------------------------------
// Plain text operations
// ---------------------------------------------------------------------------
/// `str::replace`: every non-overlapping occurrence of `from`, left to
/// right, replaced by `to`; an empty `from` matches before every character
/// and at the end.
pub open spec fn replace_str(s: Seq<char>, from: Seq<char>, to: Seq<char>) -> Seq<char>
    decreases s.len(),
{
    if from.len() == 0 {
        if s.len() == 0 {
            to
        } else {
            to + seq![s[0]] + replace_str(s.drop_first(), from, to)
        }
    } else if s.len() < from.len() {
        s
    } else if starts_with(s, from) {
        to + replace_str(s.skip(from.len() as int), from, to)
    } else {
        seq![s[0]] + replace_str(s.drop_first(), from, to)
    }
}

/// Every occurrence of `from` replaced by `to`, left to right (see
/// [`replace_str`]).
pub fn replace_chars(s: &Vec<char>, from: &Vec<char>, to: &Vec<char>) -> (r: Vec<char>)
    ensures
        r@ == replace_str(s@, from@, to@),
{
    let mut out: Vec<char> = Vec::new();
    let mut i: usize = 0;
    assert(s@.skip(0) =~= s@);
    assert(Seq::<char>::empty() + replace_str(s@, from@, to@) =~= replace_str(s@, from@, to@));
    while i < s.len()
        invariant
            0 <= i <= s.len(),
            replace_str(s@, from@, to@) == out@ + replace_str(s@.skip(i as int), from@, to@),
        decreases s.len() - i,
    {
        let ghost rest = s@.skip(i as int);
        let ghost o0 = out@;
        if from.len() == 0 {
            push_all(&mut out, to);
            out.push(s[i]);
            assert(rest.drop_first() =~= s@.skip(i + 1));
            i = i + 1;
        } else if s.len() - i < from.len() {
            push_range(&mut out, s, i, s.len());
            assert(s@.subrange(i as int, s@.len() as int) =~= rest);
            assert(s@.skip(s@.len() as int) =~= Seq::<char>::empty());
            i = s.len();
            assert(replace_str(s@.skip(i as int), from@, to@) =~= Seq::<char>::empty());
        } else if matches_at(s, i, from) {
            push_all(&mut out, to);
            assert(rest.subrange(0, from@.len() as int) =~= s@.subrange(i as int, i + from@.len()));
            assert(rest.skip(from@.len() as int) =~= s@.skip(i + from@.len()));
            i = i + from.len();
        } else {
            out.push(s[i]);
            assert(rest.subrange(0, from@.len() as int) =~= s@.subrange(i as int, i + from@.len()));
            assert(rest.drop_first() =~= s@.skip(i + 1));
            i = i + 1;
        }
        assert(o0 + replace_str(rest, from@, to@) =~= out@ + replace_str(s@.skip(i as int), from@, to@));
    }
    proof {
        assert(s@.skip(i as int) =~= Seq::<char>::empty());
        if from@.len() == 0 {
            assert(out@ + to@ == out@ + replace_str(s@.skip(i as int), from@, to@));
        } else {
            assert(out@ + Seq::<char>::empty() =~= out@);
        }
    }
    if from.len() == 0 {
        push_all(&mut out, to);
    }
    out
}

/// The pieces `str::split` gives for a non-empty separator: the text
/// between occurrences, left to right (the piece under way is `cur`).
pub open spec fn split_from(s: Seq<char>, sep: Seq<char>, cur: Seq<char>) -> Seq<Seq<char>>
    decreases s.len(),
{
    if s.len() < sep.len() || sep.len() == 0 {
        seq![cur + s]
    } else if starts_with(s, sep) {
        seq![cur] + split_from(s.skip(sep.len() as int), sep, Seq::empty())
    } else {
        split_from(s.drop_first(), sep, cur.push(s[0]))
    }
}

/// `str::split` with a string separator. An empty separator splits before
/// every character and at the end: `"ab"` gives `"", "a", "b", ""`.
pub open spec fn split_str(s: Seq<char>, sep: Seq<char>) -> Seq<Seq<char>> {
    if sep.len() == 0 {
        seq![Seq::empty()] + s.map_values(|c: char| seq![c]) + seq![Seq::empty()]
    } else {
        split_from(s, sep, Seq::empty())
    }
}

pub open spec fn views(v: Seq<Vec<char>>) -> Seq<Seq<char>> {
    v.map_values(|x: Vec<char>| x@)
}

/// The pieces between occurrences of `sep` (see [`split_str`]).
pub fn split_chars(s: &Vec<char>, sep: &Vec<char>) -> (r: Vec<Vec<char>>)
    ensures
        views(r@) == split_str(s@, sep@),
{
    let mut parts: Vec<Vec<char>> = Vec::new();
    if sep.len() == 0 {
        parts.push(Vec::new());
        let mut i: usize = 0;
        while i < s.len()
            invariant
                0 <= i <= s.len(),
                parts@.len() == i + 1,
                parts@[0]@ == Seq::<char>::empty(),
                forall|j: int| 1 <= j <= i ==> #[trigger] parts@[j]@ == seq![s@[j - 1]],
            decreases s.len() - i,
        {
            let mut one: Vec<char> = Vec::new();
            one.push(s[i]);
            assert(one@ =~= seq![s@[i as int]]);
            parts.push(one);
            i = i + 1;
        }
        parts.push(Vec::new());
        assert(views(parts@) =~= split_str(s@, sep@));
        return parts;
    }
    let mut cur: Vec<char> = Vec::new();
    let mut i: usize = 0;
    assert(s@.skip(0) =~= s@);
    assert(views(parts@) + split_from(s@, sep@, cur@) =~= split_str(s@, sep@));
    while i < s.len() && s.len() - i >= sep.len()
        invariant
            0 <= i <= s.len(),
            sep@.len() > 0,
            split_str(s@, sep@) == views(parts@) + split_from(s@.skip(i as int), sep@, cur@),
        decreases s.len() - i,
    {
        let ghost rest = s@.skip(i as int);
        let ghost p0 = views(parts@);
        assert(rest.subrange(0, sep@.len() as int) =~= s@.subrange(i as int, i + sep@.len()));
        if matches_at(s, i, sep) {
            let done = cur;
            let ghost dv = done@;
            parts.push(done);
            cur = Vec::new();
            assert(rest.skip(sep@.len() as int) =~= s@.skip(i + sep@.len()));
            i = i + sep.len();
            assert(views(parts@) =~= p0.push(dv));
            assert(p0 + (seq![dv] + split_from(s@.skip(i as int), sep@, Seq::empty())) =~= views(parts@) + split_from(s@.skip(i as int), sep@, cur@));
        } else {
            cur.push(s[i]);
            assert(rest.drop_first() =~= s@.skip(i + 1));
            i = i + 1;
        }
    }
    let ghost p0 = views(parts@);
    push_range(&mut cur, s, i, s.len());
    assert(s@.subrange(i as int, s@.len() as int) =~= s@.skip(i as int));
    let last = cur;
    let ghost lv = last@;
    parts.push(last);
    assert(views(parts@) =~= p0 + seq![lv]);
    parts
}

/// A Cardigann `split` index resolved against the number of parts: a
/// negative index counts from the end (`-1` is the last part); `None` when
/// out of range either way.
pub open spec fn spec_resolve_split_index(index: int, len: int) -> Option<int> {
    let resolved = if index < 0 {
        index + len
    } else {
        index
    };
    if 0 <= resolved < len {
        Some(resolved)
    } else {
        None
    }
}

/// The piece a `split` index names: counted from the start, or from the
/// end when negative; `None` when out of range.
pub fn resolve_split_index(index: i64, len: usize) -> (r: Option<usize>)
    ensures
        match spec_resolve_split_index(index as int, len as int) {
            Some(i) => r == Some(i as usize),
            None => r is None,
        },
{
    if index < 0 {
        let back: u64 = if index == i64::MIN { 0x8000_0000_0000_0000u64 } else { (-index) as u64 };
        if (back as u128) <= (len as u128) {
            Some(len - back as usize)
        } else {
            None
        }
    } else {
        if (index as u128) < (len as u128) {
            Some(index as usize)
        } else {
            None
        }
    }
}

/// `str::trim_matches` with a set of characters: every leading and
/// trailing character in `set` removed.
pub open spec fn trim_set(s: Seq<char>, set: Seq<char>) -> Seq<char> {
    let a = lead_in(s, set);
    let rest = s.skip(a as int);
    rest.take(rest.len() - trail_in(rest, set))
}

pub open spec fn lead_in(s: Seq<char>, set: Seq<char>) -> nat
    decreases s.len(),
{
    if s.len() > 0 && set.contains(s[0]) {
        1 + lead_in(s.drop_first(), set)
    } else {
        0
    }
}

pub open spec fn trail_in(s: Seq<char>, set: Seq<char>) -> nat
    decreases s.len(),
{
    if s.len() > 0 && set.contains(s.last()) {
        1 + trail_in(s.drop_last(), set)
    } else {
        0
    }
}

fn in_set(set: &Vec<char>, c: char) -> (r: bool)
    ensures
        r == set@.contains(c),
{
    let mut i: usize = 0;
    while i < set.len()
        invariant
            0 <= i <= set.len(),
            forall|j: int| 0 <= j < i ==> set@[j] != c,
        decreases set.len() - i,
    {
        if set[i] == c {
            return true;
        }
        i = i + 1;
    }
    false
}

/// The text without leading and trailing characters of `set`.
pub fn trim_set_chars(s: &Vec<char>, set: &Vec<char>) -> (r: Vec<char>)
    ensures
        r@ == trim_set(s@, set@),
{
    let mut a: usize = 0;
    assert(s@.skip(0) =~= s@);
    while a < s.len() && in_set(set, s[a])
        invariant
            0 <= a <= s.len(),
            lead_in(s@, set@) == a + lead_in(s@.skip(a as int), set@),
        decreases s.len() - a,
    {
        assert(s@.skip(a as int).drop_first() =~= s@.skip(a + 1));
        a = a + 1;
    }
    let ghost rest = s@.skip(a as int);
    let mut b = s.len();
    assert(s@.subrange(a as int, b as int) =~= rest);
    while b > a && in_set(set, s[b - 1])
        invariant
            a <= b <= s.len(),
            trail_in(rest, set@) == (s.len() - b) + trail_in(s@.subrange(a as int, b as int), set@),
            rest == s@.skip(a as int),
        decreases b - a,
    {
        assert(s@.subrange(a as int, b as int).drop_last() =~= s@.subrange(a as int, b - 1));
        b = b - 1;
    }
    assert(rest.take(rest.len() - trail_in(rest, set@)) =~= s@.subrange(a as int, b as int));
    copy_range(s, a, b)
}

pub open spec fn is_forbidden_in_filename(c: char) -> bool {
    c == '/' || c == '\\' || c == ':' || c == '*' || c == '?' || c == '"' || c == '<' || c == '>'
        || c == '|'
}

/// The text with every character not allowed in a filename removed.
pub open spec fn valid_filename(s: Seq<char>) -> Seq<char>
    decreases s.len(),
{
    if s.len() == 0 {
        s
    } else if is_forbidden_in_filename(s.last()) {
        valid_filename(s.drop_last())
    } else {
        valid_filename(s.drop_last()).push(s.last())
    }
}

fn valid_filename_chars(s: &Vec<char>) -> (r: Vec<char>)
    ensures
        r@ == valid_filename(s@),
{
    let mut out: Vec<char> = Vec::new();
    let mut i: usize = 0;
    assert(s@.take(0) =~= Seq::<char>::empty());
    while i < s.len()
        invariant
            0 <= i <= s.len(),
            out@ == valid_filename(s@.take(i as int)),
        decreases s.len() - i,
    {
        let c = s[i];
        assert(s@.take(i + 1).drop_last() =~= s@.take(i as int));
        if !(c == '/' || c == '\\' || c == ':' || c == '*' || c == '?' || c == '"' || c == '<'
            || c == '>' || c == '|') {
            out.push(c);
        }
        i = i + 1;
    }
    assert(s@.take(s@.len() as int) =~= s@);
    out
}


// ---------------------------------------------------------------------------
// Query strings
// ---------------------------------------------------------------------------
/// The value of the first `key=value` pair named `key`; pairs without `=`
/// are skipped.
pub open spec fn first_kv(pairs: Seq<Seq<char>>, key: Seq<char>) -> Option<Seq<char>>
    decreases pairs.len(),
{
    if pairs.len() == 0 {
        None
    } else {
        let p = pairs[0];
        match find(p, seq!['=']) {
            Some(e) => if p.take(e) == key {
                Some(p.skip(e + 1))
            } else {
                first_kv(pairs.drop_first(), key)
            },
            None => first_kv(pairs.drop_first(), key),
        }
    }
}

/// The value of query parameter `key` in a URL or bare query string (the
/// text after the first `?`, if any), or the empty string.
pub open spec fn spec_query_param(input: Seq<char>, key: Seq<char>) -> Seq<char> {
    let q = match find(input, seq!['?']) {
        Some(p) => input.skip(p + 1),
        None => input,
    };
    match first_kv(split_str(q, seq!['&']), key) {
        Some(v) => v,
        None => Seq::empty(),
    }
}

fn single(c: char) -> (r: Vec<char>)
    ensures
        r@ == seq![c],
{
    let mut v: Vec<char> = Vec::new();
    v.push(c);
    assert(v@ =~= seq![c]);
    v
}

/// The value of the first `key=` pair of a URL or query string, decoded;
/// empty when there is none (see [`spec_query_param`]).
pub fn query_param(input: &Vec<char>, key: &Vec<char>) -> (r: Vec<char>)
    ensures
        r@ == spec_query_param(input@, key@),
{
    let qm = single('?');
    let amp = single('&');
    let eq = single('=');
    let q = match find_in(input, &qm) {
        Some(p) => {
            assert(find(input@, qm@) is Some);
            assert(qm@.len() == 1);
            assert(p + 1 <= input@.len());
            assert(input@.len() == input.len());
            let r = copy_range(input, p + 1, input.len());
            assert(r@ =~= input@.skip(p + 1));
            r
        },
        None => copy_chars(input),
    };
    assert(q@ == match find(input@, seq!['?']) {
        Some(p) => input@.skip(p + 1),
        None => input@,
    });
    let pairs = split_chars(&q, &amp);
    let ghost pv = views(pairs@);
    let mut i: usize = 0;
    assert(pv.skip(0) =~= pv);
    while i < pairs.len()
        invariant
            0 <= i <= pairs.len(),
            pv == views(pairs@),
            eq@ == seq!['='],
            first_kv(pv, key@) == first_kv(pv.skip(i as int), key@),
            spec_query_param(input@, key@) == match first_kv(pv, key@) {
                Some(v) => v,
                None => Seq::<char>::empty(),
            },
        decreases pairs.len() - i,
    {
        let p = &pairs[i];
        assert(pv.skip(i as int)[0] == p@);
        assert(pv.skip(i as int).drop_first() =~= pv.skip(i + 1));
        match find_in(p, &eq) {
            Some(e) => {
                assert(p@.len() == p.len());
                assert(eq@.len() == 1);
                assert(e + 1 <= p.len());
                let k = copy_range(p, 0, e);
                assert(k@ =~= p@.take(e as int));
                if crate::text::eq_chars(&k, key) {
                    let v = copy_range(p, e + 1, p.len());
                    assert(v@ =~= p@.skip(e + 1));
                    return v;
                }
            },
            None => {},
        }
        i = i + 1;
    }
    Vec::new()
}

// ---------------------------------------------------------------------------
// URL encoding (as .NET's `WebUtility.UrlEncode`)
// ---------------------------------------------------------------------------
/// The bytes `WebUtility.UrlEncode` leaves as they are: `A-Z a-z 0-9` and
/// `-_.!*()`.
pub open spec fn is_url_safe(b: u8) -> bool {
    (65 <= b <= 90) || (97 <= b <= 122) || (48 <= b <= 57) || b == 45 || b == 95 || b == 46
        || b == 33 || b == 42 || b == 40 || b == 41
}

pub open spec fn hex_upper(n: nat) -> char {
    if n < 10 {
        (48 + n) as char
    } else {
        (55 + n) as char
    }
}

pub open spec fn url_encode_byte(b: u8) -> Seq<char> {
    if is_url_safe(b) {
        seq![b as char]
    } else if b == 32 {
        seq!['+']
    } else {
        seq!['%', hex_upper((b / 16) as nat), hex_upper((b % 16) as nat)]
    }
}

/// The UTF-8 bytes of a text, URL-encoded: safe bytes as they are, a space
/// as `+`, every other byte as `%XX` (upper-case hex).
pub open spec fn url_encode(bs: Seq<u8>) -> Seq<char>
    decreases bs.len(),
{
    if bs.len() == 0 {
        Seq::empty()
    } else {
        url_encode(bs.drop_last()) + url_encode_byte(bs.last())
    }
}

fn hex_upper_of(n: u8) -> (c: char)
    requires
        n < 16,
    ensures
        c == hex_upper(n as nat),
{
    if n < 10 {
        (48 + n) as char
    } else {
        (55 + n) as char
    }
}

/// The text form-urlencoded: unreserved bytes kept, a space as `+`, any
/// other byte as `%XX`.
pub fn url_encode_str(input: &str) -> (r: Vec<char>)
    ensures
        r@ == url_encode(vstd::utf8::encode_utf8(input@)),
{
    let bs = input.as_bytes();
    let mut out: Vec<char> = Vec::new();
    let mut i: usize = 0;
    assert(bs@.take(0) =~= Seq::<u8>::empty());
    while i < bs.len()
        invariant
            0 <= i <= bs.len(),
            bs@ == vstd::utf8::encode_utf8(input@),
            out@ == url_encode(bs@.take(i as int)),
        decreases bs.len() - i,
    {
        let b = bs[i];
        let ghost o0 = out@;
        if (65 <= b && b <= 90) || (97 <= b && b <= 122) || (48 <= b && b <= 57) || b == 45 || b == 95
            || b == 46 || b == 33 || b == 42 || b == 40 || b == 41 {
            out.push(b as char);
        } else if b == 32 {
            out.push('+');
        } else {
            out.push('%');
            out.push(hex_upper_of(b / 16));
            out.push(hex_upper_of(b % 16));
        }
        assert(out@ =~= o0 + url_encode_byte(b));
        assert(bs@.take(i + 1).drop_last() =~= bs@.take(i as int));
        i = i + 1;
    }
    assert(bs@.take(bs@.len() as int) =~= bs@);
    out
}

pub open spec fn hex_byte_value(c: u8) -> Option<nat> {
    if 48 <= c <= 57 {
        Some((c - 48) as nat)
    } else if 97 <= c <= 102 {
        Some((c - 87) as nat)
    } else if 65 <= c <= 70 {
        Some((c - 55) as nat)
    } else {
        None
    }
}

/// What `u8::from_str_radix` gives for the two bytes after a `%`: two hex
/// digits, or `+` and one hex digit.
pub open spec fn hex_pair(x: u8, y: u8) -> Option<u8> {
    match hex_byte_value(y) {
        None => None,
        Some(lo) => if x == 43 {
            Some(lo as u8)
        } else {
            match hex_byte_value(x) {
                Some(hi) => Some((hi * 16 + lo) as u8),
                None => None,
            }
        },
    }
}

/// Percent-decoding of `b[i..]`: `%XX` (when followed by two more bytes
/// that `u8::from_str_radix` reads) is that byte, `+` is a space, anything
/// else is itself.
pub open spec fn url_decode_from(b: Seq<u8>, i: int) -> Seq<u8>
    decreases b.len() - i,
{
    if i < 0 || i >= b.len() {
        Seq::empty()
    } else if b[i] == 37 && i + 2 < b.len() && hex_pair(b[i + 1], b[i + 2]) is Some {
        seq![hex_pair(b[i + 1], b[i + 2])->0] + url_decode_from(b, i + 3)
    } else {
        seq![if b[i] == 43 { 32u8 } else { b[i] }] + url_decode_from(b, i + 1)
    }
}

/// What `String::from_utf8_lossy` gives for some bytes.
pub uninterp spec fn utf8_lossy(bytes: Seq<u8>) -> Seq<char>;

/// `String::from_utf8_lossy`: its result is named [`utf8_lossy`]; valid
/// UTF-8 decodes as it is.
#[verifier::external_body]
pub(crate) fn from_utf8_lossy(bytes: &Vec<u8>) -> (r: String)
    ensures
        r@ == utf8_lossy(bytes@),
        vstd::utf8::valid_utf8(bytes@) ==> r@ == vstd::utf8::decode_utf8(bytes@),
{
    String::from_utf8_lossy(bytes).into_owned()
}

fn hex_byte(c: u8) -> (r: Option<u8>)
    ensures
        match hex_byte_value(c) {
            Some(v) => r == Some(v as u8),
            None => r is None,
        },
{
    if 48 <= c && c <= 57 {
        Some(c - 48)
    } else if 97 <= c && c <= 102 {
        Some(c - 87)
    } else if 65 <= c && c <= 70 {
        Some(c - 55)
    } else {
        None
    }
}

/// The text form-urldecoded: `+` a space, `%XX` the byte, the bytes read
/// as UTF-8 with malformed sequences replaced.
pub fn url_decode_str(input: &str) -> (r: String)
    ensures
        r@ == utf8_lossy(url_decode_from(vstd::utf8::encode_utf8(input@), 0)),
        vstd::utf8::valid_utf8(url_decode_from(vstd::utf8::encode_utf8(input@), 0)) ==> r@
            == vstd::utf8::decode_utf8(url_decode_from(vstd::utf8::encode_utf8(input@), 0)),
{
    let bs = input.as_bytes();
    let mut out: Vec<u8> = Vec::new();
    let mut i: usize = 0;
    while i < bs.len()
        invariant
            0 <= i <= bs.len(),
            bs@ == vstd::utf8::encode_utf8(input@),
            url_decode_from(bs@, 0) == out@ + url_decode_from(bs@, i as int),
        decreases bs.len() - i,
    {
        let ghost o0 = out@;
        let mut done = false;
        if bs[i] == 37 && bs.len() - i > 2 {
            match hex_byte(bs[i + 2]) {
                Some(lo) => {
                    if bs[i + 1] == 43 {
                        out.push(lo);
                        done = true;
                    } else {
                        match hex_byte(bs[i + 1]) {
                            Some(hi) => {
                                out.push(hi * 16 + lo);
                                done = true;
                            },
                            None => {},
                        }
                    }
                },
                None => {},
            }
        }
        if done {
            assert(out@ =~= o0 + seq![hex_pair(bs@[i + 1], bs@[i + 2])->0]);
            i = i + 3;
        } else {
            out.push(if bs[i] == 43 { 32u8 } else { bs[i] });
            assert(out@ =~= o0 + seq![if bs@[i as int] == 43 { 32u8 } else { bs@[i as int] }]);
            i = i + 1;
        }
    }
    assert(out@ + Seq::<u8>::empty() =~= out@);
    from_utf8_lossy(&out)
}


// ---------------------------------------------------------------------------
// HTML entities
// ---------------------------------------------------------------------------
pub open spec fn all_hex(s: Seq<char>) -> bool {
    forall|i: int| 0 <= i < s.len() ==> is_hex(#[trigger] s[i])
}

/// What `u32::from_str_radix(_, 16)` gives: an optional `+`, then one or
/// more hex digits, with a value that fits in a `u32`.
pub open spec fn parse_hex_u32(s: Seq<char>) -> Option<nat> {
    let body = if s.len() > 0 && s[0] == '+' {
        s.drop_first()
    } else {
        s
    };
    if body.len() == 0 || !all_hex(body) || hex_value(body) > u32::MAX {
        None
    } else {
        Some(hex_value(body))
    }
}

/// The character an HTML entity name (the text between `&` and `;`)
/// stands for: the five XML entities, `&nbsp;` (as a plain space), `&#39;`,
/// and numeric entities in decimal (`&#65;`) or hex (`&#x41;`).
pub open spec fn spec_decode_entity(name: Seq<char>) -> Option<char> {
    if name == "amp"@ {
        Some('&')
    } else if name == "lt"@ {
        Some('<')
    } else if name == "gt"@ {
        Some('>')
    } else if name == "quot"@ {
        Some('"')
    } else if name == "apos"@ || name == "#39"@ {
        Some('\'')
    } else if name == "nbsp"@ {
        Some(' ')
    } else if starts_with(name, "#x"@) || starts_with(name, "#X"@) {
        match parse_hex_u32(name.skip(2)) {
            Some(v) => scalar(v),
            None => None,
        }
    } else if starts_with(name, "#"@) {
        match parse_unsigned(name.skip(1), u32::MAX as nat) {
            Some(v) => scalar(v),
            None => None,
        }
    } else {
        None
    }
}

fn hex_u32(s: &Vec<char>, lo: usize) -> (r: Option<u32>)
    requires
        lo <= s.len(),
    ensures
        match parse_hex_u32(s@.skip(lo as int)) {
            Some(v) => r == Some(v as u32),
            None => r is None,
        },
{
    let ghost t = s@.skip(lo as int);
    let start: usize = if lo < s.len() && s[lo] == '+' { lo + 1 } else { lo };
    assert(s@.skip(start as int) =~= (if t.len() > 0 && t[0] == '+' { t.drop_first() } else { t }));
    if start == s.len() {
        return None;
    }
    let mut v: u64 = 0;
    let mut i = start;
    while i < s.len()
        invariant
            start <= i <= s.len(),
            start < s.len(),
            t == s@.skip(lo as int),
            s@.skip(start as int) == (if t.len() > 0 && t[0] == '+' { t.drop_first() } else { t }),
            forall|k: int| start <= k < i ==> is_hex(#[trigger] s@[k]),
            v == hex_value(s@.subrange(start as int, i as int)),
            v <= u32::MAX,
        decreases s.len() - i,
    {
        let c = s[i];
        assert(s@.subrange(start as int, i + 1).drop_last() =~= s@.subrange(start as int, i as int));
        if !(('0' <= c && c <= '9') || ('a' <= c && c <= 'f') || ('A' <= c && c <= 'F')) {
            assert(s@.skip(start as int)[i - start] == c);
            assert(!is_hex(s@.skip(start as int)[i - start]));
            assert(!all_hex(s@.skip(start as int)));
            return None;
        }
        let d: u64 = if '0' <= c && c <= '9' {
            (c as u32 - '0' as u32) as u64
        } else if 'a' <= c && c <= 'f' {
            (c as u32 - 'a' as u32 + 10) as u64
        } else {
            (c as u32 - 'A' as u32 + 10) as u64
        };
        assert(d == crate::selector::hex_digit_value(c));
        let nv = v * 16 + d;
        assert(s@.subrange(start as int, i + 1).last() == c);
        assert(hex_value(s@.subrange(start as int, i + 1)) == nv);
        if nv > 0xffff_ffffu64 {
            proof {
                let b = s@.skip(start as int);
                if all_hex(b) {
                    lemma_hex_prefix_le(b, i + 1 - start);
                    assert(b.take(i + 1 - start) =~= s@.subrange(start as int, i + 1));
                }
            }
            return None;
        }
        v = nv;
        i = i + 1;
    }
    assert(s@.subrange(start as int, s@.len() as int) =~= s@.skip(start as int));
    Some(v as u32)
}

proof fn lemma_hex_prefix_le(s: Seq<char>, k: int)
    requires
        0 <= k <= s.len(),
        all_hex(s),
    ensures
        hex_value(s.take(k)) <= hex_value(s),
    decreases s.len(),
{
    if k < s.len() {
        assert(s.drop_last().take(k) =~= s.take(k));
        assert forall|i: int| 0 <= i < s.drop_last().len() implies is_hex(#[trigger] s.drop_last()[i]) by {
            assert(s.drop_last()[i] == s[i]);
        }
        lemma_hex_prefix_le(s.drop_last(), k);
    } else {
        assert(s.take(k) =~= s);
    }
}

/// The character an HTML entity name (without `&` and `;`) stands for.
pub fn decode_entity(name: &Vec<char>) -> (r: Option<char>)
    ensures
        r == spec_decode_entity(name@),
{
    if word_is(name, "amp") {
        Some('&')
    } else if word_is(name, "lt") {
        Some('<')
    } else if word_is(name, "gt") {
        Some('>')
    } else if word_is(name, "quot") {
        Some('"')
    } else if word_is(name, "apos") || word_is(name, "#39") {
        Some('\'')
    } else if word_is(name, "nbsp") {
        Some(' ')
    } else {
        let hx = chars_of("#x");
        let hX = chars_of("#X");
        let h = chars_of("#");
        proof {
            reveal_strlit("#x");
            reveal_strlit("#X");
            reveal_strlit("#");
        }
        if matches_at(name, 0, &hx) || matches_at(name, 0, &hX) {
            match hex_u32(name, 2) {
                Some(v) => char_from_u32(v),
                None => None,
            }
        } else if matches_at(name, 0, &h) {
            let rest = copy_range(name, 1, name.len());
            assert(rest@ =~= name@.skip(1));
            match parse_u32(&rest) {
                Some(v) => char_from_u32(v),
                None => None,
            }
        } else {
            None
        }
    }
}

/// `str::parse::<u64>`.
pub(crate) fn parse_u64(s: &Vec<char>) -> (r: Option<u64>)
    ensures
        match parse_unsigned(s@, u64::MAX as nat) {
            Some(v) => r == Some(v as u64),
            None => r is None,
        },
{
    let lo: usize = if s.len() > 0 && s[0] == '+' { 1 } else { 0 };
    assert(s@.subrange(lo as int, s@.len() as int) =~= (if s@.len() > 0 && s@[0] == '+' { s@.drop_first() } else { s@ }));
    if lo == s.len() {
        return None;
    }
    match digits_value(s, lo, s.len(), 0xffff_ffff_ffff_ffffu128) {
        Some(v) => Some(v as u64),
        None => None,
    }
}

/// `str::parse::<u32>`.
pub(crate) fn parse_u32(s: &Vec<char>) -> (r: Option<u32>)
    ensures
        match parse_unsigned(s@, u32::MAX as nat) {
            Some(v) => r == Some(v as u32),
            None => r is None,
        },
{
    let lo: usize = if s.len() > 0 && s[0] == '+' { 1 } else { 0 };
    assert(s@.subrange(lo as int, s@.len() as int) =~= (if s@.len() > 0 && s@[0] == '+' { s@.drop_first() } else { s@ }));
    if lo == s.len() {
        return None;
    }
    match digits_value(s, lo, s.len(), 0xffff_ffffu128) {
        Some(v) => Some(v as u32),
        None => None,
    }
}

/// HTML entities decoded in one left-to-right pass: each `&name;` with a
/// known name becomes its character; any other `&` stays as it is and the
/// scan resumes right after it (so the result is never decoded twice).
pub open spec fn spec_html_decode(s: Seq<char>) -> Seq<char>
    decreases s.len(),
{
    match find(s, seq!['&']) {
        None => s,
        Some(amp) => if !(0 <= amp < s.len()) {
            s
        } else {
            let tail = s.skip(amp + 1);
            match find(tail, seq![';']) {
                None => s.take(amp) + seq!['&'] + spec_html_decode(tail),
                Some(semi) => if !(0 <= semi < tail.len()) {
                    s
                } else {
                    match spec_decode_entity(tail.take(semi)) {
                        Some(c) => s.take(amp) + seq![c] + spec_html_decode(tail.skip(semi + 1)),
                        None => s.take(amp) + seq!['&'] + spec_html_decode(tail),
                    }
                },
            }
        },
    }
}

/// HTML entities in the text replaced by what they stand for.
pub fn html_decode(input: &Vec<char>) -> (r: Vec<char>)
    ensures
        r@ == spec_html_decode(input@),
{
    let amp_v = single('&');
    let semi_v = single(';');
    let mut out: Vec<char> = Vec::new();
    let mut rest = copy_chars(input);
    assert(Seq::<char>::empty() + spec_html_decode(input@) =~= spec_html_decode(input@));
    loop
        invariant
            amp_v@ == seq!['&'],
            semi_v@ == seq![';'],
            spec_html_decode(input@) == out@ + spec_html_decode(rest@),
        decreases rest@.len(),
    {
        let ghost r0 = rest@;
        let ghost o0 = out@;
        match find_in(&rest, &amp_v) {
            None => {
                push_all(&mut out, &rest);
                return out;
            },
            Some(amp) => {
                assert(rest@.len() == rest.len());
                push_range(&mut out, &rest, 0, amp);
                assert(rest@.subrange(0, amp as int) == r0.take(amp as int));
                let tail = copy_range(&rest, amp + 1, rest.len());
                assert(tail@ =~= r0.skip(amp + 1));
                match find_in(&tail, &semi_v) {
                    None => {
                        out.push('&');
                        rest = tail;
                    },
                    Some(semi) => {
                        assert(tail@.len() == tail.len());
                        let name = copy_range(&tail, 0, semi);
                        assert(name@ =~= tail@.take(semi as int));
                        match decode_entity(&name) {
                            Some(c) => {
                                out.push(c);
                                let next = copy_range(&tail, semi + 1, tail.len());
                                assert(next@ =~= tail@.skip(semi + 1));
                                rest = next;
                            },
                            None => {
                                out.push('&');
                                rest = tail;
                            },
                        }
                    },
                }
                assert(o0 + spec_html_decode(r0) =~= out@ + spec_html_decode(rest@));
            },
        }
    }
}

// ---------------------------------------------------------------------------
// Diacritics
// ---------------------------------------------------------------------------
/// Whether `char::is_uppercase` holds of `c`.
pub uninterp spec fn is_upper(c: char) -> bool;

/// The first character of `char::to_lowercase` for `c` (or `c` itself).
pub uninterp spec fn lower_first(c: char) -> char;

/// `char::is_uppercase`; its result is named [`is_upper`]. For ASCII it is
/// exactly `A`-`Z`.
#[verifier::external_body]
fn char_is_uppercase(c: char) -> (r: bool)
    ensures
        r == is_upper(c),
        (c as u32) < 128 ==> (r == ('A' <= c && c <= 'Z')),
{
    c.is_uppercase()
}

/// The first character of `char::to_lowercase`, or `c` when there is none;
/// named [`lower_first`]. For ASCII it lowers `A`-`Z` and keeps the rest.
#[verifier::external_body]
fn char_lower_first(c: char) -> (r: char)
    ensures
        r == lower_first(c),
        (c as u32) < 128 ==> r == crate::text::ascii_lower_char(c),
{
    c.to_lowercase().next().unwrap_or(c)
}

/// The unaccented base letter of an accented lower-case Latin letter
/// (Latin-1, Latin Extended-A, Romanian comma-below and Vietnamese tone
/// marks); any other character is itself.
pub open spec fn spec_base_latin_letter(c: char) -> char {
    match c {
        'à' | 'á' | 'â' | 'ã' | 'ä' | 'å' | 'ā' | 'ă' | 'ą' | 'ạ' | 'ả' | 'ấ' | 'ầ' | 'ẩ' | 'ẫ' | 'ậ' | 'ắ' | 'ằ' | 'ẳ' | 'ẵ' | 'ặ' => 'a',
        'ç' | 'ć' | 'č' | 'ĉ' | 'ċ' => 'c',
        'ď' | 'đ' => 'd',
        'è' | 'é' | 'ê' | 'ë' | 'ē' | 'ĕ' | 'ė' | 'ę' | 'ě' | 'ẹ' | 'ẻ' | 'ẽ' | 'ế' | 'ề' | 'ể' | 'ễ' | 'ệ' => 'e',
        'ĝ' | 'ğ' | 'ġ' | 'ģ' => 'g',
        'ĥ' | 'ħ' => 'h',
        'ì' | 'í' | 'î' | 'ï' | 'ĩ' | 'ī' | 'į' | 'ỉ' | 'ị' => 'i',
        'ĵ' => 'j',
        'ķ' => 'k',
        'ĺ' | 'ļ' | 'ľ' | 'ł' => 'l',
        'ñ' | 'ń' | 'ņ' | 'ň' => 'n',
        'ò' | 'ó' | 'ô' | 'õ' | 'ö' | 'ø' | 'ō' | 'ő' | 'ơ' | 'ọ' | 'ỏ' | 'ố' | 'ồ' | 'ổ' | 'ỗ' | 'ộ' | 'ớ' | 'ờ' | 'ở' | 'ỡ' | 'ợ' => 'o',
        'ŕ' | 'ř' => 'r',
        'ś' | 'ş' | 'š' | 'ș' | 'ŝ' => 's',
        'ţ' | 'ť' | 'ț' => 't',
        'ù' | 'ú' | 'û' | 'ü' | 'ũ' | 'ū' | 'ů' | 'ű' | 'ų' | 'ư' | 'ụ' | 'ủ' | 'ứ' | 'ừ' | 'ử' | 'ữ' | 'ự' => 'u',
        'ý' | 'ÿ' | 'ỳ' | 'ỵ' | 'ỷ' | 'ỹ' => 'y',
        'ź' | 'ż' | 'ž' => 'z',
        other => other,
    }
}

fn base_latin_letter(c: char) -> (r: char)
    ensures
        r == spec_base_latin_letter(c),
{
    match c {
        'à' | 'á' | 'â' | 'ã' | 'ä' | 'å' | 'ā' | 'ă' | 'ą' | 'ạ' | 'ả' | 'ấ' | 'ầ' | 'ẩ' | 'ẫ' | 'ậ' | 'ắ' | 'ằ' | 'ẳ' | 'ẵ' | 'ặ' => 'a',
        'ç' | 'ć' | 'č' | 'ĉ' | 'ċ' => 'c',
        'ď' | 'đ' => 'd',
        'è' | 'é' | 'ê' | 'ë' | 'ē' | 'ĕ' | 'ė' | 'ę' | 'ě' | 'ẹ' | 'ẻ' | 'ẽ' | 'ế' | 'ề' | 'ể' | 'ễ' | 'ệ' => 'e',
        'ĝ' | 'ğ' | 'ġ' | 'ģ' => 'g',
        'ĥ' | 'ħ' => 'h',
        'ì' | 'í' | 'î' | 'ï' | 'ĩ' | 'ī' | 'į' | 'ỉ' | 'ị' => 'i',
        'ĵ' => 'j',
        'ķ' => 'k',
        'ĺ' | 'ļ' | 'ľ' | 'ł' => 'l',
        'ñ' | 'ń' | 'ņ' | 'ň' => 'n',
        'ò' | 'ó' | 'ô' | 'õ' | 'ö' | 'ø' | 'ō' | 'ő' | 'ơ' | 'ọ' | 'ỏ' | 'ố' | 'ồ' | 'ổ' | 'ỗ' | 'ộ' | 'ớ' | 'ờ' | 'ở' | 'ỡ' | 'ợ' => 'o',
        'ŕ' | 'ř' => 'r',
        'ś' | 'ş' | 'š' | 'ș' | 'ŝ' => 's',
        'ţ' | 'ť' | 'ț' => 't',
        'ù' | 'ú' | 'û' | 'ü' | 'ũ' | 'ū' | 'ů' | 'ű' | 'ų' | 'ư' | 'ụ' | 'ủ' | 'ứ' | 'ừ' | 'ử' | 'ữ' | 'ự' => 'u',
        'ý' | 'ÿ' | 'ỳ' | 'ỵ' | 'ỷ' | 'ỹ' => 'y',
        'ź' | 'ż' | 'ž' => 'z',
        other => other,
    }
}

/// One character folded: `ı`/`İ` to `i`/`I`; otherwise the base letter of
/// its lower-case form, upper-cased again (ASCII) when it was upper case.
pub open spec fn spec_fold_diacritic_char(c: char) -> char {
    if c == 'ı' {
        'i'
    } else if c == 'İ' {
        'I'
    } else {
        let folded = spec_base_latin_letter(lower_first(c));
        if is_upper(c) {
            crate::text::ascii_upper_char(folded)
        } else {
            folded
        }
    }
}

fn fold_diacritic_char(c: char) -> (r: char)
    ensures
        r == spec_fold_diacritic_char(c),
{
    if c == 'ı' {
        return 'i';
    }
    if c == 'İ' {
        return 'I';
    }
    let upper = char_is_uppercase(c);
    let lower = char_lower_first(c);
    let folded = base_latin_letter(lower);
    if upper {
        if 'a' <= folded && folded <= 'z' {
            ((folded as u32 - 32) as u8) as char
        } else {
            folded
        }
    } else {
        folded
    }
}

/// Latin letters with diacritics replaced by their base letters.
pub fn fold_diacritics(s: &Vec<char>) -> (r: Vec<char>)
    ensures
        r@ == s@.map_values(|c: char| spec_fold_diacritic_char(c)),
{
    let mut out: Vec<char> = Vec::new();
    let mut i: usize = 0;
    while i < s.len()
        invariant
            0 <= i <= s.len(),
            out@.len() == i,
            forall|j: int| 0 <= j < i ==> #[trigger] out@[j] == spec_fold_diacritic_char(s@[j]),
        decreases s.len() - i,
    {
        out.push(fold_diacritic_char(s[i]));
        i = i + 1;
    }
    assert(out@ =~= s@.map_values(|c: char| spec_fold_diacritic_char(c)));
    out
}


// ---------------------------------------------------------------------------
// Tokens: `validate` and `andmatch`
// ---------------------------------------------------------------------------
/// The delimiters `validate` splits on.
pub open spec fn is_validate_delim(c: char) -> bool {
    c == ',' || c == ' ' || c == '/' || c == ')' || c == '(' || c == '.' || c == ';' || c == '['
        || c == ']' || c == '"' || c == '|' || c == ':'
}

/// Whether `andmatch` splits at `c`: anything but an alphanumeric or `_`.
pub open spec fn is_word_break(c: char) -> bool {
    !(alphanumeric(c) || c == '_')
}

/// `s` split at every character where `brk` holds (empty pieces kept); the
/// piece under way is `cur`.
pub open spec fn pieces_from(s: Seq<char>, brk: spec_fn(char) -> bool, cur: Seq<char>) -> Seq<Seq<char>>
    decreases s.len(),
{
    if s.len() == 0 {
        seq![cur]
    } else if brk(s[0]) {
        seq![cur] + pieces_from(s.drop_first(), brk, Seq::empty())
    } else {
        pieces_from(s.drop_first(), brk, cur.push(s[0]))
    }
}

/// The non-empty trimmed pieces, in order.
pub open spec fn tokens_of(ps: Seq<Seq<char>>) -> Seq<Seq<char>>
    decreases ps.len(),
{
    if ps.len() == 0 {
        Seq::empty()
    } else if trim(ps.last()).len() > 0 {
        tokens_of(ps.drop_last()).push(trim(ps.last()))
    } else {
        tokens_of(ps.drop_last())
    }
}

/// `validate`'s tokens of a text: lower-cased, split on the delimiters,
/// trimmed, empty ones dropped.
pub open spec fn validate_tokens(s: Seq<char>) -> Seq<Seq<char>> {
    tokens_of(pieces_from(lowercase(s), break_pred(Breaks::Validate), Seq::empty()))
}

/// The tokens of `allowed` that occur in `data`, each once, in `allowed`'s
/// order.
pub open spec fn intersect(allowed: Seq<Seq<char>>, data: Seq<Seq<char>>) -> Seq<Seq<char>>
    decreases allowed.len(),
{
    if allowed.len() == 0 {
        Seq::empty()
    } else {
        let r = intersect(allowed.drop_last(), data);
        let t = allowed.last();
        if data.contains(t) && !r.contains(t) {
            r.push(t)
        } else {
            r
        }
    }
}

/// `validate`: the whitelist tokens the input has in common with it,
/// joined with `", "`.
pub open spec fn spec_validate(input: Seq<char>, whitelist: Seq<char>) -> Seq<char> {
    join_with(intersect(validate_tokens(whitelist), validate_tokens(input)), ", "@)
}

/// Where a text is split into pieces.
#[derive(Clone, Copy, PartialEq, Eq)]
pub enum Breaks {
    /// `validate`'s delimiters.
    Validate,
    /// `andmatch`'s word breaks.
    Words,
    /// Whitespace.
    Whitespace,
}

pub open spec fn break_pred(b: Breaks) -> spec_fn(char) -> bool {
    match b {
        Breaks::Validate => |c: char| is_validate_delim(c),
        Breaks::Words => |c: char| is_word_break(c),
        Breaks::Whitespace => |c: char| spec_is_ws(c),
    }
}

/// Splits `s` at every character where the break predicate holds.
pub fn pieces(s: &Vec<char>, kind: Breaks) -> (r: Vec<Vec<char>>)
    ensures
        views(r@) == pieces_from(s@, break_pred(kind), Seq::empty()),
{
    let ghost brk = break_pred(kind);
    let mut parts: Vec<Vec<char>> = Vec::new();
    let mut cur: Vec<char> = Vec::new();
    let mut i: usize = 0;
    assert(s@.skip(0) =~= s@);
    assert(views(parts@) + pieces_from(s@, brk, cur@) =~= pieces_from(s@, brk, Seq::empty()));
    while i < s.len()
        invariant
            0 <= i <= s.len(),
            brk == break_pred(kind),
            pieces_from(s@, brk, Seq::empty()) == views(parts@) + pieces_from(s@.skip(i as int), brk, cur@),
        decreases s.len() - i,
    {
        let c = s[i];
        let ghost p0 = views(parts@);
        let ghost rest = s@.skip(i as int);
        assert(rest.drop_first() =~= s@.skip(i + 1));
        assert(rest[0] == c);
        let b = match kind {
            Breaks::Words => !(is_alphanumeric(c) || c == '_'),
            Breaks::Validate => c == ',' || c == ' ' || c == '/' || c == ')' || c == '(' || c == '.'
                || c == ';' || c == '[' || c == ']' || c == '"' || c == '|' || c == ':',
            Breaks::Whitespace => is_ws(c),
        };
        assert(b == brk(c));
        if b {
            let done = cur;
            let ghost dv = done@;
            parts.push(done);
            cur = Vec::new();
            assert(views(parts@) =~= p0.push(dv));
            assert(p0 + (seq![dv] + pieces_from(s@.skip(i + 1), brk, Seq::empty())) =~= views(parts@)
                + pieces_from(s@.skip(i + 1), brk, cur@));
        } else {
            cur.push(c);
        }
        i = i + 1;
    }
    let ghost p0 = views(parts@);
    assert(s@.skip(i as int) =~= Seq::<char>::empty());
    let last = cur;
    let ghost lv = last@;
    parts.push(last);
    assert(views(parts@) =~= p0 + seq![lv]);
    parts
}

fn tokens(ps: &Vec<Vec<char>>) -> (r: Vec<Vec<char>>)
    ensures
        views(r@) == tokens_of(views(ps@)),
{
    let ghost pv = views(ps@);
    let mut out: Vec<Vec<char>> = Vec::new();
    let mut i: usize = 0;
    assert(pv.take(0) =~= Seq::<Seq<char>>::empty());
    assert(views(out@) =~= Seq::<Seq<char>>::empty());
    while i < ps.len()
        invariant
            0 <= i <= ps.len(),
            pv == views(ps@),
            pv.len() == ps@.len(),
            views(out@) == tokens_of(pv.take(i as int)),
        decreases ps.len() - i,
    {
        assert(pv.take(i + 1).drop_last() =~= pv.take(i as int));
        assert(pv.take(i + 1).last() == ps@[i as int]@);
        let t = trimmed(&ps[i]);
        if t.len() > 0 {
            let ghost o0 = views(out@);
            let ghost tv = t@;
            out.push(t);
            assert(views(out@) =~= o0.push(tv));
        }
        i = i + 1;
    }
    assert(pv.take(pv.len() as int) =~= pv);
    out
}

fn validate_tokens_of(s: &Vec<char>) -> (r: Vec<Vec<char>>)
    ensures
        views(r@) == validate_tokens(s@),
{
    let low = to_lower(string_of(s.as_slice()).as_str());
    let lc = chars_of(low.as_str());
    let ps = pieces(&lc, Breaks::Validate);
    tokens(&ps)
}

fn contains_chars(v: &Vec<Vec<char>>, x: &Vec<char>) -> (r: bool)
    ensures
        r == views(v@).contains(x@),
{
    let mut i: usize = 0;
    while i < v.len()
        invariant
            0 <= i <= v.len(),
            forall|j: int| 0 <= j < i ==> v@[j]@ != x@,
        decreases v.len() - i,
    {
        if crate::text::eq_chars(&v[i], x) {
            assert(views(v@)[i as int] == x@);
            return true;
        }
        i = i + 1;
    }
    proof {
        if views(v@).contains(x@) {
            let k = choose|k: int| 0 <= k < views(v@).len() && views(v@)[k] == x@;
            assert(v@[k]@ == x@);
        }
    }
    false
}

fn join_chars(items: &Vec<Vec<char>>, sep: &str) -> (r: Vec<char>)
    ensures
        r@ == join_with(views(items@), sep@),
{
    let ghost iv = views(items@);
    let sepc = chars_of(sep);
    let mut out: Vec<char> = Vec::new();
    let mut i: usize = 0;
    assert(iv.take(0) =~= Seq::<Seq<char>>::empty());
    while i < items.len()
        invariant
            0 <= i <= items.len(),
            iv == views(items@),
            iv.len() == items@.len(),
            sepc@ == sep@,
            out@ == join_with(iv.take(i as int), sep@),
        decreases items.len() - i,
    {
        let ghost o0 = out@;
        if i > 0 {
            push_all(&mut out, &sepc);
        }
        push_all(&mut out, &items[i]);
        proof {
            let t = iv.take(i + 1);
            assert(t.drop_last() =~= iv.take(i as int));
            assert(t.last() == items@[i as int]@);
            if i == 0 {
                assert(out@ =~= t[0]);
            } else {
                assert(out@ =~= join_with(iv.take(i as int), sep@) + sep@ + t.last());
            }
        }
        i = i + 1;
    }
    assert(iv.take(iv.len() as int) =~= iv);
    out
}

/// `validate`: keeps the whitelist's tokens that the input also has, in
/// the whitelist's order, joined with `", "`.
pub fn validate_intersect(input: &Vec<char>, whitelist: &Vec<char>) -> (r: Vec<char>)
    ensures
        r@ == spec_validate(input@, whitelist@),
{
    let allowed = validate_tokens_of(whitelist);
    let data = validate_tokens_of(input);
    let ghost av = views(allowed@);
    let mut kept: Vec<Vec<char>> = Vec::new();
    let mut i: usize = 0;
    assert(av.take(0) =~= Seq::<Seq<char>>::empty());
    assert(views(kept@) =~= Seq::<Seq<char>>::empty());
    while i < allowed.len()
        invariant
            0 <= i <= allowed.len(),
            av == views(allowed@),
            av.len() == allowed@.len(),
            views(kept@) == intersect(av.take(i as int), views(data@)),
        decreases allowed.len() - i,
    {
        assert(av.take(i + 1).drop_last() =~= av.take(i as int));
        assert(av.take(i + 1).last() == allowed@[i as int]@);
        let t = &allowed[i];
        if contains_chars(&data, t) && !contains_chars(&kept, t) {
            let ghost k0 = views(kept@);
            let c = copy_chars(t);
            let ghost cv = c@;
            kept.push(c);
            assert(views(kept@) =~= k0.push(cv));
        }
        i = i + 1;
    }
    assert(av.take(av.len() as int) =~= av);
    join_chars(&kept, ", ")
}

/// The keywords `andmatch` requires: the search keywords joined with a
/// space, cut to `limit` characters when there is one, split at word
/// breaks, empty pieces dropped.
pub open spec fn required_words(keywords: Seq<Seq<char>>, limit: Option<usize>) -> Seq<Seq<char>> {
    let joined = join_with(keywords, " "@);
    let scope = match limit {
        Some(n) => if n < joined.len() {
            joined.take(n as int)
        } else {
            joined
        },
        None => joined,
    };
    nonempty(pieces_from(scope, break_pred(Breaks::Words), Seq::empty()))
}

pub open spec fn nonempty(ps: Seq<Seq<char>>) -> Seq<Seq<char>>
    decreases ps.len(),
{
    if ps.len() == 0 {
        Seq::empty()
    } else if ps.last().len() > 0 {
        nonempty(ps.drop_last()).push(ps.last())
    } else {
        nonempty(ps.drop_last())
    }
}

/// Whether every word occurs, lower-cased, in `text`.
pub open spec fn all_found(words: Seq<Seq<char>>, text: Seq<char>) -> bool
    decreases words.len(),
{
    if words.len() == 0 {
        true
    } else {
        all_found(words.drop_last(), text) && find(text, lowercase(words.last())) is Some
    }
}

/// Whether `andmatch` keeps a row: always without keywords; else when
/// every required word occurs in the lower-cased input.
pub open spec fn spec_and_match_keeps(input: Seq<char>, keywords: Seq<Seq<char>>, limit: Option<usize>) -> bool {
    keywords.len() == 0 || all_found(required_words(keywords, limit), lowercase(input))
}

fn and_match_keeps(input: &Vec<char>, keywords: &Vec<String>, limit: Option<usize>) -> (r: bool)
    ensures
        r == spec_and_match_keeps(input@, keywords@.map_values(|k: String| k@), limit),
{
    if keywords.len() == 0 {
        return true;
    }
    let mut kv: Vec<Vec<char>> = Vec::new();
    let mut i: usize = 0;
    while i < keywords.len()
        invariant
            0 <= i <= keywords.len(),
            kv@.len() == i,
            forall|j: int| 0 <= j < i ==> #[trigger] kv@[j]@ == keywords@[j]@,
        decreases keywords.len() - i,
    {
        kv.push(chars_of(keywords[i].as_str()));
        i = i + 1;
    }
    assert(views(kv@) =~= keywords@.map_values(|k: String| k@));
    let joined = join_chars(&kv, " ");
    let scope = match limit {
        Some(n) => if n < joined.len() {
            copy_range(&joined, 0, n)
        } else {
            joined
        },
        None => joined,
    };
    let ps = pieces(&scope, Breaks::Words);
    let ghost pv = views(ps@);
    let lower_input = chars_of(to_lower(string_of(input.as_slice()).as_str()).as_str());
    let mut ok = true;
    let mut words: Vec<Vec<char>> = Vec::new();
    let mut j: usize = 0;
    assert(pv.take(0) =~= Seq::<Seq<char>>::empty());
    assert(views(words@) =~= Seq::<Seq<char>>::empty());
    while j < ps.len()
        invariant
            0 <= j <= ps.len(),
            pv == views(ps@),
            pv.len() == ps@.len(),
            views(words@) == nonempty(pv.take(j as int)),
            ok == all_found(views(words@), lower_input@),
        decreases ps.len() - j,
    {
        assert(pv.take(j + 1).drop_last() =~= pv.take(j as int));
        assert(pv.take(j + 1).last() == ps@[j as int]@);
        if ps[j].len() > 0 {
            let w = copy_chars(&ps[j]);
            let lw = chars_of(to_lower(string_of(w.as_slice()).as_str()).as_str());
            let found = find_in(&lower_input, &lw).is_some();
            let ghost w0 = views(words@);
            let ghost wv = w@;
            words.push(w);
            assert(views(words@) =~= w0.push(wv));
            assert(views(words@).drop_last() =~= w0);
            ok = ok && found;
        }
        j = j + 1;
    }
    assert(pv.take(pv.len() as int) =~= pv);
    ok
}

// ---------------------------------------------------------------------------
// chrono formats
// ---------------------------------------------------------------------------
/// Whether a chrono format carries an offset directive (`%:z` or `%z`).
pub open spec fn spec_format_has_offset(f: Seq<char>) -> bool {
    find(f, "%:z"@) is Some || find(f, "%z"@) is Some
}

fn format_has_offset(f: &Vec<char>) -> (r: bool)
    ensures
        r == spec_format_has_offset(f@),
{
    let a = chars_of("%:z");
    let b = chars_of("%z");
    find_in(f, &a).is_some() || find_in(f, &b).is_some()
}

pub open spec fn ends_with(s: Seq<char>, suf: Seq<char>) -> bool {
    suf.len() <= s.len() && s.skip(s.len() - suf.len()) == suf
}

/// The format with a trailing offset directive (`" %:z"`, `"%:z"`,
/// `" %z"` or `"%z"`, the first that matches) removed.
pub open spec fn spec_strip_trailing_offset(f: Seq<char>) -> Seq<char> {
    if ends_with(f, " %:z"@) {
        f.take(f.len() - 4)
    } else if ends_with(f, "%:z"@) {
        f.take(f.len() - 3)
    } else if ends_with(f, " %z"@) {
        f.take(f.len() - 3)
    } else if ends_with(f, "%z"@) {
        f.take(f.len() - 2)
    } else {
        f
    }
}

fn strip_suffix(f: &Vec<char>, lit: &str) -> (r: Option<Vec<char>>)
    ensures
        ends_with(f@, lit@) ==> (r matches Some(x) && x@ == f@.take(f@.len() - lit@.len())),
        !ends_with(f@, lit@) ==> r is None,
{
    let l = chars_of(lit);
    if l.len() <= f.len() && matches_at(f, f.len() - l.len(), &l) {
        assert(f@.skip(f@.len() - l@.len()) =~= f@.subrange(f@.len() - l@.len(), f@.len() as int));
        Some(copy_range(f, 0, f.len() - l.len()))
    } else {
        proof {
            if l@.len() <= f@.len() {
                assert(f@.skip(f@.len() - l@.len()) =~= f@.subrange(f@.len() - l@.len(), f@.len() as int));
            }
        }
        None
    }
}

fn strip_trailing_offset(f: &Vec<char>) -> (r: Vec<char>)
    ensures
        r@ == spec_strip_trailing_offset(f@),
{
    proof {
        reveal_strlit(" %:z");
        reveal_strlit("%:z");
        reveal_strlit(" %z");
        reveal_strlit("%z");
    }
    if let Some(x) = strip_suffix(f, " %:z") {
        return x;
    }
    if let Some(x) = strip_suffix(f, "%:z") {
        return x;
    }
    if let Some(x) = strip_suffix(f, " %z") {
        return x;
    }
    if let Some(x) = strip_suffix(f, "%z") {
        return x;
    }
    copy_chars(f)
}

/// `.%.3f` collapsed to `%.3f` (chrono's `%.3f` brings its own dot).
pub open spec fn spec_normalize_fractional_seconds(f: Seq<char>) -> Seq<char> {
    replace_str(f, ".%.3f"@, "%.3f"@)
}

fn normalize_fractional_seconds(f: &Vec<char>) -> (r: Vec<char>)
    ensures
        r@ == spec_normalize_fractional_seconds(f@),
{
    let a = chars_of(".%.3f");
    let b = chars_of("%.3f");
    replace_chars(f, &a, &b)
}


// ---------------------------------------------------------------------------
// Dates by .NET layout
// ---------------------------------------------------------------------------
/// An offset-free format tried as a date-time, then a date (midnight),
/// then a time of day on `now`'s date; all in UTC.
pub open spec fn naive_chain(f: Seq<char>, input: Seq<char>, now: Instant) -> Option<Seq<char>> {
    match naive_datetime_rfc3339(input, f) {
        Some(x) => Some(x),
        None => match naive_date_midnight(input, f) {
            Some(t) => rfc3339_at(t, 0),
            None => match naive_time_of_day(input, f) {
                Some((secs, nanos)) => match midnight_of(now.0, now.1) {
                    Some(m) => if in_i64(m + secs) {
                        rfc3339_at(m + secs, nanos)
                    } else {
                        None
                    },
                    None => None,
                },
                None => None,
            },
        },
    }
}

/// `dateparse`/`timeparse`: the input read by a .NET layout, as RFC 3339
/// UTC text. A format with an offset is tried with it first, then without
/// it (assuming UTC).
pub open spec fn net_datetime(layout: Seq<char>, input: Seq<char>, now: Instant) -> Option<Seq<char>> {
    match spec_layout(layout) {
        Err(_) => None,
        Ok(f0) => {
            let f = spec_normalize_fractional_seconds(f0);
            if spec_format_has_offset(f) {
                match offset_parse_rfc3339(input, f) {
                    Some(x) => Some(x),
                    None => naive_chain(spec_strip_trailing_offset(f), input, now),
                }
            } else {
                naive_chain(f, input, now)
            }
        },
    }
}

fn naive_chain_of(f: &Vec<char>, input: &Vec<char>, now_secs: i64, now_nanos: u32) -> (r: Option<String>)
    ensures
        match naive_chain(f@, input@, (now_secs as int, now_nanos as int)) {
            Some(x) => r matches Some(y) && y@ == x,
            None => r is None,
        },
{
    let fs = string_of(f.as_slice());
    let is = string_of(input.as_slice());
    if let Some(x) = parse_naive_datetime(is.as_str(), fs.as_str()) {
        return Some(x);
    }
    if let Some(t) = parse_naive_date(is.as_str(), fs.as_str()) {
        return rfc3339(t, 0);
    }
    match parse_naive_time(is.as_str(), fs.as_str()) {
        Some((secs, nanos)) => {
            let m = match utc_midnight(now_secs, now_nanos) {
                Some(m) => m,
                None => {
                    return None;
                },
            };
            let t: i128 = m as i128 + secs as i128;
            if t < -0x8000_0000_0000_0000i128 || t > 0x7fff_ffff_ffff_ffffi128 {
                return None;
            }
            rfc3339(t as i64, nanos)
        },
        None => None,
    }
}

fn net_datetime_of(layout: &Vec<char>, input: &Vec<char>, now_secs: i64, now_nanos: u32) -> (r: Option<String>)
    ensures
        match net_datetime(layout@, input@, (now_secs as int, now_nanos as int)) {
            Some(x) => r matches Some(y) && y@ == x,
            None => r is None,
        },
{
    let f0 = match net_layout_to_chrono(string_of(layout.as_slice()).as_str()) {
        Ok(f) => chars_of(f.as_str()),
        Err(_) => {
            return None;
        },
    };
    let f = normalize_fractional_seconds(&f0);
    if format_has_offset(&f) {
        match parse_with_offset(string_of(input.as_slice()).as_str(), string_of(f.as_slice()).as_str()) {
            Some(x) => Some(x),
            None => {
                let stripped = strip_trailing_offset(&f);
                naive_chain_of(&stripped, input, now_secs, now_nanos)
            },
        }
    } else {
        naive_chain_of(&f, input, now_secs, now_nanos)
    }
}


// ---------------------------------------------------------------------------
// Filters
// ---------------------------------------------------------------------------
/// What filter evaluation reads from outside the row: the instant to treat
/// as "now" (seconds and nanoseconds since the Unix epoch, UTC) and the
/// search's keywords.
#[derive(Debug, Clone)]
pub struct FilterCtx {
    pub now_secs: i64,
    pub now_nanos: u32,
    pub keywords: Vec<String>,
}

impl FilterCtx {
    /// A fixed context for tests: `2026-01-15T12:00:00Z`, no keywords.
    pub fn fixed_for_tests() -> (r: FilterCtx)
        ensures
            r.now_secs == 1768478400,
            r.now_nanos == 0,
            r.keywords@.len() == 0,
    {
        FilterCtx { now_secs: 1768478400, now_nanos: 0, keywords: Vec::new() }
    }
}

/// The result of applying a single filter to a value.
#[derive(Debug, Clone, PartialEq, Eq)]
pub enum FilterOutcome {
    /// The filter produced a (possibly transformed) value.
    Value(String),
    /// The filter says to drop the row this value belongs to (`andmatch`).
    DropRow,
}

/// A parsed filter invocation.
pub enum Filter {
    /// Regex substitution with capture-group backreferences (`$1`, …).
    ReReplace { pattern: Pattern, replacement: String },
    /// Literal substring substitution.
    Replace { from: String, to: String },
    /// Appends a literal suffix.
    Append(String),
    /// Prepends a literal prefix.
    Prepend(String),
    /// Parses a date by a .NET custom date-format layout.
    DateParse(String),
    /// Parses a time of day by a .NET custom date-format layout.
    TimeParse(String),
    /// The first capture group (or the whole match) of a regex.
    Regexp(Pattern),
    /// One query-string parameter of a URL or query string.
    QueryString(String),
    /// Keeps only rows containing every search keyword; the optional limit
    /// cuts the joined keywords to that many characters first.
    AndMatch(Option<usize>),
    /// One part of the input split on a separator (negative counts from
    /// the end).
    Split { sep: String, index: i64 },
    /// Trims whitespace, or the given characters, from both ends.
    Trim(Option<String>),
    /// A relative `N units ago` phrase.
    TimeAgo,
    /// A fuzzy time phrase (`yesterday`, `Today at 10:32`, …).
    FuzzyTime,
    /// The whitelist's tokens the input shares with it.
    Validate(String),
    /// Decodes HTML entities.
    HtmlDecode,
    /// Drops characters not valid in a filename.
    ValidFilename,
    /// Percent-decodes.
    UrlDecode,
    /// Percent-encodes.
    UrlEncode,
    /// Folds accented Latin letters.
    Diacritics,
    /// Upper-cases.
    ToUpper,
    /// Lower-cases.
    ToLower,
}

/// The abstract form of a [`Filter`] (a regex by its source text).
pub enum SFilter {
    ReReplace(Seq<char>, Seq<char>),
    Replace(Seq<char>, Seq<char>),
    Append(Seq<char>),
    Prepend(Seq<char>),
    DateParse(Seq<char>),
    TimeParse(Seq<char>),
    Regexp(Seq<char>),
    QueryString(Seq<char>),
    AndMatch(Option<usize>),
    Split(Seq<char>, i64),
    Trim(Option<Seq<char>>),
    TimeAgo,
    FuzzyTime,
    Validate(Seq<char>),
    HtmlDecode,
    ValidFilename,
    UrlDecode,
    UrlEncode,
    Diacritics,
    ToUpper,
    ToLower,
}

impl Filter {
    pub open spec fn sview(&self) -> SFilter {
        match self {
            Filter::ReReplace { pattern, replacement } => SFilter::ReReplace(pattern@, replacement@),
            Filter::Replace { from, to } => SFilter::Replace(from@, to@),
            Filter::Append(x) => SFilter::Append(x@),
            Filter::Prepend(x) => SFilter::Prepend(x@),
            Filter::DateParse(x) => SFilter::DateParse(x@),
            Filter::TimeParse(x) => SFilter::TimeParse(x@),
            Filter::Regexp(p) => SFilter::Regexp(p@),
            Filter::QueryString(x) => SFilter::QueryString(x@),
            Filter::AndMatch(l) => SFilter::AndMatch(*l),
            Filter::Split { sep, index } => SFilter::Split(sep@, *index),
            Filter::Trim(o) => SFilter::Trim(
                match o {
                    Some(x) => Some(x@),
                    None => None,
                },
            ),
            Filter::TimeAgo => SFilter::TimeAgo,
            Filter::FuzzyTime => SFilter::FuzzyTime,
            Filter::Validate(x) => SFilter::Validate(x@),
            Filter::HtmlDecode => SFilter::HtmlDecode,
            Filter::ValidFilename => SFilter::ValidFilename,
            Filter::UrlDecode => SFilter::UrlDecode,
            Filter::UrlEncode => SFilter::UrlEncode,
            Filter::Diacritics => SFilter::Diacritics,
            Filter::ToUpper => SFilter::ToUpper,
            Filter::ToLower => SFilter::ToLower,
        }
    }

    /// Every regex the filter holds was compiled by [`Pattern::compile`].
    pub open spec fn wf(&self) -> bool {
        match self {
            Filter::ReReplace { pattern, .. } => pattern.wf(),
            Filter::Regexp(p) => p.wf(),
            _ => true,
        }
    }
}

/// Why a filter cannot be built.
pub enum FilterErr {
    /// No such filter.
    Unknown,
    /// Its regex does not compile: why.
    BadRegex(Seq<char>),
}

/// The `i`th argument, or the empty string.
pub open spec fn arg(args: Seq<Seq<char>>, i: int) -> Seq<char> {
    if 0 <= i < args.len() {
        args[i]
    } else {
        Seq::empty()
    }
}

pub open spec fn with_regex(p: Seq<char>, f: SFilter) -> Result<SFilter, FilterErr> {
    match spec_compile(p) {
        Ok(_) => Ok(f),
        Err(e) => Err(FilterErr::BadRegex(e)),
    }
}

/// The filter a definition's `{name, args}` pair denotes.
pub open spec fn spec_parse_filter(name: Seq<char>, args: Seq<Seq<char>>) -> Result<SFilter, FilterErr> {
    if name == "re_replace"@ {
        with_regex(arg(args, 0), SFilter::ReReplace(arg(args, 0), arg(args, 1)))
    } else if name == "replace"@ {
        Ok(SFilter::Replace(arg(args, 0), arg(args, 1)))
    } else if name == "append"@ {
        Ok(SFilter::Append(arg(args, 0)))
    } else if name == "prepend"@ {
        Ok(SFilter::Prepend(arg(args, 0)))
    } else if name == "dateparse"@ {
        Ok(SFilter::DateParse(arg(args, 0)))
    } else if name == "timeparse"@ {
        Ok(SFilter::TimeParse(arg(args, 0)))
    } else if name == "regexp"@ {
        with_regex(arg(args, 0), SFilter::Regexp(arg(args, 0)))
    } else if name == "querystring"@ {
        Ok(SFilter::QueryString(arg(args, 0)))
    } else if name == "andmatch"@ {
        Ok(SFilter::AndMatch(
            if args.len() > 0 {
                match parse_unsigned(args[0], usize::MAX as nat) {
                    Some(v) => Some(v as usize),
                    None => None,
                }
            } else {
                None
            },
        ))
    } else if name == "split"@ {
        Ok(SFilter::Split(
            arg(args, 0),
            match parse_i64(arg(args, 1)) {
                Some(v) => v as i64,
                None => 0,
            },
        ))
    } else if name == "trim"@ {
        Ok(SFilter::Trim(if args.len() > 0 { Some(args[0]) } else { None }))
    } else if name == "timeago"@ {
        Ok(SFilter::TimeAgo)
    } else if name == "fuzzytime"@ {
        Ok(SFilter::FuzzyTime)
    } else if name == "validate"@ {
        Ok(SFilter::Validate(arg(args, 0)))
    } else if name == "htmldecode"@ {
        Ok(SFilter::HtmlDecode)
    } else if name == "validfilename"@ {
        Ok(SFilter::ValidFilename)
    } else if name == "urldecode"@ {
        Ok(SFilter::UrlDecode)
    } else if name == "urlencode"@ {
        Ok(SFilter::UrlEncode)
    } else if name == "diacritics"@ {
        Ok(SFilter::Diacritics)
    } else if name == "toupper"@ {
        Ok(SFilter::ToUpper)
    } else if name == "tolower"@ {
        Ok(SFilter::ToLower)
    } else {
        Err(FilterErr::Unknown)
    }
}

pub open spec fn args_view(args: Seq<String>) -> Seq<Seq<char>> {
    args.map_values(|a: String| a@)
}

fn arg_of(args: &[String], i: usize) -> (r: String)
    ensures
        r@ == arg(args_view(args@), i as int),
{
    if i < args.len() {
        String::from_str(args[i].as_str())
    } else {
        String::new()
    }
}

fn compiled(name: &str, p: &String) -> (r: Result<Pattern, CardigannError>)
    ensures
        match spec_compile(p@) {
            Ok(_) => r matches Ok(x) && x.wf() && x@ == p@,
            Err(e) => r matches Err(CardigannError::Filter { name: n, reason }) && n@ == name@
                && reason@ == "invalid regex: "@ + e,
        },
{
    match Pattern::compile(p.as_str()) {
        Ok(x) => Ok(x),
        Err(e) => {
            let mut reason = String::from_str("invalid regex: ");
            reason.append(e.as_str());
            Err(CardigannError::Filter { name: String::from_str(name), reason })
        },
    }
}

/// Builds a [`Filter`] from a definition's `{name, args}` pair.
///
/// Fails with [`CardigannError::UnknownFilter`] for a name this engine
/// does not implement, and with [`CardigannError::Filter`] when a
/// `re_replace`/`regexp` pattern does not compile.
pub fn parse_filter(name: &str, args: &[String]) -> (r: Result<Filter, CardigannError>)
    ensures
        match spec_parse_filter(name@, args_view(args@)) {
            Ok(f) => r matches Ok(x) && x.sview() == f && x.wf(),
            Err(FilterErr::Unknown) => r matches Err(CardigannError::UnknownFilter { name: n })
                && n@ == name@,
            Err(FilterErr::BadRegex(e)) => r matches Err(CardigannError::Filter { name: n, reason })
                && n@ == name@ && reason@ == "invalid regex: "@ + e,
        },
{
    let n = chars_of(name);
    let ghost av = args_view(args@);
    proof {
        assert(forall|i: int| 0 <= i < args@.len() ==> #[trigger] av[i] == args@[i]@);
    }
    if word_is(&n, "re_replace") {
        let p = arg_of(args, 0);
        let pat = compiled(name, &p)?;
        Ok(Filter::ReReplace { pattern: pat, replacement: arg_of(args, 1) })
    } else if word_is(&n, "replace") {
        Ok(Filter::Replace { from: arg_of(args, 0), to: arg_of(args, 1) })
    } else if word_is(&n, "append") {
        Ok(Filter::Append(arg_of(args, 0)))
    } else if word_is(&n, "prepend") {
        Ok(Filter::Prepend(arg_of(args, 0)))
    } else if word_is(&n, "dateparse") {
        Ok(Filter::DateParse(arg_of(args, 0)))
    } else if word_is(&n, "timeparse") {
        Ok(Filter::TimeParse(arg_of(args, 0)))
    } else if word_is(&n, "regexp") {
        let p = arg_of(args, 0);
        let pat = compiled(name, &p)?;
        Ok(Filter::Regexp(pat))
    } else if word_is(&n, "querystring") {
        Ok(Filter::QueryString(arg_of(args, 0)))
    } else if word_is(&n, "andmatch") {
        let limit = if args.len() > 0 {
            parse_usize(&chars_of(args[0].as_str()))
        } else {
            None
        };
        Ok(Filter::AndMatch(limit))
    } else if word_is(&n, "split") {
        let idx = match parse_int(&chars_of(arg_of(args, 1).as_str())) {
            Some(v) => v,
            None => 0,
        };
        Ok(Filter::Split { sep: arg_of(args, 0), index: idx })
    } else if word_is(&n, "trim") {
        Ok(Filter::Trim(if args.len() > 0 { Some(String::from_str(args[0].as_str())) } else { None }))
    } else if word_is(&n, "timeago") {
        Ok(Filter::TimeAgo)
    } else if word_is(&n, "fuzzytime") {
        Ok(Filter::FuzzyTime)
    } else if word_is(&n, "validate") {
        Ok(Filter::Validate(arg_of(args, 0)))
    } else if word_is(&n, "htmldecode") {
        Ok(Filter::HtmlDecode)
    } else if word_is(&n, "validfilename") {
        Ok(Filter::ValidFilename)
    } else if word_is(&n, "urldecode") {
        Ok(Filter::UrlDecode)
    } else if word_is(&n, "urlencode") {
        Ok(Filter::UrlEncode)
    } else if word_is(&n, "diacritics") {
        Ok(Filter::Diacritics)
    } else if word_is(&n, "toupper") {
        Ok(Filter::ToUpper)
    } else if word_is(&n, "tolower") {
        Ok(Filter::ToLower)
    } else {
        Err(CardigannError::UnknownFilter { name: String::from_str(name) })
    }
}

/// What applying a filter gives: `Ok(Some(v))` a value, `Ok(None)` the
/// row dropped (`andmatch`), `Err(reason)` a regex engine failure.
pub open spec fn spec_apply(f: SFilter, input: Seq<char>, now: Instant, keywords: Seq<Seq<char>>) -> Result<
    Option<Seq<char>>,
    Seq<char>,
> {
    match f {
        SFilter::AndMatch(limit) => if spec_and_match_keeps(input, keywords, limit) {
            Ok(Some(input))
        } else {
            Ok(None)
        },
        SFilter::ReReplace(p, rep) => match spec_replace_all(p, input, rep) {
            Ok(s) => Ok(Some(s)),
            Err(e) => Err(e),
        },
        SFilter::Replace(from, to) => Ok(Some(replace_str(input, from, to))),
        SFilter::Append(s) => Ok(Some(input + s)),
        SFilter::Prepend(s) => Ok(Some(s + input)),
        SFilter::Regexp(p) => Ok(Some(
            match spec_first_group(p, input) {
                Some(g) => g,
                None => Seq::empty(),
            },
        )),
        SFilter::QueryString(key) => Ok(Some(spec_query_param(input, key))),
        SFilter::Split(sep, index) => {
            let parts = split_str(input, sep);
            Ok(Some(
                match spec_resolve_split_index(index as int, parts.len() as int) {
                    Some(i) => parts[i],
                    None => Seq::empty(),
                },
            ))
        },
        SFilter::Trim(Some(set)) => Ok(Some(trim_set(input, set))),
        SFilter::Trim(None) => Ok(Some(trim(input))),
        SFilter::ToUpper => Ok(Some(uppercase(input))),
        SFilter::ToLower => Ok(Some(lowercase(input))),
        SFilter::UrlEncode => Ok(Some(url_encode(vstd::utf8::encode_utf8(input)))),
        SFilter::UrlDecode => Ok(Some(utf8_lossy(url_decode_from(vstd::utf8::encode_utf8(input), 0)))),
        SFilter::HtmlDecode => Ok(Some(spec_html_decode(input))),
        SFilter::ValidFilename => Ok(Some(valid_filename(input))),
        SFilter::Diacritics => Ok(Some(input.map_values(|c: char| spec_fold_diacritic_char(c)))),
        SFilter::Validate(whitelist) => Ok(Some(spec_validate(input, whitelist))),
        SFilter::DateParse(layout) => Ok(Some(
            match net_datetime(layout, input, now) {
                Some(x) => x,
                None => input,
            },
        )),
        SFilter::TimeParse(layout) => Ok(Some(
            match net_datetime(layout, input, now) {
                Some(x) => x,
                None => input,
            },
        )),
        SFilter::TimeAgo => Ok(Some(
            match fuzzy_rfc3339(input, now) {
                Some(x) => x,
                None => input,
            },
        )),
        SFilter::FuzzyTime => Ok(Some(
            match fuzzy_rfc3339(input, now) {
                Some(x) => x,
                None => input,
            },
        )),
    }
}

pub open spec fn ctx_now(ctx: &FilterCtx) -> Instant {
    (ctx.now_secs as int, ctx.now_nanos as int)
}

pub open spec fn ctx_keywords(ctx: &FilterCtx) -> Seq<Seq<char>> {
    ctx.keywords@.map_values(|k: String| k@)
}

fn value_of(v: Vec<char>) -> (r: Result<FilterOutcome, CardigannError>)
    ensures
        r matches Ok(FilterOutcome::Value(s)) && s@ == v@,
{
    Ok(FilterOutcome::Value(string_of(v.as_slice())))
}

/// Applies one filter to a value.
///
/// Only `re_replace` can fail, with [`CardigannError::Filter`], when the
/// backtracking regex engine gives up; `andmatch` may drop the row.
pub fn apply(filter: &Filter, input: &str, ctx: &FilterCtx) -> (r: Result<FilterOutcome, CardigannError>)
    requires
        filter.wf(),
    ensures
        match spec_apply(filter.sview(), input@, ctx_now(ctx), ctx_keywords(ctx)) {
            Ok(Some(v)) => r matches Ok(FilterOutcome::Value(s)) && s@ == v,
            Ok(None) => r matches Ok(FilterOutcome::DropRow),
            Err(e) => r matches Err(CardigannError::Filter { name, reason }) && name@ == "re_replace"@
                && reason@ == e,
        },
{
    let t = chars_of(input);
    match filter {
        Filter::AndMatch(limit) => {
            if and_match_keeps(&t, &ctx.keywords, *limit) {
                Ok(FilterOutcome::Value(String::from_str(input)))
            } else {
                Ok(FilterOutcome::DropRow)
            }
        },
        Filter::ReReplace { pattern, replacement } => {
            match pattern.replace_all(input, replacement.as_str()) {
                Ok(s) => Ok(FilterOutcome::Value(s)),
                Err(reason) => Err(CardigannError::Filter { name: String::from_str("re_replace"), reason }),
            }
        },
        Filter::Replace { from, to } => value_of(replace_chars(&t, &chars_of(from.as_str()), &chars_of(to.as_str()))),
        Filter::Append(s) => {
            let mut out = copy_chars(&t);
            push_all(&mut out, &chars_of(s.as_str()));
            value_of(out)
        },
        Filter::Prepend(s) => {
            let mut out = chars_of(s.as_str());
            push_all(&mut out, &t);
            value_of(out)
        },
        Filter::Regexp(p) => match p.first_group(input) {
            Some(g) => Ok(FilterOutcome::Value(g)),
            None => Ok(FilterOutcome::Value(String::new())),
        },
        Filter::QueryString(key) => value_of(query_param(&t, &chars_of(key.as_str()))),
        Filter::Split { sep, index } => {
            let parts = split_chars(&t, &chars_of(sep.as_str()));
            proof {
                assert(views(parts@).len() == parts@.len());
            }
            match resolve_split_index(*index, parts.len()) {
                Some(i) => {
                    proof {
                        assert(views(parts@)[i as int] == parts@[i as int]@);
                    }
                    value_of(copy_chars(&parts[i]))
                },
                None => Ok(FilterOutcome::Value(String::new())),
            }
        },
        Filter::Trim(Some(set)) => value_of(trim_set_chars(&t, &chars_of(set.as_str()))),
        Filter::Trim(None) => value_of(trimmed(&t)),
        Filter::ToUpper => Ok(FilterOutcome::Value(to_upper(input))),
        Filter::ToLower => Ok(FilterOutcome::Value(to_lower(input))),
        Filter::UrlEncode => value_of(url_encode_str(input)),
        Filter::UrlDecode => Ok(FilterOutcome::Value(url_decode_str(input))),
        Filter::HtmlDecode => value_of(html_decode(&t)),
        Filter::ValidFilename => value_of(valid_filename_chars(&t)),
        Filter::Diacritics => value_of(fold_diacritics(&t)),
        Filter::Validate(w) => value_of(validate_intersect(&t, &chars_of(w.as_str()))),
        Filter::DateParse(layout) => match net_datetime_of(&chars_of(layout.as_str()), &t, ctx.now_secs, ctx.now_nanos) {
            Some(x) => Ok(FilterOutcome::Value(x)),
            None => Ok(FilterOutcome::Value(String::from_str(input))),
        },
        Filter::TimeParse(layout) => match net_datetime_of(&chars_of(layout.as_str()), &t, ctx.now_secs, ctx.now_nanos) {
            Some(x) => Ok(FilterOutcome::Value(x)),
            None => Ok(FilterOutcome::Value(String::from_str(input))),
        },
        Filter::TimeAgo => match parse_fuzzy(input, ctx.now_secs, ctx.now_nanos) {
            Some(x) => Ok(FilterOutcome::Value(x)),
            None => Ok(FilterOutcome::Value(String::from_str(input))),
        },
        Filter::FuzzyTime => match parse_fuzzy(input, ctx.now_secs, ctx.now_nanos) {
            Some(x) => Ok(FilterOutcome::Value(x)),
            None => Ok(FilterOutcome::Value(String::from_str(input))),
        },
    }
}

proof fn lemma_encode_utf8_concat(a: Seq<char>, c: Seq<char>)
    ensures
        vstd::utf8::encode_utf8(a + c) == vstd::utf8::encode_utf8(a) + vstd::utf8::encode_utf8(c),
    decreases a.len(),
{
    if a.len() == 0 {
        assert(a + c =~= c);
        assert(vstd::utf8::encode_utf8(a) =~= Seq::<u8>::empty());
        assert(Seq::<u8>::empty() + vstd::utf8::encode_utf8(c) =~= vstd::utf8::encode_utf8(c));
    } else {
        lemma_encode_utf8_concat(a.drop_first(), c);
        assert((a + c).drop_first() =~= a.drop_first() + c);
        assert((a + c)[0] == a[0]);
        assert(vstd::utf8::encode_utf8(a + c) == vstd::utf8::encode_scalar((a + c)[0] as u32)
            + vstd::utf8::encode_utf8((a + c).drop_first()));
        let e0 = vstd::utf8::encode_scalar(a[0] as u32);
        assert(e0 + (vstd::utf8::encode_utf8(a.drop_first()) + vstd::utf8::encode_utf8(c)) =~= (e0
            + vstd::utf8::encode_utf8(a.drop_first())) + vstd::utf8::encode_utf8(c));
    }
}

proof fn lemma_ascii_bytes(cs: Seq<char>)
    requires
        forall|k: int| 0 <= k < cs.len() ==> (#[trigger] cs[k] as u32) < 128,
    ensures
        vstd::utf8::encode_utf8(cs).len() == cs.len(),
        forall|k: int| 0 <= k < cs.len() ==> #[trigger] vstd::utf8::encode_utf8(cs)[k] == cs[k] as u8,
{
    assert(vstd::utf8::is_ascii_chars(cs)) by {
        assert forall|k: int| 0 <= k < cs.len() implies '\0' <= #[trigger] cs[k] <= '\u{7f}' by {
            let c = cs[k];
            assert((c as u32) < 128);
            vstd::utf8::char_u32_cast(c, c as u32);
            assert((c as int) < 128);
        }
    }
    vstd::utf8::is_ascii_chars_encode_utf8(cs);
}

proof fn lemma_url_encode_front(b: u8, bs: Seq<u8>)
    ensures
        url_encode(seq![b] + bs) == url_encode_byte(b) + url_encode(bs),
    decreases bs.len(),
{
    if bs.len() == 0 {
        assert(seq![b] + bs =~= seq![b]);
        assert(seq![b].drop_last() =~= Seq::<u8>::empty());
        assert(url_encode(seq![b]) == url_encode(seq![b].drop_last()) + url_encode_byte(b));
        assert(Seq::<char>::empty() + url_encode_byte(b) =~= url_encode_byte(b));
        assert(url_encode_byte(b) + Seq::<char>::empty() =~= url_encode_byte(b));
    } else {
        lemma_url_encode_front(b, bs.drop_last());
        let whole = seq![b] + bs;
        assert(whole.drop_last() =~= seq![b] + bs.drop_last());
        assert(whole.last() == bs.last());
        assert(url_encode(whole) == url_encode(whole.drop_last()) + url_encode_byte(whole.last()));
        assert(url_encode_byte(b) + url_encode(bs.drop_last()) + url_encode_byte(bs.last()) =~= url_encode_byte(b)
            + (url_encode(bs.drop_last()) + url_encode_byte(bs.last())));
    }
}

proof fn lemma_decode_shift(p: Seq<u8>, q: Seq<u8>, j: int)
    requires
        0 <= j <= q.len(),
    ensures
        url_decode_from(p + q, p.len() + j) == url_decode_from(q, j),
    decreases q.len() - j,
{
    let x = p + q;
    if j < q.len() {
        assert(x[p.len() + j] == q[j]);
        if j + 1 < q.len() {
            assert(x[p.len() + j + 1] == q[j + 1]);
        }
        if j + 2 < q.len() {
            assert(x[p.len() + j + 2] == q[j + 2]);
        }
        lemma_decode_shift(p, q, j + 1);
        if j + 3 <= q.len() {
            lemma_decode_shift(p, q, j + 3);
        }
    }
}

proof fn lemma_hex_upper_value(n: nat)
    requires
        n < 16,
    ensures
        (hex_upper(n) as u32) < 128,
        (hex_upper(n) as u8) != 43,
        hex_byte_value(hex_upper(n) as u8) == Some(n),
{
}

/// The bytes of one URL-encoded byte, decoded again, give the byte back,
/// whatever follows.
proof fn lemma_decode_one(b: u8, rest: Seq<u8>)
    ensures
        forall|k: int| 0 <= k < url_encode_byte(b).len() ==> (#[trigger] url_encode_byte(b)[k] as u32) < 128,
        url_decode_from(vstd::utf8::encode_utf8(url_encode_byte(b)) + rest, 0) == seq![b] + url_decode_from(rest, 0),
{
    let w = url_encode_byte(b);
    let x = vstd::utf8::encode_utf8(w) + rest;
    if is_url_safe(b) {
        assert(w == seq![b as char]);
        assert((b as char) as u32 == b as u32);
        assert forall|k: int| 0 <= k < w.len() implies (#[trigger] w[k] as u32) < 128 by {}
        lemma_ascii_bytes(w);
        assert(x[0] == b);
        lemma_decode_shift(vstd::utf8::encode_utf8(w), rest, 0);
    } else if b == 32 {
        assert(w == seq!['+']);
        assert forall|k: int| 0 <= k < w.len() implies (#[trigger] w[k] as u32) < 128 by {}
        lemma_ascii_bytes(w);
        assert(x[0] == 43);
        lemma_decode_shift(vstd::utf8::encode_utf8(w), rest, 0);
    } else {
        let hi = (b / 16) as nat;
        let lo = (b % 16) as nat;
        lemma_hex_upper_value(hi);
        lemma_hex_upper_value(lo);
        assert(w == seq!['%', hex_upper(hi), hex_upper(lo)]);
        assert forall|k: int| 0 <= k < w.len() implies (#[trigger] w[k] as u32) < 128 by {}
        lemma_ascii_bytes(w);
        assert(x[0] == 37);
        assert(x[1] == hex_upper(hi) as u8);
        assert(x[2] == hex_upper(lo) as u8);
        assert(hex_pair(x[1], x[2]) == Some(b));
        lemma_decode_shift(vstd::utf8::encode_utf8(w), rest, 0);
    }
}

proof fn lemma_round_trip_bytes(bs: Seq<u8>)
    ensures
        url_decode_from(vstd::utf8::encode_utf8(url_encode(bs)), 0) == bs,
    decreases bs.len(),
{
    if bs.len() == 0 {
        assert(url_encode(bs) =~= Seq::<char>::empty());
    } else {
        let rest = bs.drop_first();
        assert(bs =~= seq![bs[0]] + rest);
        lemma_url_encode_front(bs[0], rest);
        lemma_encode_utf8_concat(url_encode_byte(bs[0]), url_encode(rest));
        lemma_decode_one(bs[0], vstd::utf8::encode_utf8(url_encode(rest)));
        lemma_round_trip_bytes(rest);
    }
}

/// URL-decoding the URL encoding of a text gives back its UTF-8 bytes,
/// which decode as the text itself: `urldecode` undoes `urlencode`.
pub proof fn law_url_decode_undoes_encode(s: Seq<char>)
    ensures
        url_decode_from(vstd::utf8::encode_utf8(url_encode(vstd::utf8::encode_utf8(s))), 0) == vstd::utf8::encode_utf8(s),
        vstd::utf8::valid_utf8(vstd::utf8::encode_utf8(s)),
        vstd::utf8::decode_utf8(vstd::utf8::encode_utf8(s)) == s,
{
    lemma_round_trip_bytes(vstd::utf8::encode_utf8(s));
    vstd::utf8::encode_utf8_valid_utf8(s);
    vstd::utf8::encode_utf8_decode_utf8(s);
}

proof fn lemma_find_char(s: Seq<char>, c: char)
    ensures
        match find(s, seq![c]) {
            Some(e) => 0 <= e < s.len() && s[e] == c && forall|k: int| 0 <= k < e ==> s[k] != c,
            None => forall|k: int| 0 <= k < s.len() ==> s[k] != c,
        },
    decreases s.len(),
{
    if s.len() > 0 {
        lemma_find_char(s.drop_first(), c);
        if starts_with(s, seq![c]) {
            assert(s.subrange(0, 1) == seq![c]);
            assert(s.subrange(0, 1)[0] == s[0]);
        } else {
            assert(s[0] != c) by {
                if s[0] == c {
                    assert(s.subrange(0, 1) =~= seq![c]);
                }
            }
            assert forall|k: int| 1 <= k < s.len() implies s[k] == s.drop_first()[k - 1] by {}
        }
    }
}

/// Whether the `key=value` pair `p` is named `key`: it begins with `key`
/// followed by `=`.
pub open spec fn pair_named(p: Seq<char>, key: Seq<char>) -> bool {
    starts_with(p, key + seq!['='])
}

proof fn lemma_pair_named(p: Seq<char>, key: Seq<char>)
    requires
        !key.contains('='),
    ensures
        pair_named(p, key) <==> (find(p, seq!['=']) matches Some(e) && p.take(e) == key),
{
    lemma_find_char(p, '=');
    let kk = key + seq!['='];
    if pair_named(p, key) {
        assert(p.subrange(0, kk.len() as int) == kk);
        assert forall|k: int| 0 <= k < key.len() implies p[k] != '=' by {
            assert(p[k] == p.subrange(0, kk.len() as int)[k]);
            assert(kk[k] == key[k]);
            if key[k] == '=' {
                assert(key.contains('='));
            }
        }
        assert(p[key.len() as int] == kk[key.len() as int]);
        let e = find(p, seq!['='])->0;
        assert(e == key.len());
        assert(p.take(e) =~= key);
    }
    if find(p, seq!['=']) matches Some(e) && p.take(e) == key {
        assert(p.subrange(0, kk.len() as int) =~= kk);
    }
}

proof fn lemma_first_kv(pairs: Seq<Seq<char>>, key: Seq<char>, i: int, v: Seq<char>)
    requires
        !key.contains('='),
        0 <= i < pairs.len(),
        pairs[i] == key + seq!['='] + v,
        forall|j: int| 0 <= j < i ==> !pair_named(#[trigger] pairs[j], key),
    ensures
        first_kv(pairs, key) == Some(v),
    decreases i,
{
    let p = pairs[0];
    lemma_pair_named(p, key);
    if i == 0 {
        assert(pair_named(p, key)) by {
            assert(p.subrange(0, key.len() as int + 1) =~= key + seq!['=']);
        }
        let e = find(p, seq!['='])->0;
        lemma_find_char(p, '=');
        assert(e == key.len()) by {
            assert(p.take(e) == key);
            assert(p.take(e).len() == e);
        }
        assert(p.skip(e + 1) =~= v);
    } else {
        assert(!pair_named(pairs[0], key));
        let rest = pairs.drop_first();
        assert forall|j: int| 0 <= j < i - 1 implies !pair_named(#[trigger] rest[j], key) by {
            assert(rest[j] == pairs[j + 1]);
        }
        lemma_first_kv(rest, key, i - 1, v);
    }
}

proof fn lemma_first_kv_none(pairs: Seq<Seq<char>>, key: Seq<char>)
    requires
        !key.contains('='),
        forall|j: int| 0 <= j < pairs.len() ==> !pair_named(#[trigger] pairs[j], key),
    ensures
        first_kv(pairs, key) is None,
    decreases pairs.len(),
{
    if pairs.len() > 0 {
        lemma_pair_named(pairs[0], key);
        assert(!pair_named(pairs[0], key));
        let rest = pairs.drop_first();
        assert forall|j: int| 0 <= j < rest.len() implies !pair_named(#[trigger] rest[j], key) by {
            assert(rest[j] == pairs[j + 1]);
        }
        lemma_first_kv_none(rest, key);
    }
}

/// The `key=value` pairs of a URL or bare query string: the text after
/// the first `?` (all of it when there is none), split at every `&`.
pub open spec fn query_pairs(input: Seq<char>) -> Seq<Seq<char>> {
    split_str(
        match find(input, seq!['?']) {
            Some(p) => input.skip(p + 1),
            None => input,
        },
        seq!['&'],
    )
}

/// `querystring(key)` reads the query's pairs (split at `&`) in order: the
/// value of the first pair `key=v` is the answer, whatever pairs with
/// other names come before it; with no pair named `key` the answer is
/// empty.
pub proof fn law_querystring_is_the_first_pair_named_key(input: Seq<char>, key: Seq<char>, i: int, v: Seq<char>)
    requires
        !key.contains('='),
    ensures
        (0 <= i < query_pairs(input).len() && query_pairs(input)[i] == key + seq!['='] + v && (forall|j: int|
            0 <= j < i ==> !pair_named(#[trigger] query_pairs(input)[j], key))) ==> spec_query_param(input, key) == v,
        (forall|j: int| 0 <= j < query_pairs(input).len() ==> !pair_named(#[trigger] query_pairs(input)[j], key))
            ==> spec_query_param(input, key) == Seq::<char>::empty(),
{
    let pairs = query_pairs(input);
    if 0 <= i < pairs.len() && pairs[i] == key + seq!['='] + v && (forall|j: int|
        0 <= j < i ==> !pair_named(#[trigger] pairs[j], key)) {
        lemma_first_kv(pairs, key, i, v);
    }
    if forall|j: int| 0 <= j < pairs.len() ==> !pair_named(#[trigger] pairs[j], key) {
        lemma_first_kv_none(pairs, key);
    }
}

} // verus!
