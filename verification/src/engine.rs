//! Reading values out of scraped result rows.
use vstd::prelude::*;

use crate::catmap::{newznab_of, CategoryMap};
use crate::datetime::{parse_rfc3339, rfc3339_utc};
use crate::error::{CardigannError, SError};
use crate::feed::{ov, u32_of, u64_of, ReleaseFields, SRelease};
use crate::filters::{
    all_digits, apply, args_view, parse_filter, parse_u32, parse_u64, spec_apply, spec_parse_filter, ctx_keywords, ctx_now,
    FilterCtx, FilterErr, FilterOutcome,
};
use crate::fuzzydate::Instant;
use crate::catmap::entries_of;
use crate::dom::{attr_of, root_of, selector_matches, spec_select, text_of, texts_below, texts_view, valid_element, Document};
use crate::model::{Definition, Field, FilterSpec};
use crate::selector::{compile, spec_compile_selector, CompiledSelector, SCompiled, SelErr};
use crate::template::{parse_failure_reason, render, spec_render, RenderError, Scope, ScopeView};
use crate::pairs::pairs_view;
use crate::text::{chars_of, copy_range, find, matches_at, spec_is_ws, string_of, to_upper, trim, trimmed, uppercase, is_ws, starts_with};

verus! {

/// `s` without its commas.
pub open spec fn remove_commas(s: Seq<char>) -> Seq<char>
    decreases s.len(),
{
    if s.len() == 0 {
        s
    } else if s.last() != ',' {
        remove_commas(s.drop_last()).push(s.last())
    } else {
        remove_commas(s.drop_last())
    }
}

pub open spec fn is_digit_or_dot(c: char) -> bool {
    ('0' <= c && c <= '9') || c == '.'
}

/// Length of the longest prefix of `s` whose characters satisfy `p`.
pub open spec fn prefix_len(s: Seq<char>, p: spec_fn(char) -> bool) -> nat
    decreases s.len(),
{
    if s.len() > 0 && p(s[0]) {
        1 + prefix_len(s.drop_first(), p)
    } else {
        0
    }
}

/// The number a string of ASCII digits denotes.
pub open spec fn dec_value(s: Seq<char>) -> nat
    decreases s.len(),
{
    if s.len() == 0 {
        0
    } else {
        dec_value(s.drop_last()) * 10 + ((s.last() as nat - '0' as nat) as nat)
    }
}

/// `n`, capped at `u64::MAX` (saturating arithmetic).
pub open spec fn sat(n: int) -> int {
    if n > u64::MAX {
        u64::MAX as int
    } else {
        n
    }
}

pub open spec fn pow10(n: nat) -> nat
    decreases n,
{
    if n == 0 {
        1
    } else {
        10 * pow10((n - 1) as nat)
    }
}

/// Bytes per unit of a size suffix (`TB`/`TiB`, `GB`, `MB`, `KB`; anything
/// else counts bytes).
pub open spec fn unit_multiplier(u: Seq<char>) -> int {
    if starts_with(u, "TB"@) || starts_with(u, "TIB"@) {
        1099511627776int
    } else if starts_with(u, "GB"@) || starts_with(u, "GIB"@) {
        1073741824int
    } else if starts_with(u, "MB"@) || starts_with(u, "MIB"@) {
        1048576int
    } else if starts_with(u, "KB"@) || starts_with(u, "KIB"@) {
        1024int
    } else {
        1int
    }
}

/// The byte count a human-readable size (`"1.5 GB"`, `"700 MB"`) denotes:
/// commas are dropped, the text trimmed and upper-cased; the leading run
/// of digits and dots is the number (at most six decimals are read), the
/// rest after any whitespace is the unit. `None` when there are no whole
/// digits, the whole part does not fit in a `u64`, or there is a second dot.
pub open spec fn spec_parse_size(input: Seq<char>) -> Option<u64> {
    let cleaned = uppercase(trim(remove_commas(input)));
    let digits = cleaned.take(prefix_len(cleaned, |c: char| is_digit_or_dot(c)) as int);
    let dot = find(digits, seq!['.']);
    let whole_str = match dot {
        Some(d) => digits.take(d),
        None => digits,
    };
    let frac_raw = match dot {
        Some(d) => digits.skip(d + 1),
        None => Seq::empty(),
    };
    if whole_str.len() == 0 || dec_value(whole_str) > u64::MAX || frac_raw.contains('.') {
        None
    } else {
        let places = if frac_raw.len() < 6 {
            frac_raw.len()
        } else {
            6
        };
        let frac = dec_value(frac_raw.take(places as int));
        let unit = trim(
            cleaned.skip(
                prefix_len(cleaned, |c: char| is_digit_or_dot(c) || spec_is_ws(c)) as int,
            ),
        );
        let m = unit_multiplier(unit);
        Some(sat(sat(dec_value(whole_str) * m) + sat(frac * m) / (pow10(places) as int)) as u64)
    }
}


proof fn lemma_pow10_mono(a: nat, b: nat)
    requires
        a <= b,
    ensures
        pow10(a) <= pow10(b),
    decreases b,
{
    if a < b {
        lemma_pow10_mono(a, (b - 1) as nat);
    }
}

proof fn lemma_dec_value_bound(s: Seq<char>)
    requires
        forall|i: int| 0 <= i < s.len() ==> '0' <= #[trigger] s[i] && s[i] <= '9',
    ensures
        dec_value(s) < pow10(s.len()),
    decreases s.len(),
{
    if s.len() > 0 {
        lemma_dec_value_bound(s.drop_last());
    }
}

/// Length of the prefix of `s[i..]` made of digits and dots.
fn digit_dot_prefix(s: &Vec<char>, with_ws: bool) -> (r: usize)
    ensures
        with_ws ==> r == prefix_len(s@, |c: char| is_digit_or_dot(c) || spec_is_ws(c)),
        !with_ws ==> r == prefix_len(s@, |c: char| is_digit_or_dot(c)),
        r <= s.len(),
        forall|j: int| 0 <= j < r ==> is_digit_or_dot(#[trigger] s@[j]) || (with_ws && spec_is_ws(s@[j])),
{
    let ghost p = if with_ws {
        |c: char| is_digit_or_dot(c) || spec_is_ws(c)
    } else {
        |c: char| is_digit_or_dot(c)
    };
    let mut i: usize = 0;
    assert(s@.skip(0) =~= s@);
    while i < s.len() && (('0' <= s[i] && s[i] <= '9') || s[i] == '.' || (with_ws && is_ws(s[i])))
        invariant
            0 <= i <= s.len(),
            p == (if with_ws {
                |c: char| is_digit_or_dot(c) || spec_is_ws(c)
            } else {
                |c: char| is_digit_or_dot(c)
            }),
            prefix_len(s@, p) == i + prefix_len(s@.skip(i as int), p),
            forall|j: int| 0 <= j < i ==> is_digit_or_dot(#[trigger] s@[j]) || (with_ws && spec_is_ws(s@[j])),
        decreases s.len() - i,
    {
        assert(s@.skip(i as int).drop_first() =~= s@.skip(i + 1));
        assert(s@.skip(i as int)[0] == s@[i as int]);
        i = i + 1;
    }
    if i < s.len() {
        assert(s@.skip(i as int)[0] == s@[i as int]);
    }
    i
}

/// Parses a human-readable size (`"1.5 GB"`, `"700 MB"`, `"1,024 KiB"`)
/// into bytes, with integer arithmetic saturating at `u64::MAX`. An
/// unreadable size is `None`, never zero; so is a malformed one such as
/// `"1.2.3 GB"`.
pub fn parse_size(input: &str) -> (r: Option<u64>)
    ensures
        r == spec_parse_size(input@),
{
    let chars = chars_of(input);
    let mut nc: Vec<char> = Vec::new();
    let mut i: usize = 0;
    assert(chars@.take(0) =~= Seq::<char>::empty());
    while i < chars.len()
        invariant
            0 <= i <= chars.len(),
            nc@ == remove_commas(chars@.take(i as int)),
        decreases chars.len() - i,
    {
        proof {
            assert(chars@.take(i + 1).drop_last() =~= chars@.take(i as int));
        }
        if chars[i] != ',' {
            nc.push(chars[i]);
        }
        i = i + 1;
    }
    assert(chars@.take(chars@.len() as int) =~= chars@);
    let t = trimmed(&nc);
    let up = to_upper(string_of(t.as_slice()).as_str());
    let cleaned = chars_of(up.as_str());
    let k = digit_dot_prefix(&cleaned, false);
    let ghost digits = cleaned@.take(k as int);
    let mut d: usize = 0;
    assert(digits.skip(0) =~= digits);
    while d < k && cleaned[d] != '.'
        invariant
            0 <= d <= k <= cleaned.len(),
            digits == cleaned@.take(k as int),
            forall|j: int| 0 <= j < d ==> digits[j] != '.',
            find(digits, seq!['.']) == match find(digits.skip(d as int), seq!['.']) {
                Some(x) => Some(x + d),
                None => None::<int>,
            },
        decreases k - d,
    {
        let ghost rest = digits.skip(d as int);
        assert(rest.drop_first() =~= digits.skip(d + 1));
        assert(rest.subrange(0, 1) =~= seq![rest[0]]);
        assert(rest[0] == cleaned@[d as int]);
        assert(seq![rest[0]][0] != '.');
        assert(!starts_with(rest, seq!['.']));
        d = d + 1;
    }
    proof {
        let rest = digits.skip(d as int);
        if d < k {
            assert(rest.subrange(0, 1) =~= seq!['.']);
            assert(find(rest, seq!['.']) == Some(0int));
        } else {
            assert(rest.len() == 0);
        }
    }
    if d == 0 {
        return None;
    }
    // whole part, capped at 2^64
    let cap: u128 = 0x1_0000_0000_0000_0000;
    let mut whole: u128 = 0;
    let mut j: usize = 0;
    while j < d
        invariant
            0 <= j <= d <= k <= cleaned.len(),
            digits == cleaned@.take(k as int),
            forall|x: int| 0 <= x < k ==> is_digit_or_dot(#[trigger] cleaned@[x]),
            forall|x: int| 0 <= x < d ==> digits[x] != '.',
            cap == 0x1_0000_0000_0000_0000u128,
            whole == (if dec_value(cleaned@.take(j as int)) < cap { dec_value(cleaned@.take(j as int)) } else { cap as nat }),
        decreases d - j,
    {
        assert(cleaned@.take(j + 1).drop_last() =~= cleaned@.take(j as int));
        assert(digits[j as int] == cleaned@[j as int]);
        let dv = (cleaned[j] as u32 - '0' as u32) as u128;
        if whole < cap {
            whole = whole * 10 + dv;
            if whole > cap {
                whole = cap;
            }
        }
        j = j + 1;
    }
    assert(cleaned@.take(d as int) == digits.take(d as int));
    if whole >= cap {
        return None;
    }
    // fractional part
    let mut frac_has_dot = false;
    let mut f: usize = if d < k { d + 1 } else { k };
    let fstart = f;
    while f < k
        invariant
            fstart <= f <= k <= cleaned.len(),
            frac_has_dot == exists|x: int| fstart <= x < f && cleaned@[x] == '.',
        decreases k - f,
    {
        if cleaned[f] == '.' {
            frac_has_dot = true;
        }
        f = f + 1;
    }
    let ghost frac_raw = cleaned@.subrange(fstart as int, k as int);
    proof {
        if d < k {
            assert(frac_raw =~= digits.skip(d + 1));
        } else {
            assert(frac_raw =~= Seq::<char>::empty());
        }
        if frac_has_dot {
            let x = choose|x: int| fstart <= x < k && cleaned@[x] == '.';
            assert(frac_raw[x - fstart] == '.');
        }
        if frac_raw.contains('.') {
            let x = choose|x: int| 0 <= x < frac_raw.len() && frac_raw[x] == '.';
            assert(cleaned@[fstart + x] == '.');
        }
    }
    if frac_has_dot {
        return None;
    }
    let places: usize = if k - fstart < 6 { k - fstart } else { 6 };
    let mut frac: u64 = 0;
    let mut scale: u64 = 1;
    let mut q: usize = 0;
    while q < places
        invariant
            0 <= q <= places <= 6,
            fstart + places <= k <= cleaned.len(),
            forall|x: int| 0 <= x < k ==> is_digit_or_dot(#[trigger] cleaned@[x]),
            !frac_has_dot,
            forall|x: int| fstart <= x < k ==> cleaned@[x] != '.',
            frac as nat == dec_value(cleaned@.subrange(fstart as int, fstart + q)),
            frac < pow10(q as nat),
            scale as nat == pow10(q as nat),
            scale <= 1000000,
        decreases places - q,
    {
        assert(cleaned@.subrange(fstart as int, fstart + q + 1).drop_last() =~= cleaned@.subrange(fstart as int, fstart + q));
        proof {
            lemma_pow10_mono((q + 1) as nat, 6);
            reveal_with_fuel(pow10, 7);
        }
        let dv = (cleaned[fstart + q] as u32 - '0' as u32) as u64;
        frac = frac * 10 + dv;
        scale = scale * 10;
        q = q + 1;
    }
    assert(cleaned@.subrange(fstart as int, fstart + places) =~= frac_raw.take(places as int));
    // unit
    let k2 = digit_dot_prefix(&cleaned, true);
    let rest = copy_range(&cleaned, k2, cleaned.len());
    assert(rest@ =~= cleaned@.skip(k2 as int));
    let unit = trimmed(&rest);
    let m: u64 = unit_multiplier_of(&unit);
    let w = whole as u64;
    assert(w as nat == dec_value(cleaned@.take(d as int)));
    assert((w as u128) * (m as u128) <= 0xffff_ffff_ffff_ffffu128 * 1099511627776u128) by (nonlinear_arith)
        requires
            w <= 0xffff_ffff_ffff_ffffu64,
            m <= 1099511627776u64,
    ;
    assert((frac as u128) * (m as u128) <= 1000000u128 * 1099511627776u128) by (nonlinear_arith)
        requires
            frac <= 1000000u64,
            m <= 1099511627776u64,
    ;
    let a: u128 = (w as u128) * (m as u128);
    let a = if a > 0xffff_ffff_ffff_ffffu128 { 0xffff_ffff_ffff_ffffu128 } else { a };
    let b: u128 = (frac as u128) * (m as u128);
    let b = if b > 0xffff_ffff_ffff_ffffu128 { 0xffff_ffff_ffff_ffffu128 } else { b };
    let c: u128 = a + b / (scale as u128);
    let c = if c > 0xffff_ffff_ffff_ffffu128 { 0xffff_ffff_ffff_ffffu128 } else { c };
    Some(c as u64)
}

fn unit_multiplier_of(u: &Vec<char>) -> (r: u64)
    ensures
        r as int == unit_multiplier(u@),
        r <= 1099511627776u64,
{
    let tb = chars_of("TB");
    let tib = chars_of("TIB");
    let gb = chars_of("GB");
    let gib = chars_of("GIB");
    let mb = chars_of("MB");
    let mib = chars_of("MIB");
    let kb = chars_of("KB");
    let kib = chars_of("KIB");
    if matches_at(u, 0, &tb) || matches_at(u, 0, &tib) {
        1099511627776u64
    } else if matches_at(u, 0, &gb) || matches_at(u, 0, &gib) {
        1073741824u64
    } else if matches_at(u, 0, &mb) || matches_at(u, 0, &mib) {
        1048576u64
    } else if matches_at(u, 0, &kb) || matches_at(u, 0, &kib) {
        1024
    } else {
        1
    }
}


// ---------------------------------------------------------------------------
// Fields
// ---------------------------------------------------------------------------
/// One filter of a field's chain on a value: `Ok(None)` drops the row.
pub open spec fn filter_step(f: FilterSpec, v: Seq<char>, now: Instant, kws: Seq<Seq<char>>) -> Result<Option<Seq<char>>, SError> {
    match spec_parse_filter(f.name@, f.args.texts()) {
        Err(FilterErr::Unknown) => Err(SError::UnknownFilter(f.name@)),
        Err(FilterErr::BadRegex(e)) => Err(SError::Filter(f.name@, "invalid regex: "@ + e)),
        Ok(sf) => match spec_apply(sf, v, now, kws) {
            Ok(x) => Ok(x),
            Err(e) => Err(SError::Filter("re_replace"@, e)),
        },
    }
}

/// A field's filter chain on a value, in order; a dropped row stops it.
pub open spec fn filter_chain(fs: Seq<FilterSpec>, v: Seq<char>, now: Instant, kws: Seq<Seq<char>>) -> Result<Option<Seq<char>>, SError>
    decreases fs.len(),
{
    if fs.len() == 0 {
        Ok(Some(v))
    } else {
        match filter_chain(fs.drop_last(), v, now, kws) {
            Ok(Some(x)) => filter_step(fs.last(), x, now, kws),
            other => other,
        }
    }
}

/// A field's value from what was located for it: the filter chain, then
/// `default:` when the result is empty.
pub open spec fn field_outcome(field: Field, located: Seq<char>, now: Instant, kws: Seq<Seq<char>>) -> Result<Option<Seq<char>>, SError> {
    match filter_chain(field.filters@, located, now, kws) {
        Ok(Some(v)) => Ok(Some(
            match field.default {
                Some(d) => if v.len() == 0 {
                    d@
                } else {
                    v
                },
                None => v,
            },
        )),
        other => other,
    }
}

pub open spec fn outcome_view(r: Result<FilterOutcome, CardigannError>, s: Result<Option<Seq<char>>, SError>) -> bool {
    match s {
        Ok(Some(v)) => r matches Ok(FilterOutcome::Value(x)) && x@ == v,
        Ok(None) => r matches Ok(FilterOutcome::DropRow),
        Err(e) => r matches Err(x) && x.sview() == e,
    }
}

fn run_filter(f: &FilterSpec, v: &str, ctx: &FilterCtx) -> (r: Result<FilterOutcome, CardigannError>)
    ensures
        outcome_view(r, filter_step(*f, v@, ctx_now(ctx), ctx_keywords(ctx))),
{
    let args = f.args.to_vec();
    proof {
        assert(args_view(args@) == f.args.texts());
    }
    let filter = parse_filter(f.name.as_str(), args.as_slice())?;
    apply(&filter, v, ctx)
}

/// Runs a field's filter chain on the value located for it, then applies
/// its `default:` when the result is empty (see [`field_outcome`]); a
/// filter that drops the row ends the chain.
pub fn finish_field(field: &Field, located: String, ctx: &FilterCtx) -> (r: Result<FilterOutcome, CardigannError>)
    ensures
        outcome_view(r, field_outcome(*field, located@, ctx_now(ctx), ctx_keywords(ctx))),
{
    let ghost fs = field.filters@;
    let ghost now = ctx_now(ctx);
    let ghost kws = ctx_keywords(ctx);
    let mut value = located;
    let mut i: usize = 0;
    assert(fs.take(0) =~= Seq::<FilterSpec>::empty());
    while i < field.filters.len()
        invariant
            0 <= i <= field.filters.len(),
            fs == field.filters@,
            now == ctx_now(ctx),
            kws == ctx_keywords(ctx),
            filter_chain(fs.take(i as int), located@, now, kws) == Ok::<Option<Seq<char>>, SError>(Some(value@)),
        decreases field.filters.len() - i,
    {
        assert(fs.take(i + 1).drop_last() =~= fs.take(i as int));
        assert(fs.take(i + 1).last() == fs[i as int]);
        match run_filter(&field.filters[i], value.as_str(), ctx) {
            Ok(FilterOutcome::Value(v)) => {
                value = v;
            },
            Ok(FilterOutcome::DropRow) => {
                proof {
                    lemma_chain_stops(fs, i as int + 1, located@, now, kws, Ok(None));
                }
                return Ok(FilterOutcome::DropRow);
            },
            Err(e) => {
                proof {
                    lemma_chain_stops(fs, i as int + 1, located@, now, kws, Err(e.sview()));
                }
                return Err(e);
            },
        }
        i = i + 1;
    }
    assert(fs.take(field.filters.len() as int) =~= fs);
    match &field.default {
        Some(d) => {
            if chars_of(value.as_str()).len() == 0 {
                return Ok(FilterOutcome::Value(String::from_str(d.as_str())));
            }
        },
        None => {},
    }
    Ok(FilterOutcome::Value(value))
}

proof fn lemma_chain_stops(
    fs: Seq<FilterSpec>,
    n: int,
    v: Seq<char>,
    now: Instant,
    kws: Seq<Seq<char>>,
    out: Result<Option<Seq<char>>, SError>,
)
    requires
        0 <= n <= fs.len(),
        filter_chain(fs.take(n), v, now, kws) == out,
        !(out matches Ok(Some(_))),
    ensures
        filter_chain(fs, v, now, kws) == out,
    decreases fs.len() - n,
{
    if n < fs.len() {
        assert(fs.take(n + 1).drop_last() =~= fs.take(n));
        lemma_chain_stops(fs, n + 1, v, now, kws, out);
    } else {
        assert(fs.take(n) =~= fs);
    }
}

// ---------------------------------------------------------------------------
// Releases
// ---------------------------------------------------------------------------
/// The value of the last binding of `k`, or the empty string.
pub open spec fn value_of(values: Seq<(Seq<char>, Seq<char>)>, k: Seq<char>) -> Seq<char>
    decreases values.len(),
{
    if values.len() == 0 {
        Seq::empty()
    } else if values.last().0 == k {
        values.last().1
    } else {
        value_of(values.drop_last(), k)
    }
}

pub open spec fn non_empty(s: Seq<char>) -> Option<Seq<char>> {
    if s.len() > 0 {
        Some(s)
    } else {
        None
    }
}

/// Sorted ascending, each id once.
pub open spec fn sorted_distinct(s: Seq<u32>) -> bool {
    forall|i: int, j: int| 0 <= i < j < s.len() ==> s[i] < s[j]
}

/// The release a row's field values give: each field by its name, counts
/// read as numbers with commas dropped, the size by [`parse_size`], the
/// `date` kept when it is RFC 3339, the category mapped to Newznab ids
/// (sorted, each once), the ratio factors as their text.
pub open spec fn release_from(values: Seq<(Seq<char>, Seq<char>)>, cats: Seq<u32>) -> SRelease {
    let get = |k: Seq<char>| value_of(values, k);
    SRelease {
        title: get("title"@),
        size: spec_parse_size(get("size"@)),
        seeders: u32_of(remove_commas(get("seeders"@))),
        leechers: u32_of(remove_commas(get("leechers"@))),
        grabs: u32_of(remove_commas(get("grabs"@))),
        details_url: non_empty(get("details"@)),
        download_url: non_empty(get("download"@)),
        magnet_url: non_empty(get("magnet"@)),
        info_hash: non_empty(get("infohash"@)),
        publish_date: rfc3339_utc(get("date"@)),
        categories: cats,
        download_volume_factor: Some(get("downloadvolumefactor"@)),
        upload_volume_factor: Some(get("uploadvolumefactor"@)),
        imdb_id: non_empty(get("imdbid"@)),
        tmdb_id: u32_of(get("tmdbid"@)),
        tvdb_id: u32_of(get("tvdbid"@)),
        files: u32_of(remove_commas(get("files"@))),
        minimum_seed_time: u64_of(get("minimumseedtime"@)),
        minimum_ratio: Some(get("minimumratio"@)),
        description: non_empty(get("description"@)),
        poster: non_empty(get("poster"@)),
        genre: non_empty(get("genre"@)),
    }
}

fn get_value(values: &Vec<(String, String)>, k: &str) -> (r: String)
    ensures
        r@ == value_of(pairs_view(values@), k@),
{
    let want = chars_of(k);
    let ghost pv = pairs_view(values@);
    let mut i = values.len();
    assert(pv.take(i as int) =~= pv);
    while i > 0
        invariant
            i <= values.len(),
            want@ == k@,
            pv == pairs_view(values@),
            value_of(pv, k@) == value_of(pv.take(i as int), k@),
        decreases i,
    {
        assert(pv.take(i as int).drop_last() =~= pv.take(i - 1));
        assert(pv.take(i as int).last() == pv[i - 1]);
        if crate::text::eq_chars(&chars_of(values[i - 1].0.as_str()), &want) {
            return String::from_str(values[i - 1].1.as_str());
        }
        i = i - 1;
    }
    String::new()
}

fn opt_non_empty(s: String) -> (r: Option<String>)
    ensures
        ov(r) == non_empty(s@),
{
    if chars_of(s.as_str()).len() > 0 {
        Some(s)
    } else {
        None
    }
}

fn without_commas(s: &String) -> (r: Vec<char>)
    ensures
        r@ == remove_commas(s@),
{
    let chars = chars_of(s.as_str());
    let mut nc: Vec<char> = Vec::new();
    let mut i: usize = 0;
    assert(chars@.take(0) =~= Seq::<char>::empty());
    while i < chars.len()
        invariant
            0 <= i <= chars.len(),
            nc@ == remove_commas(chars@.take(i as int)),
        decreases chars.len() - i,
    {
        assert(chars@.take(i + 1).drop_last() =~= chars@.take(i as int));
        if chars[i] != ',' {
            nc.push(chars[i]);
        }
        i = i + 1;
    }
    assert(chars@.take(chars@.len() as int) =~= chars@);
    nc
}

/// `ids` sorted ascending with repeats dropped.
fn sort_dedup(ids: Vec<u32>) -> (r: Vec<u32>)
    ensures
        sorted_distinct(r@),
        forall|x: u32| r@.contains(x) <==> ids@.contains(x),
{
    let mut out: Vec<u32> = Vec::new();
    let mut i: usize = 0;
    while i < ids.len()
        invariant
            0 <= i <= ids.len(),
            sorted_distinct(out@),
            forall|x: u32| out@.contains(x) <==> ids@.take(i as int).contains(x),
        decreases ids.len() - i,
    {
        let x = ids[i];
        let mut p: usize = 0;
        while p < out.len() && out[p] < x
            invariant
                0 <= p <= out.len(),
                forall|j: int| 0 <= j < p ==> out@[j] < x,
            decreases out.len() - p,
        {
            p = p + 1;
        }
        let ghost before = out@;
        assert(forall|y: u32| before.contains(y) <==> ids@.take(i as int).contains(y));
        let found = p < out.len() && out[p] == x;
        if !found {
            out.insert(p, x);
        }
        proof {
            if found {
                assert(out@ == before);
                assert(before[p as int] == x);
                assert forall|y: u32| out@.contains(y) <==> (before.contains(y) || y == x) by {
                    if y == x {
                        assert(out@[p as int] == x);
                    }
                }
            } else {
                assert(out@ == before.insert(p as int, x));
                assert forall|a: int, b: int| 0 <= a < b < out@.len() implies out@[a] < out@[b] by {
                    if b < p {
                        assert(out@[a] == before[a] && out@[b] == before[b]);
                    } else if b == p {
                        assert(out@[a] == before[a]);
                    } else if a < p {
                        assert(out@[a] == before[a] && out@[b] == before[b - 1]);
                        assert(before[p as int] >= x);
                        if b - 1 > p {
                            assert(before[p as int] < before[b - 1]);
                        }
                    } else if a == p {
                        assert(out@[b] == before[b - 1]);
                        assert(before[p as int] >= x);
                        assert(before[p as int] != x);
                        if b - 1 > p {
                            assert(before[p as int] < before[b - 1]);
                        }
                    } else {
                        assert(out@[a] == before[a - 1] && out@[b] == before[b - 1]);
                    }
                }
                assert forall|y: u32| out@.contains(y) <==> (before.contains(y) || y == x) by {
                    if out@.contains(y) {
                        let k = choose|k: int| 0 <= k < out@.len() && #[trigger] out@[k] == y;
                        if k < p {
                            assert(before[k] == y);
                        } else if k > p {
                            assert(before[k - 1] == y);
                        }
                    }
                    if before.contains(y) {
                        let k = choose|k: int| 0 <= k < before.len() && #[trigger] before[k] == y;
                        if k < p {
                            assert(out@[k] == y);
                        } else {
                            assert(out@[k + 1] == y);
                        }
                    }
                    if y == x {
                        assert(out@[p as int] == x);
                    }
                }
            }
            let t = ids@.take(i + 1);
            assert forall|y: u32| t.contains(y) <==> (ids@.take(i as int).contains(y) || y == x) by {
                if t.contains(y) {
                    let k = choose|k: int| 0 <= k < t.len() && #[trigger] t[k] == y;
                    if k < i {
                        assert(ids@.take(i as int)[k] == y);
                    }
                }
                if ids@.take(i as int).contains(y) {
                    let k = choose|k: int| 0 <= k < i && #[trigger] ids@.take(i as int)[k] == y;
                    assert(t[k] == y);
                }
                if y == x {
                    assert(t[i as int] == x);
                }
            }
            assert forall|y: u32| out@.contains(y) <==> ids@.take(i + 1).contains(y) by {
                assert(out@.contains(y) <==> (before.contains(y) || y == x));
                assert(before.contains(y) <==> ids@.take(i as int).contains(y));
                assert(t.contains(y) <==> (ids@.take(i as int).contains(y) || y == x));
            }
        }
        i = i + 1;
    }
    assert(ids@.take(ids.len() as int) =~= ids@);
    out
}

/// The release a row's field values give (see [`release_from`]); the
/// `category` value is mapped through the definition's category table.
pub fn build_release(values: &Vec<(String, String)>, category_map: &CategoryMap) -> (r: ReleaseFields)
    ensures
        sorted_distinct(r.categories@),
        forall|x: u32| r.categories@.contains(x) <==> newznab_of(category_map@.entries, value_of(pairs_view(values@), "category"@)).contains(x),
        r@ == release_from(pairs_view(values@), r.categories@),
{
    let cats = sort_dedup(category_map.to_newznab(get_value(values, "category").as_str()));
    ReleaseFields {
        title: get_value(values, "title"),
        size: parse_size(get_value(values, "size").as_str()),
        seeders: parse_u32(&without_commas(&get_value(values, "seeders"))),
        leechers: parse_u32(&without_commas(&get_value(values, "leechers"))),
        grabs: parse_u32(&without_commas(&get_value(values, "grabs"))),
        details_url: opt_non_empty(get_value(values, "details")),
        download_url: opt_non_empty(get_value(values, "download")),
        magnet_url: opt_non_empty(get_value(values, "magnet")),
        info_hash: opt_non_empty(get_value(values, "infohash")),
        publish_date: parse_rfc3339(get_value(values, "date").as_str()),
        categories: cats,
        download_volume_factor: Some(get_value(values, "downloadvolumefactor")),
        upload_volume_factor: Some(get_value(values, "uploadvolumefactor")),
        imdb_id: opt_non_empty(get_value(values, "imdbid")),
        tmdb_id: parse_u32(&chars_of(get_value(values, "tmdbid").as_str())),
        tvdb_id: parse_u32(&chars_of(get_value(values, "tvdbid").as_str())),
        files: parse_u32(&without_commas(&get_value(values, "files"))),
        minimum_seed_time: parse_u64(&chars_of(get_value(values, "minimumseedtime").as_str())),
        minimum_ratio: Some(get_value(values, "minimumratio")),
        description: opt_non_empty(get_value(values, "description")),
        poster: opt_non_empty(get_value(values, "poster")),
        genre: opt_non_empty(get_value(values, "genre")),
    }
}


// ---------------------------------------------------------------------------
// Extraction
// ---------------------------------------------------------------------------
/// The reason an HTML-only step refuses a JSON field-path selector.
pub open spec fn json_selector_reason() -> Seq<char> {
    "JSON field-path selectors are not supported by the HTML extraction engine"@
}

/// The reason a definition declaring a JSON response is refused.
pub open spec fn json_response_reason() -> Seq<char> {
    "definition declares a JSON search response; the HTML extraction engine cannot read it"@
}

/// A selector compiled for use against an HTML document: a JSON field
/// path is refused rather than selecting nothing.
pub open spec fn html_selector(raw: Seq<char>) -> Result<SCompiled, SError> {
    match spec_compile_selector(raw) {
        Ok(SCompiled::JsonPath) => Err(SError::Selector(raw, json_selector_reason())),
        Ok(c) => Ok(c),
        Err(SelErr::Unbalanced) => Err(SError::UnbalancedContains(raw)),
        Err(SelErr::Css(why)) => Err(SError::Selector(raw, why)),
    }
}

/// Compiles `raw` for an HTML document (see [`html_selector`]).
pub fn compile_html_selector(raw: &str) -> (r: Result<CompiledSelector, CardigannError>)
    ensures
        match html_selector(raw@) {
            Ok(c) => r matches Ok(x) && x@ == c,
            Err(e) => r matches Err(x) && x.sview() == e,
        },
{
    let compiled = compile(raw)?;
    if compiled.is_json_path() {
        return Err(
            CardigannError::Selector {
                selector: String::from_str(raw),
                reason: String::from_str("JSON field-path selectors are not supported by the HTML extraction engine"),
            },
        );
    }
    Ok(compiled)
}

/// A template rendered against a scope, its failure as an error.
pub open spec fn rendered(t: Seq<char>, sv: ScopeView) -> Result<Seq<char>, SError> {
    match spec_render(t, sv) {
        Ok(s) => Ok(s),
        Err(RenderError::Parse) => Err(SError::Template(t, parse_failure_reason())),
        Err(RenderError::Regex(p, why)) => Err(SError::Template(p, why)),
    }
}

fn render_checked(t: &str, scope: &Scope) -> (r: Result<String, CardigannError>)
    ensures
        match rendered(t@, scope@) {
            Ok(s) => r matches Ok(x) && x@ == s,
            Err(e) => r matches Err(x) && x.sview() == e,
        },
{
    render(t, scope)
}

/// A `case:` block's value for a row: the value (a template) of the first
/// entry, in order, whose key is the catch-all `*` or a selector matching
/// the row itself or something below it; the empty string when none does.
pub open spec fn case_of(html: Seq<char>, row: usize, sv: ScopeView, entries: Seq<(Seq<char>, Seq<char>)>) -> Result<
    Seq<char>,
    SError,
>
    decreases entries.len(),
{
    if entries.len() == 0 {
        Ok(Seq::empty())
    } else if entries[0].0 == "*"@ {
        rendered(entries[0].1, sv)
    } else {
        match html_selector(entries[0].0) {
            Err(e) => Err(e),
            Ok(c) => if selector_matches(html, row, c) || spec_select(html, row, c).len() > 0 {
                rendered(entries[0].1, sv)
            } else {
                case_of(html, row, sv, entries.drop_first())
            },
        }
    }
}

fn case_value(case: &Vec<(String, String)>, doc: &Document, row: usize, scope: &Scope) -> (r: Result<String, CardigannError>)
    requires
        valid_element(doc@, row),
    ensures
        match case_of(doc@, row, scope@, pairs_view(case@)) {
            Ok(s) => r matches Ok(x) && x@ == s,
            Err(e) => r matches Err(x) && x.sview() == e,
        },
{
    let ghost pv = pairs_view(case@);
    let mut i: usize = 0;
    assert(pv.skip(0) =~= pv);
    while i < case.len()
        invariant
            0 <= i <= case.len(),
            valid_element(doc@, row),
            pv == pairs_view(case@),
            case_of(doc@, row, scope@, pv) == case_of(doc@, row, scope@, pv.skip(i as int)),
        decreases case.len() - i,
    {
        assert(pv.skip(i as int)[0] == pv[i as int]);
        assert(pv.skip(i as int).drop_first() =~= pv.skip(i + 1));
        let key = &case[i].0;
        let matched = if crate::text::word_is(&chars_of(key.as_str()), "*") {
            true
        } else {
            let compiled = compile_html_selector(key.as_str())?;
            compiled.matches(doc, row) || compiled.select(doc, row).len() > 0
        };
        if matched {
            return render_checked(case[i].1.as_str(), scope);
        }
        i = i + 1;
    }
    assert(pv.skip(case.len() as int) =~= Seq::<(Seq<char>, Seq<char>)>::empty());
    Ok(String::new())
}

/// Whether a text node, by its ancestors (parent first), lies inside a
/// removed element below `el`.
pub open spec fn under_removed(ancestors: Seq<usize>, el: usize, removed: Seq<usize>) -> bool
    decreases ancestors.len(),
{
    if ancestors.len() == 0 {
        false
    } else if ancestors[0] == el {
        false
    } else if removed.contains(ancestors[0]) {
        true
    } else {
        under_removed(ancestors.drop_first(), el, removed)
    }
}

/// The text of `el`'s text nodes, in order, leaving out those inside a
/// removed element.
pub open spec fn kept_text(texts: Seq<(Seq<char>, Seq<usize>)>, el: usize, removed: Seq<usize>) -> Seq<char>
    decreases texts.len(),
{
    if texts.len() == 0 {
        Seq::empty()
    } else {
        kept_text(texts.drop_last(), el, removed) + if under_removed(texts.last().1, el, removed) {
            Seq::empty()
        } else {
            texts.last().0
        }
    }
}

/// A `selector:` field's value: read from the first element below the row
/// that the selector selects (the empty string when there is none); its
/// `attribute:` when one is named (empty when absent), else its text,
/// leaving out what `remove:` selects below it.
pub open spec fn selected_value(field: Field, sel: Seq<char>, html: Seq<char>, row: usize) -> Result<Seq<char>, SError> {
    match html_selector(sel) {
        Err(e) => Err(e),
        Ok(c) => {
            let found = spec_select(html, row, c);
            if found.len() == 0 {
                Ok(Seq::empty())
            } else {
                let el = found[0];
                match field.attribute {
                    Some(a) => Ok(
                        match attr_of(html, el, a@) {
                            Some(v) => v,
                            None => Seq::empty(),
                        },
                    ),
                    None => match field.remove {
                        None => Ok(text_of(html, el)),
                        Some(rm) => match html_selector(rm@) {
                            Err(e) => Err(e),
                            Ok(rc) => Ok(kept_text(texts_below(html, el), el, spec_select(html, el, rc))),
                        },
                    },
                }
            }
        },
    }
}

fn contains_index(v: &Vec<usize>, x: usize) -> (r: bool)
    ensures
        r == v@.contains(x),
{
    let mut i: usize = 0;
    while i < v.len()
        invariant
            0 <= i <= v.len(),
            forall|j: int| 0 <= j < i ==> v@[j] != x,
        decreases v.len() - i,
    {
        if v[i] == x {
            assert(v@[i as int] == x);
            return true;
        }
        i = i + 1;
    }
    false
}

fn is_under_removed(ancestors: &Vec<usize>, el: usize, removed: &Vec<usize>) -> (r: bool)
    ensures
        r == under_removed(ancestors@, el, removed@),
{
    let mut i: usize = 0;
    assert(ancestors@.skip(0) =~= ancestors@);
    while i < ancestors.len()
        invariant
            0 <= i <= ancestors.len(),
            under_removed(ancestors@, el, removed@) == under_removed(ancestors@.skip(i as int), el, removed@),
        decreases ancestors.len() - i,
    {
        assert(ancestors@.skip(i as int)[0] == ancestors@[i as int]);
        assert(ancestors@.skip(i as int).drop_first() =~= ancestors@.skip(i + 1));
        if ancestors[i] == el {
            return false;
        }
        if contains_index(removed, ancestors[i]) {
            return true;
        }
        i = i + 1;
    }
    false
}

fn select_value(field: &Field, sel: &str, doc: &Document, row: usize) -> (r: Result<String, CardigannError>)
    requires
        valid_element(doc@, row),
    ensures
        match selected_value(*field, sel@, doc@, row) {
            Ok(s) => r matches Ok(x) && x@ == s,
            Err(e) => r matches Err(x) && x.sview() == e,
        },
{
    let compiled = compile_html_selector(sel)?;
    let found = compiled.select(doc, row);
    if found.len() == 0 {
        return Ok(String::new());
    }
    let el = found[0];
    match &field.attribute {
        Some(a) => {
            return Ok(
                match doc.attr(el, a.as_str()) {
                    Some(v) => v,
                    None => String::new(),
                },
            );
        },
        None => {},
    }
    let remove_sel = match &field.remove {
        None => {
            return Ok(doc.text(el));
        },
        Some(rm) => rm,
    };
    let remove_compiled = compile_html_selector(remove_sel.as_str())?;
    let removed = remove_compiled.select(doc, el);
    let texts = doc.text_nodes(el);
    let ghost tv = texts_view(texts@);
    let mut out: Vec<char> = Vec::new();
    let mut i: usize = 0;
    while i < texts.len()
        invariant
            0 <= i <= texts.len(),
            tv == texts_view(texts@),
            out@ == kept_text(tv.take(i as int), el, removed@),
        decreases texts.len() - i,
    {
        assert(tv.take(i + 1).drop_last() =~= tv.take(i as int));
        assert(tv.take(i + 1).last() == tv[i as int]);
        if !is_under_removed(&texts[i].1, el, &removed) {
            crate::text::push_all(&mut out, &chars_of(texts[i].0.as_str()));
        } else {
            assert(out@ + Seq::<char>::empty() =~= out@);
        }
        i = i + 1;
    }
    assert(tv.take(texts.len() as int) =~= tv);
    Ok(string_of(out.as_slice()))
}

/// What a field locates in a row before its filters: a `case:` block
/// first, else a `text:` template, else a `selector:`, else nothing.
pub open spec fn located(field: Field, html: Seq<char>, row: usize, sv: ScopeView) -> Result<Seq<char>, SError> {
    match field.case {
        Some(c) => case_of(html, row, sv, pairs_view(c@)),
        None => match field.text {
            Some(t) => rendered(t@, sv),
            None => match field.selector {
                Some(sel) => selected_value(field, sel@, html, row),
                None => Ok(Seq::empty()),
            },
        },
    }
}

/// A field's outcome in a row: what it locates, then its filters and
/// `default:` (see [`field_outcome`]); `None` drops the row.
pub open spec fn field_in_row(field: Field, html: Seq<char>, row: usize, sv: ScopeView, now: Instant, kws: Seq<Seq<char>>) -> Result<
    Option<Seq<char>>,
    SError,
> {
    match located(field, html, row, sv) {
        Err(e) => Err(e),
        Ok(v) => field_outcome(field, v, now, kws),
    }
}

fn evaluate_field(field: &Field, doc: &Document, row: usize, scope: &Scope, ctx: &FilterCtx) -> (r: Result<FilterOutcome, CardigannError>)
    requires
        valid_element(doc@, row),
    ensures
        outcome_view(r, field_in_row(*field, doc@, row, scope@, ctx_now(ctx), ctx_keywords(ctx))),
{
    let value = match &field.case {
        Some(case) => case_value(case, doc, row, scope)?,
        None => match &field.text {
            Some(text) => render_checked(text.as_str(), scope)?,
            None => match &field.selector {
                Some(sel) => select_value(field, sel.as_str(), doc, row)?,
                None => String::new(),
            },
        },
    };
    finish_field(field, value, ctx)
}

/// A row's fields evaluated in order from the `i`th, each result bound as
/// `.Result.<name>` for the fields after it: the row's values, or `None`
/// when a field drops the row.
pub open spec fn row_from(
    fields: Seq<(String, Field)>,
    i: int,
    html: Seq<char>,
    row: usize,
    sv: ScopeView,
    acc: Seq<(Seq<char>, Seq<char>)>,
    now: Instant,
    kws: Seq<Seq<char>>,
) -> Result<Option<Seq<(Seq<char>, Seq<char>)>>, SError>
    decreases fields.len() - i,
{
    if i < 0 || i >= fields.len() {
        Ok(Some(acc))
    } else {
        match field_in_row(fields[i].1, html, row, sv, now, kws) {
            Err(e) => Err(e),
            Ok(None) => Ok(None),
            Ok(Some(v)) => row_from(
                fields,
                i + 1,
                html,
                row,
                ScopeView { result: sv.result.insert(fields[i].0@, v), ..sv },
                acc.push((fields[i].0@, v)),
                now,
                kws,
            ),
        }
    }
}

/// The kept rows' values, from the `j`th row on.
pub open spec fn rows_from(
    fields: Seq<(String, Field)>,
    rows: Seq<usize>,
    j: int,
    html: Seq<char>,
    sv: ScopeView,
    acc: Seq<Seq<(Seq<char>, Seq<char>)>>,
    now: Instant,
    kws: Seq<Seq<char>>,
) -> Result<Seq<Seq<(Seq<char>, Seq<char>)>>, SError>
    decreases rows.len() - j,
{
    if j < 0 || j >= rows.len() {
        Ok(acc)
    } else {
        match row_from(fields, 0, html, rows[j], sv, Seq::empty(), now, kws) {
            Err(e) => Err(e),
            Ok(None) => rows_from(fields, rows, j + 1, html, sv, acc, now, kws),
            Ok(Some(vals)) => rows_from(fields, rows, j + 1, html, sv, acc.push(vals), now, kws),
        }
    }
}

/// The scope a row starts from: the settings bound as `.Config.*`.
pub open spec fn config_scope(config: Seq<(String, String)>) -> ScopeView {
    ScopeView {
        keywords: Seq::empty(),
        config: crate::query::inserted(config),
        result: Map::empty(),
        query: Map::empty(),
        categories: Seq::empty(),
    }
}

/// What running a definition's `search` block over an HTML body reads:
/// for each row the rows selector selects (past the first `after`), its
/// field values; a definition declaring a JSON response is refused.
pub open spec fn spec_extract(def: Definition, html: Seq<char>, config: Seq<(String, String)>, now: Instant, kws: Seq<Seq<char>>) -> Result<
    Seq<Seq<(Seq<char>, Seq<char>)>>,
    SError,
> {
    if def.spec_declares_json() {
        Err(SError::Definition(json_response_reason()))
    } else {
        match html_selector(def.search.rows.selector@) {
            Err(e) => Err(e),
            Ok(rs) => {
                let skip = match def.search.rows.after {
                    Some(n) => n as int,
                    None => 0,
                };
                let all = spec_select(html, root_of(html), rs);
                let start = if skip < all.len() {
                    skip
                } else {
                    all.len() as int
                };
                rows_from(def.search.fields@, all.skip(start), 0, html, config_scope(config), Seq::empty(), now, kws)
            },
        }
    }
}

/// A release read from a row's values: as [`release_from`] gives it, its
/// categories the Newznab ids the `category` value maps to, sorted, each
/// once.
pub open spec fn release_of_row(r: ReleaseFields, vals: Seq<(Seq<char>, Seq<char>)>, entries: Seq<(Seq<char>, u32)>) -> bool {
    &&& r@ == release_from(vals, r.categories@)
    &&& sorted_distinct(r.categories@)
    &&& forall|x: u32| r.categories@.contains(x) <==> newznab_of(entries, value_of(vals, "category"@)).contains(x)
}

/// A scope with the settings bound as `.Config.*` (see [`config_scope`]).
fn scope_with_config(config: &Vec<(String, String)>) -> (r: Scope)
    ensures
        r@ == config_scope(config@),
{
    let mut scope = Scope::new();
    let mut c: usize = 0;
    assert(crate::query::inserted(config@.take(0)) =~= Map::<Seq<char>, Seq<char>>::empty());
    while c < config.len()
        invariant
            0 <= c <= config.len(),
            scope@ == config_scope(config@.take(c as int)),
        decreases config.len() - c,
    {
        assert(config@.take(c + 1).drop_last() =~= config@.take(c as int));
        assert(config@.take(c + 1).last() == config@[c as int]);
        scope.set_config(config[c].0.as_str(), config[c].1.as_str());
        c = c + 1;
    }
    assert(config@.take(config.len() as int) =~= config@);
    scope
}

fn row_values(
    fields: &Vec<(String, Field)>,
    doc: &Document,
    row: usize,
    config: &Vec<(String, String)>,
    ctx: &FilterCtx,
) -> (r: Result<Option<Vec<(String, String)>>, CardigannError>)
    requires
        valid_element(doc@, row),
    ensures
        match row_from(fields@, 0, doc@, row, config_scope(config@), Seq::empty(), ctx_now(ctx), ctx_keywords(ctx)) {
            Ok(Some(vals)) => r matches Ok(Some(v)) && pairs_view(v@) == vals,
            Ok(None) => r matches Ok(None),
            Err(e) => r matches Err(x) && x.sview() == e,
        },
{
    let ghost now = ctx_now(ctx);
    let ghost kws = ctx_keywords(ctx);
    let mut scope = scope_with_config(config);
    let mut values: Vec<(String, String)> = Vec::new();
    assert(pairs_view(values@) =~= Seq::<(Seq<char>, Seq<char>)>::empty());
    let mut i: usize = 0;
    while i < fields.len()
        invariant
            0 <= i <= fields.len(),
            valid_element(doc@, row),
            now == ctx_now(ctx),
            kws == ctx_keywords(ctx),
            row_from(fields@, 0, doc@, row, config_scope(config@), Seq::empty(), now, kws) == row_from(
                fields@,
                i as int,
                doc@,
                row,
                scope@,
                pairs_view(values@),
                now,
                kws,
            ),
        decreases fields.len() - i,
    {
        let (name, field) = (&fields[i].0, &fields[i].1);
        match evaluate_field(field, doc, row, &scope, ctx)? {
            FilterOutcome::DropRow => {
                return Ok(None);
            },
            FilterOutcome::Value(raw) => {
                scope.set_result(name.as_str(), raw.as_str());
                let ghost before = pairs_view(values@);
                values.push((String::from_str(name.as_str()), raw));
                assert(pairs_view(values@) =~= before.push((fields@[i as int].0@, values@.last().1@)));
            },
        }
        i = i + 1;
    }
    Ok(Some(values))
}

/// Runs a definition's row and field extraction over an HTML response
/// body (see [`spec_extract`]); each kept row becomes a release through
/// the definition's category mappings (see [`release_of_row`]).
///
/// Fails when the definition declares a JSON response, when the rows
/// selector, a `case:` key, a field's `selector:` or `remove:` does not
/// compile (or is a JSON field path), and when a field's template or
/// filter chain fails.
pub fn extract(def: &Definition, body: &str, config: &Vec<(String, String)>, ctx: &FilterCtx) -> (r: Result<
    Vec<ReleaseFields>,
    CardigannError,
>)
    ensures
        match spec_extract(*def, body@, config@, ctx_now(ctx), ctx_keywords(ctx)) {
            Ok(rows) => r matches Ok(v) && v@.len() == rows.len() && forall|i: int|
                0 <= i < rows.len() ==> release_of_row(#[trigger] v@[i], rows[i], entries_of(def.caps.categorymappings@)),
            Err(e) => r matches Err(x) && x.sview() == e,
        },
{
    if def.declares_json_response() {
        return Err(
            CardigannError::Definition {
                reason: String::from_str(
                    "definition declares a JSON search response; the HTML extraction engine cannot read it",
                ),
            },
        );
    }
    let doc = Document::parse(body);
    let rows_selector = compile_html_selector(def.search.rows.selector.as_str())?;
    let category_map = CategoryMap::from_mappings(&def.caps.categorymappings);
    let ghost entries = entries_of(def.caps.categorymappings@);
    let ghost now = ctx_now(ctx);
    let ghost kws = ctx_keywords(ctx);
    let root = doc.root();
    let all = rows_selector.select(&doc, root);
    let skip: usize = match def.search.rows.after {
        Some(n) => n,
        None => 0,
    };
    let start: usize = if skip < all.len() {
        skip
    } else {
        all.len()
    };
    let ghost rows = all@.skip(start as int);
    let mut out: Vec<ReleaseFields> = Vec::new();
    let ghost mut acc: Seq<Seq<(Seq<char>, Seq<char>)>> = Seq::empty();
    let mut j: usize = start;
    while j < all.len()
        invariant
            start <= j <= all.len(),
            doc@ == body@,
            forall|q: int| 0 <= q < all@.len() ==> valid_element(doc@, #[trigger] all@[q]),
            rows == all@.skip(start as int),
            category_map@.entries == entries,
            now == ctx_now(ctx),
            kws == ctx_keywords(ctx),
            spec_extract(*def, body@, config@, now, kws) == rows_from(
                def.search.fields@,
                rows,
                j - start,
                body@,
                config_scope(config@),
                acc,
                now,
                kws,
            ),
            out@.len() == acc.len(),
            forall|i: int| 0 <= i < acc.len() ==> release_of_row(#[trigger] out@[i], acc[i], entries),
        decreases all.len() - j,
    {
        assert(rows[j - start] == all@[j as int]);
        match row_values(&def.search.fields, &doc, all[j], config, ctx)? {
            None => {},
            Some(values) => {
                let release = build_release(&values, &category_map);
                out.push(release);
                proof {
                    acc = acc.push(pairs_view(values@));
                }
            },
        }
        j = j + 1;
    }
    Ok(out)
}

proof fn lemma_remove_commas_concat(x: Seq<char>, y: Seq<char>)
    ensures
        remove_commas(x + y) == remove_commas(x) + remove_commas(y),
    decreases y.len(),
{
    if y.len() == 0 {
        assert(x + y =~= x);
        assert(remove_commas(x) + remove_commas(y) =~= remove_commas(x));
    } else {
        lemma_remove_commas_concat(x, y.drop_last());
        assert((x + y).drop_last() =~= x + y.drop_last());
        assert((x + y).last() == y.last());
        if y.last() != ',' {
            assert(remove_commas(x) + remove_commas(y.drop_last()).push(y.last()) =~= (remove_commas(x)
                + remove_commas(y.drop_last())).push(y.last()));
        }
    }
}

proof fn lemma_digits_have_no_commas(a: Seq<char>)
    requires
        all_digits(a),
    ensures
        remove_commas(a) == a,
    decreases a.len(),
{
    if a.len() > 0 {
        assert(all_digits(a.drop_last())) by {
            assert forall|i: int| 0 <= i < a.drop_last().len() implies crate::filters::is_digit(#[trigger] a.drop_last()[i]) by {
                assert(a.drop_last()[i] == a[i]);
            }
        }
        lemma_digits_have_no_commas(a.drop_last());
        assert(crate::filters::is_digit(a[a.len() - 1]));
        assert(a.drop_last().push(a.last()) =~= a);
    }
}

/// A row's counts are read alike, and thousands separators do not count:
/// grabs, seeders, leechers and files read the same text as the same
/// number; a comma anywhere in the grabs text leaves the count unchanged;
/// and grabs written in decimal digits read as the number they denote.
pub proof fn law_counts_read_alike_and_ignore_commas(
    values: Seq<(Seq<char>, Seq<char>)>,
    cats: Seq<u32>,
    a: Seq<char>,
    b: Seq<char>,
)
    ensures
        value_of(values, "grabs"@) == value_of(values, "seeders"@) ==> release_from(values, cats).grabs
            == release_from(values, cats).seeders,
        value_of(values, "grabs"@) == value_of(values, "leechers"@) ==> release_from(values, cats).grabs
            == release_from(values, cats).leechers,
        value_of(values, "grabs"@) == value_of(values, "files"@) ==> release_from(values, cats).grabs
            == release_from(values, cats).files,
        release_from(values.push(("grabs"@, a + seq![','] + b)), cats).grabs == release_from(
            values.push(("grabs"@, a + b)),
            cats,
        ).grabs,
        (a.len() > 0 && all_digits(a) && dec_value(a) <= u32::MAX) ==> release_from(values.push(("grabs"@, a)), cats).grabs
            == Some(dec_value(a) as u32),
{
    let v1 = values.push(("grabs"@, a + seq![','] + b));
    let v2 = values.push(("grabs"@, a + b));
    assert(v1.last().0 == "grabs"@ && v1.drop_last() =~= values);
    assert(value_of(v1, "grabs"@) == a + seq![','] + b);
    assert(value_of(v2, "grabs"@) == a + b);
    lemma_remove_commas_concat(a + seq![','], b);
    lemma_remove_commas_concat(a, seq![',']);
    lemma_remove_commas_concat(a, b);
    assert(remove_commas(seq![',']) =~= Seq::<char>::empty()) by {
        let c = seq![','];
        assert(c.len() == 1 && c.last() == ',');
        assert(c.drop_last() =~= Seq::<char>::empty());
        assert(remove_commas(c) == remove_commas(c.drop_last()));
        assert(remove_commas(Seq::<char>::empty()) == Seq::<char>::empty());
    }
    assert(remove_commas(a) + Seq::<char>::empty() =~= remove_commas(a));
    if a.len() > 0 && all_digits(a) && dec_value(a) <= u32::MAX {
        let v3 = values.push(("grabs"@, a));
        assert(value_of(v3, "grabs"@) == a);
        lemma_digits_have_no_commas(a);
        assert(crate::filters::is_digit(a[0]));
    }
}

} // verus!
