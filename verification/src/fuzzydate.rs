//! The relative/approximate date-time parser behind the `timeago` and
//! `fuzzytime` filters.
//!
//! Recognised (case-insensitively, after trimming and after an optional
//! trailing ` ±HH:MM` offset is taken off): `N unit(s) ago` chains; `today`
//! / `yesterday` / `tomorrow`, optionally `at` a time of day; a bare time of
//! day; `Mon DD YYYY` and `DD Mon`. With an offset, days and times are read
//! in that offset's local frame and converted back to UTC; `ago` chains are
//! plain arithmetic on the true instant.
use vstd::prelude::*;

use crate::datetime::{
    add_deltas, checked_shift, delta_ok, midnight_of, naive_date_midnight, naive_time_of_day,
    parse_naive_date, parse_naive_time, rfc3339, rfc3339_at, shifted_at, try_delta, utc_midnight,
    year_at, year_of,
};
use crate::engine::dec_value;
use crate::filters::{all_digits, break_pred, is_digit, nonempty, parse_i64, parse_int, pieces, pieces_from, views, Breaks};
use crate::model::{decimal, int_to_string};
use crate::text::{chars_of, copy_chars, copy_range, lowercase, matches_at, push_all, spec_is_ws, starts_with, string_of, to_lower, trim, trim_end, trim_start, trimmed, is_ws, word_is, ws_prefix_len, ws_suffix_len};

verus! {

/// An instant: whole seconds since the Unix epoch (UTC), and nanoseconds.
pub type Instant = (int, int);

pub open spec fn in_i64(x: int) -> bool {
    i64::MIN <= x <= i64::MAX
}

/// The instant `d` seconds after `t` (`DateTime::checked_add_signed`).
pub open spec fn shift(t: Instant, d: int) -> Option<Instant> {
    if delta_ok(d) && in_i64(t.0) && 0 <= t.1 <= u32::MAX {
        shifted_at(t.0, t.1, d)
    } else {
        None
    }
}

/// A `±HH:MM` offset in seconds: the two number fields are read as
/// decimal `i64` text (`str::parse::<i64>`) and must be at most 23 and 59.
pub open spec fn parse_offset(c: Seq<char>) -> Option<int> {
    if c.len() != 6 || !(c[0] == '+' || c[0] == '-') || c[3] != ':' {
        None
    } else {
        match parse_i64(c.subrange(1, 3)) {
            None => None,
            Some(h) => match parse_i64(c.subrange(4, 6)) {
                None => None,
                Some(m) => if h > 23 || m > 59 {
                    None
                } else {
                    let mag = h * 3600 + m * 60;
                    Some(if c[0] == '-' { -mag } else { mag })
                },
            },
        }
    }
}

/// The text before a trailing offset (trimmed at its end) and the offset.
pub open spec fn split_offset(s: Seq<char>) -> (Seq<char>, Option<int>) {
    if s.len() < 6 {
        (s, None)
    } else {
        match parse_offset(s.skip(s.len() - 6)) {
            Some(o) => (crate::text::trim_end(s.take(s.len() - 6)), Some(o)),
            None => (s, None),
        }
    }
}

/// Seconds per unit word, with months of 30 days and years of 365.
pub open spec fn unit_seconds(unit: Seq<char>) -> Option<int> {
    if unit == "sec"@ || unit == "secs"@ || unit == "second"@ || unit == "seconds"@ {
        Some(1)
    } else if unit == "min"@ || unit == "mins"@ || unit == "minute"@ || unit == "minutes"@ {
        Some(60)
    } else if unit == "hour"@ || unit == "hours"@ || unit == "hr"@ || unit == "hrs"@ {
        Some(3600)
    } else if unit == "day"@ || unit == "days"@ {
        Some(86400)
    } else if unit == "week"@ || unit == "weeks"@ {
        Some(604800)
    } else if unit == "month"@ || unit == "months"@ {
        Some(2592000int)
    } else if unit == "year"@ || unit == "years"@ {
        Some(31536000int)
    } else {
        None
    }
}

/// The duration of `count` units, when it fits (for months and years the
/// day count must fit an `i64` first).
pub open spec fn unit_duration(unit: Seq<char>, count: int) -> Option<int> {
    match unit_seconds(unit) {
        None => None,
        Some(u) => {
            let days_ok = if u == 2592000 {
                in_i64(count * 30)
            } else if u == 31536000 {
                in_i64(count * 365)
            } else {
                true
            };
            if days_ok && in_i64(count * u) && delta_ok(count * u) {
                Some(count * u)
            } else {
                None
            }
        },
    }
}

/// The total of `count unit` pairs (`toks[0..]` in pairs), when every
/// count parses and every step fits.
pub open spec fn chain_total(toks: Seq<Seq<char>>) -> Option<int>
    decreases toks.len(),
{
    if toks.len() < 2 {
        Some(0)
    } else {
        match chain_total(toks.drop_last().drop_last()) {
            None => None,
            Some(t) => match parse_i64(toks[toks.len() - 2]) {
                None => None,
                Some(n) => match unit_duration(toks.last(), n) {
                    None => None,
                    Some(d) => if delta_ok(t + d) {
                        Some(t + d)
                    } else {
                        None
                    },
                },
            },
        }
    }
}

/// The words of a text without the filler `and`.
pub open spec fn without_and(ws: Seq<Seq<char>>) -> Seq<Seq<char>>
    decreases ws.len(),
{
    if ws.len() == 0 {
        ws
    } else if ws.last() == "and"@ {
        without_and(ws.drop_last())
    } else {
        without_and(ws.drop_last()).push(ws.last())
    }
}

pub open spec fn comma_to_space(s: Seq<char>) -> Seq<char> {
    s.map_values(|c: char| if c == ',' { ' ' } else { c })
}

/// `N unit(s) ago` chains, against the true instant `now`.
pub open spec fn time_ago(s: Seq<char>, now: Instant) -> Option<Instant> {
    if !(s.len() >= 3 && s.skip(s.len() - 3) == "ago"@) {
        None
    } else {
        let body = trim(s.take(s.len() - 3));
        if body.len() == 0 {
            None
        } else {
            let toks = without_and(
                nonempty(pieces_from(comma_to_space(body), break_pred(Breaks::Whitespace), Seq::empty())),
            );
            if toks.len() == 0 || toks.len() % 2 != 0 {
                None
            } else {
                match chain_total(toks) {
                    None => None,
                    Some(t) => shift(now, -t),
                }
            }
        }
    }
}

/// A time of day: 24-hour `HH:MM`, else 12-hour with `am`/`pm` (with or
/// without a space).
pub open spec fn time_of_day(s: Seq<char>) -> Option<(int, int)> {
    let t = trim(s);
    match naive_time_of_day(t, "%H:%M"@) {
        Some(x) => Some(x),
        None => match naive_time_of_day(t, "%I:%M %P"@) {
            Some(x) => Some(x),
            None => naive_time_of_day(t, "%I:%M%P"@),
        },
    }
}

/// `today`/`yesterday`/`tomorrow`, optionally (`at`) a time of day.
pub open spec fn named_day(s: Seq<char>, now: Instant) -> Option<Instant> {
    let picked: Option<(int, Seq<char>)> = if starts_with(s, "yesterday"@) {
        Some((-1, s.skip(9)))
    } else if starts_with(s, "tomorrow"@) {
        Some((1, s.skip(8)))
    } else if starts_with(s, "today"@) {
        Some((0, s.skip(5)))
    } else {
        None
    };
    match picked {
        None => None,
        Some((delta, rest0)) => {
            let rest1 = trim(rest0);
            let rest = if starts_with(rest1, "at"@) {
                trim(rest1.skip(2))
            } else {
                rest1
            };
            let tod = if rest.len() == 0 {
                Some((0, 0))
            } else {
                time_of_day(rest)
            };
            match tod {
                None => None,
                Some((secs, nanos)) => match midnight_of(now.0, now.1) {
                    None => None,
                    Some(m) => Some((m + delta * 86400 + secs, nanos)),
                },
            }
        },
    }
}

/// A bare time of day, on `now`'s date.
pub open spec fn bare_time(s: Seq<char>, now: Instant) -> Option<Instant> {
    match time_of_day(s) {
        None => None,
        Some((secs, nanos)) => match midnight_of(now.0, now.1) {
            None => None,
            Some(m) => Some((m + secs, nanos)),
        },
    }
}

/// `Mon DD YYYY`, else `DD Mon` in `now`'s year.
pub open spec fn month_date(s: Seq<char>, now: Instant) -> Option<Instant> {
    match naive_date_midnight(s, "%b %d %Y"@) {
        Some(t) => Some((t, 0)),
        None => match year_at(now.0) {
            None => None,
            Some(y) => match naive_date_midnight(s + seq![' '] + decimal(y), "%d %b %Y"@) {
                Some(t) => Some((t, 0)),
                None => None,
            },
        },
    }
}

/// What a relative or approximate date-time phrase denotes, against `now`.
pub open spec fn spec_parse_fuzzy(input: Seq<char>, now: Instant) -> Option<Instant> {
    let t = trim(input);
    if t.len() == 0 {
        None
    } else {
        let (body, offset) = split_offset(t);
        let lower = lowercase(trim(body));
        if lower.len() == 0 {
            None
        } else {
            match time_ago(lower, now) {
                Some(x) => Some(x),
                None => {
                    let anchor = match offset {
                        Some(o) => shift(now, o),
                        None => Some(now),
                    };
                    match anchor {
                        None => None,
                        Some(a) => {
                            let parsed = match named_day(lower, a) {
                                Some(x) => Some(x),
                                None => match bare_time(lower, a) {
                                    Some(x) => Some(x),
                                    None => month_date(lower, a),
                                },
                            };
                            match parsed {
                                None => None,
                                Some(p) => match offset {
                                    Some(o) => if in_i64(p.0) {
                                        shift(p, -o)
                                    } else {
                                        None
                                    },
                                    None => Some(p),
                                },
                            }
                        },
                    }
                },
            }
        }
    }
}


/// The RFC 3339 text of what a phrase denotes against `now`.
pub open spec fn fuzzy_rfc3339(input: Seq<char>, now: Instant) -> Option<Seq<char>> {
    match spec_parse_fuzzy(input, now) {
        Some(p) => if in_i64(p.0) && 0 <= p.1 <= u32::MAX {
            rfc3339_at(p.0, p.1)
        } else {
            None
        },
        None => None,
    }
}

pub open spec fn iview(t: (i128, u32)) -> Instant {
    (t.0 as int, t.1 as int)
}

fn shift_by(t: (i128, u32), d: i128) -> (r: Option<(i128, u32)>)
    requires
        in_i64(t.0 as int),
    ensures
        match shift(iview(t), d as int) {
            Some(x) => r matches Some(y) && iview(y) == x && in_i64(y.0 as int),
            None => r is None,
        },
{
    if d < -0x8000_0000_0000_0000i128 || d > 0x7fff_ffff_ffff_ffffi128 {
        return None;
    }
    let secs = match try_delta(d as i64) {
        Some(x) => x,
        None => {
            return None;
        },
    };
    match checked_shift(t.0 as i64, t.1, secs) {
        Some((s, n)) => Some((s as i128, n)),
        None => None,
    }
}

fn parse_offset_x(c: &Vec<char>) -> (r: Option<i128>)
    requires
        c.len() == 6,
    ensures
        match parse_offset(c@) {
            Some(o) => r == Some(o as i128),
            None => r is None,
        },
{
    if !(c[0] == '+' || c[0] == '-') || c[3] != ':' {
        return None;
    }
    let hs = copy_range(c, 1, 3);
    let ms = copy_range(c, 4, 6);
    let h = match parse_int(&hs) {
        Some(h) => h,
        None => {
            return None;
        },
    };
    let m = match parse_int(&ms) {
        Some(m) => m,
        None => {
            return None;
        },
    };
    if h > 23 || m > 59 {
        return None;
    }
    let mag: i128 = (h as i128) * 3600 + (m as i128) * 60;
    if c[0] == '-' {
        Some(-mag)
    } else {
        Some(mag)
    }
}

fn split_offset_x(s: &Vec<char>) -> (r: (Vec<char>, Option<i128>))
    ensures
        r.0@ == split_offset(s@).0,
        match split_offset(s@).1 {
            Some(o) => r.1 == Some(o as i128),
            None => r.1 is None,
        },
{
    if s.len() < 6 {
        return (copy_chars(s), None);
    }
    let tail = copy_range(s, s.len() - 6, s.len());
    assert(tail@ =~= s@.skip(s@.len() - 6));
    match parse_offset_x(&tail) {
        Some(o) => {
            let head = copy_range(s, 0, s.len() - 6);
            assert(head@ =~= s@.take(s@.len() - 6));
            let body = trim_end_chars(&head);
            (body, Some(o))
        },
        None => (copy_chars(s), None),
    }
}

fn trim_end_chars(t: &Vec<char>) -> (r: Vec<char>)
    ensures
        r@ == crate::text::trim_end(t@),
{
    let mut b = t.len();
    assert(t@.take(t@.len() as int) =~= t@);
    while b > 0 && is_ws(t[b - 1])
        invariant
            0 <= b <= t.len(),
            crate::text::ws_suffix_len(t@) == (t.len() - b) + crate::text::ws_suffix_len(t@.take(b as int)),
        decreases b,
    {
        assert(t@.take(b as int).drop_last() =~= t@.take(b - 1));
        b = b - 1;
    }
    assert(t@.take(t@.len() as int) =~= t@);
    copy_range(t, 0, b)
}

fn unit_seconds_of(unit: &Vec<char>) -> (r: Option<i128>)
    ensures
        match unit_seconds(unit@) {
            Some(u) => r == Some(u as i128),
            None => r is None,
        },
{
    if word_is(unit, "sec") || word_is(unit, "secs") || word_is(unit, "second") || word_is(unit, "seconds") {
        Some(1)
    } else if word_is(unit, "min") || word_is(unit, "mins") || word_is(unit, "minute") || word_is(unit, "minutes") {
        Some(60)
    } else if word_is(unit, "hour") || word_is(unit, "hours") || word_is(unit, "hr") || word_is(unit, "hrs") {
        Some(3600)
    } else if word_is(unit, "day") || word_is(unit, "days") {
        Some(86400)
    } else if word_is(unit, "week") || word_is(unit, "weeks") {
        Some(604800)
    } else if word_is(unit, "month") || word_is(unit, "months") {
        Some(2592000)
    } else if word_is(unit, "year") || word_is(unit, "years") {
        Some(31536000)
    } else {
        None
    }
}

fn unit_duration_of(unit: &Vec<char>, count: i64) -> (r: Option<i128>)
    ensures
        match unit_duration(unit@, count as int) {
            Some(d) => r == Some(d as i128),
            None => r is None,
        },
{
    let u = match unit_seconds_of(unit) {
        Some(u) => u,
        None => {
            return None;
        },
    };
    let c = count as i128;
    let lo: i128 = -0x8000_0000_0000_0000i128;
    let hi: i128 = 0x7fff_ffff_ffff_ffffi128;
    if u == 2592000 {
        if c * 30 < lo || c * 30 > hi {
            return None;
        }
    } else if u == 31536000 {
        if c * 365 < lo || c * 365 > hi {
            return None;
        }
    }
    assert(c * u <= 0x7fff_ffff_ffff_ffffi128 * 31536000i128 && c * u >= -0x8000_0000_0000_0000i128 * 31536000i128) by (nonlinear_arith)
        requires
            -0x8000_0000_0000_0000i128 <= c <= 0x7fff_ffff_ffff_ffffi128,
            1 <= u <= 31536000,
    ;
    let d = c * u;
    if d < lo || d > hi {
        return None;
    }
    match try_delta(d as i64) {
        Some(x) => Some(x as i128),
        None => None,
    }
}


fn without_and_of(ws: &Vec<Vec<char>>) -> (r: Vec<Vec<char>>)
    ensures
        views(r@) == without_and(views(ws@)),
{
    let ghost wv = views(ws@);
    let mut out: Vec<Vec<char>> = Vec::new();
    let mut i: usize = 0;
    assert(wv.take(0) =~= Seq::<Seq<char>>::empty());
    assert(views(out@) =~= Seq::<Seq<char>>::empty());
    while i < ws.len()
        invariant
            0 <= i <= ws.len(),
            wv == views(ws@),
            wv.len() == ws@.len(),
            views(out@) == without_and(wv.take(i as int)),
        decreases ws.len() - i,
    {
        assert(wv.take(i + 1).drop_last() =~= wv.take(i as int));
        assert(wv.take(i + 1).last() == ws@[i as int]@);
        if !word_is(&ws[i], "and") {
            let ghost o0 = views(out@);
            let w = copy_chars(&ws[i]);
            let ghost w0 = w@;
            out.push(w);
            assert(views(out@) =~= o0.push(w0));
        }
        i = i + 1;
    }
    assert(wv.take(wv.len() as int) =~= wv);
    out
}

fn nonempty_of(ws: &Vec<Vec<char>>) -> (r: Vec<Vec<char>>)
    ensures
        views(r@) == nonempty(views(ws@)),
{
    let ghost wv = views(ws@);
    let mut out: Vec<Vec<char>> = Vec::new();
    let mut i: usize = 0;
    assert(wv.take(0) =~= Seq::<Seq<char>>::empty());
    assert(views(out@) =~= Seq::<Seq<char>>::empty());
    while i < ws.len()
        invariant
            0 <= i <= ws.len(),
            wv == views(ws@),
            wv.len() == ws@.len(),
            views(out@) == nonempty(wv.take(i as int)),
        decreases ws.len() - i,
    {
        assert(wv.take(i + 1).drop_last() =~= wv.take(i as int));
        assert(wv.take(i + 1).last() == ws@[i as int]@);
        if ws[i].len() > 0 {
            let ghost o0 = views(out@);
            let w = copy_chars(&ws[i]);
            let ghost w0 = w@;
            out.push(w);
            assert(views(out@) =~= o0.push(w0));
        }
        i = i + 1;
    }
    assert(wv.take(wv.len() as int) =~= wv);
    out
}

fn time_ago_x(s: &Vec<char>, now: (i128, u32)) -> (r: Option<(i128, u32)>)
    requires
        in_i64(now.0 as int),
    ensures
        match time_ago(s@, iview(now)) {
            Some(x) => r matches Some(y) && iview(y) == x,
            None => r is None,
        },
{
    if s.len() < 3 {
        return None;
    }
    let tail = copy_range(s, s.len() - 3, s.len());
    assert(tail@ =~= s@.skip(s@.len() - 3));
    if !word_is(&tail, "ago") {
        return None;
    }
    let head = copy_range(s, 0, s.len() - 3);
    assert(head@ =~= s@.take(s@.len() - 3));
    let body = trimmed(&head);
    if body.len() == 0 {
        return None;
    }
    let mut spaced: Vec<char> = Vec::new();
    let mut i: usize = 0;
    while i < body.len()
        invariant
            0 <= i <= body.len(),
            spaced@.len() == i,
            forall|j: int| 0 <= j < i ==> #[trigger] spaced@[j] == (if body@[j] == ',' { ' ' } else { body@[j] }),
        decreases body.len() - i,
    {
        spaced.push(if body[i] == ',' { ' ' } else { body[i] });
        i = i + 1;
    }
    assert(spaced@ =~= comma_to_space(body@));
    let ps = pieces(&spaced, Breaks::Whitespace);
    let ne = nonempty_of(&ps);
    let toks = without_and_of(&ne);
    let ghost tv = views(toks@);
    if toks.len() == 0 || toks.len() % 2 != 0 {
        return None;
    }
    let mut total: i128 = 0;
    let mut k: usize = 0;
    assert(tv.take(0) =~= Seq::<Seq<char>>::empty());
    assert(time_ago(s@, iview(now)) == match chain_total(tv) {
        None => None,
        Some(t) => shift(iview(now), -t),
    });
    while k < toks.len()
        invariant
            time_ago(s@, iview(now)) == match chain_total(tv) {
                None => None,
                Some(t) => shift(iview(now), -t),
            },
            0 <= k <= toks.len(),
            k % 2 == 0,
            toks.len() % 2 == 0,
            tv == views(toks@),
            tv.len() == toks@.len(),
            chain_total(tv.take(k as int)) == Some(total as int),
            delta_ok(total as int),
        decreases toks.len() - k,
    {
        let ghost t2 = tv.take(k + 2);
        assert(t2.drop_last().drop_last() =~= tv.take(k as int));
        assert(t2[t2.len() - 2] == toks@[k as int]@);
        assert(t2.last() == toks@[k + 1]@);
        let n = match parse_int(&toks[k]) {
            Some(n) => n,
            None => {
                proof {
                    lemma_chain_none_prefix(tv, k + 2);
                }
                return None;
            },
        };
        let d = match unit_duration_of(&toks[k + 1], n) {
            Some(d) => d,
            None => {
                proof {
                    lemma_chain_none_prefix(tv, k + 2);
                }
                return None;
            },
        };
        let nt = match add_deltas(total as i64, d as i64) {
            Some(x) => x,
            None => {
                proof {
                    lemma_chain_none_prefix(tv, k + 2);
                }
                return None;
            },
        };
        total = nt as i128;
        k = k + 2;
    }
    assert(tv.take(tv.len() as int) =~= tv);
    shift_by(now, -total)
}

proof fn lemma_chain_none_prefix(toks: Seq<Seq<char>>, k: int)
    requires
        0 <= k <= toks.len(),
        k % 2 == 0,
        toks.len() % 2 == 0,
        chain_total(toks.take(k)) is None,
    ensures
        chain_total(toks) is None,
    decreases toks.len(),
{
    if k == toks.len() {
        assert(toks.take(k) =~= toks);
    } else {
        let d = toks.drop_last().drop_last();
        assert(d.take(k) =~= toks.take(k));
        lemma_chain_none_prefix(d, k);
    }
}

fn time_of_day_x(s: &Vec<char>) -> (r: Option<(u32, u32)>)
    ensures
        match time_of_day(s@) {
            Some(x) => r matches Some(y) && (y.0 as int, y.1 as int) == x && y.0 < 86400,
            None => r is None,
        },
{
    let t = trimmed(s);
    let ts = string_of(t.as_slice());
    match parse_naive_time(ts.as_str(), "%H:%M") {
        Some(x) => Some(x),
        None => match parse_naive_time(ts.as_str(), "%I:%M %P") {
            Some(x) => Some(x),
            None => parse_naive_time(ts.as_str(), "%I:%M%P"),
        },
    }
}

fn named_day_x(s: &Vec<char>, now: (i128, u32)) -> (r: Option<(i128, u32)>)
    requires
        in_i64(now.0 as int),
    ensures
        match named_day(s@, iview(now)) {
            Some(x) => r matches Some(y) && iview(y) == x,
            None => r is None,
        },
{
    let y = chars_of("yesterday");
    let tm = chars_of("tomorrow");
    let td = chars_of("today");
    proof {
        reveal_strlit("yesterday");
        reveal_strlit("tomorrow");
        reveal_strlit("today");
        reveal_strlit("at");
    }
    let (delta, skip): (i128, usize) = if matches_at(s, 0, &y) {
        (-1, 9)
    } else if matches_at(s, 0, &tm) {
        (1, 8)
    } else if matches_at(s, 0, &td) {
        (0, 5)
    } else {
        return None;
    };
    let rest0 = copy_range(s, skip, s.len());
    assert(rest0@ =~= s@.skip(skip as int));
    let rest1 = trimmed(&rest0);
    let at = chars_of("at");
    let rest = if matches_at(&rest1, 0, &at) {
        let x = copy_range(&rest1, 2, rest1.len());
        assert(x@ =~= rest1@.skip(2));
        trimmed(&x)
    } else {
        rest1
    };
    let tod: (u32, u32) = if rest.len() == 0 {
        (0, 0)
    } else {
        match time_of_day_x(&rest) {
            Some(t) => t,
            None => {
                return None;
            },
        }
    };
    match utc_midnight(now.0 as i64, now.1) {
        Some(m) => Some((m as i128 + delta * 86400 + tod.0 as i128, tod.1)),
        None => None,
    }
}

fn bare_time_x(s: &Vec<char>, now: (i128, u32)) -> (r: Option<(i128, u32)>)
    requires
        in_i64(now.0 as int),
    ensures
        match bare_time(s@, iview(now)) {
            Some(x) => r matches Some(y) && iview(y) == x,
            None => r is None,
        },
{
    match time_of_day_x(s) {
        None => None,
        Some(t) => match utc_midnight(now.0 as i64, now.1) {
            Some(m) => Some((m as i128 + t.0 as i128, t.1)),
            None => None,
        },
    }
}

fn month_date_x(s: &Vec<char>, now: (i128, u32)) -> (r: Option<(i128, u32)>)
    requires
        in_i64(now.0 as int),
    ensures
        match month_date(s@, iview(now)) {
            Some(x) => r matches Some(y) && iview(y) == x,
            None => r is None,
        },
{
    let ss = string_of(s.as_slice());
    match parse_naive_date(ss.as_str(), "%b %d %Y") {
        Some(t) => Some((t as i128, 0)),
        None => match year_of(now.0 as i64) {
            None => None,
            Some(y) => {
                let mut w = copy_chars(s);
                w.push(' ');
                let yc = chars_of(int_to_string(y as i64).as_str());
                push_all(&mut w, &yc);
                assert(w@ =~= s@ + seq![' '] + decimal(y as int));
                match parse_naive_date(string_of(w.as_slice()).as_str(), "%d %b %Y") {
                    Some(t) => Some((t as i128, 0)),
                    None => None,
                }
            },
        },
    }
}

/// Parses a relative or approximate date-time phrase against `now`
/// (seconds and nanoseconds since the epoch), giving the instant it
/// denotes in RFC 3339; `None` when it matches none of the shapes.
pub fn parse_fuzzy(input: &str, now_secs: i64, now_nanos: u32) -> (r: Option<String>)
    ensures
        match fuzzy_rfc3339(input@, (now_secs as int, now_nanos as int)) {
            Some(x) => r matches Some(y) && y@ == x,
            None => r is None,
        },
{
    let now: (i128, u32) = (now_secs as i128, now_nanos);
    let t = trimmed(&chars_of(input));
    if t.len() == 0 {
        return None;
    }
    let (body, offset) = split_offset_x(&t);
    let tb = trimmed(&body);
    let lower = chars_of(to_lower(string_of(tb.as_slice()).as_str()).as_str());
    if lower.len() == 0 {
        return None;
    }
    let found = match time_ago_x(&lower, now) {
        Some(x) => Some(x),
        None => {
            let anchor = match offset {
                Some(o) => shift_by(now, o),
                None => Some(now),
            };
            match anchor {
                None => None,
                Some(a) => {
                    let parsed = match named_day_x(&lower, a) {
                        Some(x) => Some(x),
                        None => match bare_time_x(&lower, a) {
                            Some(x) => Some(x),
                            None => month_date_x(&lower, a),
                        },
                    };
                    match parsed {
                        None => None,
                        Some(p) => match offset {
                            Some(o) => {
                                if p.0 < -0x8000_0000_0000_0000i128 || p.0 > 0x7fff_ffff_ffff_ffffi128 {
                                    None
                                } else {
                                    shift_by(p, -o)
                                }
                            },
                            None => Some(p),
                        },
                    }
                },
            }
        },
    };
    match found {
        None => None,
        Some(p) => {
            if p.0 < -0x8000_0000_0000_0000i128 || p.0 > 0x7fff_ffff_ffff_ffffi128 {
                None
            } else {
                rfc3339(p.0 as i64, p.1)
            }
        },
    }
}

proof fn lemma_pieces_through(x: Seq<char>, y: Seq<char>, brk: spec_fn(char) -> bool, cur: Seq<char>)
    requires
        forall|i: int| 0 <= i < x.len() ==> !brk(#[trigger] x[i]),
    ensures
        pieces_from(x + y, brk, cur) == pieces_from(y, brk, cur + x),
    decreases x.len(),
{
    if x.len() == 0 {
        assert(x + y =~= y);
        assert(cur + x =~= cur);
    } else {
        assert((x + y)[0] == x[0]);
        assert((x + y).drop_first() =~= x.drop_first() + y);
        assert forall|i: int| 0 <= i < x.drop_first().len() implies !brk(#[trigger] x.drop_first()[i]) by {
            assert(x.drop_first()[i] == x[i + 1]);
        }
        lemma_pieces_through(x.drop_first(), y, brk, cur.push(x[0]));
        assert(cur.push(x[0]) + x.drop_first() =~= cur + x);
    }
}

/// A word: non-empty, with no whitespace and no comma.
pub open spec fn plain_word(w: Seq<char>) -> bool {
    w.len() > 0 && forall|i: int| 0 <= i < w.len() ==> !spec_is_ws(#[trigger] w[i]) && w[i] != ','
}

proof fn lemma_digits_plain(d: Seq<char>)
    requires
        d.len() > 0,
        all_digits(d),
    ensures
        plain_word(d),
        d[0] != '+' && d[0] != '-',
{
    assert forall|i: int| 0 <= i < d.len() implies !spec_is_ws(#[trigger] d[i]) && d[i] != ',' by {
        assert(is_digit(d[i]));
    }
    assert(is_digit(d[0]));
}

/// The words of `d unit ago`, for a number `d` and a unit word.
proof fn lemma_ago_words(d: Seq<char>, w: Seq<char>)
    requires
        plain_word(d),
        plain_word(w),
        d != "and"@,
        w != "and"@,
    ensures
        ({
            let s = d + seq![' '] + w + " ago"@;
            let body = trim(s.take(s.len() - 3));
            &&& s.len() >= 3
            &&& s.skip(s.len() - 3) == "ago"@
            &&& body.len() > 0
            &&& without_and(
                nonempty(pieces_from(comma_to_space(body), break_pred(Breaks::Whitespace), Seq::empty())),
            ) == seq![d, w]
        }),
{
    reveal_strlit(" ago");
    reveal_strlit("ago");
    reveal_strlit("and");
    let s = d + seq![' '] + w + " ago"@;
    assert(s.skip(s.len() - 3) =~= "ago"@);
    let x = s.take(s.len() - 3);
    let core = d + seq![' '] + w;
    assert(x =~= core + seq![' ']);
    // no leading whitespace
    assert(x[0] == d[0]);
    assert(ws_prefix_len(x) == 0);
    assert(trim_start(x) =~= x);
    // one trailing space
    assert(x.last() == ' ');
    assert(x.drop_last() =~= core);
    assert(core.last() == w.last());
    assert(ws_suffix_len(core) == 0);
    assert(ws_suffix_len(x) == 1);
    assert(trim(x) =~= core);
    // no commas
    assert(comma_to_space(core) =~= core) by {
        assert forall|i: int| 0 <= i < core.len() implies core[i] != ',' by {
            if i < d.len() {
                assert(core[i] == d[i]);
            } else if i > d.len() {
                assert(core[i] == w[i - d.len() - 1]);
            }
        }
    }
    let brk = break_pred(Breaks::Whitespace);
    assert forall|i: int| 0 <= i < d.len() implies !brk(#[trigger] d[i]) by {}
    assert forall|i: int| 0 <= i < w.len() implies !brk(#[trigger] w[i]) by {}
    assert(core =~= d + (seq![' '] + w));
    lemma_pieces_through(d, seq![' '] + w, brk, Seq::empty());
    assert(Seq::<char>::empty() + d =~= d);
    let sw = seq![' '] + w;
    assert(sw[0] == ' ');
    assert(brk(' '));
    assert(sw.drop_first() =~= w);
    assert(pieces_from(sw, brk, d) == seq![d] + pieces_from(w, brk, Seq::empty()));
    lemma_pieces_through(w, Seq::empty(), brk, Seq::empty());
    assert(w + Seq::<char>::empty() =~= w);
    assert(Seq::<char>::empty() + w =~= w);
    assert(pieces_from(Seq::<char>::empty(), brk, w) == seq![w]);
    let ps = seq![d] + seq![w];
    assert(ps =~= seq![d, w]);
    assert(pieces_from(comma_to_space(trim(x)), brk, Seq::empty()) == seq![d, w]);
    let two = seq![d, w];
    assert(two.drop_last() =~= seq![d]);
    assert(seq![d].drop_last() =~= Seq::<Seq<char>>::empty());
    assert(nonempty(seq![d]) == nonempty(Seq::<Seq<char>>::empty()).push(d));
    assert(nonempty(Seq::<Seq<char>>::empty()).push(d) =~= seq![d]);
    assert(nonempty(two) =~= seq![d, w]);
    assert(without_and(seq![d]) == without_and(Seq::<Seq<char>>::empty()).push(d));
    assert(without_and(Seq::<Seq<char>>::empty()).push(d) =~= seq![d]);
    assert(without_and(two) =~= seq![d, w]);
}

/// `d unit ago`, for a decimal number `d` (value `n`) and a unit word that
/// is not a month or a year, is `n` units of `u` seconds before `now`.
proof fn lemma_units_ago(d: Seq<char>, w: Seq<char>, u: int, now: Instant)
    requires
        d.len() > 0,
        all_digits(d),
        plain_word(w),
        w != "and"@,
        unit_seconds(w) == Some(u),
        u != 2592000 && u != 31536000,
        delta_ok(dec_value(d) * u),
        1 <= u <= 604800,
    ensures
        time_ago(d + seq![' '] + w + " ago"@, now) == shift(now, -(dec_value(d) * u)),
{
    reveal_strlit("and");
    lemma_digits_plain(d);
    assert(d != "and"@) by {
        assert(is_digit(d[0]));
        assert("and"@[0] == 'a');
    }
    lemma_ago_words(d, w);
    let n = dec_value(d);
    assert(0 <= n * u <= 9223372036854775) by (nonlinear_arith)
        requires
            n >= 0,
            u >= 1,
            n * u <= 9223372036854775,
    ;
    assert(n <= 9223372036854775) by (nonlinear_arith)
        requires
            n >= 0,
            u >= 1,
            n * u <= 9223372036854775,
    ;
    assert(parse_i64(d) == Some(n as int));
    let toks = seq![d, w];
    assert(toks.drop_last().drop_last() =~= Seq::<Seq<char>>::empty());
    assert(chain_total(Seq::<Seq<char>>::empty()) == Some(0int));
    assert(toks[toks.len() - 2] == d);
    assert(unit_duration(w, n as int) == Some(n * u));
    assert(chain_total(toks) == Some(n * u));
}

/// `n weeks ago` is `n` times seven days before `now`, the same instant as
/// `7n days ago`; `n days ago` is `n` times 86 400 seconds before it.
pub proof fn law_weeks_are_seven_days(d: Seq<char>, d7: Seq<char>, now: Instant)
    requires
        d.len() > 0,
        all_digits(d),
        d7.len() > 0,
        all_digits(d7),
        dec_value(d7) == 7 * dec_value(d),
        delta_ok(dec_value(d) as int * 604800),
    ensures
        time_ago(d + " weeks ago"@, now) == shift(now, -(dec_value(d) * 7 * 86400)),
        time_ago(d7 + " days ago"@, now) == shift(now, -(dec_value(d7) * 86400)),
        time_ago(d + " weeks ago"@, now) == time_ago(d7 + " days ago"@, now),
{
    reveal_strlit("weeks");
    reveal_strlit("days");
    reveal_strlit(" weeks ago");
    reveal_strlit(" days ago");
    reveal_strlit(" ago");
    reveal_strlit("and");
    let weeks = "weeks"@;
    let days = "days"@;
    assert(plain_word(weeks)) by {
        assert forall|i: int| 0 <= i < weeks.len() implies !spec_is_ws(#[trigger] weeks[i]) && weeks[i] != ',' by {}
    }
    assert(plain_word(days)) by {
        assert forall|i: int| 0 <= i < days.len() implies !spec_is_ws(#[trigger] days[i]) && days[i] != ',' by {}
    }
    assert(weeks != "and"@ && days != "and"@) by {
        assert(weeks.len() != "and"@.len());
        assert(days[0] != "and"@[0]);
    }
    reveal_strlit("sec");
    reveal_strlit("secs");
    reveal_strlit("second");
    reveal_strlit("seconds");
    reveal_strlit("min");
    reveal_strlit("mins");
    reveal_strlit("minute");
    reveal_strlit("minutes");
    reveal_strlit("hour");
    reveal_strlit("hours");
    reveal_strlit("hr");
    reveal_strlit("hrs");
    reveal_strlit("day");
    reveal_strlit("days");
    reveal_strlit("week");
    reveal_strlit("weeks");
    reveal_strlit("month");
    reveal_strlit("months");
    reveal_strlit("year");
    reveal_strlit("years");
    assert(unit_seconds(weeks) == Some(604800int)) by {
        assert(weeks != "sec"@ && weeks != "secs"@ && weeks != "second"@ && weeks != "seconds"@) by {
            assert(weeks[0] != "sec"@[0]);
            assert(weeks[0] != "secs"@[0]);
            assert(weeks[0] != "second"@[0]);
            assert(weeks[0] != "seconds"@[0]);
        }
        assert(weeks != "min"@ && weeks != "mins"@ && weeks != "minute"@ && weeks != "minutes"@) by {
            assert(weeks[0] != "min"@[0]);
            assert(weeks[0] != "mins"@[0]);
            assert(weeks[0] != "minute"@[0]);
            assert(weeks[0] != "minutes"@[0]);
        }
        assert(weeks != "hour"@ && weeks != "hours"@ && weeks != "hr"@ && weeks != "hrs"@) by {
            assert(weeks[0] != "hour"@[0]);
            assert(weeks[0] != "hours"@[0]);
            assert(weeks[0] != "hr"@[0]);
            assert(weeks[0] != "hrs"@[0]);
        }
        assert(weeks != "day"@ && weeks != "days"@) by {
            assert(weeks[0] != "day"@[0]);
            assert(weeks[0] != "days"@[0]);
        }
        assert(weeks == "weeks"@);
    }
    assert(unit_seconds(days) == Some(86400int)) by {
        assert(days != "sec"@ && days != "secs"@ && days != "second"@ && days != "seconds"@) by {
            assert(days[0] != "sec"@[0]);
            assert(days[0] != "secs"@[0]);
            assert(days[0] != "second"@[0]);
            assert(days[0] != "seconds"@[0]);
        }
        assert(days != "min"@ && days != "mins"@ && days != "minute"@ && days != "minutes"@) by {
            assert(days[0] != "min"@[0]);
            assert(days[0] != "mins"@[0]);
            assert(days[0] != "minute"@[0]);
            assert(days[0] != "minutes"@[0]);
        }
        assert(days != "hour"@ && days != "hours"@ && days != "hr"@ && days != "hrs"@) by {
            assert(days[0] != "hour"@[0]);
            assert(days[0] != "hours"@[0]);
            assert(days[0] != "hr"@[0]);
            assert(days[0] != "hrs"@[0]);
        }
        assert(days != "day"@) by {
            assert(days.len() != "day"@.len());
        }
    }
    assert(d + " weeks ago"@ =~= d + seq![' '] + weeks + " ago"@);
    assert(d7 + " days ago"@ =~= d7 + seq![' '] + days + " ago"@);
    assert(dec_value(d7) * 86400 == dec_value(d) * 604800) by (nonlinear_arith)
        requires
            dec_value(d7) == 7 * dec_value(d),
    ;
    assert(dec_value(d) * 7 * 86400 == dec_value(d) * 604800) by (nonlinear_arith);
    lemma_units_ago(d, weeks, 604800, now);
    lemma_units_ago(d7, days, 86400, now);
}

proof fn lemma_plain_literal_word(w: Seq<char>)
    requires
        w.len() > 0,
        forall|i: int| 0 <= i < w.len() ==> 'a' <= #[trigger] w[i] <= 'z',
    ensures
        plain_word(w),
{
    assert forall|i: int| 0 <= i < w.len() implies !spec_is_ws(#[trigger] w[i]) && w[i] != ',' by {
        assert('a' <= w[i] <= 'z');
    }
}

/// `n seconds ago`, `n minutes ago` and `n hours ago` are `n`, `60n` and
/// `3600n` seconds before `now`.
pub proof fn law_seconds_minutes_hours_ago(d: Seq<char>, now: Instant)
    requires
        d.len() > 0,
        all_digits(d),
        delta_ok(dec_value(d) as int * 3600),
    ensures
        time_ago(d + " seconds ago"@, now) == shift(now, -(dec_value(d) as int)),
        time_ago(d + " minutes ago"@, now) == shift(now, -(dec_value(d) * 60)),
        time_ago(d + " hours ago"@, now) == shift(now, -(dec_value(d) * 3600)),
{
    reveal_strlit("sec");
    reveal_strlit("secs");
    reveal_strlit("second");
    reveal_strlit("seconds");
    reveal_strlit("min");
    reveal_strlit("mins");
    reveal_strlit("minute");
    reveal_strlit("minutes");
    reveal_strlit("hour");
    reveal_strlit("hours");
    reveal_strlit("hr");
    reveal_strlit("hrs");
    reveal_strlit("day");
    reveal_strlit("days");
    reveal_strlit(" seconds ago");
    reveal_strlit(" minutes ago");
    reveal_strlit(" hours ago");
    reveal_strlit(" ago");
    reveal_strlit("and");
    let n = dec_value(d);
    assert(n * 60 <= n * 3600 && n <= n * 3600) by (nonlinear_arith)
        requires
            n >= 0,
    ;
    let secs = "seconds"@;
    let mins = "minutes"@;
    let hours = "hours"@;
    lemma_plain_literal_word(secs);
    lemma_plain_literal_word(mins);
    lemma_plain_literal_word(hours);
    assert(secs != "and"@ && mins != "and"@ && hours != "and"@) by {
        assert(secs[0] != "and"@[0] && mins[0] != "and"@[0] && hours[0] != "and"@[0]);
    }
    assert(unit_seconds(secs) == Some(1int));
    assert(unit_seconds(mins) == Some(60int)) by {
        assert(mins != "sec"@ && mins != "secs"@ && mins != "second"@ && mins != "seconds"@) by {
            assert(mins[0] != "sec"@[0] && mins[0] != "secs"@[0] && mins[0] != "second"@[0] && mins[0]
                != "seconds"@[0]);
        }
    }
    assert(unit_seconds(hours) == Some(3600int)) by {
        assert(hours != "sec"@ && hours != "secs"@ && hours != "second"@ && hours != "seconds"@) by {
            assert(hours[0] != "sec"@[0] && hours[0] != "secs"@[0] && hours[0] != "second"@[0] && hours[0]
                != "seconds"@[0]);
        }
        assert(hours != "min"@ && hours != "mins"@ && hours != "minute"@ && hours != "minutes"@) by {
            assert(hours[0] != "min"@[0] && hours[0] != "mins"@[0] && hours[0] != "minute"@[0] && hours[0]
                != "minutes"@[0]);
        }
        assert(hours != "hour"@) by {
            assert(hours.len() != "hour"@.len());
        }
    }
    assert(d + " seconds ago"@ =~= d + seq![' '] + secs + " ago"@);
    assert(d + " minutes ago"@ =~= d + seq![' '] + mins + " ago"@);
    assert(d + " hours ago"@ =~= d + seq![' '] + hours + " ago"@);
    lemma_units_ago(d, secs, 1, now);
    lemma_units_ago(d, mins, 60, now);
    lemma_units_ago(d, hours, 3600, now);
}

} // verus!
