//! The string side of Cardigann selectors: rewriting jQuery-flavoured
//! selector text into standard CSS, lifting `:contains()` out of it, and
//! recognising JSON field paths.
//!
//! Positions here are character indices into the selector text.
use vstd::prelude::*;

use crate::error::CardigannError;
use crate::text::{chars_of, copy_chars, copy_range, find, find_from, has_at, lemma_find_bound, matches_at, push_all, push_range, push_str, spec_is_ws, starts_with, string_of, is_ws, trim, trimmed};

verus! {

// ---------------------------------------------------------------------------
// Quote-aware search
// ---------------------------------------------------------------------------
/// The first position at or after `i` where `needle` starts outside any
/// quoted string, given the quote open at `i`. A backslash escapes the next
/// character, inside or outside quotes.
pub open spec fn fu(s: Seq<char>, needle: Seq<char>, i: int, quote: Option<char>) -> Option<int>
    decreases s.len() + 1 - i,
{
    if i < 0 || i >= s.len() {
        None
    } else if s[i] == '\\' {
        fu(s, needle, i + 2, quote)
    } else if quote is Some {
        if s[i] == quote->0 {
            fu(s, needle, i + 1, None)
        } else {
            fu(s, needle, i + 1, quote)
        }
    } else if s[i] == '"' || s[i] == '\'' {
        fu(s, needle, i + 1, Some(s[i]))
    } else if has_at(s, i, needle) {
        Some(i)
    } else {
        fu(s, needle, i + 1, None)
    }
}

/// The first unquoted occurrence of `needle` in `s`.
pub open spec fn spec_find_unquoted(s: Seq<char>, needle: Seq<char>) -> Option<int> {
    fu(s, needle, 0, None)
}

pub proof fn lemma_fu_bound(s: Seq<char>, needle: Seq<char>, i: int, quote: Option<char>)
    ensures
        fu(s, needle, i, quote) matches Some(k) ==> 0 <= i <= k < s.len() && has_at(s, k, needle),
    decreases s.len() + 1 - i,
{
    if !(i < 0 || i >= s.len()) {
        if s[i] == '\\' {
            lemma_fu_bound(s, needle, i + 2, quote);
        } else if quote is Some {
            lemma_fu_bound(s, needle, i + 1, None);
            lemma_fu_bound(s, needle, i + 1, quote);
        } else if s[i] == '"' || s[i] == '\'' {
            lemma_fu_bound(s, needle, i + 1, Some(s[i]));
        } else if !has_at(s, i, needle) {
            lemma_fu_bound(s, needle, i + 1, None);
        }
    }
}

/// Position of the first occurrence of `needle` in `s` that is not inside
/// a quoted string (single or double quotes, backslash escapes).
pub fn find_unquoted(s: &Vec<char>, needle: &Vec<char>) -> (r: Option<usize>)
    ensures
        match spec_find_unquoted(s@, needle@) {
            Some(k) => r matches Some(j) && j == k,
            None => r is None,
        },
        r matches Some(k) ==> k < s.len() && has_at(s@, k as int, needle@),
{
    proof {
        lemma_fu_bound(s@, needle@, 0, None);
    }
    let mut quote: Option<char> = None;
    let mut i: usize = 0;
    while i < s.len()
        invariant
            0 <= i <= s.len(),
            spec_find_unquoted(s@, needle@) == fu(s@, needle@, i as int, quote),
        decreases s.len() - i,
    {
        let c = s[i];
        if c == '\\' {
            if i + 1 < s.len() {
                i = i + 2;
            } else {
                assert(fu(s@, needle@, i + 2, quote) is None);
                i = s.len();
            }
        } else {
            match quote {
                Some(q) => {
                    if c == q {
                        quote = None;
                    }
                    i = i + 1;
                },
                None => {
                    if c == '"' || c == '\'' {
                        quote = Some(c);
                        i = i + 1;
                    } else if matches_at(s, i, needle) {
                        return Some(i);
                    } else {
                        i = i + 1;
                    }
                },
            }
        }
    }
    None
}

// ---------------------------------------------------------------------------
// `!=` and attribute values
// ---------------------------------------------------------------------------
/// `[attr!=value]` rewritten to `:not([attr=value])`, every other `[...]`
/// kept, scanning the `[...]` bodies one at a time.
pub open spec fn spec_rewrite_not_equal(rest: Seq<char>) -> Seq<char>
    decreases rest.len(),
{
    match spec_find_unquoted(rest, seq!['[']) {
        None => rest,
        Some(open) => if !(0 <= open < rest.len()) {
            rest
        } else {
            let after = rest.skip(open + 1);
            match spec_find_unquoted(after, seq![']']) {
                None => rest.take(open) + seq!['['] + after,
                Some(close) => if !(0 <= close < after.len()) {
                    rest
                } else {
                    rest.take(open) + bracket_body(after.take(close)) + spec_rewrite_not_equal(
                        after.skip(close + 1),
                    )
                },
            }
        },
    }
}

/// One `[...]` body, rewritten: `attr!=value` becomes `:not([attr=value])`.
pub open spec fn bracket_body(body: Seq<char>) -> Seq<char> {
    match spec_find_unquoted(body, seq!['!', '=']) {
        Some(b) => ":not(["@ + body.take(b) + seq!['='] + body.skip(b + 2) + "])"@,
        None => seq!['['] + body + seq![']'],
    }
}

fn push_bracket_body(out: &mut Vec<char>, body: &Vec<char>)
    ensures
        final(out)@ == old(out)@ + bracket_body(body@),
{
    let mut ne: Vec<char> = Vec::new();
    ne.push('!');
    ne.push('=');
    assert(ne@ =~= seq!['!', '=']);
    let ghost o0 = out@;
    match find_unquoted(body, &ne) {
        Some(bang) => {
            push_str(out, ":not([");
            push_range(out, body, 0, bang);
            out.push('=');
            push_range(out, body, bang + 2, body.len());
            push_str(out, "])");
            assert(body@.subrange(0, bang as int) == body@.take(bang as int));
            assert(body@.subrange(bang + 2, body@.len() as int) == body@.skip(bang + 2));
            assert(out@ =~= o0 + (":not(["@ + body@.take(bang as int) + seq!['='] + body@.skip(
                bang + 2,
            ) + "])"@));
        },
        None => {
            out.push('[');
            push_all(out, body);
            out.push(']');
            assert(out@ =~= o0 + (seq!['['] + body@ + seq![']']));
        },
    }
}

fn one(c: char) -> (r: Vec<char>)
    ensures
        r@ == seq![c],
{
    let mut v: Vec<char> = Vec::new();
    v.push(c);
    assert(v@ =~= seq![c]);
    v
}

fn rewrite_not_equal_chars(s: &Vec<char>) -> (r: Vec<char>)
    ensures
        r@ == spec_rewrite_not_equal(s@),
{
    let lb = one('[');
    let rb = one(']');
    let mut out: Vec<char> = Vec::new();
    let mut rest = copy_chars(s);
    assert(Seq::<char>::empty() + spec_rewrite_not_equal(s@) =~= spec_rewrite_not_equal(s@));
    loop
        invariant
            lb@ == seq!['['],
            rb@ == seq![']'],
            spec_rewrite_not_equal(s@) == out@ + spec_rewrite_not_equal(rest@),
        decreases rest@.len(),
    {
        let ghost r0 = rest@;
        let ghost o0 = out@;
        match find_unquoted(&rest, &lb) {
            None => {
                push_all(&mut out, &rest);
                return out;
            },
            Some(open) => {
                push_range(&mut out, &rest, 0, open);
                let after = copy_range(&rest, open + 1, rest.len());
                assert(after@ == r0.skip(open + 1));
                assert(rest@.subrange(0, open as int) == r0.take(open as int));
                match find_unquoted(&after, &rb) {
                    None => {
                        out.push('[');
                        push_all(&mut out, &after);
                        assert(out@ =~= o0 + (r0.take(open as int) + seq!['['] + after@));
                        return out;
                    },
                    Some(close) => {
                        let body = copy_range(&after, 0, close);
                        assert(body@ == after@.take(close as int));
                        push_bracket_body(&mut out, &body);
                        rest = copy_range(&after, close + 1, after.len());
                        assert(rest@ == after@.skip(close + 1));
                        assert(o0 + spec_rewrite_not_equal(r0) =~= out@ + spec_rewrite_not_equal(rest@));
                    },
                }
            },
        }
    }
}

/// Rewrites the jQuery-only `!=` attribute operator into standard CSS:
/// `[attr!=value]` becomes `:not([attr=value])`. A `!=` or bracket inside a
/// quoted string is never taken for selector syntax.
pub fn rewrite_not_equal(s: &str) -> (r: String)
    ensures
        r@ == spec_rewrite_not_equal(s@),
{
    let c = chars_of(s);
    let r = rewrite_not_equal_chars(&c);
    string_of(r.as_slice())
}


/// `s` with every `\q` replaced by `q`, left to right (`str::replace`).
pub open spec fn replace_esc(s: Seq<char>, q: char) -> Seq<char>
    decreases s.len(),
{
    if s.len() < 2 {
        s
    } else if s[0] == '\\' && s[1] == q {
        seq![q] + replace_esc(s.skip(2), q)
    } else {
        seq![s[0]] + replace_esc(s.drop_first(), q)
    }
}

pub open spec fn is_ascii_digit(c: char) -> bool {
    '0' <= c && c <= '9'
}

/// One attribute-selector body with two corpus malformations fixed: a value
/// that starts with an escaped quote has every escaped quote flattened, and
/// a bare value starting with a digit is quoted.
pub open spec fn spec_normalize_attribute_value(inner: Seq<char>) -> Seq<char> {
    match find(inner, seq!['=']) {
        None => inner,
        Some(op) => {
            let value = inner.skip(op + 1);
            if starts_with(value, seq!['\\', '"']) || starts_with(value, seq!['\\', '\'']) {
                replace_esc(replace_esc(inner, '"'), '\'')
            } else if value.len() > 0 && is_ascii_digit(value[0]) {
                inner.take(op + 1) + seq!['"'] + value + seq!['"']
            } else {
                inner
            }
        },
    }
}

fn replace_esc_chars(s: &Vec<char>, q: char) -> (r: Vec<char>)
    ensures
        r@ == replace_esc(s@, q),
{
    let mut out: Vec<char> = Vec::new();
    let mut i: usize = 0;
    assert(s@.skip(0) =~= s@);
    assert(Seq::<char>::empty() + replace_esc(s@, q) =~= replace_esc(s@, q));
    while i < s.len()
        invariant
            0 <= i <= s.len(),
            replace_esc(s@, q) == out@ + replace_esc(s@.skip(i as int), q),
        decreases s.len() - i,
    {
        let ghost rest = s@.skip(i as int);
        if i + 1 < s.len() && s[i] == '\\' && s[i + 1] == q {
            out.push(q);
            assert(rest.skip(2) =~= s@.skip(i + 2));
            i = i + 2;
        } else {
            out.push(s[i]);
            assert(rest.drop_first() =~= s@.skip(i + 1));
            proof {
                if rest.len() < 2 {
                    assert(rest =~= seq![s@[i as int]]);
                    assert(s@.skip(i + 1) =~= Seq::<char>::empty());
                }
            }
            i = i + 1;
        }
        assert(replace_esc(s@, q) =~= out@ + replace_esc(s@.skip(i as int), q));
    }
    assert(s@.skip(s@.len() as int) =~= Seq::<char>::empty());
    assert(out@ + Seq::<char>::empty() =~= out@);
    out
}

fn normalize_attribute_value_chars(inner: &Vec<char>) -> (r: Vec<char>)
    ensures
        r@ == spec_normalize_attribute_value(inner@),
{
    let eq = one('=');
    assert(inner@.skip(0) =~= inner@);
    proof {
        lemma_find_bound(inner@, seq!['=']);
    }
    match find_from(inner, 0, &eq) {
        None => copy_chars(inner),
        Some(op) => {
            assert(find(inner@, seq!['=']) == Some(op as int));
            assert(op < inner.len());
            let value = copy_range(inner, op + 1, inner.len());
            assert(value@ == inner@.skip(op + 1));
            let flat = value.len() >= 2 && value[0] == '\\' && (value[1] == '"' || value[1] == '\'');
            proof {
                if value@.len() >= 2 {
                    assert(value@.subrange(0, 2) =~= seq![value@[0], value@[1]]);
                }
            }
            assert(flat == (starts_with(value@, seq!['\\', '"']) || starts_with(value@, seq!['\\', '\''])));
            if flat {
                let a = replace_esc_chars(inner, '"');
                replace_esc_chars(&a, '\'')
            } else if value.len() > 0 && '0' <= value[0] && value[0] <= '9' {
                let mut out = copy_range(inner, 0, op + 1);
                out.push('"');
                push_all(&mut out, &value);
                out.push('"');
                assert(out@ =~= inner@.take(op + 1) + seq!['"'] + value@ + seq!['"']);
                out
            } else {
                copy_chars(inner)
            }
        },
    }
}

/// Normalizes a single `attr=value`-style attribute-selector body: a value
/// starting with `\"` or `\'` has every escaped quote flattened to a plain
/// one, and an unquoted value starting with a digit is quoted.
pub fn normalize_attribute_value(inner: &str) -> (r: String)
    ensures
        r@ == spec_normalize_attribute_value(inner@),
{
    let c = chars_of(inner);
    let r = normalize_attribute_value_chars(&c);
    string_of(r.as_slice())
}

/// Every `[...]` body of `rest` normalized, scoped as
/// [`spec_rewrite_not_equal`] scopes them.
pub open spec fn spec_normalize_attribute_selectors(rest: Seq<char>) -> Seq<char>
    decreases rest.len(),
{
    match spec_find_unquoted(rest, seq!['[']) {
        None => rest,
        Some(open) => if !(0 <= open < rest.len()) {
            rest
        } else {
            let r2 = rest.skip(open + 1);
            match spec_find_unquoted(r2, seq![']']) {
                None => rest,
                Some(close) => if !(0 <= close < r2.len()) {
                    rest
                } else {
                    rest.take(open + 1) + spec_normalize_attribute_value(r2.take(close)) + seq![']']
                        + spec_normalize_attribute_selectors(r2.skip(close + 1))
                },
            }
        },
    }
}

fn normalize_attribute_selectors_chars(s: &Vec<char>) -> (r: Vec<char>)
    ensures
        r@ == spec_normalize_attribute_selectors(s@),
{
    let lb = one('[');
    let rb = one(']');
    let mut out: Vec<char> = Vec::new();
    let mut rest = copy_chars(s);
    assert(Seq::<char>::empty() + spec_normalize_attribute_selectors(s@) =~= spec_normalize_attribute_selectors(s@));
    loop
        invariant
            lb@ == seq!['['],
            rb@ == seq![']'],
            spec_normalize_attribute_selectors(s@) == out@ + spec_normalize_attribute_selectors(rest@),
        decreases rest@.len(),
    {
        let ghost r0 = rest@;
        let ghost o0 = out@;
        match find_unquoted(&rest, &lb) {
            None => {
                push_all(&mut out, &rest);
                return out;
            },
            Some(open) => {
                let r2 = copy_range(&rest, open + 1, rest.len());
                assert(r2@ == r0.skip(open + 1));
                match find_unquoted(&r2, &rb) {
                    None => {
                        push_all(&mut out, &rest);
                        return out;
                    },
                    Some(close) => {
                        push_range(&mut out, &rest, 0, open + 1);
                        let body = copy_range(&r2, 0, close);
                        let nb = normalize_attribute_value_chars(&body);
                        push_all(&mut out, &nb);
                        out.push(']');
                        assert(rest@.subrange(0, open + 1) == r0.take(open + 1));
                        assert(body@ == r2@.take(close as int));
                        rest = copy_range(&r2, close + 1, r2.len());
                        assert(rest@ == r2@.skip(close + 1));
                        assert(o0 + spec_normalize_attribute_selectors(r0) =~= out@
                            + spec_normalize_attribute_selectors(rest@));
                    },
                }
            },
        }
    }
}

/// Normalizes every `[...]` attribute-selector body of `s`
/// (see [`normalize_attribute_value`]).
pub fn normalize_attribute_selectors(s: &str) -> (r: String)
    ensures
        r@ == spec_normalize_attribute_selectors(s@),
{
    let c = chars_of(s);
    let r = normalize_attribute_selectors_chars(&c);
    string_of(r.as_slice())
}


// ---------------------------------------------------------------------------
// CSS escapes
// ---------------------------------------------------------------------------
pub open spec fn is_hex(c: char) -> bool {
    ('0' <= c && c <= '9') || ('a' <= c && c <= 'f') || ('A' <= c && c <= 'F')
}

pub open spec fn hex_digit_value(c: char) -> nat {
    if '0' <= c && c <= '9' {
        (c as nat - '0' as nat) as nat
    } else if 'a' <= c && c <= 'f' {
        (c as nat - 'a' as nat + 10) as nat
    } else {
        (c as nat - 'A' as nat + 10) as nat
    }
}

/// The number a run of hex digits denotes.
pub open spec fn hex_value(h: Seq<char>) -> nat
    decreases h.len(),
{
    if h.len() == 0 {
        0
    } else {
        hex_value(h.drop_last()) * 16 + hex_digit_value(h.last())
    }
}

pub open spec fn hex_at(s: Seq<char>, p: int) -> bool {
    0 <= p < s.len() && is_hex(s[p])
}

/// How many hex digits (at most 6) start at `i + n`, plus `n`.
pub open spec fn hex_run(s: Seq<char>, i: int, n: int) -> int
    decreases 6 - n,
{
    if 0 <= n < 6 && hex_at(s, i + n) {
        hex_run(s, i, n + 1)
    } else {
        n
    }
}

/// The character with code point `v`, when `v` is a Unicode scalar value.
pub open spec fn scalar(v: nat) -> Option<char> {
    if v <= 0x10FFFF && !(0xD800 <= v && v <= 0xDFFF) {
        Some(v as char)
    } else {
        None
    }
}

/// `char::from_u32`: the character with code point `v`, or `None` when `v`
/// is a surrogate or above `0x10FFFF`.
#[verifier::external_body]
pub(crate) fn char_from_u32(v: u32) -> (r: Option<char>)
    ensures
        r == scalar(v as nat),
{
    char::from_u32(v)
}

/// CSS escapes decoded: `\` and 1 to 6 hex digits (and one optional
/// following whitespace character) is that code point (the digits
/// themselves when it is no scalar value); `\` and any other character is
/// that character; a trailing `\` is dropped.
pub open spec fn spec_css_unescape(s: Seq<char>) -> Seq<char>
    decreases s.len(),
{
    if s.len() == 0 {
        Seq::empty()
    } else if s[0] != '\\' {
        seq![s[0]] + spec_css_unescape(s.drop_first())
    } else {
        let h = hex_run(s, 1, 0);
        if h <= 0 || h > 6 {
            if s.len() >= 2 {
                seq![s[1]] + spec_css_unescape(s.skip(2))
            } else {
                Seq::empty()
            }
        } else if 1 + h > s.len() {
            Seq::empty()
        } else {
            let after = 1 + h;
            let next = if after < s.len() && spec_is_ws(s[after]) {
                after + 1
            } else {
                after
            };
            let hex = s.subrange(1, after);
            (match scalar(hex_value(hex)) {
                Some(ch) => seq![ch],
                None => hex,
            }) + spec_css_unescape(s.skip(next))
        }
    }
}

proof fn lemma_hex_run(s: Seq<char>, i: int, n: int)
    requires
        0 <= n <= 6,
        forall|p: int| i <= p < i + n ==> #[trigger] hex_at(s, p),
    ensures
        n <= hex_run(s, i, n) <= 6,
        forall|p: int| i <= p < i + hex_run(s, i, n) ==> #[trigger] hex_at(s, p),
        hex_run(s, i, n) < 6 ==> !hex_at(s, i + hex_run(s, i, n)),
    decreases 6 - n,
{
    if 0 <= n < 6 && hex_at(s, i + n) {
        lemma_hex_run(s, i, n + 1);
    }
}

fn css_unescape_chars(s: &Vec<char>) -> (r: Vec<char>)
    ensures
        r@ == spec_css_unescape(s@),
{
    let mut out: Vec<char> = Vec::new();
    let mut i: usize = 0;
    assert(s@.skip(0) =~= s@);
    assert(Seq::<char>::empty() + spec_css_unescape(s@) =~= spec_css_unescape(s@));
    while i < s.len()
        invariant
            0 <= i <= s.len(),
            spec_css_unescape(s@) == out@ + spec_css_unescape(s@.skip(i as int)),
        decreases s.len() - i,
    {
        let ghost rest = s@.skip(i as int);
        let ghost o0 = out@;
        let c = s[i];
        if c != '\\' {
            out.push(c);
            assert(rest.drop_first() =~= s@.skip(i + 1));
            i = i + 1;
        } else {
            let start = i + 1;
            let mut j = start;
            let mut v: u32 = 0;
            while j - start < 6 && j < s.len() && is_hex_char(s[j])
                invariant
                    i < start <= j <= s.len(),
                    start == i + 1,
                    j - start <= 6,
                    forall|p: int| start <= p < j ==> #[trigger] hex_at(s@, p),
                    v as nat == hex_value(s@.subrange(start as int, j as int)),
                    j - start <= 5 ==> v < 0x100000,
                    j - start <= 4 ==> v < 0x10000,
                    j - start <= 3 ==> v < 0x1000,
                    j - start <= 2 ==> v < 0x100,
                    j - start <= 1 ==> v < 0x10,
                    j == start ==> v == 0,
                    v < 0x1000000,
                decreases s.len() - j,
            {
                let d = hex_digit(s[j]);
                assert(s@.subrange(start as int, j + 1).drop_last() =~= s@.subrange(start as int, j as int));
                assert(hex_at(s@, j as int));
                v = v * 16 + d;
                j = j + 1;
            }
            let n = j - start;
            proof {
                assert forall|p: int| 1 <= p < 1 + n implies #[trigger] hex_at(rest, p) by {
                    assert(hex_at(s@, i + p));
                }
                lemma_hex_run(rest, 1, 0);
                let h = hex_run(rest, 1, 0);
                if h < n {
                    assert(hex_at(rest, 1 + h));
                }
                if n < h {
                    assert(hex_at(rest, 1 + n));
                    assert(rest[1 + n] == s@[j as int]);
                }
                assert(h == n);
                assert(s@.subrange(start as int, j as int) =~= rest.subrange(1, 1 + n));
            }
            if n == 0 {
                if i + 1 < s.len() {
                    out.push(s[i + 1]);
                    assert(rest.skip(2) =~= s@.skip(i + 2));
                    i = i + 2;
                } else {
                    assert(s@.skip(i + 1) =~= Seq::<char>::empty());
                    i = i + 1;
                }
            } else {
                let next = if j < s.len() && is_ws(s[j]) {
                    j + 1
                } else {
                    j
                };
                match char_from_u32(v) {
                    Some(ch) => {
                        out.push(ch);
                    },
                    None => {
                        push_range(&mut out, s, start, j);
                    },
                }
                assert(rest.skip(next - i) =~= s@.skip(next as int));
                i = next;
            }
        }
        assert(o0 + spec_css_unescape(rest) =~= out@ + spec_css_unescape(s@.skip(i as int)));
    }
    assert(s@.skip(s@.len() as int) =~= Seq::<char>::empty());
    assert(out@ + Seq::<char>::empty() =~= out@);
    out
}

fn is_hex_char(c: char) -> (r: bool)
    ensures
        r == is_hex(c),
{
    ('0' <= c && c <= '9') || ('a' <= c && c <= 'f') || ('A' <= c && c <= 'F')
}

fn hex_digit(c: char) -> (r: u32)
    requires
        is_hex(c),
    ensures
        r as nat == hex_digit_value(c),
        r < 16,
{
    if '0' <= c && c <= '9' {
        (c as u32) - ('0' as u32)
    } else if 'a' <= c && c <= 'f' {
        (c as u32) - ('a' as u32) + 10
    } else {
        (c as u32) - ('A' as u32) + 10
    }
}

/// Decodes CSS escape sequences: a backslash followed by 1-6 hex digits
/// (and one optional trailing whitespace character) becomes that code
/// point; a backslash followed by anything else becomes that character.
pub fn css_unescape(s: &str) -> (r: String)
    ensures
        r@ == spec_css_unescape(s@),
{
    let c = chars_of(s);
    let r = css_unescape_chars(&c);
    string_of(r.as_slice())
}

/// One layer of matching surrounding quotes stripped, then CSS escapes
/// decoded.
pub open spec fn spec_unquote(s: Seq<char>) -> Seq<char> {
    if s.len() >= 2 && (s[0] == '"' || s[0] == '\'') && s[0] == s[s.len() - 1] {
        spec_css_unescape(s.subrange(1, s.len() - 1))
    } else {
        spec_css_unescape(s)
    }
}

fn unquote_chars(s: &Vec<char>) -> (r: Vec<char>)
    ensures
        r@ == spec_unquote(s@),
{
    if s.len() >= 2 && (s[0] == '"' || s[0] == '\'') && s[0] == s[s.len() - 1] {
        let inner = copy_range(s, 1, s.len() - 1);
        css_unescape_chars(&inner)
    } else {
        css_unescape_chars(s)
    }
}

/// Strips one layer of matching surrounding quotes, if present, then
/// decodes CSS escape sequences in the remaining text.
pub fn unquote(s: &str) -> (r: String)
    ensures
        r@ == spec_unquote(s@),
{
    let c = chars_of(s);
    let r = unquote_chars(&c);
    string_of(r.as_slice())
}


// ---------------------------------------------------------------------------
// Parentheses and commas
// ---------------------------------------------------------------------------
/// Position of the `)` closing a `(` already consumed, scanning from `i`
/// at nesting `depth`; parentheses inside quoted strings do not count,
/// and inside a quoted string a backslash escapes the next character.
pub open spec fn fmp(s: Seq<char>, i: int, depth: nat, quote: Option<char>) -> Option<int>
    decreases s.len() + 1 - i,
{
    if i < 0 || i >= s.len() {
        None
    } else if quote is Some {
        if s[i] == '\\' {
            fmp(s, i + 2, depth, quote)
        } else if s[i] == quote->0 {
            fmp(s, i + 1, depth, None)
        } else {
            fmp(s, i + 1, depth, quote)
        }
    } else if s[i] == '"' || s[i] == '\'' {
        fmp(s, i + 1, depth, Some(s[i]))
    } else if s[i] == '(' {
        fmp(s, i + 1, depth + 1, None)
    } else if s[i] == ')' {
        if depth <= 1 {
            Some(i)
        } else {
            fmp(s, i + 1, (depth - 1) as nat, None)
        }
    } else {
        fmp(s, i + 1, depth, None)
    }
}

/// Position of the `)` matching an already-consumed `(` in `s`.
pub open spec fn spec_find_matching_paren(s: Seq<char>) -> Option<int> {
    fmp(s, 0, 1, None)
}

proof fn lemma_fmp_bound(s: Seq<char>, i: int, depth: nat, quote: Option<char>)
    ensures
        fmp(s, i, depth, quote) matches Some(k) ==> 0 <= i <= k < s.len() && s[k] == ')',
    decreases s.len() + 1 - i,
{
    if !(i < 0 || i >= s.len()) {
        if quote is Some {
            lemma_fmp_bound(s, i + 2, depth, quote);
            lemma_fmp_bound(s, i + 1, depth, None);
            lemma_fmp_bound(s, i + 1, depth, quote);
        } else if s[i] == '"' || s[i] == '\'' {
            lemma_fmp_bound(s, i + 1, depth, Some(s[i]));
        } else if s[i] == '(' {
            lemma_fmp_bound(s, i + 1, depth + 1, None);
        } else if s[i] == ')' {
            if depth > 1 {
                lemma_fmp_bound(s, i + 1, (depth - 1) as nat, None);
            }
        } else {
            lemma_fmp_bound(s, i + 1, depth, None);
        }
    }
}

/// Position of the `)` matching the already-consumed `(`, skipping
/// parentheses inside quoted strings.
pub fn find_matching_paren(s: &Vec<char>) -> (r: Option<usize>)
    ensures
        match spec_find_matching_paren(s@) {
            Some(k) => r matches Some(j) && j == k,
            None => r is None,
        },
        r matches Some(j) ==> j < s.len() && s@[j as int] == ')',
{
    proof {
        lemma_fmp_bound(s@, 0, 1, None);
    }
    let mut depth: u128 = 1;
    let mut quote: Option<char> = None;
    let mut i: usize = 0;
    while i < s.len()
        invariant
            0 <= i <= s.len(),
            1 <= depth <= i + 1,
            spec_find_matching_paren(s@) == fmp(s@, i as int, depth as nat, quote),
        decreases s.len() - i,
    {
        let c = s[i];
        match quote {
            Some(q) => {
                if c == '\\' {
                    if i + 1 < s.len() {
                        i = i + 2;
                    } else {
                        assert(fmp(s@, i + 2, depth as nat, quote) is None);
                        i = s.len();
                    }
                } else {
                    if c == q {
                        quote = None;
                    }
                    i = i + 1;
                }
            },
            None => {
                if c == '"' || c == '\'' {
                    quote = Some(c);
                } else if c == '(' {
                    assert(depth <= i + 1);
                    depth = depth + 1;
                } else if c == ')' {
                    if depth <= 1 {
                        return Some(i);
                    }
                    depth = depth - 1;
                }
                i = i + 1;
            },
        }
    }
    None
}

/// The pieces of `s[start..]` split at commas outside parentheses and
/// quoted strings (quote state `quote`, nesting `depth`, scanning at `i`).
pub open spec fn stlc(s: Seq<char>, i: int, depth: int, quote: Option<char>, start: int) -> Seq<Seq<char>>
    decreases s.len() + 1 - i,
{
    if i < 0 || i >= s.len() {
        seq![s.subrange(start, s.len() as int)]
    } else if quote is Some {
        if s[i] == '\\' {
            stlc(s, i + 2, depth, quote, start)
        } else if s[i] == quote->0 {
            stlc(s, i + 1, depth, None, start)
        } else {
            stlc(s, i + 1, depth, quote, start)
        }
    } else if s[i] == '"' || s[i] == '\'' {
        stlc(s, i + 1, depth, Some(s[i]), start)
    } else if s[i] == '(' {
        stlc(s, i + 1, depth + 1, None, start)
    } else if s[i] == ')' {
        stlc(s, i + 1, depth - 1, None, start)
    } else if s[i] == ',' && depth == 0 {
        seq![s.subrange(start, i)] + stlc(s, i + 1, depth, None, i + 1)
    } else {
        stlc(s, i + 1, depth, None, start)
    }
}

/// `s` split on commas that are not inside parentheses or quoted strings.
pub open spec fn spec_split_top_level_commas(s: Seq<char>) -> Seq<Seq<char>> {
    stlc(s, 0, 0, None, 0)
}

pub open spec fn chars_views(v: Seq<Vec<char>>) -> Seq<Seq<char>> {
    v.map_values(|x: Vec<char>| x@)
}

/// Splits `s` on commas that are not nested inside parentheses and not
/// inside a quoted string.
pub fn split_top_level_commas(s: &Vec<char>) -> (r: Vec<Vec<char>>)
    ensures
        chars_views(r@) == spec_split_top_level_commas(s@),
{
    let mut parts: Vec<Vec<char>> = Vec::new();
    let mut depth: i128 = 0;
    let mut quote: Option<char> = None;
    let mut start: usize = 0;
    let mut i: usize = 0;
    assert(chars_views(parts@) + spec_split_top_level_commas(s@) =~= spec_split_top_level_commas(s@));
    while i < s.len()
        invariant
            0 <= start <= i <= s.len(),
            -(i as int) <= depth <= i as int,
            spec_split_top_level_commas(s@) == chars_views(parts@) + stlc(s@, i as int, depth as int, quote, start as int),
        decreases s.len() - i,
    {
        let c = s[i];
        let ghost before = parts@;
        match quote {
            Some(q) => {
                if c == '\\' {
                    if i + 1 < s.len() {
                        i = i + 2;
                    } else {
                        assert(stlc(s@, i + 2, depth as int, quote, start as int) == stlc(s@, s@.len() as int, depth as int, quote, start as int));
                        i = s.len();
                    }
                } else {
                    if c == q {
                        quote = None;
                    }
                    i = i + 1;
                }
            },
            None => {
                if c == '"' || c == '\'' {
                    quote = Some(c);
                } else if c == '(' {
                    depth = depth + 1;
                } else if c == ')' {
                    assert(depth > -0x1_0000_0000_0000_0000int);
                    depth = depth - 1;
                } else if c == ',' && depth == 0 {
                    let part = copy_range(s, start, i);
                    parts.push(part);
                    assert(chars_views(parts@) =~= chars_views(before).push(s@.subrange(start as int, i as int)));
                    assert(chars_views(before) + (seq![s@.subrange(start as int, i as int)] + stlc(s@, i + 1, depth as int, None, i + 1)) =~= chars_views(parts@) + stlc(s@, i + 1, depth as int, None, i + 1));
                    start = i + 1;
                }
                i = i + 1;
            },
        }
    }
    let last = copy_range(s, start, s.len());
    let ghost before = parts@;
    parts.push(last);
    assert(chars_views(parts@) =~= chars_views(before) + seq![s@.subrange(start as int, s@.len() as int)]);
    parts
}


// ---------------------------------------------------------------------------
// JSON field paths
// ---------------------------------------------------------------------------
/// Whether `char::is_alphanumeric` holds of `c` (Unicode `Alphabetic` or
/// `Numeric`).
pub uninterp spec fn alphanumeric(c: char) -> bool;

pub open spec fn is_ascii_alnum(c: char) -> bool {
    ('0' <= c && c <= '9') || ('a' <= c && c <= 'z') || ('A' <= c && c <= 'Z')
}

/// `char::is_alphanumeric`. Its result is named [`alphanumeric`]; for
/// ASCII it is exactly the letters and digits.
#[verifier::external_body]
pub(crate) fn is_alphanumeric(c: char) -> (r: bool)
    ensures
        r == alphanumeric(c),
        (c as u32) < 128 ==> (r == is_ascii_alnum(c)),
{
    c.is_alphanumeric()
}

pub open spec fn ident_char(c: char) -> bool {
    alphanumeric(c) || c == '_'
}

/// A non-empty run of alphanumerics and `_`.
pub open spec fn spec_is_identifier(s: Seq<char>) -> bool {
    s.len() > 0 && forall|i: int| 0 <= i < s.len() ==> ident_char(#[trigger] s[i])
}

/// End of the run of identifier characters starting at `k`.
pub open spec fn ident_end(s: Seq<char>, k: int) -> int
    decreases s.len() - k,
{
    if 0 <= k < s.len() && ident_char(s[k]) {
        ident_end(s, k + 1)
    } else {
        k
    }
}

pub open spec fn all_digits(s: Seq<char>) -> bool {
    forall|i: int| 0 <= i < s.len() ==> is_ascii_digit(#[trigger] s[i])
}

/// A sequence of `.identifier` and `[digits]` segments, optionally
/// starting with a bare identifier.
pub open spec fn spec_is_path_tail(s: Seq<char>) -> bool
    decreases s.len(),
{
    if s.len() == 0 {
        true
    } else if s[0] == '.' {
        spec_is_path_tail(s.drop_first())
    } else if s[0] == '[' {
        let rest = s.drop_first();
        match find(rest, seq![']']) {
            None => false,
            Some(close) => if !(0 <= close < rest.len()) {
                false
            } else {
                let idx = rest.take(close);
                idx.len() > 0 && all_digits(idx) && spec_is_path_tail(rest.skip(close + 1))
            },
        }
    } else {
        let e = ident_end(s, 0);
        e > 0 && e <= s.len() && spec_is_path_tail(s.skip(e))
    }
}

/// Whether `s` is a JSON field-path selector (`$`, `$.field`, `$[0].id`,
/// `..field`, `items[0].name`) rather than CSS: without a `$` or `..`
/// prefix only a bracketed index marks one.
pub open spec fn spec_is_json_path(s: Seq<char>) -> bool {
    if s == seq!['$'] {
        true
    } else if starts_with(s, seq!['.', '.']) {
        spec_is_identifier(s.skip(2))
    } else if starts_with(s, seq!['$']) {
        s.len() > 1 && spec_is_path_tail(s.skip(1))
    } else {
        s.contains('[') && spec_is_path_tail(s)
    }
}

fn is_identifier(s: &Vec<char>, lo: usize) -> (r: bool)
    requires
        lo <= s.len(),
    ensures
        r == spec_is_identifier(s@.skip(lo as int)),
{
    if lo == s.len() {
        return false;
    }
    let mut i = lo;
    while i < s.len()
        invariant
            lo <= i <= s.len(),
            forall|k: int| lo <= k < i ==> ident_char(#[trigger] s@[k]),
        decreases s.len() - i,
    {
        if !(is_alphanumeric(s[i]) || s[i] == '_') {
            assert(s@.skip(lo as int)[i - lo] == s@[i as int]);
            return false;
        }
        i = i + 1;
    }
    assert forall|k: int| 0 <= k < s@.skip(lo as int).len() implies ident_char(#[trigger] s@.skip(lo as int)[k]) by {
        assert(s@.skip(lo as int)[k] == s@[lo + k]);
    }
    true
}

proof fn lemma_ident_end(s: Seq<char>, k: int)
    requires
        0 <= k <= s.len(),
    ensures
        k <= ident_end(s, k) <= s.len(),
        forall|j: int| k <= j < ident_end(s, k) ==> ident_char(#[trigger] s[j]),
        ident_end(s, k) < s.len() ==> !ident_char(s[ident_end(s, k)]),
    decreases s.len() - k,
{
    if 0 <= k < s.len() && ident_char(s[k]) {
        lemma_ident_end(s, k + 1);
    }
}

fn all_digits_in(s: &Vec<char>, lo: usize, hi: usize) -> (r: bool)
    requires
        lo <= hi <= s.len(),
    ensures
        r == all_digits(s@.subrange(lo as int, hi as int)),
{
    let mut k = lo;
    while k < hi
        invariant
            lo <= k <= hi <= s.len(),
            forall|j: int| lo <= j < k ==> is_ascii_digit(#[trigger] s@[j]),
        decreases hi - k,
    {
        if !('0' <= s[k] && s[k] <= '9') {
            assert(s@.subrange(lo as int, hi as int)[k - lo] == s@[k as int]);
            return false;
        }
        k = k + 1;
    }
    assert forall|j: int| 0 <= j < hi - lo implies is_ascii_digit(#[trigger] s@.subrange(lo as int, hi as int)[j]) by {
        assert(s@.subrange(lo as int, hi as int)[j] == s@[lo + j]);
    }
    true
}

fn is_path_tail(s: &Vec<char>, lo: usize) -> (r: bool)
    requires
        lo <= s.len(),
    ensures
        r == spec_is_path_tail(s@.skip(lo as int)),
{
    let rb = one(']');
    let mut p = lo;
    while p < s.len()
        invariant
            lo <= p <= s.len(),
            rb@ == seq![']'],
            spec_is_path_tail(s@.skip(lo as int)) == spec_is_path_tail(s@.skip(p as int)),
        decreases s.len() - p,
    {
        let ghost t = s@.skip(p as int);
        if s[p] == '.' {
            assert(t.drop_first() =~= s@.skip(p + 1));
            p = p + 1;
        } else if s[p] == '[' {
            let ghost rest = t.drop_first();
            assert(rest =~= s@.skip(p + 1));
            proof {
                lemma_find_bound(rest, seq![']']);
            }
            match find_from(s, p + 1, &rb) {
                None => {
                    return false;
                },
                Some(c) => {
                    let close = c - (p + 1);
                    if close == 0 {
                        return false;
                    }
                    if !all_digits_in(s, p + 1, c) {
                        assert(rest.take(close as int) =~= s@.subrange(p + 1, c as int));
                        return false;
                    }
                    assert(rest.take(close as int) =~= s@.subrange(p + 1, c as int));
                    assert(rest.skip(close + 1) =~= s@.skip(c + 1));
                    p = c + 1;
                }
            }
        } else {
            let mut e = p;
            while e < s.len() && (is_alphanumeric(s[e]) || s[e] == '_')
                invariant
                    p <= e <= s.len(),
                    forall|j: int| p <= j < e ==> ident_char(#[trigger] s@[j]),
                decreases s.len() - e,
            {
                e = e + 1;
            }
            proof {
                lemma_ident_end(t, 0);
                let ie = ident_end(t, 0);
                if ie < e - p {
                    assert(t[ie] == s@[p + ie]);
                }
                if e - p < ie {
                    assert(t[e - p] == s@[e as int]);
                }
            }
            if e == p {
                return false;
            }
            assert(t.skip(e - p) =~= s@.skip(e as int));
            p = e;
        }
    }
    assert(s@.skip(p as int) =~= Seq::<char>::empty());
    true
}

fn is_json_path(s: &Vec<char>) -> (r: bool)
    ensures
        r == spec_is_json_path(s@),
{
    if s.len() == 1 && s[0] == '$' {
        assert(s@ =~= seq!['$']);
        return true;
    }
    assert(s@ != seq!['$'] || (s.len() == 1 && s@[0] == '$'));
    if s.len() >= 2 && s[0] == '.' && s[1] == '.' {
        assert(s@.subrange(0, 2) =~= seq!['.', '.']);
        return is_identifier(s, 2);
    }
    proof {
        if s@.len() >= 2 {
            assert(s@.subrange(0, 2) =~= seq![s@[0], s@[1]]);
        }
    }
    if s.len() >= 1 && s[0] == '$' {
        assert(s@.subrange(0, 1) =~= seq!['$']);
        return s.len() > 1 && is_path_tail(s, 1);
    }
    proof {
        if s@.len() >= 1 {
            assert(s@.subrange(0, 1) =~= seq![s@[0]]);
        }
    }
    let mut has_bracket = false;
    let mut i: usize = 0;
    while i < s.len()
        invariant
            0 <= i <= s.len(),
            has_bracket == exists|k: int| 0 <= k < i && s@[k] == '[',
        decreases s.len() - i,
    {
        if s[i] == '[' {
            has_bracket = true;
        }
        i = i + 1;
    }
    assert(s@.skip(0) =~= s@);
    has_bracket && is_path_tail(s, 0)
}


// ---------------------------------------------------------------------------
// Compiling: CSS plus lifted text predicates
// ---------------------------------------------------------------------------
#[verifier::external_type_specification]
#[verifier::external_body]
pub struct ExSelector(scraper::Selector);

/// What `scraper::Selector::parse` answers for a CSS text: the selector
/// when it parses, else the `{:?}` text of its error.
pub uninterp spec fn css_parse_result(text: Seq<char>) -> Result<scraper::Selector, Seq<char>>;

/// A parsed CSS selector, with the text it was parsed from.
pub struct Css {
    source: String,
    sel: scraper::Selector,
}

impl View for Css {
    type V = Seq<char>;

    closed spec fn view(&self) -> Seq<char> {
        self.source@
    }
}

impl Css {
    /// The selector is the one scraper parses from the source text.
    #[verifier::type_invariant]
    closed spec fn parsed_from_source(self) -> bool {
        css_parse_result(self.source@) == Ok::<scraper::Selector, Seq<char>>(self.sel)
    }

    /// The parsed selector, for matching against a document: the one
    /// `scraper::Selector::parse` gives for the source text.
    pub fn selector(&self) -> (r: &scraper::Selector)
        ensures
            css_parse_result(self@) == Ok::<scraper::Selector, Seq<char>>(*r),
    {
        proof {
            use_type_invariant(self);
        }
        &self.sel
    }

    /// The CSS text this selector was parsed from.
    pub fn source(&self) -> (r: &str)
        ensures
            r@ == self@,
    {
        self.source.as_str()
    }
}

/// `scraper::Selector::parse`; the error is its `{:?}` text.
#[verifier::external_body]
fn parse_css(text: &str) -> (r: Result<Css, String>)
    ensures
        match r {
            Ok(c) => c@ == text@ && css_parse_result(text@) == Ok::<scraper::Selector, Seq<char>>(c.sel),
            Err(e) => css_parse_result(text@) == Err::<scraper::Selector, Seq<char>>(e@),
        },
{
    match scraper::Selector::parse(text) {
        Ok(sel) => Ok(Css { source: text.to_string(), sel }),
        Err(e) => Err(format!("{e:?}")),
    }
}

/// A text condition lifted out of a `:contains()` clause (abstract form of
/// [`TextPredicate`]).
pub enum SPred {
    /// The element's own text must (unless negated) contain the text.
    Contains(Seq<char>, bool),
    /// Some descendant matching the CSS must (unless negated) satisfy every
    /// nested predicate.
    Descendant(Seq<char>, Seq<SPred>, bool),
}

/// A text condition lifted out of a `:contains()` clause.
pub enum TextPredicate {
    /// The current element's own (flattened) text must, unless `negate`,
    /// contain `text`.
    Contains { text: String, negate: bool },
    /// Some descendant matching `css` must, unless `negate`, satisfy every
    /// predicate in `nested`.
    Descendant { css: Css, nested: Vec<TextPredicate>, negate: bool },
}

pub open spec fn pred_view(p: TextPredicate) -> SPred
    decreases p,
{
    match p {
        TextPredicate::Contains { text, negate } => SPred::Contains(text@, negate),
        TextPredicate::Descendant { css, nested, negate } => SPred::Descendant(
            css@,
            preds_view(nested@),
            negate,
        ),
    }
}

pub open spec fn preds_view(v: Seq<TextPredicate>) -> Seq<SPred>
    decreases v,
{
    if v.len() == 0 {
        Seq::empty()
    } else {
        preds_view(v.drop_last()).push(pred_view(v.last()))
    }
}

proof fn lemma_preds_view_push(v: Seq<TextPredicate>, p: TextPredicate)
    ensures
        preds_view(v.push(p)) == preds_view(v).push(pred_view(p)),
{
    assert(v.push(p).drop_last() =~= v);
    assert(v.push(p).last() == p);
}

pub open spec fn spec_negated(p: SPred) -> SPred {
    match p {
        SPred::Contains(t, n) => SPred::Contains(t, !n),
        SPred::Descendant(c, ps, n) => SPred::Descendant(c, ps, !n),
    }
}

pub open spec fn negate_all(ps: Seq<SPred>) -> Seq<SPred> {
    ps.map_values(|p: SPred| spec_negated(p))
}

/// The pseudo-class calls that get special handling.
#[derive(Clone, Copy, PartialEq, Eq)]
pub enum Marker {
    Contains,
    Has,
    Not,
}

pub open spec fn marker_token(m: Marker) -> Seq<char> {
    match m {
        Marker::Contains => ":contains("@,
        Marker::Has => ":has("@,
        Marker::Not => ":not("@,
    }
}

/// The earlier of two marker hits (the first on a tie).
pub open spec fn earlier(a: Option<(int, Marker)>, b: Option<(int, Marker)>) -> Option<(int, Marker)> {
    match a {
        None => b,
        Some((i, _)) => match b {
            None => a,
            Some((j, _)) => if j < i {
                b
            } else {
                a
            },
        },
    }
}

pub open spec fn hit(s: Seq<char>, m: Marker) -> Option<(int, Marker)> {
    match find(s, marker_token(m)) {
        Some(i) => Some((i, m)),
        None => None,
    }
}

/// The earliest marker token in `s`.
pub open spec fn find_earliest(s: Seq<char>) -> Option<(int, Marker)> {
    earlier(earlier(hit(s, Marker::Contains), hit(s, Marker::Has)), hit(s, Marker::Not))
}

/// Why a selector does not compile.
pub enum SelErr {
    /// A `:contains(`, `:has(` or `:not(` is never closed.
    Unbalanced,
    /// CSS that does not parse, with the parser's reason.
    Css(Seq<char>),
}

/// A branch rewritten: its standard CSS and the lifted text predicates.
pub type Rewritten = (Seq<char>, Seq<SPred>);

/// The CSS and predicates one marker clause contributes, given its
/// argument.
pub open spec fn clause(m: Marker, arg: Seq<char>, inner: Result<Rewritten, SelErr>) -> Result<
    Rewritten,
    SelErr,
> {
    match m {
        Marker::Contains => Ok((Seq::empty(), seq![SPred::Contains(spec_unquote(trim(arg)), false)])),
        Marker::Has => match inner {
            Err(e) => Err(e),
            Ok((ic0, ip)) => {
                let ic = trim(ic0);
                if ip.len() > 0 || find(ic, ":has("@) is Some {
                    let scope = if ic.len() == 0 {
                        seq!['*']
                    } else {
                        ic
                    };
                    match css_parse_result(scope) {
                        Err(why) => Err(SelErr::Css(why)),
                        Ok(_) => Ok((Seq::empty(), seq![SPred::Descendant(scope, ip, false)])),
                    }
                } else if ic.len() > 0 {
                    Ok((":has("@ + ic + seq![')'], Seq::empty()))
                } else {
                    Ok((Seq::empty(), Seq::empty()))
                }
            },
        },
        Marker::Not => match inner {
            Err(e) => Err(e),
            Ok((ic0, ip)) => {
                let ic = trim(ic0);
                let css = if ic.len() > 0 {
                    ":not("@ + ic + seq![')']
                } else {
                    Seq::empty()
                };
                Ok((css, negate_all(ip)))
            },
        },
    }
}

/// `s` with every `:contains()` lifted out (however deeply nested in
/// `:has()`/`:not()`), as standard CSS plus predicates.
pub open spec fn spec_rewrite(s: Seq<char>) -> Result<Rewritten, SelErr>
    decreases s.len(),
{
    match find_earliest(s) {
        None => Ok((s, Seq::empty())),
        Some((idx, m)) => {
            let tl = marker_token(m).len();
            if !(0 <= idx && idx + tl <= s.len()) {
                Err(SelErr::Unbalanced)
            } else {
                let after = s.skip(idx + tl);
                match spec_find_matching_paren(after) {
                    None => Err(SelErr::Unbalanced),
                    Some(close) => if !(0 <= close < after.len()) {
                        Err(SelErr::Unbalanced)
                    } else {
                        let arg = after.take(close);
                        let inner = if m == Marker::Contains {
                            Ok((Seq::empty(), Seq::empty()))
                        } else {
                            spec_rewrite(arg)
                        };
                        match clause(m, arg, inner) {
                            Err(e) => Err(e),
                            Ok((pc, pp)) => match spec_rewrite(after.skip(close + 1)) {
                                Err(e) => Err(e),
                                Ok((rc, rp)) => Ok((s.take(idx) + pc + rc, pp + rp)),
                            },
                        }
                    },
                }
            }
        },
    }
}


proof fn lemma_preds_view_index(v: Seq<TextPredicate>)
    ensures
        preds_view(v).len() == v.len(),
        forall|i: int| 0 <= i < v.len() ==> #[trigger] preds_view(v)[i] == pred_view(v[i]),
    decreases v.len(),
{
    if v.len() > 0 {
        lemma_preds_view_index(v.drop_last());
    }
}

proof fn lemma_preds_view_concat(a: Seq<TextPredicate>, b: Seq<TextPredicate>)
    ensures
        preds_view(a + b) == preds_view(a) + preds_view(b),
{
    lemma_preds_view_index(a);
    lemma_preds_view_index(b);
    lemma_preds_view_index(a + b);
    assert(preds_view(a + b) =~= preds_view(a) + preds_view(b));
}

/// Exec form of [`SelErr`].
pub enum SelFail {
    Unbalanced,
    Css(String),
}

pub open spec fn fail_view(f: SelFail) -> SelErr {
    match f {
        SelFail::Unbalanced => SelErr::Unbalanced,
        SelFail::Css(w) => SelErr::Css(w@),
    }
}

fn negated(p: TextPredicate) -> (r: TextPredicate)
    ensures
        pred_view(r) == spec_negated(pred_view(p)),
{
    match p {
        TextPredicate::Contains { text, negate } => TextPredicate::Contains { text, negate: !negate },
        TextPredicate::Descendant { css, nested, negate } => TextPredicate::Descendant {
            css,
            nested,
            negate: !negate,
        },
    }
}

fn negate_each(v: Vec<TextPredicate>) -> (r: Vec<TextPredicate>)
    ensures
        preds_view(r@) == negate_all(preds_view(v@)),
{
    let ghost orig = v@;
    let mut src = v;
    let mut out: Vec<TextPredicate> = Vec::new();
    proof {
        lemma_preds_view_index(orig);
    }
    while src.len() > 0
        invariant
            out@.len() + src@.len() == orig.len(),
            preds_view(orig).len() == orig.len(),
            forall|j: int| 0 <= j < orig.len() ==> #[trigger] preds_view(orig)[j] == pred_view(orig[j]),
            forall|j: int| 0 <= j < out@.len() ==> pred_view(#[trigger] out@[j]) == spec_negated(pred_view(orig[j])),
            forall|j: int| 0 <= j < src@.len() ==> #[trigger] src@[j] == orig[out@.len() + j],
        decreases src@.len(),
    {
        let p = src.remove(0);
        out.push(negated(p));
    }
    proof {
        lemma_preds_view_index(out@);
    }
    assert(preds_view(out@) =~= negate_all(preds_view(orig)));
    out
}

fn hit_at(s: &Vec<char>, tok: &Vec<char>, m: Marker) -> (r: Option<(usize, Marker)>)
    requires
        tok@ == marker_token(m),
    ensures
        match hit(s@, m) {
            Some((i, mm)) => r matches Some((j, n)) && j == i && n == mm && j + tok@.len() <= s@.len(),
            None => r is None,
        },
{
    assert(s@.skip(0) =~= s@);
    proof {
        lemma_find_bound(s@, tok@);
    }
    match find_from(s, 0, tok) {
        Some(i) => {
            proof {
                let k = find(s@, tok@)->0;
                assert(0 <= k && k + tok@.len() <= s@.len());
                assert(s@.len() == s.len());
                assert(i as int == k);
            }
            Some((i, m))
        },
        None => None,
    }
}

fn earlier_of(a: Option<(usize, Marker)>, b: Option<(usize, Marker)>) -> (r: Option<(usize, Marker)>)
    ensures
        r == (match earlier(
            match a {
                Some((i, m)) => Some((i as int, m)),
                None => None,
            },
            match b {
                Some((i, m)) => Some((i as int, m)),
                None => None,
            },
        ) {
            Some((i, m)) => Some((i as usize, m)),
            None => None,
        }),
        r matches Some(x) ==> (a == Some(x) || b == Some(x)),
{
    match a {
        None => b,
        Some((i, _)) => match b {
            None => a,
            Some((j, _)) => if j < i {
                b
            } else {
                a
            },
        },
    }
}

fn find_earliest_at(s: &Vec<char>) -> (r: Option<(usize, Marker)>)
    ensures
        match find_earliest(s@) {
            Some((i, m)) => r matches Some((j, n)) && j == i && n == m && i + marker_token(m).len()
                <= s@.len(),
            None => r is None,
        },
{
    let tc = chars_of(":contains(");
    let th = chars_of(":has(");
    let tn = chars_of(":not(");
    let c = hit_at(s, &tc, Marker::Contains);
    let h = hit_at(s, &th, Marker::Has);
    let n = hit_at(s, &tn, Marker::Not);
    let ch = earlier_of(c, h);
    earlier_of(ch, n)
}

/// Lifts every `:contains()` out of `s`, however deeply nested inside
/// `:has()`/`:not()`, leaving standard CSS plus predicates.
fn rewrite(s: &Vec<char>) -> (r: Result<(Vec<char>, Vec<TextPredicate>), SelFail>)
    ensures
        match spec_rewrite(s@) {
            Ok((c, ps)) => r matches Ok((x, y)) && x@ == c && preds_view(y@) == ps,
            Err(e) => r matches Err(f) && fail_view(f) == e,
        },
    decreases s@.len(),
{
    match find_earliest_at(s) {
        None => {
            let v: Vec<TextPredicate> = Vec::new();
            assert(preds_view(v@) =~= Seq::<SPred>::empty());
            Ok((copy_chars(s), v))
        },
        Some((idx, m)) => {
            proof {
                reveal_strlit(":contains(");
                reveal_strlit(":has(");
                reveal_strlit(":not(");
            }
            let tl: usize = match m {
                Marker::Contains => 10,
                _ => 5,
            };
            assert(tl == marker_token(m).len());
            assert(find_earliest(s@) is Some);
            assert(idx + tl <= s@.len());
            assert(s@.len() == s.len());
            let start: usize = idx + tl;
            let after = copy_range(s, start, s.len());
            assert(after@ == s@.skip(start as int));
            let close = match find_matching_paren(&after) {
                None => {
                    return Err(SelFail::Unbalanced);
                },
                Some(c) => c,
            };
            let arg = copy_range(&after, 0, close);
            assert(arg@ == after@.take(close as int));
            let ghost inner = if m == Marker::Contains {
                Ok((Seq::<char>::empty(), Seq::<SPred>::empty()))
            } else {
                spec_rewrite(arg@)
            };
            let mut pc: Vec<char> = Vec::new();
            let mut pp: Vec<TextPredicate> = Vec::new();
            match m {
                Marker::Contains => {
                    let ta = trimmed(&arg);
                    let text = unquote_chars(&ta);
                    let p = TextPredicate::Contains { text: string_of(text.as_slice()), negate: false };
                    let ghost pg = p;
                    pp.push(p);
                    proof {
                        lemma_preds_view_push(Seq::empty(), pg);
                        assert(Seq::<TextPredicate>::empty().push(pg) =~= pp@);
                    }
                },
                Marker::Has => {
                    let (ic0, ip) = match rewrite(&arg) {
                        Err(f) => {
                            return Err(f);
                        },
                        Ok(x) => x,
                    };
                    let ic = trimmed(&ic0);
                    let hs = chars_of(":has(");
                    assert(ic@.skip(0) =~= ic@);
                    let nested_has = find_from(&ic, 0, &hs).is_some();
                    if ip.len() > 0 || nested_has {
                        let scope = if ic.len() == 0 {
                            one('*')
                        } else {
                            ic
                        };
                        match parse_css(string_of(scope.as_slice()).as_str()) {
                            Err(why) => {
                                return Err(SelFail::Css(why));
                            },
                            Ok(css) => {
                                let p = TextPredicate::Descendant { css, nested: ip, negate: false };
                                let ghost pg = p;
                                pp.push(p);
                                proof {
                                    lemma_preds_view_push(Seq::empty(), pg);
                                    assert(Seq::<TextPredicate>::empty().push(pg) =~= pp@);
                                }
                            },
                        }
                    } else {
                        assert(preds_view(pp@) =~= Seq::<SPred>::empty());
                        if ic.len() > 0 {
                            push_str(&mut pc, ":has(");
                            push_all(&mut pc, &ic);
                            pc.push(')');
                            assert(pc@ =~= ":has("@ + ic@ + seq![')']);
                        } else {
                            assert(pc@ =~= Seq::<char>::empty());
                        }
                    }
                },
                Marker::Not => {
                    let (ic0, ip) = match rewrite(&arg) {
                        Err(f) => {
                            return Err(f);
                        },
                        Ok(x) => x,
                    };
                    let ic = trimmed(&ic0);
                    if ic.len() > 0 {
                        push_str(&mut pc, ":not(");
                        push_all(&mut pc, &ic);
                        pc.push(')');
                        assert(pc@ =~= ":not("@ + ic@ + seq![')']);
                    } else {
                        assert(pc@ =~= Seq::<char>::empty());
                    }
                    pp = negate_each(ip);
                },
            }
            assert(clause(m, arg@, inner) == Ok::<Rewritten, SelErr>((pc@, preds_view(pp@))));
            let rest = copy_range(&after, close + 1, after.len());
            assert(rest@ == after@.skip(close + 1));
            match rewrite(&rest) {
                Err(f) => Err(f),
                Ok((rc, rp)) => {
                    let mut out = copy_range(s, 0, idx);
                    push_all(&mut out, &pc);
                    push_all(&mut out, &rc);
                    let ghost a = pp@;
                    let ghost b = rp@;
                    let mut rp2 = rp;
                    pp.append(&mut rp2);
                    proof {
                        lemma_preds_view_concat(a, b);
                        assert(out@ =~= s@.take(idx as int) + pc@ + rc@);
                    }
                    Ok((out, pp))
                },
            }
        },
    }
}


/// One compiled branch: its CSS text and the predicates that must also hold.
pub type SBranch = (Seq<char>, Seq<SPred>);

/// What a compiled selector is.
pub enum SCompiled {
    /// Standard CSS branches (a comma-separated list), each with its
    /// lifted predicates.
    Css(Seq<SBranch>),
    /// A JSON field path, which selects nothing in an HTML document.
    JsonPath,
}

/// One comma-free branch compiled: `:contains()` lifted, the CSS trimmed
/// (`*` when nothing is left) and parsed.
pub open spec fn spec_compile_branch(part: Seq<char>) -> Result<SBranch, SelErr> {
    match spec_rewrite(part) {
        Err(e) => Err(e),
        Ok((c, ps)) => {
            let ct = trim(c);
            let css = if ct.len() == 0 {
                seq!['*']
            } else {
                ct
            };
            match css_parse_result(css) {
                Err(why) => Err(SelErr::Css(why)),
                Ok(_) => Ok((css, ps)),
            }
        },
    }
}

/// Every branch compiled, in order; the first failure ends it.
pub open spec fn spec_compile_branches(parts: Seq<Seq<char>>) -> Result<Seq<SBranch>, SelErr>
    decreases parts.len(),
{
    if parts.len() == 0 {
        Ok(Seq::empty())
    } else {
        match spec_compile_branches(parts.drop_last()) {
            Err(e) => Err(e),
            Ok(bs) => match spec_compile_branch(parts.last()) {
                Err(e) => Err(e),
                Ok(b) => Ok(bs.push(b)),
            },
        }
    }
}

/// The selector text after the `!=` rewrite and attribute normalization,
/// with a stray leading `$` dropped.
pub open spec fn normalized(raw: Seq<char>) -> Seq<char> {
    let n = spec_normalize_attribute_selectors(spec_rewrite_not_equal(raw));
    if starts_with(n, seq!['$']) {
        n.skip(1)
    } else {
        n
    }
}

/// What compiling the selector text `raw` gives.
pub open spec fn spec_compile_selector(raw: Seq<char>) -> Result<SCompiled, SelErr> {
    if spec_is_json_path(trim(raw)) {
        Ok(SCompiled::JsonPath)
    } else {
        match spec_compile_branches(spec_split_top_level_commas(normalized(raw))) {
            Err(e) => Err(e),
            Ok(bs) => Ok(SCompiled::Css(bs)),
        }
    }
}

/// One branch of a (possibly comma-separated) selector list: standard CSS
/// plus the text predicates that must also hold.
pub struct Branch {
    pub css: Css,
    pub predicates: Vec<TextPredicate>,
}

pub open spec fn branch_view(b: Branch) -> SBranch {
    (b.css@, preds_view(b.predicates@))
}

pub open spec fn branches_view(v: Seq<Branch>) -> Seq<SBranch> {
    v.map_values(|b: Branch| branch_view(b))
}

/// What a compiled selector does when asked to select elements.
pub enum SelectorKind {
    /// Ordinary CSS (rewritten from jQuery-flavoured Cardigann CSS).
    Css(Vec<Branch>),
    /// A JSON field-path selector, used when the search response is JSON;
    /// it never matches anything in an HTML document.
    JsonPath,
}

/// A Cardigann selector compiled into standard CSS plus text predicates.
pub struct CompiledSelector {
    pub kind: SelectorKind,
}

impl View for CompiledSelector {
    type V = SCompiled;

    open spec fn view(&self) -> SCompiled {
        match self.kind {
            SelectorKind::Css(bs) => SCompiled::Css(branches_view(bs@)),
            SelectorKind::JsonPath => SCompiled::JsonPath,
        }
    }
}

impl CompiledSelector {
    /// True when this selector is a JSON field path rather than CSS.
    pub fn is_json_path(&self) -> (r: bool)
        ensures
            r == (self@ is JsonPath),
    {
        match self.kind {
            SelectorKind::JsonPath => true,
            SelectorKind::Css(_) => false,
        }
    }
}

fn compile_branch(part: &Vec<char>) -> (r: Result<Branch, SelFail>)
    ensures
        match spec_compile_branch(part@) {
            Ok(b) => r matches Ok(x) && branch_view(x) == b,
            Err(e) => r matches Err(f) && fail_view(f) == e,
        },
{
    let (c, ps) = match rewrite(part) {
        Err(f) => {
            return Err(f);
        },
        Ok(x) => x,
    };
    let ct = trimmed(&c);
    let css = if ct.len() == 0 {
        one('*')
    } else {
        ct
    };
    match parse_css(string_of(css.as_slice()).as_str()) {
        Err(why) => Err(SelFail::Css(why)),
        Ok(compiled) => Ok(Branch { css: compiled, predicates: ps }),
    }
}

/// Splits a Cardigann selector into standard CSS plus lifted text
/// predicates, or recognises it as a JSON field path.
///
/// Fails with [`CardigannError::UnbalancedContains`] naming the selector
/// when a `:contains(`, `:has(` or `:not(` is never closed, and with
/// [`CardigannError::Selector`] naming it, with the parser's reason, when
/// the rewritten CSS does not parse.
pub fn compile(raw: &str) -> (r: Result<CompiledSelector, CardigannError>)
    ensures
        match spec_compile_selector(raw@) {
            Ok(c) => r matches Ok(x) && x@ == c,
            Err(SelErr::Unbalanced) => r matches Err(CardigannError::UnbalancedContains { selector })
                && selector@ == raw@,
            Err(SelErr::Css(why)) => r matches Err(CardigannError::Selector { selector, reason })
                && selector@ == raw@ && reason@ == why,
        },
{
    let rc = chars_of(raw);
    let t = trimmed(&rc);
    if is_json_path(&t) {
        return Ok(CompiledSelector { kind: SelectorKind::JsonPath });
    }
    let a = rewrite_not_equal_chars(&rc);
    let b = normalize_attribute_selectors_chars(&a);
    let n = if b.len() > 0 && b[0] == '$' {
        assert(b@.subrange(0, 1) =~= seq!['$']);
        let c = copy_range(&b, 1, b.len());
        assert(c@ =~= b@.skip(1));
        assert(starts_with(b@, seq!['$']));
        c
    } else {
        proof {
            if b@.len() > 0 {
                assert(b@.subrange(0, 1) =~= seq![b@[0]]);
                assert(b@.subrange(0, 1)[0] == b@[0]);
            }
            assert(!starts_with(b@, seq!['$']));
        }
        b
    };
    assert(n@ == normalized(rc@));
    let parts = split_top_level_commas(&n);
    let ghost pv = chars_views(parts@);
    let mut branches: Vec<Branch> = Vec::new();
    let mut i: usize = 0;
    assert(pv.take(0) =~= Seq::<Seq<char>>::empty());
    assert(branches_view(branches@) =~= Seq::<SBranch>::empty());
    while i < parts.len()
        invariant
            0 <= i <= parts.len(),
            pv == chars_views(parts@),
            pv.len() == parts@.len(),
            pv == spec_split_top_level_commas(normalized(raw@)),
            !spec_is_json_path(trim(raw@)),
            spec_compile_branches(pv.take(i as int)) == Ok::<Seq<SBranch>, SelErr>(
                branches_view(branches@),
            ),
        decreases parts.len() - i,
    {
        assert(pv.take(i + 1).drop_last() =~= pv.take(i as int));
        assert(pv.take(i + 1).last() == parts@[i as int]@);
        match compile_branch(&parts[i]) {
            Err(f) => {
                proof {
                    lemma_compile_branches_err_prefix(pv, i + 1);
                }
                return match f {
                    SelFail::Unbalanced => Err(CardigannError::UnbalancedContains { selector: String::from_str(raw) }),
                    SelFail::Css(why) => Err(CardigannError::Selector { selector: String::from_str(raw), reason: why }),
                };
            },
            Ok(b) => {
                let ghost bg = b;
                let ghost before = branches@;
                branches.push(b);
                assert(branches_view(branches@) =~= branches_view(before).push(branch_view(bg)));
            },
        }
        i = i + 1;
    }
    assert(pv.take(pv.len() as int) =~= pv);
    Ok(CompiledSelector { kind: SelectorKind::Css(branches) })
}

proof fn lemma_compile_branches_err_prefix(parts: Seq<Seq<char>>, k: int)
    requires
        0 <= k <= parts.len(),
        spec_compile_branches(parts.take(k)) is Err,
    ensures
        spec_compile_branches(parts) == spec_compile_branches(parts.take(k)),
    decreases parts.len(),
{
    if k == parts.len() {
        assert(parts.take(k) =~= parts);
    } else {
        assert(parts.drop_last().take(k) =~= parts.take(k));
        lemma_compile_branches_err_prefix(parts.drop_last(), k);
    }
}

} // verus!
