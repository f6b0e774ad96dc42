//! Translation of .NET custom date-format layouts to chrono format strings.
//!
//! Cardigann's `dateparse`/`timeparse` filters carry a layout written
//! against .NET's custom date and time format strings (for example
//! `"yyyy-MM-dd HH:mm:ss zzz"`); chrono needs a `strftime`-style format.
//! [`spec_layout`] states the translation; [`net_layout_to_chrono`]
//! performs it.
use vstd::prelude::*;

use crate::error::CardigannError;
use crate::text::{chars_of, copy_range, debug_quoted, push_debug_quoted, push_str, string_of, word_is};

verus! {

/// The chrono directive for a whole run of one repeated .NET format letter,
/// or `None` when the run is not a .NET token.
pub open spec fn token_directive(run: Seq<char>) -> Option<Seq<char>> {
    if run == "yyyy"@ { Some("%Y"@) }
    else if run == "yy"@ { Some("%y"@) }
    else if run == "MMMM"@ { Some("%B"@) }
    else if run == "MMM"@ { Some("%b"@) }
    else if run == "MM"@ { Some("%m"@) }
    else if run == "M"@ { Some("%-m"@) }
    else if run == "dddd"@ { Some("%A"@) }
    else if run == "ddd"@ { Some("%a"@) }
    else if run == "dd"@ { Some("%d"@) }
    else if run == "d"@ { Some("%-d"@) }
    else if run == "HH"@ { Some("%H"@) }
    else if run == "H"@ { Some("%-H"@) }
    else if run == "hh"@ { Some("%I"@) }
    else if run == "h"@ { Some("%-I"@) }
    else if run == "mm"@ { Some("%M"@) }
    else if run == "m"@ { Some("%-M"@) }
    else if run == "ss"@ { Some("%S"@) }
    else if run == "s"@ { Some("%-S"@) }
    else if run == "tt"@ { Some("%p"@) }
    else if run == "fff"@ { Some("%.3f"@) }
    else if run == "zzz"@ { Some("%:z"@) }
    else if run == "zz"@ { Some("%z"@) }
    else if run == "K"@ { Some("%:z"@) }
    else { None }
}

/// The directive for a letter run (see [`token_directive`]).
fn directive_of(run: &Vec<char>) -> (r: Option<&'static str>)
    ensures
        match token_directive(run@) {
            Some(d) => r matches Some(x) && x@ == d,
            None => r is None,
        },
{
    if word_is(run, "yyyy") { Some("%Y") }
    else if word_is(run, "yy") { Some("%y") }
    else if word_is(run, "MMMM") { Some("%B") }
    else if word_is(run, "MMM") { Some("%b") }
    else if word_is(run, "MM") { Some("%m") }
    else if word_is(run, "M") { Some("%-m") }
    else if word_is(run, "dddd") { Some("%A") }
    else if word_is(run, "ddd") { Some("%a") }
    else if word_is(run, "dd") { Some("%d") }
    else if word_is(run, "d") { Some("%-d") }
    else if word_is(run, "HH") { Some("%H") }
    else if word_is(run, "H") { Some("%-H") }
    else if word_is(run, "hh") { Some("%I") }
    else if word_is(run, "h") { Some("%-I") }
    else if word_is(run, "mm") { Some("%M") }
    else if word_is(run, "m") { Some("%-M") }
    else if word_is(run, "ss") { Some("%S") }
    else if word_is(run, "s") { Some("%-S") }
    else if word_is(run, "tt") { Some("%p") }
    else if word_is(run, "fff") { Some("%.3f") }
    else if word_is(run, "zzz") { Some("%:z") }
    else if word_is(run, "zz") { Some("%z") }
    else if word_is(run, "K") { Some("%:z") }
    else { None }
}

/// A literal character as it must appear in a `strftime` string.
pub open spec fn escape_pct_char(c: char) -> Seq<char> {
    if c == '%' {
        seq!['%', '%']
    } else {
        seq![c]
    }
}

/// A literal string as it must appear in a `strftime` string.
pub open spec fn escape_pct(s: Seq<char>) -> Seq<char>
    decreases s.len(),
{
    if s.len() == 0 {
        Seq::empty()
    } else {
        escape_pct(s.drop_last()) + escape_pct_char(s.last())
    }
}

pub open spec fn is_ascii_alpha(c: char) -> bool {
    ('a' <= c && c <= 'z') || ('A' <= c && c <= 'Z')
}

/// End of the run of characters equal to `l[i]` that starts at `i`.
pub open spec fn run_end(l: Seq<char>, i: int) -> int
    decreases l.len() - i,
{
    if i + 1 < l.len() && l[i + 1] == l[i] {
        run_end(l, i + 1)
    } else {
        i + 1
    }
}

/// Position of the first `'` at or after `i`.
pub open spec fn next_quote(l: Seq<char>, i: int) -> Option<int>
    decreases l.len() - i,
{
    if i < 0 || i >= l.len() {
        None
    } else if l[i] == '\'' {
        Some(i)
    } else {
        next_quote(l, i + 1)
    }
}

pub open spec fn prepend(p: Seq<char>, r: Result<Seq<char>, Seq<char>>) -> Result<Seq<char>, Seq<char>> {
    match r {
        Ok(s) => Ok(p + s),
        Err(e) => Err(e),
    }
}

/// The translation of `l[i..]`: `Ok` with the chrono format, or `Err`
/// with the first letter run that is not a .NET token.
pub open spec fn layout_from(l: Seq<char>, i: int) -> Result<Seq<char>, Seq<char>>
    decreases l.len() - i,
{
    if i < 0 || i >= l.len() {
        Ok(Seq::empty())
    } else if l[i] == '\'' {
        match next_quote(l, i + 1) {
            Some(e) => if i < e < l.len() {
                prepend(escape_pct(l.subrange(i + 1, e)), layout_from(l, e + 1))
            } else {
                Err(Seq::empty())
            },
            None => Ok(escape_pct(l.skip(i + 1))),
        }
    } else if l[i] == '\\' {
        if i + 1 < l.len() {
            prepend(escape_pct_char(l[i + 1]), layout_from(l, i + 2))
        } else {
            Ok(seq!['\\'])
        }
    } else if is_ascii_alpha(l[i]) {
        let e = run_end(l, i);
        if i < e <= l.len() {
            match token_directive(l.subrange(i, e)) {
                Some(d) => prepend(d, layout_from(l, e)),
                None => Err(l.subrange(i, e)),
            }
        } else {
            Err(Seq::empty())
        }
    } else {
        prepend(escape_pct_char(l[i]), layout_from(l, i + 1))
    }
}

/// The chrono format for a whole .NET layout, or the offending letter run.
pub open spec fn spec_layout(l: Seq<char>) -> Result<Seq<char>, Seq<char>> {
    layout_from(l, 0)
}

/// The reason given for a layout with an unknown letter run.
pub open spec fn bad_run_reason(run: Seq<char>, layout: Seq<char>) -> Seq<char> {
    "unrecognized letter run "@ + debug_quoted(run) + " in time layout "@ + debug_quoted(layout)
}

proof fn lemma_run_end(l: Seq<char>, i: int)
    requires
        0 <= i < l.len(),
    ensures
        i < run_end(l, i) <= l.len(),
        forall|k: int| i <= k < run_end(l, i) ==> l[k] == l[i],
        run_end(l, i) < l.len() ==> l[run_end(l, i)] != l[i],
    decreases l.len() - i,
{
    if i + 1 < l.len() && l[i + 1] == l[i] {
        lemma_run_end(l, i + 1);
    }
}

proof fn lemma_next_quote(l: Seq<char>, i: int)
    requires
        0 <= i,
    ensures
        next_quote(l, i) matches Some(e) ==> i <= e < l.len() && l[e] == '\'' && forall|k: int|
            i <= k < e ==> l[k] != '\'',
        next_quote(l, i) is None ==> forall|k: int| i <= k < l.len() ==> l[k] != '\'',
    decreases l.len() - i,
{
    if i < l.len() && l[i] != '\'' {
        lemma_next_quote(l, i + 1);
    }
}

proof fn lemma_prepend_assoc(a: Seq<char>, b: Seq<char>, r: Result<Seq<char>, Seq<char>>)
    ensures
        prepend(a, prepend(b, r)) == prepend(a + b, r),
{
    match r {
        Ok(s) => {
            assert(a + (b + s) =~= (a + b) + s);
        },
        Err(_) => {},
    }
}

/// Appends a literal character, escaping `%` to `%%`.
fn push_literal_char(out: &mut Vec<char>, c: char)
    ensures
        final(out)@ == old(out)@ + escape_pct_char(c),
{
    if c == '%' {
        out.push('%');
        out.push('%');
        assert(final(out)@ =~= old(out)@ + escape_pct_char(c));
    } else {
        out.push(c);
        assert(final(out)@ =~= old(out)@ + escape_pct_char(c));
    }
}

/// Appends `l[lo..hi]` as a literal, escaping each `%` to `%%`.
fn push_literal(out: &mut Vec<char>, l: &Vec<char>, lo: usize, hi: usize)
    requires
        lo <= hi <= l.len(),
    ensures
        final(out)@ == old(out)@ + escape_pct(l@.subrange(lo as int, hi as int)),
{
    let ghost start = out@;
    let mut i = lo;
    assert(l@.subrange(lo as int, lo as int) =~= Seq::<char>::empty());
    assert(start + Seq::<char>::empty() =~= start);
    while i < hi
        invariant
            lo <= i <= hi <= l.len(),
            out@ == start + escape_pct(l@.subrange(lo as int, i as int)),
        decreases hi - i,
    {
        push_literal_char(out, l[i]);
        assert(l@.subrange(lo as int, i + 1).drop_last() =~= l@.subrange(lo as int, i as int));
        assert(out@ =~= start + escape_pct(l@.subrange(lo as int, i + 1)));
        i = i + 1;
    }
}

/// Translates a .NET custom date-format layout into a chrono `strftime`
/// format string, in one left-to-right pass: `'...'` is a quoted literal
/// (an unterminated quote takes the rest of the layout); `\x` is the
/// literal `x` (a trailing `\` is itself); a maximal run of one repeated
/// ASCII letter must be exactly a .NET token; anything else passes through.
/// Literal `%` becomes `%%`.
///
/// Fails with [`CardigannError::Definition`] naming the first letter run
/// that is not a token (such as `"QQ"` or `"ttt"`).
pub fn net_layout_to_chrono(layout: &str) -> (r: Result<String, CardigannError>)
    ensures
        match spec_layout(layout@) {
            Ok(s) => r matches Ok(x) && x@ == s,
            Err(run) => r matches Err(CardigannError::Definition { reason }) && reason@
                == bad_run_reason(run, layout@),
        },
{
    let l = chars_of(layout);
    let mut out: Vec<char> = Vec::new();
    let mut i: usize = 0;
    proof {
        match layout_from(l@, 0) {
            Ok(s) => {
                assert(Seq::<char>::empty() + s =~= s);
            },
            Err(_) => {},
        }
    }
    while i < l.len()
        invariant
            0 <= i <= l.len(),
            l@ == layout@,
            spec_layout(l@) == prepend(out@, layout_from(l@, i as int)),
        decreases l.len() - i,
    {
        let c = l[i];
        let ghost before = out@;
        if c == '\'' {
            let mut e = i + 1;
            while e < l.len() && l[e] != '\''
                invariant
                    i < e <= l.len(),
                    forall|k: int| i < k < e ==> l@[k] != '\'',
                decreases l.len() - e,
            {
                e = e + 1;
            }
            proof {
                lemma_next_quote(l@, i + 1);
            }
            if e < l.len() {
                push_literal(&mut out, &l, i + 1, e);
                proof {
                    lemma_prepend_assoc(before, escape_pct(l@.subrange(i + 1, e as int)), layout_from(l@, e + 1));
                }
                i = e + 1;
            } else {
                push_literal(&mut out, &l, i + 1, l.len());
                proof {
                    assert(l@.skip(i + 1) =~= l@.subrange(i + 1, l@.len() as int));
                    assert(layout_from(l@, l@.len() as int) == Ok::<Seq<char>, Seq<char>>(Seq::empty()));
                    assert(out@ + Seq::<char>::empty() =~= out@);
                }
                i = l.len();
            }
        } else if c == '\\' {
            if i + 1 < l.len() {
                push_literal_char(&mut out, l[i + 1]);
                proof {
                    lemma_prepend_assoc(before, escape_pct_char(l@[i + 1]), layout_from(l@, i + 2));
                }
                i = i + 2;
            } else {
                out.push('\\');
                proof {
                    assert(out@ + Seq::<char>::empty() =~= before + seq!['\\']);
                }
                i = l.len();
            }
        } else if ('a' <= c && c <= 'z') || ('A' <= c && c <= 'Z') {
            let mut e = i + 1;
            while e < l.len() && l[e] == c
                invariant
                    i < e <= l.len(),
                    c == l@[i as int],
                    forall|k: int| i <= k < e ==> l@[k] == c,
                    run_end(l@, i as int) == run_end(l@, e - 1),
                decreases l.len() - e,
            {
                e = e + 1;
            }
            let run = copy_range(&l, i, e);
            proof {
                lemma_run_end(l@, i as int);
            }
            match directive_of(&run) {
                Some(d) => {
                    push_str(&mut out, d);
                    proof {
                        lemma_prepend_assoc(before, d@, layout_from(l@, e as int));
                    }
                    i = e;
                },
                None => {
                    let mut reason: Vec<char> = Vec::new();
                    push_str(&mut reason, "unrecognized letter run ");
                    push_debug_quoted(&mut reason, &run);
                    push_str(&mut reason, " in time layout ");
                    push_debug_quoted(&mut reason, &l);
                    proof {
                        assert(reason@ =~= bad_run_reason(run@, layout@));
                    }
                    return Err(CardigannError::Definition { reason: string_of(reason.as_slice()) });
                },
            }
        } else {
            push_literal_char(&mut out, c);
            proof {
                lemma_prepend_assoc(before, escape_pct_char(c), layout_from(l@, i + 1));
            }
            i = i + 1;
        }
    }
    proof {
        assert(out@ + Seq::<char>::empty() =~= out@);
    }
    Ok(string_of(out.as_slice()))
}

proof fn lemma_escape_pct_front(c: char, s: Seq<char>)
    ensures
        escape_pct(seq![c] + s) == escape_pct_char(c) + escape_pct(s),
    decreases s.len(),
{
    if s.len() == 0 {
        assert(seq![c] + s =~= seq![c]);
        assert(seq![c].drop_last() =~= Seq::<char>::empty());
        assert(escape_pct(Seq::<char>::empty()) == Seq::<char>::empty());
        assert(escape_pct(seq![c]) == escape_pct(seq![c].drop_last()) + escape_pct_char(c));
        assert(escape_pct_char(c) + Seq::<char>::empty() =~= escape_pct_char(c));
        assert(Seq::<char>::empty() + escape_pct_char(c) =~= escape_pct_char(c));
    } else {
        lemma_escape_pct_front(c, s.drop_last());
        let whole = seq![c] + s;
        assert(whole.drop_last() =~= seq![c] + s.drop_last());
        assert(whole.last() == s.last());
        assert(escape_pct(whole) == escape_pct(whole.drop_last()) + escape_pct_char(whole.last()));
        assert(escape_pct_char(c) + escape_pct(s.drop_last()) + escape_pct_char(s.last()) =~= escape_pct_char(
            c,
        ) + (escape_pct(s.drop_last()) + escape_pct_char(s.last())));
    }
}

/// Whether a layout holds nothing but literal characters: no ASCII letter,
/// no quote and no backslash.
pub open spec fn only_literals(l: Seq<char>) -> bool {
    forall|k: int| 0 <= k < l.len() ==> !is_ascii_alpha(#[trigger] l[k]) && l[k] != '\'' && l[k] != '\\'
}

proof fn lemma_literal_tail(l: Seq<char>, i: int)
    requires
        only_literals(l),
        0 <= i <= l.len(),
    ensures
        layout_from(l, i) == Ok::<Seq<char>, Seq<char>>(escape_pct(l.skip(i))),
    decreases l.len() - i,
{
    if i == l.len() {
        assert(l.skip(i) =~= Seq::<char>::empty());
    } else {
        lemma_literal_tail(l, i + 1);
        assert(l.skip(i) =~= seq![l[i]] + l.skip(i + 1));
        lemma_escape_pct_front(l[i], l.skip(i + 1));
    }
}

/// A layout of literal characters only (no ASCII letter, quote or
/// backslash) translates to itself with each `%` doubled.
pub proof fn law_literal_layout_only_doubles_percent(l: Seq<char>)
    requires
        only_literals(l),
    ensures
        spec_layout(l) == Ok::<Seq<char>, Seq<char>>(escape_pct(l)),
{
    lemma_literal_tail(l, 0);
    assert(l.skip(0) =~= l);
}

} // verus!
