//! The decisions of the `oxidarr-migrate` command line: reading its flags
//! and the report lines it prints.
//!
//! ```text
//! oxidarr-migrate --db <path>            apply pending migrations
//! oxidarr-migrate --db <path> --status   report applied/pending, read-only
//! ```
use vstd::prelude::*;

use crate::model::{decimal, int_to_string};
use crate::text::{chars_of, push_all, push_str, string_of, word_is};

verus! {

/// The usage line printed for a command line that does not parse.
pub const USAGE: &'static str = "usage: oxidarr-migrate --db <path> [--status]";

/// The parsed command line.
#[derive(Debug, Clone, PartialEq, Eq)]
pub struct Args {
    /// The database file.
    pub db: String,
    /// Report status instead of migrating.
    pub status: bool,
}

/// The command line from position `i` on, given the flags read so far: a
/// later `--db` replaces an earlier one; anything but `--db <path>` and
/// `--status` is an error, and so is a missing `--db`.
pub open spec fn parse_from(args: Seq<Seq<char>>, i: int, db: Option<Seq<char>>, status: bool) -> Result<
    (Seq<char>, bool),
    (),
>
    decreases args.len() - i,
{
    if i < 0 || i >= args.len() {
        match db {
            Some(d) => Ok((d, status)),
            None => Err(()),
        }
    } else if args[i] == "--db"@ {
        if i + 1 < args.len() {
            parse_from(args, i + 2, Some(args[i + 1]), status)
        } else {
            Err(())
        }
    } else if args[i] == "--status"@ {
        parse_from(args, i + 1, db, true)
    } else {
        Err(())
    }
}

pub open spec fn spec_parse_args(args: Seq<Seq<char>>) -> Result<(Seq<char>, bool), ()> {
    parse_from(args, 0, None, false)
}

/// Parses the command line (without the program name).
pub fn parse_args(args: &[String]) -> (r: Result<Args, ()>)
    ensures
        match spec_parse_args(args@.map_values(|s: String| s@)) {
            Ok((db, status)) => r matches Ok(a) && a.db@ == db && a.status == status,
            Err(_) => r is Err,
        },
{
    let ghost av = args@.map_values(|s: String| s@);
    let mut db: Option<String> = None;
    let mut status = false;
    let mut i: usize = 0;
    while i < args.len()
        invariant
            0 <= i <= args.len(),
            av == args@.map_values(|s: String| s@),
            spec_parse_args(av) == parse_from(
                av,
                i as int,
                match db {
                    Some(d) => Some(d@),
                    None => None,
                },
                status,
            ),
        decreases args.len() - i,
    {
        let a = chars_of(args[i].as_str());
        if word_is(&a, "--db") {
            if i + 1 < args.len() {
                db = Some(String::from_str(args[i + 1].as_str()));
                i = i + 2;
            } else {
                return Err(());
            }
        } else if word_is(&a, "--status") {
            status = true;
            i = i + 1;
        } else {
            return Err(());
        }
    }
    match db {
        Some(d) => Ok(Args { db: d, status }),
        None => Err(()),
    }
}

/// `v` written as `{:04}` writes it: zero-padded to four characters,
/// after the sign.
pub open spec fn padded4(v: int) -> Seq<char> {
    let d = decimal(if v < 0 { -v } else { v });
    let width: int = if v < 0 { 3 } else { 4 };
    let zeros = Seq::new(if d.len() < width { (width - d.len()) as nat } else { 0 }, |i: int| '0');
    if v < 0 {
        seq!['-'] + zeros + d
    } else {
        zeros + d
    }
}

fn push_padded4(out: &mut Vec<char>, v: i64)
    ensures
        final(out)@ == old(out)@ + padded4(v as int),
{
    let mag: i64 = if v < 0 { if v == i64::MIN { 0 } else { -v } } else { v };
    let ghost start = out@;
    let d = if v == i64::MIN {
        chars_of("9223372036854775808")
    } else {
        chars_of(int_to_string(mag).as_str())
    };
    proof {
        if v == i64::MIN {
            reveal_strlit("9223372036854775808");
            assert(decimal(-(v as int)) == crate::model::digits(9223372036854775808nat)) by {
                reveal_with_fuel(crate::model::digits, 20);
            }
            assert(d@ =~= decimal(-(v as int))) by {
                reveal_with_fuel(crate::model::digits, 20);
            }
        }
    }
    let width: usize = if v < 0 { 3 } else { 4 };
    if v < 0 {
        out.push('-');
    }
    let mut k: usize = d.len();
    let ghost before_zeros = out@;
    while k < width
        invariant
            d.len() <= k <= width || (width <= d.len() && k == d.len()),
            out@ == before_zeros + Seq::new((k - d.len()) as nat, |i: int| '0'),
        decreases width - k,
    {
        out.push('0');
        assert(out@ =~= before_zeros + Seq::new((k + 1 - d.len()) as nat, |i: int| '0'));
        k = k + 1;
    }
    push_all(out, &d);
    assert(out@ =~= start + padded4(v as int));
}

/// One migration the binary embeds: its version and description.
pub type Migration = (i64, String);

/// The line for one migration: `{state} {version:04}_{description}`.
pub open spec fn migration_line(state: Seq<char>, m: (i64, Seq<char>)) -> Seq<char> {
    state + seq![' '] + padded4(m.0 as int) + seq!['_'] + m.1
}

fn line(state: &str, m: &Migration) -> (r: String)
    ensures
        r@ == migration_line(state@, (m.0, m.1@)),
{
    let mut out: Vec<char> = Vec::new();
    push_str(&mut out, state);
    out.push(' ');
    push_padded4(&mut out, m.0);
    out.push('_');
    push_all(&mut out, &chars_of(m.1.as_str()));
    assert(out@ =~= migration_line(state@, (m.0, m.1@)));
    string_of(out.as_slice())
}

fn contains_version(v: &[i64], x: i64) -> (r: bool)
    ensures
        r == v@.contains(x),
{
    let mut i: usize = 0;
    while i < v.len()
        invariant
            0 <= i <= v.len(),
            forall|j: int| 0 <= j < i ==> v@[j] != x,
        decreases v.len() - i,
    {
        if v[i] == x {
            return true;
        }
        i = i + 1;
    }
    false
}

pub open spec fn migrations_view(ms: Seq<Migration>) -> Seq<(i64, Seq<char>)> {
    ms.map_values(|m: Migration| (m.0, m.1@))
}

/// `--status`: one `applied` or `pending` line per embedded migration, in
/// order.
pub open spec fn spec_status_lines(ms: Seq<(i64, Seq<char>)>, applied: Seq<i64>) -> Seq<Seq<char>> {
    ms.map_values(
        |m: (i64, Seq<char>)|
            migration_line(if applied.contains(m.0) { "applied"@ } else { "pending"@ }, m),
    )
}

/// The lines `--status` prints for the embedded migrations `ms`, given the
/// versions already applied.
pub fn status_lines(ms: &[Migration], applied: &[i64]) -> (r: Vec<String>)
    ensures
        r@.map_values(|s: String| s@) == spec_status_lines(migrations_view(ms@), applied@),
{
    let mut out: Vec<String> = Vec::new();
    let mut i: usize = 0;
    while i < ms.len()
        invariant
            0 <= i <= ms.len(),
            out@.len() == i,
            forall|j: int| 0 <= j < i ==> #[trigger] out@[j]@ == migration_line(
                if applied@.contains(ms@[j].0) { "applied"@ } else { "pending"@ },
                (ms@[j].0, ms@[j].1@),
            ),
        decreases ms.len() - i,
    {
        let state = if contains_version(applied, ms[i].0) { "applied" } else { "pending" };
        out.push(line(state, &ms[i]));
        i = i + 1;
    }
    assert(out@.map_values(|s: String| s@) =~= spec_status_lines(migrations_view(ms@), applied@));
    out
}

/// The lines for the migrations of `ms` applied now (present in `after`,
/// absent from `before`), in order.
pub open spec fn newly_applied(ms: Seq<(i64, Seq<char>)>, before: Seq<i64>, after: Seq<i64>) -> Seq<Seq<char>>
    decreases ms.len(),
{
    if ms.len() == 0 {
        Seq::empty()
    } else {
        let r = newly_applied(ms.drop_last(), before, after);
        let m = ms.last();
        if after.contains(m.0) && !before.contains(m.0) {
            r.push(migration_line("applied"@, m))
        } else {
            r
        }
    }
}

/// A migration run's report: the newly applied lines, or `up to date` when
/// there is none.
pub open spec fn spec_migrate_lines(ms: Seq<(i64, Seq<char>)>, before: Seq<i64>, after: Seq<i64>) -> Seq<Seq<char>> {
    let news = newly_applied(ms, before, after);
    if news.len() == 0 {
        seq!["up to date"@]
    } else {
        news
    }
}

/// The lines a migration run prints, given the versions applied before and
/// after it.
pub fn migrate_lines(ms: &[Migration], before: &[i64], after: &[i64]) -> (r: Vec<String>)
    ensures
        r@.map_values(|s: String| s@) == spec_migrate_lines(migrations_view(ms@), before@, after@),
{
    let ghost mv = migrations_view(ms@);
    let mut out: Vec<String> = Vec::new();
    let mut i: usize = 0;
    assert(mv.take(0) =~= Seq::<(i64, Seq<char>)>::empty());
    assert(out@.map_values(|s: String| s@) =~= Seq::<Seq<char>>::empty());
    while i < ms.len()
        invariant
            0 <= i <= ms.len(),
            mv == migrations_view(ms@),
            mv.len() == ms@.len(),
            out@.map_values(|s: String| s@) == newly_applied(mv.take(i as int), before@, after@),
        decreases ms.len() - i,
    {
        assert(mv.take(i + 1).drop_last() =~= mv.take(i as int));
        assert(mv.take(i + 1).last() == (ms@[i as int].0, ms@[i as int].1@));
        if contains_version(after, ms[i].0) && !contains_version(before, ms[i].0) {
            let l = line("applied", &ms[i]);
            let ghost o0 = out@;
            out.push(l);
            assert(out@.map_values(|s: String| s@) =~= o0.map_values(|s: String| s@).push(l@));
        }
        i = i + 1;
    }
    assert(mv.take(mv.len() as int) =~= mv);
    if out.len() == 0 {
        let mut u: Vec<String> = Vec::new();
        u.push(String::from_str("up to date"));
        assert(u@.map_values(|s: String| s@) =~= seq!["up to date"@]);
        return u;
    }
    out
}

proof fn lemma_db_appended(args: Seq<Seq<char>>, p: Seq<char>, i: int, db: Option<Seq<char>>, status: bool)
    requires
        0 <= i <= args.len(),
        parse_from(args, i, db, status) is Ok,
    ensures
        parse_from(args + seq!["--db"@, p], i, db, status) == Ok::<(Seq<char>, bool), ()>(
            (p, parse_from(args, i, db, status)->Ok_0.1),
        ),
    decreases args.len() - i,
{
    let ext = args + seq!["--db"@, p];
    if i == args.len() {
        assert(ext[i] == "--db"@);
        assert(ext[i + 1] == p);
        assert(parse_from(ext, i + 2, Some(p), status) == Ok::<(Seq<char>, bool), ()>((p, status)));
    } else {
        assert(ext[i] == args[i]);
        if args[i] == "--db"@ {
            assert(ext[i + 1] == args[i + 1]);
            lemma_db_appended(args, p, i + 2, Some(args[i + 1]), status);
        } else {
            lemma_db_appended(args, p, i + 1, db, true);
        }
    }
}

/// A `--db` flag added at the end of a command line that parses replaces
/// the database path and keeps the `--status` flag: a later `--db` wins.
pub proof fn law_later_db_wins(args: Seq<Seq<char>>, p: Seq<char>)
    requires
        spec_parse_args(args) is Ok,
    ensures
        spec_parse_args(args + seq!["--db"@, p]) == Ok::<(Seq<char>, bool), ()>(
            (p, spec_parse_args(args)->Ok_0.1),
        ),
{
    lemma_db_appended(args, p, 0, None, false);
}

} // verus!
