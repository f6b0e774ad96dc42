//! Regular expressions for `re_replace`/`regexp`, backed by two engines.
//!
//! Cardigann definitions were written against .NET's regex engine, which
//! supports look-around. The linear-time `regex` crate refuses those
//! constructs, so a pattern is compiled with `regex` first and only the
//! patterns it refuses go to the backtracking `fancy-regex` engine.
//!
//! The engines themselves are outside code: what a compiled pattern matches
//! is named (see the `*_result` spec functions below), and the choice of
//! engine, the error text and the dispatch are verified here.
use vstd::prelude::*;

verus! {

#[verifier::external_type_specification]
#[verifier::external_body]
pub struct ExRegex(regex::Regex);

#[verifier::external_type_specification]
#[verifier::external_body]
pub struct ExFancyRegex(fancy_regex::Regex);

/// What `regex::Regex::new` answers for a pattern: `Ok` when it compiles,
/// else the error's display text.
pub uninterp spec fn fast_compile_result(pattern: Seq<char>) -> Result<(), Seq<char>>;

/// What `regex::Regex::replace_all` returns for a compiled pattern.
pub uninterp spec fn fast_replace_result(
    pattern: Seq<char>,
    input: Seq<char>,
    replacement: Seq<char>,
) -> Seq<char>;

/// What `regex::Regex::captures` finds: on a match, the text of its group
/// 1 and of its group 0 (each `None` where the group took part in no match).
pub uninterp spec fn fast_captures_result(pattern: Seq<char>, input: Seq<char>) -> Option<
    (Option<Seq<char>>, Option<Seq<char>>),
>;

/// What `fancy_regex::Regex::new` answers for a pattern.
pub uninterp spec fn fancy_compile_result(pattern: Seq<char>) -> Result<(), Seq<char>>;

/// What `fancy_regex::Regex::try_replacen(_, 0, _)` answers for a compiled
/// pattern (an error only when its backtracking limit is exceeded).
pub uninterp spec fn fancy_replace_result(
    pattern: Seq<char>,
    input: Seq<char>,
    replacement: Seq<char>,
) -> Result<Seq<char>, Seq<char>>;

/// What `fancy_regex::Regex::captures` answers: on a match, the text of
/// its group 1 and of its group 0; an engine error by its display text.
pub uninterp spec fn fancy_captures_result(pattern: Seq<char>, input: Seq<char>) -> Result<
    Option<(Option<Seq<char>>, Option<Seq<char>>)>,
    Seq<char>,
>;

/// The groups a capture gives, by their text.
pub open spec fn groups_view(c: Option<(Option<String>, Option<String>)>) -> Option<
    (Option<Seq<char>>, Option<Seq<char>>),
> {
    match c {
        None => None,
        Some((g1, g0)) => Some(
            (
                match g1 {
                    Some(t) => Some(t@),
                    None => None,
                },
                match g0 {
                    Some(t) => Some(t@),
                    None => None,
                },
            ),
        ),
    }
}

/// Group 1 of a capture, or else its whole match; nothing without a match.
pub open spec fn group_choice(c: Option<(Option<Seq<char>>, Option<Seq<char>>)>) -> Option<
    Seq<char>,
> {
    match c {
        None => None,
        Some((g1, g0)) => if g1 is Some {
            g1
        } else {
            g0
        },
    }
}

/// A pattern compiled by the linear-time engine, with its source text.
pub struct FastRegex {
    source: String,
    re: regex::Regex,
}

impl View for FastRegex {
    type V = Seq<char>;

    closed spec fn view(&self) -> Seq<char> {
        self.source@
    }
}

/// A pattern compiled by the backtracking engine, with its source text.
pub struct FancyRegex {
    source: String,
    re: fancy_regex::Regex,
}

impl View for FancyRegex {
    type V = Seq<char>;

    closed spec fn view(&self) -> Seq<char> {
        self.source@
    }
}

/// Compiles `pattern` with `regex::Regex::new`; the error is its display text.
#[verifier::external_body]
fn fast_compile(pattern: &str) -> (r: Result<FastRegex, String>)
    ensures
        match r {
            Ok(re) => re@ == pattern@ && fast_compile_result(pattern@) is Ok,
            Err(e) => fast_compile_result(pattern@) == Err::<(), Seq<char>>(e@),
        },
{
    match regex::Regex::new(pattern) {
        Ok(re) => Ok(FastRegex { source: pattern.to_string(), re }),
        Err(e) => Err(e.to_string()),
    }
}

/// Compiles `pattern` with `fancy_regex::Regex::new`.
#[verifier::external_body]
fn fancy_compile(pattern: &str) -> (r: Result<FancyRegex, String>)
    ensures
        match r {
            Ok(re) => re@ == pattern@ && fancy_compile_result(pattern@) is Ok,
            Err(e) => fancy_compile_result(pattern@) == Err::<(), Seq<char>>(e@),
        },
{
    match fancy_regex::Regex::new(pattern) {
        Ok(re) => Ok(FancyRegex { source: pattern.to_string(), re }),
        Err(e) => Err(e.to_string()),
    }
}

/// `regex::Regex::replace_all`, expanding `$1`-style references.
#[verifier::external_body]
fn fast_replace(re: &FastRegex, input: &str, replacement: &str) -> (r: String)
    ensures
        r@ == fast_replace_result(re@, input@, replacement@),
{
    re.re.replace_all(input, replacement).into_owned()
}

/// `fancy_regex::Regex::try_replacen` with no limit.
#[verifier::external_body]
fn fancy_replace(re: &FancyRegex, input: &str, replacement: &str) -> (r: Result<String, String>)
    ensures
        match r {
            Ok(s) => fancy_replace_result(re@, input@, replacement@) == Ok::<Seq<char>, Seq<char>>(
                s@,
            ),
            Err(e) => fancy_replace_result(re@, input@, replacement@) == Err::<
                Seq<char>,
                Seq<char>,
            >(e@),
        },
{
    match re.re.try_replacen(input, 0, replacement) {
        Ok(s) => Ok(s.into_owned()),
        Err(e) => Err(e.to_string()),
    }
}

/// `regex::Regex::captures`: on a match, the text of groups 1 and 0. Its
/// result is named [`fast_captures_result`].
#[verifier::external_body]
fn fast_captures(re: &FastRegex, input: &str) -> (r: Option<(Option<String>, Option<String>)>)
    ensures
        groups_view(r) == fast_captures_result(re@, input@),
{
    re.re.captures(input).map(
        |c| (c.get(1).map(|m| m.as_str().to_string()), c.get(0).map(|m| m.as_str().to_string())),
    )
}

/// `fancy_regex::Regex::captures`: on a match, the text of groups 1 and 0;
/// an engine error by its display text. Its result is named
/// [`fancy_captures_result`].
#[verifier::external_body]
fn fancy_captures(re: &FancyRegex, input: &str) -> (r: Result<
    Option<(Option<String>, Option<String>)>,
    String,
>)
    ensures
        match r {
            Ok(c) => fancy_captures_result(re@, input@) == Ok::<
                Option<(Option<Seq<char>>, Option<Seq<char>>)>,
                Seq<char>,
            >(groups_view(c)),
            Err(e) => fancy_captures_result(re@, input@) == Err::<
                Option<(Option<Seq<char>>, Option<Seq<char>>)>,
                Seq<char>,
            >(e@),
        },
{
    match re.re.captures(input) {
        Ok(c) => Ok(c.map(
            |c| (c.get(1).map(|m| m.as_str().to_string()), c.get(0).map(|m| m.as_str().to_string())),
        )),
        Err(e) => Err(e.to_string()),
    }
}

/// Group 1 of a capture, or else its whole match.
fn choose_group(c: Option<(Option<String>, Option<String>)>) -> (r: Option<String>)
    ensures
        match r {
            Some(s) => group_choice(groups_view(c)) == Some(s@),
            None => group_choice(groups_view(c)) is None,
        },
{
    match c {
        None => None,
        Some((g1, g0)) => match g1 {
            Some(t) => Some(t),
            None => g0,
        },
    }
}

/// A compiled regex, backed by whichever engine accepts the pattern.
pub enum Pattern {
    /// Linear-time engine, used whenever the pattern permits it.
    Fast(Box<FastRegex>),
    /// Backtracking engine, used only for patterns the fast engine refuses.
    Fancy(Box<FancyRegex>),
}

impl View for Pattern {
    type V = Seq<char>;

    open spec fn view(&self) -> Seq<char> {
        match self {
            Pattern::Fast(re) => re@,
            Pattern::Fancy(re) => re@,
        }
    }
}

/// The text `Pattern::compile` reports when both engines refuse a pattern.
pub open spec fn both_refused(fast: Seq<char>, fancy: Seq<char>) -> Seq<char> {
    fast + " (fancy-regex: "@ + fancy + ")"@
}

/// Whether (and why not) `pattern` compiles: the fast engine's verdict,
/// falling back to the backtracking engine.
pub open spec fn spec_compile(pattern: Seq<char>) -> Result<(), Seq<char>> {
    match fast_compile_result(pattern) {
        Ok(_) => Ok(()),
        Err(fast) => match fancy_compile_result(pattern) {
            Ok(_) => Ok(()),
            Err(fancy) => Err(both_refused(fast, fancy)),
        },
    }
}

/// The result of replacing every match of a compiled `pattern` in `input`.
pub open spec fn spec_replace_all(pattern: Seq<char>, input: Seq<char>, replacement: Seq<char>) -> Result<
    Seq<char>,
    Seq<char>,
> {
    if fast_compile_result(pattern) is Ok {
        Ok(fast_replace_result(pattern, input, replacement))
    } else {
        fancy_replace_result(pattern, input, replacement)
    }
}

/// The first capture group (or whole match) of a compiled `pattern` in
/// `input`; a backtracking-engine error counts as no match.
pub open spec fn spec_first_group(pattern: Seq<char>, input: Seq<char>) -> Option<Seq<char>> {
    if fast_compile_result(pattern) is Ok {
        group_choice(fast_captures_result(pattern, input))
    } else {
        match fancy_captures_result(pattern, input) {
            Ok(c) => group_choice(c),
            Err(_) => None,
        }
    }
}

impl Pattern {
    /// A pattern is well formed when the engine it uses is the one
    /// `compile` would pick for its source.
    pub open spec fn wf(&self) -> bool {
        match self {
            Pattern::Fast(_) => fast_compile_result(self@) is Ok,
            Pattern::Fancy(_) => !(fast_compile_result(self@) is Ok) && fancy_compile_result(
                self@,
            ) is Ok,
        }
    }

    /// Compiles `pattern`, preferring the linear-time engine. Fails only
    /// when both engines reject it.
    pub fn compile(pattern: &str) -> (r: Result<Pattern, String>)
        ensures
            match r {
                Ok(p) => p.wf() && p@ == pattern@ && spec_compile(pattern@) is Ok,
                Err(e) => spec_compile(pattern@) == Err::<(), Seq<char>>(e@),
            },
    {
        match fast_compile(pattern) {
            Ok(re) => Ok(Pattern::Fast(Box::new(re))),
            Err(fast_err) => match fancy_compile(pattern) {
                Ok(re) => Ok(Pattern::Fancy(Box::new(re))),
                Err(fancy_err) => {
                    let mut msg = fast_err;
                    msg.append(" (fancy-regex: ");
                    msg.append(fancy_err.as_str());
                    msg.append(")");
                    Err(msg)
                },
            },
        }
    }

    /// Replaces every match, expanding `$1`-style backreferences. Only the
    /// backtracking engine can fail (by exceeding its backtracking limit).
    pub fn replace_all(&self, input: &str, replacement: &str) -> (r: Result<String, String>)
        requires
            self.wf(),
        ensures
            match r {
                Ok(s) => spec_replace_all(self@, input@, replacement@) == Ok::<
                    Seq<char>,
                    Seq<char>,
                >(s@),
                Err(e) => spec_replace_all(self@, input@, replacement@) == Err::<
                    Seq<char>,
                    Seq<char>,
                >(e@),
            },
    {
        match self {
            Pattern::Fast(re) => Ok(fast_replace(re, input, replacement)),
            Pattern::Fancy(re) => fancy_replace(re, input, replacement),
        }
    }

    /// The first capture group, or the whole match when there is none.
    pub fn first_group(&self, input: &str) -> (r: Option<String>)
        requires
            self.wf(),
        ensures
            match r {
                Some(s) => spec_first_group(self@, input@) == Some(s@),
                None => spec_first_group(self@, input@) is None,
            },
    {
        match self {
            Pattern::Fast(re) => choose_group(fast_captures(re, input)),
            Pattern::Fancy(re) => match fancy_captures(re, input) {
                Ok(c) => choose_group(c),
                Err(_) => None,
            },
        }
    }
}

} // verus!
