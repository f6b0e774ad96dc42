//! The Cardigann v11 definition schema, as plain data.
//!
//! Reading YAML into these types is the application's job; a key/value
//! table of the schema is held as a list of pairs in file order.
use vstd::prelude::*;

use crate::text::string_of;

verus! {

/// A complete Cardigann v11 indexer definition, as far as searching and
/// logging in read it.
#[derive(Debug, Clone)]
pub struct Definition {
    pub id: String,
    pub name: String,
    pub description: String,
    pub language: String,
    pub kind: String,
    pub encoding: String,
    pub links: Vec<String>,
    pub legacylinks: Vec<String>,
    pub caps: Caps,
    pub settings: Vec<Setting>,
    pub search: Search,
    pub login: Option<Login>,
}

/// A user-configurable setting rendered in the UI.
#[derive(Debug, Clone)]
pub struct Setting {
    pub name: String,
    pub kind: String,
    pub label: String,
    /// The declared `default:`, as text.
    pub default: Option<String>,
    pub options: Vec<(String, String)>,
}

/// Whether a search path declares a JSON response.
pub open spec fn path_is_json(p: SearchPath) -> bool {
    match p.response {
        Some(t) => t@ == "json"@,
        None => false,
    }
}

impl Definition {
    /// Whether the search declares a JSON response on any path.
    pub open spec fn spec_declares_json(&self) -> bool {
        exists|i: int| 0 <= i < self.search.paths@.len() && path_is_json(#[trigger] self.search.paths@[i])
    }

    /// Whether the search declares a JSON response on any path.
    pub fn declares_json_response(&self) -> (r: bool)
        ensures
            r == self.spec_declares_json(),
    {
        let mut i: usize = 0;
        while i < self.search.paths.len()
            invariant
                0 <= i <= self.search.paths.len(),
                forall|j: int| 0 <= j < i ==> !path_is_json(#[trigger] self.search.paths@[j]),
            decreases self.search.paths.len() - i,
        {
            match &self.search.paths[i].response {
                Some(t) => {
                    if crate::text::word_is(&crate::text::chars_of(t.as_str()), "json") {
                        assert(path_is_json(self.search.paths@[i as int]));
                        return true;
                    }
                },
                None => {},
            }
            i = i + 1;
        }
        false
    }
}

/// Declared search capabilities and category mappings.
#[derive(Debug, Clone)]
pub struct Caps {
    pub categorymappings: Vec<CategoryMapping>,
    pub modes: Vec<(String, Vec<String>)>,
}

/// Maps a tracker's own category id onto a Newznab category.
#[derive(Debug, Clone)]
pub struct CategoryMapping {
    pub id: String,
    pub cat: String,
    pub desc: String,
    /// Whether this tracker category is searched when no category is asked for.
    pub default: bool,
}

/// How to perform a search and read its results.
#[derive(Debug, Clone)]
pub struct Search {
    pub paths: Vec<SearchPath>,
    /// The shorthand single `path:`, used when `paths` is empty.
    pub path: Option<String>,
    pub inputs: Vec<(String, String)>,
    /// Whether an input that renders empty is still sent.
    pub allow_empty_inputs: bool,
    pub keywordsfilters: Vec<FilterSpec>,
    pub headers: Vec<(String, Vec<String>)>,
    pub rows: Rows,
    pub fields: Vec<(String, Field)>,
    /// Rules that recognise a search answered with a login page.
    pub error: Vec<ErrorRule>,
}

/// One request path, optionally templated.
#[derive(Debug, Clone)]
pub struct SearchPath {
    pub path: String,
    pub method: Option<String>,
    pub inputs: Vec<(String, String)>,
    /// Tracker category ids this path is limited to (none: any).
    pub categories: Vec<String>,
    /// The declared response `type:` (such as `json`).
    pub response: Option<String>,
    /// Whether a redirect answering this path is followed.
    pub followredirect: Option<bool>,
}

/// How to locate result rows in a response.
#[derive(Debug, Clone)]
pub struct Rows {
    pub selector: String,
    pub attribute: Option<String>,
    pub filters: Vec<FilterSpec>,
    pub after: Option<usize>,
    pub count: Option<Count>,
}

/// A row count, either given directly or read out of the response via a
/// selector (e.g. a JSON path into an API response body).
#[derive(Debug, Clone)]
pub enum Count {
    Literal(usize),
    Selector { selector: String },
}

/// How to extract one field from a row.
#[derive(Debug, Clone)]
pub struct Field {
    pub selector: Option<String>,
    pub attribute: Option<String>,
    /// Elements (with their subtrees) left out of the text read.
    pub remove: Option<String>,
    pub text: Option<String>,
    /// Selector/value pairs: the first selector that matches the row gives
    /// the value (`*` matches any row).
    pub case: Option<Vec<(String, String)>>,
    /// Used when the value is still empty after the filters.
    pub default: Option<String>,
    pub optional: bool,
    pub filters: Vec<FilterSpec>,
}

/// A `{name, args}` filter invocation from a definition.
#[derive(Debug, Clone)]
pub struct FilterSpec {
    pub name: String,
    pub args: FilterArgs,
}

/// Filter arguments are variously a scalar, a list, or absent.
#[derive(Debug, Clone)]
pub enum FilterArgs {
    Empty,
    One(FilterArg),
    Many(Vec<FilterArg>),
}

/// A single item within a filter's `args:` list: most are strings, but
/// filters like `split` take a bare integer index.
#[derive(Debug, Clone)]
pub enum FilterArg {
    Text(String),
    Number(i64),
}

/// The decimal digits of a natural number.
pub open spec fn digits(n: nat) -> Seq<char>
    decreases n,
{
    if n < 10 {
        seq![digit_char(n)]
    } else {
        digits(n / 10) + seq![digit_char(n % 10)]
    }
}

pub open spec fn digit_char(d: nat) -> char {
    if d == 0 { '0' } else if d == 1 { '1' } else if d == 2 { '2' } else if d == 3 { '3' }
    else if d == 4 { '4' } else if d == 5 { '5' } else if d == 6 { '6' } else if d == 7 { '7' }
    else if d == 8 { '8' } else { '9' }
}

/// An integer written in decimal, with a leading `-` when negative.
pub open spec fn decimal(n: int) -> Seq<char> {
    if n < 0 {
        seq!['-'] + digits((-n) as nat)
    } else {
        digits(n as nat)
    }
}

fn digit_of(d: u64) -> (c: char)
    requires
        d < 10,
    ensures
        c == digit_char(d as nat),
{
    if d == 0 { '0' } else if d == 1 { '1' } else if d == 2 { '2' } else if d == 3 { '3' }
    else if d == 4 { '4' } else if d == 5 { '5' } else if d == 6 { '6' } else if d == 7 { '7' }
    else if d == 8 { '8' } else { '9' }
}

/// Appends the decimal digits of `n`.
pub(crate) fn push_digits(out: &mut Vec<char>, n: u64)
    ensures
        final(out)@ == old(out)@ + digits(n as nat),
    decreases n,
{
    if n < 10 {
        out.push(digit_of(n));
    } else {
        push_digits(out, n / 10);
        out.push(digit_of(n % 10));
    }
}

/// An `i64` in decimal, as `Display` writes it.
pub fn int_to_string(n: i64) -> (r: String)
    ensures
        r@ == decimal(n as int),
{
    let mut out: Vec<char> = Vec::new();
    if n < 0 {
        out.push('-');
        let m: u64 = if n == i64::MIN {
            9223372036854775808u64
        } else {
            (-n) as u64
        };
        push_digits(&mut out, m);
    } else {
        push_digits(&mut out, n as u64);
        assert(out@ =~= digits(n as nat));
    }
    string_of(out.as_slice())
}

impl FilterArg {
    /// The argument as text: a string as it is, a number in decimal.
    pub open spec fn text_view(&self) -> Seq<char> {
        match self {
            FilterArg::Text(s) => s@,
            FilterArg::Number(n) => decimal(*n as int),
        }
    }

    /// The argument as text (its display form).
    pub fn to_string(&self) -> (r: String)
        ensures
            r@ == self.text_view(),
    {
        match self {
            FilterArg::Text(s) => s.clone(),
            FilterArg::Number(n) => int_to_string(*n),
        }
    }
}

impl FilterArgs {
    /// The arguments as a flat list of texts.
    pub open spec fn texts(&self) -> Seq<Seq<char>> {
        match self {
            FilterArgs::Empty => Seq::empty(),
            FilterArgs::One(a) => seq![a.text_view()],
            FilterArgs::Many(v) => v@.map_values(|a: FilterArg| a.text_view()),
        }
    }

    /// Normalises arguments into a flat list.
    pub fn to_vec(&self) -> (r: Vec<String>)
        ensures
            r@.map_values(|s: String| s@) == self.texts(),
    {
        match self {
            FilterArgs::Empty => {
                let r: Vec<String> = Vec::new();
                assert(r@.map_values(|s: String| s@) =~= self.texts());
                r
            },
            FilterArgs::One(a) => {
                let mut r: Vec<String> = Vec::new();
                r.push(a.to_string());
                assert(r@.map_values(|s: String| s@) =~= self.texts());
                r
            },
            FilterArgs::Many(v) => {
                let mut r: Vec<String> = Vec::new();
                let mut i: usize = 0;
                while i < v.len()
                    invariant
                        0 <= i <= v.len(),
                        r@.len() == i,
                        forall|j: int| 0 <= j < i ==> #[trigger] r@[j]@ == v@[j].text_view(),
                    decreases v.len() - i,
                {
                    r.push(v[i].to_string());
                    i = i + 1;
                }
                assert(r@.map_values(|s: String| s@) =~= self.texts());
                r
            },
        }
    }
}

/// How to authenticate before searching.
#[derive(Debug, Clone)]
pub struct Login {
    pub path: Option<String>,
    pub method: Option<String>,
    pub inputs: Vec<(String, String)>,
    pub test: Option<LoginTest>,
    /// Whether the login page asks for a captcha.
    pub captcha: bool,
    pub headers: Vec<(String, Vec<String>)>,
    /// Literal cookies sent with the form flow's requests.
    pub cookies: Vec<String>,
    /// Rules that recognise a rejected login.
    pub error: Vec<ErrorRule>,
    /// Form inputs scraped from the login page, by input name.
    pub selectorinputs: Vec<(String, Field)>,
    pub submitpath: Option<String>,
    /// The selector of the login form.
    pub form: Option<String>,
    /// Whether `inputs` keys are selectors of the inputs to fill.
    pub selectors: bool,
}

/// A rule that recognises a rejected login: its selector, and where the
/// message comes from.
#[derive(Debug, Clone)]
pub struct ErrorRule {
    pub selector: String,
    pub message: Option<Field>,
}

/// A request proving the session is authenticated.
#[derive(Debug, Clone)]
pub struct LoginTest {
    pub path: String,
    pub selector: Option<String>,
}

} // verus!
