//! A minimal Go-template subset — only the forms the Cardigann v11 corpus
//! uses: the `if`/`else`/`end`, `range`/`end`, `or`, `join` and
//! `re_replace` directives; the `and`, `or`, `eq` and `ne` functions; and
//! the `.Keywords`, `.Config.*`, `.Result.*`, `.Query.*`, `.Categories`, `.False` and
//! `.True` variables.
//!
//! This is deliberately not a general Go-template engine: it recognises
//! exactly those shapes and reports an error for anything else.
//!
//! The meaning of a template is given by the spec functions of this module:
//! [`spec_parse`] reads a template into a tree of [`SNode`]s, and
//! [`spec_render`] evaluates that tree against a [`ScopeView`].
use vstd::prelude::*;

use crate::error::CardigannError;
use crate::pattern::{spec_replace_all, spec_compile, Pattern};
use crate::text::{chars_of, copy_chars, copy_range, eq_chars, find, find_from, first_word, is_ws, lemma_find_bound, lemma_trim_has_no_leading_ws, spec_is_ws, starts_with, trim, trim_bounds, trim_start, matches_at, push_all, string_of, word_end, word_is};

verus! {

// ---------------------------------------------------------------------------
// Scope
// ---------------------------------------------------------------------------
/// The abstract content of a [`Scope`].
pub struct ScopeView {
    pub keywords: Seq<char>,
    pub config: Map<Seq<char>, Seq<char>>,
    pub result: Map<Seq<char>, Seq<char>>,
    pub query: Map<Seq<char>, Seq<char>>,
    pub categories: Seq<Seq<char>>,
}

/// The value bound to `k` by the first pair with that key.
pub open spec fn pairs_get(p: Seq<(String, String)>, k: Seq<char>) -> Option<Seq<char>>
    decreases p.len(),
{
    if p.len() == 0 {
        None
    } else if p[0].0@ == k {
        Some(p[0].1@)
    } else {
        pairs_get(p.drop_first(), k)
    }
}

/// The map a list of key/value pairs denotes (first binding of a key wins).
pub open spec fn pairs_map(p: Seq<(String, String)>) -> Map<Seq<char>, Seq<char>> {
    Map::new(|k: Seq<char>| pairs_get(p, k) is Some, |k: Seq<char>| pairs_get(p, k).unwrap())
}

pub open spec fn strings_view(v: Seq<String>) -> Seq<Seq<char>> {
    v.map_values(|s: String| s@)
}

/// Variable bindings available to a template.
pub struct Scope {
    keywords: String,
    config: Vec<(String, String)>,
    result: Vec<(String, String)>,
    query: Vec<(String, String)>,
    categories: Vec<String>,
}

impl View for Scope {
    type V = ScopeView;

    closed spec fn view(&self) -> ScopeView {
        ScopeView {
            keywords: self.keywords@,
            config: pairs_map(self.config@),
            result: pairs_map(self.result@),
            query: pairs_map(self.query@),
            categories: strings_view(self.categories@),
        }
    }
}

/// Sets `k` to `v` in a pair list, replacing the first binding of `k`.
fn set_pair(pairs: &mut Vec<(String, String)>, k: &str, v: &str)
    ensures
        pairs_map(final(pairs)@) == pairs_map(old(pairs)@).insert(k@, v@),
{
    let want = chars_of(k);
    let mut found: Option<usize> = None;
    let mut i: usize = 0;
    while i < pairs.len()
        invariant_except_break
            found is None,
        invariant
            0 <= i <= pairs.len(),
            want@ == k@,
            forall|j: int| 0 <= j < i ==> pairs@[j].0@ != k@,
        ensures
            found matches Some(f) ==> f < pairs.len() && pairs@[f as int].0@ == k@ && forall|
                j: int,
            | 0 <= j < f ==> pairs@[j].0@ != k@,
            found is None ==> forall|j: int| 0 <= j < pairs.len() ==> pairs@[j].0@ != k@,
        decreases pairs.len() - i,
    {
        let key = chars_of(pairs[i].0.as_str());
        if eq_chars(&key, &want) {
            found = Some(i);
            break;
        }
        i = i + 1;
    }
    let entry = (String::from_str(k), String::from_str(v));
    match found {
        Some(f) => {
            proof {
                lemma_pairs_set(pairs@, f as int, entry);
            }
            pairs.set(f, entry);
        },
        None => {
            proof {
                lemma_pairs_push(pairs@, entry);
            }
            pairs.push(entry);
        },
    }
}

proof fn lemma_pairs_absent(p: Seq<(String, String)>, k: Seq<char>)
    requires
        forall|j: int| 0 <= j < p.len() ==> p[j].0@ != k,
    ensures
        pairs_get(p, k) is None,
    decreases p.len(),
{
    if p.len() > 0 {
        lemma_pairs_absent(p.drop_first(), k);
    }
}

pub(crate) proof fn lemma_pairs_push(p: Seq<(String, String)>, x: (String, String))
    requires
        forall|j: int| 0 <= j < p.len() ==> p[j].0@ != x.0@,
    ensures
        pairs_map(p.push(x)) == pairs_map(p).insert(x.0@, x.1@),
{
    assert forall|q: Seq<char>| pairs_get(p.push(x), q) == if q == x.0@ {
        Some(x.1@)
    } else {
        pairs_get(p, q)
    } by {
        lemma_pairs_get_push(p, x, q);
        lemma_pairs_absent(p, x.0@);
    }
    assert(pairs_map(p.push(x)) =~= pairs_map(p).insert(x.0@, x.1@));
}

proof fn lemma_pairs_get_push(p: Seq<(String, String)>, x: (String, String), q: Seq<char>)
    ensures
        pairs_get(p.push(x), q) == match pairs_get(p, q) {
            Some(w) => Some(w),
            None => if x.0@ == q {
                Some(x.1@)
            } else {
                None
            },
        },
    decreases p.len(),
{
    if p.len() > 0 {
        assert(p.push(x)[0] == p[0]);
        assert(p.push(x).drop_first() =~= p.drop_first().push(x));
        lemma_pairs_get_push(p.drop_first(), x, q);
    } else {
        assert(p.push(x)[0] == x);
        assert(p.push(x).drop_first() =~= Seq::<(String, String)>::empty());
        assert(pairs_get(Seq::<(String, String)>::empty(), q) is None);
    }
}

proof fn lemma_pairs_set(p: Seq<(String, String)>, i: int, x: (String, String))
    requires
        0 <= i < p.len(),
        p[i].0@ == x.0@,
        forall|j: int| 0 <= j < i ==> p[j].0@ != x.0@,
    ensures
        pairs_map(p.update(i, x)) == pairs_map(p).insert(x.0@, x.1@),
{
    assert forall|q: Seq<char>| pairs_get(p.update(i, x), q) == if q == x.0@ {
        Some(x.1@)
    } else {
        pairs_get(p, q)
    } by {
        lemma_pairs_get_update(p, i, x, q);
    }
    assert(pairs_map(p.update(i, x)) =~= pairs_map(p).insert(x.0@, x.1@));
}

proof fn lemma_pairs_get_update(p: Seq<(String, String)>, i: int, x: (String, String), q: Seq<char>)
    requires
        0 <= i < p.len(),
        p[i].0@ == x.0@,
        forall|j: int| 0 <= j < i ==> p[j].0@ != x.0@,
    ensures
        pairs_get(p.update(i, x), q) == if q == x.0@ {
            Some(x.1@)
        } else {
            pairs_get(p, q)
        },
    decreases i,
{
    if i > 0 {
        assert(p.update(i, x)[0] == p[0]);
        assert(p.update(i, x).drop_first() =~= p.drop_first().update(i - 1, x));
        lemma_pairs_get_update(p.drop_first(), i - 1, x, q);
    } else {
        assert(p.update(i, x)[0] == x);
        assert(p.update(i, x).drop_first() =~= p.drop_first());
    }
}

/// The value of the first binding of `k`, or the empty string.
fn get_pair(pairs: &Vec<(String, String)>, k: &Vec<char>) -> (r: Vec<char>)
    ensures
        r@ == match pairs_get(pairs@, k@) {
            Some(v) => v,
            None => Seq::empty(),
        },
{
    let mut i: usize = 0;
    assert(pairs@.skip(0) =~= pairs@);
    while i < pairs.len()
        invariant
            0 <= i <= pairs.len(),
            pairs_get(pairs@, k@) == pairs_get(pairs@.skip(i as int), k@),
        decreases pairs.len() - i,
    {
        let key = chars_of(pairs[i].0.as_str());
        assert(pairs@.skip(i as int).drop_first() =~= pairs@.skip(i + 1));
        if eq_chars(&key, k) {
            return chars_of(pairs[i].1.as_str());
        }
        i = i + 1;
    }
    Vec::new()
}

impl Scope {
    /// An empty scope: no keywords, settings, result fields, query
    /// variables or categories.
    pub fn new() -> (r: Scope)
        ensures
            r@.keywords == Seq::<char>::empty(),
            r@.config == Map::<Seq<char>, Seq<char>>::empty(),
            r@.result == Map::<Seq<char>, Seq<char>>::empty(),
            r@.query == Map::<Seq<char>, Seq<char>>::empty(),
            r@.categories == Seq::<Seq<char>>::empty(),
    {
        let r = Scope {
            keywords: String::new(),
            config: Vec::new(),
            result: Vec::new(),
            query: Vec::new(),
            categories: Vec::new(),
        };
        assert(r@.config =~= Map::<Seq<char>, Seq<char>>::empty());
        assert(r@.result =~= Map::<Seq<char>, Seq<char>>::empty());
        assert(r@.query =~= Map::<Seq<char>, Seq<char>>::empty());
        assert(r@.categories =~= Seq::<Seq<char>>::empty());
        r
    }

    /// Binds `.Keywords`.
    pub fn set_keywords(&mut self, s: &str)
        ensures
            final(self)@ == (ScopeView { keywords: s@, ..old(self)@ }),
    {
        self.keywords = String::from_str(s);
    }

    /// Binds `.Config.<k>`.
    pub fn set_config(&mut self, k: &str, v: &str)
        ensures
            final(self)@ == (ScopeView { config: old(self)@.config.insert(k@, v@), ..old(self)@ }),
    {
        set_pair(&mut self.config, k, v);
    }

    /// Binds `.Result.<k>`.
    pub fn set_result(&mut self, k: &str, v: &str)
        ensures
            final(self)@ == (ScopeView { result: old(self)@.result.insert(k@, v@), ..old(self)@ }),
    {
        set_pair(&mut self.result, k, v);
    }

    /// Binds `.Query.<k>`.
    pub fn set_query(&mut self, k: &str, v: &str)
        ensures
            final(self)@ == (ScopeView { query: old(self)@.query.insert(k@, v@), ..old(self)@ }),
    {
        set_pair(&mut self.query, k, v);
    }

    /// Binds the selected category ids (`.Categories`), in order.
    pub fn set_categories(&mut self, ids: &[&str])
        ensures
            final(self)@ == (ScopeView {
                categories: ids@.map_values(|s: &str| s@),
                ..old(self)@
            }),
    {
        let mut cats: Vec<String> = Vec::new();
        let mut i: usize = 0;
        while i < ids.len()
            invariant
                0 <= i <= ids.len(),
                cats@.len() == i,
                forall|j: int| 0 <= j < i ==> #[trigger] cats@[j]@ == ids@[j]@,
            decreases ids.len() - i,
        {
            cats.push(String::from_str(ids[i]));
            i = i + 1;
        }
        assert(strings_view(cats@) =~= ids@.map_values(|s: &str| s@));
        self.categories = cats;
    }
}


// ---------------------------------------------------------------------------
// Syntax
// ---------------------------------------------------------------------------
/// The functions an expression may call.
#[derive(Clone, Copy, PartialEq, Eq, Debug)]
pub enum CallName {
    And,
    Or,
    Eq,
    Ne,
}

/// A parsed expression (the abstract form of [`Expr`]).
pub enum SExpr {
    /// A dotted variable path such as `.Config.sort`, or `.`.
    Path(Seq<char>),
    /// A quoted string literal.
    Str(Seq<char>),
    /// A call of `and`, `or`, `eq` or `ne`.
    Call(CallName, Seq<SExpr>),
}

/// One parsed piece of a template (the abstract form of [`Node`]).
pub enum SNode {
    Text(Seq<char>),
    Var(Seq<char>),
    Or(Seq<SExpr>),
    Join(Seq<char>, SExpr),
    ReReplace(SExpr, SExpr, SExpr),
    Range(Seq<char>, Seq<SNode>),
    If(SExpr, Seq<SNode>, Seq<SNode>),
}

/// A lexical token inside an action (the abstract form of [`Token`]).
pub enum SToken {
    LParen,
    RParen,
    Str(Seq<char>),
    Ident(Seq<char>),
}

/// A parsed condition/value expression.
pub enum Expr {
    Path(Vec<char>),
    Str(Vec<char>),
    Call(CallName, Vec<Expr>),
}

/// One parsed piece of a template.
pub enum Node {
    Text(Vec<char>),
    Var(Vec<char>),
    /// `{{ or a b ... }}`
    Or(Vec<Expr>),
    /// `{{ join .Categories "," }}`
    Join(Vec<char>, Expr),
    /// `{{ re_replace VALUE "pattern" "replacement" }}`
    ReReplace(Expr, Expr, Expr),
    /// `{{ range .Categories }}...{{ end }}`
    Range(Vec<char>, Vec<Node>),
    /// `{{ if COND }}then{{ else }}otherwise{{ end }}`
    If(Expr, Vec<Node>, Vec<Node>),
}

/// A lexical token inside an action.
pub enum Token {
    LParen,
    RParen,
    Str(Vec<char>),
    Ident(Vec<char>),
}

pub open spec fn token_view(t: Token) -> SToken {
    match t {
        Token::LParen => SToken::LParen,
        Token::RParen => SToken::RParen,
        Token::Str(s) => SToken::Str(s@),
        Token::Ident(s) => SToken::Ident(s@),
    }
}

pub open spec fn tokens_view(v: Seq<Token>) -> Seq<SToken> {
    v.map_values(|t: Token| token_view(t))
}

pub open spec fn expr_view(e: Expr) -> SExpr
    decreases e,
{
    match e {
        Expr::Path(p) => SExpr::Path(p@),
        Expr::Str(s) => SExpr::Str(s@),
        Expr::Call(n, args) => SExpr::Call(n, exprs_view(args@)),
    }
}

pub open spec fn exprs_view(v: Seq<Expr>) -> Seq<SExpr>
    decreases v,
{
    if v.len() == 0 {
        Seq::empty()
    } else {
        exprs_view(v.drop_last()).push(expr_view(v.last()))
    }
}

pub open spec fn node_view(n: Node) -> SNode
    decreases n,
{
    match n {
        Node::Text(t) => SNode::Text(t@),
        Node::Var(p) => SNode::Var(p@),
        Node::Or(args) => SNode::Or(exprs_view(args@)),
        Node::Join(l, sep) => SNode::Join(l@, expr_view(sep)),
        Node::ReReplace(v, p, r) => SNode::ReReplace(expr_view(v), expr_view(p), expr_view(r)),
        Node::Range(l, body) => SNode::Range(l@, nodes_view(body@)),
        Node::If(c, t, o) => SNode::If(expr_view(c), nodes_view(t@), nodes_view(o@)),
    }
}

pub open spec fn nodes_view(v: Seq<Node>) -> Seq<SNode>
    decreases v,
{
    if v.len() == 0 {
        Seq::empty()
    } else {
        nodes_view(v.drop_last()).push(node_view(v.last()))
    }
}

proof fn lemma_exprs_view(v: Seq<Expr>)
    ensures
        exprs_view(v).len() == v.len(),
        forall|i: int| 0 <= i < v.len() ==> #[trigger] exprs_view(v)[i] == expr_view(v[i]),
    decreases v.len(),
{
    if v.len() > 0 {
        lemma_exprs_view(v.drop_last());
    }
}

proof fn lemma_nodes_view_push(s: Seq<Node>, n: Node)
    ensures
        nodes_view(s.push(n)) == nodes_view(s).push(node_view(n)),
{
    assert(s.push(n).drop_last() =~= s);
    assert(s.push(n).last() == n);
}

proof fn lemma_nodes_view(v: Seq<Node>)
    ensures
        nodes_view(v).len() == v.len(),
        forall|i: int| 0 <= i < v.len() ==> #[trigger] nodes_view(v)[i] == node_view(v[i]),
    decreases v.len(),
{
    if v.len() > 0 {
        lemma_nodes_view(v.drop_last());
    }
}


// ---------------------------------------------------------------------------
// Tokens
// ---------------------------------------------------------------------------
/// The body of a string literal starting at `i` (just after its opening
/// quote): its text and the index just past its closing quote. Only `\"`
/// and `\\` are escapes; any other backslash is kept, since these literals
/// usually carry regex patterns. `None` when the literal is unterminated.
pub open spec fn str_lit(e: Seq<char>, i: int) -> Option<(Seq<char>, int)>
    decreases e.len() - i,
{
    if i < 0 || i >= e.len() {
        None
    } else if e[i] == '"' {
        Some((Seq::empty(), i + 1))
    } else if e[i] == '\\' {
        if i + 1 >= e.len() {
            None
        } else {
            let d = if e[i + 1] == '"' {
                seq!['"']
            } else if e[i + 1] == '\\' {
                seq!['\\']
            } else {
                seq!['\\', e[i + 1]]
            };
            match str_lit(e, i + 2) {
                Some((s, j)) => Some((d + s, j)),
                None => None,
            }
        }
    } else {
        match str_lit(e, i + 1) {
            Some((s, j)) => Some((seq![e[i]] + s, j)),
            None => None,
        }
    }
}

/// Whether `c` may appear in an identifier token.
pub open spec fn ident_char(c: char) -> bool {
    !spec_is_ws(c) && c != '(' && c != ')'
}

/// The end of the identifier token starting at `i`.
pub open spec fn ident_end(e: Seq<char>, i: int) -> int
    decreases e.len() - i,
{
    if 0 <= i < e.len() && ident_char(e[i]) {
        ident_end(e, i + 1)
    } else {
        i
    }
}

pub open spec fn cons_tok(t: SToken, r: Result<Seq<SToken>, ()>) -> Result<Seq<SToken>, ()> {
    match r {
        Ok(ts) => Ok(seq![t] + ts),
        Err(_) => Err(()),
    }
}

pub open spec fn prepend_toks(p: Seq<SToken>, r: Result<Seq<SToken>, ()>) -> Result<
    Seq<SToken>,
    (),
> {
    match r {
        Ok(ts) => Ok(p + ts),
        Err(_) => Err(()),
    }
}

/// The tokens of `e` from index `i` on; `Err` on an unterminated string.
pub open spec fn tok_from(e: Seq<char>, i: int) -> Result<Seq<SToken>, ()>
    decreases e.len() - i,
{
    if i < 0 || i >= e.len() {
        Ok(Seq::empty())
    } else if spec_is_ws(e[i]) {
        tok_from(e, i + 1)
    } else if e[i] == '(' {
        cons_tok(SToken::LParen, tok_from(e, i + 1))
    } else if e[i] == ')' {
        cons_tok(SToken::RParen, tok_from(e, i + 1))
    } else if e[i] == '"' {
        match str_lit(e, i + 1) {
            Some((s, j)) => if i < j <= e.len() {
                cons_tok(SToken::Str(s), tok_from(e, j))
            } else {
                Err(())
            },
            None => Err(()),
        }
    } else {
        let j = ident_end(e, i);
        if i < j <= e.len() {
            cons_tok(SToken::Ident(e.subrange(i, j)), tok_from(e, j))
        } else {
            Err(())
        }
    }
}

/// The tokens of an action's argument text.
pub open spec fn spec_tokenize(e: Seq<char>) -> Result<Seq<SToken>, ()> {
    tok_from(e, 0)
}

proof fn lemma_ident_end(e: Seq<char>, i: int)
    requires
        0 <= i <= e.len(),
    ensures
        i <= ident_end(e, i) <= e.len(),
    decreases e.len() - i,
{
    if 0 <= i < e.len() && ident_char(e[i]) {
        lemma_ident_end(e, i + 1);
    }
}

/// Scans a string literal whose body starts at `start`.
fn scan_str_lit(e: &Vec<char>, start: usize) -> (r: Option<(Vec<char>, usize)>)
    requires
        start <= e.len(),
    ensures
        match str_lit(e@, start as int) {
            Some((s, j)) => r matches Some((v, k)) && v@ == s && k == j && start < k <= e.len(),
            None => r is None,
        },
{
    let mut s: Vec<char> = Vec::new();
    let mut k = start;
    while k < e.len()
        invariant
            start <= k <= e.len(),
            str_lit(e@, start as int) == match str_lit(e@, k as int) {
                Some((r, j)) => Some((s@ + r, j)),
                None => None,
            },
        decreases e.len() - k,
    {
        let c = e[k];
        if c == '"' {
            assert(s@ + Seq::<char>::empty() =~= s@);
            return Some((s, k + 1));
        } else if c == '\\' {
            if k + 1 >= e.len() {
                return None;
            }
            let d = e[k + 1];
            let ghost old_s = s@;
            if d == '"' {
                s.push('"');
            } else if d == '\\' {
                s.push('\\');
            } else {
                s.push('\\');
                s.push(d);
            }
            proof {
                let dd = if d == '"' {
                    seq!['"']
                } else if d == '\\' {
                    seq!['\\']
                } else {
                    seq!['\\', d]
                };
                assert(s@ =~= old_s + dd);
                match str_lit(e@, k + 2) {
                    Some((r, j)) => {
                        assert(old_s + (dd + r) =~= s@ + r);
                    },
                    None => {},
                }
            }
            k = k + 2;
        } else {
            let ghost old_s = s@;
            s.push(c);
            proof {
                match str_lit(e@, k + 1) {
                    Some((r, j)) => {
                        assert(old_s + (seq![c] + r) =~= s@ + r);
                    },
                    None => {},
                }
            }
            k = k + 1;
        }
    }
    None
}

proof fn lemma_str_lit_bound(e: Seq<char>, i: int)
    ensures
        str_lit(e, i) matches Some((s, j)) ==> i < j <= e.len(),
    decreases e.len() - i,
{
    if 0 <= i < e.len() && e[i] != '"' {
        if e[i] == '\\' {
            if i + 1 < e.len() {
                lemma_str_lit_bound(e, i + 2);
            }
        } else {
            lemma_str_lit_bound(e, i + 1);
        }
    }
}

proof fn lemma_prepend_empty(r: Result<Seq<SToken>, ()>)
    ensures
        prepend_toks(Seq::empty(), r) == r,
{
    match r {
        Ok(ts) => {
            assert(Seq::<SToken>::empty() + ts =~= ts);
        },
        Err(u) => {
            assert(u == ());
        },
    }
}

/// Splits an action's argument text into tokens; `None` when a string
/// literal is unterminated.
fn tokenize(e: &Vec<char>) -> (r: Option<Vec<Token>>)
    ensures
        match spec_tokenize(e@) {
            Ok(ts) => r matches Some(v) && tokens_view(v@) == ts,
            Err(_) => r is None,
        },
{
    let mut toks: Vec<Token> = Vec::new();
    let mut i: usize = 0;
    proof {
        assert(tokens_view(toks@) =~= Seq::<SToken>::empty());
        lemma_prepend_empty(tok_from(e@, 0));
    }
    while i < e.len()
        invariant
            0 <= i <= e.len(),
            tok_from(e@, 0) == prepend_toks(tokens_view(toks@), tok_from(e@, i as int)),
        decreases e.len() - i,
    {
        let c = e[i];
        let ghost before = tokens_view(toks@);
        if is_ws(c) {
            i = i + 1;
        } else if c == '(' || c == ')' {
            let t = if c == '(' {
                Token::LParen
            } else {
                Token::RParen
            };
            let ghost st = token_view(t);
            toks.push(t);
            proof {
                assert(tokens_view(toks@) =~= before + seq![st]);
                match tok_from(e@, i + 1) {
                    Ok(ts) => {
                        assert(before + (seq![st] + ts) =~= tokens_view(toks@) + ts);
                    },
                    Err(_) => {},
                }
            }
            i = i + 1;
        } else if c == '"' {
            proof {
                lemma_str_lit_bound(e@, i + 1);
            }
            match scan_str_lit(e, i + 1) {
                None => {
                    return None;
                },
                Some((s, j)) => {
                    let ghost ss = s@;
                    toks.push(Token::Str(s));
                    proof {
                        assert(tokens_view(toks@) =~= before + seq![SToken::Str(ss)]);
                        match tok_from(e@, j as int) {
                            Ok(ts) => {
                                assert(before + (seq![SToken::Str(ss)] + ts) =~= tokens_view(
                                    toks@,
                                ) + ts);
                            },
                            Err(_) => {},
                        }
                    }
                    i = j;
                },
            }
        } else {
            let start = i;
            proof {
                lemma_ident_end(e@, i as int);
            }
            while i < e.len() && !is_ws(e[i]) && e[i] != '(' && e[i] != ')'
                invariant
                    start <= i <= e.len(),
                    ident_end(e@, start as int) == ident_end(e@, i as int),
                decreases e.len() - i,
            {
                i = i + 1;
            }
            let word = copy_range(e, start, i);
            let ghost ww = word@;
            toks.push(Token::Ident(word));
            proof {
                assert(tokens_view(toks@) =~= before + seq![SToken::Ident(ww)]);
                match tok_from(e@, i as int) {
                    Ok(ts) => {
                        assert(before + (seq![SToken::Ident(ww)] + ts) =~= tokens_view(toks@)
                            + ts);
                    },
                    Err(_) => {},
                }
            }
        }
    }
    assert(tokens_view(toks@) + Seq::<SToken>::empty() =~= tokens_view(toks@));
    Some(toks)
}


// ---------------------------------------------------------------------------
// Expressions
// ---------------------------------------------------------------------------
/// The function a bare identifier names, if it names one.
pub open spec fn call_name(w: Seq<char>) -> Option<CallName> {
    if w == "and"@ {
        Some(CallName::And)
    } else if w == "or"@ {
        Some(CallName::Or)
    } else if w == "eq"@ {
        Some(CallName::Eq)
    } else if w == "ne"@ {
        Some(CallName::Ne)
    } else {
        None
    }
}

/// The function named by the token at `pos`, if it is such an identifier.
pub open spec fn call_at(t: Seq<SToken>, pos: int) -> Option<CallName> {
    if 0 <= pos < t.len() {
        match t[pos] {
            SToken::Ident(w) => call_name(w),
            _ => None,
        }
    } else {
        None
    }
}

/// One argument: a variable path, a string literal, or a parenthesised
/// expression; with the index just past it.
pub open spec fn p_atom(t: Seq<SToken>, pos: int) -> Result<(SExpr, int), ()>
    decreases t.len() - pos, 0int,
{
    if pos < 0 || pos >= t.len() {
        Err(())
    } else {
        match t[pos] {
            SToken::LParen => match p_expr(t, pos + 1) {
                Ok((e, p)) => if pos < p < t.len() && t[p] is RParen {
                    Ok((e, p + 1))
                } else {
                    Err(())
                },
                Err(_) => Err(()),
            },
            SToken::Str(s) => Ok((SExpr::Str(s), pos + 1)),
            SToken::Ident(w) => if w.len() > 0 && w[0] == '.' {
                Ok((SExpr::Path(w), pos + 1))
            } else {
                Err(())
            },
            SToken::RParen => Err(()),
        }
    }
}

/// A full expression: a call consuming every argument up to the enclosing
/// `)` (or the end), or a single atom.
pub open spec fn p_expr(t: Seq<SToken>, pos: int) -> Result<(SExpr, int), ()>
    decreases t.len() - pos, 2int,
{
    match call_at(t, pos) {
        Some(name) => if 0 <= pos < t.len() {
            match p_arglist(t, pos + 1) {
                Ok((args, p)) => if args.len() == 0 {
                    Err(())
                } else {
                    Ok((SExpr::Call(name, args), p))
                },
                Err(_) => Err(()),
            }
        } else {
            Err(())
        },
        None => p_atom(t, pos),
    }
}

/// Atoms from `pos` up to a `)` or the end of the tokens.
pub open spec fn p_arglist(t: Seq<SToken>, pos: int) -> Result<(Seq<SExpr>, int), ()>
    decreases t.len() - pos, 1int,
{
    if pos < 0 || pos > t.len() {
        Err(())
    } else if pos == t.len() || t[pos] is RParen {
        Ok((Seq::empty(), pos))
    } else {
        match p_atom(t, pos) {
            Ok((e, p)) => if pos < p <= t.len() {
                match p_arglist(t, p) {
                    Ok((es, q)) => Ok((seq![e] + es, q)),
                    Err(_) => Err(()),
                }
            } else {
                Err(())
            },
            Err(_) => Err(()),
        }
    }
}

pub open spec fn prepend_exprs(p: Seq<SExpr>, r: Result<(Seq<SExpr>, int), ()>) -> Result<
    (Seq<SExpr>, int),
    (),
> {
    match r {
        Ok((es, q)) => Ok((p + es, q)),
        Err(_) => Err(()),
    }
}

proof fn lemma_p_atom_advances(t: Seq<SToken>, pos: int)
    ensures
        p_atom(t, pos) matches Ok((e, p)) ==> pos < p <= t.len(),
    decreases t.len() - pos, 0int,
{
}

proof fn lemma_p_expr_advances(t: Seq<SToken>, pos: int)
    ensures
        p_expr(t, pos) matches Ok((e, p)) ==> pos < p <= t.len(),
    decreases t.len() - pos, 2int,
{
    if call_at(t, pos) is Some && 0 <= pos < t.len() {
        lemma_p_arglist_bounds(t, pos + 1);
    }
}

proof fn lemma_p_arglist_bounds(t: Seq<SToken>, pos: int)
    ensures
        p_arglist(t, pos) matches Ok((es, q)) ==> pos <= q <= t.len(),
    decreases t.len() - pos, 1int,
{
    if 0 <= pos < t.len() && !(t[pos] is RParen) {
        if let Ok((e, p)) = p_atom(t, pos) {
            if pos < p <= t.len() {
                lemma_p_arglist_bounds(t, p);
            }
        }
    }
}

proof fn lemma_prepend_exprs_empty(r: Result<(Seq<SExpr>, int), ()>)
    ensures
        prepend_exprs(Seq::empty(), r) == r,
{
    match r {
        Ok((es, q)) => {
            assert(Seq::<SExpr>::empty() + es =~= es);
        },
        Err(u) => {
            assert(u == ());
        },
    }
}

/// The function an identifier names, if any.
fn call_of(w: &Vec<char>) -> (r: Option<CallName>)
    ensures
        r == call_name(w@),
{
    if word_is(w, "and") {
        Some(CallName::And)
    } else if word_is(w, "or") {
        Some(CallName::Or)
    } else if word_is(w, "eq") {
        Some(CallName::Eq)
    } else if word_is(w, "ne") {
        Some(CallName::Ne)
    } else {
        None
    }
}

fn parse_atom(t: &Vec<Token>, pos: usize) -> (r: Option<(Expr, usize)>)
    ensures
        match p_atom(tokens_view(t@), pos as int) {
            Ok((e, p)) => r matches Some((x, q)) && expr_view(x) == e && q == p,
            Err(_) => r is None,
        },
    decreases t@.len() - pos, 0int,
{
    let ghost tv = tokens_view(t@);
    if pos >= t.len() {
        return None;
    }
    assert(tv[pos as int] == token_view(t@[pos as int]));
    match &t[pos] {
        Token::LParen => {
            proof {
                lemma_p_expr_advances(tv, pos + 1);
            }
            match parse_expr(t, pos + 1) {
                None => None,
                Some((e, p)) => {
                    if p < t.len() {
                        assert(tv[p as int] == token_view(t@[p as int]));
                        match &t[p] {
                            Token::RParen => Some((e, p + 1)),
                            _ => None,
                        }
                    } else {
                        None
                    }
                },
            }
        },
        Token::Str(s) => Some((Expr::Str(copy_chars(s)), pos + 1)),
        Token::Ident(w) => {
            if w.len() > 0 && w[0] == '.' {
                Some((Expr::Path(copy_chars(w)), pos + 1))
            } else {
                None
            }
        },
        Token::RParen => None,
    }
}

fn parse_expr(t: &Vec<Token>, pos: usize) -> (r: Option<(Expr, usize)>)
    ensures
        match p_expr(tokens_view(t@), pos as int) {
            Ok((e, p)) => r matches Some((x, q)) && expr_view(x) == e && q == p,
            Err(_) => r is None,
        },
    decreases t@.len() - pos, 2int,
{
    let ghost tv = tokens_view(t@);
    let mut name: Option<CallName> = None;
    if pos < t.len() {
        assert(tv[pos as int] == token_view(t@[pos as int]));
        match &t[pos] {
            Token::Ident(w) => {
                name = call_of(w);
            },
            _ => {},
        }
    }
    assert(name == call_at(tv, pos as int));
    match name {
        None => parse_atom(t, pos),
        Some(n) => {
            let mut args: Vec<Expr> = Vec::new();
            let mut p = pos + 1;
            proof {
                assert(exprs_view(args@) =~= Seq::<SExpr>::empty());
                lemma_prepend_exprs_empty(p_arglist(tv, p as int));
            }
            loop
                invariant
                    pos < p <= t.len(),
                    tv == tokens_view(t@),
                    call_at(tv, pos as int) == Some(n),
                    p_arglist(tv, pos + 1) == prepend_exprs(exprs_view(args@), p_arglist(tv, p as int)),
                decreases t.len() - p,
            {
                let at_close = if p == t.len() {
                    true
                } else {
                    assert(tv[p as int] == token_view(t@[p as int]));
                    match &t[p] {
                        Token::RParen => true,
                        _ => false,
                    }
                };
                if at_close {
                    assert(exprs_view(args@) + Seq::<SExpr>::empty() =~= exprs_view(args@));
                    if args.len() == 0 {
                        assert(exprs_view(args@) =~= Seq::<SExpr>::empty());
                        assert(p_arglist(tv, p as int) == Ok::<(Seq<SExpr>, int), ()>((Seq::<SExpr>::empty(), p as int)));
                        assert(p_arglist(tv, pos + 1) == Ok::<(Seq<SExpr>, int), ()>((Seq::<SExpr>::empty(), p as int)));
                        return None;
                    }
                    proof {
                        lemma_exprs_view(args@);
                    }
                    return Some((Expr::Call(n, args), p));
                }
                match parse_atom(t, p) {
                    None => {
                        assert(p_arglist(tv, p as int) is Err);
                        return None;
                    },
                    Some((e, q)) => {
                        proof {
                            lemma_p_atom_advances(tv, p as int);
                        }
                        let ghost old_seq = args@;
                        let ghost before = exprs_view(args@);
                        let ghost ev = expr_view(e);
                        args.push(e);
                        proof {
                            assert(args@.drop_last() =~= old_seq);
                            assert(exprs_view(args@) == before.push(ev));
                            match p_arglist(tv, q as int) {
                                Ok((es, qq)) => {
                                    assert(before + (seq![ev] + es) =~= exprs_view(args@) + es);
                                },
                                Err(_) => {},
                            }
                        }
                        p = q;
                    },
                }
            }
        },
    }
}


// ---------------------------------------------------------------------------
// Templates
// ---------------------------------------------------------------------------
pub open spec fn open_delim() -> Seq<char> {
    seq!['{', '{']
}

pub open spec fn close_delim() -> Seq<char> {
    seq!['}', '}']
}

/// The actions that end the node list currently being parsed.
#[derive(Clone, Copy, PartialEq, Eq)]
pub enum StopSet {
    /// The whole template: nothing stops it but its end.
    Top,
    /// An `if` body: `else` or `end`.
    ElseOrEnd,
    /// An `else` or `range` body: `end`.
    End,
}

pub open spec fn is_stop(ss: StopSet, head: Seq<char>) -> bool {
    match ss {
        StopSet::Top => false,
        StopSet::ElseOrEnd => head == "else"@ || head == "end"@,
        StopSet::End => head == "end"@,
    }
}

/// How a node list ended: at the end of the input, or at a stop action
/// (its leading word, and the input after the action).
pub enum SStop {
    Eof,
    At(Seq<char>, Seq<char>),
}

pub open spec fn text_node(s: Seq<char>) -> Seq<SNode> {
    if s.len() > 0 {
        seq![SNode::Text(s)]
    } else {
        Seq::empty()
    }
}

pub open spec fn cont(p: Seq<SNode>, r: Result<(Seq<SNode>, SStop), ()>) -> Result<
    (Seq<SNode>, SStop),
    (),
> {
    match r {
        Ok((ns, st)) => Ok((p + ns, st)),
        Err(_) => Err(()),
    }
}

/// The condition of an `if`.
pub open spec fn p_cond(x: Seq<char>) -> Result<SExpr, ()> {
    match spec_tokenize(x) {
        Err(_) => Err(()),
        Ok(ts) => if ts.len() == 0 {
            Err(())
        } else {
            match p_expr(ts, 0) {
                Ok((e, p)) => if p == ts.len() {
                    Ok(e)
                } else {
                    Err(())
                },
                Err(_) => Err(()),
            }
        },
    }
}

/// Atoms from `pos` to the end of the tokens.
pub open spec fn p_atoms_to_end(t: Seq<SToken>, pos: int) -> Result<Seq<SExpr>, ()>
    decreases t.len() - pos,
{
    if pos < 0 || pos >= t.len() {
        Ok(Seq::empty())
    } else {
        match p_atom(t, pos) {
            Ok((e, p)) => if pos < p <= t.len() {
                match p_atoms_to_end(t, p) {
                    Ok(es) => Ok(seq![e] + es),
                    Err(_) => Err(()),
                }
            } else {
                Err(())
            },
            Err(_) => Err(()),
        }
    }
}

/// The arguments of a value-producing action (every atom after its name).
pub open spec fn p_args(action: Seq<char>) -> Result<Seq<SExpr>, ()> {
    match spec_tokenize(action) {
        Err(_) => Err(()),
        Ok(ts) => p_atoms_to_end(ts, 1),
    }
}

pub open spec fn p_or(action: Seq<char>) -> Result<SNode, ()> {
    match p_args(action) {
        Ok(args) => if args.len() == 0 {
            Err(())
        } else {
            Ok(SNode::Or(args))
        },
        Err(_) => Err(()),
    }
}

pub open spec fn p_join(action: Seq<char>) -> Result<SNode, ()> {
    match p_args(action) {
        Ok(args) => if args.len() == 2 {
            match args[0] {
                SExpr::Path(l) => Ok(SNode::Join(l, args[1])),
                _ => Err(()),
            }
        } else {
            Err(())
        },
        Err(_) => Err(()),
    }
}

pub open spec fn p_re_replace(action: Seq<char>) -> Result<SNode, ()> {
    match p_args(action) {
        Ok(args) => if args.len() == 3 {
            Ok(SNode::ReReplace(args[0], args[1], args[2]))
        } else {
            Err(())
        },
        Err(_) => Err(()),
    }
}

pub open spec fn has_ws(s: Seq<char>) -> bool {
    exists|i: int| 0 <= i < s.len() && spec_is_ws(#[trigger] s[i])
}

/// Where the next `{{ ... }}` action of `input` is.
pub enum Scan {
    /// No `{{` at all.
    NoAction,
    /// A `{{` with no `}}` after it.
    Unclosed,
    /// The text before the action ends at `open`; the action's trimmed
    /// text; and the input after the action.
    Action(int, Seq<char>, Seq<char>),
}

pub open spec fn scan(input: Seq<char>) -> Scan {
    match find(input, open_delim()) {
        None => Scan::NoAction,
        Some(open) => if !(0 <= open && open + 2 <= input.len()) {
            Scan::Unclosed
        } else {
            let after = input.skip(open + 2);
            match find(after, close_delim()) {
                None => Scan::Unclosed,
                Some(close) => if !(0 <= close && close + 2 <= after.len()) {
                    Scan::Unclosed
                } else {
                    Scan::Action(open, trim(after.take(close)), after.skip(close + 2))
                },
            }
        },
    }
}

/// An action that produces a node on its own (no body): `or`, `join`,
/// `re_replace`, or a bare variable.
pub open spec fn p_simple(head: Seq<char>, action: Seq<char>) -> Result<SNode, ()> {
    if head == "or"@ {
        p_or(action)
    } else if head == "join"@ {
        p_join(action)
    } else if head == "re_replace"@ {
        p_re_replace(action)
    } else if head.len() > 0 && head[0] == '.' {
        Ok(SNode::Var(head))
    } else {
        Err(())
    }
}

/// Nodes of `input` up to a stop action of `ss` (or its end).
pub open spec fn p_until(input: Seq<char>, ss: StopSet) -> Result<(Seq<SNode>, SStop), ()>
    decreases input.len(), 0int,
{
    match scan(input) {
        Scan::NoAction => if ss == StopSet::Top {
            Ok((text_node(input), SStop::Eof))
        } else {
            Err(())
        },
        Scan::Unclosed => Err(()),
        Scan::Action(open, action, rem) => if !(0 <= open <= input.len() && rem.len()
            < input.len()) {
            Err(())
        } else {
            let pre = text_node(input.take(open));
            let head = first_word(action);
            if is_stop(ss, head) {
                Ok((pre, SStop::At(head, rem)))
            } else if head == "if"@ || head == "range"@ {
                let r = if head == "if"@ {
                    p_if(action, rem)
                } else {
                    p_range(action, rem)
                };
                match r {
                    Ok((node, next)) => if next.len() < input.len() {
                        cont(pre.push(node), p_until(next, ss))
                    } else {
                        Err(())
                    },
                    Err(_) => Err(()),
                }
            } else {
                match p_simple(head, action) {
                    Ok(node) => cont(pre.push(node), p_until(rem, ss)),
                    Err(_) => Err(()),
                }
            }
        },
    }
}

/// `{{ if COND }}then{{ else }}otherwise{{ end }}` (or without `else`),
/// given the `if` action and the input after it; with the input after `end`.
pub open spec fn p_if(action: Seq<char>, rem: Seq<char>) -> Result<(SNode, Seq<char>), ()>
    decreases rem.len(), 1int,
{
    if action.len() < 2 {
        Err(())
    } else {
        match p_cond(trim(action.skip(2))) {
            Err(_) => Err(()),
            Ok(c) => match p_until(rem, StopSet::ElseOrEnd) {
                Ok((then, SStop::At(h, after))) => if after.len() < rem.len() {
                    if h == "else"@ {
                        match p_until(after, StopSet::End) {
                            Ok((oth, SStop::At(_, after2))) => Ok((SNode::If(c, then, oth), after2)),
                            _ => Err(()),
                        }
                    } else {
                        Ok((SNode::If(c, then, Seq::empty()), after))
                    }
                } else {
                    Err(())
                },
                _ => Err(()),
            },
        }
    }
}

/// `{{ range .Path }}body{{ end }}`, given the `range` action and the
/// input after it; with the input after `end`.
pub open spec fn p_range(action: Seq<char>, rem: Seq<char>) -> Result<(SNode, Seq<char>), ()>
    decreases rem.len(), 1int,
{
    if action.len() < 5 {
        Err(())
    } else {
        let list = trim(action.skip(5));
        if list.len() == 0 || list[0] != '.' || has_ws(list) {
            Err(())
        } else {
            match p_until(rem, StopSet::End) {
                Ok((body, SStop::At(_, after))) => Ok((SNode::Range(list, body), after)),
                _ => Err(()),
            }
        }
    }
}

/// The node tree of a whole template, or `Err` when it does not parse.
pub open spec fn spec_parse(t: Seq<char>) -> Result<Seq<SNode>, ()> {
    match p_until(t, StopSet::Top) {
        Ok((ns, _)) => Ok(ns),
        Err(_) => Err(()),
    }
}


pub open spec fn prepend_args(p: Seq<SExpr>, r: Result<Seq<SExpr>, ()>) -> Result<Seq<SExpr>, ()> {
    match r {
        Ok(es) => Ok(p + es),
        Err(_) => Err(()),
    }
}

proof fn lemma_cont_assoc(v: Seq<SNode>, p: Seq<SNode>, r: Result<(Seq<SNode>, SStop), ()>)
    ensures
        cont(v, cont(p, r)) == cont(v + p, r),
{
    match r {
        Ok((ns, st)) => {
            assert(v + (p + ns) =~= (v + p) + ns);
        },
        Err(_) => {},
    }
}

proof fn lemma_cont_empty(r: Result<(Seq<SNode>, SStop), ()>)
    ensures
        cont(Seq::empty(), r) == r,
{
    match r {
        Ok((ns, st)) => {
            assert(Seq::<SNode>::empty() + ns =~= ns);
        },
        Err(u) => {
            assert(u == ());
        },
    }
}

fn parse_cond(x: &Vec<char>) -> (r: Option<Expr>)
    ensures
        match p_cond(x@) {
            Ok(e) => r matches Some(v) && expr_view(v) == e,
            Err(_) => r is None,
        },
{
    let toks = match tokenize(x) {
        Some(t) => t,
        None => {
            return None;
        },
    };
    if toks.len() == 0 {
        return None;
    }
    match parse_expr(&toks, 0) {
        Some((e, p)) => {
            if p == toks.len() {
                Some(e)
            } else {
                None
            }
        },
        None => None,
    }
}

fn parse_args(action: &Vec<char>) -> (r: Option<Vec<Expr>>)
    ensures
        match p_args(action@) {
            Ok(es) => r matches Some(v) && exprs_view(v@) == es,
            Err(_) => r is None,
        },
{
    let toks = match tokenize(action) {
        Some(t) => t,
        None => {
            return None;
        },
    };
    let ghost tv = tokens_view(toks@);
    let mut args: Vec<Expr> = Vec::new();
    let mut pos: usize = 1;
    proof {
        assert(exprs_view(args@) =~= Seq::<SExpr>::empty());
        match p_atoms_to_end(tv, 1) {
            Ok(es) => {
                assert(Seq::<SExpr>::empty() + es =~= es);
            },
            Err(u) => {
                assert(u == ());
            },
        }
    }
    while pos < toks.len()
        invariant
            1 <= pos,
            tv == tokens_view(toks@),
            p_args(action@) == p_atoms_to_end(tv, 1),
            p_atoms_to_end(tv, 1) == prepend_args(exprs_view(args@), p_atoms_to_end(tv, pos as int)),
        decreases toks.len() - pos,
    {
        match parse_atom(&toks, pos) {
            None => {
                assert(p_atoms_to_end(tv, pos as int) is Err);
                return None;
            },
            Some((e, q)) => {
                proof {
                    lemma_p_atom_advances(tv, pos as int);
                }
                let ghost old_seq = args@;
                let ghost before = exprs_view(args@);
                let ghost ev = expr_view(e);
                args.push(e);
                proof {
                    assert(args@.drop_last() =~= old_seq);
                    assert(exprs_view(args@) == before.push(ev));
                    match p_atoms_to_end(tv, q as int) {
                        Ok(es) => {
                            assert(before + (seq![ev] + es) =~= exprs_view(args@) + es);
                        },
                        Err(_) => {},
                    }
                }
                pos = q;
            },
        }
    }
    assert(exprs_view(args@) + Seq::<SExpr>::empty() =~= exprs_view(args@));
    Some(args)
}

fn parse_or(action: &Vec<char>) -> (r: Option<Node>)
    ensures
        match p_or(action@) {
            Ok(n) => r matches Some(x) && node_view(x) == n,
            Err(_) => r is None,
        },
{
    match parse_args(action) {
        None => None,
        Some(args) => {
            proof {
                lemma_exprs_view(args@);
            }
            if args.len() == 0 {
                None
            } else {
                Some(Node::Or(args))
            }
        },
    }
}

fn parse_join(action: &Vec<char>) -> (r: Option<Node>)
    ensures
        match p_join(action@) {
            Ok(n) => r matches Some(x) && node_view(x) == n,
            Err(_) => r is None,
        },
{
    match parse_args(action) {
        None => None,
        Some(args) => {
            let mut args = args;
            proof {
                lemma_exprs_view(args@);
            }
            if args.len() != 2 {
                return None;
            }
            let ghost a0 = expr_view(args@[0]);
            let ghost a1 = expr_view(args@[1]);
            let sep = args.pop().unwrap();
            let list = args.pop().unwrap();
            match list {
                Expr::Path(l) => Some(Node::Join(l, sep)),
                _ => None,
            }
        },
    }
}

fn parse_re_replace(action: &Vec<char>) -> (r: Option<Node>)
    ensures
        match p_re_replace(action@) {
            Ok(n) => r matches Some(x) && node_view(x) == n,
            Err(_) => r is None,
        },
{
    match parse_args(action) {
        None => None,
        Some(args) => {
            let mut args = args;
            proof {
                lemma_exprs_view(args@);
            }
            if args.len() != 3 {
                return None;
            }
            let replacement = args.pop().unwrap();
            let pattern = args.pop().unwrap();
            let value = args.pop().unwrap();
            Some(Node::ReReplace(value, pattern, replacement))
        },
    }
}

/// Whether `t[lo..hi]` contains a whitespace character.
fn range_has_ws(t: &Vec<char>, lo: usize, hi: usize) -> (r: bool)
    requires
        lo <= hi <= t.len(),
    ensures
        r == has_ws(t@.subrange(lo as int, hi as int)),
{
    let ghost s = t@.subrange(lo as int, hi as int);
    let mut k = lo;
    while k < hi
        invariant
            lo <= k <= hi <= t.len(),
            s == t@.subrange(lo as int, hi as int),
            forall|j: int| 0 <= j < k - lo ==> !spec_is_ws(#[trigger] s[j]),
        decreases hi - k,
    {
        if is_ws(t[k]) {
            assert(spec_is_ws(s[k - lo]));
            return true;
        }
        k = k + 1;
    }
    false
}

fn two(a: char) -> (r: Vec<char>)
    ensures
        r@ == seq![a, a],
{
    let mut v: Vec<char> = Vec::new();
    v.push(a);
    v.push(a);
    assert(v@ =~= seq![a, a]);
    v
}

/// Exec form of [`Scan`], with absolute indices into the template.
enum ScanAt {
    NoAction,
    Unclosed,
    /// `{{` at `open`; trimmed action text at `a..b`; input resumes at `rem`.
    Action(usize, usize, usize, usize),
}

fn scan_at(t: &Vec<char>, cur: usize, od: &Vec<char>, cd: &Vec<char>) -> (r: ScanAt)
    requires
        cur <= t.len(),
        od@ == open_delim(),
        cd@ == close_delim(),
    ensures
        match scan(t@.skip(cur as int)) {
            Scan::NoAction => r is NoAction,
            Scan::Unclosed => r is Unclosed,
            Scan::Action(open, action, rem) => r matches ScanAt::Action(o, a, b, rm) && cur
                <= o && o - cur == open && o + 2 <= a <= b <= t.len() && action == t@.subrange(
                a as int,
                b as int,
            ) && b + 2 <= rm <= t.len() && rem == t@.skip(rm as int) && trim_start(action)
                == action,
        },
{
    let ghost input = t@.skip(cur as int);
    match find_from(t, cur, od) {
        None => ScanAt::NoAction,
        Some(o) => {
            proof {
                lemma_find_bound(input, open_delim());
            }
            let ghost open = o - cur;
            let a0 = o + 2;
            let ghost after = input.skip(open + 2);
            assert(after =~= t@.skip(a0 as int));
            match find_from(t, a0, cd) {
                None => ScanAt::Unclosed,
                Some(c) => {
                    proof {
                        lemma_find_bound(after, close_delim());
                    }
                    let ghost close = c - a0;
                    assert(after.take(close) =~= t@.subrange(a0 as int, c as int));
                    let (a, b) = trim_bounds(t, a0, c);
                    proof {
                        lemma_trim_has_no_leading_ws(t@.subrange(a0 as int, c as int));
                    }
                    assert(after.skip(close + 2) =~= t@.skip(c + 2));
                    ScanAt::Action(o, a, b, c + 2)
                },
            }
        },
    }
}

fn parse_simple(head: Vec<char>, action: &Vec<char>) -> (r: Option<Node>)
    ensures
        match p_simple(head@, action@) {
            Ok(n) => r matches Some(x) && node_view(x) == n,
            Err(_) => r is None,
        },
{
    if word_is(&head, "or") {
        parse_or(action)
    } else if word_is(&head, "join") {
        parse_join(action)
    } else if word_is(&head, "re_replace") {
        parse_re_replace(action)
    } else if head.len() > 0 && head[0] == '.' {
        Some(Node::Var(head))
    } else {
        None
    }
}

fn stops_at(ss: StopSet, head: &Vec<char>) -> (r: bool)
    ensures
        r == is_stop(ss, head@),
{
    match ss {
        StopSet::Top => false,
        StopSet::ElseOrEnd => word_is(head, "else") || word_is(head, "end"),
        StopSet::End => word_is(head, "end"),
    }
}

fn parse_until(t: &Vec<char>, i: usize, ss: StopSet) -> (r: Result<(Vec<Node>, Option<(bool, usize)>), ()>)
    requires
        i <= t.len(),
    ensures
        match p_until(t@.skip(i as int), ss) {
            Ok((ns, st)) => r matches Ok((v, o)) && nodes_view(v@) == ns && match st {
                SStop::Eof => o is None,
                SStop::At(h, after) => o matches Some((e, j)) && i < j <= t.len() && t@.skip(
                    j as int,
                ) == after && e == (h == "else"@),
            },
            Err(_) => r is Err,
        },
    decreases t@.len() - i, 0int,
{
    let od = two('{');
    let cd = two('}');
    let mut nodes: Vec<Node> = Vec::new();
    let mut cur = i;
    proof {
        assert(nodes_view(nodes@) =~= Seq::<SNode>::empty());
        lemma_cont_empty(p_until(t@.skip(i as int), ss));
    }
    loop
        invariant
            i <= cur <= t.len(),
            od@ == open_delim(),
            cd@ == close_delim(),
            p_until(t@.skip(i as int), ss) == cont(nodes_view(nodes@), p_until(t@.skip(cur as int), ss)),
        decreases t.len() - cur,
    {
        let ghost input = t@.skip(cur as int);
        let ghost v0 = nodes_view(nodes@);
        let ghost old_seq = nodes@;
        match scan_at(t, cur, &od, &cd) {
            ScanAt::Unclosed => {
                return Err(());
            },
            ScanAt::NoAction => {
                match ss {
                    StopSet::Top => {},
                    _ => {
                        return Err(());
                    },
                }
                if cur < t.len() {
                    let txt = copy_range(t, cur, t.len());
                    let ghost txv = txt@;
                    let nd = Node::Text(txt);
                    let ghost ndg = nd;
                    nodes.push(nd);
                    proof {
                        lemma_nodes_view_push(old_seq, ndg);
                        assert(nodes_view(nodes@) == v0.push(SNode::Text(txv)));
                        assert(input =~= t@.subrange(cur as int, t.len() as int));
                        assert(nodes_view(nodes@) =~= v0 + text_node(input));
                    }
                } else {
                    assert(text_node(input) =~= Seq::<SNode>::empty());
                    assert(nodes_view(nodes@) =~= v0 + text_node(input));
                }
                return Ok((nodes, None));
            },
            ScanAt::Action(o, a, b, rem) => {
                let ghost open = o - cur;
                let ghost pre = text_node(input.take(open));
                if o > cur {
                    let txt = copy_range(t, cur, o);
                    let ghost txv = txt@;
                    let nd = Node::Text(txt);
                    let ghost ndg = nd;
                    nodes.push(nd);
                    proof {
                        lemma_nodes_view_push(old_seq, ndg);
                        assert(nodes_view(nodes@) == v0.push(SNode::Text(txv)));
                        assert(input.take(open) =~= t@.subrange(cur as int, o as int));
                    }
                } else {
                    assert(input.take(open) =~= Seq::<char>::empty());
                }
                assert(nodes_view(nodes@) =~= v0 + pre);
                let ghost action = t@.subrange(a as int, b as int);
                let w = word_end(t, a, b);
                assert(first_word(action) == t@.subrange(a as int, w as int));
                let head = copy_range(t, a, w);
                if stops_at(ss, &head) {
                    let is_else = word_is(&head, "else");
                    proof {
                        lemma_cont_assoc(v0, pre, p_until(input, ss));
                        assert(v0 + pre + Seq::<SNode>::empty() =~= v0 + pre);
                    }
                    return Ok((nodes, Some((is_else, rem))));
                }
                let action_v = copy_range(t, a, b);
                let is_if = word_is(&head, "if");
                let next: usize;
                let node: Node;
                if is_if || word_is(&head, "range") {
                    let r = if is_if {
                        parse_if(t, &action_v, rem)
                    } else {
                        parse_range(t, &action_v, rem)
                    };
                    match r {
                        None => {
                            return Err(());
                        },
                        Some((n, j)) => {
                            node = n;
                            next = j;
                        },
                    }
                } else {
                    match parse_simple(head, &action_v) {
                        None => {
                            return Err(());
                        },
                        Some(n) => {
                            node = n;
                            next = rem;
                        },
                    }
                }
                let ghost nv = node_view(node);
                let ghost ng = node;
                let ghost s1 = nodes@;
                nodes.push(node);
                proof {
                    lemma_nodes_view_push(s1, ng);
                    assert(nodes_view(nodes@) =~= v0 + pre.push(nv));
                    lemma_cont_assoc(v0, pre.push(nv), p_until(t@.skip(next as int), ss));
                }
                cur = next;
            },
        }
    }
}

fn parse_if(t: &Vec<char>, action: &Vec<char>, rem: usize) -> (r: Option<(Node, usize)>)
    requires
        rem <= t.len(),
    ensures
        match p_if(action@, t@.skip(rem as int)) {
            Ok((n, next)) => r matches Some((x, j)) && node_view(x) == n && rem < j <= t.len()
                && t@.skip(j as int) == next,
            Err(_) => r is None,
        },
    decreases t@.len() - rem, 1int,
{
    if action.len() < 2 {
        return None;
    }
    let (a, b) = trim_bounds(action, 2, action.len());
    let x = copy_range(action, a, b);
    assert(action@.skip(2) =~= action@.subrange(2, action@.len() as int));
    let cond = match parse_cond(&x) {
        Some(c) => c,
        None => {
            return None;
        },
    };
    match parse_until(t, rem, StopSet::ElseOrEnd) {
        Err(_) => None,
        Ok((then, stop)) => match stop {
            None => None,
            Some((is_else, j)) => {
                if is_else {
                    match parse_until(t, j, StopSet::End) {
                        Err(_) => None,
                        Ok((oth, stop2)) => match stop2 {
                            None => None,
                            Some((_, j2)) => Some((Node::If(cond, then, oth), j2)),
                        },
                    }
                } else {
                    let oth: Vec<Node> = Vec::new();
                    assert(nodes_view(oth@) =~= Seq::<SNode>::empty());
                    Some((Node::If(cond, then, oth), j))
                }
            },
        },
    }
}

fn parse_range(t: &Vec<char>, action: &Vec<char>, rem: usize) -> (r: Option<(Node, usize)>)
    requires
        rem <= t.len(),
    ensures
        match p_range(action@, t@.skip(rem as int)) {
            Ok((n, next)) => r matches Some((x, j)) && node_view(x) == n && rem < j <= t.len()
                && t@.skip(j as int) == next,
            Err(_) => r is None,
        },
    decreases t@.len() - rem, 1int,
{
    if action.len() < 5 {
        return None;
    }
    let (a, b) = trim_bounds(action, 5, action.len());
    assert(action@.skip(5) =~= action@.subrange(5, action@.len() as int));
    if a == b || action[a] != '.' || range_has_ws(action, a, b) {
        return None;
    }
    let list = copy_range(action, a, b);
    match parse_until(t, rem, StopSet::End) {
        Err(_) => None,
        Ok((body, stop)) => match stop {
            None => None,
            Some((_, j)) => Some((Node::Range(list, body), j)),
        },
    }
}

/// Parses a whole template (`None` when it does not parse).
fn parse(t: &Vec<char>) -> (r: Option<Vec<Node>>)
    ensures
        match spec_parse(t@) {
            Ok(ns) => r matches Some(v) && nodes_view(v@) == ns,
            Err(_) => r is None,
        },
{
    assert(t@.skip(0) =~= t@);
    match parse_until(t, 0, StopSet::Top) {
        Ok((nodes, _)) => Some(nodes),
        Err(_) => None,
    }
}


// ---------------------------------------------------------------------------
// Rendering: meaning
// ---------------------------------------------------------------------------
/// Why a template fails to render.
pub enum RenderError {
    /// The template does not parse.
    Parse,
    /// A `re_replace` pattern failed: the pattern, and the reason.
    Regex(Seq<char>, Seq<char>),
}

/// The value of a `.Config.*` / `.Result.*` / `.Query.*` binding, or the
/// empty string.
pub open spec fn get_or_empty(m: Map<Seq<char>, Seq<char>>, k: Seq<char>) -> Seq<char> {
    if m.dom().contains(k) {
        m[k]
    } else {
        Seq::empty()
    }
}

/// The value of a variable path outside a `range`.
pub open spec fn spec_lookup(sv: ScopeView, path: Seq<char>) -> Seq<char> {
    if path == ".Keywords"@ {
        sv.keywords
    } else if path == ".False"@ {
        Seq::empty()
    } else if path == ".True"@ {
        "True"@
    } else if starts_with(path, ".Config."@) {
        get_or_empty(sv.config, path.skip(8))
    } else if starts_with(path, ".Result."@) {
        get_or_empty(sv.result, path.skip(8))
    } else if starts_with(path, ".Query."@) {
        get_or_empty(sv.query, path.skip(7))
    } else {
        Seq::empty()
    }
}

/// The value of a variable path; `.` is the current `range` item.
pub open spec fn spec_value(sv: ScopeView, item: Option<Seq<char>>, path: Seq<char>) -> Seq<char> {
    if path == "."@ {
        match item {
            Some(i) => i,
            None => Seq::empty(),
        }
    } else {
        spec_lookup(sv, path)
    }
}

/// Go-template truthiness of a path: a non-empty value, or for the list
/// `.Categories`, a non-empty list.
pub open spec fn spec_truthy(sv: ScopeView, item: Option<Seq<char>>, path: Seq<char>) -> bool {
    if path == ".Categories"@ {
        sv.categories.len() > 0
    } else {
        spec_value(sv, item, path).len() > 0
    }
}

/// The string value of an expression.
pub open spec fn spec_eval_str(sv: ScopeView, item: Option<Seq<char>>, e: SExpr) -> Seq<char>
    decreases e, 1int,
{
    match e {
        SExpr::Path(p) => spec_value(sv, item, p),
        SExpr::Str(s) => s,
        SExpr::Call(_, _) => if spec_eval_bool(sv, item, e) {
            "true"@
        } else {
            "false"@
        },
    }
}

/// The truth value of an expression.
pub open spec fn spec_eval_bool(sv: ScopeView, item: Option<Seq<char>>, e: SExpr) -> bool
    decreases e, 0int,
{
    match e {
        SExpr::Path(p) => spec_truthy(sv, item, p),
        SExpr::Str(s) => s.len() > 0,
        SExpr::Call(n, args) => match n {
            CallName::And => all_true(sv, item, args),
            CallName::Or => any_true(sv, item, args),
            CallName::Eq => args.len() == 2 && same_values(sv, item, args),
            CallName::Ne => args.len() == 2 && !same_values(sv, item, args),
        },
    }
}

/// Whether every expression of `args` is true.
pub open spec fn all_true(sv: ScopeView, item: Option<Seq<char>>, args: Seq<SExpr>) -> bool
    decreases args, 0int,
{
    if args.len() == 0 {
        true
    } else {
        all_true(sv, item, args.drop_last()) && spec_eval_bool(sv, item, args.last())
    }
}

/// Whether some expression of `args` is true.
pub open spec fn any_true(sv: ScopeView, item: Option<Seq<char>>, args: Seq<SExpr>) -> bool
    decreases args, 0int,
{
    if args.len() == 0 {
        false
    } else {
        any_true(sv, item, args.drop_last()) || spec_eval_bool(sv, item, args.last())
    }
}

/// Whether the first two expressions of `args` have the same value.
pub open spec fn same_values(sv: ScopeView, item: Option<Seq<char>>, args: Seq<SExpr>) -> bool
    decreases args, 0int,
{
    if args.len() < 2 {
        false
    } else {
        spec_eval_str(sv, item, args[0]) == spec_eval_str(sv, item, args[1])
    }
}

/// The first non-empty value among `args`, or the empty string.
pub open spec fn first_nonempty(sv: ScopeView, item: Option<Seq<char>>, args: Seq<SExpr>) -> Seq<
    char,
>
    decreases args.len(),
{
    if args.len() == 0 {
        Seq::empty()
    } else {
        let v = spec_eval_str(sv, item, args[0]);
        if v.len() > 0 {
            v
        } else {
            first_nonempty(sv, item, args.drop_first())
        }
    }
}

/// `items` joined with `sep` between consecutive items.
pub open spec fn join_with(items: Seq<Seq<char>>, sep: Seq<char>) -> Seq<char>
    decreases items.len(),
{
    if items.len() == 0 {
        Seq::empty()
    } else if items.len() == 1 {
        items[0]
    } else {
        join_with(items.drop_last(), sep) + sep + items.last()
    }
}

/// What `{{ re_replace VALUE PATTERN REPLACEMENT }}` renders, given the
/// values of its three arguments.
pub open spec fn spec_re_replace(text: Seq<char>, pat: Seq<char>, rep: Seq<char>) -> Result<
    Seq<char>,
    RenderError,
> {
    match spec_compile(pat) {
        Err(why) => Err(RenderError::Regex(pat, "invalid regular expression: "@ + why)),
        Ok(_) => match spec_replace_all(pat, text, rep) {
            Ok(out) => Ok(out),
            Err(why) => Err(RenderError::Regex(pat, why)),
        },
    }
}

pub open spec fn then_append(
    r: Result<Seq<char>, RenderError>,
    s: Result<Seq<char>, RenderError>,
) -> Result<Seq<char>, RenderError> {
    match r {
        Err(e) => Err(e),
        Ok(a) => match s {
            Err(e) => Err(e),
            Ok(b) => Ok(a + b),
        },
    }
}

/// The output of a node list, in order; the first failure ends it.
pub open spec fn spec_render_nodes(sv: ScopeView, item: Option<Seq<char>>, ns: Seq<SNode>) -> Result<
    Seq<char>,
    RenderError,
>
    decreases ns, 0int,
{
    if ns.len() == 0 {
        Ok(Seq::empty())
    } else {
        then_append(
            spec_render_nodes(sv, item, ns.drop_last()),
            spec_render_node(sv, item, ns.last()),
        )
    }
}

/// The output of a `range` body once per item, in order.
pub open spec fn spec_render_range(sv: ScopeView, body: Seq<SNode>, items: Seq<Seq<char>>) -> Result<
    Seq<char>,
    RenderError,
>
    decreases body, items.len() as int,
{
    if items.len() == 0 {
        Ok(Seq::empty())
    } else {
        then_append(
            spec_render_range(sv, body, items.drop_last()),
            spec_render_nodes(sv, Some(items.last()), body),
        )
    }
}

/// The output of one node.
pub open spec fn spec_render_node(sv: ScopeView, item: Option<Seq<char>>, n: SNode) -> Result<
    Seq<char>,
    RenderError,
>
    decreases n, 0int,
{
    match n {
        SNode::Text(t) => Ok(t),
        SNode::Var(p) => Ok(spec_value(sv, item, p)),
        SNode::Or(args) => Ok(first_nonempty(sv, item, args)),
        SNode::Join(list, sep) => if list == ".Categories"@ {
            Ok(join_with(sv.categories, spec_eval_str(sv, item, sep)))
        } else {
            Ok(Seq::empty())
        },
        SNode::ReReplace(v, p, r) => spec_re_replace(
            spec_eval_str(sv, item, v),
            spec_eval_str(sv, item, p),
            spec_eval_str(sv, item, r),
        ),
        SNode::Range(list, body) => if list == ".Categories"@ {
            spec_render_range(sv, body, sv.categories)
        } else {
            Ok(Seq::empty())
        },
        SNode::If(c, t, o) => if spec_eval_bool(sv, item, c) {
            spec_render_nodes(sv, item, t)
        } else {
            spec_render_nodes(sv, item, o)
        },
    }
}

/// What rendering template `t` against a scope gives.
pub open spec fn spec_render(t: Seq<char>, sv: ScopeView) -> Result<Seq<char>, RenderError> {
    match spec_parse(t) {
        Err(_) => Err(RenderError::Parse),
        Ok(ns) => spec_render_nodes(sv, None, ns),
    }
}


// ---------------------------------------------------------------------------
// Rendering
// ---------------------------------------------------------------------------
pub open spec fn item_view(item: Option<&Vec<char>>) -> Option<Seq<char>> {
    match item {
        Some(v) => Some(v@),
        None => None,
    }
}

proof fn lemma_exprs_view_push(s: Seq<Expr>, e: Expr)
    ensures
        exprs_view(s.push(e)) == exprs_view(s).push(expr_view(e)),
{
    assert(s.push(e).drop_last() =~= s);
    assert(s.push(e).last() == e);
}

fn lookup(sc: &Scope, path: &Vec<char>) -> (r: Vec<char>)
    ensures
        r@ == spec_lookup(sc@, path@),
{
    if word_is(path, ".Keywords") {
        return chars_of(sc.keywords.as_str());
    }
    if word_is(path, ".False") {
        return Vec::new();
    }
    if word_is(path, ".True") {
        return chars_of("True");
    }
    let config = chars_of(".Config.");
    let result = chars_of(".Result.");
    let query = chars_of(".Query.");
    proof {
        reveal_strlit(".Config.");
        reveal_strlit(".Result.");
        reveal_strlit(".Query.");
    }
    if matches_at(path, 0, &config) {
        let name = copy_range(path, 8, path.len());
        assert(name@ == path@.skip(8));
        get_pair(&sc.config, &name)
    } else if matches_at(path, 0, &result) {
        let name = copy_range(path, 8, path.len());
        assert(name@ == path@.skip(8));
        get_pair(&sc.result, &name)
    } else if matches_at(path, 0, &query) {
        let name = copy_range(path, 7, path.len());
        assert(name@ == path@.skip(7));
        get_pair(&sc.query, &name)
    } else {
        Vec::new()
    }
}

fn value(sc: &Scope, item: Option<&Vec<char>>, path: &Vec<char>) -> (r: Vec<char>)
    ensures
        r@ == spec_value(sc@, item_view(item), path@),
{
    if word_is(path, ".") {
        match item {
            Some(v) => copy_chars(v),
            None => Vec::new(),
        }
    } else {
        lookup(sc, path)
    }
}

fn truthy(sc: &Scope, item: Option<&Vec<char>>, path: &Vec<char>) -> (r: bool)
    ensures
        r == spec_truthy(sc@, item_view(item), path@),
{
    if word_is(path, ".Categories") {
        sc.categories.len() > 0
    } else {
        value(sc, item, path).len() > 0
    }
}

fn eval_str(sc: &Scope, item: Option<&Vec<char>>, e: &Expr) -> (r: Vec<char>)
    ensures
        r@ == spec_eval_str(sc@, item_view(item), expr_view(*e)),
    decreases expr_view(*e), 1int,
{
    match e {
        Expr::Path(p) => value(sc, item, p),
        Expr::Str(s) => copy_chars(s),
        Expr::Call(_, _) => if eval_bool(sc, item, e) {
            chars_of("true")
        } else {
            chars_of("false")
        },
    }
}

fn eval_bool(sc: &Scope, item: Option<&Vec<char>>, e: &Expr) -> (r: bool)
    ensures
        r == spec_eval_bool(sc@, item_view(item), expr_view(*e)),
    decreases expr_view(*e), 0int,
{
    match e {
        Expr::Path(p) => {
            assert(expr_view(*e) == SExpr::Path(p@));
            truthy(sc, item, p)
        },
        Expr::Str(s) => {
            assert(expr_view(*e) == SExpr::Str(s@));
            s.len() > 0
        },
        Expr::Call(n, args) => {
            assert(expr_view(*e) == SExpr::Call(*n, exprs_view(args@)));
            proof {
                let ev = expr_view(*e);
                match ev {
                    SExpr::Call(_, a) => {
                        assert(decreases_to!(ev => a));
                    },
                    _ => {},
                }
            }
            proof {
                lemma_exprs_view(args@);
            }
            let b = match n {
                CallName::And => all_true_of(sc, item, args),
                CallName::Or => any_true_of(sc, item, args),
                CallName::Eq => args.len() == 2 && same_values_of(sc, item, args),
                CallName::Ne => args.len() == 2 && !same_values_of(sc, item, args),
            };
            assert(b == spec_eval_bool(sc@, item_view(item), SExpr::Call(*n, exprs_view(args@))));
            b
        },
    }
}

fn all_true_of(sc: &Scope, item: Option<&Vec<char>>, args: &Vec<Expr>) -> (r: bool)
    ensures
        r == all_true(sc@, item_view(item), exprs_view(args@)),
    decreases exprs_view(args@), 0int,
{
    let mut acc = true;
    let mut i: usize = 0;
    proof {
        lemma_exprs_view(args@);
        assert(args@.take(0) =~= Seq::<Expr>::empty());
    }
    while i < args.len()
        invariant
            0 <= i <= args.len(),
            exprs_view(args@).len() == args@.len(),
            forall|j: int| 0 <= j < args@.len() ==> #[trigger] exprs_view(args@)[j] == expr_view(args@[j]),
            acc == all_true(sc@, item_view(item), exprs_view(args@.take(i as int))),
        decreases args.len() - i,
    {
        assert(decreases_to!(exprs_view(args@) => exprs_view(args@)[i as int]));
        let b = eval_bool(sc, item, &args[i]);
        proof {
            assert(args@.take(i + 1) =~= args@.take(i as int).push(args@[i as int]));
            lemma_exprs_view_push(args@.take(i as int), args@[i as int]);
            let xs = exprs_view(args@.take(i as int)).push(expr_view(args@[i as int]));
            assert(xs.drop_last() =~= exprs_view(args@.take(i as int)));
        }
        acc = acc && b;
        i = i + 1;
    }
    assert(args@.take(args@.len() as int) =~= args@);
    acc
}

fn any_true_of(sc: &Scope, item: Option<&Vec<char>>, args: &Vec<Expr>) -> (r: bool)
    ensures
        r == any_true(sc@, item_view(item), exprs_view(args@)),
    decreases exprs_view(args@), 0int,
{
    let mut acc = false;
    let mut i: usize = 0;
    proof {
        lemma_exprs_view(args@);
        assert(args@.take(0) =~= Seq::<Expr>::empty());
    }
    while i < args.len()
        invariant
            0 <= i <= args.len(),
            exprs_view(args@).len() == args@.len(),
            forall|j: int| 0 <= j < args@.len() ==> #[trigger] exprs_view(args@)[j] == expr_view(args@[j]),
            acc == any_true(sc@, item_view(item), exprs_view(args@.take(i as int))),
        decreases args.len() - i,
    {
        assert(decreases_to!(exprs_view(args@) => exprs_view(args@)[i as int]));
        let b = eval_bool(sc, item, &args[i]);
        proof {
            assert(args@.take(i + 1) =~= args@.take(i as int).push(args@[i as int]));
            lemma_exprs_view_push(args@.take(i as int), args@[i as int]);
            let xs = exprs_view(args@.take(i as int)).push(expr_view(args@[i as int]));
            assert(xs.drop_last() =~= exprs_view(args@.take(i as int)));
        }
        acc = acc || b;
        i = i + 1;
    }
    assert(args@.take(args@.len() as int) =~= args@);
    acc
}

fn same_values_of(sc: &Scope, item: Option<&Vec<char>>, args: &Vec<Expr>) -> (r: bool)
    ensures
        r == same_values(sc@, item_view(item), exprs_view(args@)),
    decreases exprs_view(args@), 0int,
{
    proof {
        lemma_exprs_view(args@);
    }
    if args.len() < 2 {
        return false;
    }
    assert(decreases_to!(exprs_view(args@) => exprs_view(args@)[0]));
    assert(decreases_to!(exprs_view(args@) => exprs_view(args@)[1]));
    let a = eval_str(sc, item, &args[0]);
    let b = eval_str(sc, item, &args[1]);
    eq_chars(&a, &b)
}


fn first_nonempty_of(sc: &Scope, item: Option<&Vec<char>>, args: &Vec<Expr>) -> (r: Vec<char>)
    ensures
        r@ == first_nonempty(sc@, item_view(item), exprs_view(args@)),
{
    proof {
        lemma_exprs_view(args@);
        assert(exprs_view(args@).skip(0) =~= exprs_view(args@));
    }
    let mut i: usize = 0;
    while i < args.len()
        invariant
            0 <= i <= args.len(),
            exprs_view(args@).len() == args@.len(),
            forall|j: int| 0 <= j < args@.len() ==> #[trigger] exprs_view(args@)[j] == expr_view(args@[j]),
            first_nonempty(sc@, item_view(item), exprs_view(args@)) == first_nonempty(
                sc@,
                item_view(item),
                exprs_view(args@).skip(i as int),
            ),
        decreases args.len() - i,
    {
        let v = eval_str(sc, item, &args[i]);
        let ghost rest = exprs_view(args@).skip(i as int);
        assert(rest[0] == expr_view(args@[i as int]));
        assert(rest.drop_first() =~= exprs_view(args@).skip(i + 1));
        if v.len() > 0 {
            return v;
        }
        i = i + 1;
    }
    Vec::new()
}

fn join_of(items: &Vec<String>, sep: &Vec<char>) -> (r: Vec<char>)
    ensures
        r@ == join_with(strings_view(items@), sep@),
{
    let ghost sv = strings_view(items@);
    let mut out: Vec<char> = Vec::new();
    let mut i: usize = 0;
    assert(sv.take(0) =~= Seq::<Seq<char>>::empty());
    while i < items.len()
        invariant
            0 <= i <= items.len(),
            sv == strings_view(items@),
            sv.len() == items@.len(),
            out@ == join_with(sv.take(i as int), sep@),
        decreases items.len() - i,
    {
        if i > 0 {
            push_all(&mut out, sep);
        }
        let item = chars_of(items[i].as_str());
        push_all(&mut out, &item);
        proof {
            let t = sv.take(i + 1);
            assert(t.drop_last() =~= sv.take(i as int));
            assert(t.last() == items@[i as int]@);
            if i == 0 {
                assert(out@ =~= t[0]);
            } else {
                assert(out@ =~= join_with(sv.take(i as int), sep@) + sep@ + t.last());
            }
        }
        i = i + 1;
    }
    assert(sv.take(sv.len() as int) =~= sv);
    out
}


/// The exec form of a rendering failure: the failing pattern and the reason.
pub open spec fn fail_matches(f: (String, String), e: RenderError) -> bool {
    e == RenderError::Regex(f.0@, f.1@)
}

fn render_re_replace(
    sc: &Scope,
    item: Option<&Vec<char>>,
    v: &Expr,
    p: &Expr,
    rep: &Expr,
    out: &mut Vec<char>,
) -> (r: Result<(), (String, String)>)
    ensures
        match spec_re_replace(
            spec_eval_str(sc@, item_view(item), expr_view(*v)),
            spec_eval_str(sc@, item_view(item), expr_view(*p)),
            spec_eval_str(sc@, item_view(item), expr_view(*rep)),
        ) {
            Ok(s) => r is Ok && final(out)@ == old(out)@ + s,
            Err(e) => r matches Err(f) && fail_matches(f, e),
        },
{
    let text = eval_str(sc, item, v);
    let pat = eval_str(sc, item, p);
    let replacement = eval_str(sc, item, rep);
    let pat_s = string_of(pat.as_slice());
    match Pattern::compile(pat_s.as_str()) {
        Err(why) => {
            let mut reason = String::from_str("invalid regular expression: ");
            reason.append(why.as_str());
            Err((pat_s, reason))
        },
        Ok(re) => {
            let text_s = string_of(text.as_slice());
            let rep_s = string_of(replacement.as_slice());
            match re.replace_all(text_s.as_str(), rep_s.as_str()) {
                Ok(o) => {
                    let oc = chars_of(o.as_str());
                    push_all(out, &oc);
                    Ok(())
                },
                Err(why) => Err((pat_s, why)),
            }
        },
    }
}

proof fn lemma_render_nodes_err_prefix(sv: ScopeView, item: Option<Seq<char>>, ns: Seq<SNode>, k: int)
    requires
        0 <= k <= ns.len(),
        spec_render_nodes(sv, item, ns.take(k)) is Err,
    ensures
        spec_render_nodes(sv, item, ns) == spec_render_nodes(sv, item, ns.take(k)),
    decreases ns.len(),
{
    if k == ns.len() {
        assert(ns.take(k) =~= ns);
    } else {
        assert(ns.drop_last().take(k) =~= ns.take(k));
        lemma_render_nodes_err_prefix(sv, item, ns.drop_last(), k);
    }
}

proof fn lemma_render_range_err_prefix(sv: ScopeView, body: Seq<SNode>, items: Seq<Seq<char>>, k: int)
    requires
        0 <= k <= items.len(),
        spec_render_range(sv, body, items.take(k)) is Err,
    ensures
        spec_render_range(sv, body, items) == spec_render_range(sv, body, items.take(k)),
    decreases items.len(),
{
    if k == items.len() {
        assert(items.take(k) =~= items);
    } else {
        assert(items.drop_last().take(k) =~= items.take(k));
        lemma_render_range_err_prefix(sv, body, items.drop_last(), k);
    }
}

proof fn lemma_nodes_view_take(s: Seq<Node>, k: int)
    requires
        0 <= k <= s.len(),
    ensures
        nodes_view(s.take(k)) == nodes_view(s).take(k),
{
    lemma_nodes_view(s);
    lemma_nodes_view(s.take(k));
    assert(nodes_view(s.take(k)) =~= nodes_view(s).take(k));
}

fn render_nodes(sc: &Scope, item: Option<&Vec<char>>, nodes: &Vec<Node>, out: &mut Vec<char>) -> (r:
    Result<(), (String, String)>)
    ensures
        match spec_render_nodes(sc@, item_view(item), nodes_view(nodes@)) {
            Ok(s) => r is Ok && final(out)@ == old(out)@ + s,
            Err(e) => r matches Err(f) && fail_matches(f, e),
        },
    decreases nodes_view(nodes@), 0int,
{
    let ghost start = out@;
    let mut i: usize = 0;
    proof {
        lemma_nodes_view(nodes@);
        assert(nodes@.take(0) =~= Seq::<Node>::empty());
        assert(start + Seq::<char>::empty() =~= start);
    }
    while i < nodes.len()
        invariant
            0 <= i <= nodes.len(),
            nodes_view(nodes@).len() == nodes@.len(),
            forall|j: int| 0 <= j < nodes@.len() ==> #[trigger] nodes_view(nodes@)[j] == node_view(nodes@[j]),
            match spec_render_nodes(sc@, item_view(item), nodes_view(nodes@.take(i as int))) {
                Ok(s) => out@ == start + s,
                Err(_) => false,
            },
        decreases nodes.len() - i,
    {
        assert(decreases_to!(nodes_view(nodes@) => nodes_view(nodes@)[i as int]));
        let ghost before = out@;
        let r = render_node(sc, item, &nodes[i], out);
        proof {
            assert(nodes@.take(i + 1) =~= nodes@.take(i as int).push(nodes@[i as int]));
            lemma_nodes_view_push(nodes@.take(i as int), nodes@[i as int]);
            let xs = nodes_view(nodes@.take(i as int)).push(node_view(nodes@[i as int]));
            assert(xs.drop_last() =~= nodes_view(nodes@.take(i as int)));
        }
        match r {
            Err(f) => {
                proof {
                    lemma_nodes_view_take(nodes@, i + 1);
                    lemma_render_nodes_err_prefix(sc@, item_view(item), nodes_view(nodes@), i + 1);
                }
                return Err(f);
            },
            Ok(()) => {},
        }
        proof {
            match spec_render_nodes(sc@, item_view(item), nodes_view(nodes@.take(i as int))) {
                Ok(a) => {
                    match spec_render_node(sc@, item_view(item), node_view(nodes@[i as int])) {
                        Ok(b) => {
                            assert(out@ =~= start + (a + b));
                        },
                        Err(_) => {},
                    }
                },
                Err(_) => {},
            }
        }
        i = i + 1;
    }
    assert(nodes@.take(nodes@.len() as int) =~= nodes@);
    Ok(())
}

fn render_node(sc: &Scope, item: Option<&Vec<char>>, n: &Node, out: &mut Vec<char>) -> (r: Result<
    (),
    (String, String),
>)
    ensures
        match spec_render_node(sc@, item_view(item), node_view(*n)) {
            Ok(s) => r is Ok && final(out)@ == old(out)@ + s,
            Err(e) => r matches Err(f) && fail_matches(f, e),
        },
    decreases node_view(*n), 0int,
{
    match n {
        Node::Text(t) => {
            push_all(out, t);
            Ok(())
        },
        Node::Var(p) => {
            let v = value(sc, item, p);
            push_all(out, &v);
            Ok(())
        },
        Node::Or(args) => {
            let v = first_nonempty_of(sc, item, args);
            push_all(out, &v);
            Ok(())
        },
        Node::Join(list, sep) => {
            if word_is(list, ".Categories") {
                let sepv = eval_str(sc, item, sep);
                let v = join_of(&sc.categories, &sepv);
                push_all(out, &v);
            } else {
                assert(old(out)@ + Seq::<char>::empty() =~= old(out)@);
            }
            Ok(())
        },
        Node::ReReplace(v, p, rep) => render_re_replace(sc, item, v, p, rep, out),
        Node::Range(list, body) => {
            if !word_is(list, ".Categories") {
                assert(old(out)@ + Seq::<char>::empty() =~= old(out)@);
                return Ok(());
            }
            proof {
                let nv = node_view(*n);
                match nv {
                    SNode::Range(_, b) => {
                        assert(decreases_to!(nv => b));
                    },
                    _ => {},
                }
            }
            let ghost start = out@;
            let ghost cats = strings_view(sc.categories@);
            let mut j: usize = 0;
            assert(cats.take(0) =~= Seq::<Seq<char>>::empty());
            assert(start + Seq::<char>::empty() =~= start);
            while j < sc.categories.len()
                invariant
                    0 <= j <= sc.categories.len(),
                    cats == strings_view(sc.categories@),
                    cats.len() == sc.categories@.len(),
                    node_view(*n) == SNode::Range(list@, nodes_view(body@)),
                    list@ == ".Categories"@,
                    cats == sc@.categories,
                    match spec_render_range(sc@, nodes_view(body@), cats.take(j as int)) {
                        Ok(s) => out@ == start + s,
                        Err(_) => false,
                    },
                decreases sc.categories.len() - j,
            {
                let item_chars = chars_of(sc.categories[j].as_str());
                let r = render_nodes(sc, Some(&item_chars), body, out);
                proof {
                    let t = cats.take(j + 1);
                    assert(t.drop_last() =~= cats.take(j as int));
                    assert(t.last() == item_chars@);
                }
                match r {
                    Err(f) => {
                        proof {
                            lemma_render_range_err_prefix(sc@, nodes_view(body@), cats, j + 1);
                        }
                        return Err(f);
                    },
                    Ok(()) => {},
                }
                proof {
                    match spec_render_range(sc@, nodes_view(body@), cats.take(j as int)) {
                        Ok(a) => {
                            match spec_render_nodes(sc@, Some(item_chars@), nodes_view(body@)) {
                                Ok(b) => {
                                    assert(out@ =~= start + (a + b));
                                },
                                Err(_) => {},
                            }
                        },
                        Err(_) => {},
                    }
                }
                j = j + 1;
            }
            assert(cats.take(cats.len() as int) =~= cats);
            Ok(())
        },
        Node::If(c, t, o) => {
            if eval_bool(sc, item, c) {
                render_nodes(sc, item, t, out)
            } else {
                render_nodes(sc, item, o, out)
            }
        },
    }
}

/// The reason given for a template that does not parse.
pub open spec fn parse_failure_reason() -> Seq<char> {
    "unsupported or malformed template"@
}

/// Renders a Cardigann template against `scope`.
///
/// Fails with [`CardigannError::Template`] naming the template when it
/// does not parse (an unknown action, an `if`/`range` without its `end`,
/// unbalanced parentheses or an unterminated string in a condition), and
/// naming the pattern when a `re_replace` pattern is not a valid regular
/// expression or its replacement fails.
pub fn render(template: &str, scope: &Scope) -> (r: Result<String, CardigannError>)
    ensures
        match spec_render(template@, scope@) {
            Ok(s) => r matches Ok(x) && x@ == s,
            Err(RenderError::Parse) => r matches Err(CardigannError::Template { template: t, reason })
                && t@ == template@ && reason@ == parse_failure_reason(),
            Err(RenderError::Regex(p, why)) => r matches Err(
                CardigannError::Template { template: t, reason },
            ) && t@ == p && reason@ == why,
        },
{
    let t = chars_of(template);
    match parse(&t) {
        None => Err(
            CardigannError::Template {
                template: String::from_str(template),
                reason: String::from_str("unsupported or malformed template"),
            },
        ),
        Some(nodes) => {
            let mut out: Vec<char> = Vec::new();
            match render_nodes(scope, None, &nodes, &mut out) {
                Ok(()) => {
                    assert(Seq::<char>::empty() + out@ =~= out@);
                    Ok(string_of(out.as_slice()))
                },
                Err((p, why)) => Err(CardigannError::Template { template: p, reason: why }),
            }
        },
    }
}

/// A template with no `{{` renders as itself, whatever the scope.
pub proof fn law_text_without_actions_renders_as_itself(t: Seq<char>, sv: ScopeView)
    requires
        find(t, open_delim()) is None,
    ensures
        spec_render(t, sv) == Ok::<Seq<char>, RenderError>(t),
{
    assert(scan(t) == Scan::NoAction);
    assert(p_until(t, StopSet::Top) == Ok::<(Seq<SNode>, SStop), ()>((text_node(t), SStop::Eof)));
    assert(spec_parse(t) == Ok::<Seq<SNode>, ()>(text_node(t)));
    let ns = text_node(t);
    if t.len() > 0 {
        assert(ns == seq![SNode::Text(t)]);
        assert(ns.drop_last() =~= Seq::<SNode>::empty());
        assert(spec_render_nodes(sv, None, ns.drop_last()) == Ok::<Seq<char>, RenderError>(Seq::empty()));
        assert(spec_render_node(sv, None, ns.last()) == Ok::<Seq<char>, RenderError>(t));
        assert(Seq::<char>::empty() + t =~= t);
        assert(spec_render_nodes(sv, None, ns) == then_append(
            spec_render_nodes(sv, None, ns.drop_last()),
            spec_render_node(sv, None, ns.last()),
        ));
    } else {
        assert(ns.len() == 0);
        assert(t =~= Seq::<char>::empty());
    }
}

/// `.Config.<k>` renders, after `set_config(k, v)`, as `v`; and the
/// variable of any other config key `k2` renders as it did before.
pub proof fn law_set_config_binds_its_variable(
    sv: ScopeView,
    item: Option<Seq<char>>,
    k: Seq<char>,
    v: Seq<char>,
    k2: Seq<char>,
)
    requires
        k2 != k,
    ensures
        spec_render_node(
            ScopeView { config: sv.config.insert(k, v), ..sv },
            item,
            SNode::Var(".Config."@ + k),
        ) == Ok::<Seq<char>, RenderError>(v),
        spec_render_node(ScopeView { config: sv.config.insert(k, v), ..sv }, item, SNode::Var(".Config."@ + k2))
            == spec_render_node(sv, item, SNode::Var(".Config."@ + k2)),
{
    reveal_strlit(".Config.");
    reveal_strlit(".Keywords");
    reveal_strlit(".False");
    reveal_strlit(".True");
    reveal_strlit(".");
    let sv2 = ScopeView { config: sv.config.insert(k, v), ..sv };
    let p = ".Config."@ + k;
    let p2 = ".Config."@ + k2;
    assert(p.len() >= 8 && p[0] == '.' && p[1] == 'C');
    assert(p != "."@);
    assert(p != ".Keywords"@ && p != ".False"@ && p != ".True"@) by {
        assert(p[2] == 'o');
        assert(".Keywords"@[1] == 'K');
        assert(".False"@[1] == 'F');
        assert(".True"@[1] == 'T');
    }
    assert(starts_with(p, ".Config."@)) by {
        assert(p.subrange(0, 8) =~= ".Config."@);
    }
    assert(p.skip(8) =~= k);
    assert(p2.len() >= 8 && p2[0] == '.' && p2[1] == 'C' && p2[2] == 'o');
    assert(p2 != "."@);
    assert(p2 != ".Keywords"@ && p2 != ".False"@ && p2 != ".True"@) by {
        assert(".Keywords"@[1] == 'K');
        assert(".False"@[1] == 'F');
        assert(".True"@[1] == 'T');
    }
    assert(starts_with(p2, ".Config."@)) by {
        assert(p2.subrange(0, 8) =~= ".Config."@);
    }
    assert(p2.skip(8) =~= k2);
}

proof fn lemma_all_true_every(sv: ScopeView, item: Option<Seq<char>>, args: Seq<SExpr>)
    ensures
        all_true(sv, item, args) <==> forall|i: int| 0 <= i < args.len() ==> spec_eval_bool(sv, item, #[trigger] args[i]),
    decreases args.len(),
{
    if args.len() > 0 {
        let d = args.drop_last();
        lemma_all_true_every(sv, item, d);
        assert forall|i: int| 0 <= i < d.len() implies #[trigger] d[i] == args[i] by {}
        if all_true(sv, item, args) {
            assert forall|i: int| 0 <= i < args.len() implies spec_eval_bool(sv, item, #[trigger] args[i]) by {
                if i < d.len() {
                    assert(d[i] == args[i]);
                } else {
                    assert(args[i] == args.last());
                }
            }
        }
        if forall|i: int| 0 <= i < args.len() ==> spec_eval_bool(sv, item, #[trigger] args[i]) {
            assert forall|i: int| 0 <= i < d.len() implies spec_eval_bool(sv, item, #[trigger] d[i]) by {
                assert(d[i] == args[i]);
            }
            assert(spec_eval_bool(sv, item, args[args.len() - 1]));
        }
    }
}

proof fn lemma_any_true_some(sv: ScopeView, item: Option<Seq<char>>, args: Seq<SExpr>)
    ensures
        any_true(sv, item, args) <==> exists|i: int| 0 <= i < args.len() && spec_eval_bool(sv, item, #[trigger] args[i]),
    decreases args.len(),
{
    if args.len() > 0 {
        let d = args.drop_last();
        lemma_any_true_some(sv, item, d);
        if any_true(sv, item, args) {
            if any_true(sv, item, d) {
                let i = choose|i: int| 0 <= i < d.len() && spec_eval_bool(sv, item, #[trigger] d[i]);
                assert(d[i] == args[i]);
                assert(spec_eval_bool(sv, item, args[i]));
            } else {
                assert(spec_eval_bool(sv, item, args[args.len() - 1]));
            }
        }
        if exists|i: int| 0 <= i < args.len() && spec_eval_bool(sv, item, #[trigger] args[i]) {
            let i = choose|i: int| 0 <= i < args.len() && spec_eval_bool(sv, item, #[trigger] args[i]);
            if i < d.len() {
                assert(d[i] == args[i]);
                assert(spec_eval_bool(sv, item, d[i]));
            } else {
                assert(args[i] == args.last());
            }
        }
    }
}

/// An `and` call is true exactly when every one of its arguments is true
/// (so one false argument makes it false), and an `or` call exactly when
/// at least one is.
pub proof fn law_and_needs_every_argument_or_needs_one(sv: ScopeView, item: Option<Seq<char>>, args: Seq<SExpr>)
    ensures
        spec_eval_bool(sv, item, SExpr::Call(CallName::And, args)) <==> forall|i: int|
            0 <= i < args.len() ==> spec_eval_bool(sv, item, #[trigger] args[i]),
        spec_eval_bool(sv, item, SExpr::Call(CallName::Or, args)) <==> exists|i: int|
            0 <= i < args.len() && spec_eval_bool(sv, item, #[trigger] args[i]),
{
    lemma_all_true_every(sv, item, args);
    lemma_any_true_some(sv, item, args);
}

} // verus!
