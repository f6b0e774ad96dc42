//! Static checks of a definition, with no I/O: every selector compiles,
//! every filter is implemented, every template parses.
use vstd::prelude::*;

use crate::error::{CardigannError, SError};
use crate::filters::{args_view, parse_filter, spec_parse_filter, FilterErr};
use crate::model::{Definition, Field, FilterSpec, SearchPath};
use crate::selector::{compile, spec_compile_selector, SelErr};
use crate::template::{parse_failure_reason, render, spec_render, RenderError, Scope, ScopeView};
use crate::text::{chars_of, find, find_in};

verus! {

/// Whether a text holds a template (`{{`).
pub open spec fn has_template(s: Seq<char>) -> bool {
    find(s, "{{"@) is Some
}

fn holds_template(s: &str) -> (r: bool)
    ensures
        r == has_template(s@),
{
    find_in(&chars_of(s), &chars_of("{{")).is_some()
}

/// The scope with nothing bound.
pub open spec fn empty_scope() -> ScopeView {
    ScopeView {
        keywords: Seq::empty(),
        config: Map::empty(),
        result: Map::empty(),
        query: Map::empty(),
        categories: Seq::empty(),
    }
}

/// The first failure of two checks made in turn.
pub open spec fn and_check(a: Result<(), SError>, b: Result<(), SError>) -> Result<(), SError> {
    if a is Err {
        a
    } else {
        b
    }
}

/// A selector compiles; a templated one is resolved at request time and
/// not checked.
pub open spec fn selector_check(raw: Seq<char>) -> Result<(), SError> {
    if has_template(raw) {
        Ok(())
    } else {
        match spec_compile_selector(raw) {
            Ok(_) => Ok(()),
            Err(SelErr::Unbalanced) => Err(SError::UnbalancedContains(raw)),
            Err(SelErr::Css(why)) => Err(SError::Selector(raw, why)),
        }
    }
}

/// A filter invocation names an implemented filter with usable arguments.
pub open spec fn filter_check(f: FilterSpec) -> Result<(), SError> {
    match spec_parse_filter(f.name@, f.args.texts()) {
        Ok(_) => Ok(()),
        Err(FilterErr::Unknown) => Err(SError::UnknownFilter(f.name@)),
        Err(FilterErr::BadRegex(e)) => Err(SError::Filter(f.name@, "invalid regex: "@ + e)),
    }
}

/// A template renders against the empty scope.
pub open spec fn template_check(t: Seq<char>) -> Result<(), SError> {
    match spec_render(t, empty_scope()) {
        Ok(_) => Ok(()),
        Err(RenderError::Parse) => Err(SError::Template(t, parse_failure_reason())),
        Err(RenderError::Regex(p, why)) => Err(SError::Template(p, why)),
    }
}

pub open spec fn filters_check(fs: Seq<FilterSpec>) -> Result<(), SError>
    decreases fs.len(),
{
    if fs.len() == 0 {
        Ok(())
    } else {
        and_check(filters_check(fs.drop_last()), filter_check(fs.last()))
    }
}

/// A templated path renders.
pub open spec fn path_check(p: SearchPath) -> Result<(), SError> {
    if has_template(p.path@) {
        template_check(p.path@)
    } else {
        Ok(())
    }
}

pub open spec fn paths_check(ps: Seq<SearchPath>) -> Result<(), SError>
    decreases ps.len(),
{
    if ps.len() == 0 {
        Ok(())
    } else {
        and_check(paths_check(ps.drop_last()), path_check(ps.last()))
    }
}

/// Every `case:` key but the catch-all `*` is a selector that compiles.
pub open spec fn case_keys_check(c: Seq<(String, String)>) -> Result<(), SError>
    decreases c.len(),
{
    if c.len() == 0 {
        Ok(())
    } else {
        and_check(
            case_keys_check(c.drop_last()),
            if c.last().0@ == "*"@ {
                Ok(())
            } else {
                selector_check(c.last().0@)
            },
        )
    }
}

pub open spec fn opt_check(o: Option<String>, check: spec_fn(Seq<char>) -> Result<(), SError>) -> Result<(), SError> {
    match o {
        Some(s) => check(s@),
        None => Ok(()),
    }
}

/// A field's selector, `remove:` selector, `case:` keys (for an HTML
/// definition), `text:` template and filters, in that order.
pub open spec fn field_check(f: Field, html: bool) -> Result<(), SError> {
    and_check(
        opt_check(f.selector, |s: Seq<char>| selector_check(s)),
        and_check(
            opt_check(f.remove, |s: Seq<char>| selector_check(s)),
            and_check(
                match f.case {
                    Some(c) => if html {
                        case_keys_check(c@)
                    } else {
                        Ok(())
                    },
                    None => Ok(()),
                },
                and_check(opt_check(f.text, |t: Seq<char>| template_check(t)), filters_check(f.filters@)),
            ),
        ),
    )
}

pub open spec fn fields_check(fs: Seq<(String, Field)>, html: bool) -> Result<(), SError>
    decreases fs.len(),
{
    if fs.len() == 0 {
        Ok(())
    } else {
        and_check(fields_check(fs.drop_last(), html), field_check(fs.last().1, html))
    }
}

/// What validating a definition finds: the rows selector, the rows
/// filters, the templated paths, then every field, the first problem
/// winning.
pub open spec fn spec_validate(def: Definition) -> Result<(), SError> {
    and_check(
        selector_check(def.search.rows.selector@),
        and_check(
            filters_check(def.search.rows.filters@),
            and_check(paths_check(def.search.paths@), fields_check(def.search.fields@, !def.spec_declares_json())),
        ),
    )
}

pub open spec fn outcome(r: Result<(), CardigannError>, s: Result<(), SError>) -> bool {
    match s {
        Ok(_) => r is Ok,
        Err(e) => r matches Err(x) && x.sview() == e,
    }
}

/// Checks one selector compiles, unless it is templated.
pub fn check_selector(raw: &str) -> (r: Result<(), CardigannError>)
    ensures
        outcome(r, selector_check(raw@)),
{
    if holds_template(raw) {
        return Ok(());
    }
    match compile(raw) {
        Ok(_) => Ok(()),
        Err(e) => Err(e),
    }
}

fn check_filter(f: &FilterSpec) -> (r: Result<(), CardigannError>)
    ensures
        outcome(r, filter_check(*f)),
{
    let args = f.args.to_vec();
    proof {
        assert(args_view(args@) == f.args.texts());
    }
    match parse_filter(f.name.as_str(), args.as_slice()) {
        Ok(_) => Ok(()),
        Err(e) => Err(e),
    }
}

fn check_template(t: &str) -> (r: Result<(), CardigannError>)
    ensures
        outcome(r, template_check(t@)),
{
    let scope = Scope::new();
    assert(scope@ == empty_scope());
    match render(t, &scope) {
        Ok(_) => Ok(()),
        Err(e) => Err(e),
    }
}

fn check_filters(fs: &Vec<FilterSpec>) -> (r: Result<(), CardigannError>)
    ensures
        outcome(r, filters_check(fs@)),
{
    let mut i: usize = 0;
    assert(fs@.take(0) =~= Seq::<FilterSpec>::empty());
    while i < fs.len()
        invariant
            0 <= i <= fs.len(),
            filters_check(fs@.take(i as int)) == Ok::<(), SError>(()),
        decreases fs.len() - i,
    {
        assert(fs@.take(i + 1).drop_last() =~= fs@.take(i as int));
        assert(fs@.take(i + 1).last() == fs@[i as int]);
        match check_filter(&fs[i]) {
            Ok(()) => {},
            Err(e) => {
                proof {
                    lemma_filters_error(fs@, i as int + 1, e.sview());
                }
                return Err(e);
            },
        }
        i = i + 1;
    }
    assert(fs@.take(fs.len() as int) =~= fs@);
    Ok(())
}

proof fn lemma_filters_error(fs: Seq<FilterSpec>, n: int, e: SError)
    requires
        0 <= n <= fs.len(),
        filters_check(fs.take(n)) == Err::<(), SError>(e),
    ensures
        filters_check(fs) == Err::<(), SError>(e),
    decreases fs.len() - n,
{
    if n < fs.len() {
        assert(fs.take(n + 1).drop_last() =~= fs.take(n));
        lemma_filters_error(fs, n + 1, e);
    } else {
        assert(fs.take(n) =~= fs);
    }
}

fn check_paths(ps: &Vec<SearchPath>) -> (r: Result<(), CardigannError>)
    ensures
        outcome(r, paths_check(ps@)),
{
    let mut i: usize = 0;
    assert(ps@.take(0) =~= Seq::<SearchPath>::empty());
    while i < ps.len()
        invariant
            0 <= i <= ps.len(),
            paths_check(ps@.take(i as int)) == Ok::<(), SError>(()),
        decreases ps.len() - i,
    {
        assert(ps@.take(i + 1).drop_last() =~= ps@.take(i as int));
        assert(ps@.take(i + 1).last() == ps@[i as int]);
        if holds_template(ps[i].path.as_str()) {
            match check_template(ps[i].path.as_str()) {
                Ok(()) => {},
                Err(e) => {
                    proof {
                        lemma_paths_error(ps@, i as int + 1, e.sview());
                    }
                    return Err(e);
                },
            }
        }
        i = i + 1;
    }
    assert(ps@.take(ps.len() as int) =~= ps@);
    Ok(())
}

proof fn lemma_paths_error(ps: Seq<SearchPath>, n: int, e: SError)
    requires
        0 <= n <= ps.len(),
        paths_check(ps.take(n)) == Err::<(), SError>(e),
    ensures
        paths_check(ps) == Err::<(), SError>(e),
    decreases ps.len() - n,
{
    if n < ps.len() {
        assert(ps.take(n + 1).drop_last() =~= ps.take(n));
        lemma_paths_error(ps, n + 1, e);
    } else {
        assert(ps.take(n) =~= ps);
    }
}

fn check_case_keys(c: &Vec<(String, String)>) -> (r: Result<(), CardigannError>)
    ensures
        outcome(r, case_keys_check(c@)),
{
    let mut i: usize = 0;
    assert(c@.take(0) =~= Seq::<(String, String)>::empty());
    while i < c.len()
        invariant
            0 <= i <= c.len(),
            case_keys_check(c@.take(i as int)) == Ok::<(), SError>(()),
        decreases c.len() - i,
    {
        assert(c@.take(i + 1).drop_last() =~= c@.take(i as int));
        assert(c@.take(i + 1).last() == c@[i as int]);
        if !crate::text::word_is(&chars_of(c[i].0.as_str()), "*") {
            match check_selector(c[i].0.as_str()) {
                Ok(()) => {},
                Err(e) => {
                    proof {
                        lemma_case_error(c@, i as int + 1, e.sview());
                    }
                    return Err(e);
                },
            }
        }
        i = i + 1;
    }
    assert(c@.take(c.len() as int) =~= c@);
    Ok(())
}

proof fn lemma_case_error(c: Seq<(String, String)>, n: int, e: SError)
    requires
        0 <= n <= c.len(),
        case_keys_check(c.take(n)) == Err::<(), SError>(e),
    ensures
        case_keys_check(c) == Err::<(), SError>(e),
    decreases c.len() - n,
{
    if n < c.len() {
        assert(c.take(n + 1).drop_last() =~= c.take(n));
        lemma_case_error(c, n + 1, e);
    } else {
        assert(c.take(n) =~= c);
    }
}

fn check_field(f: &Field, html: bool) -> (r: Result<(), CardigannError>)
    ensures
        outcome(r, field_check(*f, html)),
{
    if let Some(sel) = &f.selector {
        check_selector(sel.as_str())?;
    }
    if let Some(remove) = &f.remove {
        check_selector(remove.as_str())?;
    }
    if let Some(case) = &f.case {
        if html {
            check_case_keys(case)?;
        }
    }
    if let Some(text) = &f.text {
        check_template(text.as_str())?;
    }
    check_filters(&f.filters)
}

fn check_fields(fs: &Vec<(String, Field)>, html: bool) -> (r: Result<(), CardigannError>)
    ensures
        outcome(r, fields_check(fs@, html)),
{
    let mut i: usize = 0;
    assert(fs@.take(0) =~= Seq::<(String, Field)>::empty());
    while i < fs.len()
        invariant
            0 <= i <= fs.len(),
            fields_check(fs@.take(i as int), html) == Ok::<(), SError>(()),
        decreases fs.len() - i,
    {
        assert(fs@.take(i + 1).drop_last() =~= fs@.take(i as int));
        assert(fs@.take(i + 1).last() == fs@[i as int]);
        match check_field(&fs[i].1, html) {
            Ok(()) => {},
            Err(e) => {
                proof {
                    lemma_fields_error(fs@, i as int + 1, html, e.sview());
                }
                return Err(e);
            },
        }
        i = i + 1;
    }
    assert(fs@.take(fs.len() as int) =~= fs@);
    Ok(())
}

proof fn lemma_fields_error(fs: Seq<(String, Field)>, n: int, html: bool, e: SError)
    requires
        0 <= n <= fs.len(),
        fields_check(fs.take(n), html) == Err::<(), SError>(e),
    ensures
        fields_check(fs, html) == Err::<(), SError>(e),
    decreases fs.len() - n,
{
    if n < fs.len() {
        assert(fs.take(n + 1).drop_last() =~= fs.take(n));
        lemma_fields_error(fs, n + 1, html, e);
    } else {
        assert(fs.take(n) =~= fs);
    }
}

/// Statically checks a definition (see [`spec_validate`]); the first
/// problem found is the error.
pub fn validate(def: &Definition) -> (r: Result<(), CardigannError>)
    ensures
        outcome(r, spec_validate(*def)),
{
    check_selector(def.search.rows.selector.as_str())?;
    let html = !def.declares_json_response();
    check_filters(&def.search.rows.filters)?;
    check_paths(&def.search.paths)?;
    check_fields(&def.search.fields, html)
}

} // verus!
