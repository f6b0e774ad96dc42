//! The requests a search issues, built from a definition's `search`
//! block: one per reachable path, each with its templated path, inputs
//! and headers rendered against one shared scope.
use vstd::prelude::*;

use crate::auth::{form_pairs, query_pairs};
use crate::catmap::{defaults_of, entries_of, strs_view, trackers_of, CategoryMap};
use crate::client::{ascii_folded, eq_ignore_ascii_case, Body, HttpRequest, Method};
use crate::model::{CategoryMapping, Definition, Search, SearchPath};
use crate::pairs::{ins_all, insert_sorted, keys_sorted, pairs_view};
use crate::query::{opt_view, query_vars, scope_for, spec_resolved, text_or_empty, SearchQuery, Settings};
use crate::template::{parse_failure_reason, render, spec_render, strings_view, RenderError, Scope, ScopeView};
use crate::text::{chars_of, debug_quoted, push_all, push_debug_quoted, push_str, string_of, trim, trimmed, word_is};
use crate::urls::{append_pairs, join_url, joined_url, parse_url, parsed_url, query_of, set_query, url_query, url_with_pairs, url_with_query};

verus! {

/// Why a search's requests cannot be built: the definition, and why.
#[derive(Debug, Clone, PartialEq, Eq)]
pub struct RequestBuildError {
    pub definition: String,
    pub reason: String,
}

// ---------------------------------------------------------------------------
// Categories and paths
// ---------------------------------------------------------------------------
/// The tracker category ids a search is for: the query's Newznab ids
/// translated, or the definition's default ids when that gives none.
pub open spec fn spec_mapped(ms: Seq<CategoryMapping>, cats: Seq<u32>) -> Seq<Seq<char>> {
    let t = trackers_of(entries_of(ms), cats);
    if t.len() == 0 {
        defaults_of(ms)
    } else {
        t
    }
}

fn copy_strings(v: &[String]) -> (r: Vec<String>)
    ensures
        strs_view(r@) == strs_view(v@),
{
    let mut out: Vec<String> = Vec::new();
    let mut i: usize = 0;
    while i < v.len()
        invariant
            0 <= i <= v.len(),
            out@.len() == i,
            forall|j: int| 0 <= j < i ==> #[trigger] out@[j]@ == v@[j]@,
        decreases v.len() - i,
    {
        out.push(String::from_str(v[i].as_str()));
        i = i + 1;
    }
    assert(strs_view(out@) =~= strs_view(v@));
    out
}

/// Translates the query's Newznab ids into the definition's tracker ids,
/// falling back to its `default:` ids when nothing translates.
pub fn mapped_categories(def: &Definition, q: &SearchQuery) -> (r: Vec<String>)
    ensures
        strs_view(r@) == spec_mapped(def.caps.categorymappings@, q.categories@),
{
    let map = CategoryMap::from_mappings(&def.caps.categorymappings);
    let mapped = map.to_tracker(q.categories.as_slice());
    if mapped.len() == 0 {
        copy_strings(map.defaults())
    } else {
        mapped
    }
}

/// A search path as text.
pub struct SPath {
    pub path: Seq<char>,
    pub method: Option<Seq<char>>,
    pub inputs: Seq<(Seq<char>, Seq<char>)>,
    pub categories: Seq<Seq<char>>,
    pub follow: Option<bool>,
}

pub open spec fn path_view(p: SearchPath) -> SPath {
    SPath {
        path: p.path@,
        method: opt_view(p.method),
        inputs: pairs_view(p.inputs@),
        categories: strs_view(p.categories@),
        follow: p.followredirect,
    }
}

/// `search.paths`, or the shorthand `search.path` as the only path.
pub open spec fn effective_paths(s: Search) -> Seq<SPath> {
    if s.paths@.len() > 0 {
        s.paths@.map_values(|p: SearchPath| path_view(p))
    } else {
        match s.path {
            Some(p) => seq![
                SPath {
                    path: p@,
                    method: None,
                    inputs: Seq::empty(),
                    categories: Seq::empty(),
                    follow: None,
                },
            ],
            None => Seq::empty(),
        }
    }
}

/// A path is searched when it names no categories, when the search has
/// none, or when the two share one.
pub open spec fn reachable(cats: Seq<Seq<char>>, mapped: Seq<Seq<char>>) -> bool {
    cats.len() == 0 || mapped.len() == 0 || exists|i: int| 0 <= i < mapped.len() && cats.contains(#[trigger] mapped[i])
}

fn contains_string(v: &Vec<String>, x: &String) -> (r: bool)
    ensures
        r == strs_view(v@).contains(x@),
{
    let want = chars_of(x.as_str());
    let mut i: usize = 0;
    while i < v.len()
        invariant
            0 <= i <= v.len(),
            want@ == x@,
            forall|j: int| 0 <= j < i ==> v@[j]@ != x@,
        decreases v.len() - i,
    {
        if crate::text::eq_chars(&chars_of(v[i].as_str()), &want) {
            assert(strs_view(v@)[i as int] == x@);
            return true;
        }
        i = i + 1;
    }
    proof {
        if strs_view(v@).contains(x@) {
            let k = choose|k: int| 0 <= k < strs_view(v@).len() && strs_view(v@)[k] == x@;
            assert(v@[k]@ == x@);
        }
    }
    false
}

/// Whether `path` is searched for the tracker ids `mapped`.
pub fn is_reachable(path: &SearchPath, mapped: &[String]) -> (r: bool)
    ensures
        r == reachable(strs_view(path.categories@), strs_view(mapped@)),
{
    if path.categories.len() == 0 || mapped.len() == 0 {
        return true;
    }
    let mut i: usize = 0;
    while i < mapped.len()
        invariant
            0 <= i <= mapped.len(),
            forall|j: int| 0 <= j < i ==> !strs_view(path.categories@).contains(#[trigger] strs_view(mapped@)[j]),
        decreases mapped.len() - i,
    {
        if contains_string(&path.categories, &mapped[i]) {
            assert(strs_view(path.categories@).contains(strs_view(mapped@)[i as int]));
            return true;
        }
        i = i + 1;
    }
    false
}

// ---------------------------------------------------------------------------
// The base URL
// ---------------------------------------------------------------------------
/// The first link, ending in `/`, as a URL.
pub open spec fn spec_base_url(links: Seq<Seq<char>>) -> Result<Seq<char>, Seq<char>> {
    if links.len() == 0 {
        Err("definition declares no links"@)
    } else {
        let link = links[0];
        let norm = if link.len() > 0 && link.last() == '/' {
            link
        } else {
            link + "/"@
        };
        match parsed_url(norm) {
            Ok(u) => Ok(u),
            Err(e) => Err("invalid base link "@ + debug_quoted(link) + ": "@ + e),
        }
    }
}

/// The definition's first link, normalised to end with `/`, as a URL; the
/// reason when there is none or it does not parse.
pub fn resolve_base_url(def: &Definition) -> (r: Result<String, String>)
    ensures
        match spec_base_url(strs_view(def.links@)) {
            Ok(u) => r matches Ok(x) && x@ == u,
            Err(e) => r matches Err(x) && x@ == e,
        },
{
    if def.links.len() == 0 {
        return Err(String::from_str("definition declares no links"));
    }
    let link = chars_of(def.links[0].as_str());
    assert(strs_view(def.links@)[0] == link@);
    let mut norm = crate::text::copy_chars(&link);
    if !(link.len() > 0 && link[link.len() - 1] == '/') {
        push_str(&mut norm, "/");
    }
    match parse_url(string_of(norm.as_slice()).as_str()) {
        Ok(u) => Ok(u),
        Err(e) => {
            let mut msg = chars_of("invalid base link ");
            push_debug_quoted(&mut msg, &link);
            push_str(&mut msg, ": ");
            push_all(&mut msg, &chars_of(e.as_str()));
            Err(string_of(msg.as_slice()))
        },
    }
}

// ---------------------------------------------------------------------------
// Rendering
// ---------------------------------------------------------------------------
/// The message of a template that fails to render.
pub open spec fn render_failure(template: Seq<char>, e: RenderError) -> Seq<char> {
    match e {
        RenderError::Parse => "template "@ + debug_quoted(template) + ": "@ + parse_failure_reason(),
        RenderError::Regex(p, why) => "template "@ + debug_quoted(p) + ": "@ + why,
    }
}

/// A template rendered, or the failure's message.
pub open spec fn rendered(template: Seq<char>, sv: ScopeView) -> Result<Seq<char>, Seq<char>> {
    match spec_render(template, sv) {
        Ok(s) => Ok(s),
        Err(e) => Err(render_failure(template, e)),
    }
}

pub(crate) fn render_text(template: &str, scope: &Scope) -> (r: Result<String, String>)
    ensures
        match rendered(template@, scope@) {
            Ok(s) => r matches Ok(x) && x@ == s,
            Err(e) => r matches Err(x) && x@ == e,
        },
{
    match render(template, scope) {
        Ok(s) => Ok(s),
        Err(e) => Err(e.to_string()),
    }
}

/// The pairs whose name is not empty.
pub open spec fn keyed(ps: Seq<(Seq<char>, Seq<char>)>) -> Seq<(Seq<char>, Seq<char>)>
    decreases ps.len(),
{
    if ps.len() == 0 {
        Seq::empty()
    } else if ps.last().0.len() > 0 {
        keyed(ps.drop_last()).push(ps.last())
    } else {
        keyed(ps.drop_last())
    }
}

/// The inputs rendered, in order: the name/value pairs to send and the
/// `$raw` fragments. A `$raw` fragment that renders empty is dropped; on a
/// POST it is read as form pairs (those with a name) instead. Another
/// input that renders blank is dropped unless empty inputs are allowed.
/// The first template that fails gives the error.
pub open spec fn rendered_inputs(inputs: Seq<(Seq<char>, Seq<char>)>, sv: ScopeView, allow_empty: bool, post: bool) -> Result<
    (Seq<(Seq<char>, Seq<char>)>, Seq<Seq<char>>),
    Seq<char>,
>
    decreases inputs.len(),
{
    if inputs.len() == 0 {
        Ok((Seq::empty(), Seq::empty()))
    } else {
        match rendered_inputs(inputs.drop_last(), sv, allow_empty, post) {
            Err(e) => Err(e),
            Ok((ps, rs)) => {
                let k = inputs.last().0;
                match rendered(inputs.last().1, sv) {
                    Err(e) => Err(e),
                    Ok(x) => if k == "$raw"@ {
                        if x.len() == 0 {
                            Ok((ps, rs))
                        } else if post {
                            Ok((ps + keyed(form_pairs(x)), rs))
                        } else {
                            Ok((ps, rs.push(x)))
                        }
                    } else if trim(x).len() == 0 && !allow_empty {
                        Ok((ps, rs))
                    } else {
                        Ok((ps.push((k, x)), rs))
                    },
                }
            },
        }
    }
}

/// `q` with each fragment appended, `&`-separated.
pub open spec fn joined_fragments(q: Seq<char>, rs: Seq<Seq<char>>) -> Seq<char>
    decreases rs.len(),
{
    if rs.len() == 0 {
        q
    } else {
        let a = joined_fragments(q, rs.drop_last());
        if a.len() > 0 {
            a + "&"@ + rs.last()
        } else {
            rs.last()
        }
    }
}

/// A GET request's URL: the pairs form-encoded onto its query, then the
/// raw fragments appended verbatim.
pub open spec fn get_url(u0: Seq<char>, ps: Seq<(Seq<char>, Seq<char>)>, rs: Seq<Seq<char>>) -> Seq<char> {
    let u1 = if ps.len() > 0 {
        url_with_pairs(u0, ps)
    } else {
        u0
    };
    if rs.len() > 0 {
        url_with_query(u1, joined_fragments(text_or_empty(url_query(u1)), rs))
    } else {
        u1
    }
}

/// Each header's first value rendered, in order; names without a value
/// are skipped.
pub open spec fn rendered_headers(hs: Seq<(String, Vec<String>)>, sv: ScopeView) -> Result<Seq<(Seq<char>, Seq<char>)>, Seq<char>>
    decreases hs.len(),
{
    if hs.len() == 0 {
        Ok(Seq::empty())
    } else {
        match rendered_headers(hs.drop_last(), sv) {
            Err(e) => Err(e),
            Ok(r) => {
                let vs = hs.last().1@;
                if vs.len() == 0 {
                    Ok(r)
                } else {
                    match rendered(vs[0]@, sv) {
                        Ok(x) => Ok(r.push((hs.last().0@, x))),
                        Err(e) => Err(e),
                    }
                }
            },
        }
    }
}

/// A request as text.
pub struct SRequest {
    pub method: Method,
    pub url: Seq<char>,
    pub headers: Seq<(Seq<char>, Seq<char>)>,
    pub body: Option<Seq<(Seq<char>, Seq<char>)>>,
    pub follow: bool,
}

pub open spec fn request_view(r: HttpRequest) -> SRequest {
    SRequest {
        method: r.method,
        url: r.url@,
        headers: pairs_view(r.headers@),
        body: match r.body {
            Some(Body::Form(v)) => Some(pairs_view(v@)),
            None => None,
        },
        follow: r.follow_redirects,
    }
}

/// POST when the declared method is `post` in any ASCII case, else GET.
pub open spec fn method_of(m: Option<Seq<char>>) -> Method {
    match m {
        Some(x) => if ascii_folded(x) == ascii_folded("post"@) {
            Method::Post
        } else {
            Method::Get
        },
        None => Method::Get,
    }
}

/// The search's inputs with the path's laid over them, ordered by name.
pub open spec fn merged(search: Search, p: SPath) -> Seq<(Seq<char>, Seq<char>)> {
    ins_all(ins_all(Seq::empty(), pairs_view(search.inputs@)), p.inputs)
}

/// The request for one path, or why it cannot be built.
pub open spec fn request_of(p: SPath, search: Search, base: Seq<char>, sv: ScopeView) -> Result<SRequest, Seq<char>> {
    match rendered(p.path, sv) {
        Err(e) => Err(e),
        Ok(rp) => match joined_url(base, rp) {
            Err(e) => Err("invalid path "@ + debug_quoted(rp) + ": "@ + e),
            Ok(u0) => {
                let m = method_of(p.method);
                match rendered_inputs(merged(search, p), sv, search.allow_empty_inputs, m == Method::Post) {
                    Err(e) => Err(e),
                    Ok((ps, rs)) => match rendered_headers(search.headers@, sv) {
                        Err(e) => Err(e),
                        Ok(hs) => Ok(
                            SRequest {
                                method: m,
                                url: if m == Method::Get {
                                    get_url(u0, ps, rs)
                                } else {
                                    u0
                                },
                                headers: hs,
                                body: if m == Method::Post {
                                    Some(ps)
                                } else {
                                    None
                                },
                                follow: match p.follow {
                                    Some(b) => b,
                                    None => true,
                                },
                            },
                        ),
                    },
                }
            },
        },
    }
}

/// The requests of the reachable paths, in order; the first failure wins.
pub open spec fn requests_of(paths: Seq<SPath>, mapped: Seq<Seq<char>>, search: Search, base: Seq<char>, sv: ScopeView) -> Result<
    Seq<SRequest>,
    Seq<char>,
>
    decreases paths.len(),
{
    if paths.len() == 0 {
        Ok(Seq::empty())
    } else {
        match requests_of(paths.drop_last(), mapped, search, base, sv) {
            Err(e) => Err(e),
            Ok(rs) => if reachable(paths.last().categories, mapped) {
                match request_of(paths.last(), search, base, sv) {
                    Ok(x) => Ok(rs.push(x)),
                    Err(e) => Err(e),
                }
            } else {
                Ok(rs)
            },
        }
    }
}

/// The scope a search renders against.
pub open spec fn search_scope(def: Definition, q: SearchQuery, s: Map<Seq<char>, Seq<char>>) -> ScopeView {
    ScopeView {
        keywords: text_or_empty(opt_view(q.q)),
        config: spec_resolved(s, def.settings@),
        result: Map::empty(),
        query: query_vars(q),
        categories: spec_mapped(def.caps.categorymappings@, q.categories@),
    }
}

/// What a search issues: a request per reachable path, or why not.
pub open spec fn spec_build(def: Definition, q: SearchQuery, s: Map<Seq<char>, Seq<char>>) -> Result<Seq<SRequest>, Seq<char>> {
    match spec_base_url(strs_view(def.links@)) {
        Err(e) => Err(e),
        Ok(base) => requests_of(
            effective_paths(def.search),
            spec_mapped(def.caps.categorymappings@, q.categories@),
            def.search,
            base,
            search_scope(def, q, s),
        ),
    }
}

// ---------------------------------------------------------------------------
// Building
// ---------------------------------------------------------------------------
/// Lays `path`'s inputs over `search`'s, ordered by name.
pub fn merged_inputs(search: &Search, path: &SearchPath) -> (r: Vec<(String, String)>)
    ensures
        keys_sorted(r@),
        pairs_view(r@) == merged(*search, path_view(*path)),
{
    let mut out: Vec<(String, String)> = Vec::new();
    let ghost sp = pairs_view(search.inputs@);
    let ghost pp = pairs_view(path.inputs@);
    let mut i: usize = 0;
    assert(sp.take(0) =~= Seq::<(Seq<char>, Seq<char>)>::empty());
    assert(pairs_view(out@) =~= Seq::<(Seq<char>, Seq<char>)>::empty());
    while i < search.inputs.len()
        invariant
            0 <= i <= search.inputs.len(),
            sp == pairs_view(search.inputs@),
            keys_sorted(out@),
            pairs_view(out@) == ins_all(Seq::empty(), sp.take(i as int)),
        decreases search.inputs.len() - i,
    {
        assert(sp.take(i + 1).drop_last() =~= sp.take(i as int));
        insert_sorted(&mut out, search.inputs[i].0.as_str(), search.inputs[i].1.as_str());
        i = i + 1;
    }
    assert(sp.take(search.inputs.len() as int) =~= sp);
    let ghost base = pairs_view(out@);
    let mut j: usize = 0;
    assert(pp.take(0) =~= Seq::<(Seq<char>, Seq<char>)>::empty());
    while j < path.inputs.len()
        invariant
            0 <= j <= path.inputs.len(),
            pp == pairs_view(path.inputs@),
            keys_sorted(out@),
            pairs_view(out@) == ins_all(base, pp.take(j as int)),
        decreases path.inputs.len() - j,
    {
        assert(pp.take(j + 1).drop_last() =~= pp.take(j as int));
        insert_sorted(&mut out, path.inputs[j].0.as_str(), path.inputs[j].1.as_str());
        j = j + 1;
    }
    assert(pp.take(path.inputs.len() as int) =~= pp);
    out
}

fn copy_pair(p: &(String, String)) -> (r: (String, String))
    ensures
        r.0@ == p.0@,
        r.1@ == p.1@,
{
    (String::from_str(p.0.as_str()), String::from_str(p.1.as_str()))
}

/// Renders the inputs (see [`rendered_inputs`]).
fn render_inputs(inputs: &Vec<(String, String)>, scope: &Scope, allow_empty: bool, post: bool) -> (r: Result<
    (Vec<(String, String)>, Vec<String>),
    String,
>)
    ensures
        match rendered_inputs(pairs_view(inputs@), scope@, allow_empty, post) {
            Ok((ps, rs)) => r matches Ok(x) && pairs_view(x.0@) == ps && strings_view(x.1@) == rs,
            Err(e) => r matches Err(x) && x@ == e,
        },
{
    let ghost iv = pairs_view(inputs@);
    let mut ps: Vec<(String, String)> = Vec::new();
    let mut rs: Vec<String> = Vec::new();
    let mut i: usize = 0;
    assert(iv.take(0) =~= Seq::<(Seq<char>, Seq<char>)>::empty());
    assert(pairs_view(ps@) =~= Seq::<(Seq<char>, Seq<char>)>::empty());
    assert(strings_view(rs@) =~= Seq::<Seq<char>>::empty());
    while i < inputs.len()
        invariant
            0 <= i <= inputs.len(),
            iv == pairs_view(inputs@),
            rendered_inputs(iv.take(i as int), scope@, allow_empty, post) == Ok::<
                (Seq<(Seq<char>, Seq<char>)>, Seq<Seq<char>>),
                Seq<char>,
            >((pairs_view(ps@), strings_view(rs@))),
        decreases inputs.len() - i,
    {
        let ghost p0 = pairs_view(ps@);
        let ghost r0 = strings_view(rs@);
        assert(iv.take(i + 1).drop_last() =~= iv.take(i as int));
        assert(iv.take(i + 1).last() == iv[i as int]);
        let key = &inputs[i].0;
        let x = match render_text(inputs[i].1.as_str(), scope) {
            Ok(x) => x,
            Err(e) => {
                proof {
                    lemma_inputs_error(iv, i as int, scope@, allow_empty, post);
                }
                return Err(e);
            },
        };
        if word_is(&chars_of(key.as_str()), "$raw") {
            if chars_of(x.as_str()).len() == 0 {
            } else if post {
                let sub = query_pairs(x.as_str());
                let ghost sv = sub@.map_values(|p: (String, String)| (p.0@, p.1@));
                let mut j: usize = 0;
                assert(sv.take(0) =~= Seq::<(Seq<char>, Seq<char>)>::empty());
                assert(p0 + keyed(sv.take(0)) =~= pairs_view(ps@));
                while j < sub.len()
                    invariant
                        0 <= j <= sub.len(),
                        sv == sub@.map_values(|p: (String, String)| (p.0@, p.1@)),
                        pairs_view(ps@) == p0 + keyed(sv.take(j as int)),
                    decreases sub.len() - j,
                {
                    assert(sv.take(j + 1).drop_last() =~= sv.take(j as int));
                    assert(sv.take(j + 1).last() == sv[j as int]);
                    assert(sv[j as int] == (sub@[j as int].0@, sub@[j as int].1@));
                    if chars_of(sub[j].0.as_str()).len() > 0 {
                        let ghost before = pairs_view(ps@);
                        ps.push(copy_pair(&sub[j]));
                        assert(keyed(sv.take(j + 1)) == keyed(sv.take(j as int)).push(sv[j as int]));
                        assert(pairs_view(ps@) =~= before.push(sv[j as int]));
                        assert(pairs_view(ps@) =~= p0 + keyed(sv.take(j + 1)));
                    } else {
                        assert(keyed(sv.take(j + 1)) == keyed(sv.take(j as int)));
                    }
                    j = j + 1;
                }
                assert(sv.take(sub.len() as int) =~= sv);
            } else {
                rs.push(x);
                assert(strings_view(rs@) =~= r0.push(x@));
            }
        } else if trimmed(&chars_of(x.as_str())).len() == 0 && !allow_empty {
        } else {
            ps.push((String::from_str(key.as_str()), x));
            assert(pairs_view(ps@) =~= p0.push((key@, x@)));
        }
        i = i + 1;
    }
    assert(iv.take(inputs.len() as int) =~= iv);
    Ok((ps, rs))
}

proof fn lemma_inputs_error(iv: Seq<(Seq<char>, Seq<char>)>, i: int, sv: ScopeView, allow_empty: bool, post: bool)
    requires
        0 <= i < iv.len(),
        rendered_inputs(iv.take(i), sv, allow_empty, post) is Ok,
        rendered(iv[i].1, sv) is Err,
    ensures
        rendered_inputs(iv, sv, allow_empty, post) == Err::<
            (Seq<(Seq<char>, Seq<char>)>, Seq<Seq<char>>),
            Seq<char>,
        >(rendered(iv[i].1, sv)->Err_0),
    decreases iv.len() - i,
{
    assert(iv.take(i + 1).drop_last() =~= iv.take(i));
    assert(iv.take(i + 1).last() == iv[i]);
    lemma_inputs_error_extends(iv, i + 1, sv, allow_empty, post, rendered(iv[i].1, sv)->Err_0);
}

proof fn lemma_inputs_error_extends(iv: Seq<(Seq<char>, Seq<char>)>, n: int, sv: ScopeView, allow_empty: bool, post: bool, e: Seq<char>)
    requires
        0 <= n <= iv.len(),
        rendered_inputs(iv.take(n), sv, allow_empty, post) == Err::<
            (Seq<(Seq<char>, Seq<char>)>, Seq<Seq<char>>),
            Seq<char>,
        >(e),
    ensures
        rendered_inputs(iv, sv, allow_empty, post) == Err::<
            (Seq<(Seq<char>, Seq<char>)>, Seq<Seq<char>>),
            Seq<char>,
        >(e),
    decreases iv.len() - n,
{
    if n < iv.len() {
        assert(iv.take(n + 1).drop_last() =~= iv.take(n));
        lemma_inputs_error_extends(iv, n + 1, sv, allow_empty, post, e);
    } else {
        assert(iv.take(n) =~= iv);
    }
}

/// `q` with the fragments appended (see [`joined_fragments`]).
fn join_fragments(q: String, rs: &Vec<String>) -> (r: String)
    ensures
        r@ == joined_fragments(q@, strings_view(rs@)),
{
    let ghost rv = strings_view(rs@);
    let mut out = chars_of(q.as_str());
    let mut i: usize = 0;
    assert(rv.take(0) =~= Seq::<Seq<char>>::empty());
    while i < rs.len()
        invariant
            0 <= i <= rs.len(),
            rv == strings_view(rs@),
            out@ == joined_fragments(q@, rv.take(i as int)),
        decreases rs.len() - i,
    {
        assert(rv.take(i + 1).drop_last() =~= rv.take(i as int));
        assert(rv.take(i + 1).last() == rs@[i as int]@);
        if out.len() > 0 {
            push_str(&mut out, "&");
            push_all(&mut out, &chars_of(rs[i].as_str()));
        } else {
            out = chars_of(rs[i].as_str());
        }
        i = i + 1;
    }
    assert(rv.take(rs.len() as int) =~= rv);
    string_of(out.as_slice())
}

/// Renders the headers' first values (see [`rendered_headers`]).
pub fn rendered_header_values(headers: &Vec<(String, Vec<String>)>, scope: &Scope) -> (r: Result<Vec<(String, String)>, String>)
    ensures
        match rendered_headers(headers@, scope@) {
            Ok(hs) => r matches Ok(x) && pairs_view(x@) == hs,
            Err(e) => r matches Err(x) && x@ == e,
        },
{
    let ghost hv = headers@;
    let mut out: Vec<(String, String)> = Vec::new();
    let mut i: usize = 0;
    assert(hv.take(0) =~= Seq::<(String, Vec<String>)>::empty());
    assert(pairs_view(out@) =~= Seq::<(Seq<char>, Seq<char>)>::empty());
    while i < headers.len()
        invariant
            0 <= i <= headers.len(),
            hv == headers@,
            rendered_headers(hv.take(i as int), scope@) == Ok::<Seq<(Seq<char>, Seq<char>)>, Seq<char>>(
                pairs_view(out@),
            ),
        decreases headers.len() - i,
    {
        assert(hv.take(i + 1).drop_last() =~= hv.take(i as int));
        assert(hv.take(i + 1).last() == hv[i as int]);
        let ghost o0 = pairs_view(out@);
        if headers[i].1.len() > 0 {
            match render_text(headers[i].1[0].as_str(), scope) {
                Ok(x) => {
                    out.push((String::from_str(headers[i].0.as_str()), x));
                    assert(pairs_view(out@) =~= o0.push((hv[i as int].0@, x@)));
                },
                Err(e) => {
                    proof {
                        lemma_headers_error(hv, i as int, scope@);
                    }
                    return Err(e);
                },
            }
        }
        i = i + 1;
    }
    assert(hv.take(headers.len() as int) =~= hv);
    Ok(out)
}

proof fn lemma_headers_error(hv: Seq<(String, Vec<String>)>, i: int, sv: ScopeView)
    requires
        0 <= i < hv.len(),
        rendered_headers(hv.take(i), sv) is Ok,
        hv[i].1@.len() > 0,
        rendered(hv[i].1@[0]@, sv) is Err,
    ensures
        rendered_headers(hv, sv) == Err::<Seq<(Seq<char>, Seq<char>)>, Seq<char>>(
            rendered(hv[i].1@[0]@, sv)->Err_0,
        ),
    decreases hv.len() - i,
{
    assert(hv.take(i + 1).drop_last() =~= hv.take(i));
    assert(hv.take(i + 1).last() == hv[i]);
    lemma_headers_error_extends(hv, i + 1, sv, rendered(hv[i].1@[0]@, sv)->Err_0);
}

proof fn lemma_headers_error_extends(hv: Seq<(String, Vec<String>)>, n: int, sv: ScopeView, e: Seq<char>)
    requires
        0 <= n <= hv.len(),
        rendered_headers(hv.take(n), sv) == Err::<Seq<(Seq<char>, Seq<char>)>, Seq<char>>(e),
    ensures
        rendered_headers(hv, sv) == Err::<Seq<(Seq<char>, Seq<char>)>, Seq<char>>(e),
    decreases hv.len() - n,
{
    if n < hv.len() {
        assert(hv.take(n + 1).drop_last() =~= hv.take(n));
        lemma_headers_error_extends(hv, n + 1, sv, e);
    } else {
        assert(hv.take(n) =~= hv);
    }
}

/// Builds the request for one path (see [`request_of`]).
pub fn build_request(search: &Search, path: &SearchPath, base: &str, scope: &Scope) -> (r: Result<HttpRequest, String>)
    ensures
        match request_of(path_view(*path), *search, base@, scope@) {
            Ok(x) => r matches Ok(y) && request_view(y) == x,
            Err(e) => r matches Err(y) && y@ == e,
        },
{
    let rp = render_text(path.path.as_str(), scope)?;
    let u0 = match join_url(base, rp.as_str()) {
        Ok(u) => u,
        Err(e) => {
            let mut msg = chars_of("invalid path ");
            push_debug_quoted(&mut msg, &chars_of(rp.as_str()));
            push_str(&mut msg, ": ");
            push_all(&mut msg, &chars_of(e.as_str()));
            return Err(string_of(msg.as_slice()));
        },
    };
    let method = match &path.method {
        Some(m) => if eq_ignore_ascii_case(m.as_str(), "post") {
            Method::Post
        } else {
            Method::Get
        },
        None => Method::Get,
    };
    let inputs = merged_inputs(search, path);
    let post = match method {
        Method::Post => true,
        Method::Get => false,
    };
    let (pairs, raws) = render_inputs(&inputs, scope, search.allow_empty_inputs, post)?;
    let headers = rendered_header_values(&search.headers, scope)?;
    let follow = match path.followredirect {
        Some(b) => b,
        None => true,
    };
    match method {
        Method::Get => {
            let mut url = u0;
            if pairs.len() > 0 {
                url = append_pairs(url.as_str(), &pairs);
            }
            if raws.len() > 0 {
                let q0 = match query_of(url.as_str()) {
                    Some(q) => q,
                    None => String::new(),
                };
                let joined = join_fragments(q0, &raws);
                url = set_query(url.as_str(), joined.as_str());
            }
            Ok(HttpRequest { method, url, headers, body: None, follow_redirects: follow })
        },
        Method::Post => Ok(
            HttpRequest { method, url: u0, headers, body: Some(Body::Form(pairs)), follow_redirects: follow },
        ),
    }
}

/// The shorthand `search.path` as a path of its own.
fn shorthand_path(p: &String) -> (r: SearchPath)
    ensures
        path_view(r) == (SPath {
            path: p@,
            method: None,
            inputs: Seq::empty(),
            categories: Seq::empty(),
            follow: None,
        }),
{
    let r = SearchPath {
        path: String::from_str(p.as_str()),
        method: None,
        inputs: Vec::new(),
        categories: Vec::new(),
        response: None,
        followredirect: None,
    };
    assert(pairs_view(r.inputs@) =~= Seq::<(Seq<char>, Seq<char>)>::empty());
    assert(strs_view(r.categories@) =~= Seq::<Seq<char>>::empty());
    r
}

proof fn lemma_requests_error_extends(
    paths: Seq<SPath>,
    n: int,
    mapped: Seq<Seq<char>>,
    search: Search,
    base: Seq<char>,
    sv: ScopeView,
    e: Seq<char>,
)
    requires
        0 <= n <= paths.len(),
        requests_of(paths.take(n), mapped, search, base, sv) == Err::<Seq<SRequest>, Seq<char>>(e),
    ensures
        requests_of(paths, mapped, search, base, sv) == Err::<Seq<SRequest>, Seq<char>>(e),
    decreases paths.len() - n,
{
    if n < paths.len() {
        assert(paths.take(n + 1).drop_last() =~= paths.take(n));
        lemma_requests_error_extends(paths, n + 1, mapped, search, base, sv, e);
    } else {
        assert(paths.take(n) =~= paths);
    }
}

/// The requests of the search's reachable paths (see [`requests_of`]).
fn requests_for_paths(search: &Search, mapped: &Vec<String>, base: &str, scope: &Scope) -> (r: Result<
    Vec<HttpRequest>,
    String,
>)
    ensures
        match requests_of(effective_paths(*search), strs_view(mapped@), *search, base@, scope@) {
            Ok(rs) => r matches Ok(v) && v@.map_values(|x: HttpRequest| request_view(x)) == rs,
            Err(e) => r matches Err(x) && x@ == e,
        },
{
    let ghost paths = effective_paths(*search);
    let ghost mv = strs_view(mapped@);
    let mut out: Vec<HttpRequest> = Vec::new();
    if search.paths.len() > 0 {
        let mut i: usize = 0;
        assert(paths.take(0) =~= Seq::<SPath>::empty());
        assert(out@.map_values(|x: HttpRequest| request_view(x)) =~= Seq::<SRequest>::empty());
        while i < search.paths.len()
            invariant
                0 <= i <= search.paths.len(),
                paths == search.paths@.map_values(|p: SearchPath| path_view(p)),
                mv == strs_view(mapped@),
                requests_of(paths.take(i as int), mv, *search, base@, scope@) == Ok::<
                    Seq<SRequest>,
                    Seq<char>,
                >(out@.map_values(|x: HttpRequest| request_view(x))),
            decreases search.paths.len() - i,
        {
            let ghost o0 = out@.map_values(|x: HttpRequest| request_view(x));
            assert(paths.take(i + 1).drop_last() =~= paths.take(i as int));
            assert(paths.take(i + 1).last() == path_view(search.paths@[i as int]));
            let path = &search.paths[i];
            if is_reachable(path, mapped.as_slice()) {
                match build_request(search, path, base, scope) {
                    Ok(req) => {
                        out.push(req);
                        assert(out@.map_values(|x: HttpRequest| request_view(x)) =~= o0.push(
                            request_view(out@[out@.len() - 1]),
                        ));
                    },
                    Err(reason) => {
                        proof {
                            lemma_requests_error_extends(paths, i + 1, mv, *search, base@, scope@, reason@);
                        }
                        return Err(reason);
                    },
                }
            }
            i = i + 1;
        }
        assert(paths.take(search.paths.len() as int) =~= paths);
        Ok(out)
    } else {
        match &search.path {
            Some(p) => {
                let path = shorthand_path(p);
                assert(paths =~= seq![path_view(path)]);
                assert(paths.drop_last() =~= Seq::<SPath>::empty());
                assert(paths.last() == path_view(path));
                assert(reachable(paths.last().categories, mv));
                assert(requests_of(paths.drop_last(), mv, *search, base@, scope@) == Ok::<
                    Seq<SRequest>,
                    Seq<char>,
                >(Seq::empty()));
                match build_request(search, &path, base, scope) {
                    Ok(req) => {
                        out.push(req);
                        assert(out@.map_values(|x: HttpRequest| request_view(x)) =~= Seq::<
                            SRequest,
                        >::empty().push(request_view(out@[0])));
                        Ok(out)
                    },
                    Err(e) => Err(e),
                }
            },
            None => {
                assert(search.paths@.len() == 0);
                assert(paths =~= Seq::<SPath>::empty());
                assert(out@.map_values(|x: HttpRequest| request_view(x)) =~= Seq::<SRequest>::empty());
                Ok(out)
            },
        }
    }
}

/// Builds one request per reachable path of the definition's search, in
/// order.
///
/// The query's Newznab categories are first translated into the
/// definition's tracker ids (its default ids when none translate); a path
/// limited to categories is reachable when it shares one with them, or
/// when there are none. Every path renders against one scope (see
/// [`scope_for`]). A path's inputs overlay the search's; GET sends them as
/// URL query pairs with `$raw` fragments appended verbatim, POST as a form.
/// The URL is the path joined onto the first link; `search.headers`' first
/// values are rendered onto every request.
///
/// Fails with a [`RequestBuildError`] naming the definition when it has no
/// links or the first does not parse, when a template fails to render, or
/// when a rendered path does not join onto the base URL.
pub fn build_search_requests(def: &Definition, q: &SearchQuery, s: &Settings) -> (r: Result<
    Vec<HttpRequest>,
    RequestBuildError,
>)
    ensures
        match spec_build(*def, *q, s@) {
            Ok(rs) => r matches Ok(v) && v@.map_values(|x: HttpRequest| request_view(x)) == rs,
            Err(e) => r matches Err(x) && x.definition@ == def.id@ && x.reason@ == e,
        },
{
    let mapped = mapped_categories(def, q);
    let scope = scope_for(def.settings.as_slice(), q, s, mapped.as_slice());
    assert(scope@ == search_scope(*def, *q, s@));
    let base = match resolve_base_url(def) {
        Ok(b) => b,
        Err(reason) => {
            return Err(RequestBuildError { definition: String::from_str(def.id.as_str()), reason });
        },
    };
    match requests_for_paths(&def.search, &mapped, base.as_str(), &scope) {
        Ok(v) => Ok(v),
        Err(reason) => Err(RequestBuildError { definition: String::from_str(def.id.as_str()), reason }),
    }
}

} // verus!
