//! Logging in: which flow a definition's `login` block asks for, the
//! requests each flow sends, what is read off login pages (the form, its
//! inputs, error rules, the login test), and the small decisions of the
//! flows. Sending the requests is the application's job.
use vstd::prelude::*;

use crate::builder::{render_text, rendered, rendered_header_values, rendered_headers, resolve_base_url, spec_base_url};
use crate::catmap::strs_view;
use crate::client::{ascii_folded, eq_ignore_ascii_case, Body, HttpRequest, Method};
use crate::engine::{field_outcome, finish_field};
use crate::dom::{attr_of, root_of, spec_select, text_of, valid_element, Document};
use crate::error::{message_of, SError};
use crate::filters::{ctx_keywords, ctx_now, FilterCtx, FilterOutcome};
use crate::model::{Definition, ErrorRule, Field, Login};
use crate::selector::{compile, spec_compile_selector, CompiledSelector, SCompiled, SelErr};
use crate::pairs::{pairs_view, sorted_table, table_of};
use crate::query::{scope_for, spec_resolved, SearchQuery, Settings};
use crate::template::{Scope, ScopeView};
use crate::text::{chars_of, debug_quoted, push_all, push_debug_quoted, push_str, string_of, trim, trimmed};
use crate::urls::{append_pairs, join_url, joined_url, url_with_pairs};

verus! {

/// Why logging in cannot go on (short of a transport failure).
#[derive(Debug, Clone, PartialEq, Eq)]
pub enum LoginFailure {
    /// The login was rejected, for the reason given.
    Rejected(String),
    /// The login page asks for a captcha, which this engine cannot solve.
    NeedsCaptcha,
    /// The login block itself is unusable, for the reason given.
    Definition(String),
}

/// A [`LoginFailure`] as text.
pub enum SFailure {
    Rejected(Seq<char>),
    NeedsCaptcha,
    Definition(Seq<char>),
}

impl LoginFailure {
    pub open spec fn sview(&self) -> SFailure {
        match self {
            LoginFailure::Rejected(r) => SFailure::Rejected(r@),
            LoginFailure::NeedsCaptcha => SFailure::NeedsCaptcha,
            LoginFailure::Definition(r) => SFailure::Definition(r@),
        }
    }
}

/// The flow a login block asks for.
#[derive(Debug, Clone, Copy, PartialEq, Eq, Structural)]
pub enum LoginFlow {
    /// No login block: nothing to do.
    Skip,
    /// Submit the rendered inputs by this method.
    Submit(Method),
    /// Rely on a configured `cookie` setting.
    Cookie,
    /// Scrape the login form and post it (also when no method is given).
    Form,
}

/// The flow, dispatching on the method in any ASCII case; a captcha
/// refuses before anything else, an unknown method is an error naming it.
pub open spec fn spec_login_flow(login: Option<Login>) -> Result<LoginFlow, SFailure> {
    match login {
        None => Ok(LoginFlow::Skip),
        Some(l) => if l.captcha {
            Err(SFailure::NeedsCaptcha)
        } else {
            match l.method {
                None => Ok(LoginFlow::Form),
                Some(m) => {
                    let f = ascii_folded(m@);
                    if f == ascii_folded("post"@) {
                        Ok(LoginFlow::Submit(Method::Post))
                    } else if f == ascii_folded("get"@) {
                        Ok(LoginFlow::Submit(Method::Get))
                    } else if f == ascii_folded("cookie"@) {
                        Ok(LoginFlow::Cookie)
                    } else if f == ascii_folded("form"@) {
                        Ok(LoginFlow::Form)
                    } else {
                        Err(SFailure::Definition("login method "@ + debug_quoted(m@) + " not yet implemented"@))
                    }
                },
            }
        },
    }
}


pub open spec fn failure_is(r: Result<(), LoginFailure>, s: SFailure) -> bool {
    r matches Err(x) && x.sview() == s
}

fn definition_failure(msg: Vec<char>) -> (r: LoginFailure)
    ensures
        r.sview() == SFailure::Definition(msg@),
{
    LoginFailure::Definition(string_of(msg.as_slice()))
}

/// Which flow `def`'s login block asks for (see [`spec_login_flow`]).
pub fn login_flow(def: &Definition) -> (r: Result<LoginFlow, LoginFailure>)
    ensures
        match spec_login_flow(def.login) {
            Ok(f) => r == Ok::<LoginFlow, LoginFailure>(f),
            Err(e) => r matches Err(x) && x.sview() == e,
        },
{
    let login = match &def.login {
        None => {
            return Ok(LoginFlow::Skip);
        },
        Some(l) => l,
    };
    if login.captcha {
        return Err(LoginFailure::NeedsCaptcha);
    }
    match &login.method {
        None => Ok(LoginFlow::Form),
        Some(m) => {
            if eq_ignore_ascii_case(m.as_str(), "post") {
                Ok(LoginFlow::Submit(Method::Post))
            } else if eq_ignore_ascii_case(m.as_str(), "get") {
                Ok(LoginFlow::Submit(Method::Get))
            } else if eq_ignore_ascii_case(m.as_str(), "cookie") {
                Ok(LoginFlow::Cookie)
            } else if eq_ignore_ascii_case(m.as_str(), "form") {
                Ok(LoginFlow::Form)
            } else {
                let mut msg = chars_of("login method ");
                push_debug_quoted(&mut msg, &chars_of(m.as_str()));
                push_str(&mut msg, " not yet implemented");
                Err(definition_failure(msg))
            }
        },
    }
}

/// The scope a login renders against: the settings, no query.
pub open spec fn login_scope(def: Definition, s: Map<Seq<char>, Seq<char>>) -> ScopeView {
    ScopeView {
        keywords: Seq::empty(),
        config: spec_resolved(s, def.settings@),
        result: Map::empty(),
        query: Map::<Seq<char>, Seq<char>>::empty().insert("Keywords"@, Seq::empty()).insert("Q"@, Seq::empty()).insert(
            "IMDBID"@,
            Seq::empty(),
        ).insert("Season"@, Seq::empty()).insert("Ep"@, Seq::empty()),
        categories: Seq::empty(),
    }
}

/// The base URL failure, naming the definition.
pub open spec fn base_failure(def: Definition, reason: Seq<char>) -> SFailure {
    SFailure::Definition("definition "@ + def.id@ + ": "@ + reason)
}

/// The inputs rendered in order; the first failure wins.
pub open spec fn rendered_pairs(inputs: Seq<(Seq<char>, Seq<char>)>, sv: ScopeView) -> Result<Seq<(Seq<char>, Seq<char>)>, Seq<char>>
    decreases inputs.len(),
{
    if inputs.len() == 0 {
        Ok(Seq::empty())
    } else {
        match rendered_pairs(inputs.drop_last(), sv) {
            Err(e) => Err(e),
            Ok(ps) => match rendered(inputs.last().1, sv) {
                Err(e) => Err(e),
                Ok(x) => Ok(ps.push((inputs.last().0, x))),
            },
        }
    }
}

/// A login request as text.
pub struct SLoginRequest {
    pub method: Method,
    pub url: Seq<char>,
    pub headers: Seq<(Seq<char>, Seq<char>)>,
    pub body: Option<Seq<(Seq<char>, Seq<char>)>>,
}

/// The `post`/`get` flow's request: `login.path` rendered and joined onto
/// the first link; the inputs rendered, sent as a form for POST or as
/// query pairs for GET; the headers' first values rendered.
pub open spec fn spec_submit_request(def: Definition, login: Login, s: Map<Seq<char>, Seq<char>>, method: Method) -> Result<SLoginRequest, SFailure> {
    match login.path {
        None => Err(SFailure::Definition("login block for "@ + def.id@ + " declares no path"@)),
        Some(path) => match spec_base_url(strs_view(def.links@)) {
            Err(reason) => Err(base_failure(def, reason)),
            Ok(base) => {
                let sv = login_scope(def, s);
                match rendered(path@, sv) {
                    Err(e) => Err(SFailure::Definition(e)),
                    Ok(rp) => match joined_url(base, rp) {
                        Err(e) => Err(SFailure::Definition("invalid login path "@ + debug_quoted(rp) + ": "@ + e)),
                        Ok(u) => match rendered_pairs(table_of(login.inputs@), sv) {
                            Err(e) => Err(SFailure::Definition(e)),
                            Ok(ps) => match rendered_headers(login.headers@, sv) {
                                Err(e) => Err(SFailure::Definition(e)),
                                Ok(hs) => Ok(
                                    SLoginRequest {
                                        method,
                                        url: if method == Method::Get && ps.len() > 0 {
                                            url_with_pairs(u, ps)
                                        } else {
                                            u
                                        },
                                        headers: hs,
                                        body: if method == Method::Post {
                                            Some(ps)
                                        } else {
                                            None
                                        },
                                    },
                                ),
                            },
                        },
                    },
                }
            },
        },
    }
}

pub open spec fn login_request_view(r: HttpRequest) -> SLoginRequest {
    SLoginRequest {
        method: r.method,
        url: r.url@,
        headers: pairs_view(r.headers@),
        body: match r.body {
            Some(Body::Form(v)) => Some(pairs_view(v@)),
            None => None,
        },
    }
}

fn render_pairs(inputs: &Vec<(String, String)>, scope: &crate::template::Scope) -> (r: Result<Vec<(String, String)>, String>)
    ensures
        match rendered_pairs(pairs_view(inputs@), scope@) {
            Ok(ps) => r matches Ok(x) && pairs_view(x@) == ps,
            Err(e) => r matches Err(x) && x@ == e,
        },
{
    let ghost iv = pairs_view(inputs@);
    let mut out: Vec<(String, String)> = Vec::new();
    let mut i: usize = 0;
    assert(iv.take(0) =~= Seq::<(Seq<char>, Seq<char>)>::empty());
    assert(pairs_view(out@) =~= Seq::<(Seq<char>, Seq<char>)>::empty());
    while i < inputs.len()
        invariant
            0 <= i <= inputs.len(),
            out@.len() == i,
            iv == pairs_view(inputs@),
            rendered_pairs(iv.take(i as int), scope@) == Ok::<Seq<(Seq<char>, Seq<char>)>, Seq<char>>(
                pairs_view(out@),
            ),
        decreases inputs.len() - i,
    {
        assert(iv.take(i + 1).drop_last() =~= iv.take(i as int));
        assert(iv.take(i + 1).last() == iv[i as int]);
        let ghost o0 = pairs_view(out@);
        match render_text(inputs[i].1.as_str(), scope) {
            Ok(x) => {
                let ghost xv = x@;
                out.push((String::from_str(inputs[i].0.as_str()), x));
                assert(pairs_view(out@) =~= o0.push((iv[i as int].0, xv)));
            },
            Err(msg) => {
                proof {
                    lemma_pairs_error(iv, i as int + 1, scope@, msg@);
                }
                return Err(msg);
            },
        }
        i = i + 1;
    }
    assert(iv.take(inputs.len() as int) =~= iv);
    Ok(out)
}

proof fn lemma_pairs_error(inputs: Seq<(Seq<char>, Seq<char>)>, n: int, sv: ScopeView, e: Seq<char>)
    requires
        0 <= n <= inputs.len(),
        rendered_pairs(inputs.take(n), sv) == Err::<Seq<(Seq<char>, Seq<char>)>, Seq<char>>(e),
    ensures
        rendered_pairs(inputs, sv) == Err::<Seq<(Seq<char>, Seq<char>)>, Seq<char>>(e),
    decreases inputs.len() - n,
{
    if n < inputs.len() {
        assert(inputs.take(n + 1).drop_last() =~= inputs.take(n));
        lemma_pairs_error(inputs, n + 1, sv, e);
    } else {
        assert(inputs.take(n) =~= inputs);
    }
}

/// The request the `post`/`get` flow submits (see [`spec_submit_request`]).
pub fn submit_request(def: &Definition, login: &Login, s: &Settings, method: Method) -> (r: Result<HttpRequest, LoginFailure>)
    ensures
        match spec_submit_request(*def, *login, s@, method) {
            Ok(x) => r matches Ok(y) && login_request_view(y) == x,
            Err(e) => r matches Err(y) && y.sview() == e,
        },
{
    let path = match &login.path {
        Some(p) => p,
        None => {
            let mut msg = chars_of("login block for ");
            push_all(&mut msg, &chars_of(def.id.as_str()));
            push_str(&mut msg, " declares no path");
            return Err(definition_failure(msg));
        },
    };
    let base = match resolve_base_url(def) {
        Ok(b) => b,
        Err(reason) => {
            let mut msg = chars_of("definition ");
            push_all(&mut msg, &chars_of(def.id.as_str()));
            push_str(&mut msg, ": ");
            push_all(&mut msg, &chars_of(reason.as_str()));
            return Err(definition_failure(msg));
        },
    };
    let q = SearchQuery::default();
    let scope = scope_for(def.settings.as_slice(), &q, s, &[]);
    assert(scope@.query =~= login_scope(*def, s@).query);
    assert(scope@.categories =~= login_scope(*def, s@).categories);
    assert(scope@ == login_scope(*def, s@));
    let rp = match render_text(path.as_str(), &scope) {
        Ok(x) => x,
        Err(e) => {
            return Err(LoginFailure::Definition(e));
        },
    };
    let u = match join_url(base.as_str(), rp.as_str()) {
        Ok(u) => u,
        Err(e) => {
            let mut msg = chars_of("invalid login path ");
            push_debug_quoted(&mut msg, &chars_of(rp.as_str()));
            push_str(&mut msg, ": ");
            push_all(&mut msg, &chars_of(e.as_str()));
            return Err(definition_failure(msg));
        },
    };
    let table = sorted_table(&login.inputs);
    let pairs = match render_pairs(&table, &scope) {
        Ok(p) => p,
        Err(e) => {
            return Err(LoginFailure::Definition(e));
        },
    };
    let headers = match rendered_header_values(&login.headers, &scope) {
        Ok(h) => h,
        Err(e) => {
            return Err(LoginFailure::Definition(e));
        },
    };
    match method {
        Method::Post => Ok(HttpRequest { method, url: u, headers, body: Some(Body::Form(pairs)), follow_redirects: true }),
        Method::Get => {
            let url = if pairs.len() > 0 {
                append_pairs(u.as_str(), &pairs)
            } else {
                u
            };
            Ok(HttpRequest { method, url, headers, body: None, follow_redirects: true })
        },
    }
}


/// Whether a `cookie` setting value is configured (not blank); the cookie
/// flow cannot work without one.
pub open spec fn spec_cookie_configured(def: Definition, s: Map<Seq<char>, Seq<char>>) -> bool {
    let r = spec_resolved(s, def.settings@);
    r.dom().contains("cookie"@) && trim(r["cookie"@]).len() > 0
}

/// The cookie flow's own check: the `cookie` setting must be configured.
pub fn check_cookie_setting(def: &Definition, s: &Settings) -> (r: Result<(), LoginFailure>)
    ensures
        spec_cookie_configured(*def, s@) ==> r is Ok,
        !spec_cookie_configured(*def, s@) ==> failure_is(r, SFailure::Definition(
            "cookie login requires the 'cookie' setting"@,
        )),
{
    let resolved = s.resolved(def.settings.as_slice());
    let want = chars_of("cookie");
    let mut i: usize = 0;
    let mut found: Option<usize> = None;
    while i < resolved.len()
        invariant_except_break
            found is None,
        invariant
            0 <= i <= resolved.len(),
            want@ == "cookie"@,
            forall|j: int| 0 <= j < i ==> resolved@[j].0@ != "cookie"@,
        ensures
            match found {
                Some(k) => k < resolved.len() && resolved@[k as int].0@ == "cookie"@ && forall|j: int|
                    0 <= j < k ==> resolved@[j].0@ != "cookie"@,
                None => forall|j: int| 0 <= j < resolved.len() ==> resolved@[j].0@ != "cookie"@,
            },
        decreases resolved.len() - i,
    {
        if crate::text::eq_chars(&chars_of(resolved[i].0.as_str()), &want) {
            found = Some(i);
            break;
        }
        i = i + 1;
    }
    let ok = match found {
        Some(k) => {
            proof {
                lemma_first_binding(resolved@, k as int, "cookie"@);
            }
            trimmed(&chars_of(resolved[k].1.as_str())).len() > 0
        },
        None => {
            proof {
                lemma_no_binding(resolved@, "cookie"@);
            }
            false
        },
    };
    if ok {
        Ok(())
    } else {
        Err(LoginFailure::Definition(String::from_str("cookie login requires the 'cookie' setting")))
    }
}

proof fn lemma_first_binding(p: Seq<(String, String)>, k: int, key: Seq<char>)
    requires
        0 <= k < p.len(),
        p[k].0@ == key,
        forall|j: int| 0 <= j < k ==> p[j].0@ != key,
    ensures
        crate::template::pairs_get(p, key) == Some(p[k].1@),
    decreases k,
{
    if k > 0 {
        assert(p.drop_first()[k - 1] == p[k]);
        assert forall|j: int| 0 <= j < k - 1 implies p.drop_first()[j].0@ != key by {
            assert(p.drop_first()[j] == p[j + 1]);
        }
        lemma_first_binding(p.drop_first(), k - 1, key);
    }
}

proof fn lemma_no_binding(p: Seq<(String, String)>, key: Seq<char>)
    requires
        forall|j: int| 0 <= j < p.len() ==> p[j].0@ != key,
    ensures
        crate::template::pairs_get(p, key) is None,
    decreases p.len(),
{
    if p.len() > 0 {
        assert forall|j: int| 0 <= j < p.len() - 1 implies p.drop_first()[j].0@ != key by {
            assert(p.drop_first()[j] == p[j + 1]);
        }
        lemma_no_binding(p.drop_first(), key);
    }
}

/// The cookies joined with `"; "`.
pub open spec fn joined_cookies(c: Seq<Seq<char>>) -> Seq<char> {
    crate::template::join_with(c, "; "@)
}

/// The `Cookie` header built from `login.cookies`, when there are any.
pub fn login_cookie_header(login: &Login) -> (r: Option<(String, String)>)
    ensures
        login.cookies@.len() == 0 ==> r is None,
        login.cookies@.len() > 0 ==> (r matches Some(h) && h.0@ == "Cookie"@ && h.1@ == joined_cookies(
            strs_view(login.cookies@),
        )),
{
    if login.cookies.len() == 0 {
        return None;
    }
    let ghost all = strs_view(login.cookies@);
    let mut out: Vec<char> = Vec::new();
    let mut i: usize = 0;
    assert(all.take(0) =~= Seq::<Seq<char>>::empty());
    while i < login.cookies.len()
        invariant
            0 <= i <= login.cookies.len(),
            all == strs_view(login.cookies@),
            out@ == crate::template::join_with(all.take(i as int), "; "@),
        decreases login.cookies.len() - i,
    {
        assert(all.take(i + 1).drop_last() =~= all.take(i as int));
        assert(all.take(i + 1).last() == login.cookies@[i as int]@);
        if i > 0 {
            push_str(&mut out, "; ");
        }
        push_all(&mut out, &chars_of(login.cookies[i].as_str()));
        i = i + 1;
    }
    assert(all.take(login.cookies.len() as int) =~= all);
    Some((String::from_str("Cookie"), string_of(out.as_slice())))
}

/// `pairs` with `name` bound to `value`: an existing pair keeps its place,
/// else the pair is added at the end.
pub open spec fn upserted(p: Seq<(Seq<char>, Seq<char>)>, name: Seq<char>, value: Seq<char>) -> Seq<(Seq<char>, Seq<char>)>
    decreases p.len(),
{
    if p.len() == 0 {
        seq![(name, value)]
    } else if p[0].0 == name {
        p.update(0, (name, value))
    } else {
        seq![p[0]] + upserted(p.drop_first(), name, value)
    }
}

/// Sets `name` to `value`, in place when it is already bound (see
/// [`upserted`]).
pub fn upsert(pairs: &mut Vec<(String, String)>, name: &str, value: String)
    ensures
        pairs_view(final(pairs)@) == upserted(pairs_view(old(pairs)@), name@, value@),
{
    let want = chars_of(name);
    let ghost pv = pairs_view(pairs@);
    let mut i: usize = 0;
    while i < pairs.len()
        invariant
            0 <= i <= pairs.len(),
            pv == pairs_view(pairs@),
            pairs@ == old(pairs)@,
            want@ == name@,
            forall|j: int| 0 <= j < i ==> pairs@[j].0@ != name@,
        decreases pairs.len() - i,
    {
        if crate::text::eq_chars(&chars_of(pairs[i].0.as_str()), &want) {
            let ghost v = value@;
            proof {
                assert forall|j: int| 0 <= j < i implies pv[j].0 != name@ by {
                    assert(pv[j] == (pairs@[j].0@, pairs@[j].1@));
                }
                assert(pv[i as int] == (pairs@[i as int].0@, pairs@[i as int].1@));
            }
            pairs.set(i, (String::from_str(name), value));
            proof {
                lemma_upsert_at(pv, i as int, name@, v);
                assert(pairs_view(pairs@) =~= pv.update(i as int, (name@, v)));
            }
            return;
        }
        i = i + 1;
    }
    let ghost v = value@;
    proof {
        assert forall|j: int| 0 <= j < pv.len() implies pv[j].0 != name@ by {
            assert(pv[j] == (pairs@[j].0@, pairs@[j].1@));
        }
    }
    pairs.push((String::from_str(name), value));
    proof {
        lemma_upsert_end(pv, name@, v);
        assert(pairs_view(pairs@) =~= pv.push((name@, v)));
    }
}

proof fn lemma_upsert_at(p: Seq<(Seq<char>, Seq<char>)>, i: int, name: Seq<char>, value: Seq<char>)
    requires
        0 <= i < p.len(),
        p[i].0 == name,
        forall|j: int| 0 <= j < i ==> p[j].0 != name,
    ensures
        upserted(p, name, value) == p.update(i, (name, value)),
    decreases i,
{
    if i > 0 {
        let t = p.drop_first();
        assert forall|j: int| 0 <= j < i - 1 implies t[j].0 != name by {
            assert(t[j] == p[j + 1]);
        }
        lemma_upsert_at(t, i - 1, name, value);
        assert(p.update(i, (name, value)) =~= seq![p[0]] + t.update(i - 1, (name, value)));
    }
}

proof fn lemma_upsert_end(p: Seq<(Seq<char>, Seq<char>)>, name: Seq<char>, value: Seq<char>)
    requires
        forall|j: int| 0 <= j < p.len() ==> p[j].0 != name,
    ensures
        upserted(p, name, value) == p.push((name, value)),
    decreases p.len(),
{
    if p.len() > 0 {
        let t = p.drop_first();
        assert forall|j: int| 0 <= j < t.len() implies t[j].0 != name by {
            assert(t[j] == p[j + 1]);
        }
        lemma_upsert_end(t, name, value);
        assert(p.push((name, value)) =~= seq![p[0]] + t.push((name, value)));
    } else {
        assert(p.push((name, value)) =~= seq![(name, value)]);
    }
}

/// A scraped login input's value: the filter chain on what was located,
/// then `default:`; a filter that drops the row is an error naming the
/// input, and any filter error is a definition problem.
pub fn login_field_value(name: &str, field: &Field, located: String, ctx: &FilterCtx) -> (r: Result<String, LoginFailure>)
    ensures
        match field_outcome(*field, located@, ctx_now(ctx), ctx_keywords(ctx)) {
            Ok(Some(v)) => r matches Ok(x) && x@ == v,
            Ok(None) => r matches Err(LoginFailure::Definition(m)) && m@ == "selectorinputs field "@ + debug_quoted(
                name@,
            ) + "'s filter chain dropped it; a login field cannot be dropped"@,
            Err(e) => r matches Err(LoginFailure::Definition(m)) && m@ == message_of(e),
        },
{
    match finish_field(field, located, ctx) {
        Ok(FilterOutcome::Value(v)) => Ok(v),
        Ok(FilterOutcome::DropRow) => {
            let mut msg = chars_of("selectorinputs field ");
            push_debug_quoted(&mut msg, &chars_of(name));
            push_str(&mut msg, "'s filter chain dropped it; a login field cannot be dropped");
            Err(LoginFailure::Definition(string_of(msg.as_slice())))
        },
        Err(e) => Err(LoginFailure::Definition(e.to_string())),
    }
}

/// What a login test concludes: with a selector, whether it matched the
/// page; without, whether the status is a success.
pub fn login_test_passes(status: u16, selector_matched: Option<bool>) -> (r: bool)
    ensures
        r == match selector_matched {
            Some(m) => m,
            None => 200 <= status < 300,
        },
{
    match selector_matched {
        Some(m) => m,
        None => 200 <= status && status < 300,
    }
}

/// A login test that fails is a rejected login.
pub fn test_outcome(passed: bool) -> (r: Result<(), LoginFailure>)
    ensures
        passed ==> r is Ok,
        !passed ==> failure_is(r, SFailure::Rejected("login test failed"@)),
{
    if passed {
        Ok(())
    } else {
        Err(LoginFailure::Rejected(String::from_str("login test failed")))
    }
}


/// Whether a search answered with a rejection is retried after logging in
/// again: only a rejection, and only when there is a login to redo.
pub fn should_reauthenticate(failure: &LoginFailure, def: &Definition) -> (r: bool)
    ensures
        r == (failure is Rejected && def.login is Some),
{
    match failure {
        LoginFailure::Rejected(_) => def.login.is_some(),
        _ => false,
    }
}


// ---------------------------------------------------------------------------
// Reading login pages
// ---------------------------------------------------------------------------
/// The reason a login check refuses a JSON field-path selector.
pub open spec fn login_json_reason(raw: Seq<char>) -> Seq<char> {
    "selector "@ + debug_quoted(raw) + " is a JSON field path; login checks only understand HTML"@
}

/// A selector compiled for a login page; a selector that does not compile,
/// or is a JSON field path, is a definition problem.
pub open spec fn login_selector(raw: Seq<char>) -> Result<SCompiled, SFailure> {
    match spec_compile_selector(raw) {
        Err(SelErr::Unbalanced) => Err(SFailure::Definition(message_of(SError::UnbalancedContains(raw)))),
        Err(SelErr::Css(why)) => Err(SFailure::Definition(message_of(SError::Selector(raw, why)))),
        Ok(SCompiled::JsonPath) => Err(SFailure::Definition(login_json_reason(raw))),
        Ok(c) => Ok(c),
    }
}

fn compile_login_selector(raw: &str) -> (r: Result<CompiledSelector, LoginFailure>)
    ensures
        match login_selector(raw@) {
            Ok(c) => r matches Ok(x) && x@ == c,
            Err(f) => r matches Err(x) && x.sview() == f,
        },
{
    let compiled = match compile(raw) {
        Ok(c) => c,
        Err(e) => {
            return Err(LoginFailure::Definition(e.to_string()));
        },
    };
    if compiled.is_json_path() {
        let mut msg = chars_of("selector ");
        push_debug_quoted(&mut msg, &chars_of(raw));
        push_str(&mut msg, " is a JSON field path; login checks only understand HTML");
        assert(msg@ =~= login_json_reason(raw@));
        return Err(LoginFailure::Definition(string_of(msg.as_slice())));
    }
    Ok(compiled)
}

/// The first element below `el` a compiled selector selects.
fn first_selected(sel: &CompiledSelector, doc: &Document, el: usize) -> (r: Option<usize>)
    requires
        valid_element(doc@, el),
    ensures
        match r {
            Some(x) => spec_select(doc@, el, sel@).len() > 0 && x == spec_select(doc@, el, sel@)[0] && valid_element(doc@, x),
            None => spec_select(doc@, el, sel@).len() == 0,
        },
{
    let found = sel.select(doc, el);
    if found.len() == 0 {
        None
    } else {
        Some(found[0])
    }
}

/// The text of an element, trimmed.
fn trimmed_text(doc: &Document, el: usize) -> (r: String)
    requires
        valid_element(doc@, el),
    ensures
        r@ == trim(text_of(doc@, el)),
{
    string_of(trimmed(&chars_of(doc.text(el).as_str())).as_slice())
}

/// An error rule's message for the element it matched: its `message`'s
/// literal `text:`, else the trimmed text of the first element its
/// `selector:` selects below the match (empty when none), else the match's
/// own trimmed text.
pub open spec fn rule_message(message: Option<Field>, html: Seq<char>, matched: usize) -> Result<Seq<char>, SFailure> {
    match message {
        Some(f) => match f.text {
            Some(t) => Ok(t@),
            None => match f.selector {
                Some(sel) => match login_selector(sel@) {
                    Err(e) => Err(e),
                    Ok(c) => {
                        let found = spec_select(html, matched, c);
                        Ok(trim(if found.len() > 0 { text_of(html, found[0]) } else { Seq::empty() }))
                    },
                },
                None => Ok(trim(text_of(html, matched))),
            },
        },
        None => Ok(trim(text_of(html, matched))),
    }
}

fn error_message(message: &Option<Field>, doc: &Document, matched: usize) -> (r: Result<String, LoginFailure>)
    requires
        valid_element(doc@, matched),
    ensures
        match rule_message(*message, doc@, matched) {
            Ok(m) => r matches Ok(x) && x@ == m,
            Err(f) => r matches Err(x) && x.sview() == f,
        },
{
    match message {
        Some(field) => {
            match &field.text {
                Some(text) => {
                    return Ok(String::from_str(text.as_str()));
                },
                None => {},
            }
            match &field.selector {
                Some(sel) => {
                    let compiled = compile_login_selector(sel.as_str())?;
                    let text = match first_selected(&compiled, doc, matched) {
                        Some(el) => doc.text(el),
                        None => String::new(),
                    };
                    return Ok(string_of(trimmed(&chars_of(text.as_str())).as_slice()));
                },
                None => {},
            }
        },
        None => {},
    }
    Ok(trimmed_text(doc, matched))
}

/// The error rules, in order, on a login response: the first whose
/// selector selects something rejects the login with that rule's message.
pub open spec fn rules_from(rules: Seq<ErrorRule>, html: Seq<char>, root: usize) -> Result<(), SFailure>
    decreases rules.len(),
{
    if rules.len() == 0 {
        Ok(())
    } else {
        match login_selector(rules[0].selector@) {
            Err(e) => Err(e),
            Ok(c) => {
                let found = spec_select(html, root, c);
                if found.len() == 0 {
                    rules_from(rules.drop_first(), html, root)
                } else {
                    match rule_message(rules[0].message, html, found[0]) {
                        Err(e) => Err(e),
                        Ok(m) => Err(SFailure::Rejected(m)),
                    }
                }
            },
        }
    }
}

/// Checks a login response against the definition's error rules (see
/// [`rules_from`]).
pub fn check_error_rules(rules: &[ErrorRule], body: &str) -> (r: Result<(), LoginFailure>)
    ensures
        match rules_from(rules@, body@, root_of(body@)) {
            Ok(()) => r is Ok,
            Err(f) => r matches Err(x) && x.sview() == f,
        },
{
    let doc = Document::parse(body);
    let root = doc.root();
    let mut i: usize = 0;
    assert(rules@.skip(0) =~= rules@);
    while i < rules.len()
        invariant
            0 <= i <= rules.len(),
            doc@ == body@,
            root == root_of(body@),
            valid_element(doc@, root),
            rules_from(rules@, body@, root) == rules_from(rules@.skip(i as int), body@, root),
        decreases rules.len() - i,
    {
        assert(rules@.skip(i as int)[0] == rules@[i as int]);
        assert(rules@.skip(i as int).drop_first() =~= rules@.skip(i + 1));
        let compiled = compile_login_selector(rules[i].selector.as_str())?;
        match first_selected(&compiled, &doc, root) {
            None => {},
            Some(matched) => {
                let m = error_message(&rules[i].message, &doc, matched)?;
                return Err(LoginFailure::Rejected(m));
            },
        }
        i = i + 1;
    }
    assert(rules@.skip(rules.len() as int) =~= Seq::<ErrorRule>::empty());
    Ok(())
}

/// Whether a login test's selector selects something in the test page.
pub open spec fn test_selector_result(sel: Seq<char>, html: Seq<char>) -> Result<bool, SFailure> {
    match login_selector(sel) {
        Err(e) => Err(e),
        Ok(c) => Ok(spec_select(html, root_of(html), c).len() > 0),
    }
}

/// Whether `sel` selects something in `body` (see
/// [`test_selector_result`]).
pub fn test_selector_matches(sel: &str, body: &str) -> (r: Result<bool, LoginFailure>)
    ensures
        match test_selector_result(sel@, body@) {
            Ok(b) => r == Ok::<bool, LoginFailure>(b),
            Err(f) => r matches Err(x) && x.sview() == f,
        },
{
    let compiled = compile_login_selector(sel)?;
    let doc = Document::parse(body);
    let root = doc.root();
    Ok(first_selected(&compiled, &doc, root).is_some())
}

/// The value a `selectorinputs` field locates on the login page: a literal
/// `text:`, else the first element its `selector:` selects (its
/// `attribute:`, empty when absent, or else its text; empty when nothing is
/// selected), else nothing.
pub open spec fn login_located(field: Field, html: Seq<char>, root: usize) -> Result<Seq<char>, SFailure> {
    match field.text {
        Some(t) => Ok(t@),
        None => match field.selector {
            Some(sel) => match login_selector(sel@) {
                Err(e) => Err(e),
                Ok(c) => {
                    let found = spec_select(html, root, c);
                    if found.len() == 0 {
                        Ok(Seq::empty())
                    } else {
                        match field.attribute {
                            Some(a) => Ok(
                                match attr_of(html, found[0], a@) {
                                    Some(v) => v,
                                    None => Seq::empty(),
                                },
                            ),
                            None => Ok(text_of(html, found[0])),
                        }
                    }
                },
            },
            None => Ok(Seq::empty()),
        },
    }
}

/// The message for a `selectorinputs` field whose filters drop it.
pub open spec fn dropped_field_reason(name: Seq<char>) -> Seq<char> {
    "selectorinputs field "@ + debug_quoted(name) + "'s filter chain dropped it; a login field cannot be dropped"@
}

/// A `selectorinputs` field's value (see [`login_located`] and
/// [`login_field_value`]).
pub open spec fn login_field(name: Seq<char>, field: Field, html: Seq<char>, root: usize, now: crate::fuzzydate::Instant, kws: Seq<Seq<char>>) -> Result<
    Seq<char>,
    SFailure,
> {
    match login_located(field, html, root) {
        Err(e) => Err(e),
        Ok(v) => match field_outcome(field, v, now, kws) {
            Ok(Some(x)) => Ok(x),
            Ok(None) => Err(SFailure::Definition(dropped_field_reason(name))),
            Err(e) => Err(SFailure::Definition(message_of(e))),
        },
    }
}

/// A `selectorinputs` field's value on the login page (see
/// [`login_field`]).
pub fn evaluate_login_field(name: &str, field: &Field, doc: &Document, root: usize, ctx: &FilterCtx) -> (r: Result<
    String,
    LoginFailure,
>)
    requires
        valid_element(doc@, root),
    ensures
        match login_field(name@, *field, doc@, root, ctx_now(ctx), ctx_keywords(ctx)) {
            Ok(v) => r matches Ok(x) && x@ == v,
            Err(f) => r matches Err(x) && x.sview() == f,
        },
{
    let value = match &field.text {
        Some(text) => String::from_str(text.as_str()),
        None => match &field.selector {
            Some(sel) => {
                let compiled = compile_login_selector(sel.as_str())?;
                match first_selected(&compiled, doc, root) {
                    Some(el) => match &field.attribute {
                        Some(a) => match doc.attr(el, a.as_str()) {
                            Some(v) => v,
                            None => String::new(),
                        },
                        None => doc.text(el),
                    },
                    None => String::new(),
                }
            },
            None => String::new(),
        },
    };
    login_field_value(name, field, value, ctx)
}

/// A login input's name: the key itself, or, when `login.selectors` is
/// set, the `name` attribute of the first element the key (a selector)
/// selects on the page.
pub open spec fn input_name(selectors: bool, key: Seq<char>, html: Seq<char>, root: usize) -> Result<Seq<char>, SFailure> {
    if !selectors {
        Ok(key)
    } else {
        match login_selector(key) {
            Err(e) => Err(e),
            Ok(c) => {
                let found = spec_select(html, root, c);
                if found.len() == 0 {
                    Err(SFailure::Definition("login.inputs selector "@ + debug_quoted(key) + " matched no element (login.selectors is set)"@))
                } else {
                    match attr_of(html, found[0], "name"@) {
                        Some(n) => Ok(n),
                        None => Err(SFailure::Definition("element selected by "@ + debug_quoted(key) + " has no name attribute"@)),
                    }
                }
            },
        }
    }
}

fn resolve_input_name(selectors: bool, key: &str, doc: &Document, root: usize) -> (r: Result<String, LoginFailure>)
    requires
        valid_element(doc@, root),
    ensures
        match input_name(selectors, key@, doc@, root) {
            Ok(n) => r matches Ok(x) && x@ == n,
            Err(f) => r matches Err(x) && x.sview() == f,
        },
{
    if !selectors {
        return Ok(String::from_str(key));
    }
    let compiled = compile_login_selector(key)?;
    match first_selected(&compiled, doc, root) {
        None => {
            let mut msg = chars_of("login.inputs selector ");
            push_debug_quoted(&mut msg, &chars_of(key));
            push_str(&mut msg, " matched no element (login.selectors is set)");
            Err(LoginFailure::Definition(string_of(msg.as_slice())))
        },
        Some(el) => match doc.attr(el, "name") {
            Some(n) => Ok(n),
            None => {
                let mut msg = chars_of("element selected by ");
                push_debug_quoted(&mut msg, &chars_of(key));
                push_str(&mut msg, " has no name attribute");
                Err(LoginFailure::Definition(string_of(msg.as_slice())))
            },
        },
    }
}

/// The inputs of a form: each element of `els` that has a `name`, bound
/// to its `value` (empty when absent), in order; a repeated name keeps its
/// first place and takes the later value.
pub open spec fn form_inputs(html: Seq<char>, els: Seq<usize>) -> Seq<(Seq<char>, Seq<char>)>
    decreases els.len(),
{
    if els.len() == 0 {
        Seq::empty()
    } else {
        let rest = form_inputs(html, els.drop_last());
        match attr_of(html, els.last(), "name"@) {
            None => rest,
            Some(n) => upserted(
                rest,
                n,
                match attr_of(html, els.last(), "value"@) {
                    Some(v) => v,
                    None => Seq::empty(),
                },
            ),
        }
    }
}

/// The `selectorinputs` fields from the `i`th on, each value bound by the
/// field's name.
pub open spec fn selector_inputs_from(
    fs: Seq<(String, Field)>,
    i: int,
    html: Seq<char>,
    root: usize,
    acc: Seq<(Seq<char>, Seq<char>)>,
    now: crate::fuzzydate::Instant,
    kws: Seq<Seq<char>>,
) -> Result<Seq<(Seq<char>, Seq<char>)>, SFailure>
    decreases fs.len() - i,
{
    if i < 0 || i >= fs.len() {
        Ok(acc)
    } else {
        match login_field(fs[i].0@, fs[i].1, html, root, now, kws) {
            Err(e) => Err(e),
            Ok(v) => selector_inputs_from(fs, i + 1, html, root, upserted(acc, fs[i].0@, v), now, kws),
        }
    }
}

/// The `inputs` from the `i`th on: each template rendered (a failure is a
/// definition problem) and bound by the input's name (see
/// [`input_name`]).
pub open spec fn inputs_from(
    selectors: bool,
    ins: Seq<(Seq<char>, Seq<char>)>,
    i: int,
    html: Seq<char>,
    root: usize,
    sv: ScopeView,
    acc: Seq<(Seq<char>, Seq<char>)>,
) -> Result<Seq<(Seq<char>, Seq<char>)>, SFailure>
    decreases ins.len() - i,
{
    if i < 0 || i >= ins.len() {
        Ok(acc)
    } else {
        match rendered(ins[i].1, sv) {
            Err(m) => Err(SFailure::Definition(m)),
            Ok(v) => match input_name(selectors, ins[i].0, html, root) {
                Err(e) => Err(e),
                Ok(n) => inputs_from(selectors, ins, i + 1, html, root, sv, upserted(acc, n, v)),
            },
        }
    }
}

/// The selector of the login form: `login.form`, else `form`.
pub open spec fn login_form_selector(login: Login) -> Seq<char> {
    match login.form {
        Some(f) => f@,
        None => "form"@,
    }
}

/// What the form flow reads off the login page: the first element the
/// form selector selects (none is a definition problem); its inputs (see
/// [`form_inputs`]), then the `selectorinputs`, then the rendered `inputs`;
/// and where to post them: `login.submitpath`, else the form's `action`,
/// resolved against the page's final URL.
pub open spec fn spec_scrape_form(
    login: Login,
    html: Seq<char>,
    final_url: Seq<char>,
    sv: ScopeView,
    now: crate::fuzzydate::Instant,
    kws: Seq<Seq<char>>,
) -> Result<(Seq<(Seq<char>, Seq<char>)>, Seq<char>), SFailure> {
    let raw = login_form_selector(login);
    let root = root_of(html);
    match login_selector(raw) {
        Err(e) => Err(e),
        Ok(fc) => {
            let forms = spec_select(html, root, fc);
            if forms.len() == 0 {
                Err(SFailure::Definition("no form found on the login page using form selector "@ + debug_quoted(raw)))
            } else {
                let form = forms[0];
                match login_selector("input[name]"@) {
                    Err(e) => Err(e),
                    Ok(ic) => match selector_inputs_from(
                        login.selectorinputs@,
                        0,
                        html,
                        root,
                        form_inputs(html, spec_select(html, form, ic)),
                        now,
                        kws,
                    ) {
                        Err(e) => Err(e),
                        Ok(p1) => match inputs_from(login.selectors, table_of(login.inputs@), 0, html, root, sv, p1) {
                            Err(e) => Err(e),
                            Ok(p2) => form_target(login, html, form, final_url, p2),
                        },
                    },
                }
            }
        },
    }
}

/// Where the form's pairs go: `login.submitpath`, else the form's
/// `action` (empty when absent), resolved against the page's final URL.
pub open spec fn form_target(
    login: Login,
    html: Seq<char>,
    form: usize,
    final_url: Seq<char>,
    pairs: Seq<(Seq<char>, Seq<char>)>,
) -> Result<(Seq<(Seq<char>, Seq<char>)>, Seq<char>), SFailure> {
    let submit = match login.submitpath {
        Some(sp) => sp@,
        None => match attr_of(html, form, "action"@) {
            Some(a) => a,
            None => Seq::empty(),
        },
    };
    match joined_url(final_url, submit) {
        Ok(u) => Ok((pairs, u)),
        Err(e) => Err(SFailure::Definition("invalid form submit path "@ + debug_quoted(submit) + ": "@ + e)),
    }
}

fn apply_selector_inputs(
    fs: &Vec<(String, Field)>,
    doc: &Document,
    root: usize,
    ctx: &FilterCtx,
    pairs: &mut Vec<(String, String)>,
) -> (r: Result<(), LoginFailure>)
    requires
        valid_element(doc@, root),
    ensures
        match selector_inputs_from(fs@, 0, doc@, root, pairs_view(old(pairs)@), ctx_now(ctx), ctx_keywords(ctx)) {
            Ok(p) => r is Ok && pairs_view(final(pairs)@) == p,
            Err(f) => r matches Err(x) && x.sview() == f,
        },
{
    let ghost now = ctx_now(ctx);
    let ghost kws = ctx_keywords(ctx);
    let mut k: usize = 0;
    while k < fs.len()
        invariant
            0 <= k <= fs.len(),
            valid_element(doc@, root),
            now == ctx_now(ctx),
            kws == ctx_keywords(ctx),
            selector_inputs_from(fs@, 0, doc@, root, pairs_view(old(pairs)@), now, kws) == selector_inputs_from(
                fs@,
                k as int,
                doc@,
                root,
                pairs_view(pairs@),
                now,
                kws,
            ),
        decreases fs.len() - k,
    {
        let value = evaluate_login_field(fs[k].0.as_str(), &fs[k].1, doc, root, ctx)?;
        upsert(pairs, fs[k].0.as_str(), value);
        k = k + 1;
    }
    Ok(())
}

fn apply_inputs(
    selectors: bool,
    ins: &Vec<(String, String)>,
    doc: &Document,
    root: usize,
    scope: &Scope,
    pairs: &mut Vec<(String, String)>,
) -> (r: Result<(), LoginFailure>)
    requires
        valid_element(doc@, root),
    ensures
        match inputs_from(selectors, pairs_view(ins@), 0, doc@, root, scope@, pairs_view(old(pairs)@)) {
            Ok(p) => r is Ok && pairs_view(final(pairs)@) == p,
            Err(f) => r matches Err(x) && x.sview() == f,
        },
{
    let mut n: usize = 0;
    while n < ins.len()
        invariant
            0 <= n <= ins.len(),
            valid_element(doc@, root),
            inputs_from(selectors, pairs_view(ins@), 0, doc@, root, scope@, pairs_view(old(pairs)@)) == inputs_from(
                selectors,
                pairs_view(ins@),
                n as int,
                doc@,
                root,
                scope@,
                pairs_view(pairs@),
            ),
        decreases ins.len() - n,
    {
        let value = match render_text(ins[n].1.as_str(), scope) {
            Ok(v) => v,
            Err(m) => {
                return Err(LoginFailure::Definition(m));
            },
        };
        let name = resolve_input_name(selectors, ins[n].0.as_str(), doc, root)?;
        upsert(pairs, name.as_str(), value);
        n = n + 1;
    }
    Ok(())
}

/// The form flow's POST: the scraped `pairs` as a form body to `url`, with
/// the login headers' first values rendered and then, when there are
/// literal cookies, the `Cookie` header built from them.
pub open spec fn spec_form_post(
    login: Login,
    sv: ScopeView,
    pairs: Seq<(Seq<char>, Seq<char>)>,
    url: Seq<char>,
) -> Result<SLoginRequest, SFailure> {
    match rendered_headers(login.headers@, sv) {
        Err(e) => Err(SFailure::Definition(e)),
        Ok(hs) => Ok(
            SLoginRequest {
                method: Method::Post,
                url,
                headers: if login.cookies@.len() > 0 {
                    hs.push(("Cookie"@, joined_cookies(strs_view(login.cookies@))))
                } else {
                    hs
                },
                body: Some(pairs),
            },
        ),
    }
}

/// Builds the form flow's POST (see [`spec_form_post`]).
pub fn form_post_request(login: &Login, scope: &Scope, pairs: Vec<(String, String)>, url: String) -> (r: Result<
    HttpRequest,
    LoginFailure,
>)
    ensures
        match spec_form_post(*login, scope@, pairs_view(pairs@), url@) {
            Ok(x) => r matches Ok(y) && login_request_view(y) == x && y.follow_redirects,
            Err(e) => r matches Err(y) && y.sview() == e,
        },
{
    let mut headers = match rendered_header_values(&login.headers, scope) {
        Ok(h) => h,
        Err(e) => {
            return Err(LoginFailure::Definition(e));
        },
    };
    let ghost hs = pairs_view(headers@);
    match login_cookie_header(login) {
        Some(c) => {
            headers.push(c);
            assert(pairs_view(headers@) =~= hs.push(("Cookie"@, joined_cookies(strs_view(login.cookies@)))));
        },
        None => {},
    }
    Ok(HttpRequest { method: Method::Post, url, headers, body: Some(Body::Form(pairs)), follow_redirects: true })
}

/// Reads the login form off the login page `body` served from `final_url`
/// (see [`spec_scrape_form`]): the pairs to post, and where.
pub fn scrape_login_form(login: &Login, body: &str, final_url: &str, scope: &Scope, ctx: &FilterCtx) -> (r: Result<
    (Vec<(String, String)>, String),
    LoginFailure,
>)
    ensures
        match spec_scrape_form(*login, body@, final_url@, scope@, ctx_now(ctx), ctx_keywords(ctx)) {
            Ok((p, u)) => r matches Ok((v, x)) && pairs_view(v@) == p && x@ == u,
            Err(f) => r matches Err(x) && x.sview() == f,
        },
{
    let doc = Document::parse(body);
    let root = doc.root();
    let raw = match &login.form {
        Some(f) => String::from_str(f.as_str()),
        None => String::from_str("form"),
    };
    let form_selector = compile_login_selector(raw.as_str())?;
    let form = match first_selected(&form_selector, &doc, root) {
        Some(f) => f,
        None => {
            let mut msg = chars_of("no form found on the login page using form selector ");
            push_debug_quoted(&mut msg, &chars_of(raw.as_str()));
            return Err(LoginFailure::Definition(string_of(msg.as_slice())));
        },
    };
    let input_selector = compile_login_selector("input[name]")?;
    let inputs = input_selector.select(&doc, form);
    let mut pairs: Vec<(String, String)> = Vec::new();
    let mut i: usize = 0;
    assert(pairs_view(pairs@) =~= Seq::<(Seq<char>, Seq<char>)>::empty());
    while i < inputs.len()
        invariant
            0 <= i <= inputs.len(),
            forall|q: int| 0 <= q < inputs@.len() ==> valid_element(doc@, #[trigger] inputs@[q]),
            pairs_view(pairs@) == form_inputs(doc@, inputs@.take(i as int)),
        decreases inputs.len() - i,
    {
        assert(inputs@.take(i + 1).drop_last() =~= inputs@.take(i as int));
        assert(inputs@.take(i + 1).last() == inputs@[i as int]);
        match doc.attr(inputs[i], "name") {
            None => {},
            Some(name) => {
                let value = match doc.attr(inputs[i], "value") {
                    Some(v) => v,
                    None => String::new(),
                };
                upsert(&mut pairs, name.as_str(), value);
            },
        }
        i = i + 1;
    }
    assert(inputs@.take(inputs.len() as int) =~= inputs@);
    apply_selector_inputs(&login.selectorinputs, &doc, root, ctx, &mut pairs)?;
    let table = sorted_table(&login.inputs);
    apply_inputs(login.selectors, &table, &doc, root, scope, &mut pairs)?;
    let submit = match &login.submitpath {
        Some(sp) => String::from_str(sp.as_str()),
        None => match doc.attr(form, "action") {
            Some(a) => a,
            None => String::new(),
        },
    };
    match join_url(final_url, submit.as_str()) {
        Ok(u) => Ok((pairs, u)),
        Err(e) => {
            let mut msg = chars_of("invalid form submit path ");
            push_debug_quoted(&mut msg, &chars_of(submit.as_str()));
            push_str(&mut msg, ": ");
            push_all(&mut msg, &chars_of(e.as_str()));
            Err(LoginFailure::Definition(string_of(msg.as_slice())))
        },
    }
}

/// The scope a login renders against (see [`login_scope`]).
pub fn login_scope_of(def: &Definition, s: &Settings) -> (r: Scope)
    ensures
        r@ == login_scope(*def, s@),
{
    let q = SearchQuery::default();
    let scope = scope_for(def.settings.as_slice(), &q, s, &[]);
    assert(scope@.query =~= login_scope(*def, s@).query);
    assert(scope@.categories =~= login_scope(*def, s@).categories);
    scope
}

/// The login page's URL: `login.path` rendered and joined onto the first
/// link.
pub open spec fn spec_login_url(def: Definition, login: Login, s: Map<Seq<char>, Seq<char>>) -> Result<Seq<char>, SFailure> {
    match login.path {
        None => Err(SFailure::Definition("login block for "@ + def.id@ + " declares no path"@)),
        Some(path) => match spec_base_url(strs_view(def.links@)) {
            Err(reason) => Err(base_failure(def, reason)),
            Ok(base) => match rendered(path@, login_scope(def, s)) {
                Err(e) => Err(SFailure::Definition(e)),
                Ok(rp) => match joined_url(base, rp) {
                    Err(e) => Err(SFailure::Definition("invalid login path "@ + debug_quoted(rp) + ": "@ + e)),
                    Ok(u) => Ok(u),
                },
            },
        },
    }
}

/// The form flow's first request: a GET of the login page (see
/// [`spec_login_url`]) carrying the `Cookie` header of `login.cookies`
/// when there are any.
pub fn login_page_request(def: &Definition, login: &Login, s: &Settings) -> (r: Result<HttpRequest, LoginFailure>)
    ensures
        match spec_login_url(*def, *login, s@) {
            Ok(u) => r matches Ok(x) && x.method == Method::Get && x.url@ == u && x.body is None && x.follow_redirects
                && (login.cookies@.len() == 0 ==> x.headers@.len() == 0) && (login.cookies@.len() > 0 ==> pairs_view(x.headers@)
                == seq![("Cookie"@, joined_cookies(strs_view(login.cookies@)))]),
            Err(e) => r matches Err(y) && y.sview() == e,
        },
{
    let path = match &login.path {
        Some(p) => p,
        None => {
            let mut msg = chars_of("login block for ");
            push_all(&mut msg, &chars_of(def.id.as_str()));
            push_str(&mut msg, " declares no path");
            return Err(definition_failure(msg));
        },
    };
    let base = match resolve_base_url(def) {
        Ok(b) => b,
        Err(reason) => {
            let mut msg = chars_of("definition ");
            push_all(&mut msg, &chars_of(def.id.as_str()));
            push_str(&mut msg, ": ");
            push_all(&mut msg, &chars_of(reason.as_str()));
            return Err(definition_failure(msg));
        },
    };
    let scope = login_scope_of(def, s);
    let rp = match render_text(path.as_str(), &scope) {
        Ok(x) => x,
        Err(e) => {
            return Err(LoginFailure::Definition(e));
        },
    };
    let url = match join_url(base.as_str(), rp.as_str()) {
        Ok(u) => u,
        Err(e) => {
            let mut msg = chars_of("invalid login path ");
            push_debug_quoted(&mut msg, &chars_of(rp.as_str()));
            push_str(&mut msg, ": ");
            push_all(&mut msg, &chars_of(e.as_str()));
            return Err(definition_failure(msg));
        },
    };
    let mut headers: Vec<(String, String)> = Vec::new();
    match login_cookie_header(login) {
        Some(h) => {
            headers.push(h);
            assert(pairs_view(headers@) =~= seq![("Cookie"@, joined_cookies(strs_view(login.cookies@)))]);
        },
        None => {},
    }
    Ok(HttpRequest { method: Method::Get, url, headers, body: None, follow_redirects: true })
}

/// The login test's request: a GET of `test.path` resolved against the
/// base URL; a path that does not resolve is a definition problem naming
/// it.
pub fn login_test_request(base: &str, test: &crate::model::LoginTest) -> (r: Result<HttpRequest, LoginFailure>)
    ensures
        match joined_url(base@, test.path@) {
            Ok(u) => r matches Ok(x) && x.method == Method::Get && x.url@ == u && x.headers@.len() == 0 && x.body is None
                && x.follow_redirects,
            Err(e) => r matches Err(y) && y.sview() == SFailure::Definition("invalid login test path "@ + debug_quoted(test.path@)
                + ": "@ + e),
        },
{
    match join_url(base, test.path.as_str()) {
        Ok(url) => Ok(HttpRequest { method: Method::Get, url, headers: Vec::new(), body: None, follow_redirects: true }),
        Err(e) => {
            let mut msg = chars_of("invalid login test path ");
            push_debug_quoted(&mut msg, &chars_of(test.path.as_str()));
            push_str(&mut msg, ": ");
            push_all(&mut msg, &chars_of(e.as_str()));
            Err(definition_failure(msg))
        },
    }
}

/// The base URL a login resolves its paths against: the first link; a
/// definition without a usable one is a definition problem naming it.
pub fn login_base_url(def: &Definition) -> (r: Result<String, LoginFailure>)
    ensures
        match spec_base_url(strs_view(def.links@)) {
            Ok(b) => r matches Ok(x) && x@ == b,
            Err(reason) => r matches Err(y) && y.sview() == base_failure(*def, reason),
        },
{
    match resolve_base_url(def) {
        Ok(b) => Ok(b),
        Err(reason) => {
            let mut msg = chars_of("definition ");
            push_all(&mut msg, &chars_of(def.id.as_str()));
            push_str(&mut msg, ": ");
            push_all(&mut msg, &chars_of(reason.as_str()));
            Err(definition_failure(msg))
        },
    }
}

/// The value the first pair named `k` binds, if any.
pub open spec fn bound(p: Seq<(Seq<char>, Seq<char>)>, k: Seq<char>) -> Option<Seq<char>>
    decreases p.len(),
{
    if p.len() == 0 {
        None
    } else if p[0].0 == k {
        Some(p[0].1)
    } else {
        bound(p.drop_first(), k)
    }
}

/// Setting a login input reads back: afterwards `name` is bound to
/// `value`, every other name keeps its binding, and no pair is added when
/// `name` was already bound.
pub proof fn law_upsert_reads_back(p: Seq<(Seq<char>, Seq<char>)>, name: Seq<char>, value: Seq<char>, other: Seq<char>)
    requires
        other != name,
    ensures
        bound(upserted(p, name, value), name) == Some(value),
        bound(upserted(p, name, value), other) == bound(p, other),
        bound(p, name) is Some ==> upserted(p, name, value).len() == p.len(),
        bound(p, name) is None ==> upserted(p, name, value).len() == p.len() + 1,
    decreases p.len(),
{
    if p.len() == 0 {
        let u = seq![(name, value)];
        assert(u.drop_first() =~= Seq::<(Seq<char>, Seq<char>)>::empty());
        assert(bound(u.drop_first(), other) is None);
    } else {
        if p[0].0 == name {
            let q = p.update(0, (name, value));
            assert(q.drop_first() =~= p.drop_first());
            assert(q[0] == (name, value));
            assert(bound(q, other) == bound(q.drop_first(), other));
        } else {
            law_upsert_reads_back(p.drop_first(), name, value, other);
            let u = seq![p[0]] + upserted(p.drop_first(), name, value);
            assert(u.drop_first() =~= upserted(p.drop_first(), name, value));
        }
    }
}

} // verus!
