//! The Newznab/Torznab API request: the `/api` endpoint of an indexer's
//! base URL and the search parameters, in a fixed order.
use vstd::prelude::*;

use crate::client::{ascii_folded, HttpRequest, Method};
use crate::model::{decimal, int_to_string};
use crate::pairs::pairs_view;
use crate::query::{opt_view, SearchQuery};
use crate::template::join_with;
use crate::text::{chars_of, copy_range, push_all, push_str, string_of};
use crate::urls::{append_pairs, clear_query, path_of, push_segment, url_path, url_with_pairs, url_with_segment, url_without_query};

verus! {

/// `s` without a leading `tt` in any ASCII case.
pub open spec fn spec_strip_tt(s: Seq<char>) -> Seq<char> {
    if s.len() >= 2 && ascii_folded(s.take(2)) == "tt"@ {
        s.skip(2)
    } else {
        s
    }
}

/// Strips a leading `tt`/`TT`/`Tt`/`tT` from an IMDB id: the API takes
/// bare digits, while an id may carry the prefix.
pub fn strip_tt_prefix(imdb_id: &str) -> (r: String)
    ensures
        r@ == spec_strip_tt(imdb_id@),
{
    let s = chars_of(imdb_id);
    proof {
        reveal_strlit("tt");
    }
    if s.len() >= 2 && (s[0] == 't' || s[0] == 'T') && (s[1] == 't' || s[1] == 'T') {
        assert(ascii_folded(s@.take(2)) =~= "tt"@);
        string_of(copy_range(&s, 2, s.len()).as_slice())
    } else {
        proof {
            if s@.len() >= 2 && ascii_folded(s@.take(2)) == "tt"@ {
                assert(ascii_folded(s@.take(2))[0] == 't');
                assert(ascii_folded(s@.take(2))[1] == 't');
            }
        }
        string_of(s.as_slice())
    }
}

/// Whether `p`, trailing slashes dropped, ends with `/api`.
pub open spec fn ends_in_api(p: Seq<char>) -> bool {
    let t = trim_trailing_slashes(p);
    t.len() >= 4 && t.skip(t.len() - 4) == "/api"@
}

pub open spec fn trim_trailing_slashes(p: Seq<char>) -> Seq<char>
    decreases p.len(),
{
    if p.len() > 0 && p.last() == '/' {
        trim_trailing_slashes(p.drop_last())
    } else {
        p
    }
}

/// The API endpoint of a base URL: its query dropped; used as it is when
/// its path already ends in `/api` (trailing slashes aside), else with an
/// `api` segment added after its path.
pub open spec fn spec_api_url(base: Seq<char>) -> Seq<char> {
    let u = url_without_query(base);
    if ends_in_api(url_path(u)) {
        u
    } else {
        url_with_segment(u, "api"@)
    }
}

fn trimmed_slashes_end(p: &Vec<char>) -> (r: usize)
    ensures
        r <= p.len(),
        p@.take(r as int) == trim_trailing_slashes(p@),
{
    let mut n = p.len();
    assert(p@.take(n as int) =~= p@);
    while n > 0 && p[n - 1] == '/'
        invariant
            n <= p.len(),
            trim_trailing_slashes(p@) == trim_trailing_slashes(p@.take(n as int)),
        decreases n,
    {
        assert(p@.take(n as int).drop_last() =~= p@.take(n - 1));
        n = n - 1;
    }
    n
}

/// The API endpoint of `base` (see [`spec_api_url`]).
pub fn api_url(base: &str) -> (r: String)
    ensures
        r@ == spec_api_url(base@),
{
    let u = clear_query(base);
    let p = chars_of(path_of(u.as_str()).as_str());
    let n = trimmed_slashes_end(&p);
    let api = chars_of("/api");
    proof {
        reveal_strlit("/api");
    }
    let ends = n >= 4 && crate::text::matches_at(&p, n - 4, &api);
    proof {
        let t = p@.take(n as int);
        if n >= 4 {
            assert(t.skip(t.len() - 4) =~= p@.subrange(n - 4, n as int));
        }
    }
    if ends {
        u
    } else {
        push_segment(u.as_str(), "api")
    }
}

pub open spec fn with_opt(ps: Seq<(Seq<char>, Seq<char>)>, k: Seq<char>, v: Option<Seq<char>>) -> Seq<(Seq<char>, Seq<char>)> {
    match v {
        Some(x) => ps.push((k, x)),
        None => ps,
    }
}

/// The categories comma-joined.
pub open spec fn cats_text(cats: Seq<u32>) -> Seq<char> {
    join_with(cats.map_values(|c: u32| decimal(c as int)), ","@)
}

/// The search parameters, in order: `t` (`tvsearch` when a season or
/// episode is asked for, else `search`), then those present of `q`,
/// `imdbid` (without a `tt` prefix), `season`, `ep`, `cat` and `apikey`.
pub open spec fn search_params(q: SearchQuery, apikey: Option<Seq<char>>) -> Seq<(Seq<char>, Seq<char>)> {
    let t = if q.season is Some || q.episode is Some {
        "tvsearch"@
    } else {
        "search"@
    };
    let p0 = seq![("t"@, t)];
    let p1 = with_opt(p0, "q"@, opt_view(q.q));
    let p2 = with_opt(
        p1,
        "imdbid"@,
        match q.imdb_id {
            Some(i) => Some(spec_strip_tt(i@)),
            None => None,
        },
    );
    let p3 = with_opt(p2, "season"@, match q.season { Some(s) => Some(decimal(s as int)), None => None });
    let p4 = with_opt(p3, "ep"@, match q.episode { Some(e) => Some(decimal(e as int)), None => None });
    let p5 = with_opt(p4, "cat"@, if q.categories@.len() > 0 { Some(cats_text(q.categories@)) } else { None });
    with_opt(p5, "apikey"@, apikey)
}

fn push_pair(ps: &mut Vec<(String, String)>, k: &str, v: String)
    ensures
        pairs_view(final(ps)@) == pairs_view(old(ps)@).push((k@, v@)),
{
    let ghost before = pairs_view(ps@);
    ps.push((String::from_str(k), v));
    assert(pairs_view(ps@) =~= before.push((k@, v@)));
}

fn categories_text(cats: &Vec<u32>) -> (r: String)
    ensures
        r@ == cats_text(cats@),
{
    let ghost all = cats@.map_values(|c: u32| decimal(c as int));
    let mut out: Vec<char> = Vec::new();
    let mut i: usize = 0;
    assert(all.take(0) =~= Seq::<Seq<char>>::empty());
    while i < cats.len()
        invariant
            0 <= i <= cats.len(),
            all == cats@.map_values(|c: u32| decimal(c as int)),
            out@ == join_with(all.take(i as int), ","@),
        decreases cats.len() - i,
    {
        let d = chars_of(int_to_string(cats[i] as i64).as_str());
        proof {
            assert(all.take(i + 1).drop_last() =~= all.take(i as int));
            assert(all.take(i + 1).last() == all[i as int]);
            assert(all[i as int] == decimal(cats@[i as int] as int));
        }
        if i > 0 {
            push_str(&mut out, ",");
        }
        push_all(&mut out, &d);
        i = i + 1;
    }
    assert(all.take(cats.len() as int) =~= all);
    string_of(out.as_slice())
}

/// The search request URL: [`api_url`] of `base` with the search
/// parameters (see [`search_params`]) form-encoded onto its query.
pub fn build_url(base: &str, q: &SearchQuery, apikey: Option<&str>) -> (r: String)
    ensures
        r@ == url_with_pairs(spec_api_url(base@), search_params(*q, match apikey {
            Some(k) => Some(k@),
            None => None,
        })),
{
    let url = api_url(base);
    let ghost ak = match apikey {
        Some(k) => Some(k@),
        None => None,
    };
    let mut ps: Vec<(String, String)> = Vec::new();
    let t = if q.season.is_some() || q.episode.is_some() {
        String::from_str("tvsearch")
    } else {
        String::from_str("search")
    };
    assert(pairs_view(ps@) =~= Seq::<(Seq<char>, Seq<char>)>::empty());
    push_pair(&mut ps, "t", t);
    let ghost p0 = pairs_view(ps@);
    if let Some(term) = &q.q {
        push_pair(&mut ps, "q", String::from_str(term.as_str()));
    }
    let ghost p1 = pairs_view(ps@);
    assert(p1 == with_opt(p0, "q"@, opt_view(q.q)));
    if let Some(imdb) = &q.imdb_id {
        push_pair(&mut ps, "imdbid", strip_tt_prefix(imdb.as_str()));
    }
    let ghost p2 = pairs_view(ps@);
    assert(p2 == with_opt(p1, "imdbid"@, match q.imdb_id { Some(i) => Some(spec_strip_tt(i@)), None => None }));
    if let Some(season) = q.season {
        push_pair(&mut ps, "season", int_to_string(season as i64));
    }
    let ghost p3 = pairs_view(ps@);
    assert(p3 == with_opt(p2, "season"@, match q.season { Some(s) => Some(decimal(s as int)), None => None }));
    if let Some(ep) = q.episode {
        push_pair(&mut ps, "ep", int_to_string(ep as i64));
    }
    let ghost p4 = pairs_view(ps@);
    assert(p4 == with_opt(p3, "ep"@, match q.episode { Some(e) => Some(decimal(e as int)), None => None }));
    if q.categories.len() > 0 {
        push_pair(&mut ps, "cat", categories_text(&q.categories));
    }
    let ghost p5 = pairs_view(ps@);
    assert(p5 == with_opt(p4, "cat"@, if q.categories@.len() > 0 { Some(cats_text(q.categories@)) } else { None }));
    if let Some(key) = apikey {
        push_pair(&mut ps, "apikey", String::from_str(key));
    }
    assert(pairs_view(ps@) == with_opt(p5, "apikey"@, ak));
    assert(pairs_view(ps@) == search_params(*q, ak));
    append_pairs(url.as_str(), &ps)
}

/// Whether a status is a success (200 to 299).
pub open spec fn is_success(status: u16) -> bool {
    200 <= status < 300
}

/// The search request: a GET of [`build_url`], no headers or body,
/// following redirects.
pub fn search_request(base: &str, q: &SearchQuery, apikey: Option<&str>) -> (r: HttpRequest)
    ensures
        r.method == Method::Get,
        r.url@ == url_with_pairs(spec_api_url(base@), search_params(*q, match apikey {
            Some(k) => Some(k@),
            None => None,
        })),
        r.headers@.len() == 0,
        r.body is None,
        r.follow_redirects,
{
    HttpRequest {
        method: Method::Get,
        url: build_url(base, q, apikey),
        headers: Vec::new(),
        body: None,
        follow_redirects: true,
    }
}

/// Whether a response's status accepts it (2xx); any other is an error
/// naming the status and the final URL.
pub fn accepts_status(status: u16) -> (r: bool)
    ensures
        r == is_success(status),
{
    200 <= status && status < 300
}

/// Whether a parameter list carries a `season` or an `ep` parameter.
pub open spec fn asks_for_an_episode(ps: Seq<(Seq<char>, Seq<char>)>) -> bool {
    exists|i: int| 0 <= i < ps.len() && ((#[trigger] ps[i]).0 == "season"@ || ps[i].0 == "ep"@)
}

proof fn lemma_with_opt_keeps(ps: Seq<(Seq<char>, Seq<char>)>, k: Seq<char>, v: Option<Seq<char>>)
    ensures
        with_opt(ps, k, v).len() >= ps.len(),
        forall|i: int| 0 <= i < ps.len() ==> #[trigger] with_opt(ps, k, v)[i] == ps[i],
        forall|i: int| ps.len() <= i < with_opt(ps, k, v).len() ==> (#[trigger] with_opt(ps, k, v)[i]).0 == k,
        v is Some ==> with_opt(ps, k, v).len() == ps.len() + 1,
{
}

/// The search type follows the episode fields: the first parameter is `t`,
/// and it is `tvsearch` exactly when the query asks for a season or an
/// episode, which is exactly when the parameters carry `season` or `ep`;
/// otherwise it is `search`.
pub proof fn law_tvsearch_exactly_for_a_season_or_episode(q: SearchQuery, apikey: Option<Seq<char>>)
    ensures
        search_params(q, apikey).len() > 0,
        search_params(q, apikey)[0].0 == "t"@,
        (q.season is Some || q.episode is Some) ==> search_params(q, apikey)[0].1 == "tvsearch"@,
        !(q.season is Some || q.episode is Some) ==> search_params(q, apikey)[0].1 == "search"@,
        search_params(q, apikey)[0].1 == "tvsearch"@ <==> asks_for_an_episode(search_params(q, apikey)),
{
    reveal_strlit("t");
    reveal_strlit("q");
    reveal_strlit("imdbid");
    reveal_strlit("season");
    reveal_strlit("ep");
    reveal_strlit("cat");
    reveal_strlit("apikey");
    reveal_strlit("tvsearch");
    reveal_strlit("search");
    let t = if q.season is Some || q.episode is Some {
        "tvsearch"@
    } else {
        "search"@
    };
    let p0 = seq![("t"@, t)];
    let v1 = opt_view(q.q);
    let v2 = match q.imdb_id {
        Some(i) => Some(spec_strip_tt(i@)),
        None => None,
    };
    let v3 = match q.season {
        Some(s) => Some(decimal(s as int)),
        None => None,
    };
    let v4 = match q.episode {
        Some(e) => Some(decimal(e as int)),
        None => None,
    };
    let v5 = if q.categories@.len() > 0 {
        Some(cats_text(q.categories@))
    } else {
        None
    };
    let p1 = with_opt(p0, "q"@, v1);
    let p2 = with_opt(p1, "imdbid"@, v2);
    let p3 = with_opt(p2, "season"@, v3);
    let p4 = with_opt(p3, "ep"@, v4);
    let p5 = with_opt(p4, "cat"@, v5);
    let p6 = with_opt(p5, "apikey"@, apikey);
    lemma_with_opt_keeps(p0, "q"@, v1);
    lemma_with_opt_keeps(p1, "imdbid"@, v2);
    lemma_with_opt_keeps(p2, "season"@, v3);
    lemma_with_opt_keeps(p3, "ep"@, v4);
    lemma_with_opt_keeps(p4, "cat"@, v5);
    lemma_with_opt_keeps(p5, "apikey"@, apikey);
    assert(p6 == search_params(q, apikey));
    assert(p6[0] == p0[0]);
    assert("tvsearch"@ != "search"@) by {
        assert("tvsearch"@.len() != "search"@.len());
    }
    if q.season is Some {
        let k = p2.len() as int;
        assert(p3[k].0 == "season"@);
        assert(p6[k] == p3[k]);
        assert(asks_for_an_episode(p6));
    } else if q.episode is Some {
        let k = p3.len() as int;
        assert(p4[k].0 == "ep"@);
        assert(p6[k] == p4[k]);
        assert(asks_for_an_episode(p6));
    } else {
        assert(p3 == p2);
        assert(p4 == p3);
        assert forall|i: int| 0 <= i < p6.len() implies !((#[trigger] p6[i]).0 == "season"@ || p6[i].0 == "ep"@) by {
            if i == 0 {
                assert(p6[i] == p0[0]);
                assert("t"@ != "season"@ && "t"@ != "ep"@) by {
                    assert("t"@.len() == 1 && "season"@.len() == 6 && "ep"@.len() == 2);
                }
            } else if i < p1.len() {
                assert(p6[i] == p1[i]);
                assert("q"@ != "season"@ && "q"@ != "ep"@) by {
                    assert("q"@.len() == 1 && "season"@.len() == 6 && "ep"@.len() == 2);
                }
            } else if i < p2.len() {
                assert(p6[i] == p2[i]);
                assert("imdbid"@ != "season"@ && "imdbid"@ != "ep"@) by {
                    assert("imdbid"@[0] != "season"@[0]);
                }
            } else if i < p5.len() {
                assert(p6[i] == p5[i]);
                assert("cat"@ != "season"@ && "cat"@ != "ep"@);
            } else {
                assert("apikey"@ != "season"@ && "apikey"@ != "ep"@) by {
                    assert("apikey"@[0] != "season"@[0]);
                }
            }
        }
    }
}

} // verus!
