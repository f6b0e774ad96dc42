//! A search request's parameters, the user's setting values, and the
//! template scope both give a definition's paths and inputs.
use vstd::prelude::*;

use crate::filters::{break_pred, nonempty, pieces, pieces_from, views, Breaks};
use crate::model::{decimal, int_to_string, Setting};
use crate::pairs::{insert_sorted, keys_sorted};
use crate::template::{pairs_map, strings_view, Scope, ScopeView};
use crate::text::{chars_of, lowercase, string_of, to_lower};

verus! {

/// One search request's parameters, independent of any definition.
#[derive(Debug, Clone, PartialEq, Eq)]
pub struct SearchQuery {
    /// A free-text query string.
    pub q: Option<String>,
    /// An IMDB id to search by, e.g. `tt0000000`.
    pub imdb_id: Option<String>,
    /// A TV season number.
    pub season: Option<u32>,
    /// A TV episode number.
    pub episode: Option<u32>,
    /// Newznab category ids to restrict the search to.
    pub categories: Vec<u32>,
}

impl Default for SearchQuery {
    fn default() -> (r: SearchQuery)
        ensures
            r.q is None,
            r.imdb_id is None,
            r.season is None,
            r.episode is None,
            r.categories@.len() == 0,
    {
        SearchQuery { q: None, imdb_id: None, season: None, episode: None, categories: Vec::new() }
    }
}

pub open spec fn opt_view(o: Option<String>) -> Option<Seq<char>> {
    match o {
        Some(s) => Some(s@),
        None => None,
    }
}

/// The query text split on whitespace, each word lower-cased.
pub open spec fn keywords_of(q: Option<Seq<char>>) -> Seq<Seq<char>> {
    match q {
        Some(t) => nonempty(pieces_from(t, break_pred(Breaks::Whitespace), Seq::empty())).map_values(
            |w: Seq<char>| lowercase(w),
        ),
        None => Seq::empty(),
    }
}

/// The query text, or the empty string when absent.
pub open spec fn text_or_empty(o: Option<Seq<char>>) -> Seq<char> {
    match o {
        Some(t) => t,
        None => Seq::empty(),
    }
}

/// A number in decimal, or the empty string when absent.
pub open spec fn number_or_empty(o: Option<u32>) -> Seq<char> {
    match o {
        Some(n) => decimal(n as int),
        None => Seq::empty(),
    }
}

impl SearchQuery {
    /// Splits `q` on whitespace and lower-cases each piece; an absent `q`
    /// gives no keywords.
    pub fn keywords(&self) -> (r: Vec<String>)
        ensures
            strings_view(r@) == keywords_of(opt_view(self.q)),
    {
        let mut out: Vec<String> = Vec::new();
        match &self.q {
            Some(q) => {
                let ps = pieces(&chars_of(q.as_str()), Breaks::Whitespace);
                let ghost pv = views(ps@);
                let mut i: usize = 0;
                assert(pv.take(0) =~= Seq::<Seq<char>>::empty());
                while i < ps.len()
                    invariant
                        0 <= i <= ps.len(),
                        pv == views(ps@),
                        pv.len() == ps@.len(),
                        strings_view(out@) == nonempty(pv.take(i as int)).map_values(
                            |w: Seq<char>| lowercase(w),
                        ),
                    decreases ps.len() - i,
                {
                    let ghost before = strings_view(out@);
                    assert(pv.take(i + 1).drop_last() =~= pv.take(i as int));
                    assert(pv.take(i + 1).last() == ps@[i as int]@);
                    if ps[i].len() > 0 {
                        let w = to_lower(string_of(ps[i].as_slice()).as_str());
                        out.push(w);
                        assert(strings_view(out@) =~= before.push(lowercase(ps@[i as int]@)));
                    }
                    i = i + 1;
                }
                assert(pv.take(ps.len() as int) =~= pv);
            },
            None => {
                assert(strings_view(out@) =~= Seq::<Seq<char>>::empty());
            },
        }
        out
    }
}

/// The map a list of bindings gives when each is inserted in turn (a later
/// binding of a key replaces an earlier one).
pub open spec fn inserted(p: Seq<(String, String)>) -> Map<Seq<char>, Seq<char>>
    decreases p.len(),
{
    if p.len() == 0 {
        Map::empty()
    } else {
        inserted(p.drop_last()).insert(p.last().0@, p.last().1@)
    }
}

/// What a user entered for a definition's settings, by setting name.
#[derive(Debug, Clone)]
pub struct Settings {
    values: Vec<(String, String)>,
}

impl View for Settings {
    type V = Map<Seq<char>, Seq<char>>;

    closed spec fn view(&self) -> Map<Seq<char>, Seq<char>> {
        pairs_map(self.values@)
    }
}

impl Default for Settings {
    fn default() -> (r: Settings)
        ensures
            r@ == Map::<Seq<char>, Seq<char>>::empty(),
    {
        let r = Settings { values: Vec::new() };
        assert(r@ =~= Map::<Seq<char>, Seq<char>>::empty());
        r
    }
}

/// A setting's value: the user's when given, else its declared default,
/// else the empty string.
pub open spec fn setting_value(user: Map<Seq<char>, Seq<char>>, s: Setting) -> Seq<char> {
    if user.dom().contains(s.name@) {
        user[s.name@]
    } else {
        match s.default {
            Some(d) => d@,
            None => Seq::empty(),
        }
    }
}

/// Every declared setting bound to its value (a later declaration of a
/// name replaces an earlier one).
pub open spec fn spec_resolved(user: Map<Seq<char>, Seq<char>>, decls: Seq<Setting>) -> Map<
    Seq<char>,
    Seq<char>,
>
    decreases decls.len(),
{
    if decls.len() == 0 {
        Map::empty()
    } else {
        spec_resolved(user, decls.drop_last()).insert(decls.last().name@, setting_value(user, decls.last()))
    }
}

impl Settings {
    /// Collects user values; a later binding of a name replaces an earlier one.
    pub fn new(values: Vec<(String, String)>) -> (r: Settings)
        ensures
            r@ == inserted(values@),
    {
        let mut out: Vec<(String, String)> = Vec::new();
        let mut i: usize = 0;
        assert(pairs_map(out@) =~= inserted(values@.take(0)));
        while i < values.len()
            invariant
                0 <= i <= values.len(),
                keys_sorted(out@),
                pairs_map(out@) == inserted(values@.take(i as int)),
            decreases values.len() - i,
        {
            assert(values@.take(i + 1).drop_last() =~= values@.take(i as int));
            insert_sorted(&mut out, values[i].0.as_str(), values[i].1.as_str());
            i = i + 1;
        }
        assert(values@.take(values.len() as int) =~= values@);
        Settings { values: out }
    }

    /// The user's value for `name`, if given.
    fn get(&self, name: &str) -> (r: Option<String>)
        ensures
            match r {
                Some(v) => self@.dom().contains(name@) && v@ == self@[name@],
                None => !self@.dom().contains(name@),
            },
    {
        let want = chars_of(name);
        let mut i: usize = 0;
        assert(self.values@.skip(0) =~= self.values@);
        while i < self.values.len()
            invariant
                0 <= i <= self.values.len(),
                want@ == name@,
                crate::template::pairs_get(self.values@, name@) == crate::template::pairs_get(
                    self.values@.skip(i as int),
                    name@,
                ),
            decreases self.values.len() - i,
        {
            assert(self.values@.skip(i as int).drop_first() =~= self.values@.skip(i + 1));
            if crate::text::eq_chars(&chars_of(self.values[i].0.as_str()), &want) {
                return Some(String::from_str(self.values[i].1.as_str()));
            }
            i = i + 1;
        }
        None
    }

    /// Every declared setting with its value: the user's, else its
    /// `default:`, else the empty string; ordered by name.
    pub fn resolved(&self, decls: &[Setting]) -> (r: Vec<(String, String)>)
        ensures
            keys_sorted(r@),
            pairs_map(r@) == spec_resolved(self@, decls@),
    {
        let mut out: Vec<(String, String)> = Vec::new();
        let mut i: usize = 0;
        assert(pairs_map(out@) =~= spec_resolved(self@, decls@.take(0)));
        while i < decls.len()
            invariant
                0 <= i <= decls.len(),
                keys_sorted(out@),
                pairs_map(out@) == spec_resolved(self@, decls@.take(i as int)),
            decreases decls.len() - i,
        {
            assert(decls@.take(i + 1).drop_last() =~= decls@.take(i as int));
            let d = &decls[i];
            let value = match self.get(d.name.as_str()) {
                Some(v) => v,
                None => match &d.default {
                    Some(x) => String::from_str(x.as_str()),
                    None => String::new(),
                },
            };
            insert_sorted(&mut out, d.name.as_str(), value.as_str());
            i = i + 1;
        }
        assert(decls@.take(decls.len() as int) =~= decls@);
        out
    }
}

/// The `.Query.*` variables of a search.
pub open spec fn query_vars(q: SearchQuery) -> Map<Seq<char>, Seq<char>> {
    let raw = text_or_empty(opt_view(q.q));
    Map::<Seq<char>, Seq<char>>::empty().insert("Keywords"@, raw).insert("Q"@, raw).insert(
        "IMDBID"@,
        text_or_empty(opt_view(q.imdb_id)),
    ).insert("Season"@, number_or_empty(q.season)).insert("Ep"@, number_or_empty(q.episode))
}

fn number_text(o: Option<u32>) -> (r: String)
    ensures
        r@ == number_or_empty(o),
{
    match o {
        Some(n) => int_to_string(n as i64),
        None => String::new(),
    }
}

fn text_of(o: &Option<String>) -> (r: String)
    ensures
        r@ == text_or_empty(opt_view(*o)),
{
    match o {
        Some(t) => String::from_str(t.as_str()),
        None => String::new(),
    }
}

/// The scope a definition's templates render against for one search:
/// `.Config.*` from the resolved settings; `.Keywords`, `.Query.Keywords`
/// and `.Query.Q` the raw query text; `.Query.IMDBID`, `.Query.Season` and
/// `.Query.Ep` from the query (each empty when absent); `.Categories` the
/// given tracker category ids.
pub fn scope_for(settings: &[Setting], q: &SearchQuery, s: &Settings, mapped_categories: &[String]) -> (r: Scope)
    ensures
        r@ == (ScopeView {
            keywords: text_or_empty(opt_view(q.q)),
            config: spec_resolved(s@, settings@),
            result: Map::empty(),
            query: query_vars(*q),
            categories: strings_view(mapped_categories@),
        }),
{
    let mut scope = Scope::new();
    let resolved = s.resolved(settings);
    let mut i: usize = 0;
    assert(pairs_map(resolved@.take(0)) =~= Map::<Seq<char>, Seq<char>>::empty());
    while i < resolved.len()
        invariant
            0 <= i <= resolved.len(),
            keys_sorted(resolved@),
            scope@.config == pairs_map(resolved@.take(i as int)),
            scope@.keywords == Seq::<char>::empty(),
            scope@.result == Map::<Seq<char>, Seq<char>>::empty(),
            scope@.query == Map::<Seq<char>, Seq<char>>::empty(),
            scope@.categories == Seq::<Seq<char>>::empty(),
        decreases resolved.len() - i,
    {
        proof {
            lemma_sorted_prefix_push(resolved@, i as int);
        }
        scope.set_config(resolved[i].0.as_str(), resolved[i].1.as_str());
        i = i + 1;
    }
    assert(resolved@.take(resolved.len() as int) =~= resolved@);
    let raw = text_of(&q.q);
    scope.set_keywords(raw.as_str());
    scope.set_query("Keywords", raw.as_str());
    scope.set_query("Q", raw.as_str());
    scope.set_query("IMDBID", text_of(&q.imdb_id).as_str());
    scope.set_query("Season", number_text(q.season).as_str());
    scope.set_query("Ep", number_text(q.episode).as_str());
    let mut refs: Vec<&str> = Vec::new();
    let mut j: usize = 0;
    while j < mapped_categories.len()
        invariant
            0 <= j <= mapped_categories.len(),
            refs@.len() == j,
            forall|k: int| 0 <= k < j ==> #[trigger] refs@[k]@ == mapped_categories@[k]@,
        decreases mapped_categories.len() - j,
    {
        refs.push(mapped_categories[j].as_str());
        j = j + 1;
    }
    assert(refs@.map_values(|s: &str| s@) =~= strings_view(mapped_categories@));
    scope.set_categories(refs.as_slice());
    scope
}

/// With keys in order, the pairs up to `i + 1` map like those up to `i`
/// with the `i`th bound.
proof fn lemma_sorted_prefix_push(p: Seq<(String, String)>, i: int)
    requires
        keys_sorted(p),
        0 <= i < p.len(),
    ensures
        pairs_map(p.take(i + 1)) == pairs_map(p.take(i)).insert(p[i].0@, p[i].1@),
{
    let a = p.take(i);
    assert(p.take(i + 1) =~= a.push(p[i]));
    assert forall|j: int| 0 <= j < a.len() implies a[j].0@ != p[i].0@ by {
        assert(crate::pairs::str_lt(p[j].0@, p[i].0@));
        if a[j].0@ == p[i].0@ {
            crate::pairs::lemma_lt_irreflexive(p[i].0@);
        }
    }
    crate::template::lemma_pairs_push(a, p[i]);
}

} // verus!
