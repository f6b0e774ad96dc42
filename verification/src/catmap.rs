//! Per-definition tracker-category to Newznab-category mapping.
//!
//! A definition's `caps.categorymappings` pairs the tracker's own category
//! id with a Newznab category name. [`CategoryMap`] resolves those names
//! against the standard table once, at construction, so the rest of the
//! engine deals only in ids.
//!
//! [`CategoryMap::to_tracker`] expands a parent query to its children (a
//! query for `5000` matches trackers mapped to `5030`), never a child to
//! its parent: a query for `5030` does not match a tracker mapped only to
//! the bare `5000` block.
use vstd::prelude::*;

use crate::categories::{category_name, name_of, parent_of, spec_parent_of, top_of};
use crate::model::CategoryMapping;
use crate::text::{chars_of, eq_chars};

verus! {

/// The id of the first standard category, scanning ids upward from `id` in
/// steps of 5, whose name is `cat`.
pub open spec fn resolve_from(cat: Seq<char>, id: int) -> Option<u32>
    decreases 8025 - id,
{
    if id < 1000 || id > 8020 {
        None
    } else if category_name(id as u32) == Some(cat) {
        Some(id as u32)
    } else {
        resolve_from(cat, id + 5)
    }
}

/// The id of the standard category named `cat` (the smallest, should two
/// share a name).
pub open spec fn resolve(cat: Seq<char>) -> Option<u32> {
    resolve_from(cat, 1000)
}

/// The abstract content of a [`CategoryMap`]: its resolved rows in
/// declaration order, and the default tracker ids.
pub struct CatMapView {
    pub entries: Seq<(Seq<char>, u32)>,
    pub defaults: Seq<Seq<char>>,
}

/// The resolved rows of a mapping list: rows whose name does not resolve
/// are left out.
pub open spec fn entries_of(ms: Seq<CategoryMapping>) -> Seq<(Seq<char>, u32)>
    decreases ms.len(),
{
    if ms.len() == 0 {
        Seq::empty()
    } else {
        let e = entries_of(ms.drop_last());
        match resolve(ms.last().cat@) {
            Some(n) => e.push((ms.last().id@, n)),
            None => e,
        }
    }
}

/// The tracker ids flagged `default`, first occurrence only, in order.
pub open spec fn defaults_of(ms: Seq<CategoryMapping>) -> Seq<Seq<char>>
    decreases ms.len(),
{
    if ms.len() == 0 {
        Seq::empty()
    } else {
        let d = defaults_of(ms.drop_last());
        if ms.last().default && !d.contains(ms.last().id@) {
            d.push(ms.last().id@)
        } else {
            d
        }
    }
}

/// The Newznab ids of the rows for tracker id `t`, first occurrence only.
pub open spec fn newznab_of(es: Seq<(Seq<char>, u32)>, t: Seq<char>) -> Seq<u32>
    decreases es.len(),
{
    if es.len() == 0 {
        Seq::empty()
    } else {
        let r = newznab_of(es.drop_last(), t);
        if es.last().0 == t && !r.contains(es.last().1) {
            r.push(es.last().1)
        } else {
            r
        }
    }
}

/// Whether a row mapped to `n` answers a query for the ids `ns`: `n` is
/// asked for, or its parent block is.
pub open spec fn wanted(ns: Seq<u32>, n: u32) -> bool {
    exists|i: int| 0 <= i < ns.len() && (ns[i] == n || spec_parent_of(n) == Some(#[trigger] ns[i]))
}

/// The tracker ids of the rows that answer a query for `ns`, first
/// occurrence only.
pub open spec fn trackers_of(es: Seq<(Seq<char>, u32)>, ns: Seq<u32>) -> Seq<Seq<char>>
    decreases es.len(),
{
    if es.len() == 0 {
        Seq::empty()
    } else {
        let r = trackers_of(es.drop_last(), ns);
        if wanted(ns, es.last().1) && !r.contains(es.last().0) {
            r.push(es.last().0)
        } else {
            r
        }
    }
}

/// Maps a definition's tracker category ids onto the standard Newznab
/// category table, and back.
#[derive(Debug, Clone)]
pub struct CategoryMap {
    entries: Vec<(String, u32)>,
    defaults: Vec<String>,
}

pub open spec fn entries_view(v: Seq<(String, u32)>) -> Seq<(Seq<char>, u32)> {
    v.map_values(|e: (String, u32)| (e.0@, e.1))
}

pub open spec fn strs_view(v: Seq<String>) -> Seq<Seq<char>> {
    v.map_values(|s: String| s@)
}

impl View for CategoryMap {
    type V = CatMapView;

    closed spec fn view(&self) -> CatMapView {
        CatMapView { entries: entries_view(self.entries@), defaults: strs_view(self.defaults@) }
    }
}

proof fn lemma_resolve_from(cat: Seq<char>, id: int)
    ensures
        resolve_from(cat, id) matches Some(n) ==> category_name(n) == Some(cat),
    decreases 8025 - id,
{
    if !(id < 1000 || id > 8020) && category_name(id as u32) != Some(cat) {
        lemma_resolve_from(cat, id + 5);
    }
}

/// The standard category named `cat`, as [`resolve`] picks it.
fn resolve_name(cat: &Vec<char>) -> (r: Option<u32>)
    ensures
        r == resolve(cat@),
{
    let mut id: u32 = 1000;
    while id <= 8020
        invariant
            1000 <= id <= 8025,
            resolve(cat@) == resolve_from(cat@, id as int),
        decreases 8025 - id,
    {
        match name_of(id) {
            Some(n) => {
                let nc = chars_of(n);
                if eq_chars(&nc, cat) {
                    return Some(id);
                }
            },
            None => {},
        }
        id = id + 5;
    }
    None
}

/// Whether `v` holds a string with the characters `s`.
fn contains_str(v: &Vec<String>, s: &Vec<char>) -> (r: bool)
    ensures
        r == strs_view(v@).contains(s@),
{
    let mut i: usize = 0;
    while i < v.len()
        invariant
            0 <= i <= v.len(),
            forall|j: int| 0 <= j < i ==> v@[j]@ != s@,
        decreases v.len() - i,
    {
        let c = chars_of(v[i].as_str());
        if eq_chars(&c, s) {
            assert(strs_view(v@)[i as int] == s@);
            return true;
        }
        i = i + 1;
    }
    proof {
        if strs_view(v@).contains(s@) {
            let k = choose|k: int| 0 <= k < strs_view(v@).len() && strs_view(v@)[k] == s@;
            assert(v@[k]@ == s@);
        }
    }
    false
}

/// Whether `v` holds `x`.
fn contains_id(v: &Vec<u32>, x: u32) -> (r: bool)
    ensures
        r == v@.contains(x),
{
    let mut i: usize = 0;
    while i < v.len()
        invariant
            0 <= i <= v.len(),
            forall|j: int| 0 <= j < i ==> v@[j] != x,
        decreases v.len() - i,
    {
        if v[i] == x {
            return true;
        }
        i = i + 1;
    }
    false
}

proof fn lemma_strs_push(v: Seq<String>, s: String)
    ensures
        strs_view(v.push(s)) == strs_view(v).push(s@),
{
    assert(strs_view(v.push(s)) =~= strs_view(v).push(s@));
}

proof fn lemma_entries_push(v: Seq<(String, u32)>, e: (String, u32))
    ensures
        entries_view(v.push(e)) == entries_view(v).push((e.0@, e.1)),
{
    assert(entries_view(v.push(e)) =~= entries_view(v).push((e.0@, e.1)));
}

impl CategoryMap {
    /// Builds a category map from a definition's `caps.categorymappings`.
    ///
    /// A row whose `cat` names no standard category contributes no mapping,
    /// but its `default` flag still counts.
    pub fn from_mappings(mappings: &Vec<CategoryMapping>) -> (r: CategoryMap)
        ensures
            r@.entries == entries_of(mappings@),
            r@.defaults == defaults_of(mappings@),
    {
        let mut entries: Vec<(String, u32)> = Vec::new();
        let mut defaults: Vec<String> = Vec::new();
        let mut i: usize = 0;
        assert(mappings@.take(0) =~= Seq::<CategoryMapping>::empty());
        assert(entries_view(entries@) =~= Seq::<(Seq<char>, u32)>::empty());
        assert(strs_view(defaults@) =~= Seq::<Seq<char>>::empty());
        while i < mappings.len()
            invariant
                0 <= i <= mappings.len(),
                entries_view(entries@) == entries_of(mappings@.take(i as int)),
                strs_view(defaults@) == defaults_of(mappings@.take(i as int)),
            decreases mappings.len() - i,
        {
            let m = &mappings[i];
            proof {
                assert(mappings@.take(i + 1).drop_last() =~= mappings@.take(i as int));
                assert(mappings@.take(i + 1).last() == mappings@[i as int]);
            }
            let cat = chars_of(m.cat.as_str());
            match resolve_name(&cat) {
                Some(n) => {
                    let e = (m.id.clone(), n);
                    proof {
                        lemma_entries_push(entries@, e);
                    }
                    entries.push(e);
                },
                None => {},
            }
            if m.default {
                let idc = chars_of(m.id.as_str());
                if !contains_str(&defaults, &idc) {
                    let d = m.id.clone();
                    proof {
                        lemma_strs_push(defaults@, d);
                    }
                    defaults.push(d);
                }
            }
            i = i + 1;
        }
        assert(mappings@.take(mappings@.len() as int) =~= mappings@);
        CategoryMap { entries, defaults }
    }

    /// Newznab ids for a tracker category id (usually one; empty when
    /// unmapped), in declaration order, without repeats.
    pub fn to_newznab(&self, tracker_id: &str) -> (r: Vec<u32>)
        ensures
            r@ == newznab_of(self@.entries, tracker_id@),
    {
        let t = chars_of(tracker_id);
        let mut ids: Vec<u32> = Vec::new();
        let mut i: usize = 0;
        let ghost es = self@.entries;
        assert(es.take(0) =~= Seq::<(Seq<char>, u32)>::empty());
        while i < self.entries.len()
            invariant
                0 <= i <= self.entries.len(),
                es == entries_view(self.entries@),
                es.len() == self.entries@.len(),
                t@ == tracker_id@,
                ids@ == newznab_of(es.take(i as int), t@),
            decreases self.entries.len() - i,
        {
            let e = &self.entries[i];
            proof {
                assert(es.take(i + 1).drop_last() =~= es.take(i as int));
                assert(es.take(i + 1).last() == (e.0@, e.1));
            }
            let ec = chars_of(e.0.as_str());
            if eq_chars(&ec, &t) && !contains_id(&ids, e.1) {
                ids.push(e.1);
            }
            i = i + 1;
        }
        assert(es.take(es.len() as int) =~= es);
        ids
    }

    /// Tracker ids whose mapping answers any of the given Newznab ids,
    /// expanding parents to their subcategories; declaration order,
    /// without repeats.
    pub fn to_tracker(&self, newznab: &[u32]) -> (r: Vec<String>)
        ensures
            strs_view(r@) == trackers_of(self@.entries, newznab@),
    {
        let mut ids: Vec<String> = Vec::new();
        let mut i: usize = 0;
        let ghost es = self@.entries;
        assert(es.take(0) =~= Seq::<(Seq<char>, u32)>::empty());
        assert(strs_view(ids@) =~= Seq::<Seq<char>>::empty());
        while i < self.entries.len()
            invariant
                0 <= i <= self.entries.len(),
                es == entries_view(self.entries@),
                es.len() == self.entries@.len(),
                strs_view(ids@) == trackers_of(es.take(i as int), newznab@),
            decreases self.entries.len() - i,
        {
            let e = &self.entries[i];
            proof {
                assert(es.take(i + 1).drop_last() =~= es.take(i as int));
                assert(es.take(i + 1).last() == (e.0@, e.1));
            }
            let parent = parent_of(e.1);
            let mut hit = false;
            let mut k: usize = 0;
            while k < newznab.len()
                invariant
                    0 <= k <= newznab.len(),
                    parent == spec_parent_of(e.1),
                    hit <==> exists|j: int| 0 <= j < k && (newznab@[j] == e.1 || spec_parent_of(e.1) == Some(#[trigger] newznab@[j])),
                decreases newznab.len() - k,
            {
                let w = newznab[k];
                if w == e.1 || parent == Some(w) {
                    hit = true;
                }
                k = k + 1;
            }
            let ec = chars_of(e.0.as_str());
            if hit && !contains_str(&ids, &ec) {
                let s = e.0.clone();
                proof {
                    lemma_strs_push(ids@, s);
                }
                ids.push(s);
            }
            i = i + 1;
        }
        assert(es.take(es.len() as int) =~= es);
        ids
    }

    /// Tracker ids flagged `default: true`, used when a search names no
    /// category.
    pub fn defaults(&self) -> (r: &[String])
        ensures
            strs_view(r@) == self@.defaults,
    {
        self.defaults.as_slice()
    }

    /// Every distinct Newznab id this definition maps to, ascending.
    pub fn newznab_ids(&self) -> (r: Vec<u32>)
        ensures
            forall|i: int, j: int| 0 <= i < j < r@.len() ==> r@[i] < r@[j],
            forall|x: u32| r@.contains(x) <==> exists|k: int| 0 <= k < self@.entries.len() && (#[trigger] self@.entries[k]).1 == x,
    {
        let ghost es = self@.entries;
        let mut ids: Vec<u32> = Vec::new();
        let mut i: usize = 0;
        while i < self.entries.len()
            invariant
                0 <= i <= self.entries.len(),
                es == entries_view(self.entries@),
                es.len() == self.entries@.len(),
                forall|a: int, b: int| 0 <= a < b < ids@.len() ==> ids@[a] < ids@[b],
                forall|x: u32| ids@.contains(x) <==> exists|k: int| 0 <= k < i && (#[trigger] es[k]).1 == x,
            decreases self.entries.len() - i,
        {
            let n = self.entries[i].1;
            assert(es[i as int].1 == n);
            let mut p: usize = 0;
            while p < ids.len() && ids[p] < n
                invariant
                    0 <= p <= ids@.len(),
                    forall|a: int| 0 <= a < p ==> ids@[a] < n,
                decreases ids.len() - p,
            {
                p = p + 1;
            }
            let ghost before = ids@;
            if p < ids.len() && ids[p] == n {
                assert forall|x: u32| ids@.contains(x) <==> exists|k: int| 0 <= k < i + 1 && (#[trigger] es[k]).1 == x by {
                    if x == n {
                        assert(ids@[p as int] == x);
                    }
                }
            } else {
                ids.insert(p, n);
                assert forall|x: u32| ids@.contains(x) <==> exists|k: int| 0 <= k < i + 1 && (#[trigger] es[k]).1 == x by {
                    if x == n {
                        assert(ids@[p as int] == x);
                    } else {
                        if before.contains(x) {
                            let a = choose|a: int| 0 <= a < before.len() && before[a] == x;
                            if a < p {
                                assert(ids@[a] == x);
                            } else {
                                assert(ids@[a + 1] == x);
                            }
                        }
                        if ids@.contains(x) {
                            let a = choose|a: int| 0 <= a < ids@.len() && ids@[a] == x;
                            if a < p {
                                assert(before[a] == x);
                            } else {
                                assert(a != p);
                                assert(before[a - 1] == x);
                            }
                        }
                    }
                }
            }
            i = i + 1;
        }
        ids
    }
}

proof fn lemma_push_contains<A>(s: Seq<A>, x: A, y: A)
    ensures
        s.push(x).contains(y) <==> (s.contains(y) || y == x),
{
    if s.contains(y) {
        let i = choose|i: int| 0 <= i < s.len() && s[i] == y;
        assert(s.push(x)[i] == y);
    }
    if y == x {
        assert(s.push(x)[s.len() as int] == y);
    }
    if s.push(x).contains(y) {
        let i = choose|i: int| 0 <= i < s.push(x).len() && s.push(x)[i] == y;
        if i < s.len() {
            assert(s[i] == y);
        }
    }
}

/// Every mapped Newznab id is a standard category, named by its row's `cat`.
pub proof fn law_rows_name_standard_categories(ms: Seq<CategoryMapping>)
    ensures
        forall|k: int| 0 <= k < entries_of(ms).len() ==> category_name(
            (#[trigger] entries_of(ms)[k]).1,
        ) is Some,
    decreases ms.len(),
{
    if ms.len() > 0 {
        law_rows_name_standard_categories(ms.drop_last());
        lemma_resolve_from(ms.last().cat@, 1000);
        let e = entries_of(ms.drop_last());
        assert forall|k: int| 0 <= k < entries_of(ms).len() implies category_name(
            (#[trigger] entries_of(ms)[k]).1,
        ) is Some by {
            if k < e.len() {
                assert(entries_of(ms)[k] == e[k]);
            }
        }
    }
}

/// `to_newznab(t)` holds exactly the Newznab ids of the rows for `t`, each once.
pub proof fn law_to_newznab_is_the_rows_of_a_tracker_id(es: Seq<(Seq<char>, u32)>, t: Seq<char>)
    ensures
        forall|n: u32| newznab_of(es, t).contains(n) <==> exists|k: int| 0 <= k < es.len() && #[trigger] es[k] == (t, n),
        newznab_of(es, t).no_duplicates(),
    decreases es.len(),
{
    if es.len() > 0 {
        let d = es.drop_last();
        law_to_newznab_is_the_rows_of_a_tracker_id(d, t);
        let r = newznab_of(d, t);
        let x = es[es.len() - 1];
        assert(es.last() == x);
        assert forall|n: u32| newznab_of(es, t).contains(n) <==> exists|k: int| 0 <= k < es.len() && #[trigger] es[k] == (t, n) by {
            lemma_push_contains(r, x.1, n);
            if newznab_of(es, t).contains(n) {
                if r.contains(n) {
                    let k = choose|k: int| 0 <= k < d.len() && #[trigger] d[k] == (t, n);
                    assert(es[k] == d[k]);
                } else {
                    assert(es[es.len() - 1] == (t, n));
                }
            }
            if exists|k: int| 0 <= k < es.len() && #[trigger] es[k] == (t, n) {
                let k = choose|k: int| 0 <= k < es.len() && #[trigger] es[k] == (t, n);
                if k < d.len() {
                    assert(d[k] == es[k]);
                }
            }
        }
    }
}

/// `to_tracker(ns)` holds exactly the tracker ids of the rows that answer
/// the query `ns`, each once.
pub proof fn law_to_tracker_is_the_rows_answering_a_query(es: Seq<(Seq<char>, u32)>, ns: Seq<u32>)
    ensures
        forall|t: Seq<char>| trackers_of(es, ns).contains(t) <==> exists|k: int| 0 <= k < es.len() && (#[trigger] es[k]).0 == t && wanted(ns, es[k].1),
        trackers_of(es, ns).no_duplicates(),
    decreases es.len(),
{
    if es.len() > 0 {
        let d = es.drop_last();
        law_to_tracker_is_the_rows_answering_a_query(d, ns);
        let r = trackers_of(d, ns);
        let x = es[es.len() - 1];
        assert(es.last() == x);
        assert forall|t: Seq<char>| trackers_of(es, ns).contains(t) <==> exists|k: int| 0 <= k < es.len() && (#[trigger] es[k]).0 == t && wanted(ns, es[k].1) by {
            lemma_push_contains(r, x.0, t);
            if trackers_of(es, ns).contains(t) {
                if r.contains(t) {
                    let k = choose|k: int| 0 <= k < d.len() && (#[trigger] d[k]).0 == t && wanted(ns, d[k].1);
                    assert(es[k] == d[k]);
                } else {
                    assert(es[es.len() - 1].0 == t);
                }
            }
            if exists|k: int| 0 <= k < es.len() && (#[trigger] es[k]).0 == t && wanted(ns, es[k].1) {
                let k = choose|k: int| 0 <= k < es.len() && (#[trigger] es[k]).0 == t && wanted(ns, es[k].1);
                if k < d.len() {
                    assert(d[k] == es[k]);
                }
            }
        }
    }
}

/// A query for a row's own id, or for its parent block, finds the row's
/// tracker id.
pub proof fn law_to_tracker_expands_a_block_to_its_subcategories(es: Seq<(Seq<char>, u32)>, k: int)
    requires
        0 <= k < es.len(),
        category_name(es[k].1) is Some,
    ensures
        trackers_of(es, seq![es[k].1]).contains(es[k].0),
        trackers_of(es, seq![top_of(es[k].1)]).contains(es[k].0),
{
    law_to_tracker_is_the_rows_answering_a_query(es, seq![es[k].1]);
    law_to_tracker_is_the_rows_answering_a_query(es, seq![top_of(es[k].1)]);
    assert(seq![es[k].1][0] == es[k].1);
    assert(wanted(seq![es[k].1], es[k].1));
    assert(seq![top_of(es[k].1)][0] == top_of(es[k].1));
    assert(wanted(seq![top_of(es[k].1)], es[k].1));
}

/// A subcategory query does not find a row mapped only to another id
/// that is not its own parent: a row for a block answers a query for one
/// of its subcategories only if that query also names the block.
pub proof fn law_to_tracker_does_not_expand_a_subcategory_to_its_block(n: u32, c: u32)
    requires
        category_name(n) is Some,
        c != n,
        spec_parent_of(n) != Some(c),
    ensures
        !wanted(seq![c], n),
{
    if wanted(seq![c], n) {
        let i = choose|i: int| 0 <= i < 1 && (seq![c][i] == n || spec_parent_of(n) == Some(#[trigger] seq![c][i]));
        assert(seq![c][i] == c);
    }
}

} // verus!
