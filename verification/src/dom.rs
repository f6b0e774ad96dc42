//! An HTML document, and what a compiled selector selects in it.
//!
//! The document is parsed by `scraper`; its nodes are named by their
//! position in the parsed tree's arena (which is the order `scraper` gives
//! them ids in). What `scraper` answers about the document is named by the
//! spec functions below, as functions of the document's source text.
use vstd::prelude::*;

use crate::selector::{
    branch_view, branches_view, pred_view, preds_view, Branch, CompiledSelector, Css, SBranch, SCompiled, SPred,
    SelectorKind, TextPredicate,
};
use crate::text::{chars_of, find, find_in};

verus! {

#[verifier::external_type_specification]
#[verifier::external_body]
pub struct ExHtml(scraper::Html);

/// The number of nodes in the tree `Html::parse_document(html)` builds.
pub uninterp spec fn node_count(html: Seq<char>) -> nat;

/// Whether node `n` of that tree is an element.
pub uninterp spec fn is_element(html: Seq<char>, n: usize) -> bool;

/// The node `root_element` gives.
pub uninterp spec fn root_of(html: Seq<char>) -> usize;

/// The descendants of element `el` that `ElementRef::select` yields for
/// the CSS text `css`, in the order it yields them.
pub uninterp spec fn css_selected(html: Seq<char>, el: usize, css: Seq<char>) -> Seq<usize>;

/// Whether element `el` itself matches the CSS text `css`
/// (`Selector::matches`).
pub uninterp spec fn css_matches(html: Seq<char>, el: usize, css: Seq<char>) -> bool;

/// Element `el`'s text: every text node below it, in document order
/// (`ElementRef::text`).
pub uninterp spec fn text_of(html: Seq<char>, el: usize) -> Seq<char>;

/// The value of element `el`'s attribute `name` (`ElementRef::attr`).
pub uninterp spec fn attr_of(html: Seq<char>, el: usize, name: Seq<char>) -> Option<Seq<char>>;

/// The nodes `NodeRef::descendants` yields for element `el`, in document
/// order: each with its text where it is a text node, and with its
/// ancestors from its parent up to the tree's root (`NodeRef::ancestors`).
pub uninterp spec fn descendants_below(html: Seq<char>, el: usize) -> Seq<
    (Option<Seq<char>>, Seq<usize>),
>;

/// The text nodes among `ds`, in order, each with its ancestors.
pub open spec fn text_entries(ds: Seq<(Option<Seq<char>>, Seq<usize>)>) -> Seq<
    (Seq<char>, Seq<usize>),
>
    decreases ds.len(),
{
    if ds.len() == 0 {
        Seq::empty()
    } else {
        let before = text_entries(ds.drop_last());
        match ds.last().0 {
            Some(t) => before.push((t, ds.last().1)),
            None => before,
        }
    }
}

/// The text nodes below element `el` in document order, each with its
/// ancestors from its parent up to the tree's root.
pub open spec fn texts_below(html: Seq<char>, el: usize) -> Seq<(Seq<char>, Seq<usize>)> {
    text_entries(descendants_below(html, el))
}

/// A node of the document that is an element.
pub open spec fn valid_element(html: Seq<char>, n: usize) -> bool {
    n < node_count(html) && is_element(html, n)
}

/// An HTML document, parsed.
pub struct Document {
    source: String,
    html: scraper::Html,
}

impl View for Document {
    type V = Seq<char>;

    /// The source text the document was parsed from.
    closed spec fn view(&self) -> Seq<char> {
        self.source@
    }
}

/// `scraper::Html::parse_document`. Nothing is stated of the tree: what is
/// read from it is named above.
#[verifier::external_body]
fn parse_html(body: &str) -> (r: scraper::Html) {
    scraper::Html::parse_document(body)
}

/// `Html::root_element`, as its node's position. Its result is named
/// [`root_of`]; it is an element.
#[verifier::external_body]
fn root_position(doc: &Document) -> (r: usize)
    ensures
        r == root_of(doc@),
        r < node_count(doc@) && is_element(doc@, r),
{
    let root = doc.html.root_element().id();
    doc.html.tree.nodes().position(|n| n.id() == root).unwrap_or(0)
}

/// `ElementRef::select` from element `el`, each result as its node's
/// position. Its result is named [`css_selected`]; every result is an
/// element.
#[verifier::external_body]
fn select_positions(doc: &Document, el: usize, css: &Css) -> (r: Vec<usize>)
    requires
        valid_element(doc@, el),
    ensures
        r@ == css_selected(doc@, el, css@),
        forall|i: int| 0 <= i < r@.len() ==> #[trigger] r@[i] < node_count(doc@) && is_element(doc@, r@[i]),
{
    let nodes: Vec<_> = doc.html.tree.nodes().collect();
    let scope = scraper::ElementRef::wrap(nodes[el]).unwrap();
    let found = scope.select(css.selector());
    found.map(|m| nodes.iter().position(|n| n.id() == m.id()).unwrap_or(0)).collect()
}

/// `Selector::matches` on element `el`. Its result is named
/// [`css_matches`].
#[verifier::external_body]
fn matches_at(doc: &Document, el: usize, css: &Css) -> (r: bool)
    requires
        valid_element(doc@, el),
    ensures
        r == css_matches(doc@, el, css@),
{
    let node = doc.html.tree.nodes().nth(el).unwrap();
    css.selector().matches(&scraper::ElementRef::wrap(node).unwrap())
}

/// `ElementRef::text`, concatenated. Its result is named [`text_of`].
#[verifier::external_body]
fn text_at(doc: &Document, el: usize) -> (r: String)
    requires
        valid_element(doc@, el),
    ensures
        r@ == text_of(doc@, el),
{
    let node = doc.html.tree.nodes().nth(el).unwrap();
    scraper::ElementRef::wrap(node).unwrap().text().collect()
}

/// `ElementRef::attr`. Its result is named [`attr_of`].
#[verifier::external_body]
fn attr_at(doc: &Document, el: usize, name: &str) -> (r: Option<String>)
    requires
        valid_element(doc@, el),
    ensures
        match r {
            Some(v) => attr_of(doc@, el, name@) == Some(v@),
            None => attr_of(doc@, el, name@) is None,
        },
{
    let node = doc.html.tree.nodes().nth(el).unwrap();
    scraper::ElementRef::wrap(node).unwrap().attr(name).map(|v| v.to_string())
}

/// The `descendants()` of element `el`, each with its text where it is a
/// text node and the positions of its `ancestors()`. Its result is named
/// [`descendants_below`].
#[verifier::external_body]
fn descendants_at(doc: &Document, el: usize) -> (r: Vec<(Option<String>, Vec<usize>)>)
    requires
        valid_element(doc@, el),
    ensures
        descendants_view(r@) == descendants_below(doc@, el),
{
    let nodes: Vec<_> = doc.html.tree.nodes().collect();
    let position = |id| nodes.iter().position(|n| n.id() == id).unwrap_or(0);
    nodes[el].descendants().map(
        |n| (n.value().as_text().map(|t| t.to_string()), n.ancestors().map(|a| position(a.id())).collect()),
    ).collect()
}

pub open spec fn descendants_view(v: Seq<(Option<String>, Vec<usize>)>) -> Seq<
    (Option<Seq<char>>, Seq<usize>),
> {
    v.map_values(
        |x: (Option<String>, Vec<usize>)|
            (
                match x.0 {
                    Some(t) => Some(t@),
                    None => None,
                },
                x.1@,
            ),
    )
}

pub open spec fn texts_view(v: Seq<(String, Vec<usize>)>) -> Seq<(Seq<char>, Seq<usize>)> {
    v.map_values(|x: (String, Vec<usize>)| (x.0@, x.1@))
}

impl Document {
    /// Parses an HTML document.
    pub fn parse(body: &str) -> (d: Document)
        ensures
            d@ == body@,
    {
        Document { source: String::from_str(body), html: parse_html(body) }
    }

    /// The document's root element.
    pub fn root(&self) -> (r: usize)
        ensures
            r == root_of(self@),
            valid_element(self@, r),
    {
        root_position(self)
    }

    /// Element `el`'s text.
    pub fn text(&self, el: usize) -> (r: String)
        requires
            valid_element(self@, el),
        ensures
            r@ == text_of(self@, el),
    {
        text_at(self, el)
    }

    /// The text nodes below element `el`, each with its ancestors.
    pub fn text_nodes(&self, el: usize) -> (r: Vec<(String, Vec<usize>)>)
        requires
            valid_element(self@, el),
        ensures
            texts_view(r@) == texts_below(self@, el),
    {
        let ds = descendants_at(self, el);
        let ghost dv = descendants_view(ds@);
        let mut out: Vec<(String, Vec<usize>)> = Vec::new();
        let mut i: usize = 0;
        while i < ds.len()
            invariant
                i <= ds.len(),
                dv == descendants_view(ds@),
                texts_view(out@) == text_entries(dv.take(i as int)),
            decreases ds.len() - i,
        {
            assert(dv.take(i + 1).drop_last() =~= dv.take(i as int));
            let ghost before = texts_view(out@);
            match &ds[i].0 {
                Some(t) => {
                    let ancestors = ds[i].1.clone();
                    out.push((t.clone(), ancestors));
                    assert(texts_view(out@) =~= before.push((t@, ds[i as int].1@)));
                },
                None => {},
            }
            i = i + 1;
        }
        assert(dv.take(ds.len() as int) =~= dv);
        out
    }

    /// The value of element `el`'s attribute `name`, if it has one.
    pub fn attr(&self, el: usize, name: &str) -> (r: Option<String>)
        requires
            valid_element(self@, el),
        ensures
            match r {
                Some(v) => attr_of(self@, el, name@) == Some(v@),
                None => attr_of(self@, el, name@) is None,
            },
    {
        attr_at(self, el, name)
    }
}

// ---------------------------------------------------------------------------
// Text predicates
// ---------------------------------------------------------------------------
/// Whether `text` occurs in `s`.
pub open spec fn occurs(s: Seq<char>, text: Seq<char>) -> bool {
    find(s, text) is Some
}

/// Whether a lifted text predicate holds of element `el`: its text
/// contains the text, or some descendant matching the CSS satisfies every
/// nested predicate; negated when asked.
pub open spec fn pred_holds(html: Seq<char>, el: usize, p: SPred) -> bool
    decreases p, 2nat, 0nat,
{
    match p {
        SPred::Contains(t, negate) => occurs(text_of(html, el), t) != negate,
        SPred::Descendant(css, nested, negate) => some_satisfies(html, css_selected(html, el, css), nested)
            != negate,
    }
}

/// Whether every predicate holds of element `el`.
pub open spec fn all_hold(html: Seq<char>, el: usize, ps: Seq<SPred>) -> bool
    decreases ps, 0nat, 0nat,
{
    if ps.len() == 0 {
        true
    } else {
        all_hold(html, el, ps.drop_last()) && pred_holds(html, el, ps.last())
    }
}

/// Whether some element of `els` satisfies every predicate.
pub open spec fn some_satisfies(html: Seq<char>, els: Seq<usize>, ps: Seq<SPred>) -> bool
    decreases ps, 1nat, els.len(),
{
    if els.len() == 0 {
        false
    } else {
        some_satisfies(html, els.drop_last(), ps) || all_hold(html, els.last(), ps)
    }
}

impl TextPredicate {
    /// Whether this predicate holds of element `el` (see [`pred_holds`]).
    pub fn holds(&self, doc: &Document, el: usize) -> (r: bool)
        requires
            valid_element(doc@, el),
        ensures
            r == pred_holds(doc@, el, pred_view(*self)),
        decreases self,
    {
        match self {
            TextPredicate::Contains { text, negate } => {
                let t = chars_of(doc.text(el).as_str());
                let found = find_in(&t, &chars_of(text.as_str())).is_some();
                found != *negate
            },
            TextPredicate::Descendant { css, nested, negate } => {
                let found = select_positions(doc, el, css);
                let ghost els = found@;
                proof {
                    assert(decreases_to!(*self => *nested));
                }
                let mut any = false;
                let mut i: usize = 0;
                while i < found.len()
                    invariant
                        0 <= i <= found.len(),
                        els == found@,
                        els == css_selected(doc@, el, css@),
                        forall|j: int| 0 <= j < els.len() ==> valid_element(doc@, #[trigger] els[j]),
                        any == some_satisfies(doc@, els.take(i as int), preds_view(nested@)),
                        decreases_to!(*self => *nested),
                    decreases found.len() - i,
                {
                    assert(els.take(i + 1).drop_last() =~= els.take(i as int));
                    assert(els.take(i + 1).last() == els[i as int]);
                    if !any {
                        any = all_hold_at(nested, doc, found[i]);
                    }
                    i = i + 1;
                }
                assert(els.take(found.len() as int) =~= els);
                any != *negate
            },
        }
    }
}

/// Whether every predicate of `ps` holds of element `el`.
fn all_hold_at(ps: &Vec<TextPredicate>, doc: &Document, el: usize) -> (r: bool)
    requires
        valid_element(doc@, el),
    ensures
        r == all_hold(doc@, el, preds_view(ps@)),
    decreases ps,
{
    let mut ok = true;
    let mut i: usize = 0;
    while i < ps.len()
        invariant
            0 <= i <= ps.len(),
            valid_element(doc@, el),
            ok == all_hold(doc@, el, preds_view(ps@.take(i as int))),
        decreases ps.len() - i,
    {
        proof {
            assert(ps@.take(i + 1) =~= ps@.take(i as int).push(ps@[i as int]));
            lemma_preds_view_push(ps@.take(i as int), ps@[i as int]);
            let pv = preds_view(ps@.take(i as int));
            assert(pv.push(pred_view(ps@[i as int])).drop_last() =~= pv);
        }
        if ok {
            proof {
                assert(decreases_to!(*ps => ps@));
                assert(decreases_to!(ps@ => ps@[i as int]));
            }
            ok = ps[i].holds(doc, el);
        }
        i = i + 1;
    }
    assert(ps@.take(ps.len() as int) =~= ps@);
    ok
}

proof fn lemma_push_contains(s: Seq<usize>, m: usize, n: usize)
    ensures
        s.push(m).contains(n) <==> (s.contains(n) || n == m),
{
    if s.contains(n) {
        let j = choose|j: int| 0 <= j < s.len() && s[j] == n;
        assert(s.push(m)[j] == n);
    }
    if n == m {
        assert(s.push(m)[s.len() as int] == n);
    }
    if s.push(m).contains(n) {
        let j = choose|j: int| 0 <= j < s.push(m).len() && s.push(m)[j] == n;
        if j < s.len() {
            assert(s[j] == n);
        }
    }
}

proof fn lemma_preds_view_push(v: Seq<TextPredicate>, p: TextPredicate)
    ensures
        preds_view(v.push(p)) == preds_view(v).push(pred_view(p)),
{
    assert(v.push(p).drop_last() =~= v);
    assert(v.push(p).last() == p);
}

// ---------------------------------------------------------------------------
// Selecting
// ---------------------------------------------------------------------------
/// Whether a branch picks element `n` from `el`'s descendants: its CSS
/// selects it and its predicates hold of it.
pub open spec fn branch_picks(html: Seq<char>, el: usize, b: SBranch, n: usize) -> bool {
    css_selected(html, el, b.0).contains(n) && all_hold(html, n, b.1)
}

/// Whether some branch picks `n`.
pub open spec fn picked(html: Seq<char>, el: usize, bs: Seq<SBranch>, n: usize) -> bool {
    exists|k: int| 0 <= k < bs.len() && branch_picks(html, el, #[trigger] bs[k], n)
}

/// The nodes below `k` that `p` accepts, ascending.
pub open spec fn ascending(k: nat, p: spec_fn(usize) -> bool) -> Seq<usize>
    decreases k,
{
    if k == 0 {
        Seq::empty()
    } else {
        let prev = ascending((k - 1) as nat, p);
        if k - 1 <= usize::MAX && p((k - 1) as usize) {
            prev.push((k - 1) as usize)
        } else {
            prev
        }
    }
}

/// What a compiled selector selects below element `el`: each element some
/// branch picks, once, in document order (by node position); a JSON path
/// selects nothing.
pub open spec fn spec_select(html: Seq<char>, el: usize, sel: SCompiled) -> Seq<usize> {
    match sel {
        SCompiled::JsonPath => Seq::empty(),
        SCompiled::Css(bs) => ascending(node_count(html), |n: usize| picked(html, el, bs, n)),
    }
}

/// Whether a branch matches element `el` itself: its CSS matches it and its
/// predicates hold of it.
pub open spec fn branch_matches(html: Seq<char>, el: usize, b: SBranch) -> bool {
    css_matches(html, el, b.0) && all_hold(html, el, b.1)
}

/// Whether a compiled selector matches element `el` itself: some branch
/// matches it; a JSON path matches nothing.
pub open spec fn selector_matches(html: Seq<char>, el: usize, sel: SCompiled) -> bool {
    match sel {
        SCompiled::JsonPath => false,
        SCompiled::Css(bs) => some_branch_matches(html, el, bs),
    }
}

/// Whether some branch matches element `el` itself.
pub open spec fn some_branch_matches(html: Seq<char>, el: usize, bs: Seq<SBranch>) -> bool {
    exists|k: int| 0 <= k < bs.len() && branch_matches(html, el, #[trigger] bs[k])
}

/// Marks every element one branch picks.
fn mark_branch(b: &Branch, doc: &Document, el: usize, marks: &mut Vec<bool>)
    requires
        valid_element(doc@, el),
        old(marks)@.len() == node_count(doc@),
    ensures
        final(marks)@.len() == old(marks)@.len(),
        forall|n: int| 0 <= n < final(marks)@.len() ==> (#[trigger] final(marks)@[n] <==> (old(marks)@[n]
            || branch_picks(doc@, el, branch_view(*b), n as usize))),
        forall|n: int| 0 <= n < final(marks)@.len() && #[trigger] final(marks)@[n] && !old(marks)@[n] ==> valid_element(doc@, n as usize),
{
    let found = select_positions(doc, el, &b.css);
    let ghost bv = branch_view(*b);
    let mut i: usize = 0;
    while i < found.len()
        invariant
            0 <= i <= found.len(),
            found@ == css_selected(doc@, el, b.css@),
            forall|j: int| 0 <= j < found@.len() ==> valid_element(doc@, #[trigger] found@[j]),
            bv == branch_view(*b),
            marks@.len() == old(marks)@.len(),
            marks@.len() == node_count(doc@),
            forall|n: int| 0 <= n < marks@.len() ==> (#[trigger] marks@[n] <==> (old(marks)@[n] || (
            found@.take(i as int).contains(n as usize) && all_hold(doc@, n as usize, bv.1)))),
            forall|n: int| 0 <= n < marks@.len() && #[trigger] marks@[n] && !old(marks)@[n] ==> valid_element(doc@, n as usize),
        decreases found.len() - i,
    {
        let m = found[i];
        let keep = all_hold_at(&b.predicates, doc, m);
        let ghost prev = marks@;
        if keep {
            marks.set(m, true);
        }
        proof {
            assert(found@.take(i + 1) =~= found@.take(i as int).push(m));
            assert forall|n: int| 0 <= n < marks@.len() implies (#[trigger] marks@[n] <==> (old(marks)@[n] || (
            found@.take(i + 1).contains(n as usize) && all_hold(doc@, n as usize, bv.1)))) by {
                lemma_push_contains(found@.take(i as int), m, n as usize);
                assert(n < marks.len());
                assert(n as usize as int == n);
                assert(prev[n] <==> (old(marks)@[n] || (found@.take(i as int).contains(n as usize) && all_hold(
                    doc@,
                    n as usize,
                    bv.1,
                ))));
                if n == m as int {
                    assert(keep == all_hold(doc@, m, bv.1));
                    assert(marks@[n] == (keep || prev[n]));
                } else {
                    assert(marks@[n] == prev[n]);
                }
            }
        }
        i = i + 1;
    }
    proof {
        assert(found@.take(found@.len() as int) =~= found@);
    }
}

impl CompiledSelector {
    /// The elements below `el` this selector selects (see [`spec_select`]).
    pub fn select(&self, doc: &Document, el: usize) -> (r: Vec<usize>)
        requires
            valid_element(doc@, el),
        ensures
            r@ == spec_select(doc@, el, self@),
            forall|i: int| 0 <= i < r@.len() ==> valid_element(doc@, #[trigger] r@[i]),
    {
        match &self.kind {
            SelectorKind::JsonPath => Vec::new(),
            SelectorKind::Css(branches) => {
                let ghost bs = branches_view(branches@);
                let count = node_total(doc);
                let mut marks: Vec<bool> = Vec::new();
                let mut k: usize = 0;
                while k < count
                    invariant
                        0 <= k <= count,
                        count == node_count(doc@),
                        marks@.len() == k,
                        forall|n: int| 0 <= n < k ==> !(#[trigger] marks@[n]),
                    decreases count - k,
                {
                    marks.push(false);
                    k = k + 1;
                }
                let mut bi: usize = 0;
                while bi < branches.len()
                    invariant
                        0 <= bi <= branches.len(),
                        valid_element(doc@, el),
                        bs == branches_view(branches@),
                        marks@.len() == node_count(doc@),
                        forall|n: int| 0 <= n < marks@.len() ==> (#[trigger] marks@[n] <==> picked(
                            doc@,
                            el,
                            bs.take(bi as int),
                            n as usize,
                        )),
                        forall|n: int| 0 <= n < marks@.len() && #[trigger] marks@[n] ==> valid_element(doc@, n as usize),
                    decreases branches.len() - bi,
                {
                    let ghost before = marks@;
                    mark_branch(&branches[bi], doc, el, &mut marks);
                    proof {
                        assert forall|n: int| 0 <= n < marks@.len() implies (#[trigger] marks@[n] <==> picked(
                            doc@,
                            el,
                            bs.take(bi + 1),
                            n as usize,
                        )) by {
                            let t1 = bs.take(bi + 1);
                            assert(t1[bi as int] == bs[bi as int]);
                            if before[n] {
                                let w = choose|q: int| 0 <= q < bs.take(bi as int).len() && branch_picks(
                                    doc@,
                                    el,
                                    #[trigger] bs.take(bi as int)[q],
                                    n as usize,
                                );
                                assert(t1[w] == bs.take(bi as int)[w]);
                            }
                            if picked(doc@, el, t1, n as usize) {
                                let w = choose|q: int| 0 <= q < t1.len() && branch_picks(
                                    doc@,
                                    el,
                                    #[trigger] t1[q],
                                    n as usize,
                                );
                                if w < bi {
                                    assert(bs.take(bi as int)[w] == t1[w]);
                                }
                            }
                        }
                    }
                    bi = bi + 1;
                }
                assert(bs.take(branches.len() as int) =~= bs);
                let ghost p = |n: usize| picked(doc@, el, bs, n);
                let mut out: Vec<usize> = Vec::new();
                let mut n: usize = 0;
                while n < count
                    invariant
                        0 <= n <= count,
                        count == node_count(doc@),
                        marks@.len() == count,
                        forall|q: int| 0 <= q < marks@.len() ==> (#[trigger] marks@[q] <==> p(q as usize)),
                        forall|q: int| 0 <= q < marks@.len() && #[trigger] marks@[q] ==> valid_element(doc@, q as usize),
                        out@ == ascending(n as nat, p),
                        forall|i: int| 0 <= i < out@.len() ==> (#[trigger] out@[i] < n && valid_element(doc@, out@[i])),
                    decreases count - n,
                {
                    if marks[n] {
                        out.push(n);
                    }
                    n = n + 1;
                }
                out
            },
        }
    }

    /// Whether element `el` itself matches this selector (see
    /// [`selector_matches`]).
    pub fn matches(&self, doc: &Document, el: usize) -> (r: bool)
        requires
            valid_element(doc@, el),
        ensures
            r == selector_matches(doc@, el, self@),
    {
        match &self.kind {
            SelectorKind::JsonPath => false,
            SelectorKind::Css(branches) => {
                let ghost bs = branches_view(branches@);
                assert(self@ == SCompiled::Css(bs));
                let mut i: usize = 0;
                while i < branches.len()
                    invariant
                        0 <= i <= branches.len(),
                        valid_element(doc@, el),
                        bs == branches_view(branches@),
                        self@ == SCompiled::Css(bs),
                        forall|k: int| 0 <= k < i ==> !branch_matches(doc@, el, #[trigger] bs[k]),
                    decreases branches.len() - i,
                {
                    let b = &branches[i];
                    assert(bs[i as int] == branch_view(*b));
                    if matches_at(doc, el, &b.css) && all_hold_at(&b.predicates, doc, el) {
                        assert(branch_matches(doc@, el, bs[i as int]));
                        assert(0 <= i < bs.len());
                        assert(some_branch_matches(doc@, el, bs));
                        return true;
                    }
                    i = i + 1;
                }
                false
            },
        }
    }
}

/// `node_count`, read off the document.
#[verifier::external_body]
fn node_total(doc: &Document) -> (r: usize)
    ensures
        r == node_count(doc@),
{
    doc.html.tree.nodes().count()
}

/// The nodes `ascending` gives are below `k`, strictly increasing.
proof fn lemma_ascending(k: nat, p: spec_fn(usize) -> bool)
    ensures
        forall|i: int| 0 <= i < ascending(k, p).len() ==> (#[trigger] ascending(k, p)[i] as int) < k,
        forall|i: int, j: int| 0 <= i < j < ascending(k, p).len() ==> ascending(k, p)[i] < ascending(k, p)[j],
    decreases k,
{
    if k > 0 {
        let prev = ascending((k - 1) as nat, p);
        lemma_ascending((k - 1) as nat, p);
        if k - 1 <= usize::MAX && p((k - 1) as usize) {
            assert(ascending(k, p) == prev.push((k - 1) as usize));
            assert forall|i: int| 0 <= i < prev.len() implies (#[trigger] prev[i] as int) < k - 1 by {}
        } else {
            assert(ascending(k, p) == prev);
        }
    }
}

/// What a compiled selector selects comes in document order, each element
/// once.
pub proof fn law_select_in_document_order(html: Seq<char>, el: usize, sel: SCompiled)
    ensures
        forall|i: int, j: int| 0 <= i < j < spec_select(html, el, sel).len() ==> spec_select(html, el, sel)[i]
            < spec_select(html, el, sel)[j],
{
    match sel {
        SCompiled::JsonPath => {},
        SCompiled::Css(bs) => {
            lemma_ascending(node_count(html), |n: usize| picked(html, el, bs, n));
        },
    }
}

} // verus!
