//! The routing trie: handlers registered by route pattern and method, and
//! the lookup that picks the most specific route matching a URL.
use crate::route::{
    comp_matches, comp_view, lemma_route_less_irreflexive, lemma_route_less_transitive,
    matches_from, regulate_url_path, route_less, route_view, spec_regulate, CompSpec, Route,
    RouteComponent,
};
use crate::text::{chars_of, split_chars, split_on, string_from_chars};
use vstd::prelude::*;

verus! {

/// A node of the routing trie. Each edge is a route component; each node
/// holds the handlers registered for the route that leads to it, keyed by
/// method name.
pub struct RouteNode<H> {
    path: Vec<(RouteComponent, Box<RouteNode<H>>)>,
    f: Vec<(String, H)>,
}

impl<H> RouteNode<H> {
    /// The component that leads to the `i`-th child.
    pub closed spec fn key(&self, i: int) -> CompSpec {
        comp_view(self.path@[i].0)
    }

    /// The `i`-th child.
    pub closed spec fn child(&self, i: int) -> RouteNode<H> {
        *self.path@[i].1
    }

    /// No two edges of a node carry the same component, no two handlers
    /// of a node the same method, and so on down the trie.
    pub closed spec fn wf(&self) -> bool
        decreases self,
    {
        &&& forall|i: int, j: int|
            0 <= i < j < self.path@.len() ==> #[trigger] self.key(i) != #[trigger] self.key(j)
        &&& forall|i: int, j: int|
            0 <= i < j < self.f@.len() ==> #[trigger] self.f@[i].0@ != #[trigger] self.f@[j].0@
        &&& forall|i: int| 0 <= i < self.path@.len() ==> (#[trigger] self.path@[i].1).wf()
    }

    /// The handler this node holds for `method`.
    pub closed spec fn method_lookup(&self, method: Seq<char>) -> Option<H> {
        if exists|i: int| 0 <= i < self.f@.len() && self.f@[i].0@ == method {
            Some(self.f@[choose|i: int| 0 <= i < self.f@.len() && self.f@[i].0@ == method].1)
        } else {
            None
        }
    }

    /// The handler registered under the route `r`, below this node.
    pub closed spec fn lookup(&self, r: Seq<CompSpec>, method: Seq<char>) -> Option<H>
        decreases r.len(),
    {
        if r.len() == 0 {
            self.method_lookup(method)
        } else if exists|i: int| 0 <= i < self.path@.len() && self.key(i) == r[0] {
            self.child(choose|i: int| 0 <= i < self.path@.len() && self.key(i) == r[0]).lookup(
                r.drop_first(),
                method,
            )
        } else {
            None
        }
    }

    /// Neither edges nor handlers.
    pub closed spec fn is_empty(&self) -> bool {
        self.path@.len() == 0 && self.f@.len() == 0
    }

    /// The handler that serves requests with `method` on URLs matched by
    /// the route `r`.
    pub closed spec fn handler(&self, r: Seq<CompSpec>, method: Seq<char>) -> Option<H> {
        if r.len() == 0 {
            None
        } else {
            self.lookup(r, method)
        }
    }
}

/// The candidate at index `k` is a route `cur + rest` that matches `parts`
/// from `idx` and has the handler stored with it below `t`.
pub open spec fn sound_candidate<H>(
    t: RouteNode<H>,
    c: (Route, &H),
    cur: Seq<CompSpec>,
    parts: Seq<Seq<char>>,
    idx: int,
    m: Seq<char>,
) -> bool {
    let v = route_view(c.0.r@);
    &&& v.len() >= cur.len()
    &&& v.take(cur.len() as int) == cur
    &&& matches_from(v.skip(cur.len() as int), parts, idx)
    &&& t.lookup(v.skip(cur.len() as int), m) == Some(*c.1)
}

/// Some candidate from index `start` on is the route `cur + rest`.
pub open spec fn covered<H>(cands: Seq<(Route, &H)>, start: int, cur: Seq<CompSpec>, rest: Seq<CompSpec>) -> bool {
    exists|k: int| start <= k < cands.len() && route_view(#[trigger] cands[k].0.r@) == cur + rest
}

proof fn lemma_covered_persists<H>(
    a: Seq<(Route, &H)>,
    b: Seq<(Route, &H)>,
    start: int,
    cur: Seq<CompSpec>,
    rest: Seq<CompSpec>,
)
    requires
        0 <= start,
        covered(a, start, cur, rest),
        b.len() >= a.len(),
        forall|k: int| 0 <= k < a.len() ==> b[k] == a[k],
    ensures
        covered(b, start, cur, rest),
{
    let k = choose|k: int| start <= k < a.len() && route_view(#[trigger] a[k].0.r@) == cur + rest;
    assert(b[k] == a[k]);
}

/// Every candidate from index `start` on is sound.
#[verifier::opaque]
pub open spec fn all_sound<H>(
    t: RouteNode<H>,
    cands: Seq<(Route, &H)>,
    start: int,
    cur: Seq<CompSpec>,
    parts: Seq<Seq<char>>,
    idx: int,
    m: Seq<char>,
) -> bool {
    forall|k: int| start <= k < cands.len() ==> sound_candidate(t, #[trigger] cands[k], cur, parts, idx, m)
}

/// Every matching registered route below `t` is among the candidates
/// from index `start` on.
#[verifier::opaque]
pub open spec fn complete<H>(
    t: RouteNode<H>,
    cands: Seq<(Route, &H)>,
    start: int,
    cur: Seq<CompSpec>,
    parts: Seq<Seq<char>>,
    idx: int,
    m: Seq<char>,
) -> bool {
    forall|rest: Seq<CompSpec>|
        matches_from(rest, parts, idx) && #[trigger] t.lookup(rest, m) is Some ==> covered(cands, start, cur, rest)
}

/// As `complete`, for the routes that leave `t` by one of its first `i`
/// edges.
#[verifier::opaque]
pub open spec fn complete_upto<H>(
    t: RouteNode<H>,
    cands: Seq<(Route, &H)>,
    start: int,
    cur: Seq<CompSpec>,
    parts: Seq<Seq<char>>,
    idx: int,
    m: Seq<char>,
    i: int,
) -> bool {
    forall|rest: Seq<CompSpec>, j: int|
        #![trigger t.lookup(rest, m), t.key(j)]
        0 <= j < i && rest.len() > 0 && t.key(j) == rest[0] && matches_from(rest, parts, idx) && t.lookup(rest, m) is Some
            ==> covered(cands, start, cur, rest)
}

proof fn lemma_after_child<H>(
    t: RouteNode<H>,
    i: int,
    before: Seq<(Route, &H)>,
    after: Seq<(Route, &H)>,
    start: int,
    cur: Seq<CompSpec>,
    parts: Seq<Seq<char>>,
    idx: int,
    m: Seq<char>,
)
    requires
        t.wf(),
        0 <= i < t.path@.len(),
        0 <= start <= before.len(),
        0 <= idx,
        idx + 1 < parts.len(),
        t.key(i) != CompSpec::Multi,
        crate::route::comp_matches(t.key(i), parts[idx]),
        all_sound(t, before, start, cur, parts, idx, m),
        complete_upto(t, before, start, cur, parts, idx, m, i),
        after.len() >= before.len(),
        forall|k: int| 0 <= k < before.len() ==> after[k] == before[k],
        all_sound(t.child(i), after, before.len() as int, cur.push(t.key(i)), parts, idx + 1, m),
        complete(t.child(i), after, before.len() as int, cur.push(t.key(i)), parts, idx + 1, m),
    ensures
        all_sound(t, after, start, cur, parts, idx, m),
        complete_upto(t, after, start, cur, parts, idx, m, i + 1),
{
    reveal(all_sound);
    reveal(complete);
    reveal(complete_upto);
    let c = t.key(i);
    let cur2 = cur.push(c);
    assert forall|k: int| start <= k < after.len() implies sound_candidate(t, #[trigger] after[k], cur, parts, idx, m) by {
        if k >= before.len() {
            assert(sound_candidate(t.child(i), after[k], cur2, parts, idx + 1, m));
            let v = route_view(after[k].0.r@);
            let rest2 = v.skip(cur2.len() as int);
            let rest = v.skip(cur.len() as int);
            assert(v.take(cur2.len() as int) == cur2);
            assert(v.take(cur.len() as int) =~= cur2.take(cur.len() as int));
            assert(cur2.take(cur.len() as int) =~= cur);
            assert(v[cur.len() as int] == v.take(cur2.len() as int)[cur.len() as int]);
            assert(rest[0] == c);
            assert(rest.drop_first() =~= rest2);
            lemma_lookup_step(t, i, rest, m);
        } else {
            assert(after[k] == before[k]);
        }
    }
    assert forall|rest: Seq<CompSpec>, j: int|
        #![trigger t.lookup(rest, m), t.key(j)]
        0 <= j < i + 1 && rest.len() > 0 && t.key(j) == rest[0] && matches_from(rest, parts, idx) && t.lookup(rest, m) is Some
            implies covered(after, start, cur, rest) by {
        if j < i {
            lemma_covered_persists(before, after, start, cur, rest);
        } else {
            lemma_lookup_step(t, i, rest, m);
            let rest2 = rest.drop_first();
            assert(t.child(i).lookup(rest2, m) is Some);
            assert(matches_from(rest2, parts, idx + 1));
            assert(covered(after, before.len() as int, cur2, rest2));
            let k = choose|k: int| before.len() <= k < after.len() && route_view(#[trigger] after[k].0.r@) == cur2 + rest2;
            assert(cur2 + rest2 =~= cur + rest);
        }
    }
}

proof fn lemma_after_leaf<H>(
    t: RouteNode<H>,
    i: int,
    before: Seq<(Route, &H)>,
    after: Seq<(Route, &H)>,
    start: int,
    cur: Seq<CompSpec>,
    parts: Seq<Seq<char>>,
    idx: int,
    m: Seq<char>,
)
    requires
        t.wf(),
        0 <= i < t.path@.len(),
        0 <= start <= before.len(),
        0 <= idx < parts.len(),
        idx + 1 >= parts.len() || t.key(i) == CompSpec::Multi,
        crate::route::comp_matches(t.key(i), parts[idx]),
        all_sound(t, before, start, cur, parts, idx, m),
        complete_upto(t, before, start, cur, parts, idx, m, i),
        match t.child(i).method_lookup(m) {
            Some(h) => after.len() == before.len() + 1 && after.take(before.len() as int) == before
                && route_view(after.last().0.r@) == cur.push(t.key(i)) && *after.last().1 == h,
            None => after == before,
        },
    ensures
        all_sound(t, after, start, cur, parts, idx, m),
        complete_upto(t, after, start, cur, parts, idx, m, i + 1),
{
    reveal(all_sound);
    reveal(complete_upto);
    let c = t.key(i);
    assert forall|k: int| 0 <= k < before.len() implies after[k] == before[k] by {
        if after.len() > before.len() {
            assert(after[k] == after.take(before.len() as int)[k]);
        }
    }
    if t.child(i).method_lookup(m) is Some {
        let k = before.len() as int;
        let v = route_view(after[k].0.r@);
        assert(v.take(cur.len() as int) =~= cur);
        assert(v.skip(cur.len() as int) =~= seq![c]);
        lemma_lookup_step(t, i, seq![c], m);
        assert(seq![c].drop_first() =~= Seq::<CompSpec>::empty());
        assert(matches_from(seq![c], parts, idx));
        assert(sound_candidate(t, after[k], cur, parts, idx, m));
    }
    assert forall|k: int| start <= k < after.len() implies sound_candidate(t, #[trigger] after[k], cur, parts, idx, m) by {
        if k < before.len() {
            assert(after[k] == before[k]);
        }
    }
    assert forall|rest: Seq<CompSpec>, j: int|
        #![trigger t.lookup(rest, m), t.key(j)]
        0 <= j < i + 1 && rest.len() > 0 && t.key(j) == rest[0] && matches_from(rest, parts, idx) && t.lookup(rest, m) is Some
            implies covered(after, start, cur, rest) by {
        if j < i {
            lemma_covered_persists(before, after, start, cur, rest);
        } else {
            lemma_lookup_step(t, i, rest, m);
            assert(rest.len() == 1);
            assert(rest.drop_first() =~= Seq::<CompSpec>::empty());
            let k = (after.len() - 1) as int;
            assert(rest =~= seq![c]);
            assert(route_view(after[k].0.r@) =~= cur + rest);
        }
    }
}

proof fn lemma_after_mismatch<H>(
    t: RouteNode<H>,
    i: int,
    cands: Seq<(Route, &H)>,
    start: int,
    cur: Seq<CompSpec>,
    parts: Seq<Seq<char>>,
    idx: int,
    m: Seq<char>,
)
    requires
        0 <= i < t.path@.len(),
        0 <= idx < parts.len(),
        !crate::route::comp_matches(t.key(i), parts[idx]),
        complete_upto(t, cands, start, cur, parts, idx, m, i),
    ensures
        complete_upto(t, cands, start, cur, parts, idx, m, i + 1),
{
    reveal(complete_upto);
}

proof fn lemma_complete_from_upto<H>(
    t: RouteNode<H>,
    cands: Seq<(Route, &H)>,
    start: int,
    cur: Seq<CompSpec>,
    parts: Seq<Seq<char>>,
    idx: int,
    m: Seq<char>,
)
    requires
        complete_upto(t, cands, start, cur, parts, idx, m, t.path@.len() as int),
    ensures
        complete(t, cands, start, cur, parts, idx, m),
{
    reveal(complete_upto);
    reveal(complete);
    assert forall|rest: Seq<CompSpec>|
        matches_from(rest, parts, idx) && #[trigger] t.lookup(rest, m) is Some implies covered(cands, start, cur, rest) by {
        if !exists|j: int| 0 <= j < t.path@.len() && t.key(j) == rest[0] {
            lemma_lookup_missing(t, rest, m);
        }
        let j = choose|j: int| 0 <= j < t.path@.len() && t.key(j) == rest[0];
        assert(t.key(j) == rest[0]);
    }
}

/// A node reached by an edge with key `r[0]` leads the lookup of `r`.
proof fn lemma_lookup_step<H>(t: RouteNode<H>, i: int, r: Seq<CompSpec>, m: Seq<char>)
    requires
        t.wf(),
        0 <= i < t.path@.len(),
        r.len() > 0,
        t.key(i) == r[0],
    ensures
        t.lookup(r, m) == t.child(i).lookup(r.drop_first(), m),
{
    let j = choose|j: int| 0 <= j < t.path@.len() && t.key(j) == r[0];
    if j != i {
        if j < i {
            assert(t.key(j) != t.key(i));
        } else {
            assert(t.key(i) != t.key(j));
        }
    }
}

/// A route whose first component labels no edge is not registered.
proof fn lemma_lookup_missing<H>(t: RouteNode<H>, r: Seq<CompSpec>, m: Seq<char>)
    requires
        r.len() > 0,
        forall|i: int| 0 <= i < t.path@.len() ==> t.key(i) != r[0],
    ensures
        t.lookup(r, m) is None,
{
}

/// The handler a node holds for a method is the one stored with it.
proof fn lemma_method_lookup_at<H>(t: RouteNode<H>, i: int, m: Seq<char>)
    requires
        t.wf(),
        0 <= i < t.f@.len(),
        t.f@[i].0@ == m,
    ensures
        t.method_lookup(m) == Some(t.f@[i].1),
{
    let j = choose|j: int| 0 <= j < t.f@.len() && t.f@[j].0@ == m;
    if j != i {
        if j < i {
            assert(t.f@[j].0@ != t.f@[i].0@);
        } else {
            assert(t.f@[i].0@ != t.f@[j].0@);
        }
    }
}

/// An empty trie holds no handler.
proof fn lemma_empty_lookup<H>(t: RouteNode<H>, r: Seq<CompSpec>, m: Seq<char>)
    requires
        t.path@.len() == 0,
        t.f@.len() == 0,
    ensures
        t.lookup(r, m) is None,
{
}

impl<H> RouteNode<H> {
    /// An empty trie.
    pub fn new() -> (res: Self)
        ensures
            res.wf(),
            res.is_empty(),
            forall|r: Seq<CompSpec>, m: Seq<char>| #[trigger] res.lookup(r, m) is None,
    {
        let res = RouteNode { path: Vec::new(), f: Vec::new() };
        assert forall|r: Seq<CompSpec>, m: Seq<char>| #[trigger] res.lookup(r, m) is None by {
            lemma_empty_lookup(res, r, m);
        }
        res
    }

    /// The index of the edge labelled like `c`, if there is one.
    fn find_child(&self, c: &RouteComponent) -> (res: Option<usize>)
        ensures
            res matches Some(i) ==> i < self.path@.len() && self.key(i as int) == comp_view(*c),
            res is None ==> forall|i: int| 0 <= i < self.path@.len() ==> self.key(i) != comp_view(*c),
    {
        let mut i: usize = 0;
        while i < self.path.len()
            invariant
                i <= self.path@.len(),
                forall|j: int| 0 <= j < i ==> self.key(j) != comp_view(*c),
            decreases self.path@.len() - i,
        {
            if self.path[i].0.same_as(c) {
                return Some(i);
            }
            i = i + 1;
        }
        None
    }

    /// The handler this node holds for `method`.
    fn method_get(&self, method: &String) -> (res: Option<&H>)
        requires
            self.wf(),
        ensures
            match self.method_lookup(method@) {
                Some(h) => res == Some(&h),
                None => res is None,
            },
    {
        let mut i: usize = 0;
        while i < self.f.len()
            invariant
                self.wf(),
                i <= self.f@.len(),
                forall|j: int| 0 <= j < i ==> self.f@[j].0@ != method@,
            decreases self.f@.len() - i,
        {
            if self.f[i].0 == *method {
                proof {
                    lemma_method_lookup_at(*self, i as int, method@);
                }
                return Some(&self.f[i].1);
            }
            i = i + 1;
        }
        None
    }

    /// Registers `f` for `method` under the route whose components `url`
    /// holds in reverse order (the first component last).
    fn add_route(&mut self, url: Vec<RouteComponent>, f: H, method: String)
        requires
            old(self).wf(),
        ensures
            final(self).wf(),
            forall|r: Seq<CompSpec>, m: Seq<char>| #[trigger] final(self).lookup(r, m) == if r.len() > 0
                && r == route_view(url@).reverse() && m == method@ {
                Some(f)
            } else {
                old(self).lookup(r, m)
            },
        decreases url@.len(),
    {
        let mut url = url;
        let ghost full = route_view(url@).reverse();
        let ghost m0 = method@;
        let ghost before = *self;
        match url.pop() {
            None => {
                assert(full.len() == 0);
            },
            Some(next) => {
                let ghost k = comp_view(next);
                let ghost rest = route_view(url@).reverse();
                proof {
                    assert(full =~= seq![k] + rest);
                }
                let idx = match self.find_child(&next) {
                    Some(i) => i,
                    None => {
                        self.path.push((next, Box::new(RouteNode::new())));
                        self.path.len() - 1
                    },
                };
                let ghost mid = *self;
                proof {
                    assert(mid.path@.len() == before.path@.len() || (mid.path@.len() == before.path@.len() + 1
                        && idx == before.path@.len()));
                    assert forall|q: int, w: int|
                        0 <= q < w < mid.path@.len() implies #[trigger] mid.key(q) != #[trigger] mid.key(w) by {
                        if w < before.path@.len() {
                            assert(mid.key(q) == before.key(q));
                            assert(mid.key(w) == before.key(w));
                        } else {
                            assert(mid.key(q) == before.key(q));
                        }
                    }
                    assert forall|q: int| 0 <= q < mid.path@.len() implies (#[trigger] mid.path@[q].1).wf() by {
                        if q < before.path@.len() {
                            assert(mid.path@[q] == before.path@[q]);
                        }
                    }
                    assert(mid.wf());
                    assert(mid.child(idx as int).wf());
                    assert(mid.key(idx as int) == k);
                    assert forall|r2: Seq<CompSpec>, m: Seq<char>|
                        r2.len() > 0 && r2[0] == k implies #[trigger] before.lookup(r2, m)
                        == mid.child(idx as int).lookup(r2.drop_first(), m) by {
                        if idx < before.path@.len() {
                            assert(before.key(idx as int) == k);
                            lemma_lookup_step(before, idx as int, r2, m);
                            assert(mid.child(idx as int) == before.child(idx as int));
                        } else {
                            assert forall|i: int| 0 <= i < before.path@.len() implies before.key(i) != r2[0] by {
                                assert(before.key(i) == mid.key(i));
                            }
                            lemma_lookup_missing(before, r2, m);
                            lemma_empty_lookup(mid.child(idx as int), r2.drop_first(), m);
                        }
                    }
                }
                proof {
                    assert(rest.len() == url@.len());
                }
                if url.len() == 0 {
                    self.path[idx].1.method_insert(method, f);
                    proof {
                        let c0 = mid.child(idx as int);
                        let c1 = (*self).child(idx as int);
                        assert forall|r1: Seq<CompSpec>, m: Seq<char>| #[trigger] c1.lookup(r1, m) == if r1.len() == 0 && m == m0 {
                            Some(f)
                        } else {
                            c0.lookup(r1, m)
                        } by {
                            if r1.len() > 0 {
                                assert(c1.path == c0.path);
                                assert(forall|i: int| #![auto] c1.key(i) == c0.key(i));
                                assert(forall|i: int| #![auto] c1.child(i) == c0.child(i));
                            } else {
                                assert(c1.method_lookup(m) == if m == m0 { Some(f) } else { c0.method_lookup(m) });
                            }
                        }
                        assert forall|r1: Seq<CompSpec>, m: Seq<char>| #[trigger] c1.lookup(r1, m) == if r1 == rest && m == m0 {
                            Some(f)
                        } else {
                            c0.lookup(r1, m)
                        } by {
                            assert(c1.lookup(r1, m) == if r1.len() == 0 && m == m0 { Some(f) } else { c0.lookup(r1, m) });
                            if r1.len() == 0 {
                                assert(r1 =~= rest);
                            }
                        }
                    }
                } else {
                    self.path[idx].1.add_route(url, f, method);
                    proof {
                        let c0 = mid.child(idx as int);
                        let c1 = (*self).child(idx as int);
                        assert forall|r1: Seq<CompSpec>, m: Seq<char>| #[trigger] c1.lookup(r1, m) == if r1 == rest && m == m0 {
                            Some(f)
                        } else {
                            c0.lookup(r1, m)
                        } by {
                            assert(c1.lookup(r1, m) == if r1.len() > 0 && r1 == rest && m == m0 { Some(f) } else { c0.lookup(r1, m) });
                        }
                    }
                }
                proof {
                    let fin = *self;
                    assert(fin.path@.len() == mid.path@.len());
                    assert forall|q: int| 0 <= q < fin.path@.len() && q != idx implies fin.path@[q] == mid.path@[q] by {
                    }
                    assert(fin.key(idx as int) == k);
                    assert forall|q: int, w: int|
                        0 <= q < w < fin.path@.len() implies #[trigger] fin.key(q) != #[trigger] fin.key(w) by {
                        assert(fin.key(q) == mid.key(q));
                        assert(fin.key(w) == mid.key(w));
                    }
                    assert forall|q: int| 0 <= q < fin.path@.len() implies (#[trigger] fin.path@[q].1).wf() by {
                        if q != idx {
                            assert(fin.path@[q] == mid.path@[q]);
                        }
                    }
                    assert(fin.f == before.f);
                    assert(fin.wf());
                    assert forall|r: Seq<CompSpec>, m: Seq<char>| #[trigger] fin.lookup(r, m) == if r.len() > 0
                        && r == full && m == m0 {
                        Some(f)
                    } else {
                        before.lookup(r, m)
                    } by {
                        if r.len() == 0 {
                        } else if r[0] == k {
                            lemma_lookup_step(fin, idx as int, r, m);
                            let r1 = r.drop_first();
                            assert(r == full <==> r1 == rest) by {
                                assert(full.drop_first() =~= rest);
                                if r1 == rest {
                                    assert(r =~= seq![k] + rest);
                                }
                            }
                            assert(fin.child(idx as int).lookup(r1, m) == if r1 == rest && m == m0 {
                                Some(f)
                            } else {
                                mid.child(idx as int).lookup(r1, m)
                            });
                            assert(before.lookup(r, m) == mid.child(idx as int).lookup(r1, m));
                        } else if exists|j: int| 0 <= j < before.path@.len() && before.key(j) == r[0] {
                            let j = choose|j: int| 0 <= j < before.path@.len() && before.key(j) == r[0];
                            assert(j != idx);
                            assert(fin.path@[j] == before.path@[j]);
                            assert(fin.key(j) == before.key(j));
                            lemma_lookup_step(before, j, r, m);
                            lemma_lookup_step(fin, j, r, m);
                        } else {
                            assert forall|i: int| 0 <= i < fin.path@.len() implies fin.key(i) != r[0] by {
                                if i != idx {
                                    assert(fin.path@[i] == mid.path@[i]);
                                    assert(i < before.path@.len());
                                    assert(mid.path@[i] == before.path@[i]);
                                    assert(fin.key(i) == before.key(i));
                                }
                            }
                            lemma_lookup_missing(fin, r, m);
                            lemma_lookup_missing(before, r, m);
                        }
                    }
                }
            },
        }
    }

    /// Collects, after the ones already in `candidates`, every route below
    /// this node that matches `url_parts` from index `idx`, prefixed with
    /// `current_path`, together with its handler for `method`.
    fn get_candidates<'a>(
        &'a self,
        url_parts: &Vec<String>,
        candidates: &mut Vec<(Route, &'a H)>,
        idx: usize,
        current_path: Route,
        method: &String,
    )
        requires
            self.wf(),
        ensures
            ({
                let parts = url_parts@.map_values(|p: String| p@);
                let cur = route_view(current_path.r@);
                let start = old(candidates)@.len() as int;
                &&& final(candidates)@.len() >= start
                &&& forall|k: int| 0 <= k < start ==> final(candidates)@[k] == old(candidates)@[k]
                &&& all_sound(*self, final(candidates)@, start, cur, parts, idx as int, method@)
                &&& complete(*self, final(candidates)@, start, cur, parts, idx as int, method@)
            }),
        decreases url_parts@.len() - idx,
    {
        let ghost parts = url_parts@.map_values(|p: String| p@);
        let ghost cur = route_view(current_path.r@);
        let ghost start = candidates@.len() as int;
        let ghost m = method@;
        if idx >= url_parts.len() {
            proof {
                reveal(all_sound);
                reveal(complete);
            }
            return;
        }
        let url_part = &url_parts[idx];
        let n_parts = url_parts.len();
        assert(parts[idx as int] == url_part@);
        proof {
            reveal(all_sound);
            reveal(complete_upto);
        }
        let mut i: usize = 0;
        while i < self.path.len()
            invariant
                self.wf(),
                idx < url_parts@.len(),
                n_parts == url_parts@.len(),
                start >= 0,
                parts == url_parts@.map_values(|p: String| p@),
                cur == route_view(current_path.r@),
                m == method@,
                parts[idx as int] == url_part@,
                i <= self.path@.len(),
                candidates@.len() >= start,
                forall|k: int| 0 <= k < start ==> candidates@[k] == old(candidates)@[k],
                all_sound(*self, candidates@, start, cur, parts, idx as int, m),
                complete_upto(*self, candidates@, start, cur, parts, idx as int, m, i as int),
            decreases self.path@.len() - i,
        {
            let component = &self.path[i].0;
            let child: &RouteNode<H> = &self.path[i].1;
            let ghost c = comp_view(*component);
            let ghost before = candidates@;
            assert(self.key(i as int) == c);
            assert(self.child(i as int) == *child);
            assert(child.wf());
            if component.match_url(url_part) {
                let is_multi = match component {
                    RouteComponent::MultiSegWildCard => true,
                    _ => false,
                };
                if idx + 1 < n_parts && !is_multi {
                    let mut path = current_path.duplicate();
                    let ghost p0 = path.r@;
                    path.r.push(component.duplicate());
                    proof {
                        assert(route_view(path.r@) =~= route_view(p0).push(c));
                    }
                    child.get_candidates(url_parts, candidates, idx + 1, path, method);
                    proof {
                        lemma_after_child(*self, i as int, before, candidates@, start, cur, parts, idx as int, m);
                    }
                } else {
                    let got = child.method_get(method);
                    match got {
                        Some(f) => {
                            let mut path = current_path.duplicate();
                            let ghost p0 = path.r@;
                            path.r.push(component.duplicate());
                            proof {
                                assert(route_view(path.r@) =~= route_view(p0).push(c));
                            }
                            candidates.push((path, f));
                            proof {
                                assert(candidates@.take(before.len() as int) =~= before);
                                assert(self.child(i as int).method_lookup(m) == Some(*f));
                            }
                        },
                        None => {
                            assert(self.child(i as int).method_lookup(m) is None);
                        },
                    }
                    proof {
                        lemma_after_leaf(*self, i as int, before, candidates@, start, cur, parts, idx as int, m);
                    }
                }
            } else {
                proof {
                    lemma_after_mismatch(*self, i as int, candidates@, start, cur, parts, idx as int, m);
                }
            }
            i = i + 1;
        }
        proof {
            lemma_complete_from_upto(*self, candidates@, start, cur, parts, idx as int, m);
        }
    }

    /// Stores `f` as this node's handler for `method`.
    fn method_insert(&mut self, method: String, f: H)
        requires
            old(self).wf(),
        ensures
            final(self).wf(),
            final(self).path == old(self).path,
            forall|m: Seq<char>| #[trigger] final(self).method_lookup(m) == if m == method@ {
                Some(f)
            } else {
                old(self).method_lookup(m)
            },
    {
        let ghost m0 = method@;
        let mut i: usize = 0;
        while i < self.f.len()
            invariant
                i <= self.f@.len(),
                *self == *old(self),
                m0 == method@,
                forall|j: int| 0 <= j < i ==> self.f@[j].0@ != m0,
            ensures
                i <= self.f@.len(),
                *self == *old(self),
                forall|j: int| 0 <= j < i ==> self.f@[j].0@ != m0,
                i < self.f@.len() ==> self.f@[i as int].0@ == m0,
            decreases self.f@.len() - i,
        {
            if self.f[i].0 == method {
                break;
            }
            i = i + 1;
        }
        let ghost before = *self;
        if i < self.f.len() {
            self.f.set(i, (method, f));
        } else {
            self.f.push((method, f));
        }
        proof {
            let n = before.f@.len();
            assert forall|j: int, k: int| 0 <= j < k < self.f@.len() implies
                #[trigger] self.f@[j].0@ != #[trigger] self.f@[k].0@ by {
                if k == i as int {
                    if j < i {
                    }
                } else if j == i as int {
                    assert(before.f@[j].0@ != before.f@[k].0@);
                } else {
                    assert(before.f@[j].0@ != before.f@[k].0@);
                }
            }
            assert(self.path == before.path);
            assert(before.wf());
            assert(forall|q: int| 0 <= q < self.path@.len() ==> (#[trigger] self.path@[q].1).wf());
            assert forall|q: int, w: int|
                0 <= q < w < self.path@.len() implies #[trigger] self.key(q) != #[trigger] self.key(w) by {
                assert(self.key(q) == before.key(q));
                assert(self.key(w) == before.key(w));
            }
            assert(self.wf());
            assert forall|m: Seq<char>| #[trigger] self.method_lookup(m) == if m == m0 {
                Some(f)
            } else {
                before.method_lookup(m)
            } by {
                if m == m0 {
                    lemma_method_lookup_at(*self, i as int, m);
                } else if exists|j: int| 0 <= j < before.f@.len() && before.f@[j].0@ == m {
                    let j = choose|j: int| 0 <= j < before.f@.len() && before.f@[j].0@ == m;
                    lemma_method_lookup_at(before, j, m);
                    lemma_method_lookup_at(*self, j, m);
                } else {
                    assert(!exists|j: int| 0 <= j < self.f@.len() && self.f@[j].0@ == m);
                }
            }
        }
    }
}

/// What a route leads to: a handler of plain HTTP requests, or one of
/// WebSocket connections.
pub enum Handler<H, W> {
    Http(H),
    WbeSocket(W),
}

/// The part of a URL before its first `?`.
pub open spec fn before_query(s: Seq<char>) -> Seq<char>
    decreases s.len(),
{
    if s.len() == 0 {
        s
    } else if s[0] == '?' {
        Seq::empty()
    } else {
        seq![s[0]] + before_query(s.drop_first())
    }
}

/// The segments of the URL path that a request URL names: the query is
/// cut off, the path regulated, then cut at `/`.
pub open spec fn url_segments(url: Seq<char>) -> Seq<Seq<char>> {
    split_on(spec_regulate(before_query(url)), '/')
}


/// `prefix` without one trailing `/`.
pub open spec fn strip_slash(prefix: Seq<char>) -> Seq<char> {
    if prefix.len() > 0 && prefix.last() == '/' {
        prefix.drop_last()
    } else {
        prefix
    }
}

/// The handler for `method` on the route `r` after the handlers `hs` are
/// mounted under `prefix` on a trie whose handlers are `before`: the last
/// entry registered for that route and method, or what was there.
pub open spec fn mount_lookup<H>(
    before: spec_fn(Seq<CompSpec>, Seq<char>) -> Option<H>,
    prefix: Seq<char>,
    hs: Seq<(String, String, H)>,
    r: Seq<CompSpec>,
    m: Seq<char>,
) -> Option<H>
    decreases hs.len(),
{
    if hs.len() == 0 {
        before(r, m)
    } else {
        let last = hs.last();
        if r == crate::route::spec_route_of(spec_regulate(strip_slash(prefix) + last.0@)) && m == last.1@ {
            Some(last.2)
        } else {
            mount_lookup(before, prefix, hs.drop_last(), r, m)
        }
    }
}

/// The routing trie of a server: handlers of type `H` registered by route
/// pattern and method.
pub struct HandlerTire<H> {
    root: RouteNode<H>,
}

impl<H> HandlerTire<H> {
    #[verifier::type_invariant]
    spec fn root_wf(self) -> bool {
        self.root.wf()
    }

    /// The handler registered for `method` under the route `r`.
    pub closed spec fn handler(&self, r: Seq<CompSpec>, method: Seq<char>) -> Option<H> {
        self.root.handler(r, method)
    }

    /// A trie with no handler.
    pub fn new() -> (res: Self)
        ensures
            forall|r: Seq<CompSpec>, m: Seq<char>| #[trigger] res.handler(r, m) is None,
    {
        HandlerTire { root: RouteNode::new() }
    }

    /// Registers `f` for requests with method `method` on the route
    /// pattern `url` (regulated first).
    pub fn add(&mut self, url: &str, method: &str, f: H)
        ensures
            forall|r: Seq<CompSpec>, m: Seq<char>| #[trigger] final(self).handler(r, m) == if r
                == crate::route::spec_route_of(spec_regulate(url@)) && m == method@ {
                Some(f)
            } else {
                old(self).handler(r, m)
            },
    {
        proof {
            use_type_invariant(&*self);
        }
        let url = regulate_url_path(url);
        let mut route = Route::from_path(url.as_str());
        let ghost forward = route_view(route.r@);
        proof {
            crate::text::lemma_split_nonempty(url@, '/');
        }
        let mut reversed: Vec<RouteComponent> = Vec::new();
        while route.r.len() > 0
            invariant
                route_view(route.r@) + route_view(reversed@).reverse() == forward,
            decreases route.r@.len(),
        {
            let ghost before_r = route.r@;
            let ghost before_rev = reversed@;
            let c = route.r.pop().unwrap();
            reversed.push(c);
            proof {
                assert(route_view(before_r) =~= route_view(route.r@).push(comp_view(c)));
                assert(route_view(reversed@) =~= route_view(before_rev).push(comp_view(c)));
                let br = route_view(before_rev);
                let nr = route_view(reversed@);
                assert(nr =~= br.push(comp_view(c)));
                assert(nr.reverse() =~= seq![comp_view(c)] + br.reverse());
                assert(route_view(route.r@) + route_view(reversed@).reverse() =~= route_view(before_r)
                    + route_view(before_rev).reverse());
            }
        }
        assert(route_view(route.r@) =~= Seq::<CompSpec>::empty());
        assert(route_view(route.r@) + route_view(reversed@).reverse() =~= route_view(reversed@).reverse());
        let method_name = string_from_chars(chars_of(method).as_slice());
        let mut root = RouteNode::new();
        std::mem::swap(&mut root, &mut self.root);
        root.add_route(reversed, f, method_name);
        self.root = root;
    }

    /// Registers each `(path, method, handler)` of `handlers`, in order, at
    /// `pre_fix` followed by the path; one trailing `/` of the prefix is
    /// dropped first, since paths begin with `/`.
    pub fn mount(&mut self, pre_fix: &str, handlers: Vec<(String, String, H)>)
        ensures
            forall|r: Seq<CompSpec>, m: Seq<char>| #[trigger] final(self).handler(r, m) == mount_lookup(
                |r2: Seq<CompSpec>, m2: Seq<char>| old(self).handler(r2, m2),
                pre_fix@,
                handlers@,
                r,
                m,
            ),
    {
        let ghost before = |r2: Seq<CompSpec>, m2: Seq<char>| old(self).handler(r2, m2);
        let ghost hs = handlers@;
        let n = handlers.len();
        let mut prefix = chars_of(pre_fix);
        if prefix.len() > 0 && prefix[prefix.len() - 1] == '/' {
            prefix.pop();
        }
        assert(prefix@ == strip_slash(pre_fix@));
        let mut rest = handlers;
        let mut stack: Vec<(String, String, H)> = Vec::new();
        while rest.len() > 0
            invariant
                rest@ + stack@.reverse() == hs,
            decreases rest@.len(),
        {
            let ghost r0 = rest@;
            let ghost s0 = stack@;
            let e = rest.pop().unwrap();
            stack.push(e);
            proof {
                assert(stack@.reverse() =~= seq![e] + s0.reverse());
                assert(r0 =~= rest@.push(e));
                assert(rest@ + stack@.reverse() =~= r0 + s0.reverse());
            }
        }
        assert(rest@ =~= Seq::<(String, String, H)>::empty());
        assert(stack@.reverse() =~= hs);
        let mut k: usize = 0;
        assert(hs.take(0) =~= Seq::<(String, String, H)>::empty());
        assert forall|r: Seq<CompSpec>, m: Seq<char>| #[trigger] self.handler(r, m) == mount_lookup(
            before,
            pre_fix@,
            hs.take(0),
            r,
            m,
        ) by {}
        while stack.len() > 0
            invariant
                k <= hs.len(),
                hs.len() == n,
                k + stack@.len() == n,
                hs.take(k as int) + stack@.reverse() == hs,
                prefix@ == strip_slash(pre_fix@),
                forall|r: Seq<CompSpec>, m: Seq<char>| #[trigger] self.handler(r, m) == mount_lookup(
                    before,
                    pre_fix@,
                    hs.take(k as int),
                    r,
                    m,
                ),
            decreases stack@.len(),
        {
            let ghost s0 = stack@;
            let (path, method, f) = stack.pop().unwrap();
            proof {
                assert(s0 =~= stack@.push((path, method, f)));
                assert(s0.reverse() =~= seq![(path, method, f)] + stack@.reverse());
                assert(hs[k as int] == (path, method, f));
                assert(hs.take(k + 1) =~= hs.take(k as int).push((path, method, f)));
                assert(hs.take(k + 1) + stack@.reverse() =~= hs);
            }
            let mut url = prefix.clone();
            let mut pc = chars_of(path.as_str());
            url.append(&mut pc);
            let url_string = string_from_chars(url.as_slice());
            let ghost mid = *self;
            self.add(url_string.as_str(), method.as_str(), f);
            k = k + 1;
            proof {
                assert(url_string@ == strip_slash(pre_fix@) + path@);
                let t = hs.take(k as int);
                assert(t.drop_last() =~= hs.take(k - 1));
                assert(t.last() == (path, method, f));
            }
        }
        assert(hs.take(k as int) =~= hs);
    }

    /// Registers `f` for `GET` requests on `url`.
    pub fn get(&mut self, url: &str, f: H)
        ensures
            forall|r: Seq<CompSpec>, m: Seq<char>| #[trigger] final(self).handler(r, m) == if r
                == crate::route::spec_route_of(spec_regulate(url@)) && m == seq!['G', 'E', 'T'] {
                Some(f)
            } else {
                old(self).handler(r, m)
            },
    {
        proof {
            reveal_strlit("GET");
        }
        assert("GET"@ =~= seq!['G', 'E', 'T']);
        self.add(url, "GET", f)
    }

    /// Registers `f` for `POST` requests on `url`.
    pub fn post(&mut self, url: &str, f: H)
        ensures
            forall|r: Seq<CompSpec>, m: Seq<char>| #[trigger] final(self).handler(r, m) == if r
                == crate::route::spec_route_of(spec_regulate(url@)) && m == seq!['P', 'O', 'S', 'T'] {
                Some(f)
            } else {
                old(self).handler(r, m)
            },
    {
        proof {
            reveal_strlit("POST");
        }
        assert("POST"@ =~= seq!['P', 'O', 'S', 'T']);
        self.add(url, "POST", f)
    }

    /// Registers `f` for `OPTIONS` requests on `url`.
    pub fn options(&mut self, url: &str, f: H)
        ensures
            forall|r: Seq<CompSpec>, m: Seq<char>| #[trigger] final(self).handler(r, m) == if r
                == crate::route::spec_route_of(spec_regulate(url@)) && m == seq![
                'O',
                'P',
                'T',
                'I',
                'O',
                'N',
                'S',
            ] {
                Some(f)
            } else {
                old(self).handler(r, m)
            },
    {
        proof {
            reveal_strlit("OPTIONS");
        }
        assert("OPTIONS"@ =~= seq!['O', 'P', 'T', 'I', 'O', 'N', 'S']);
        self.add(url, "OPTIONS", f)
    }

    /// The handler for a request on `url` with `method`: among the
    /// registered routes that match the URL's path, the one that comes
    /// last in the route order, so exact segments win over parameters, and
    /// parameters over `*` and `**`.
    #[verifier::rlimit(40)]
    pub fn get_handler(&self, url: &str, method: &str) -> (res: Option<(Route, &H)>)
        ensures
            ({
                let parts = url_segments(url@);
                match res {
                    None => forall|r: Seq<CompSpec>|
                        !(matches_from(r, parts, 0) && #[trigger] self.handler(r, method@) is Some),
                    Some((route, h)) => {
                        &&& self.is_chosen_route(parts, method@, route_view(route.r@))
                        &&& self.handler(route_view(route.r@), method@) == Some(*h)
                    },
                }
            }),
    {
        proof {
            use_type_invariant(self);
        }
        let chars = chars_of(url);
        let mut path: Vec<char> = Vec::new();
        let mut i: usize = 0;
        assert(url@.skip(0) =~= url@);
        assert(path@ + before_query(url@) =~= before_query(url@));
        while i < chars.len() && chars[i] != '?'
            invariant
                i <= chars@.len(),
                chars@ == url@,
                before_query(url@) == path@ + before_query(url@.skip(i as int)),
            decreases chars@.len() - i,
        {
            let ghost rest = url@.skip(i as int);
            path.push(chars[i]);
            i = i + 1;
            proof {
                assert(rest.drop_first() =~= url@.skip(i as int));
                assert(before_query(rest) == seq![rest[0]] + before_query(rest.drop_first()));
            }
        }
        proof {
            let rest = url@.skip(i as int);
            if i < chars.len() {
                assert(rest[0] == '?');
            } else {
                assert(rest.len() == 0);
            }
            assert(before_query(rest) =~= Seq::<char>::empty());
            assert(path@ =~= before_query(url@));
        }
        let path_string = string_from_chars(path.as_slice());
        let regulated = regulate_url_path(path_string.as_str());
        let url_parts = split_chars(chars_of(regulated.as_str()).as_slice(), '/');
        let method_name = string_from_chars(chars_of(method).as_slice());
        let mut candidates: Vec<(Route, &H)> = Vec::new();
        let ghost parts = url_parts@.map_values(|p: String| p@);
        self.root.get_candidates(&url_parts, &mut candidates, 0, Route { r: Vec::new() }, &method_name);
        proof {
            reveal(all_sound);
            reveal(complete);
            assert(route_view(Seq::<RouteComponent>::empty()) =~= Seq::<CompSpec>::empty());
        }
        if candidates.len() == 0 {
            proof {
                assert forall|r: Seq<CompSpec>|
                    !(matches_from(r, parts, 0) && #[trigger] self.handler(r, method@) is Some) by {
                    if matches_from(r, parts, 0) && self.handler(r, method@) is Some {
                        assert(covered(candidates@, 0, Seq::<CompSpec>::empty(), r));
                    }
                }
            }
            return None;
        }
        let mut best: usize = 0;
        let mut k: usize = 1;
        proof {
            lemma_route_less_irreflexive(route_view(candidates@[0].0.r@));
        }
        while k < candidates.len()
            invariant
                1 <= k <= candidates@.len(),
                best < k,
                forall|j: int| 0 <= j < k ==> !route_less(
                    route_view(candidates@[best as int].0.r@),
                    route_view(#[trigger] candidates@[j].0.r@),
                ),
            decreases candidates@.len() - k,
        {
            proof {
                lemma_route_less_irreflexive(route_view(candidates@[best as int].0.r@));
            }
            if !candidates[k].0.less_than(&candidates[best].0) {
                proof {
                    let a = route_view(candidates@[best as int].0.r@);
                    let b = route_view(candidates@[k as int].0.r@);
                    crate::route::lemma_route_less_total(a, b);
                    lemma_route_less_irreflexive(b);
                    assert forall|j: int| 0 <= j < k + 1 implies !route_less(
                        b,
                        route_view(#[trigger] candidates@[j].0.r@),
                    ) by {
                        let c = route_view(candidates@[j].0.r@);
                        if route_less(b, c) && j < k {
                            if route_less(a, b) {
                                lemma_route_less_transitive(a, b, c);
                            }
                        }
                    }
                }
                best = k;
            } else {
                proof {
                    let a = route_view(candidates@[best as int].0.r@);
                    let b = route_view(candidates@[k as int].0.r@);
                    if route_less(a, b) {
                        lemma_route_less_transitive(a, b, a);
                        lemma_route_less_irreflexive(a);
                    }
                }
            }
            k = k + 1;
        }
        let ghost all = candidates@;
        let chosen = candidates.swap_remove(best);
        proof {
            let rv = route_view(chosen.0.r@);
            assert(chosen == all[best as int]);
            assert(sound_candidate(self.root, all[best as int], Seq::<CompSpec>::empty(), parts, 0, method@));
            assert(rv.skip(0) =~= rv);
            assert forall|r: Seq<CompSpec>|
                matches_from(r, parts, 0) && #[trigger] self.handler(r, method@) is Some implies !route_less(rv, r) by {
                assert(covered(all, 0, Seq::<CompSpec>::empty(), r));
                let j = choose|j: int| 0 <= j < all.len() && route_view(#[trigger] all[j].0.r@) == Seq::<CompSpec>::empty() + r;
                assert(Seq::<CompSpec>::empty() + r =~= r);
            }
        }
        Some(chosen)
    }
}

impl<H> Default for HandlerTire<H> {
    fn default() -> (res: Self)
        ensures
            forall|r: Seq<CompSpec>, m: Seq<char>| #[trigger] res.handler(r, m) is None,
    {
        HandlerTire::new()
    }
}

impl<H> HandlerTire<H> {
    /// `r` is a route registered for `method` that matches the URL
    /// segments `parts`, and no other such route comes after it in the
    /// route order: the route whose handler serves the request.
    pub open spec fn is_chosen_route(&self, parts: Seq<Seq<char>>, method: Seq<char>, r: Seq<CompSpec>) -> bool {
        &&& matches_from(r, parts, 0)
        &&& self.handler(r, method) is Some
        &&& forall|q: Seq<CompSpec>|
            matches_from(q, parts, 0) && #[trigger] self.handler(q, method) is Some ==> !route_less(r, q)
    }
}

/// The route that serves a request is determined: at most one registered
/// route can be the one chosen for given URL segments and method, so the
/// handler lookup has one right answer.
pub proof fn law_chosen_route_is_unique<H>(
    t: HandlerTire<H>,
    parts: Seq<Seq<char>>,
    method: Seq<char>,
    a: Seq<CompSpec>,
    b: Seq<CompSpec>,
)
    requires
        t.is_chosen_route(parts, method, a),
        t.is_chosen_route(parts, method, b),
    ensures
        a == b,
{
    crate::route::lemma_route_less_total(a, b);
    assert(!route_less(a, b));
    assert(!route_less(b, a));
}

/// A handler registered alone serves every request whose path its route
/// matches: its route is the one chosen.
pub proof fn law_sole_route_is_chosen<H>(
    t: HandlerTire<H>,
    parts: Seq<Seq<char>>,
    method: Seq<char>,
    r: Seq<CompSpec>,
    f: H,
)
    requires
        forall|q: Seq<CompSpec>, m: Seq<char>| #[trigger] t.handler(q, m) == if q == r && m == method {
            Some(f)
        } else {
            None
        },
        matches_from(r, parts, 0),
    ensures
        t.is_chosen_route(parts, method, r),
{
    assert(t.handler(r, method) == Some(f));
    lemma_route_less_irreflexive(r);
    assert forall|q: Seq<CompSpec>|
        matches_from(q, parts, 0) && #[trigger] t.handler(q, method) is Some implies !route_less(r, q) by {
        assert(q == r);
    }
}

} // verus!
