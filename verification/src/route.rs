//! Route patterns: a path cut at `/` into components, each an exact
//! segment, a `{name}` parameter, a `*` single-segment wildcard or a `**`
//! wildcard for the rest of the path.
use crate::text::{chars_of, split_chars, split_on, string_from_chars};
use vstd::prelude::*;

verus! {

/// One component of a route pattern.
#[derive(Debug, Clone, PartialEq, Eq, Hash)]
pub enum RouteComponent {
    MultiSegWildCard,
    SingleSegWildCard,
    PathParam(String),
    Exact(String),
}

/// A route: its components in path order.
#[derive(Debug, Clone)]
pub struct Route {
    pub r: Vec<RouteComponent>,
}

/// A route component as a value.
pub enum CompSpec {
    Multi,
    Single,
    Param(Seq<char>),
    Exact(Seq<char>),
}

/// A route component as a value.
pub open spec fn comp_view(c: RouteComponent) -> CompSpec {
    match c {
        RouteComponent::MultiSegWildCard => CompSpec::Multi,
        RouteComponent::SingleSegWildCard => CompSpec::Single,
        RouteComponent::PathParam(s) => CompSpec::Param(s@),
        RouteComponent::Exact(s) => CompSpec::Exact(s@),
    }
}

/// A route's components as values.
pub open spec fn route_view(r: Seq<RouteComponent>) -> Seq<CompSpec> {
    r.map_values(|c: RouteComponent| comp_view(c))
}

/// How one path segment reads as a component: `**`, `*`, `{name}`, or an
/// exact segment.
pub open spec fn parse_segment(seg: Seq<char>) -> CompSpec {
    if seg == seq!['*', '*'] {
        CompSpec::Multi
    } else if seg == seq!['*'] {
        CompSpec::Single
    } else if seg.len() >= 2 && seg[0] == '{' && seg.last() == '}' {
        CompSpec::Param(seg.subrange(1, seg.len() - 1))
    } else {
        CompSpec::Exact(seg)
    }
}

/// The route pattern that a path spells.
pub open spec fn spec_route_of(path: Seq<char>) -> Seq<CompSpec> {
    split_on(path, '/').map_values(|p: Seq<char>| parse_segment(p))
}

/// A component accepts a URL segment: an exact component only its own
/// text, every other component any segment.
pub open spec fn comp_matches(c: CompSpec, part: Seq<char>) -> bool {
    match c {
        CompSpec::Exact(s) => s == part,
        _ => true,
    }
}

/// Route `r` matches the URL segments `parts` from index `idx` on: each
/// component accepts its segment, and the route ends with the URL, or ends
/// earlier in a `**` that takes the remaining segments. A `**` anywhere
/// but at the end of `r` matches nothing.
pub open spec fn matches_from(r: Seq<CompSpec>, parts: Seq<Seq<char>>, idx: int) -> bool
    decreases r.len(),
{
    &&& r.len() > 0
    &&& 0 <= idx < parts.len()
    &&& comp_matches(r[0], parts[idx])
    &&& if idx + 1 < parts.len() {
        if r[0] == CompSpec::Multi {
            r.len() == 1
        } else {
            r.len() > 1 && matches_from(r.drop_first(), parts, idx + 1)
        }
    } else {
        r.len() == 1
    }
}

/// Characters compared by their Unicode scalar values.
pub open spec fn text_less(a: Seq<char>, b: Seq<char>) -> bool
    decreases a.len(),
{
    if a.len() == 0 {
        b.len() > 0
    } else if b.len() == 0 {
        false
    } else if (a[0] as u32) < (b[0] as u32) {
        true
    } else if a[0] == b[0] {
        text_less(a.drop_first(), b.drop_first())
    } else {
        false
    }
}

/// Precedence of component kinds: exact over parameter over `*` over `**`.
pub open spec fn rank(c: CompSpec) -> int {
    match c {
        CompSpec::Multi => 0,
        CompSpec::Single => 1,
        CompSpec::Param(_) => 2,
        CompSpec::Exact(_) => 3,
    }
}

/// The text a component carries (a parameter's name, an exact segment).
pub open spec fn comp_text(c: CompSpec) -> Seq<char> {
    match c {
        CompSpec::Param(s) => s,
        CompSpec::Exact(s) => s,
        _ => Seq::empty(),
    }
}

/// Component order: by kind, then by text.
pub open spec fn comp_less(a: CompSpec, b: CompSpec) -> bool {
    rank(a) < rank(b) || (rank(a) == rank(b) && text_less(comp_text(a), comp_text(b)))
}

/// Route order: lexicographic over components, a proper prefix first.
pub open spec fn route_less(a: Seq<CompSpec>, b: Seq<CompSpec>) -> bool
    decreases a.len(),
{
    if a.len() == 0 {
        b.len() > 0
    } else if b.len() == 0 {
        false
    } else if comp_less(a[0], b[0]) {
        true
    } else if a[0] == b[0] {
        route_less(a.drop_first(), b.drop_first())
    } else {
        false
    }
}

/// No text comes before itself.
pub proof fn lemma_text_less_irreflexive(a: Seq<char>)
    ensures
        !text_less(a, a),
    decreases a.len(),
{
    if a.len() > 0 {
        lemma_text_less_irreflexive(a.drop_first());
    }
}

/// The text order is transitive.
pub proof fn lemma_text_less_transitive(a: Seq<char>, b: Seq<char>, c: Seq<char>)
    requires
        text_less(a, b),
        text_less(b, c),
    ensures
        text_less(a, c),
    decreases a.len(),
{
    if a.len() > 0 && b.len() > 0 && c.len() > 0 {
        if a[0] == b[0] && b[0] == c[0] {
            lemma_text_less_transitive(a.drop_first(), b.drop_first(), c.drop_first());
        }
    }
}

/// No component comes before itself.
pub proof fn lemma_comp_less_irreflexive(a: CompSpec)
    ensures
        !comp_less(a, a),
{
    lemma_text_less_irreflexive(comp_text(a));
}

/// The component order is transitive.
pub proof fn lemma_comp_less_transitive(a: CompSpec, b: CompSpec, c: CompSpec)
    requires
        comp_less(a, b),
        comp_less(b, c),
    ensures
        comp_less(a, c),
{
    if rank(a) == rank(b) && rank(b) == rank(c) {
        lemma_text_less_transitive(comp_text(a), comp_text(b), comp_text(c));
    }
}

/// The route order is irreflexive.
pub proof fn lemma_route_less_irreflexive(a: Seq<CompSpec>)
    ensures
        !route_less(a, a),
    decreases a.len(),
{
    if a.len() > 0 {
        lemma_comp_less_irreflexive(a[0]);
        lemma_route_less_irreflexive(a.drop_first());
    }
}

/// The route order is transitive.
pub proof fn lemma_route_less_transitive(a: Seq<CompSpec>, b: Seq<CompSpec>, c: Seq<CompSpec>)
    requires
        route_less(a, b),
        route_less(b, c),
    ensures
        route_less(a, c),
    decreases a.len(),
{
    if a.len() > 0 && b.len() > 0 && c.len() > 0 {
        if comp_less(a[0], b[0]) && comp_less(b[0], c[0]) {
            lemma_comp_less_transitive(a[0], b[0], c[0]);
        } else if comp_less(a[0], b[0]) {
        } else if comp_less(b[0], c[0]) {
        } else {
            lemma_route_less_transitive(a.drop_first(), b.drop_first(), c.drop_first());
        }
    }
}

/// Of two different texts, one comes first.
pub proof fn lemma_text_less_total(a: Seq<char>, b: Seq<char>)
    ensures
        text_less(a, b) || text_less(b, a) || a == b,
    decreases a.len(),
{
    if a.len() > 0 && b.len() > 0 {
        if a[0] == b[0] {
            lemma_text_less_total(a.drop_first(), b.drop_first());
            if a.drop_first() == b.drop_first() {
                assert(a =~= seq![a[0]] + a.drop_first());
                assert(b =~= seq![b[0]] + b.drop_first());
            }
        } else {
            vstd::utf8::char_u32_cast(a[0], a[0] as u32);
            vstd::utf8::char_u32_cast(b[0], b[0] as u32);
            assert((a[0] as u32) != (b[0] as u32));
        }
    } else if a.len() == 0 && b.len() == 0 {
        assert(a =~= b);
    }
}

/// Any two routes are ordered one way or the other, or are the same.
pub proof fn lemma_route_less_total(a: Seq<CompSpec>, b: Seq<CompSpec>)
    ensures
        route_less(a, b) || route_less(b, a) || a == b,
    decreases a.len(),
{
    if a.len() > 0 && b.len() > 0 {
        lemma_text_less_total(comp_text(a[0]), comp_text(b[0]));
        if a[0] == b[0] {
            lemma_route_less_total(a.drop_first(), b.drop_first());
            if a.drop_first() == b.drop_first() {
                assert(a =~= seq![a[0]] + a.drop_first());
                assert(b =~= seq![b[0]] + b.drop_first());
            }
        }
    } else if a.len() == 0 && b.len() == 0 {
        assert(a =~= b);
    }
}

/// `text_less` on concrete strings.
pub fn text_lt(a: &String, b: &String) -> (res: bool)
    ensures
        res == text_less(a@, b@),
{
    let x = chars_of(a.as_str());
    let y = chars_of(b.as_str());
    let mut i: usize = 0;
    assert(x@.skip(0) =~= x@);
    assert(y@.skip(0) =~= y@);
    while i < x.len() && i < y.len()
        invariant
            i <= x@.len(),
            i <= y@.len(),
            x@ == a@,
            y@ == b@,
            text_less(a@, b@) == text_less(x@.skip(i as int), y@.skip(i as int)),
        decreases x@.len() - i,
    {
        let xi = x[i];
        let yi = y[i];
        proof {
            assert(x@.skip(i as int)[0] == xi);
            assert(y@.skip(i as int)[0] == yi);
            assert(x@.skip(i as int).drop_first() =~= x@.skip(i + 1));
            assert(y@.skip(i as int).drop_first() =~= y@.skip(i + 1));
        }
        if (xi as u32) < (yi as u32) {
            return true;
        }
        if xi != yi {
            return false;
        }
        i = i + 1;
    }
    i == x.len() && i < y.len()
}

impl RouteComponent {
    /// Reads one path segment as a component.
    pub fn from_segment(seg: &String) -> (res: RouteComponent)
        ensures
            comp_view(res) == parse_segment(seg@),
    {
        let c = chars_of(seg.as_str());
        let n = c.len();
        if n == 2 && c[0] == '*' && c[1] == '*' {
            assert(seg@ =~= seq!['*', '*']);
            RouteComponent::MultiSegWildCard
        } else if n == 1 && c[0] == '*' {
            assert(seg@ =~= seq!['*']);
            RouteComponent::SingleSegWildCard
        } else if n >= 2 && c[0] == '{' && c[n - 1] == '}' {
            proof {
                assert(seg@ != seq!['*', '*']);
                assert(seg@ != seq!['*']);
            }
            let inner = string_from_chars(&c.as_slice()[1..n - 1]);
            RouteComponent::PathParam(inner)
        } else {
            proof {
                if seg@ == seq!['*', '*'] {
                    assert(c@[0] == '*' && c@[1] == '*');
                }
                if seg@ == seq!['*'] {
                    assert(c@[0] == '*');
                }
            }
            RouteComponent::Exact(seg.clone())
        }
    }

    /// Whether this component accepts the URL segment `part`.
    pub fn match_url(&self, part: &String) -> (res: bool)
        ensures
            res == comp_matches(comp_view(*self), part@),
    {
        match self {
            RouteComponent::Exact(s) => *s == *part,
            _ => true,
        }
    }

    /// A copy holding the same text.
    pub fn duplicate(&self) -> (res: RouteComponent)
        ensures
            comp_view(res) == comp_view(*self),
    {
        match self {
            RouteComponent::MultiSegWildCard => RouteComponent::MultiSegWildCard,
            RouteComponent::SingleSegWildCard => RouteComponent::SingleSegWildCard,
            RouteComponent::PathParam(s) => RouteComponent::PathParam(s.clone()),
            RouteComponent::Exact(s) => RouteComponent::Exact(s.clone()),
        }
    }

    /// Whether this component comes before `other` in the route order.
    pub fn less_than(&self, other: &RouteComponent) -> (res: bool)
        ensures
            res == comp_less(comp_view(*self), comp_view(*other)),
    {
        let ra: u8 = match self {
            RouteComponent::MultiSegWildCard => 0,
            RouteComponent::SingleSegWildCard => 1,
            RouteComponent::PathParam(_) => 2,
            RouteComponent::Exact(_) => 3,
        };
        let rb: u8 = match other {
            RouteComponent::MultiSegWildCard => 0,
            RouteComponent::SingleSegWildCard => 1,
            RouteComponent::PathParam(_) => 2,
            RouteComponent::Exact(_) => 3,
        };
        if ra != rb {
            return ra < rb;
        }
        match (self, other) {
            (RouteComponent::PathParam(a), RouteComponent::PathParam(b)) => text_lt(a, b),
            (RouteComponent::Exact(a), RouteComponent::Exact(b)) => text_lt(a, b),
            _ => {
                proof {
                    lemma_text_less_irreflexive(Seq::<char>::empty());
                }
                false
            },
        }
    }

    /// Whether this component is the same as `other`.
    pub fn same_as(&self, other: &RouteComponent) -> (res: bool)
        ensures
            res == (comp_view(*self) == comp_view(*other)),
    {
        match (self, other) {
            (RouteComponent::MultiSegWildCard, RouteComponent::MultiSegWildCard) => true,
            (RouteComponent::SingleSegWildCard, RouteComponent::SingleSegWildCard) => true,
            (RouteComponent::PathParam(a), RouteComponent::PathParam(b)) => *a == *b,
            (RouteComponent::Exact(a), RouteComponent::Exact(b)) => *a == *b,
            _ => false,
        }
    }
}

impl Route {
    /// The route pattern of a path such as `/user/{id}/**`.
    pub fn from_path(path: &str) -> (res: Route)
        ensures
            route_view(res.r@) == spec_route_of(path@),
    {
        let chars = chars_of(path);
        let pieces = split_chars(chars.as_slice(), '/');
        let mut r: Vec<RouteComponent> = Vec::new();
        let mut i: usize = 0;
        while i < pieces.len()
            invariant
                i <= pieces@.len(),
                pieces@.map_values(|p: String| p@) == split_on(path@, '/'),
                route_view(r@) == split_on(path@, '/').take(i as int).map_values(
                    |p: Seq<char>| parse_segment(p),
                ),
            decreases pieces@.len() - i,
        {
            let c = RouteComponent::from_segment(&pieces[i]);
            let ghost old_r = r@;
            proof {
                assert(pieces@.map_values(|p: String| p@)[i as int] == pieces@[i as int]@);
                assert(split_on(path@, '/')[i as int] == pieces@[i as int]@);
            }
            r.push(c);
            i = i + 1;
            proof {
                assert(route_view(r@) =~= route_view(old_r).push(comp_view(c)));
                assert(route_view(r@) =~= split_on(path@, '/').take(i as int).map_values(
                    |p: Seq<char>| parse_segment(p),
                ));
            }
        }
        proof {
            assert(split_on(path@, '/').take(i as int) =~= split_on(path@, '/'));
        }
        Route { r }
    }

    /// Whether this route comes before `other` in the route order.
    pub fn less_than(&self, other: &Route) -> (res: bool)
        ensures
            res == route_less(route_view(self.r@), route_view(other.r@)),
    {
        let n = self.r.len();
        let m = other.r.len();
        let mut i: usize = 0;
        assert(route_view(self.r@).skip(0) =~= route_view(self.r@));
        assert(route_view(other.r@).skip(0) =~= route_view(other.r@));
        while i < n && i < m
            invariant
                i <= n == self.r@.len(),
                i <= m == other.r@.len(),
                route_less(route_view(self.r@), route_view(other.r@)) == route_less(
                    route_view(self.r@).skip(i as int),
                    route_view(other.r@).skip(i as int),
                ),
            decreases n - i,
        {
            let ghost a = route_view(self.r@).skip(i as int);
            let ghost b = route_view(other.r@).skip(i as int);
            proof {
                assert(a[0] == comp_view(self.r@[i as int]));
                assert(b[0] == comp_view(other.r@[i as int]));
                assert(a.drop_first() =~= route_view(self.r@).skip(i + 1));
                assert(b.drop_first() =~= route_view(other.r@).skip(i + 1));
            }
            if self.r[i].less_than(&other.r[i]) {
                return true;
            }
            if !self.r[i].same_as(&other.r[i]) {
                return false;
            }
            i = i + 1;
        }
        i == n && i < m
    }

    /// A copy holding the same components.
    pub fn duplicate(&self) -> (res: Route)
        ensures
            route_view(res.r@) == route_view(self.r@),
    {
        let mut r: Vec<RouteComponent> = Vec::new();
        let mut i: usize = 0;
        while i < self.r.len()
            invariant
                i <= self.r@.len(),
                route_view(r@) =~= route_view(self.r@).take(i as int),
            decreases self.r@.len() - i,
        {
            let c = self.r[i].duplicate();
            let ghost old_r = r@;
            r.push(c);
            assert(route_view(r@) =~= route_view(old_r).push(comp_view(c)));
            i = i + 1;
            assert(route_view(r@) =~= route_view(self.r@).take(i as int));
        }
        assert(route_view(self.r@).take(i as int) =~= route_view(self.r@));
        Route { r }
    }
}

/// The path with a leading `/` added when missing and a trailing `/`
/// removed, except for the root path itself.
pub open spec fn spec_regulate(s: Seq<char>) -> Seq<char> {
    let v = if s.len() > 0 && s[0] == '/' { s } else { seq!['/'] + s };
    if v.last() == '/' && v.len() != 1 {
        v.drop_last()
    } else {
        v
    }
}

/// A URL path in the form routes are kept in: with a leading `/`, and
/// without one trailing `/` unless it is the root.
pub fn regulate_url_path(s: &str) -> (res: String)
    ensures
        res@ == spec_regulate(s@),
{
    let c = chars_of(s);
    let mut v: Vec<char> = Vec::new();
    if !(c.len() > 0 && c[0] == '/') {
        v.push('/');
    }
    let mut i: usize = 0;
    while i < c.len()
        invariant
            i <= c@.len(),
            c@ == s@,
            v@ == (if s@.len() > 0 && s@[0] == '/' { Seq::empty() } else { seq!['/'] }) + s@.take(i as int),
        decreases c@.len() - i,
    {
        v.push(c[i]);
        i = i + 1;
        assert(v@ =~= (if s@.len() > 0 && s@[0] == '/' { Seq::empty() } else { seq!['/'] }) + s@.take(i as int));
    }
    assert(s@.take(i as int) =~= s@);
    assert(v@ =~= (if s@.len() > 0 && s@[0] == '/' { s@ } else { seq!['/'] + s@ }));
    let n = v.len();
    if v[n - 1] == '/' && n != 1 {
        v.pop();
    }
    string_from_chars(v.as_slice())
}

/// Route precedence: of two routes that agree up to some position and
/// differ there in the kind of component, the one with the more specific
/// kind (exact over parameter over `*` over `**`) comes later in the
/// route order, so it is the one chosen.
pub proof fn law_route_precedence(prefix: Seq<CompSpec>, a: CompSpec, b: CompSpec, ra: Seq<CompSpec>, rb: Seq<CompSpec>)
    requires
        rank(a) < rank(b),
    ensures
        route_less(prefix + seq![a] + ra, prefix + seq![b] + rb),
        !route_less(prefix + seq![b] + rb, prefix + seq![a] + ra),
    decreases prefix.len(),
{
    let x = prefix + seq![a] + ra;
    let y = prefix + seq![b] + rb;
    if prefix.len() == 0 {
        assert(x[0] == a);
        assert(y[0] == b);
    } else {
        law_route_precedence(prefix.drop_first(), a, b, ra, rb);
        assert(x.drop_first() =~= prefix.drop_first() + seq![a] + ra);
        assert(y.drop_first() =~= prefix.drop_first() + seq![b] + rb);
        assert(x[0] == prefix[0]);
        assert(y[0] == prefix[0]);
        lemma_comp_less_irreflexive(prefix[0]);
    }
}

/// A regulated path begins with `/`, and regulating it again changes
/// nothing exactly when it does not still end in `/` (which a path ending
/// in two slashes does).
pub proof fn law_regulated_paths(s: Seq<char>)
    ensures
        spec_regulate(s).len() >= 1,
        spec_regulate(s)[0] == '/',
        ({
            let r = spec_regulate(s);
            spec_regulate(r) == r <==> !(r.len() > 1 && r.last() == '/')
        }),
{
    let r = spec_regulate(s);
    let v = if s.len() > 0 && s[0] == '/' { s } else { seq!['/'] + s };
    assert(v[0] == '/');
    if v.last() == '/' && v.len() != 1 {
        assert(r == v.drop_last());
        assert(r[0] == '/');
    }
    assert(r[0] == '/');
    if r.len() > 1 && r.last() == '/' {
        assert(spec_regulate(r) == r.drop_last());
        assert(spec_regulate(r).len() != r.len());
    }
}

} // verus!
