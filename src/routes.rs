//! The route table: patterns with `:name` captures, matched first to last.
use vstd::prelude::*;

use crate::request::HttpMethod;
use crate::strmap::StrMap;
use crate::text::{chars_eq, chars_of, concat, slice_range, spans, split, split_bounds, string_of, substring};

verus! {

/// The slash-separated segments of a pattern or a path.
pub open spec fn segments(p: Seq<char>) -> Seq<Seq<char>> {
    split(p, seq!['/'])
}

/// The segment begins with `c`.
pub open spec fn starts_with(seg: Seq<char>, c: char) -> bool {
    seg.len() > 0 && seg[0] == c
}

/// A `:name` segment of a pattern.
pub open spec fn is_capture(seg: Seq<char>) -> bool {
    starts_with(seg, ':')
}

/// Pattern segments against path segments: as many of each, every literal
/// equal to its path segment, every capture against a non-empty one.
pub open spec fn segments_match(ps: Seq<Seq<char>>, us: Seq<Seq<char>>) -> bool {
    ps.len() == us.len() && forall|i: int|
        0 <= i < ps.len() ==> if is_capture(#[trigger] ps[i]) {
            us[i].len() > 0
        } else {
            ps[i] == us[i]
        }
}

/// Whether `path` matches the route pattern `pattern`.
pub open spec fn path_matches(pattern: Seq<char>, path: Seq<char>) -> bool {
    segments_match(segments(pattern), segments(path))
}

/// The names of the captures among the segments, in order.
pub open spec fn capture_names(ps: Seq<Seq<char>>) -> Seq<Seq<char>>
    decreases ps.len(),
{
    if ps.len() == 0 {
        seq![]
    } else {
        let rest = capture_names(ps.drop_last());
        if is_capture(ps.last()) {
            rest.push(ps.last().drop_first())
        } else {
            rest
        }
    }
}

/// The number of leading segments that do not begin with `marker`.
pub open spec fn run_len(ps: Seq<Seq<char>>, marker: char) -> nat
    decreases ps.len(),
{
    if ps.len() == 0 || starts_with(ps[0], marker) {
        0
    } else {
        1 + run_len(ps.drop_first(), marker)
    }
}

/// The segments joined with `/` between them.
pub open spec fn join(ps: Seq<Seq<char>>) -> Seq<char>
    decreases ps.len(),
{
    if ps.len() == 0 {
        seq![]
    } else if ps.len() == 1 {
        ps[0]
    } else {
        join(ps.drop_last()) + seq!['/'] + ps.last()
    }
}

/// The leading segments of `p` before the first one that begins with
/// `marker`, joined again with `/`.
pub open spec fn prefix_before(p: Seq<char>, marker: char) -> Seq<char> {
    join(segments(p).take(run_len(segments(p), marker) as int))
}

/// The parameters that a path gives to a pattern: each capture name with the
/// path segment in its place; a later capture of the same name wins.
pub open spec fn params_of(ps: Seq<Seq<char>>, us: Seq<Seq<char>>) -> Map<Seq<char>, Seq<char>>
    decreases ps.len(),
{
    if ps.len() == 0 {
        Map::empty()
    } else {
        let m = params_of(ps.drop_last(), us);
        let i = ps.len() - 1;
        if is_capture(ps[i]) && i < us.len() {
            m.insert(ps[i].drop_first(), us[i])
        } else {
            m
        }
    }
}

pub proof fn lemma_run_len(ps: Seq<Seq<char>>, marker: char, j: int)
    requires
        0 <= j <= ps.len(),
        forall|i: int| 0 <= i < j ==> !starts_with(#[trigger] ps[i], marker),
        j == ps.len() || starts_with(ps[j], marker),
    ensures
        run_len(ps, marker) == j,
    decreases j,
{
    if j > 0 {
        assert(!starts_with(ps[0], marker));
        let d = ps.drop_first();
        assert forall|i: int| 0 <= i < j - 1 implies !starts_with(#[trigger] d[i], marker) by {
            assert(d[i] == ps[i + 1]);
        }
        if j < ps.len() {
            assert(d[j - 1] == ps[j]);
        }
        lemma_run_len(d, marker, j - 1);
    }
}

/// The leading segments of `s` before the first that begins with `marker`,
/// joined with `/`.
pub fn prefix_until(s: &str, marker: char) -> (r: String)
    ensures
        r@ == prefix_before(s@, marker),
{
    let cs = chars_of(s);
    let b = split_bounds(&cs, '/');
    let ghost ps = spans(cs@, b@);
    let mut out: Vec<char> = Vec::new();
    let mut j: usize = 0;
    let mut stop = false;
    while j < b.len() && !stop
        invariant
            j <= b@.len(),
            stop ==> j < b@.len() && starts_with(ps[j as int], marker),
            ps == spans(cs@, b@),
            ps == segments(s@),
            forall|k: int| 0 <= k < b@.len() ==> (#[trigger] b@[k]).0 <= b@[k].1 <= cs@.len(),
            forall|i: int| 0 <= i < j ==> !starts_with(#[trigger] ps[i], marker),
            out@ == join(ps.take(j as int)),
        decreases (b.len() - j) as int + if stop {
            0int
        } else {
            1int
        },
    {
        let (lo, hi) = b[j];
        assert(ps[j as int] == cs@.subrange(lo as int, hi as int));
        if lo < hi && cs[lo] == marker {
            stop = true;
            continue;
        }
        let piece = slice_range(&cs, lo, hi);
        let ghost before = out@;
        if j > 0 {
            out.push('/');
        }
        let mut k: usize = 0;
        let ghost mid = out@;
        while k < piece.len()
            invariant
                k <= piece@.len(),
                out@ == mid + piece@.subrange(0, k as int),
            decreases piece.len() - k,
        {
            out.push(piece[k]);
            k = k + 1;
            assert(out@ =~= mid + piece@.subrange(0, k as int));
        }
        proof {
            assert(piece@.subrange(0, piece@.len() as int) =~= piece@);
            let t = ps.take(j + 1);
            assert(t.drop_last() =~= ps.take(j as int));
            assert(t.last() == piece@);
            if j == 0 {
                assert(out@ =~= piece@);
            } else {
                assert(out@ =~= before + seq!['/'] + piece@);
            }
        }
        j = j + 1;
    }
    proof {
        lemma_run_len(ps, marker, j as int);
    }
    string_of(out.as_slice())
}

/// The names of the captures of `s`'s segments, in order.
fn capture_list(s: &Vec<char>, b: &Vec<(usize, usize)>) -> (r: Vec<String>)
    requires
        forall|k: int| 0 <= k < b@.len() ==> (#[trigger] b@[k]).0 <= b@[k].1 <= s@.len(),
    ensures
        r@.map_values(|x: String| x@) == capture_names(spans(s@, b@)),
{
    let ghost ps = spans(s@, b@);
    let mut out: Vec<String> = Vec::new();
    let mut j: usize = 0;
    while j < b.len()
        invariant
            j <= b@.len(),
            ps == spans(s@, b@),
            forall|k: int| 0 <= k < b@.len() ==> (#[trigger] b@[k]).0 <= b@[k].1 <= s@.len(),
            out@.map_values(|x: String| x@) == capture_names(ps.take(j as int)),
        decreases b.len() - j,
    {
        let (lo, hi) = b[j];
        let ghost t = ps.take(j + 1);
        proof {
            assert(t.drop_last() =~= ps.take(j as int));
            assert(t.last() == s@.subrange(lo as int, hi as int));
        }
        if lo < hi && s[lo] == ':' {
            let name = substring(s, lo + 1, hi);
            let ghost before = out@;
            out.push(name);
            proof {
                assert(s@.subrange(lo as int, hi as int).drop_first() =~= s@.subrange(lo + 1, hi as int));
                assert(out@.map_values(|x: String| x@) =~= before.map_values(|x: String| x@).push(name@));
            }
        }
        j = j + 1;
    }
    assert(ps.take(b@.len() as int) =~= ps);
    out
}

/// Whether the pattern's segments match the path's.
fn match_segments(p: &Vec<char>, pb: &Vec<(usize, usize)>, u: &Vec<char>, ub: &Vec<(usize, usize)>) -> (r: bool)
    requires
        forall|k: int| 0 <= k < pb@.len() ==> (#[trigger] pb@[k]).0 <= pb@[k].1 <= p@.len(),
        forall|k: int| 0 <= k < ub@.len() ==> (#[trigger] ub@[k]).0 <= ub@[k].1 <= u@.len(),
    ensures
        r == segments_match(spans(p@, pb@), spans(u@, ub@)),
{
    let ghost ps = spans(p@, pb@);
    let ghost us = spans(u@, ub@);
    if pb.len() != ub.len() {
        return false;
    }
    let mut i: usize = 0;
    while i < pb.len()
        invariant
            i <= pb@.len() == ub@.len(),
            ps == spans(p@, pb@),
            us == spans(u@, ub@),
            forall|k: int| 0 <= k < pb@.len() ==> (#[trigger] pb@[k]).0 <= pb@[k].1 <= p@.len(),
            forall|k: int| 0 <= k < ub@.len() ==> (#[trigger] ub@[k]).0 <= ub@[k].1 <= u@.len(),
            forall|k: int|
                0 <= k < i ==> if is_capture(#[trigger] ps[k]) {
                    us[k].len() > 0
                } else {
                    ps[k] == us[k]
                },
        decreases pb.len() - i,
    {
        let (plo, phi) = pb[i];
        let (ulo, uhi) = ub[i];
        assert(ps[i as int] == p@.subrange(plo as int, phi as int));
        assert(us[i as int] == u@.subrange(ulo as int, uhi as int));
        if plo < phi && p[plo] == ':' {
            if ulo == uhi {
                return false;
            }
        } else {
            let a = slice_range(p, plo, phi);
            let c = slice_range(u, ulo, uhi);
            if !chars_eq(&a, &c) {
                return false;
            }
        }
        i = i + 1;
    }
    true
}

/// The parameters that the path's segments give to the pattern's.
fn collect_params(p: &Vec<char>, pb: &Vec<(usize, usize)>, u: &Vec<char>, ub: &Vec<(usize, usize)>) -> (r: StrMap)
    requires
        forall|k: int| 0 <= k < pb@.len() ==> (#[trigger] pb@[k]).0 <= pb@[k].1 <= p@.len(),
        forall|k: int| 0 <= k < ub@.len() ==> (#[trigger] ub@[k]).0 <= ub@[k].1 <= u@.len(),
    ensures
        r@ == params_of(spans(p@, pb@), spans(u@, ub@)),
{
    let ghost ps = spans(p@, pb@);
    let ghost us = spans(u@, ub@);
    let mut m = StrMap::new();
    let mut i: usize = 0;
    while i < pb.len()
        invariant
            i <= pb@.len(),
            ps == spans(p@, pb@),
            us == spans(u@, ub@),
            forall|k: int| 0 <= k < pb@.len() ==> (#[trigger] pb@[k]).0 <= pb@[k].1 <= p@.len(),
            forall|k: int| 0 <= k < ub@.len() ==> (#[trigger] ub@[k]).0 <= ub@[k].1 <= u@.len(),
            m@ == params_of(ps.take(i as int), us),
        decreases pb.len() - i,
    {
        let (plo, phi) = pb[i];
        let ghost t = ps.take(i + 1);
        proof {
            assert(t.drop_last() =~= ps.take(i as int));
            assert(t[i as int] == p@.subrange(plo as int, phi as int));
        }
        if plo < phi && p[plo] == ':' && i < ub.len() {
            let (ulo, uhi) = ub[i];
            let name = substring(p, plo + 1, phi);
            let value = substring(u, ulo, uhi);
            proof {
                assert(p@.subrange(plo as int, phi as int).drop_first() =~= p@.subrange(plo + 1, phi as int));
                assert(us[i as int] == u@.subrange(ulo as int, uhi as int));
            }
            m.insert(name, value);
        }
        i = i + 1;
    }
    assert(ps.take(pb@.len() as int) =~= ps);
    m
}

/// The parameters that `path` gives to the captures of `pattern`.
pub fn extract_params(pattern: &str, path: &str) -> (r: StrMap)
    ensures
        r@ == params_of(segments(pattern@), segments(path@)),
{
    let p = chars_of(pattern);
    let u = chars_of(path);
    let pb = split_bounds(&p, '/');
    let ub = split_bounds(&u, '/');
    collect_params(&p, &pb, &u, &ub)
}

/// One entry of the route table.
pub struct Route<H> {
    pub pattern: String,
    /// The literal segments before the first capture, joined with `/`: the
    /// key under which route-scoped middleware is found.
    pub raw_path: String,
    /// The capture names, in pattern order.
    pub path_params: Vec<String>,
    pub method: HttpMethod,
    pub handler: H,
}

impl<H> Route<H> {
    /// The route's capture names as character sequences.
    pub open spec fn param_names(&self) -> Seq<Seq<char>> {
        self.path_params@.map_values(|x: String| x@)
    }

    /// A route whose prefix and capture names are those of `pattern`.
    pub fn new(pattern: &str, method: HttpMethod, handler: H) -> (r: Route<H>)
        ensures
            r.pattern@ == pattern@,
            r.raw_path@ == prefix_before(pattern@, ':'),
            r.param_names() == capture_names(segments(pattern@)),
            r.method == method,
            r.handler == handler,
    {
        let cs = chars_of(pattern);
        let b = split_bounds(&cs, '/');
        let path_params = capture_list(&cs, &b);
        let raw_path = prefix_until(pattern, ':');
        Route { pattern: string_of(cs.as_slice()), raw_path, path_params, method, handler }
    }

    /// Whether `path` matches this route's pattern.
    pub fn matches(&self, path: &str) -> (r: bool)
        ensures
            r == path_matches(self.pattern@, path@),
    {
        let p = chars_of(self.pattern.as_str());
        let u = chars_of(path);
        let pb = split_bounds(&p, '/');
        let ub = split_bounds(&u, '/');
        match_segments(&p, &pb, &u, &ub)
    }
}

/// The route answers `method` on `path`.
pub open spec fn route_hits<H>(r: Route<H>, path: Seq<char>, method: HttpMethod) -> bool {
    r.method == method && path_matches(r.pattern@, path)
}

/// `i` is the first route of `rs` that answers `method` on `path`.
pub open spec fn first_hit<H>(rs: Seq<Route<H>>, path: Seq<char>, method: HttpMethod, i: int) -> bool {
    0 <= i < rs.len() && route_hits(rs[i], path, method) && forall|j: int|
        0 <= j < i ==> !route_hits(#[trigger] rs[j], path, method)
}

/// No route of `rs` answers `method` on `path`.
pub open spec fn no_hit<H>(rs: Seq<Route<H>>, path: Seq<char>, method: HttpMethod) -> bool {
    forall|j: int| 0 <= j < rs.len() ==> !route_hits(#[trigger] rs[j], path, method)
}

/// Routes are tried first to last and the first that answers wins: a route
/// that answers while none before it does is the one chosen, and no other.
pub proof fn lemma_first_match_wins<H>(rs: Seq<Route<H>>, path: Seq<char>, method: HttpMethod, i: int)
    requires
        0 <= i < rs.len(),
        route_hits(rs[i], path, method),
        forall|j: int| 0 <= j < i ==> !route_hits(#[trigger] rs[j], path, method),
    ensures
        first_hit(rs, path, method, i),
        forall|k: int| #[trigger] first_hit(rs, path, method, k) ==> k == i,
{
    assert forall|k: int| #[trigger] first_hit(rs, path, method, k) implies k == i by {
        if k < i {
            assert(!route_hits(rs[k], path, method));
        }
        if k > i {
            assert(!route_hits(rs[i], path, method));
        }
    }
}

/// A path with another number of segments than the pattern never matches,
/// whatever the segments hold.
pub proof fn lemma_segment_count_mismatch(pattern: Seq<char>, path: Seq<char>)
    requires
        segments(pattern).len() != segments(path).len(),
    ensures
        !path_matches(pattern, path),
{
}

/// Each capture's name is among the capture names.
proof fn lemma_capture_named(ps: Seq<Seq<char>>, i: int)
    requires
        0 <= i < ps.len(),
        is_capture(ps[i]),
    ensures
        capture_names(ps).contains(ps[i].drop_first()),
    decreases ps.len(),
{
    let d = ps.drop_last();
    if i < ps.len() - 1 {
        assert(d[i] == ps[i]);
        lemma_capture_named(d, i);
        let names = capture_names(d);
        let k = choose|k: int| 0 <= k < names.len() && names[k] == ps[i].drop_first();
        if is_capture(ps.last()) {
            assert(capture_names(ps)[k] == names[k]);
        } else {
            assert(capture_names(ps) == names);
        }
    } else {
        assert(capture_names(ps).last() == ps[i].drop_first());
    }
}

/// For a pattern whose capture names are distinct and a path that it
/// matches, the parameters hold exactly the capture names, one entry for
/// each, and each name is bound to the path segment in its place.
pub proof fn lemma_params_exact(pattern: Seq<char>, path: Seq<char>)
    requires
        path_matches(pattern, path),
        capture_names(segments(pattern)).no_duplicates(),
    ensures
        params_of(segments(pattern), segments(path)).dom() == capture_names(segments(pattern)).to_set(),
        params_of(segments(pattern), segments(path)).dom().len() == capture_names(segments(pattern)).len(),
        forall|i: int|
            0 <= i < segments(pattern).len() && is_capture(#[trigger] segments(pattern)[i]) ==> params_of(
                segments(pattern),
                segments(path),
            )[segments(pattern)[i].drop_first()] == segments(path)[i],
{
    let ps = segments(pattern);
    let us = segments(path);
    lemma_params_distinct(ps, us);
    capture_names(ps).unique_seq_to_set();
}

proof fn lemma_params_distinct(ps: Seq<Seq<char>>, us: Seq<Seq<char>>)
    requires
        ps.len() <= us.len(),
        capture_names(ps).no_duplicates(),
    ensures
        params_of(ps, us).dom() == capture_names(ps).to_set(),
        forall|i: int|
            0 <= i < ps.len() && is_capture(#[trigger] ps[i]) ==> params_of(ps, us)[ps[i].drop_first()]
                == us[i],
    decreases ps.len(),
{
    if ps.len() == 0 {
        assert(capture_names(ps).to_set() =~= Set::empty());
    } else {
        let d = ps.drop_last();
        let n = ps.len() - 1;
        let names = capture_names(d);
        if is_capture(ps.last()) {
            assert(names.no_duplicates()) by {
                assert forall|a: int, b: int| 0 <= a < names.len() && 0 <= b < names.len() && a != b implies names[a] != names[b] by {
                    assert(capture_names(ps)[a] == names[a] && capture_names(ps)[b] == names[b]);
                }
            }
        } else {
            assert(capture_names(ps) == names);
        }
        lemma_params_distinct(d, us);
        let name = ps.last().drop_first();
        if is_capture(ps.last()) {
            assert(!names.contains(name)) by {
                if names.contains(name) {
                    let k = choose|k: int| 0 <= k < names.len() && names[k] == name;
                    assert(capture_names(ps)[k] == capture_names(ps)[names.len() as int]);
                }
            }
            assert(capture_names(ps).to_set() =~= names.to_set().insert(name)) by {
                assert forall|x: Seq<char>| capture_names(ps).to_set().contains(x) <==> names.to_set().insert(name).contains(x) by {
                    if capture_names(ps).contains(x) {
                        let k = choose|k: int| 0 <= k < capture_names(ps).len() && capture_names(ps)[k] == x;
                        if k < names.len() {
                            assert(names[k] == x);
                        }
                    }
                    if names.contains(x) {
                        let k = choose|k: int| 0 <= k < names.len() && names[k] == x;
                        assert(capture_names(ps)[k] == x);
                    }
                    if x == name {
                        assert(capture_names(ps)[names.len() as int] == x);
                    }
                }
            }
            assert forall|i: int| 0 <= i < ps.len() && is_capture(#[trigger] ps[i]) implies params_of(ps, us)[ps[i].drop_first()] == us[i] by {
                if i < n {
                    assert(d[i] == ps[i]);
                    lemma_capture_named(d, i);
                }
            }
        } else {
            assert forall|i: int| 0 <= i < ps.len() && is_capture(#[trigger] ps[i]) implies params_of(ps, us)[ps[i].drop_first()] == us[i] by {
                assert(d[i] == ps[i]);
            }
        }
    }
}

/// The index of the first route that answers a request; routes are tried in
/// the order they were registered.
pub fn first_route<H>(rs: &Vec<Route<H>>, path: &str, method: HttpMethod) -> (r: Option<usize>)
    ensures
        r is None ==> no_hit(rs@, path@, method),
        r is Some ==> first_hit(rs@, path@, method, r->0 as int),
{
    let mut i: usize = 0;
    while i < rs.len()
        invariant
            i <= rs@.len(),
            forall|j: int| 0 <= j < i ==> !route_hits(#[trigger] rs@[j], path@, method),
        decreases rs.len() - i,
    {
        if rs[i].method == method && rs[i].matches(path) {
            return Some(i);
        }
        i = i + 1;
    }
    None
}

/// The route table.
pub struct RouteManager<H> {
    routes: Vec<Route<H>>,
}

/// Routes registered under a common prefix, to be merged into a table.
pub struct RouteGroup<H> {
    prefix: String,
    routes: Vec<Route<H>>,
}

impl<H> RouteManager<H> {
    /// The routes, in registration order.
    pub closed spec fn table(&self) -> Seq<Route<H>> {
        self.routes@
    }

    /// An empty table.
    pub fn new() -> (r: RouteManager<H>)
        ensures
            r.table() == Seq::<Route<H>>::empty(),
    {
        RouteManager { routes: Vec::new() }
    }

    /// The routes, in registration order.
    pub fn routes(&self) -> (r: &Vec<Route<H>>)
        ensures
            r@ == self.table(),
    {
        &self.routes
    }

    /// A new group whose patterns begin with `prefix`.
    pub fn group(&mut self, prefix: &str) -> (r: RouteGroup<H>)
        ensures
            r.prefix()@ == prefix@,
            r.table() == Seq::<Route<H>>::empty(),
            final(self).table() == old(self).table(),
    {
        RouteGroup::new(prefix)
    }

    /// Appends the group's routes, in their order.
    pub fn add_group(&mut self, group: RouteGroup<H>) -> (r: &mut Self)
        ensures
            *final(r) == *final(self),
            r.table() == old(self).table() + group.table(),
    {
        let RouteGroup { prefix: _, routes } = group;
        self.append(routes);
        self
    }

    /// Appends the routes of another table, in their order.
    pub fn apply_routes(&mut self, router: RouteManager<H>) -> (r: &mut Self)
        ensures
            *final(r) == *final(self),
            r.table() == old(self).table() + router.table(),
    {
        let RouteManager { routes } = router;
        self.append(routes);
        self
    }

    fn append(&mut self, routes: Vec<Route<H>>)
        ensures
            final(self).table() == old(self).table() + routes@,
    {
        let mut rest = routes;
        self.routes.append(&mut rest);
    }

    fn add_route(&mut self, route: Route<H>)
        ensures
            final(self).table() == old(self).table().push(route),
    {
        self.routes.push(route);
    }

    /// Registers a `GET` route.
    pub fn get(&mut self, path: &str, handler: H) -> (r: &mut Self)
        ensures
            *final(r) == *final(self),
            r.table().len() == old(self).table().len() + 1,
            r.table().drop_last() == old(self).table(),
            r.table().last().pattern@ == path@,
            r.table().last().raw_path@ == prefix_before(path@, ':'),
            r.table().last().param_names() == capture_names(segments(path@)),
            r.table().last().method == HttpMethod::Get,
            r.table().last().handler == handler,
    {
        self.add_route(Route::new(path, HttpMethod::Get, handler));
        assert(self.routes@.drop_last() =~= old(self).routes@);
        self
    }

    /// Registers a `POST` route.
    pub fn post(&mut self, path: &str, handler: H) -> (r: &mut Self)
        ensures
            *final(r) == *final(self),
            r.table().len() == old(self).table().len() + 1,
            r.table().drop_last() == old(self).table(),
            r.table().last().pattern@ == path@,
            r.table().last().raw_path@ == prefix_before(path@, ':'),
            r.table().last().param_names() == capture_names(segments(path@)),
            r.table().last().method == HttpMethod::Post,
            r.table().last().handler == handler,
    {
        self.add_route(Route::new(path, HttpMethod::Post, handler));
        assert(self.routes@.drop_last() =~= old(self).routes@);
        self
    }

    /// Registers a `PUT` route.
    pub fn put(&mut self, path: &str, handler: H) -> (r: &mut Self)
        ensures
            *final(r) == *final(self),
            r.table().len() == old(self).table().len() + 1,
            r.table().drop_last() == old(self).table(),
            r.table().last().pattern@ == path@,
            r.table().last().raw_path@ == prefix_before(path@, ':'),
            r.table().last().param_names() == capture_names(segments(path@)),
            r.table().last().method == HttpMethod::Put,
            r.table().last().handler == handler,
    {
        self.add_route(Route::new(path, HttpMethod::Put, handler));
        assert(self.routes@.drop_last() =~= old(self).routes@);
        self
    }

    /// Registers a `DELETE` route.
    pub fn delete(&mut self, path: &str, handler: H) -> (r: &mut Self)
        ensures
            *final(r) == *final(self),
            r.table().len() == old(self).table().len() + 1,
            r.table().drop_last() == old(self).table(),
            r.table().last().pattern@ == path@,
            r.table().last().raw_path@ == prefix_before(path@, ':'),
            r.table().last().param_names() == capture_names(segments(path@)),
            r.table().last().method == HttpMethod::Delete,
            r.table().last().handler == handler,
    {
        self.add_route(Route::new(path, HttpMethod::Delete, handler));
        assert(self.routes@.drop_last() =~= old(self).routes@);
        self
    }

    /// The first route, in registration order, whose method is `method` and
    /// whose pattern matches `path`.
    pub fn find_route(&self, path: &str, method: HttpMethod) -> (r: Option<&Route<H>>)
        ensures
            r is None <==> no_hit(self.table(), path@, method),
            r is Some ==> exists|i: int|
                first_hit(self.table(), path@, method, i) && r->0 == self.table()[i],
    {
        match first_route(&self.routes, path, method) {
            Some(i) => {
                assert(first_hit(self.table(), path@, method, i as int));
                Some(&self.routes[i])
            },
            None => None,
        }
    }
}

impl<H> RouteGroup<H> {
    pub closed spec fn table(&self) -> Seq<Route<H>> {
        self.routes@
    }

    pub closed spec fn prefix(&self) -> String {
        self.prefix
    }

    /// An empty group whose patterns begin with `prefix`.
    pub fn new(prefix: &str) -> (r: RouteGroup<H>)
        ensures
            r.prefix()@ == prefix@,
            r.table() == Seq::<Route<H>>::empty(),
    {
        RouteGroup { prefix: string_of(chars_of(prefix).as_slice()), routes: Vec::new() }
    }

    fn add(&mut self, path: &str, method: HttpMethod, handler: H)
        ensures
            final(self).prefix() == old(self).prefix(),
            final(self).table().len() == old(self).table().len() + 1,
            final(self).table().drop_last() == old(self).table(),
            final(self).table().last().pattern@ == old(self).prefix()@ + path@,
            final(self).table().last().raw_path@ == prefix_before(old(self).prefix()@ + path@, ':'),
            final(self).table().last().param_names() == capture_names(
                segments(old(self).prefix()@ + path@),
            ),
            final(self).table().last().method == method,
            final(self).table().last().handler == handler,
    {
        let full = concat(self.prefix.as_str(), path);
        self.routes.push(Route::new(full.as_str(), method, handler));
        assert(self.routes@.drop_last() =~= old(self).routes@);
    }

    /// Registers a `GET` route under the group's prefix.
    pub fn get(&mut self, path: &str, handler: H) -> (r: &mut Self)
        ensures
            *final(r) == *final(self),
            r.prefix() == old(self).prefix(),
            r.table().len() == old(self).table().len() + 1,
            r.table().drop_last() == old(self).table(),
            r.table().last().pattern@ == old(self).prefix()@ + path@,
            r.table().last().raw_path@ == prefix_before(old(self).prefix()@ + path@, ':'),
            r.table().last().param_names() == capture_names(segments(old(self).prefix()@ + path@)),
            r.table().last().method == HttpMethod::Get,
            r.table().last().handler == handler,
    {
        self.add(path, HttpMethod::Get, handler);
        self
    }

    /// Registers a `POST` route under the group's prefix.
    pub fn post(&mut self, path: &str, handler: H) -> (r: &mut Self)
        ensures
            *final(r) == *final(self),
            r.prefix() == old(self).prefix(),
            r.table().len() == old(self).table().len() + 1,
            r.table().drop_last() == old(self).table(),
            r.table().last().pattern@ == old(self).prefix()@ + path@,
            r.table().last().raw_path@ == prefix_before(old(self).prefix()@ + path@, ':'),
            r.table().last().param_names() == capture_names(segments(old(self).prefix()@ + path@)),
            r.table().last().method == HttpMethod::Post,
            r.table().last().handler == handler,
    {
        self.add(path, HttpMethod::Post, handler);
        self
    }

    /// Registers a `PUT` route under the group's prefix.
    pub fn put(&mut self, path: &str, handler: H) -> (r: &mut Self)
        ensures
            *final(r) == *final(self),
            r.prefix() == old(self).prefix(),
            r.table().len() == old(self).table().len() + 1,
            r.table().drop_last() == old(self).table(),
            r.table().last().pattern@ == old(self).prefix()@ + path@,
            r.table().last().raw_path@ == prefix_before(old(self).prefix()@ + path@, ':'),
            r.table().last().param_names() == capture_names(segments(old(self).prefix()@ + path@)),
            r.table().last().method == HttpMethod::Put,
            r.table().last().handler == handler,
    {
        self.add(path, HttpMethod::Put, handler);
        self
    }

    /// Registers a `DELETE` route under the group's prefix.
    pub fn delete(&mut self, path: &str, handler: H) -> (r: &mut Self)
        ensures
            *final(r) == *final(self),
            r.prefix() == old(self).prefix(),
            r.table().len() == old(self).table().len() + 1,
            r.table().drop_last() == old(self).table(),
            r.table().last().pattern@ == old(self).prefix()@ + path@,
            r.table().last().raw_path@ == prefix_before(old(self).prefix()@ + path@, ':'),
            r.table().last().param_names() == capture_names(segments(old(self).prefix()@ + path@)),
            r.table().last().method == HttpMethod::Delete,
            r.table().last().handler == handler,
    {
        self.add(path, HttpMethod::Delete, handler);
        self
    }

    /// A new, empty group nested in this one: its prefix follows this one's.
    pub fn group(&mut self, prefix: &str) -> (r: RouteGroup<H>)
        ensures
            r.prefix()@ == old(self).prefix()@ + prefix@,
            r.table() == Seq::<Route<H>>::empty(),
            final(self).prefix() == old(self).prefix(),
            final(self).table() == old(self).table(),
    {
        let full = concat(self.prefix.as_str(), prefix);
        RouteGroup::new(full.as_str())
    }
}

} // verus!
