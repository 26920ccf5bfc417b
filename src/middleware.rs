//! The middleware pipeline: global middleware, then middleware scoped to the
//! static prefix of the matched route, each of which may end the request.
use vstd::prelude::*;

use crate::handler::{Context, Res};
use crate::routes::{prefix_before, prefix_until, Route};
use crate::text::str_eq;

verus! {

pub type MiddlewareResult = Result<Context, Res>;

/// `r` is a possible result of running the middleware `ms` in order on `c`:
/// each one gets the context the previous one returned, and the first that
/// returns a response ends the run with it.
pub open spec fn outcome<M: Fn(Context) -> MiddlewareResult>(
    ms: Seq<M>,
    c: Context,
    r: MiddlewareResult,
) -> bool
    decreases ms.len(),
{
    if ms.len() == 0 {
        r == Ok::<Context, Res>(c)
    } else {
        exists|mid: MiddlewareResult|
            #[trigger] call_ensures(ms[0], (c,), mid) && match mid {
                Ok(next) => outcome(ms.drop_first(), next, r),
                Err(res) => r == Err::<Context, Res>(res),
            }
    }
}

/// A middleware that answers with a response ends the run: whatever
/// middleware follow it, they do not run and the response stays the same.
pub proof fn lemma_short_circuit<M: Fn(Context) -> MiddlewareResult>(
    first: Seq<M>,
    rest: Seq<M>,
    c: Context,
    e: Res,
)
    requires
        outcome(first, c, Err::<Context, Res>(e)),
    ensures
        outcome(first + rest, c, Err::<Context, Res>(e)),
    decreases first.len(),
{
    if first.len() > 0 {
        let all = first + rest;
        assert(all[0] == first[0]);
        assert(all.drop_first() =~= first.drop_first() + rest);
        let mid = choose|mid: MiddlewareResult|
            #[trigger] call_ensures(first[0], (c,), mid) && match mid {
                Ok(next) => outcome(first.drop_first(), next, Err::<Context, Res>(e)),
                Err(res) => Err::<Context, Res>(e) == Err::<Context, Res>(res),
            };
        match mid {
            Ok(next) => {
                lemma_short_circuit(first.drop_first(), rest, next, e);
            },
            Err(res) => {},
        }
        assert(call_ensures(all[0], (c,), mid));
    }
}

/// Where the middleware at position `j` always answers with a response,
/// every run ends with a response, and that response is one the middleware
/// up to `j` alone give: those after `j` never run.
pub proof fn lemma_stops_at<M: Fn(Context) -> MiddlewareResult>(ms: Seq<M>, j: int, c: Context)
    requires
        0 <= j < ms.len(),
        forall|c2: Context, mid: MiddlewareResult| #[trigger] call_ensures(ms[j], (c2,), mid) ==> mid is Err,
    ensures
        forall|r: MiddlewareResult| #[trigger] outcome(ms, c, r) ==> r is Err && outcome(ms.take(j + 1), c, r),
    decreases j,
{
    assert forall|r: MiddlewareResult| #[trigger] outcome(ms, c, r) implies r is Err && outcome(ms.take(j + 1), c, r) by {
        let t = ms.take(j + 1);
        assert(t[0] == ms[0]);
        let mid = choose|mid: MiddlewareResult|
            #[trigger] call_ensures(ms[0], (c,), mid) && match mid {
                Ok(next) => outcome(ms.drop_first(), next, r),
                Err(res) => r == Err::<Context, Res>(res),
            };
        match mid {
            Ok(next) => {
                if j == 0 {
                    assert(call_ensures(ms[j], (c,), mid));
                } else {
                    let d = ms.drop_first();
                    assert(d[j - 1] == ms[j]);
                    lemma_stops_at(d, j - 1, next);
                    assert(outcome(d, next, r));
                    assert(t.drop_first() =~= d.take(j));
                    assert(call_ensures(t[0], (c,), mid));
                }
            },
            Err(res) => {
                assert(call_ensures(t[0], (c,), mid));
            },
        }
    }
}

/// Where the middleware before position `j` pass the contexts `cs` on, one
/// to the next, and the one at `j` answers `res` on the context it gets, the
/// run ends with `res`: the middleware after `j` never run, and the result is
/// the one that the middleware up to `j` alone give.
pub proof fn lemma_first_answer<M: Fn(Context) -> MiddlewareResult>(
    ms: Seq<M>,
    cs: Seq<Context>,
    j: int,
    res: Res,
)
    requires
        0 <= j < ms.len(),
        cs.len() == j + 1,
        forall|i: int, mid: MiddlewareResult|
            0 <= i < j && #[trigger] call_ensures(ms[i], (cs[i],), mid) ==> mid == Ok::<Context, Res>(cs[i + 1]),
        forall|mid: MiddlewareResult| #[trigger] call_ensures(ms[j], (cs[j],), mid) ==> mid == Err::<Context, Res>(res),
    ensures
        forall|r: MiddlewareResult| #[trigger] outcome(ms, cs[0], r) ==> r == Err::<Context, Res>(res) && outcome(
            ms.take(j + 1),
            cs[0],
            r,
        ),
    decreases j,
{
    assert forall|r: MiddlewareResult| #[trigger] outcome(ms, cs[0], r) implies r == Err::<Context, Res>(res)
        && outcome(ms.take(j + 1), cs[0], r) by {
        let t = ms.take(j + 1);
        assert(t[0] == ms[0]);
        let mid = choose|mid: MiddlewareResult|
            #[trigger] call_ensures(ms[0], (cs[0],), mid) && match mid {
                Ok(next) => outcome(ms.drop_first(), next, r),
                Err(e) => r == Err::<Context, Res>(e),
            };
        assert(call_ensures(t[0], (cs[0],), mid));
        if j > 0 {
            assert(mid == Ok::<Context, Res>(cs[1]));
            let d = ms.drop_first();
            let ds = cs.drop_first();
            assert forall|i: int, m2: MiddlewareResult|
                0 <= i < j - 1 && #[trigger] call_ensures(d[i], (ds[i],), m2) implies m2 == Ok::<Context, Res>(ds[i + 1]) by {
                assert(d[i] == ms[i + 1] && ds[i] == cs[i + 1] && ds[i + 1] == cs[i + 2]);
            }
            assert(d[j - 1] == ms[j] && ds[j - 1] == cs[j]);
            lemma_first_answer(d, ds, j - 1, res);
            assert(ds[0] == cs[1]);
            assert(outcome(d, ds[0], r));
            assert(t.drop_first() =~= d.take(j));
        } else {
            assert(mid == Err::<Context, Res>(res));
        }
    }
}

/// The middleware registered under `key`, in registration order.
pub open spec fn scoped<M>(entries: Seq<(String, M)>, key: Seq<char>) -> Seq<M>
    decreases entries.len(),
{
    if entries.len() == 0 {
        seq![]
    } else if entries.last().0@ == key {
        scoped(entries.drop_last(), key).push(entries.last().1)
    } else {
        scoped(entries.drop_last(), key)
    }
}

pub struct MiddlewareHandler<M> {
    global: Vec<M>,
    route_specific: Vec<(String, M)>,
}

impl<M: Fn(Context) -> MiddlewareResult> MiddlewareHandler<M> {
    /// The global middleware, in registration order.
    pub closed spec fn globals(&self) -> Seq<M> {
        self.global@
    }

    /// The route-scoped middleware with their prefixes, in registration order.
    pub closed spec fn scoped_entries(&self) -> Seq<(String, M)> {
        self.route_specific@
    }

    /// The middleware that run for a route whose static prefix is `key`.
    pub open spec fn chain_for(&self, key: Seq<char>) -> Seq<M> {
        self.globals() + scoped(self.scoped_entries(), key)
    }

    /// Every registered middleware accepts every context.
    pub open spec fn callable(&self) -> bool {
        &&& forall|i: int, c: Context|
            0 <= i < self.globals().len() ==> #[trigger] call_requires(self.globals()[i], (c,))
        &&& forall|i: int, c: Context|
            0 <= i < self.scoped_entries().len() ==> #[trigger] call_requires(
                self.scoped_entries()[i].1,
                (c,),
            )
    }

    /// No middleware.
    pub fn new() -> (r: MiddlewareHandler<M>)
        ensures
            r.globals() == Seq::<M>::empty(),
            r.scoped_entries() == Seq::<(String, M)>::empty(),
    {
        MiddlewareHandler { global: Vec::new(), route_specific: Vec::new() }
    }

    /// Adds a middleware that runs for every route, after those added before.
    pub fn add_global(&mut self, middleware: M)
        ensures
            final(self).globals() == old(self).globals().push(middleware),
            final(self).scoped_entries() == old(self).scoped_entries(),
    {
        self.global.push(middleware);
    }

    /// Adds a middleware for the routes whose static prefix is the part of
    /// `pattern` before its first `*` segment.
    pub fn for_route(&mut self, pattern: &str, middleware: M)
        ensures
            final(self).globals() == old(self).globals(),
            final(self).scoped_entries().len() == old(self).scoped_entries().len() + 1,
            final(self).scoped_entries().drop_last() == old(self).scoped_entries(),
            final(self).scoped_entries().last().0@ == prefix_before(pattern@, '*'),
            final(self).scoped_entries().last().1 == middleware,
    {
        let path = prefix_until(pattern, '*');
        self.route_specific.push((path, middleware));
        assert(self.route_specific@.drop_last() =~= old(self).route_specific@);
    }

    /// Runs the global middleware in order, then those scoped to the route's
    /// static prefix; the first one that returns a response ends the run.
    pub fn run<H>(&self, context: Context, route: &Route<H>) -> (r: MiddlewareResult)
        requires
            self.callable(),
        ensures
            outcome(self.chain_for(route.raw_path@), context, r),
    {
        let ghost key = route.raw_path@;
        let ghost ms = self.chain_for(key);
        let ghost g = self.global@;
        let ghost es = self.route_specific@;
        let ghost c0 = context;
        let mut cur = context;
        let mut i: usize = 0;
        assert(ms.skip(0) =~= ms);
        while i < self.global.len()
            invariant
                i <= g.len(),
                g == self.global@,
                es == self.route_specific@,
                ms == self.chain_for(key),
                self.callable(),
                key == route.raw_path@,
                c0 == context,
                forall|r: MiddlewareResult| outcome(ms.skip(i as int), cur, r) ==> #[trigger] outcome(ms, c0, r),
            decreases self.global.len() - i,
        {
            let ghost before = cur;
            assert(ms[i as int] == g[i as int]);
            let res = step(&self.global[i], cur);
            proof {
                lemma_outcome_step(ms, i as int, before, res, c0);
            }
            match res {
                Ok(next) => {
                    cur = next;
                },
                Err(e) => {
                    return Err(e);
                },
            }
            i = i + 1;
        }
        let mut k: usize = 0;
        assert(es.take(0) =~= Seq::<(String, M)>::empty());
        while k < self.route_specific.len()
            invariant
                k <= es.len(),
                g == self.global@,
                es == self.route_specific@,
                ms == self.chain_for(key),
                self.callable(),
                key == route.raw_path@,
                c0 == context,
                forall|r: MiddlewareResult|
                    outcome(ms.skip((g.len() + scoped(es.take(k as int), key).len()) as int), cur, r)
                        ==> #[trigger] outcome(ms, c0, r),
            decreases self.route_specific.len() - k,
        {
            let ghost before = cur;
            let ghost pos: int = (g.len() + scoped(es.take(k as int), key).len()) as int;
            proof {
                let t = es.take(k + 1);
                assert(t.drop_last() =~= es.take(k as int));
                lemma_scoped_prefix(es, key, k + 1, es.len() as int);
                assert(es.take(es.len() as int) =~= es);
            }
            if str_eq(self.route_specific[k].0.as_str(), route.raw_path.as_str()) {
                assert(ms[pos] == es[k as int].1);
                let res = step(&self.route_specific[k].1, cur);
                proof {
                    lemma_outcome_step(ms, pos, before, res, c0);
                }
                match res {
                    Ok(next) => {
                        cur = next;
                    },
                    Err(e) => {
                        return Err(e);
                    },
                }
            }
            k = k + 1;
        }
        proof {
            assert(es.take(es.len() as int) =~= es);
            assert(ms.skip(ms.len() as int) =~= Seq::<M>::empty());
        }
        Ok(cur)
    }
}

/// Calls one middleware.
fn step<M: Fn(Context) -> MiddlewareResult>(f: &M, c: Context) -> (r: MiddlewareResult)
    requires
        call_requires(*f, (c,)),
    ensures
        call_ensures(*f, (c,), r),
{
    f(c)
}

/// One middleware ran at position `pos` of the chain.
proof fn lemma_outcome_step<M: Fn(Context) -> MiddlewareResult>(
    ms: Seq<M>,
    pos: int,
    cur: Context,
    res: MiddlewareResult,
    c0: Context,
)
    requires
        0 <= pos < ms.len(),
        call_ensures(ms[pos], (cur,), res),
        forall|r: MiddlewareResult| outcome(ms.skip(pos), cur, r) ==> #[trigger] outcome(ms, c0, r),
    ensures
        match res {
            Ok(next) => forall|r: MiddlewareResult|
                outcome(ms.skip(pos + 1), next, r) ==> #[trigger] outcome(ms, c0, r),
            Err(e) => outcome(ms, c0, Err::<Context, Res>(e)),
        },
{
    let rest = ms.skip(pos);
    assert(rest[0] == ms[pos]);
    assert(rest.drop_first() =~= ms.skip(pos + 1));
    match res {
        Ok(next) => {
            assert forall|r: MiddlewareResult| outcome(ms.skip(pos + 1), next, r) implies #[trigger] outcome(ms, c0, r) by {
                assert(call_ensures(rest[0], (cur,), res));
                assert(outcome(rest, cur, r));
            }
        },
        Err(e) => {
            assert(call_ensures(rest[0], (cur,), res));
            assert(outcome(rest, cur, Err::<Context, Res>(e)));
        },
    }
}

/// What is scoped to `key` among the first `k` entries comes first among the
/// first `n`.
proof fn lemma_scoped_prefix<M>(es: Seq<(String, M)>, key: Seq<char>, k: int, n: int)
    requires
        0 <= k <= n <= es.len(),
    ensures
        scoped(es.take(k), key).len() <= scoped(es.take(n), key).len(),
        forall|i: int| 0 <= i < scoped(es.take(k), key).len() ==> scoped(es.take(k), key)[i] == #[trigger] scoped(es.take(n), key)[i],
    decreases n - k,
{
    if k < n {
        lemma_scoped_prefix(es, key, k, n - 1);
        let t = es.take(n);
        assert(t.drop_last() =~= es.take(n - 1));
    }
}

} // verus!
