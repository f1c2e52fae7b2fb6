//! The server: a route table with one matcher per method, the handlers it
//! points to, and the ordered middleware chain.
use crate::chain::{Next, Terminal};
use crate::matcher::{
    free_of_nul, pattern_accepted, recognized, router_add, router_new, router_recognize, routes_of,
};
use crate::method::{normalize_method, upper_of};
use crate::params::Params;
use route_recognizer::Router;
use vstd::prelude::*;

verus! {

/// The routes registered under one canonical method name.
struct MethodTable {
    method: String,
    router: Router<usize>,
}

/// What the route table answers for the routes of one method: nothing when
/// the method has none, else what the matcher recognizes.
pub open spec fn resolution(routes: Seq<(Seq<char>, usize)>, path: Seq<char>) -> Option<
    (usize, Seq<(Seq<char>, Seq<char>)>),
> {
    if routes.len() == 0 {
        None
    } else {
        recognized(routes, path)
    }
}

spec fn slot_of(table: Seq<MethodTable>, method: Seq<char>, i: int) -> bool {
    0 <= i < table.len() && table[i].method@ == method
}

spec fn methods_unique(table: Seq<MethodTable>) -> bool {
    forall|i: int, j: int|
        0 <= i < j < table.len() ==> #[trigger] table[i].method@ != #[trigger] table[j].method@
}

/// The routes of a table under one method name.
spec fn table_routes(table: Seq<MethodTable>, method: Seq<char>) -> Seq<(Seq<char>, usize)> {
    if exists|i: int| slot_of(table, method, i) {
        routes_of(table[choose|i: int| slot_of(table, method, i)].router)
    } else {
        Seq::empty()
    }
}

proof fn lemma_routes_at(table: Seq<MethodTable>, method: Seq<char>, i: int)
    requires
        methods_unique(table),
        slot_of(table, method, i),
    ensures
        table_routes(table, method) == routes_of(table[i].router),
{
    let j = choose|j: int| slot_of(table, method, j);
    assert(slot_of(table, method, j));
    if i < j {
        assert(table[i].method@ != table[j].method@);
    } else if j < i {
        assert(table[j].method@ != table[i].method@);
    }
}

/// A table that keeps every method of `pre` in place, changes no router but
/// the one under `key`, and appends only tables for `key`, keeps the routes
/// of every other method.
proof fn lemma_other_methods_kept(pre: Seq<MethodTable>, post: Seq<MethodTable>, key: Seq<char>)
    requires
        methods_unique(pre),
        methods_unique(post),
        pre.len() <= post.len(),
        forall|j: int| 0 <= j < pre.len() ==> #[trigger] post[j].method@ == pre[j].method@,
        forall|j: int|
            0 <= j < pre.len() && pre[j].method@ != key ==> #[trigger] post[j].router
                == pre[j].router,
        forall|j: int| pre.len() <= j < post.len() ==> #[trigger] post[j].method@ == key,
    ensures
        forall|m: Seq<char>|
            m != key ==> #[trigger] table_routes(post, m) == table_routes(pre, m),
{
    assert forall|m: Seq<char>| m != key implies #[trigger] table_routes(post, m)
        == table_routes(pre, m) by {
        if exists|j: int| slot_of(pre, m, j) {
            let j = choose|j: int| slot_of(pre, m, j);
            assert(post[j].method@ == pre[j].method@);
            lemma_routes_at(pre, m, j);
            lemma_routes_at(post, m, j);
        } else {
            assert forall|j: int| !slot_of(post, m, j) by {
                if 0 <= j < pre.len() {
                    assert(!slot_of(pre, m, j));
                    assert(post[j].method@ == pre[j].method@);
                } else if pre.len() <= j < post.len() {
                    assert(post[j].method@ == key);
                }
            }
        }
    }
}

/// Routes, handlers and middleware, filled in by registration before serving.
pub struct Server<H, M> {
    table: Vec<MethodTable>,
    handlers: Vec<H>,
    middlewares: Vec<M>,
}

impl<H, M> Server<H, M> {
    /// The registered handlers, indexed by the routes.
    pub closed spec fn handlers_spec(&self) -> Seq<H> {
        self.handlers@
    }

    /// The registered middleware, in registration order.
    pub closed spec fn middlewares_spec(&self) -> Seq<M> {
        self.middlewares@
    }

    /// The routes under a canonical method name, in registration order, as
    /// (pattern, handler index).
    pub closed spec fn routes(&self, method: Seq<char>) -> Seq<(Seq<char>, usize)> {
        table_routes(self.table@, method)
    }

    /// Method names are unique in the table, each holds a route, and every
    /// route points to a registered handler.
    pub closed spec fn wf(&self) -> bool {
        &&& methods_unique(self.table@)
        &&& forall|i: int|
            0 <= i < self.table@.len() ==> routes_of(#[trigger] self.table@[i].router).len() > 0
        &&& forall|i: int, k: int|
            0 <= i < self.table@.len() && 0 <= k < routes_of(self.table@[i].router).len()
                ==> (#[trigger] routes_of(#[trigger] self.table@[i].router)[k]).1
                < self.handlers@.len()
    }

    proof fn lemma_routes_handlers(&self, method: Seq<char>)
        requires
            self.wf(),
        ensures
            forall|k: int|
                0 <= k < self.routes(method).len() ==> (#[trigger] self.routes(method)[k]).1
                    < self.handlers@.len(),
    {
        if exists|i: int| slot_of(self.table@, method, i) {
            let i = choose|i: int| slot_of(self.table@, method, i);
            assert forall|k: int| 0 <= k < self.routes(method).len() implies (
            #[trigger] self.routes(method)[k]).1 < self.handlers@.len() by {
                assert(routes_of(self.table@[i].router)[k].1 < self.handlers@.len());
            }
        }
    }

    /// A server with no route and no middleware.
    pub fn new() -> (r: Self)
        ensures
            r.wf(),
            r.handlers_spec() == Seq::<H>::empty(),
            r.middlewares_spec() == Seq::<M>::empty(),
            forall|m: Seq<char>| #[trigger] r.routes(m) == Seq::<(Seq<char>, usize)>::empty(),
    {
        let r = Server { table: Vec::new(), handlers: Vec::new(), middlewares: Vec::new() };
        assert(r.handlers@ =~= Seq::<H>::empty());
        assert(r.middlewares@ =~= Seq::<M>::empty());
        r
    }

    /// Index of the table holding `method`, if any.
    fn find_table(&self, method: &String) -> (r: Option<usize>)
        ensures
            match r {
                Some(i) => slot_of(self.table@, method@, i as int),
                None => !exists|i: int| slot_of(self.table@, method@, i),
            },
    {
        let mut i: usize = 0;
        while i < self.table.len()
            invariant
                i <= self.table@.len(),
                forall|j: int| 0 <= j < i ==> !slot_of(self.table@, method@, j),
            decreases self.table@.len() - i,
        {
            if self.table[i].method == *method {
                return Some(i);
            }
            i = i + 1;
        }
        None
    }

    /// Appends `middleware` to the chain; it runs after those already there.
    pub fn middleware(&mut self, middleware: M)
        requires
            old(self).wf(),
        ensures
            final(self).wf(),
            final(self).middlewares_spec() == old(self).middlewares_spec().push(middleware),
            final(self).handlers_spec() == old(self).handlers_spec(),
            forall|m: Seq<char>| #[trigger] final(self).routes(m) == old(self).routes(m),
    {
        self.middlewares.push(middleware);
    }

    /// Resolves a request: the handler index and captured parameters for
    /// `path` among the routes of `method` (case ignored), or `None` when the
    /// method has no route or none matches.
    pub fn resolve(&self, method: &str, path: &str) -> (r: Option<(usize, Params)>)
        requires
            self.wf(),
            free_of_nul(path@),
        ensures
            match resolution(self.routes(upper_of(method@)), path@) {
                Some((h, ps)) => r matches Some((rh, rp)) && rh == h && rp@ == ps,
                None => r.is_none(),
            },
            r matches Some((h, _)) ==> h < self.handlers_spec().len(),
    {
        let key = normalize_method(method);
        match self.find_table(&key) {
            None => {
                assert(self.routes(key@) =~= Seq::<(Seq<char>, usize)>::empty());
                None
            },
            Some(i) => {
                proof {
                    lemma_routes_at(self.table@, key@, i as int);
                    self.lemma_routes_handlers(key@);
                }
                match router_recognize(&self.table[i].router, path) {
                    Some((h, pairs)) => {
                        proof {
                            let k = choose|k: int|
                                0 <= k < routes_of(self.table@[i as int].router).len() && (
                                #[trigger] routes_of(self.table@[i as int].router)[k]).1 == h;
                            assert(self.routes(key@)[k].1 < self.handlers@.len());
                        }
                        Some((h, Params::from_pairs(pairs)))
                    },
                    None => None,
                }
            },
        }
    }

    /// Prepares one request: the chain cursor over every registered
    /// middleware, ending in the resolved handler or, failing that, the
    /// not-found handler, together with the captured parameters (none when
    /// not found).
    pub fn dispatch(&self, method: &str, path: &str) -> (r: (Next, Params))
        requires
            self.wf(),
            free_of_nul(path@),
        ensures
            r.0.position() == 0,
            r.0.count() == self.middlewares_spec().len(),
            match resolution(self.routes(upper_of(method@)), path@) {
                Some((h, ps)) => r.0.terminal_spec() == Terminal::Handler(h) && r.1@ == ps,
                None => r.0.terminal_spec() == Terminal::NotFound && r.1@ == Seq::<
                    (Seq<char>, Seq<char>),
                >::empty(),
            },
            r.0.terminal_spec() matches Terminal::Handler(h) ==> h < self.handlers_spec().len(),
    {
        match self.resolve(method, path) {
            Some((h, params)) => (Next::new(Terminal::Handler(h), self.middlewares.len()), params),
            None => (Next::new(Terminal::NotFound, self.middlewares.len()), Params::new()),
        }
    }

    /// The handler registered under index `id`.
    pub fn handler(&self, id: usize) -> (r: &H)
        requires
            id < self.handlers_spec().len(),
        ensures
            *r == self.handlers_spec()[id as int],
    {
        &self.handlers[id]
    }

    /// The middleware at position `i` of the chain.
    pub fn middleware_at(&self, i: usize) -> (r: &M)
        requires
            i < self.middlewares_spec().len(),
        ensures
            *r == self.middlewares_spec()[i as int],
    {
        &self.middlewares[i]
    }

    /// How many handlers are registered.
    pub fn handler_count(&self) -> (r: usize)
        ensures
            r == self.handlers_spec().len(),
    {
        self.handlers.len()
    }

    /// How many middleware are registered.
    pub fn middleware_count(&self) -> (r: usize)
        ensures
            r == self.middlewares_spec().len(),
    {
        self.middlewares.len()
    }

    /// Requests resolve the same under method names with the same upper-case
    /// form, such as `get` and `GET`: methods are compared after upper-casing.
    pub proof fn lemma_method_case_insensitive(&self, a: Seq<char>, b: Seq<char>, path: Seq<char>)
        ensures
            upper_of(a) == upper_of(b) ==> self.routes(upper_of(a)) == self.routes(upper_of(b)),
            upper_of(a) == upper_of(b) ==> resolution(self.routes(upper_of(a)), path)
                == resolution(self.routes(upper_of(b)), path),
    {
    }

    /// Registers `handler` for `path` under `GET`.
    pub fn get(&mut self, path: &str, handler: H)
        requires
            old(self).wf(),
            pattern_accepted(path@),
            free_of_nul(path@),
        ensures
            final(self).wf(),
            final(self).handlers_spec() == old(self).handlers_spec().push(handler),
            final(self).middlewares_spec() == old(self).middlewares_spec(),
            final(self).routes(upper_of("GET"@)) == old(self).routes(upper_of("GET"@)).push(
                (path@, old(self).handlers_spec().len() as usize),
            ),
            forall|m: Seq<char>|
                m != upper_of("GET"@) ==> #[trigger] final(self).routes(m) == old(self).routes(m),
    {
        self.register("GET", path, handler)
    }

    /// Registers `handler` for `path` under `HEAD`.
    pub fn head(&mut self, path: &str, handler: H)
        requires
            old(self).wf(),
            pattern_accepted(path@),
            free_of_nul(path@),
        ensures
            final(self).wf(),
            final(self).handlers_spec() == old(self).handlers_spec().push(handler),
            final(self).middlewares_spec() == old(self).middlewares_spec(),
            final(self).routes(upper_of("HEAD"@)) == old(self).routes(upper_of("HEAD"@)).push(
                (path@, old(self).handlers_spec().len() as usize),
            ),
            forall|m: Seq<char>|
                m != upper_of("HEAD"@) ==> #[trigger] final(self).routes(m) == old(self).routes(m),
    {
        self.register("HEAD", path, handler)
    }

    /// Registers `handler` for `path` under `POST`.
    pub fn post(&mut self, path: &str, handler: H)
        requires
            old(self).wf(),
            pattern_accepted(path@),
            free_of_nul(path@),
        ensures
            final(self).wf(),
            final(self).handlers_spec() == old(self).handlers_spec().push(handler),
            final(self).middlewares_spec() == old(self).middlewares_spec(),
            final(self).routes(upper_of("POST"@)) == old(self).routes(upper_of("POST"@)).push(
                (path@, old(self).handlers_spec().len() as usize),
            ),
            forall|m: Seq<char>|
                m != upper_of("POST"@) ==> #[trigger] final(self).routes(m) == old(self).routes(m),
    {
        self.register("POST", path, handler)
    }

    /// Registers `handler` for `path` under `PUT`.
    pub fn put(&mut self, path: &str, handler: H)
        requires
            old(self).wf(),
            pattern_accepted(path@),
            free_of_nul(path@),
        ensures
            final(self).wf(),
            final(self).handlers_spec() == old(self).handlers_spec().push(handler),
            final(self).middlewares_spec() == old(self).middlewares_spec(),
            final(self).routes(upper_of("PUT"@)) == old(self).routes(upper_of("PUT"@)).push(
                (path@, old(self).handlers_spec().len() as usize),
            ),
            forall|m: Seq<char>|
                m != upper_of("PUT"@) ==> #[trigger] final(self).routes(m) == old(self).routes(m),
    {
        self.register("PUT", path, handler)
    }

    /// Registers `handler` for `path` under `DELETE`.
    pub fn delete(&mut self, path: &str, handler: H)
        requires
            old(self).wf(),
            pattern_accepted(path@),
            free_of_nul(path@),
        ensures
            final(self).wf(),
            final(self).handlers_spec() == old(self).handlers_spec().push(handler),
            final(self).middlewares_spec() == old(self).middlewares_spec(),
            final(self).routes(upper_of("DELETE"@)) == old(self).routes(upper_of("DELETE"@)).push(
                (path@, old(self).handlers_spec().len() as usize),
            ),
            forall|m: Seq<char>|
                m != upper_of("DELETE"@) ==> #[trigger] final(self).routes(m) == old(self).routes(m),
    {
        self.register("DELETE", path, handler)
    }

    /// Registers `handler` for `path` under `CONNECT`.
    pub fn connect(&mut self, path: &str, handler: H)
        requires
            old(self).wf(),
            pattern_accepted(path@),
            free_of_nul(path@),
        ensures
            final(self).wf(),
            final(self).handlers_spec() == old(self).handlers_spec().push(handler),
            final(self).middlewares_spec() == old(self).middlewares_spec(),
            final(self).routes(upper_of("CONNECT"@)) == old(self).routes(upper_of("CONNECT"@)).push(
                (path@, old(self).handlers_spec().len() as usize),
            ),
            forall|m: Seq<char>|
                m != upper_of("CONNECT"@) ==> #[trigger] final(self).routes(m) == old(self).routes(m),
    {
        self.register("CONNECT", path, handler)
    }

    /// Registers `handler` for `path` under `OPTIONS`.
    pub fn options(&mut self, path: &str, handler: H)
        requires
            old(self).wf(),
            pattern_accepted(path@),
            free_of_nul(path@),
        ensures
            final(self).wf(),
            final(self).handlers_spec() == old(self).handlers_spec().push(handler),
            final(self).middlewares_spec() == old(self).middlewares_spec(),
            final(self).routes(upper_of("OPTIONS"@)) == old(self).routes(upper_of("OPTIONS"@)).push(
                (path@, old(self).handlers_spec().len() as usize),
            ),
            forall|m: Seq<char>|
                m != upper_of("OPTIONS"@) ==> #[trigger] final(self).routes(m) == old(self).routes(m),
    {
        self.register("OPTIONS", path, handler)
    }

    /// Registers `handler` for `path` under `TRACE`.
    pub fn trace(&mut self, path: &str, handler: H)
        requires
            old(self).wf(),
            pattern_accepted(path@),
            free_of_nul(path@),
        ensures
            final(self).wf(),
            final(self).handlers_spec() == old(self).handlers_spec().push(handler),
            final(self).middlewares_spec() == old(self).middlewares_spec(),
            final(self).routes(upper_of("TRACE"@)) == old(self).routes(upper_of("TRACE"@)).push(
                (path@, old(self).handlers_spec().len() as usize),
            ),
            forall|m: Seq<char>|
                m != upper_of("TRACE"@) ==> #[trigger] final(self).routes(m) == old(self).routes(m),
    {
        self.register("TRACE", path, handler)
    }

    /// Registers `handler` for `path` under `PATCH`.
    pub fn patch(&mut self, path: &str, handler: H)
        requires
            old(self).wf(),
            pattern_accepted(path@),
            free_of_nul(path@),
        ensures
            final(self).wf(),
            final(self).handlers_spec() == old(self).handlers_spec().push(handler),
            final(self).middlewares_spec() == old(self).middlewares_spec(),
            final(self).routes(upper_of("PATCH"@)) == old(self).routes(upper_of("PATCH"@)).push(
                (path@, old(self).handlers_spec().len() as usize),
            ),
            forall|m: Seq<char>|
                m != upper_of("PATCH"@) ==> #[trigger] final(self).routes(m) == old(self).routes(m),
    {
        self.register("PATCH", path, handler)
    }

    /// Registers `handler` for `path` under `method`, compared after
    /// upper-casing. The handler gets the next index; the route is added after
    /// the routes already under that method, and no other method's routes
    /// change. When a pattern is registered twice under one method, the
    /// matcher answers with the handler registered last.
    pub fn register(&mut self, method: &str, path: &str, handler: H)
        requires
            old(self).wf(),
            pattern_accepted(path@),
            free_of_nul(path@),
        ensures
            final(self).wf(),
            final(self).handlers_spec() == old(self).handlers_spec().push(handler),
            final(self).middlewares_spec() == old(self).middlewares_spec(),
            final(self).routes(upper_of(method@)) == old(self).routes(upper_of(method@)).push(
                (path@, old(self).handlers_spec().len() as usize),
            ),
            forall|m: Seq<char>|
                m != upper_of(method@) ==> #[trigger] final(self).routes(m) == old(self).routes(m),
    {
        let key = normalize_method(method);
        let ghost pre = *old(self);
        let found = self.find_table(&key);
        let id = self.handlers.len();
        self.handlers.push(handler);
        match found {
            Some(i) => {
                router_add(&mut self.table[i].router, path, id);
                proof {
                    assert forall|j: int| 0 <= j < pre.table@.len() implies #[trigger] self.table@[j].method@
                        == pre.table@[j].method@ by {}
                    assert forall|a: int, k: int|
                        0 <= a < self.table@.len() && 0 <= k < routes_of(
                            self.table@[a].router,
                        ).len() implies (#[trigger] routes_of(
                        #[trigger] self.table@[a].router,
                    )[k]).1 < self.handlers@.len() by {
                        if a != i {
                            assert(self.table@[a] == pre.table@[a]);
                        } else if k < routes_of(pre.table@[a].router).len() {
                            assert(routes_of(pre.table@[a].router)[k].1 < pre.handlers@.len());
                        }
                    }
                    lemma_routes_at(pre.table@, key@, i as int);
                    lemma_routes_at(self.table@, key@, i as int);
                    lemma_other_methods_kept(pre.table@, self.table@, key@);
                }
            },
            None => {
                let mut router = router_new();
                router_add(&mut router, path, id);
                self.table.push(MethodTable { method: key, router });
                proof {
                    let n = pre.table@.len() as int;
                    assert(slot_of(self.table@, key@, n));
                    assert(table_routes(pre.table@, key@) =~= Seq::<(Seq<char>, usize)>::empty());
                    assert forall|a: int, b: int|
                        0 <= a < b < self.table@.len() implies #[trigger] self.table@[a].method@
                        != #[trigger] self.table@[b].method@ by {
                        if b == n {
                            assert(!slot_of(pre.table@, key@, a));
                        }
                    }
                    assert forall|a: int, k: int|
                        0 <= a < self.table@.len() && 0 <= k < routes_of(
                            self.table@[a].router,
                        ).len() implies (#[trigger] routes_of(
                        #[trigger] self.table@[a].router,
                    )[k]).1 < self.handlers@.len() by {
                        if a < n {
                            assert(routes_of(pre.table@[a].router)[k].1 < pre.handlers@.len());
                        }
                    }
                    assert forall|j: int| 0 <= j < n implies #[trigger] self.table@[j].method@
                        == pre.table@[j].method@ by {
                        assert(self.table@[j] == pre.table@[j]);
                    }
                    lemma_routes_at(self.table@, key@, n);
                    lemma_other_methods_kept(pre.table@, self.table@, key@);
                }
            },
        }
    }
}

impl<H, M> Default for Server<H, M> {
    fn default() -> (r: Self)
        ensures
            r.wf(),
            r.handlers_spec() == Seq::<H>::empty(),
            r.middlewares_spec() == Seq::<M>::empty(),
            forall|m: Seq<char>| #[trigger] r.routes(m) == Seq::<(Seq<char>, usize)>::empty(),
    {
        Self::new()
    }
}

} // verus!
