//! The router: a table of routes kept sorted by key `"METHOD URI"`,
//! looked up by binary search, with a single wildcard-segment fallback.
use crate::text::{
    compare_str, join_strs, join_with, lemma_lex_transitive, lemma_lex_trichotomy, lex_lt,
    split_pat, split_str, KeyOrder,
};
use vstd::prelude::*;

verus! {

/// Failure of route resolution.
#[derive(Debug, PartialEq, Eq, Structural, Clone, Copy)]
pub enum RouteError {
    /// No registered route matches the request, exactly or through the
    /// wildcard fallback.
    NotFound,
}

/// The key a route is registered and looked up under.
pub open spec fn route_key(method: Seq<char>, uri: Seq<char>) -> Seq<char> {
    method + " "@ + uri
}

/// The path with the segment at distance `offset` from the end replaced
/// by the wildcard placeholder.
pub open spec fn wildcard_path(path: Seq<char>, offset: int) -> Seq<char> {
    let segs = split_pat(path, "/"@);
    join_with(segs.update(segs.len() - 1 - offset, "{id}"@), "/"@)
}

/// Mathematical content of one route.
pub struct RouteView {
    pub key: Seq<char>,
    pub handler_fn: u64,
}

/// One registered route: its sort key and an opaque reference to the
/// handler that serves it.
pub struct Route {
    pub key: String,
    pub handler_fn: u64,
}

impl View for Route {
    type V = RouteView;

    open spec fn view(&self) -> RouteView {
        RouteView { key: self.key@, handler_fn: self.handler_fn }
    }
}

impl Route {
    /// A route for `method` and `uri`, keyed `"{method} {uri}"`.
    pub fn new(method: &str, uri: &str, handler_fn: u64) -> (r: Route)
        ensures
            r@.key == route_key(method@, uri@),
            r@.handler_fn == handler_fn,
    {
        let mut key = String::from_str(method);
        key.append(" ");
        key.append(uri);
        Route { key, handler_fn }
    }
}

/// `rs` holds some route with key `k`.
pub open spec fn has_key(rs: Seq<RouteView>, k: Seq<char>) -> bool {
    exists|i: int| 0 <= i < rs.len() && rs[i].key == k
}

/// The keys of `rs` are strictly ascending: sorted, with no duplicates.
pub open spec fn sorted_by_key(rs: Seq<RouteView>) -> bool {
    forall|i: int, j: int| 0 <= i < j < rs.len() ==> lex_lt(rs[i].key, rs[j].key)
}

/// The route table, ordered by key for binary-search lookup.
pub struct Routes {
    routes: Vec<Route>,
}

impl View for Routes {
    type V = Seq<RouteView>;

    closed spec fn view(&self) -> Seq<RouteView> {
        Seq::new(self.routes@.len(), |i: int| self.routes@[i]@)
    }
}

impl Routes {
    /// The table is fit for lookup: keys strictly ascending.
    pub open spec fn wf(&self) -> bool {
        sorted_by_key(self@)
    }

    /// A table holding exactly the given routes, in the given order.
    pub fn new(r: Vec<Route>) -> (s: Routes)
        ensures
            s@.len() == r@.len(),
            forall|i: int| 0 <= i < r@.len() ==> s@[i] == #[trigger] r@[i]@,
    {
        Routes { routes: r }
    }

    /// Append a route at the end of the table, without re-sorting.
    pub fn push(&mut self, r: Route)
        ensures
            final(self)@ == old(self)@.push(r@),
    {
        self.routes.push(r);
        proof {
            assert(self@ =~= old(self)@.push(r@));
        }
    }

    /// Number of registered routes.
    pub fn len(&self) -> (n: usize)
        ensures
            n == self@.len(),
    {
        self.routes.len()
    }

    /// Binary search for the exact key `"{method} {uri}"`: the index of
    /// the route holding it, or the index at which it would be inserted.
    pub fn search_route(&self, method: String, uri: String) -> (r: Result<usize, usize>)
        requires
            self.wf(),
        ensures
            match r {
                Ok(i) => 0 <= i < self@.len() && self@[i as int].key == route_key(method@, uri@),
                Err(i) => {
                    &&& 0 <= i <= self@.len()
                    &&& !has_key(self@, route_key(method@, uri@))
                    &&& forall|j: int|
                        0 <= j < i ==> lex_lt(#[trigger] self@[j].key, route_key(method@, uri@))
                    &&& forall|j: int|
                        i <= j < self@.len() ==> lex_lt(
                            route_key(method@, uri@),
                            #[trigger] self@[j].key,
                        )
                },
            },
    {
        proof {
            reveal_strlit(" ");
        }
        let mut key = String::from_str(method.as_str());
        key.append(" ");
        key.append(uri.as_str());
        self.search_key(&key)
    }

    /// Binary search for `key` among the route keys.
    fn search_key(&self, key: &String) -> (r: Result<usize, usize>)
        requires
            self.wf(),
        ensures
            match r {
                Ok(i) => 0 <= i < self@.len() && self@[i as int].key == key@,
                Err(i) => {
                    &&& 0 <= i <= self@.len()
                    &&& !has_key(self@, key@)
                    &&& forall|j: int| 0 <= j < i ==> lex_lt(#[trigger] self@[j].key, key@)
                    &&& forall|j: int|
                        i <= j < self@.len() ==> lex_lt(key@, #[trigger] self@[j].key)
                },
            },
    {
        let mut lo: usize = 0;
        let mut hi: usize = self.routes.len();
        while lo < hi
            invariant
                0 <= lo <= hi <= self@.len(),
                self.wf(),
                self@.len() == self.routes@.len(),
                forall|j: int| 0 <= j < lo ==> lex_lt(#[trigger] self@[j].key, key@),
                forall|j: int| hi <= j < self@.len() ==> lex_lt(key@, #[trigger] self@[j].key),
            decreases hi - lo,
        {
            let mid = lo + (hi - lo) / 2;
            match compare_str(self.routes[mid].key.as_str(), key.as_str()) {
                KeyOrder::Less => {
                    proof {
                        assert forall|j: int| 0 <= j < mid + 1 implies lex_lt(
                            #[trigger] self@[j].key,
                            key@,
                        ) by {
                            if j < mid {
                                lemma_lex_transitive(self@[j].key, self@[mid as int].key, key@);
                            }
                        }
                    }
                    lo = mid + 1;
                },
                KeyOrder::Equal => {
                    return Ok(mid);
                },
                KeyOrder::Greater => {
                    proof {
                        assert forall|j: int| mid <= j < self@.len() implies lex_lt(
                            key@,
                            #[trigger] self@[j].key,
                        ) by {
                            if j > mid {
                                lemma_lex_transitive(key@, self@[mid as int].key, self@[j].key);
                            }
                        }
                    }
                    hi = mid;
                },
            }
        }
        proof {
            assert forall|i: int| 0 <= i < self@.len() implies self@[i].key != key@ by {
                lemma_lex_trichotomy(self@[i].key, key@);
            }
        }
        Err(lo)
    }

    /// Whether a route with key `"{method} {uri}"` is registered. The
    /// `index` argument plays no part in the answer.
    pub fn is_exist(&self, method: String, uri: String, index: usize) -> (r: bool)
        requires
            self.wf(),
        ensures
            r == has_key(self@, route_key(method@, uri@)),
    {
        let _ = index;
        match self.search_route(method, uri) {
            Ok(_) => true,
            Err(_) => false,
        }
    }

    /// Register a route for `method` and `uri`, keeping the table
    /// sorted. A key already present is rejected: the table is
    /// unchanged and the registration reports failure.
    pub fn add_route(&mut self, method: &str, uri: &str, handler_fn: u64) -> (r: bool)
        requires
            old(self).wf(),
        ensures
            final(self).wf(),
            r == !has_key(old(self)@, route_key(method@, uri@)),
            !r ==> final(self)@ == old(self)@,
            r ==> exists|i: int|
                0 <= i <= old(self)@.len() && final(self)@ == old(self)@.insert(
                    i,
                    RouteView { key: route_key(method@, uri@), handler_fn: handler_fn },
                ),
            has_key(final(self)@, route_key(method@, uri@)),
    {
        let r = Route::new(method, uri, handler_fn);
        match self.search_key(&r.key) {
            Ok(i) => {
                proof {
                    assert(self@[i as int].key == route_key(method@, uri@));
                }
                false
            },
            Err(i) => {
                let ghost prev = self@;
                let ghost rv = r@;
                self.routes.insert(i, r);
                proof {
                    assert(self@ =~= prev.insert(i as int, rv));
                    assert forall|p: int, q: int| 0 <= p < q < self@.len() implies lex_lt(
                        self@[p].key,
                        self@[q].key,
                    ) by {
                        if p < i && q == i {
                        } else if p == i && q > i {
                        } else if q < i {
                        } else if p > i {
                        } else if p < i && q > i {
                            lemma_lex_transitive(self@[p].key, rv.key, self@[q].key);
                        }
                    }
                    assert(has_key(self@, rv.key)) by {
                        assert(self@[i as int].key == rv.key);
                    }
                }
                true
            },
        }
    }

    /// The route at position `i` of the table.
    pub fn get_route(&self, i: usize) -> (r: &Route)
        requires
            i < self@.len(),
        ensures
            r@ == self@[i as int],
    {
        &self.routes[i]
    }

    /// Match `(method, path)` to a registered route: first by the exact
    /// key, then, failing that, with the path segment at distance
    /// `offset` from the end replaced by the wildcard placeholder. An
    /// exact match always takes precedence over a wildcard match.
    pub fn resolve(&self, method: &str, path: &str, offset: usize) -> (r: Result<
        usize,
        RouteError,
    >)
        requires
            self.wf(),
        ensures
            has_key(self@, route_key(method@, path@)) ==> match r {
                Ok(i) => 0 <= i < self@.len() && self@[i as int].key == route_key(method@, path@),
                Err(_) => false,
            },
            !has_key(self@, route_key(method@, path@)) ==> {
                let segs = split_pat(path@, "/"@);
                if offset < segs.len() && has_key(
                    self@,
                    route_key(method@, wildcard_path(path@, offset as int)),
                ) {
                    match r {
                        Ok(i) => 0 <= i < self@.len() && self@[i as int].key == route_key(
                            method@,
                            wildcard_path(path@, offset as int),
                        ),
                        Err(_) => false,
                    }
                } else {
                    r == Err::<usize, RouteError>(RouteError::NotFound)
                }
            },
    {
        proof {
            reveal_strlit("/");
            reveal_strlit("{id}");
        }
        let mut key = String::from_str(method);
        key.append(" ");
        key.append(path);
        match self.search_key(&key) {
            Ok(i) => Ok(i),
            Err(_) => {
                let mut segs = split_str(path, "/");
                let l = segs.len();
                if offset >= l {
                    return Err(RouteError::NotFound);
                }
                let ghost old_segs = segs.deep_view();
                segs.set(l - 1 - offset, String::from_str("{id}"));
                proof {
                    assert(segs.deep_view() =~= old_segs.update(
                        old_segs.len() - 1 - offset,
                        "{id}"@,
                    ));
                }
                let wuri = join_strs(&segs, "/");
                let mut wkey = String::from_str(method);
                wkey.append(" ");
                wkey.append(wuri.as_str());
                match self.search_key(&wkey) {
                    Ok(i) => Ok(i),
                    Err(_) => Err(RouteError::NotFound),
                }
            },
        }
    }
}

} // verus!
