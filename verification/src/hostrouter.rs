//! Routing by host name to a router for paths, and the order in which
//! a host's handlers are asked.

use vstd::prelude::*;

use crate::ahtml::meta::str_eq;

verus! {

/// What `str::to_lowercase` gives for `s`.
pub uninterp spec fn lowercase(s: Seq<char>) -> Seq<char>;

/// `str::to_lowercase`: `s` in lower case (Unicode case mapping, which
/// depends on the characters alone).
#[verifier::external_body]
fn str_to_lowercase(s: &str) -> (r: String)
    ensures
        r@ == lowercase(s@),
{
    s.to_lowercase()
}

/// The routes for all hosts, by host name (stored lower-cased), and the
/// route to take when the request names no host or an unknown one.
pub struct HostsRouter<T> {
    routers: Vec<(String, T)>,
    fallback: Option<T>,
}

impl<T> HostsRouter<T> {
    /// The host names, in the order they were added.
    pub closed spec fn keys(&self) -> Seq<Seq<char>> {
        self.routers@.map_values(|e: (String, T)| e.0@)
    }

    /// The routes by (lower-cased) host name.
    pub closed spec fn routes(&self) -> Map<Seq<char>, T> {
        Map::new(
            |k: Seq<char>| self.keys().contains(k),
            |k: Seq<char>| self.routers@[self.keys().index_of(k)].1,
        )
    }

    pub closed spec fn spec_fallback(&self) -> Option<T> {
        self.fallback
    }

    /// No host name is stored twice.
    pub closed spec fn wf(&self) -> bool {
        self.keys().no_duplicates()
    }

    pub fn new(fallback: Option<T>) -> (r: Self)
        ensures
            r.wf(),
            r.routes() == Map::<Seq<char>, T>::empty(),
            r.spec_fallback() == fallback,
    {
        let r = HostsRouter { routers: Vec::new(), fallback };
        assert(r.routes() =~= Map::<Seq<char>, T>::empty());
        r
    }

    /// The position of `key` among the stored host names.
    fn position(&self, key: &str) -> (r: Option<usize>)
        requires
            self.wf(),
        ensures
            match r {
                Some(i) => i < self.routers@.len() && self.keys()[i as int] == key@,
                None => !self.keys().contains(key@),
            },
    {
        let mut i: usize = 0;
        while i < self.routers.len()
            invariant
                i <= self.routers@.len(),
                forall|j: int| 0 <= j < i ==> self.keys()[j] != key@,
            decreases self.routers@.len() - i,
        {
            if str_eq(self.routers[i].0.as_str(), key) {
                return Some(i);
            }
            i = i + 1;
        }
        None
    }

    /// Routes requests for `hostname` (any case) to `hostrouter`; the
    /// route it had is dropped. Returns the router, for chaining.
    pub fn add(&mut self, hostname: &str, hostrouter: T) -> (r: &mut Self)
        requires
            old(self).wf(),
        ensures
            r.wf(),
            r.routes() == old(self).routes().insert(lowercase(hostname@), hostrouter),
            r.spec_fallback() == old(self).spec_fallback(),
            *final(self) == *final(r),
    {
        let _replaced = self.insert_route(hostname, hostrouter);
        self
    }

    /// Routes requests for `hostname` (any case) to `hostrouter`,
    /// replacing (and returning) the route it had.
    fn insert_route(&mut self, hostname: &str, hostrouter: T) -> (r: Option<T>)
        requires
            old(self).wf(),
        ensures
            final(self).wf(),
            final(self).routes() == old(self).routes().insert(lowercase(hostname@), hostrouter),
            r == (if old(self).routes().contains_key(lowercase(hostname@)) {
                Some(old(self).routes()[lowercase(hostname@)])
            } else {
                None
            }),
            final(self).spec_fallback() == old(self).spec_fallback(),
    {
        let key = str_to_lowercase(hostname);
        let ghost k = key@;
        let ghost old_keys = self.keys();
        match self.position(key.as_str()) {
            Some(i) => {
                proof {
                    lemma_index_of_unique(old_keys, i as int);
                }
                let mut entry = (key, hostrouter);
                std::mem::swap(&mut entry, &mut self.routers[i]);
                proof {
                    assert(self.keys() =~= old_keys);
                    assert(self.routes() =~= old(self).routes().insert(k, hostrouter)) by {
                        assert forall|x: Seq<char>| #[trigger] self.keys().contains(x) implies self.routes()[x]
                            == old(self).routes().insert(k, hostrouter)[x] by {
                            let j = choose|j: int| 0 <= j < self.keys().len() && self.keys()[j] == x;
                            lemma_index_of_unique(old_keys, j);
                        }
                    }
                }
                Some(entry.1)
            },
            None => {
                self.routers.push((key, hostrouter));
                proof {
                    assert(self.keys() =~= old_keys.push(k));
                    assert(self.keys().no_duplicates()) by {
                        assert forall|a: int, b: int|
                            0 <= a < self.keys().len() && 0 <= b < self.keys().len() && a != b implies self.keys()[a]
                            != self.keys()[b] by {
                            if a == old_keys.len() as int {
                                assert(self.keys()[b] == old_keys[b]);
                                assert(old_keys.contains(old_keys[b]));
                            } else if b == old_keys.len() as int {
                                assert(self.keys()[a] == old_keys[a]);
                                assert(old_keys.contains(old_keys[a]));
                            } else {
                                assert(self.keys()[a] == old_keys[a]);
                                assert(self.keys()[b] == old_keys[b]);
                            }
                        }
                    }
                    lemma_index_of_unique(self.keys(), old_keys.len() as int);
                    assert forall|x: Seq<char>| #[trigger] self.keys().contains(x) <==> (old_keys.contains(x) || x == k) by {
                        if old_keys.contains(x) {
                            let j = choose|j: int| 0 <= j < old_keys.len() && old_keys[j] == x;
                            assert(self.keys()[j] == x);
                        }
                        if self.keys().contains(x) {
                            let j = choose|j: int| 0 <= j < self.keys().len() && self.keys()[j] == x;
                            if j < old_keys.len() {
                                assert(old_keys[j] == x);
                            }
                        }
                    }
                    assert(self.routes() =~= old(self).routes().insert(k, hostrouter)) by {
                        assert forall|x: Seq<char>| #[trigger] self.keys().contains(x) implies self.routes()[x]
                            == old(self).routes().insert(k, hostrouter)[x] by {
                            let j = choose|j: int| 0 <= j < self.keys().len() && self.keys()[j] == x;
                            lemma_index_of_unique(self.keys(), j);
                            if j < old_keys.len() {
                                lemma_index_of_unique(old_keys, j);
                            }
                        }
                    }
                }
                None
            },
        }
    }

    /// The route for `hostname` (any case), else the fallback.
    pub fn get(&self, hostname: &str) -> (r: Option<&T>)
        requires
            self.wf(),
        ensures
            self.routes().contains_key(lowercase(hostname@)) ==> r == Some(
                &self.routes()[lowercase(hostname@)],
            ),
            !self.routes().contains_key(lowercase(hostname@)) ==> r == match self.spec_fallback() {
                Some(f) => Some(&f),
                None => None::<&T>,
            },
    {
        let key = str_to_lowercase(hostname);
        match self.position(key.as_str()) {
            Some(i) => {
                proof {
                    lemma_index_of_unique(self.keys(), i as int);
                }
                Some(&self.routers[i].1)
            },
            None => match &self.fallback {
                Some(f) => Some(f),
                None => None,
            },
        }
    }
}

/// In a sequence without duplicates, an item's index is its position.
proof fn lemma_index_of_unique<A>(s: Seq<A>, i: int)
    requires
        s.no_duplicates(),
        0 <= i < s.len(),
    ensures
        s.index_of(s[i]) == i,
        s.contains(s[i]),
{
    assert(s.contains(s[i]));
    let j = s.index_of(s[i]);
    assert(0 <= j < s.len() && s[j] == s[i]);
}

/// What a host's handler did with a request.
pub enum HandlerOutcome<R, E> {
    /// It answered.
    Response(R),
    /// It refused; the next one is asked.
    Declined,
    /// It accepted and failed.
    Failed(E),
}

/// What to do next for a request at a host.
#[derive(Debug, Clone, Copy, PartialEq, Eq, Structural)]
pub enum RouteStep {
    /// Ask the handler with this index (the routed ones, in order).
    CallHandler(usize),
    /// Ask the host's fallback handler.
    CallFallback,
    /// All declined: answer 404.
    NotFound,
}

/// The order in which a host's handlers are asked: the routed
/// handlers in order, then the fallback (if any), then 404; the first
/// that does not decline ends it.
pub struct HandlerChain {
    n: usize,
    next: usize,
    has_fallback: bool,
    fallback_asked: bool,
}

impl HandlerChain {
    pub closed spec fn spec_next(&self) -> nat {
        self.next as nat
    }

    pub closed spec fn spec_n(&self) -> nat {
        self.n as nat
    }

    pub closed spec fn spec_fallback_asked(&self) -> bool {
        self.fallback_asked
    }

    pub closed spec fn spec_has_fallback(&self) -> bool {
        self.has_fallback
    }

    /// How many steps were taken (and declined).
    pub closed spec fn steps(&self) -> nat {
        if self.fallback_asked {
            (self.next + 1) as nat
        } else {
            self.next as nat
        }
    }

    pub closed spec fn wf(&self) -> bool {
        &&& self.next <= self.n
        &&& self.fallback_asked ==> self.next == self.n && self.has_fallback
    }

    pub fn new(n: usize, has_fallback: bool) -> (r: Self)
        ensures
            r.wf(),
            r.spec_n() == n,
            r.spec_next() == 0,
            r.spec_has_fallback() == has_fallback,
            !r.spec_fallback_asked(),
            r.steps() == 0,
    {
        HandlerChain { n, next: 0, has_fallback, fallback_asked: false }
    }

    /// The next step, after all earlier ones declined.
    pub fn step(&mut self) -> (r: RouteStep)
        requires
            old(self).wf(),
        ensures
            final(self).wf(),
            final(self).spec_n() == old(self).spec_n(),
            final(self).spec_has_fallback() == old(self).spec_has_fallback(),
            r == chain_step(old(self).spec_n(), old(self).spec_has_fallback(), old(self).steps()),
            r != RouteStep::NotFound ==> final(self).steps() == old(self).steps() + 1,
            old(self).spec_next() < old(self).spec_n() ==> r == RouteStep::CallHandler(
                old(self).spec_next() as usize,
            ) && final(self).spec_next() == old(self).spec_next() + 1
                && final(self).spec_fallback_asked() == old(self).spec_fallback_asked(),
            old(self).spec_next() == old(self).spec_n() && old(self).spec_has_fallback()
                && !old(self).spec_fallback_asked() ==> r == RouteStep::CallFallback
                && final(self).spec_fallback_asked() && final(self).spec_next() == old(self).spec_next(),
            old(self).spec_next() == old(self).spec_n() && (!old(self).spec_has_fallback()
                || old(self).spec_fallback_asked()) ==> r == RouteStep::NotFound && *final(self)
                == *old(self),
    {
        if self.next < self.n {
            let i = self.next;
            self.next = self.next + 1;
            RouteStep::CallHandler(i)
        } else if self.has_fallback && !self.fallback_asked {
            self.fallback_asked = true;
            RouteStep::CallFallback
        } else {
            RouteStep::NotFound
        }
    }
}

/// The step number `k` (from 0) of a fresh chain over `n` handlers.
pub open spec fn chain_step(n: nat, has_fallback: bool, k: nat) -> RouteStep {
    if k < n {
        RouteStep::CallHandler(k as usize)
    } else if k == n && has_fallback {
        RouteStep::CallFallback
    } else {
        RouteStep::NotFound
    }
}

/// After routing `hostname` to `x`, every spelling of the host name
/// that lower-cases alike is routed to `x`, and every other host keeps
/// its route.
pub proof fn lemma_add_then_get<T>(
    before: &HostsRouter<T>,
    after: &HostsRouter<T>,
    hostname: Seq<char>,
    x: T,
    other: Seq<char>,
)
    requires
        after.routes() == before.routes().insert(lowercase(hostname), x),
    ensures
        lowercase(other) == lowercase(hostname) ==> after.routes().contains_key(lowercase(other))
            && after.routes()[lowercase(other)] == x,
        lowercase(other) != lowercase(hostname) ==> (after.routes().contains_key(lowercase(other))
            == before.routes().contains_key(lowercase(other)) && (before.routes().contains_key(
            lowercase(other),
        ) ==> after.routes()[lowercase(other)] == before.routes()[lowercase(other)])),
{
}

} // verus!
