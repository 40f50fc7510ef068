//! The route table: at most one handler for each path, and finitely many
//! paths.

use vstd::prelude::*;
use vstd::hash_map::StringHashMap;
use crate::html::HTML;
use crate::request::Route;

verus! {

/// The handlers of a server, each under the path that it answers.
///
/// A handler is anything that can be called without arguments, any number of
/// times, and returns a page. The table only holds handlers that may be
/// called unconditionally.
///
/// Looking up borrows the table shared and registering borrows it
/// exclusively: behind a reader-writer lock many requests read at once and
/// none reads while a route is being registered.
#[verifier::reject_recursive_types(H)]
pub struct RouteTable<H: Fn() -> HTML> {
    handlers: StringHashMap<H>,
}

impl<H: Fn() -> HTML> View for RouteTable<H> {
    type V = Map<Seq<char>, H>;

    closed spec fn view(&self) -> Map<Seq<char>, H> {
        if self.handlers@.dom().finite() {
            self.handlers@
        } else {
            Map::empty()
        }
    }
}

/// Registering a handler adds one entry where the route had none, and none
/// where it had one: a table never holds two entries for one route.
pub proof fn lemma_one_entry_per_route<H>(routes: Map<Seq<char>, H>, route: Seq<char>, handler: H)
    requires
        routes.dom().finite(),
    ensures
        routes.insert(route, handler).dom().finite(),
        routes.insert(route, handler).len() == routes.len() + (if routes.contains_key(route) {
            0int
        } else {
            1int
        }),
{
}

impl<H: Fn() -> HTML> RouteTable<H> {
    #[verifier::type_invariant]
    spec fn well_formed(self) -> bool {
        &&& self.handlers@.dom().finite()
        &&& forall|route: Seq<char>| #[trigger]
            self.handlers@.contains_key(route) ==> call_requires(self.handlers@[route], ())
    }

    /// A table has finitely many routes.
    pub proof fn lemma_finite(self)
        ensures
            self@.dom().finite(),
    {
    }

    /// A table without routes.
    pub fn new() -> (table: Self)
        ensures
            table@ == Map::<Seq<char>, H>::empty(),
    {
        RouteTable { handlers: StringHashMap::new() }
    }

    /// Puts `handler` under `route`, in place of the handler that was there.
    pub fn insert(&mut self, route: Route, handler: H)
        requires
            call_requires(handler, ()),
        ensures
            final(self)@ == old(self)@.insert(route@, handler),
            final(self)@.len() == old(self)@.len() + (if old(self)@.contains_key(route@) {
                0int
            } else {
                1int
            }),
    {
        proof {
            use_type_invariant(&*self);
            lemma_one_entry_per_route(self@, route@, handler);
        }
        let mut handlers = StringHashMap::new();
        std::mem::swap(&mut self.handlers, &mut handlers);
        handlers.insert(route, handler);
        std::mem::swap(&mut self.handlers, &mut handlers);
    }

    /// The number of routes.
    pub fn len(&self) -> (count: usize)
        ensures
            count == self@.len(),
            self@.dom().finite(),
    {
        proof {
            use_type_invariant(self);
        }
        self.handlers.len()
    }

    /// The handler under `route`, if there is one.
    pub fn get(&self, route: &str) -> (handler: Option<&H>)
        ensures
            match handler {
                Some(h) => self@.contains_key(route@) && *h == self@[route@] && call_requires(*h, ()),
                None => !self@.contains_key(route@),
            },
    {
        proof {
            use_type_invariant(self);
        }
        self.handlers.get(route)
    }
}

} // verus!
