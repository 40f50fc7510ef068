//! The server: its configuration, its routes, and what it answers.

use vstd::prelude::*;
use vstd::utf8::{encode_utf8, is_ascii_chars_encode_utf8};
use crate::html::{HTML, lemma_strip_nothing, normalized};
use crate::request::{MalformedRequest, Route, read_request, requested_route};
use crate::response::{BLANK_LINE, RESPONSE_HEAD, decimal, framed, response_for, send_response};
use crate::routes::RouteTable;

verus! {

/// The body that is sent where neither the requested route nor a route for
/// pages that were not found has a handler. It goes out under the status
/// `200 OK`, as every page does.
pub const DEFAULT_404_PAGE: &'static str = "<h1>404 Not Found</h1>";

/// The address that stands for all interfaces.
pub const UNSPECIFIED: [u8; 4] = [0, 0, 0, 0];

/// What the accept loop does with the outcome of one accept.
#[derive(Debug, Clone, Copy, PartialEq, Eq, Structural)]
pub enum Dispatch {
    /// The accept failed: go on with the next one.
    Skip,
    /// Handle the connection in the accept loop, before the next accept.
    Inline,
    /// Hand the connection to a unit of its own and accept the next at once.
    Spawn,
}

/// A server that is configured but owns no socket.
#[verifier::reject_recursive_types(H)]
pub struct WebServer<H: Fn() -> HTML> {
    /// The handlers, by path.
    pub routes: RouteTable<H>,
    /// Whether each connection is handled by a unit of its own.
    pub threading: bool,
    /// The IPv4 address to listen on.
    pub ip: [u8; 4],
    /// The port to listen on.
    pub port: u16,
    /// The route whose handler answers requests for unregistered paths.
    pub default_route_404: Option<Route>,
}

/// The handler that answers `route`: its own; else that of `not_found`, where
/// one is configured and registered; else none, and the built-in page is sent.
pub open spec fn resolution<H>(
    routes: Map<Seq<char>, H>,
    not_found: Option<Seq<char>>,
    route: Seq<char>,
) -> Option<H> {
    if routes.contains_key(route) {
        Some(routes[route])
    } else {
        match not_found {
            Some(fallback) if routes.contains_key(fallback) => Some(routes[fallback]),
            _ => None,
        }
    }
}

/// `response` is the response for a page that `handler` may return.
pub open spec fn answered_by<H: Fn() -> HTML>(handler: H, response: Seq<char>) -> bool {
    exists|html: HTML| call_ensures(handler, (), html) && response == response_for(html@)
}

/// `response` is a response to a request for `route`, on a server with
/// `routes` and `not_found`: the response for a page of the handler that
/// answers `route`, or else the built-in page, framed as it stands.
pub open spec fn responds<H: Fn() -> HTML>(
    routes: Map<Seq<char>, H>,
    not_found: Option<Seq<char>>,
    route: Seq<char>,
    response: Seq<char>,
) -> bool {
    match resolution(routes, not_found, route) {
        Some(handler) => answered_by(handler, response),
        None => response == framed(DEFAULT_404_PAGE@),
    }
}

/// The built-in page is sent as it stands, with a `Content-Length` of 22.
pub proof fn lemma_default_page_is_clean()
    ensures
        normalized(DEFAULT_404_PAGE@) == DEFAULT_404_PAGE@,
        framed(DEFAULT_404_PAGE@) == RESPONSE_HEAD@ + "22"@ + BLANK_LINE@ + DEFAULT_404_PAGE@
            + BLANK_LINE@,
{
    reveal_strlit("<h1>404 Not Found</h1>");
    reveal_strlit("22");
    lemma_strip_nothing(DEFAULT_404_PAGE@);
    is_ascii_chars_encode_utf8(DEFAULT_404_PAGE@);
    reveal_with_fuel(decimal, 2);
}

/// A request for a registered route is answered by the handler of that
/// route: the body is a page of that handler, cleaned up, after the status
/// line `HTTP/1.1 200 OK` and a `Content-Length` that counts the bytes of that
/// body.
pub proof fn lemma_registered_route<H: Fn() -> HTML>(
    routes: Map<Seq<char>, H>,
    not_found: Option<Seq<char>>,
    route: Seq<char>,
    response: Seq<char>,
)
    requires
        routes.contains_key(route),
        responds(routes, not_found, route, response),
    ensures
        exists|html: HTML|
            call_ensures(routes[route], (), html) && response == RESPONSE_HEAD@ + decimal(
                encode_utf8(normalized(html@)).len(),
            ) + BLANK_LINE@ + normalized(html@) + BLANK_LINE@,
{
    let html = choose|html: HTML|
        call_ensures(routes[route], (), html) && response == response_for(html@);
    assert(call_ensures(routes[route], (), html) && response == RESPONSE_HEAD@ + decimal(
        encode_utf8(normalized(html@)).len(),
    ) + BLANK_LINE@ + normalized(html@) + BLANK_LINE@);
}

/// Without a route for pages that were not found, a request for an
/// unregistered path gets the built-in page as its body, unchanged, under the
/// same status line.
pub proof fn lemma_unregistered_route<H: Fn() -> HTML>(
    routes: Map<Seq<char>, H>,
    route: Seq<char>,
    response: Seq<char>,
)
    requires
        !routes.contains_key(route),
        responds(routes, None, route, response),
    ensures
        response == RESPONSE_HEAD@ + "22"@ + BLANK_LINE@ + DEFAULT_404_PAGE@ + BLANK_LINE@,
{
    lemma_default_page_is_clean();
}

/// Where the route for pages that were not found is registered, its handler
/// answers the requests for unregistered paths.
pub proof fn lemma_not_found_route<H: Fn() -> HTML>(
    routes: Map<Seq<char>, H>,
    fallback: Seq<char>,
    route: Seq<char>,
    response: Seq<char>,
)
    requires
        !routes.contains_key(route),
        routes.contains_key(fallback),
        responds(routes, Some(fallback), route, response),
    ensures
        answered_by(routes[fallback], response),
{
}

/// Where the route for pages that were not found is not registered itself,
/// requests for unregistered paths get the built-in page.
pub proof fn lemma_not_found_route_missing<H: Fn() -> HTML>(
    routes: Map<Seq<char>, H>,
    fallback: Seq<char>,
    route: Seq<char>,
    response: Seq<char>,
)
    requires
        !routes.contains_key(route),
        !routes.contains_key(fallback),
        responds(routes, Some(fallback), route, response),
    ensures
        response == framed(DEFAULT_404_PAGE@),
{
}

/// A route that is registered twice keeps the later handler only: the table
/// is as if the first registration had not been made, and requests for the
/// route are answered by the second handler.
pub proof fn lemma_later_registration_wins<H: Fn() -> HTML>(
    routes: Map<Seq<char>, H>,
    not_found: Option<Seq<char>>,
    route: Seq<char>,
    first: H,
    second: H,
    response: Seq<char>,
)
    requires
        responds(routes.insert(route, first).insert(route, second), not_found, route, response),
    ensures
        routes.insert(route, first).insert(route, second) == routes.insert(route, second),
        answered_by(second, response),
{
}

/// A registration is seen whole or not at all: on the table with the new
/// handler every path resolves either as it did before or to the new
/// handler, and as it did before wherever the new route is neither the path
/// nor the route for pages that were not found.
pub proof fn lemma_registration_is_atomic<H>(
    routes: Map<Seq<char>, H>,
    not_found: Option<Seq<char>>,
    route: Seq<char>,
    handler: H,
    path: Seq<char>,
)
    ensures
        resolution(routes.insert(route, handler), not_found, path) == resolution(
            routes,
            not_found,
            path,
        ) || resolution(routes.insert(route, handler), not_found, path) == Some(handler),
        path != route && not_found != Some(route) ==> resolution(
            routes.insert(route, handler),
            not_found,
            path,
        ) == resolution(routes, not_found, path),
{
}

impl<H: Fn() -> HTML> WebServer<H> {
    /// The configured route for pages that were not found, as a plain value.
    pub open spec fn not_found_route(&self) -> Option<Seq<char>> {
        match self.default_route_404 {
            Some(route) => Some(route@),
            None => None,
        }
    }

    /// Configures a server for `port` on `ip`, by default on all interfaces,
    /// with the given routes, by default none, and without a route for pages
    /// that were not found.
    pub fn launch(
        ip: Option<[u8; 4]>,
        port: u16,
        threading: bool,
        routes: Option<RouteTable<H>>,
    ) -> (server: Self)
        ensures
            server.ip == (match ip {
                Some(address) => address,
                None => UNSPECIFIED,
            }),
            server.port == port,
            server.threading == threading,
            server.routes@ == (match routes {
                Some(table) => table@,
                None => Map::<Seq<char>, H>::empty(),
            }),
            server.default_route_404 is None,
    {
        let ip = match ip {
            Some(address) => address,
            None => UNSPECIFIED,
        };
        let routes = match routes {
            Some(table) => table,
            None => RouteTable::new(),
        };
        WebServer { routes, threading, ip, port, default_route_404: None }
    }

    /// Registers `rendering_function` for `route`, in place of the handler
    /// that was registered for it before.
    pub fn add_route(&mut self, route: Route, rendering_function: H)
        requires
            call_requires(rendering_function, ()),
        ensures
            final(self).routes@ == old(self).routes@.insert(route@, rendering_function),
            final(self).routes@.len() == old(self).routes@.len() + (if old(
                self,
            ).routes@.contains_key(route@) {
                0int
            } else {
                1int
            }),
            final(self).threading == old(self).threading,
            final(self).ip == old(self).ip,
            final(self).port == old(self).port,
            final(self).default_route_404 == old(self).default_route_404,
    {
        self.routes.insert(route, rendering_function);
    }

    /// What the accept loop does next, given whether the accept gave a
    /// connection.
    pub fn on_accept(&self, accepted: bool) -> (dispatch: Dispatch)
        ensures
            dispatch == (if !accepted {
                Dispatch::Skip
            } else if self.threading {
                Dispatch::Spawn
            } else {
                Dispatch::Inline
            }),
    {
        if !accepted {
            Dispatch::Skip
        } else if self.threading {
            Dispatch::Spawn
        } else {
            Dispatch::Inline
        }
    }

    /// The handler that answers `route`: its own; else that of the route
    /// for pages that were not found, where that one is configured and
    /// registered; else none.
    pub fn resolve(&self, route: &str) -> (handler: Option<&H>)
        ensures
            match handler {
                Some(h) => resolution(self.routes@, self.not_found_route(), route@) == Some(*h)
                    && call_requires(*h, ()),
                None => resolution(self.routes@, self.not_found_route(), route@) is None,
            },
    {
        match self.routes.get(route) {
            Some(handler) => Some(handler),
            None => match &self.default_route_404 {
                Some(default_route) => self.routes.get(default_route.as_str()),
                None => None,
            },
        }
    }

    /// The response to a request for `route`.
    ///
    /// The page comes from the handler that answers `route`, which is called
    /// once, or else it is the built-in page. The status is `200 OK` in each
    /// case.
    pub fn respond(&self, route: &str) -> (response: String)
        ensures
            responds(self.routes@, self.not_found_route(), route@, response@),
    {
        let html = match self.resolve(route) {
            Some(handler) => handler(),
            None => DEFAULT_404_PAGE.to_owned(),
        };
        proof {
            lemma_default_page_is_clean();
        }
        send_response(html.as_str())
    }

    /// The response to `request`, of which the first line is read.
    pub fn serve_to_client(&self, request: &[u8]) -> (response: Result<String, MalformedRequest>)
        ensures
            match requested_route(request@) {
                Some(route) => response matches Ok(text) && responds(
                    self.routes@,
                    self.not_found_route(),
                    route,
                    text@,
                ),
                None => response is Err,
            },
    {
        match read_request(request) {
            Ok(route) => Ok(self.respond(route.as_str())),
            Err(error) => Err(error),
        }
    }
}

} // verus!
