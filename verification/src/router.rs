//! The router: classify a method and path into one of the fixed routes,
//! and dispatch a request to its handler. The file routes need filesystem
//! work, so dispatching them yields the work to do instead of a response;
//! every other route is answered on the spot.

use vstd::prelude::*;

use crate::constants::{
    accept_encoding_name, echo_prefix, files_prefix, get_method, post_method, root_path,
    user_agent_name, user_agent_path,
};
use crate::handlers::{echo_response, user_agent_response};
use crate::request::{header_lookup, Request};
use crate::response::{Response, Status};
use crate::text::is_prefix;

verus! {

/// The routes this server serves.
pub enum Route {
    /// `GET /`.
    Root,
    /// `GET /echo/{text}`: carries the text, verbatim.
    Echo(Vec<u8>),
    /// `GET /user-agent`.
    UserAgent,
    /// `GET /files/{name}`: carries the name.
    GetFile(Vec<u8>),
    /// `POST /files/{name}`: carries the name.
    PostFile(Vec<u8>),
    /// Anything else.
    NotFound,
}

/// What a route denotes.
pub ghost enum RouteSpec {
    /// `GET /`.
    Root,
    /// `GET /echo/{text}`.
    Echo(Seq<u8>),
    /// `GET /user-agent`.
    UserAgent,
    /// `GET /files/{name}`.
    GetFile(Seq<u8>),
    /// `POST /files/{name}`.
    PostFile(Seq<u8>),
    /// Anything else.
    NotFound,
}

/// The route a method and path classify as. Exact matches come before
/// prefix matches; `/files` without a trailing slash matches nothing.
pub open spec fn spec_route(m: Seq<u8>, p: Seq<u8>) -> RouteSpec {
    if m == get_method() && p == root_path() {
        RouteSpec::Root
    } else if m == get_method() && p == user_agent_path() {
        RouteSpec::UserAgent
    } else if m == get_method() && is_prefix(echo_prefix(), p) {
        RouteSpec::Echo(p.skip(echo_prefix().len() as int))
    } else if m == get_method() && is_prefix(files_prefix(), p) {
        RouteSpec::GetFile(p.skip(files_prefix().len() as int))
    } else if m == post_method() && is_prefix(files_prefix(), p) {
        RouteSpec::PostFile(p.skip(files_prefix().len() as int))
    } else {
        RouteSpec::NotFound
    }
}

/// Whether a route value carries what a route denotation says.
pub open spec fn route_matches(r: Route, s: RouteSpec) -> bool {
    match (r, s) {
        (Route::Root, RouteSpec::Root) => true,
        (Route::Echo(c), RouteSpec::Echo(cs)) => c@ == cs,
        (Route::UserAgent, RouteSpec::UserAgent) => true,
        (Route::GetFile(p), RouteSpec::GetFile(ps)) => p@ == ps,
        (Route::PostFile(p), RouteSpec::PostFile(ps)) => p@ == ps,
        (Route::NotFound, RouteSpec::NotFound) => true,
        _ => false,
    }
}

/// Classify a method and path.
pub fn parse_route(method: &[u8], path: &[u8]) -> (r: Route)
    ensures
        route_matches(r, spec_route(method@, path@)),
{
    if crate::text::bytes_eq(method, "GET".as_bytes()) {
        if crate::text::bytes_eq(path, "/".as_bytes()) {
            return Route::Root;
        }
        if crate::text::bytes_eq(path, "/user-agent".as_bytes()) {
            return Route::UserAgent;
        }
        let echo = "/echo/".as_bytes();
        if crate::text::starts_with(path, echo) {
            let suffix = crate::text::subrange_to_vec(path, echo.len(), path.len());
            assert(suffix@ =~= path@.skip(echo_prefix().len() as int));
            return Route::Echo(suffix);
        }
        let files = "/files/".as_bytes();
        if crate::text::starts_with(path, files) {
            let suffix = crate::text::subrange_to_vec(path, files.len(), path.len());
            assert(suffix@ =~= path@.skip(files_prefix().len() as int));
            return Route::GetFile(suffix);
        }
        return Route::NotFound;
    }
    if crate::text::bytes_eq(method, "POST".as_bytes()) {
        let files = "/files/".as_bytes();
        if crate::text::starts_with(path, files) {
            let suffix = crate::text::subrange_to_vec(path, files.len(), path.len());
            assert(suffix@ =~= path@.skip(files_prefix().len() as int));
            return Route::PostFile(suffix);
        }
    }
    Route::NotFound
}

/// What dispatching a route yields: a finished response, or the filesystem
/// work the file routes need before they can be answered.
pub enum Dispatch {
    /// The response to send.
    Done(Response),
    /// Read the file with this name under the served root, then answer
    /// from the outcome.
    ReadFile(Vec<u8>),
    /// Write these bytes to the file with this name under the served root,
    /// then answer from the outcome.
    WriteFile(Vec<u8>, Vec<u8>),
}

/// Dispatch a classified request: the root answers 200 with nothing, echo
/// and user-agent answer per their handlers, unmatched requests answer 404,
/// and the file routes hand back the filesystem work to do.
pub fn handle_route(route: Route, request: &Request) -> (r: Dispatch)
    requires
        request.wf(),
    ensures
        match route {
            Route::Root => r matches Dispatch::Done(resp) && resp.wf() && resp.status
                == Status::Ok200 && resp.headers@ == Map::<Seq<u8>, Seq<u8>>::empty()
                && resp.body@ == Seq::<u8>::empty(),
            Route::Echo(c) => r matches Dispatch::Done(resp) && echo_response(
                c@,
                header_lookup(request.headers@, accept_encoding_name()),
                resp,
            ),
            Route::UserAgent => r matches Dispatch::Done(resp) && user_agent_response(
                header_lookup(request.headers@, user_agent_name()),
                resp,
            ),
            Route::GetFile(p) => r matches Dispatch::ReadFile(q) && q@ == p@,
            Route::PostFile(p) => r matches Dispatch::WriteFile(q, b) && q@ == p@ && b@
                == request.body@,
            Route::NotFound => r matches Dispatch::Done(resp) && resp.wf() && resp.status
                == Status::NotFound && resp.headers@ == Map::<Seq<u8>, Seq<u8>>::empty()
                && resp.body@ == Seq::<u8>::empty(),
        },
{
    match route {
        Route::Root => Dispatch::Done(Response::new(Status::Ok200)),
        Route::Echo(c) => Dispatch::Done(
            crate::handlers::handle_echo(
                c.as_slice(),
                request.header("accept-encoding".as_bytes()),
            ),
        ),
        Route::UserAgent => Dispatch::Done(
            crate::handlers::handle_user_agent(request.header("user-agent".as_bytes())),
        ),
        Route::GetFile(p) => Dispatch::ReadFile(p),
        Route::PostFile(p) => Dispatch::WriteFile(
            p,
            vstd::slice::slice_to_vec(request.body.as_slice()),
        ),
        Route::NotFound => Dispatch::Done(Response::new(Status::NotFound)),
    }
}

} // verus!
