//! Choosing the route of a request.

use crate::server::config::{Route, ServerConfig};
use crate::server::methods::{allow_value, allowed_methods, allows, method_is_allowed};
use crate::server::protocol::{
    MethodName, Request, StatusCode, METHOD_NOT_ALLOWED, NOT_FOUND, TEMPORARY_REDIRECT,
};
use crate::server::requests::{path_exists, redirects_from, route_redirects, selected};
use crate::text::str_equal;
use vstd::prelude::*;

verus! {

/// The status with which a route redirects: the one of its settings, else
/// 307.
pub open spec fn redirect_status(route: Route) -> StatusCode {
    match route.settings {
        Some(settings) => match settings.redirect_status_code {
            Some(code) => code,
            None => StatusCode { code: TEMPORARY_REDIRECT },
        },
        None => StatusCode { code: TEMPORARY_REDIRECT },
    }
}

/// The route that was selected has to redirect the path: the path is not the
/// route's own, and the route lists it among its redirections.
pub open spec fn redirect_pending(route: Route, path: Seq<char>) -> bool {
    route.url_path@ != path && redirects_from(route, path)
}

/// The index of the route that serves a path for a method. Where no route is
/// selected the path is not found. Where the selected route redirects the
/// path, the error holds the status of the redirect and the route's own path.
/// Where the route does not allow the method, the error holds status 405
/// and the methods that the route allows.
pub open spec fn route_for(config: ServerConfig, path: Seq<char>, method: MethodName) -> Result<
    int,
    (StatusCode, Seq<char>),
> {
    match selected(config.routes@, path) {
        None => Err((StatusCode { code: NOT_FOUND }, Seq::empty())),
        Some(i) => {
            let route = config.routes@[i];
            if redirect_pending(route, path) {
                Err((redirect_status(route), route.url_path@))
            } else if !allows(route, method) {
                Err((StatusCode { code: METHOD_NOT_ALLOWED }, allow_value(route)))
            } else {
                Ok(i)
            }
        },
    }
}

/// The status with which a route redirects.
pub fn redirect_code(route: &Route) -> (code: StatusCode)
    ensures
        code == redirect_status(*route),
{
    match &route.settings {
        Some(settings) => match settings.redirect_status_code {
            Some(code) => code,
            None => StatusCode { code: TEMPORARY_REDIRECT },
        },
        None => StatusCode { code: TEMPORARY_REDIRECT },
    }
}

/// The index of the route that serves a request.
pub fn route_index(req: &Request, config: &ServerConfig) -> (r: Result<usize, (StatusCode, String)>)
    ensures
        match r {
            Ok(i) => route_for(*config, req@.path, req@.method) == Ok::<
                int,
                (StatusCode, Seq<char>),
            >(i as int) && i < config.routes.len(),
            Err((code, text)) => route_for(*config, req@.path, req@.method) == Err::<
                int,
                (StatusCode, Seq<char>),
            >((code, text@)),
        },
{
    let path = req.path.as_str();
    match path_exists(path, config.routes.as_slice()) {
        None => Err((StatusCode { code: NOT_FOUND }, String::new())),
        Some((i, own)) => {
            let route = &config.routes[i];
            if !str_equal(own, path) && route_redirects(route, path) {
                Err((redirect_code(route), String::from_str(own)))
            } else if !method_is_allowed(&req.method, route) {
                Err((StatusCode { code: METHOD_NOT_ALLOWED }, allowed_methods(route)))
            } else {
                Ok(i)
            }
        },
    }
}

/// The route that serves a request.
pub fn get_route<'a, 'b>(req: &Request, config: &'b ServerConfig<'a>) -> (r: Result<
    &'b Route<'a>,
    (StatusCode, String),
>)
    ensures
        match r {
            Ok(route) => route_for(*config, req@.path, req@.method) matches Ok(i) && 0 <= i
                < config.routes.len() && *route == config.routes@[i],
            Err((code, text)) => route_for(*config, req@.path, req@.method) == Err::<
                int,
                (StatusCode, Seq<char>),
            >((code, text@)),
        },
{
    match route_index(req, config) {
        Ok(i) => Ok(&config.routes[i]),
        Err(e) => Err(e),
    }
}

} // verus!
