//! The configuration of a server: its endpoints, limits and routes.

use crate::server::cgi::Cgi;
use crate::server::protocol::{Method, StatusCode, MOVED_PERMANENTLY};
use vstd::prelude::*;

verus! {

/// The handlers that a route can name in place of the default file handling.
#[derive(Clone, Copy, Debug, PartialEq, Eq, Structural)]
pub enum Handler {
    UpdateCookie,
    ValidateCookie,
    CookieDemo,
}

/// The settings of a route.
#[derive(Clone, Debug)]
pub struct Settings<'a> {
    /// Paths that redirect to the route's path.
    pub http_redirections: Option<Vec<&'a str>>,
    /// The status of such a redirect; 307 where none is given.
    pub redirect_status_code: Option<StatusCode>,
    /// What stands between `.` and the request's path in a file's path.
    pub root_path: Option<&'a str>,
    /// The file to serve where the path is a directory.
    pub default_if_url_is_dir: Option<&'a str>,
    /// Another default for a request of a directory.
    pub default_if_request_is_dir: Option<&'a str>,
    /// The interpreter for each file extension.
    pub cgi_def: Option<Vec<(&'a str, Cgi)>>,
    /// Whether a directory may be listed.
    pub list_directory: bool,
}

/// A route: a path prefix with the methods allowed under it.
#[derive(Clone, Debug)]
pub struct Route<'a> {
    pub url_path: &'a str,
    pub methods: Vec<Method>,
    pub handler: Option<Handler>,
    pub settings: Option<Settings<'a>>,
}

/// The configuration of one server.
#[derive(Clone, Debug)]
pub struct ServerConfig<'a> {
    /// The name sent in `Host` headers.
    pub host: &'a str,
    /// The addresses and ports to listen on.
    pub endpoints: Vec<(&'a str, u16)>,
    /// A directory of pages named by status code.
    pub custom_error_path: Option<&'a str>,
    /// The greatest length of a request's body.
    pub body_size_limit: usize,
    pub routes: Vec<Route<'a>>,
}

impl<'a> Settings<'a> {
    /// The root path, empty where none is set.
    pub open spec fn root(self) -> Seq<char> {
        match self.root_path {
            Some(root) => root@,
            None => Seq::empty(),
        }
    }
}

impl<'a> Route<'a> {
    /// The root path of the route's settings, empty where none is set.
    pub open spec fn root(self) -> Seq<char> {
        match self.settings {
            Some(settings) => settings.root(),
            None => Seq::empty(),
        }
    }
}

/// No extension is defined twice.
pub open spec fn distinct_keys(defs: Seq<(&str, Cgi)>) -> bool {
    forall|i: int, j: int|
        0 <= i < j < defs.len() ==> (#[trigger] defs[i]).0@ != (#[trigger] defs[j]).0@
}

/// The definitions of interpreters as specifications see them.
pub open spec fn definitions(defs: Option<Vec<(&str, Cgi)>>) -> Option<Seq<(Seq<char>, Cgi)>> {
    match defs {
        Some(list) => Some(Seq::new(list@.len(), |i: int| (list@[i].0@, list@[i].1))),
        None => None,
    }
}

impl<'a> Settings<'a> {
    /// The settings are these: the redirections, the status of a redirect,
    /// the root, the default file of a directory, the interpreters, and
    /// whether directories are listed; and they set no other default.
    pub open spec fn described(
        self,
        redirections: Option<Seq<Seq<char>>>,
        status: Option<StatusCode>,
        root: Option<Seq<char>>,
        default_file: Option<Seq<char>>,
        interpreters: Option<Seq<(Seq<char>, Cgi)>>,
        list: bool,
    ) -> bool {
        &&& self.http_redirections.deep_view() == redirections
        &&& self.redirect_status_code == status
        &&& self.root_path.deep_view() == root
        &&& self.default_if_url_is_dir.deep_view() == default_file
        &&& self.default_if_request_is_dir is None
        &&& definitions(self.cgi_def) == interpreters
        &&& self.list_directory == list
    }

    /// The settings define no extension twice.
    pub open spec fn well_formed(self) -> bool {
        match self.cgi_def {
            Some(defs) => distinct_keys(defs@),
            None => true,
        }
    }
}

impl<'a> Route<'a> {
    /// The path of the route begins with a slash, and its settings are well
    /// formed.
    pub open spec fn well_formed(self) -> bool {
        &&& self.url_path@.len() > 0
        &&& self.url_path@[0] == '/'
        &&& match self.settings {
            Some(settings) => settings.well_formed(),
            None => true,
        }
    }
}

impl<'a> ServerConfig<'a> {
    /// Every route is well formed.
    pub open spec fn well_formed(self) -> bool {
        forall|i: int| 0 <= i < self.routes@.len() ==> (#[trigger] self.routes@[i]).well_formed()
    }

    /// The paths of the routes, in order.
    pub open spec fn paths(self) -> Seq<Seq<char>> {
        Seq::new(self.routes@.len(), |i: int| self.routes@[i].url_path@)
    }
}

/// Settings that set nothing.
pub fn plain_settings<'a>() -> (s: Settings<'a>)
    ensures
        s.http_redirections is None,
        s.redirect_status_code is None,
        s.root_path is None,
        s.default_if_url_is_dir is None,
        s.default_if_request_is_dir is None,
        s.cgi_def is None,
        !s.list_directory,
        s.well_formed(),
{
    Settings {
        http_redirections: None,
        redirect_status_code: None,
        root_path: None,
        default_if_url_is_dir: None,
        default_if_request_is_dir: None,
        cgi_def: None,
        list_directory: false,
    }
}

/// A route for a handler.
pub fn handler_route<'a>(url_path: &'a str, method: Method, handler: Handler) -> (r: Route<'a>)
    ensures
        r.url_path@ == url_path@,
        r.methods@ == seq![method],
        r.handler == Some(handler),
        r.settings is None,
{
    let mut methods: Vec<Method> = Vec::new();
    methods.push(method);
    Route { url_path, methods, handler: Some(handler), settings: None }
}

/// A route that serves files.
pub fn file_route<'a>(url_path: &'a str, methods: Vec<Method>, settings: Settings<'a>) -> (r: Route<
    'a,
>)
    ensures
        r.url_path@ == url_path@,
        r.methods@ == methods@,
        r.handler is None,
        r.settings == Some(settings),
{
    Route { url_path, methods, handler: None, settings: Some(settings) }
}

/// The configuration that the server runs with where none is given: one
/// server on `127.0.0.1`, ports 8080 and 8081, with routes for the cookie
/// handlers, for scripts, for a redirection, for two directories with a
/// default file, and for the assets.
pub fn server_config() -> (configs: Vec<ServerConfig<'static>>)
    ensures
        configs.len() == 1,
        configs[0].host@ == "127.0.0.1"@,
        configs[0].endpoints.deep_view() == seq![("127.0.0.1"@, 8080u16), ("127.0.0.1"@, 8081u16)],
        configs[0].custom_error_path is None,
        configs[0].body_size_limit == usize::MAX,
        configs[0].paths() == seq![
            "/api/update-cookie"@,
            "/api/get-cookie"@,
            "/api/cookie-demo"@,
            "/cgi"@,
            "/test.txt"@,
            "/mega-dir"@,
            "/src"@,
            "/assets"@,
        ],
        configs[0].well_formed(),
        configs[0].routes@[0].handler == Some(Handler::UpdateCookie),
        configs[0].routes@[1].handler == Some(Handler::ValidateCookie),
        configs[0].routes@[2].handler == Some(Handler::CookieDemo),
        forall|i: int| 3 <= i < 8 ==> (#[trigger] configs[0].routes@[i]).handler is None,
        forall|i: int| 0 <= i < 3 ==> (#[trigger] configs[0].routes@[i]).settings is None,
        configs[0].routes@[0].methods@ == seq![Method::Post],
        configs[0].routes@[1].methods@ == seq![Method::Get],
        configs[0].routes@[2].methods@ == seq![Method::Get],
        configs[0].routes@[3].methods@ == seq![Method::Get],
        configs[0].routes@[4].methods@ == seq![Method::Get, Method::Post],
        configs[0].routes@[5].methods@ == seq![Method::Get],
        configs[0].routes@[6].methods@ == seq![Method::Get],
        configs[0].routes@[7].methods@ == seq![
            Method::Get,
            Method::Post,
            Method::Put,
            Method::Patch,
            Method::Delete,
        ],
        configs[0].routes@[3].settings is Some && configs[0].routes@[3].settings->0.described(
            None,
            None,
            None,
            None,
            Some(seq![("php"@, Cgi::PHP), ("py"@, Cgi::Python)]),
            true,
        ),
        configs[0].routes@[4].settings is Some && configs[0].routes@[4].settings->0.described(
            Some(seq!["/redirection-test"@]),
            Some(StatusCode { code: MOVED_PERMANENTLY }),
            Some("/assets"@),
            None,
            None,
            false,
        ),
        configs[0].routes@[5].settings is Some && configs[0].routes@[5].settings->0.described(
            None,
            None,
            Some("/assets"@),
            Some("/dir.html"@),
            None,
            false,
        ),
        configs[0].routes@[6].settings is Some && configs[0].routes@[6].settings->0.described(
            None,
            None,
            None,
            Some("/does-not-exist-mate"@),
            None,
            false,
        ),
        configs[0].routes@[7].settings is Some && configs[0].routes@[7].settings->0.described(
            None,
            None,
            None,
            None,
            None,
            true,
        ),
{
    let mut endpoints: Vec<(&'static str, u16)> = Vec::new();
    endpoints.push(("127.0.0.1", 8080));
    endpoints.push(("127.0.0.1", 8081));
    assert(endpoints.deep_view() == seq![("127.0.0.1"@, 8080u16), ("127.0.0.1"@, 8081u16)]);

    let mut routes: Vec<Route<'static>> = Vec::new();
    routes.push(handler_route("/api/update-cookie", Method::Post, Handler::UpdateCookie));
    routes.push(handler_route("/api/get-cookie", Method::Get, Handler::ValidateCookie));
    routes.push(handler_route("/api/cookie-demo", Method::Get, Handler::CookieDemo));

    let mut defs: Vec<(&'static str, Cgi)> = Vec::new();
    defs.push(("php", Cgi::PHP));
    defs.push(("py", Cgi::Python));
    proof {
        reveal_strlit("php");
        reveal_strlit("py");
        assert("php"@.len() != "py"@.len());
        assert(distinct_keys(defs@));
        assert(definitions(Some(defs)) == Some(seq![("php"@, Cgi::PHP), ("py"@, Cgi::Python)]));
    }
    let mut scripts = plain_settings();
    scripts.cgi_def = Some(defs);
    scripts.list_directory = true;
    let mut get: Vec<Method> = Vec::new();
    get.push(Method::Get);
    routes.push(file_route("/cgi", get, scripts));

    let mut sources: Vec<&'static str> = Vec::new();
    sources.push("/redirection-test");
    assert(sources.deep_view() == seq!["/redirection-test"@]);
    let mut moved = plain_settings();
    moved.http_redirections = Some(sources);
    moved.redirect_status_code = Some(StatusCode { code: MOVED_PERMANENTLY });
    moved.root_path = Some("/assets");
    let mut get_post: Vec<Method> = Vec::new();
    get_post.push(Method::Get);
    get_post.push(Method::Post);
    routes.push(file_route("/test.txt", get_post, moved));

    let mut mega = plain_settings();
    mega.root_path = Some("/assets");
    mega.default_if_url_is_dir = Some("/dir.html");
    let mut get: Vec<Method> = Vec::new();
    get.push(Method::Get);
    routes.push(file_route("/mega-dir", get, mega));

    let mut src = plain_settings();
    src.default_if_url_is_dir = Some("/does-not-exist-mate");
    let mut get: Vec<Method> = Vec::new();
    get.push(Method::Get);
    routes.push(file_route("/src", get, src));

    let mut assets = plain_settings();
    assets.list_directory = true;
    let mut all: Vec<Method> = Vec::new();
    all.push(Method::Get);
    all.push(Method::Post);
    all.push(Method::Put);
    all.push(Method::Patch);
    all.push(Method::Delete);
    routes.push(file_route("/assets", all, assets));

    proof {
        reveal_strlit("/api/update-cookie");
        reveal_strlit("/api/get-cookie");
        reveal_strlit("/api/cookie-demo");
        reveal_strlit("/cgi");
        reveal_strlit("/test.txt");
        reveal_strlit("/mega-dir");
        reveal_strlit("/src");
        reveal_strlit("/assets");
    }
    let config = ServerConfig {
        host: "127.0.0.1",
        endpoints,
        custom_error_path: None,
        body_size_limit: usize::MAX,
        routes,
    };
    proof {
        assert(config.paths() == seq![
            "/api/update-cookie"@,
            "/api/get-cookie"@,
            "/api/cookie-demo"@,
            "/cgi"@,
            "/test.txt"@,
            "/mega-dir"@,
            "/src"@,
            "/assets"@,
        ]);
        assert forall|i: int| 0 <= i < config.routes@.len() implies (
        #[trigger] config.routes@[i]).well_formed() by {
            assert(config.routes@[i].url_path@ == config.paths()[i]);
        }
    }
    let mut configs: Vec<ServerConfig<'static>> = Vec::new();
    configs.push(config);
    configs
}

} // verus!
