//! The server's configuration: routes, middleware, static files and
//! settings, gathered before serving begins.
use vstd::prelude::*;

use crate::config::Config;
use crate::handler::{Context, HttpHandler, StaticFile};
use crate::middleware::{MiddlewareHandler, MiddlewareResult};
use crate::routes::RouteManager;
use crate::text::{chars_of, string_of};

verus! {

pub struct Server<H, M> {
    pub router: RouteManager<H>,
    pub middleware: MiddlewareHandler<M>,
    config: Config,
    static_files: Vec<(String, String)>,
}

impl<H: Fn(&Context) -> Vec<u8>, M: Fn(Context) -> MiddlewareResult> Server<H, M> {
    pub closed spec fn settings(&self) -> Config {
        self.config
    }

    pub closed spec fn routes_of(&self) -> RouteManager<H> {
        self.router
    }

    pub closed spec fn middleware_of(&self) -> MiddlewareHandler<M> {
        self.middleware
    }

    /// The static files: each path served with the file it names, in order.
    pub closed spec fn file_table(&self) -> Seq<(Seq<char>, Seq<char>)> {
        self.static_files@.map_values(|p: (String, String)| (p.0@, p.1@))
    }

    /// A server with no routes, middleware or static files.
    pub fn new(config: Config) -> (r: Server<H, M>)
        ensures
            r.settings() == config,
            r.routes_of().table() == Seq::<crate::routes::Route<H>>::empty(),
            r.middleware_of().globals() == Seq::<M>::empty(),
            r.middleware_of().scoped_entries() == Seq::<(String, M)>::empty(),
            r.file_table() == Seq::<(Seq<char>, Seq<char>)>::empty(),
    {
        let r = Server { router: RouteManager::new(), middleware: MiddlewareHandler::new(), config, static_files: Vec::new() };
        assert(r.file_table() =~= Seq::<(Seq<char>, Seq<char>)>::empty());
        r
    }

    /// Serves the file `file_path` under `route`.
    pub fn static_file(&mut self, route: &str, file_path: &str)
        ensures
            final(self).file_table() == old(self).file_table().push((route@, file_path@)),
            final(self).settings() == old(self).settings(),
    {
        let ghost before = self.static_files@;
        self.static_files.push((string_of(chars_of(route).as_slice()), string_of(chars_of(file_path).as_slice())));
        assert(self.file_table() =~= old(self).file_table().push((route@, file_path@)));
    }

    /// The settings.
    pub fn config(&self) -> (r: &Config)
        ensures
            *r == self.settings(),
    {
        &self.config
    }

    /// The static files, each path with the file it names.
    pub fn static_files(&self) -> (r: &Vec<(String, String)>)
        ensures
            r@.map_values(|p: (String, String)| (p.0@, p.1@)) == self.file_table(),
    {
        &self.static_files
    }

    /// The request handler for the routes and middleware gathered, serving
    /// the given static files.
    pub fn into_handler(self, files: Vec<StaticFile>) -> (r: HttpHandler<H, M>)
        ensures
            r.router() == self.routes_of(),
            r.pipeline() == self.middleware_of(),
            r.files() == files@,
    {
        let Server { router, middleware, config: _, static_files: _ } = self;
        HttpHandler::new(router, middleware, files)
    }
}

} // verus!
