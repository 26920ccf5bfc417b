//! Handling one request: parse, serve a static file, or route it through
//! the middleware to its handler, and answer with wire bytes.
use vstd::prelude::*;
use vstd::utf8::decode_utf8;

use crate::middleware::{outcome, MiddlewareHandler, MiddlewareResult};
use crate::mime::{guess_mime_type, mime_of_path};
use crate::request::{parses, request_of, HttpRequest};
use crate::response::{text_view, wire, with_body, with_header, status_line_of, ResponseBuilder, ResponseView};
use crate::routes::{extract_params, first_hit, no_hit, params_of, segments, RouteManager};
use crate::strmap::StrMap;
use crate::text::{chars_eq, chars_of};

verus! {

/// What a request produced: the bytes to send and the status they carry.
pub struct Res {
    pub buffer: Vec<u8>,
    pub status: u16,
}

impl Res {
    pub fn new(buffer: Vec<u8>, status: u16) -> (r: Res)
        ensures
            r.buffer == buffer,
            r.status == status,
    {
        Res { buffer, status }
    }
}

/// A request together with the parameters its route captured.
pub struct Context {
    pub request: HttpRequest,
    pub params: StrMap,
}

impl Context {
    /// The captured parameters.
    pub open spec fn params_view(&self) -> Map<Seq<char>, Seq<char>> {
        self.params@
    }

    pub fn new(request: HttpRequest, params: StrMap) -> (r: Context)
        ensures
            r.request == request,
            r.params_view() == params@,
    {
        Context { request, params }
    }

    /// The value captured for `key`.
    pub fn param(&self, key: &str) -> (r: Option<&String>)
        ensures
            r is Some <==> self.params_view().contains_key(key@),
            r is Some ==> r->0@ == self.params_view()[key@],
    {
        self.params.get(key)
    }
}

/// A file served under a path, with its content.
pub struct StaticFile {
    pub route: String,
    pub file: String,
    pub data: Vec<u8>,
}

/// `i` is the first static file served under `path`.
pub open spec fn first_static(fs: Seq<StaticFile>, path: Seq<char>, i: int) -> bool {
    0 <= i < fs.len() && fs[i].route@ == path && forall|j: int|
        0 <= j < i ==> (#[trigger] fs[j]).route@ != path
}

/// No static file is served under `path`.
pub open spec fn no_static(fs: Seq<StaticFile>, path: Seq<char>) -> bool {
    forall|j: int| 0 <= j < fs.len() ==> (#[trigger] fs[j]).route@ != path
}

/// The answer to a request that did not parse.
pub open spec fn bad_request_view() -> ResponseView {
    text_view(400, "Bad Request"@, "text/plain"@, "Bad Request"@)
}

/// The answer to a request that no route answers.
pub open spec fn not_found_view() -> ResponseView {
    text_view(404, "Not Found"@, "text/plain"@, "Not Found"@)
}

/// The answer that serves a static file.
pub open spec fn static_view(f: StaticFile) -> ResponseView {
    with_body(
        with_header(
            ResponseView { status_line: status_line_of(200, "OK"@), headers: seq![], body: seq![] },
            "Content-Type"@,
            mime_of_path(f.file@),
        ),
        f.data@,
    )
}

pub struct HttpHandler<H, M> {
    routes: RouteManager<H>,
    middleware: MiddlewareHandler<M>,
    static_files: Vec<StaticFile>,
}

impl<H: Fn(&Context) -> Vec<u8>, M: Fn(Context) -> MiddlewareResult> HttpHandler<H, M> {
    pub closed spec fn router(&self) -> RouteManager<H> {
        self.routes
    }

    pub closed spec fn pipeline(&self) -> MiddlewareHandler<M> {
        self.middleware
    }

    pub closed spec fn files(&self) -> Seq<StaticFile> {
        self.static_files@
    }

    /// Every handler and middleware accepts every input.
    pub open spec fn callable(&self) -> bool {
        &&& self.pipeline().callable()
        &&& forall|i: int, c: Context|
            0 <= i < self.router().table().len() ==> #[trigger] call_requires(
                self.router().table()[i].handler,
                (&c,),
            )
    }

    pub fn new(router: RouteManager<H>, middleware: MiddlewareHandler<M>, static_files: Vec<StaticFile>) -> (r: HttpHandler<H, M>)
        ensures
            r.router() == router,
            r.pipeline() == middleware,
            r.files() == static_files@,
    {
        HttpHandler { routes: router, middleware, static_files }
    }

    /// The first static file served under `path`.
    fn static_for(&self, path: &String) -> (r: Option<usize>)
        ensures
            r is None ==> no_static(self.files(), path@),
            r is Some ==> first_static(self.files(), path@, r->0 as int),
    {
        let p = chars_of(path.as_str());
        let mut i: usize = 0;
        while i < self.static_files.len()
            invariant
                i <= self.static_files@.len(),
                p@ == path@,
                forall|j: int| 0 <= j < i ==> (#[trigger] self.static_files@[j]).route@ != path@,
            decreases self.static_files.len() - i,
        {
            let r = chars_of(self.static_files[i].route.as_str());
            if chars_eq(&r, &p) {
                return Some(i);
            }
            i = i + 1;
        }
        None
    }

    /// Answers the request in `buffer`: `400` where it does not parse; a
    /// static file served under its path; else the first route that answers
    /// it, through the middleware to its handler; else `404`.
    pub fn handle(&self, buffer: &[u8]) -> (r: Res)
        requires
            self.callable(),
        ensures
            !parses(buffer@) ==> r.status == 400 && r.buffer@ == wire(bad_request_view()),
            parses(buffer@) ==> ({
                let req = request_of(decode_utf8(buffer@));
                let fs = self.files();
                let rs = self.router().table();
                if exists|i: int| first_static(fs, req.path, i) {
                    exists|i: int|
                        first_static(fs, req.path, i) && r.status == 200 && r.buffer@ == wire(
                            static_view(fs[i]),
                        )
                } else if no_hit(rs, req.path, req.method) {
                    r.status == 404 && r.buffer@ == wire(not_found_view())
                } else {
                    exists|i: int, c: Context, out: MiddlewareResult|
                        first_hit(rs, req.path, req.method, i) && c.request@ == req
                            && c.params_view() == params_of(segments(rs[i].pattern@), segments(req.path))
                            && outcome(self.pipeline().chain_for(rs[i].raw_path@), c, out)
                            && match out {
                            Ok(done) => r.status == 200 && call_ensures(rs[i].handler, (&done,), r.buffer),
                            Err(res) => r == res,
                        }
                }
            }),
    {
        match HttpRequest::parse(buffer) {
            Some(request) => {
                let ghost req = request@;
                let ghost fs = self.files();
                let ghost rs = self.router().table();
                match self.static_for(&request.path) {
                    Some(i) => {
                        let f = &self.static_files[i];
                        let mime = guess_mime_type(f.file.as_str());
                        let bytes = ResponseBuilder::ok().header("Content-Type", mime.as_str()).body(
                            clone_bytes(&f.data),
                        ).build();
                        proof {
                            crate::response::lemma_typed_body_plain(
                                status_line_of(200, "OK"@),
                                mime_of_path(f.file@),
                                f.data@,
                            );
                        }
                        let r = Res { buffer: bytes, status: 200 };
                        assert(first_static(fs, req.path, i as int) && r.status == 200 && r.buffer@
                            == wire(static_view(fs[i as int])));
                        return r;
                    },
                    None => {},
                }
                assert(!exists|i: int| first_static(fs, req.path, i));
                match self.routes.find_route(request.path.as_str(), request.method) {
                    Some(route) => {
                        let ghost i = choose|i: int| first_hit(rs, req.path, req.method, i) && *route == rs[i];
                        let params = extract_params(route.pattern.as_str(), request.path.as_str());
                        let context = Context { request, params };
                        let ghost c0 = context;
                        let out = self.middleware.run(context, route);
                        let ghost o = out;
                        let r = match out {
                            Ok(ctx) => {
                                assert(call_requires(rs[i].handler, (&ctx,)));
                                let bytes = (route.handler)(&ctx);
                                Res { buffer: bytes, status: 200 }
                            },
                            Err(res) => res,
                        };
                        assert(first_hit(rs, req.path, req.method, i) && c0.request@ == req
                            && c0.params_view() == params_of(segments(rs[i].pattern@), segments(req.path))
                            && outcome(self.pipeline().chain_for(rs[i].raw_path@), c0, o)
                            && match o {
                            Ok(done) => r.status == 200 && call_ensures(rs[i].handler, (&done,), r.buffer),
                            Err(res) => r == res,
                        });
                        r
                    },
                    None => {
                        proof {
                            crate::response::lemma_text_view_plain(404, "Not Found"@, "text/plain"@, "Not Found"@);
                        }
                        Res { buffer: ResponseBuilder::not_found().text("Not Found").build(), status: 404 }
                    },
                }
            },
            None => {
                proof {
                    crate::response::lemma_text_view_plain(400, "Bad Request"@, "text/plain"@, "Bad Request"@);
                }
                Res { buffer: ResponseBuilder::bad_request().text("Bad Request").build(), status: 400 }
            },
        }
    }
}

/// A copy of the bytes.
fn clone_bytes(b: &Vec<u8>) -> (r: Vec<u8>)
    ensures
        r@ == b@,
{
    let mut r: Vec<u8> = Vec::new();
    let mut i: usize = 0;
    while i < b.len()
        invariant
            i <= b@.len(),
            r@ == b@.subrange(0, i as int),
        decreases b.len() - i,
    {
        r.push(b[i]);
        i = i + 1;
        assert(r@ =~= b@.subrange(0, i as int));
    }
    assert(r@ =~= b@);
    r
}

} // verus!
