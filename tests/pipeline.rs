use std::cell::Cell;
use std::rc::Rc;

use tcp_srv::config::{Config, ConfigBuilder};
use tcp_srv::handler::{Context, HttpHandler, Res, StaticFile};
use tcp_srv::logger::{status_color, LogLevel};
use tcp_srv::middleware::{MiddlewareHandler, MiddlewareResult};
use tcp_srv::mime::{guess_mime_type, FileExtension, MimeType};
use tcp_srv::protocol::{detect_protocol, next_action, peek, ConnAction, Protocol};
use tcp_srv::response::ResponseBuilder;
use tcp_srv::routes::RouteManager;
use tcp_srv::server::Server;
use tcp_srv::strmap::StrMap;

type H = Box<dyn Fn(&Context) -> Vec<u8>>;
type M = Box<dyn Fn(Context) -> MiddlewareResult>;

fn body_of(b: &[u8]) -> Vec<u8> {
    let pos = b.windows(4).position(|w| w == b"\r\n\r\n").expect("blank line");
    b[pos + 4..].to_vec()
}

fn user_handler() -> H {
    Box::new(|ctx: &Context| {
        let id = ctx.param("id").map(|s| s.as_str()).unwrap_or("0").to_string();
        ResponseBuilder::ok().text(&id).build()
    })
}

#[test]
fn get_user_scenario() {
    let mut router: RouteManager<H> = RouteManager::new();
    router.get("/user/:id", user_handler());
    let handler: HttpHandler<H, M> = HttpHandler::new(router, MiddlewareHandler::new(), Vec::new());
    let res = handler.handle(b"GET /user/42 HTTP/1.1\r\nHost: x\r\n\r\n");
    assert_eq!(res.status, 200);
    assert!(res.buffer.starts_with(b"HTTP/1.1 200 OK\r\n"));
    assert_eq!(body_of(&res.buffer), b"42".to_vec());
}

#[test]
fn unparsable_and_unrouted_requests() {
    let handler: HttpHandler<H, M> = HttpHandler::new(RouteManager::new(), MiddlewareHandler::new(), Vec::new());
    let res = handler.handle(b"GET\r\n\r\n");
    assert_eq!(res.status, 400);
    assert_eq!(res.buffer, ResponseBuilder::bad_request().text("Bad Request").build());
    let res = handler.handle(b"GET /nothing HTTP/1.1\r\n\r\n");
    assert_eq!(res.status, 404);
    assert_eq!(
        res.buffer,
        b"HTTP/1.1 404 Not Found\r\nContent-Type: text/plain\r\nContent-Length: 9\r\n\r\nNot Found".to_vec()
    );
}

#[test]
fn static_file_served_before_routes() {
    let mut router: RouteManager<H> = RouteManager::new();
    router.get("/", Box::new(|_c: &Context| b"routed".to_vec()));
    let files = vec![StaticFile { route: "/".to_string(), file: "index.HTML".to_string(), data: b"<h1>".to_vec() }];
    let handler: HttpHandler<H, M> = HttpHandler::new(router, MiddlewareHandler::new(), files);
    let res = handler.handle(b"GET / HTTP/1.1\r\n\r\n");
    assert_eq!(res.status, 200);
    assert_eq!(
        res.buffer,
        b"HTTP/1.1 200 OK\r\nContent-Type: text/html\r\nContent-Length: 4\r\n\r\n<h1>".to_vec()
    );
}

#[test]
fn middleware_short_circuits() {
    let first = Rc::new(Cell::new(0u32));
    let second = Rc::new(Cell::new(0u32));
    let handled = Rc::new(Cell::new(0u32));
    let mut mw: MiddlewareHandler<M> = MiddlewareHandler::new();
    let f = first.clone();
    mw.add_global(Box::new(move |c: Context| {
        f.set(f.get() + 1);
        Err(Res::new(ResponseBuilder::not_found().text("blocked").build(), 403))
    }));
    let s = second.clone();
    mw.add_global(Box::new(move |c: Context| {
        s.set(s.get() + 1);
        Ok(c)
    }));
    let mut router: RouteManager<H> = RouteManager::new();
    let hd = handled.clone();
    router.get("/x", Box::new(move |_c: &Context| {
        hd.set(hd.get() + 1);
        Vec::new()
    }));
    let handler = HttpHandler::new(router, mw, Vec::new());
    let res = handler.handle(b"GET /x HTTP/1.1\r\n\r\n");
    assert_eq!(res.status, 403);
    assert_eq!(body_of(&res.buffer), b"blocked".to_vec());
    assert_eq!(first.get(), 1);
    assert_eq!(second.get(), 0);
    assert_eq!(handled.get(), 0);
}

#[test]
fn middleware_order_global_then_scoped() {
    let log = Rc::new(std::cell::RefCell::new(Vec::<&'static str>::new()));
    let mut mw: MiddlewareHandler<M> = MiddlewareHandler::new();
    let l = log.clone();
    mw.for_route("/api/data/*", Box::new(move |c: Context| {
        l.borrow_mut().push("scoped");
        Ok(c)
    }));
    let l = log.clone();
    mw.add_global(Box::new(move |c: Context| {
        l.borrow_mut().push("global");
        Ok(c)
    }));
    let l = log.clone();
    mw.for_route("/other/*", Box::new(move |c: Context| {
        l.borrow_mut().push("other");
        Ok(c)
    }));
    let mut router: RouteManager<H> = RouteManager::new();
    router.put("/api/data/:id", user_handler());
    router.get("/free", user_handler());
    let handler = HttpHandler::new(router, mw, Vec::new());
    let res = handler.handle(b"PUT /api/data/7 HTTP/1.1\r\n\r\n");
    assert_eq!(res.status, 200);
    assert_eq!(body_of(&res.buffer), b"7".to_vec());
    assert_eq!(*log.borrow(), vec!["global", "scoped"]);
    log.borrow_mut().clear();
    let res = handler.handle(b"GET /free HTTP/1.1\r\n\r\n");
    assert_eq!(body_of(&res.buffer), b"0".to_vec());
    assert_eq!(*log.borrow(), vec!["global"]);
}

#[test]
fn unknown_leading_token_is_dropped() {
    assert_eq!(detect_protocol(b"FOO /\r\n\r\n"), Protocol::Unknown);
    assert_eq!(next_action(b"FOO /\r\n\r\n", 9), ConnAction::Drop);
}

#[test]
fn protocol_sniffing() {
    assert_eq!(detect_protocol(b"GET / HTTP/1.1"), Protocol::Http1);
    assert_eq!(detect_protocol(b"DELETE /x"), Protocol::Http1);
    assert_eq!(detect_protocol(b"HEAD / HTTP/1.1"), Protocol::Http1);
    assert_eq!(detect_protocol(b"PRI * HTTP/2.0"), Protocol::Http2);
    assert_eq!(detect_protocol(b"GET"), Protocol::Incomplete);
    assert_eq!(detect_protocol(b"OPTIONS / HTTP/1.1"), Protocol::Unknown);
    assert_eq!(detect_protocol(b"get / HTTP/1.1"), Protocol::Unknown);
    assert_eq!(next_action(b"GET / HTTP/1.1\r\n\r\n", 18), ConnAction::Respond);
    assert_eq!(next_action(b"GE", 2), ConnAction::ReadMore);
    assert_eq!(next_action(b"", 0), ConnAction::Close);
    assert_eq!(next_action(b"PRI * HTTP/2.0", 14), ConnAction::Drop);
    assert_eq!(peek(b"abcdefghij", 7), b"abcdefg".to_vec());
    assert_eq!(peek(b"abc", 7), b"abc".to_vec());
}

#[test]
fn mime_guessing() {
    assert_eq!(guess_mime_type("index.html"), MimeType::TextHtml);
    assert_eq!(guess_mime_type("a.b.JPEG"), MimeType::ImageJpeg);
    assert_eq!(guess_mime_type("noext"), MimeType::ApplicationOctet);
    assert_eq!(guess_mime_type("font.woff2").as_str(), "font/woff2");
    assert_eq!(FileExtension::from_str("Js"), FileExtension::Js);
    assert_eq!(FileExtension::Jpg.mime_type(), MimeType::ImageJpeg);
    assert_eq!(MimeType::ImageSvg.as_str(), "image/svg+xml");
}

#[test]
fn config_defaults_and_builder() {
    let d = Config::default();
    assert_eq!(d.host, "127.0.0.1");
    assert_eq!(d.port, 8080);
    assert_eq!(d.max_request_size, 1024 * 1024);
    let c = ConfigBuilder::new().port(9000).build();
    assert_eq!(c.host, "127.0.0.1");
    assert_eq!(c.port, 9000);
    let c = ConfigBuilder::new().host("0.0.0.0".to_string()).max_request_size(10).build();
    assert_eq!(c.host, "0.0.0.0");
    assert_eq!(c.max_request_size, 10);
    assert!(c.admits(10));
    assert!(!c.admits(11));
}

#[test]
fn server_collects_static_files() {
    let mut s: Server<H, M> = Server::new(Config::default());
    s.static_file("/", "index.html");
    s.router.get("/a", user_handler());
    assert_eq!(s.static_files().len(), 1);
    assert_eq!(s.static_files()[0].1, "index.html");
    assert_eq!(s.config().port, 8080);
    let h = s.into_handler(Vec::new());
    assert_eq!(h.handle(b"GET /a HTTP/1.1\r\n\r\n").status, 200);
}

#[test]
fn string_map_replaces_values() {
    let mut m = StrMap::new();
    m.insert("k".to_string(), "1".to_string());
    m.insert("j".to_string(), "2".to_string());
    m.insert("k".to_string(), "3".to_string());
    assert_eq!(m.len(), 2);
    assert_eq!(m.get("k").map(|s| s.as_str()), Some("3"));
    assert_eq!(m.entries()[0].0, "k");
    assert!(m.get("z").is_none());
}

#[test]
fn log_labels() {
    assert_eq!(LogLevel::Warning.as_str(), "WARN");
    assert_eq!(status_color(503), "\x1b[41m");
    assert_eq!(status_color(404), "\x1b[43m");
    assert_eq!(status_color(200), "\x1b[42m");
    assert_eq!(status_color(100), "\x1b[40m");
}
