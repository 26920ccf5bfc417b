//! A small HTTP/1.1 server core: protocol sniffing, request parsing, routing
//! with path parameters, a middleware pipeline and response building.
pub mod config;
pub mod handler;
pub mod logger;
pub mod middleware;
pub mod mime;
pub mod protocol;
pub mod request;
pub mod response;
pub mod routes;
pub mod server;
pub mod strmap;
pub mod text;
