//! Server settings: where to listen and how large a request may grow.
use vstd::prelude::*;

verus! {

pub struct Config {
    pub host: String,
    pub port: u16,
    pub max_request_size: usize,
}

/// The host listened on when none is given.
pub open spec fn default_host() -> Seq<char> {
    "127.0.0.1"@
}

pub const DEFAULT_PORT: u16 = 8080;

pub const DEFAULT_MAX_REQUEST_SIZE: usize = 1048576;

impl Default for Config {
    fn default() -> (r: Config)
        ensures
            r.host@ == default_host(),
            r.port == DEFAULT_PORT,
            r.max_request_size == DEFAULT_MAX_REQUEST_SIZE,
    {
        Config { host: "127.0.0.1".to_owned(), port: DEFAULT_PORT, max_request_size: DEFAULT_MAX_REQUEST_SIZE }
    }
}

impl Clone for Config {
    fn clone(&self) -> (r: Config)
        ensures
            r.host@ == self.host@,
            r.port == self.port,
            r.max_request_size == self.max_request_size,
    {
        Config { host: self.host.clone(), port: self.port, max_request_size: self.max_request_size }
    }
}

impl Config {
    /// Whether a request of `len` bytes stays within the size limit.
    pub fn admits(&self, len: usize) -> (r: bool)
        ensures
            r == (len <= self.max_request_size),
    {
        len <= self.max_request_size
    }
}

/// Settings given one by one; those not given keep their defaults.
pub struct ConfigBuilder {
    host: Option<String>,
    port: Option<u16>,
    max_request_size: Option<usize>,
}

impl ConfigBuilder {
    pub closed spec fn host_set(&self) -> Option<Seq<char>> {
        match self.host {
            Some(h) => Some(h@),
            None => None,
        }
    }

    pub closed spec fn port_set(&self) -> Option<u16> {
        self.port
    }

    pub closed spec fn size_set(&self) -> Option<usize> {
        self.max_request_size
    }

    /// Nothing given yet.
    pub fn new() -> (r: ConfigBuilder)
        ensures
            r.host_set() is None,
            r.port_set() is None,
            r.size_set() is None,
    {
        ConfigBuilder { host: None, port: None, max_request_size: None }
    }

    pub fn host(self, host: String) -> (r: ConfigBuilder)
        ensures
            r.host_set() == Some(host@),
            r.port_set() == self.port_set(),
            r.size_set() == self.size_set(),
    {
        ConfigBuilder { host: Some(host), port: self.port, max_request_size: self.max_request_size }
    }

    pub fn port(self, port: u16) -> (r: ConfigBuilder)
        ensures
            r.host_set() == self.host_set(),
            r.port_set() == Some(port),
            r.size_set() == self.size_set(),
    {
        ConfigBuilder { host: self.host, port: Some(port), max_request_size: self.max_request_size }
    }

    pub fn max_request_size(self, size: usize) -> (r: ConfigBuilder)
        ensures
            r.host_set() == self.host_set(),
            r.port_set() == self.port_set(),
            r.size_set() == Some(size),
    {
        ConfigBuilder { host: self.host, port: self.port, max_request_size: Some(size) }
    }

    /// The settings given, with the defaults for the others.
    pub fn build(self) -> (r: Config)
        ensures
            r.host@ == match self.host_set() {
                Some(h) => h,
                None => default_host(),
            },
            r.port == match self.port_set() {
                Some(p) => p,
                None => DEFAULT_PORT,
            },
            r.max_request_size == match self.size_set() {
                Some(s) => s,
                None => DEFAULT_MAX_REQUEST_SIZE,
            },
    {
        let default = Config::default();
        Config {
            host: match self.host {
                Some(h) => h,
                None => default.host,
            },
            port: match self.port {
                Some(p) => p,
                None => default.port,
            },
            max_request_size: match self.max_request_size {
                Some(s) => s,
                None => default.max_request_size,
            },
        }
    }
}

impl From<ConfigBuilder> for Config {
    /// The builder's settings, as `build` gives them.
    fn from(builder: ConfigBuilder) -> Config {
        builder.build()
    }
}

impl vstd::std_specs::convert::FromSpecImpl<ConfigBuilder> for Config {
    /// A `Config` holds strings, which no spec value can build, so `from` is
    /// described by `build`'s contract instead.
    open spec fn obeys_from_spec() -> bool {
        false
    }

    open spec fn from_spec(v: ConfigBuilder) -> Config {
        arbitrary()
    }
}

} // verus!
