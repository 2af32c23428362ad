use vstd::prelude::*;
use crate::security::SecurityProtocol;
use crate::text::{push_dec_signed, push_str_chars, spec_dec_signed};

verus! {

/// Server settings handed in by the host application: bind address, the
/// security policy, and the size of the per-connection read buffer.
pub struct Config<V> where V: Fn((String, String)) -> bool + Copy {
    port: i32,
    ip: String,
    security: SecurityProtocol<V>,
    request_size: usize,
}

impl<V> Config<V> where V: Fn((String, String)) -> bool + Copy {
    pub closed spec fn spec_ip(self) -> Seq<char> {
        self.ip@
    }

    pub closed spec fn spec_port(self) -> int {
        self.port as int
    }

    pub closed spec fn spec_security(self) -> SecurityProtocol<V> {
        self.security
    }

    pub closed spec fn spec_request_size(self) -> int {
        self.request_size as int
    }

    /// The `ip:port` text the listener binds to.
    pub fn adresse(&self) -> (r: String)
        ensures
            r@ == self.spec_ip() + ":"@ + spec_dec_signed(self.spec_port()),
    {
        let mut out: Vec<char> = Vec::new();
        push_str_chars(&mut out, self.ip.as_str());
        push_str_chars(&mut out, ":");
        push_dec_signed(&mut out, self.port);
        crate::text::chars_to_string(&out)
    }

    pub fn security(&self) -> (r: SecurityProtocol<V>)
        ensures
            r == self.spec_security(),
    {
        self.security.duplicate()
    }

    pub fn request_size(&self) -> (r: usize)
        ensures
            r == self.spec_request_size(),
    {
        self.request_size
    }

    /// A configuration with every default in place.
    pub fn initialize() -> (r: Config<V>)
        ensures
            r.spec_ip() == "0.0.0.0"@,
            r.spec_port() == 7878,
            r.spec_security() is NoAuth,
            r.spec_request_size() == 10485760,
    {
        Config {
            port: 7878,
            ip: "0.0.0.0".to_owned(),
            security: SecurityProtocol::NoAuth,
            request_size: 10485760,
        }
    }

    pub fn with_request_size(self, size: &usize) -> (r: Config<V>)
        ensures
            r.spec_ip() == self.spec_ip(),
            r.spec_port() == self.spec_port(),
            r.spec_security() == self.spec_security(),
            r.spec_request_size() == *size as int,
    {
        Config { request_size: *size, ..self }
    }

    pub fn with_security(self, security: &SecurityProtocol<V>) -> (r: Config<V>)
        ensures
            r.spec_ip() == self.spec_ip(),
            r.spec_port() == self.spec_port(),
            r.spec_security() == *security,
            r.spec_request_size() == self.spec_request_size(),
    {
        Config { security: security.duplicate(), ..self }
    }

    pub fn with_adresse(self, ip: &str, port: &i32) -> (r: Config<V>)
        ensures
            r.spec_ip() == ip@,
            r.spec_port() == *port as int,
            r.spec_security() == self.spec_security(),
            r.spec_request_size() == self.spec_request_size(),
    {
        Config { ip: ip.to_owned(), port: *port, ..self }
    }
}

impl<V> Default for Config<V> where V: Fn((String, String)) -> bool + Copy {
    /// Same settings as `initialize`.
    fn default() -> (r: Config<V>)
        ensures
            r.spec_ip() == "0.0.0.0"@,
            r.spec_port() == 7878,
            r.spec_security() is NoAuth,
            r.spec_request_size() == 10485760,
    {
        Config::initialize()
    }
}

} // verus!
