//! What is kept of a request for the stages that run after its handler.

use crate::method::Method;
use crate::params::lookup;
use crate::params::Binding;
use vstd::prelude::*;
use vstd::string::StringExecFns;

verus! {

/// The network address of a peer.
#[derive(Clone, Copy, PartialEq, Eq, Structural, Debug)]
pub enum IpAddress {
    /// An IPv4 address, as its 32 bits.
    V4(u32),
    /// An IPv6 address, as its 128 bits.
    V6(u128),
}

/// The address a request came from.
#[derive(Clone, Copy, PartialEq, Eq, Structural, Debug)]
pub struct RemoteAddr {
    pub ip: IpAddress,
    pub port: u16,
}

/// A snapshot of a request's method, target, headers and origin, taken
/// once, before any stage has had the request.
#[derive(Clone, Debug)]
pub struct RequestInfo {
    method: Method,
    uri: String,
    headers: Vec<(String, String)>,
    remote_addr: RemoteAddr,
}

/// The mathematical value of a [`RequestInfo`].
pub struct RequestInfoModel {
    pub method: Method,
    pub uri: Seq<char>,
    pub headers: Seq<Binding>,
    pub remote_addr: RemoteAddr,
}

/// The names and values held by a list of header pairs.
pub open spec fn header_texts(headers: Seq<(String, String)>) -> Seq<Binding> {
    headers.map_values(|h: (String, String)| (h.0@, h.1@))
}

impl View for RequestInfo {
    type V = RequestInfoModel;

    closed spec fn view(&self) -> RequestInfoModel {
        RequestInfoModel {
            method: self.method,
            uri: self.uri@,
            headers: header_texts(self.headers@),
            remote_addr: self.remote_addr,
        }
    }
}

impl RequestInfo {
    /// Takes the snapshot.
    pub fn new(method: Method, uri: &str, headers: Vec<(String, String)>, remote_addr: RemoteAddr) -> (info:
        RequestInfo)
        ensures
            info@ == (RequestInfoModel {
                method,
                uri: uri@,
                headers: header_texts(headers@),
                remote_addr,
            }),
    {
        RequestInfo { method, uri: String::from_str(uri), headers, remote_addr }
    }

    /// The request's method.
    pub fn method(&self) -> (m: Method)
        ensures
            m == self@.method,
    {
        self.method
    }

    /// The request's target as it came in.
    pub fn uri(&self) -> (u: &String)
        ensures
            u@ == self@.uri,
    {
        &self.uri
    }

    /// The address the request came from.
    pub fn remote_addr(&self) -> (a: RemoteAddr)
        ensures
            a == self@.remote_addr,
    {
        self.remote_addr
    }

    /// The number of header lines.
    pub fn header_count(&self) -> (n: usize)
        ensures
            n == self@.headers.len(),
    {
        self.headers.len()
    }

    /// The value of the first header line called `name`.
    pub fn header(&self, name: &str) -> (value: Option<&String>)
        ensures
            match value {
                Some(v) => lookup(self@.headers, name@) == Some(v@),
                None => lookup(self@.headers, name@) is None,
            },
    {
        let wanted = String::from_str(name);
        let mut i: usize = 0;
        assert(self@.headers.skip(0) =~= self@.headers);
        while i < self.headers.len()
            invariant
                i <= self.headers.len(),
                wanted@ == name@,
                lookup(self@.headers, name@) == lookup(self@.headers.skip(i as int), name@),
            decreases self.headers.len() - i,
        {
            assert(self@.headers.skip(i as int)[0] == self@.headers[i as int]);
            assert(self@.headers.skip(i as int).skip(1) =~= self@.headers.skip(i + 1));
            if self.headers[i].0 == wanted {
                return Some(&self.headers[i].1);
            }
            i += 1;
        }
        None
    }
}

} // verus!
