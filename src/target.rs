use vstd::prelude::*;
use vstd::string::StrSliceExecFns;
use vstd::string::StringExecFns;

use crate::message::{Request, RequestBuilder, RequestView};
use crate::number::{nat_digits, push_digits};

verus! {

/// Where a request goes, read from an absolute URL.
pub struct Target {
    pub scheme: String,
    pub host: Option<String>,
    /// The port written in the URL, absent where it is the scheme's default.
    pub port: Option<u16>,
    pub path: String,
}

/// A target as plain text: scheme, host, port and path.
pub type TargetView = (Seq<char>, Option<Seq<char>>, Option<u16>, Seq<char>);

impl View for Target {
    type V = TargetView;

    open spec fn view(&self) -> TargetView {
        (
            self.scheme@,
            match self.host {
                Some(h) => Some(h@),
                None => None,
            },
            self.port,
            self.path@,
        )
    }
}

/// The scheme, host, port and path that the URL standard reads from `s`, or
/// `None` where `s` is no absolute URL.
pub uninterp spec fn url_parts(s: Seq<char>) -> Option<TargetView>;

/// Relies on `url::Url::parse` and on the parsed URL's `scheme`, `host_str`,
/// `port` and `path`, which depend on the text of the URL alone.
#[verifier::external_body]
fn read_url(s: &str) -> (r: Option<Target>)
    ensures
        match url_parts(s@) {
            Some(p) => r matches Some(t) && t@ == p,
            None => r is None,
        },
{
    match url::Url::parse(s) {
        Ok(u) => Some(
            Target {
                scheme: u.scheme().to_string(),
                host: u.host_str().map(String::from),
                port: u.port(),
                path: u.path().to_string(),
            },
        ),
        Err(_) => None,
    }
}

pub open spec fn https() -> Seq<char> {
    seq!['h', 't', 't', 'p', 's']
}

/// 443 for `https`, 80 for any other scheme.
pub open spec fn default_port_spec(scheme: Seq<char>) -> u16 {
    if scheme == https() {
        443
    } else {
        80
    }
}

/// The port a target is reached on: the one in the URL, else the scheme's.
pub open spec fn port_of(t: TargetView) -> u16 {
    match t.2 {
        Some(p) => p,
        None => default_port_spec(t.0),
    }
}

/// `<host>:<port>`
pub open spec fn address_text(host: Seq<char>, port: u16) -> Seq<char> {
    host + seq![':'] + nat_digits(port as nat)
}

/// The request sent to a host: the given method and path, the headers
/// `Host`, `User-Agent` and `Accept`, and an empty body.
pub open spec fn request_to(method: Seq<char>, t: TargetView, host: Seq<char>) -> RequestView {
    RequestView {
        method: method,
        path: t.3,
        headers: seq![
            ("Host"@, address_text(host, port_of(t))),
            ("User-Agent"@, "rurl/1.0"@),
            ("Accept"@, "*/*"@),
        ],
        body: Seq::empty(),
    }
}

pub fn default_port_for(scheme: &str) -> (r: u16)
    ensures
        r == default_port_spec(scheme@),
{
    proof {
        reveal_strlit("https");
    }
    let wanted = "https";
    assert(wanted@ =~= https());
    if scheme.unicode_len() != 5 {
        return 80;
    }
    let mut i: usize = 0;
    while i < 5
        invariant
            scheme@.len() == 5,
            wanted@ == https(),
            i <= 5,
            forall|k: int| 0 <= k < i ==> scheme@[k] == https()[k],
        decreases 5 - i,
    {
        if scheme.get_char(i) != wanted.get_char(i) {
            return 80;
        }
        i = i + 1;
    }
    assert(scheme@ =~= https());
    443
}

impl Target {
    /// Reads the target of an absolute URL; `None` where the URL is invalid.
    pub fn parse(url: &str) -> (r: Option<Target>)
        ensures
            match url_parts(url@) {
                Some(p) => r matches Some(t) && t@ == p,
                None => r is None,
            },
    {
        read_url(url)
    }

    /// The port to connect to: the URL's own, else the scheme's default.
    pub fn port_or_default(&self) -> (r: u16)
        ensures
            r == port_of(self@),
    {
        match self.port {
            Some(p) => p,
            None => default_port_for(self.scheme.as_str()),
        }
    }

    /// `<host>:<port>`, the address to connect to and the `Host` header;
    /// `None` where the URL names no host.
    pub fn address(&self) -> (r: Option<String>)
        ensures
            match self@.1 {
                Some(h) => r matches Some(a) && a@ == address_text(h, port_of(self@)),
                None => r is None,
            },
    {
        match &self.host {
            Some(h) => {
                let mut a = h.clone();
                proof {
                    reveal_strlit(":");
                }
                a.append(":");
                push_digits(&mut a, self.port_or_default() as u32);
                Some(a)
            },
            None => None,
        }
    }

    /// The request for this target with the given method; `None` where the
    /// URL names no host.
    pub fn request(&self, method: &str) -> (r: Option<Request>)
        ensures
            match self@.1 {
                Some(h) => r matches Some(q) && q@ == request_to(method@, self@, h),
                None => r is None,
            },
    {
        let address = match self.address() {
            Some(a) => a,
            None => {
                return None;
            },
        };
        let b = RequestBuilder::new().method(method).path(self.path.as_str()).add_header(
            "Host",
            address.as_str(),
        ).add_header("User-Agent", "rurl/1.0").add_header("Accept", "*/*").body("");
        proof {
            reveal_strlit("");
        }
        let q = b.finalize();
        assert(q@.body =~= Seq::<char>::empty());
        assert(q@.headers =~= request_to(method@, self@, self@.1->0).headers);
        Some(q)
    }
}

/// The request for an absolute URL with the given method; `None` where the
/// URL is invalid or names no host.
pub fn request_for_url(method: &str, url: &str) -> (r: Option<Request>)
    ensures
        match url_parts(url@) {
            Some(t) => match t.1 {
                Some(h) => r matches Some(q) && q@ == request_to(method@, t, h),
                None => r is None,
            },
            None => r is None,
        },
{
    match Target::parse(url) {
        Some(t) => t.request(method),
        None => None,
    }
}

} // verus!
