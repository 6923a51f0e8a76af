//! The transport layer: an authenticated JSON-over-HTTPS client description,
//! the requests it sends, and the transport error taxonomy.
use vstd::prelude::*;
use vstd::string::StrSliceExecFns;
use vstd::string::StringExecFns;

use crate::sm::pkey::{digits_text, radix_digits};

verus! {

/// What `url::Url::parse` decides of a text: whether it is an absolute URL.
pub uninterp spec fn url_parses(s: Seq<char>) -> bool;

/// What `url::Url::host_str` gives for the URL that a text parses to.
pub uninterp spec fn url_host(s: Seq<char>) -> Option<Seq<char>>;

/// What `url::Url::port` gives for the URL that a text parses to.
pub uninterp spec fn url_port(s: Seq<char>) -> Option<u16>;

/// The host and explicit port of a parsed URL.
pub struct UrlParts {
    pub host: Option<String>,
    pub port: Option<u16>,
}

pub open spec fn opt_text(o: Option<String>) -> Option<Seq<char>> {
    match o {
        Some(s) => Some(s@),
        None => None,
    }
}

/// Relies on `url::Url::parse` to read an absolute URL, and on its
/// `host_str` and `port` accessors for the host and the explicit port.
#[verifier::external_body]
pub(crate) fn parse_url(s: &str) -> (r: Option<UrlParts>)
    ensures
        r is Some <==> url_parses(s@),
        r matches Some(p) ==> opt_text(p.host) == url_host(s@) && p.port == url_port(s@),
{
    match url::Url::parse(s) {
        Ok(u) => Some(UrlParts { host: u.host_str().map(String::from), port: u.port() }),
        Err(_) => None,
    }
}

/// The transport error taxonomy.
pub enum RestError {
    Internal(String),
    Json(String),
    Http(String),
    NotFound(String),
    AuthFailure(String),
    InvalidConfig(String),
}

pub open spec fn quoted(m: Seq<char>) -> Seq<char> {
    seq!['\''] + m + seq!['\'']
}

/// The diagnostic text of a transport error.
pub open spec fn rest_error_text(e: RestError) -> Seq<char> {
    match e {
        RestError::Internal(m) => m@,
        RestError::Json(m) => m@,
        RestError::Http(m) => m@,
        RestError::NotFound(m) => quoted(m@) + " not found"@,
        RestError::AuthFailure(m) => "failed to auth "@ + quoted(m@),
        RestError::InvalidConfig(m) => "invalid configuration "@ + quoted(m@),
    }
}

/// `'m'`, with `pre` before it and `post` after it.
pub(crate) fn quote_between(pre: &str, m: &String, post: &str) -> (r: String)
    ensures
        r@ == pre@ + quoted(m@) + post@,
{
    proof {
        reveal_strlit("'");
    }
    let r = String::from_str(pre).concat("'").concat(m.as_str()).concat("'").concat(post);
    assert(r@ =~= pre@ + quoted(m@) + post@);
    r
}

impl RestError {
    /// The diagnostic text of this error.
    pub fn message(&self) -> (r: String)
        ensures
            r@ == rest_error_text(*self),
    {
        proof {
            reveal_strlit(" not found");
            reveal_strlit("failed to auth ");
            reveal_strlit("invalid configuration ");
            reveal_strlit("");
        }
        match self {
            RestError::Internal(m) => m.clone(),
            RestError::Json(m) => m.clone(),
            RestError::Http(m) => m.clone(),
            RestError::NotFound(m) => {
                let r = quote_between("", m, " not found");
                assert(r@ =~= quoted(m@) + " not found"@);
                r
            },
            RestError::AuthFailure(m) => {
                let r = quote_between("failed to auth ", m, "");
                assert(r@ =~= "failed to auth "@ + quoted(m@));
                r
            },
            RestError::InvalidConfig(m) => {
                let r = quote_between("invalid configuration ", m, "");
                assert(r@ =~= "invalid configuration "@ + quoted(m@));
                r
            },
        }
    }
}

/// Where a client connects and with which credentials.
pub struct RestConfig {
    pub address: String,
    pub username: String,
    pub password: String,
    /// Accept any server certificate, for services with self-signed ones.
    pub accept_invalid_certs: bool,
}

/// A response with no fields.
pub struct EmptyResponse {}

/// The HTTP methods that the clients use.
#[derive(Clone, Copy, Debug, PartialEq, Eq, Structural)]
pub enum RestMethod {
    Get,
    Put,
    Post,
    Delete,
    Patch,
}

/// One request: a method and a path below the server's root.
pub struct RestCall {
    pub method: RestMethod,
    pub path: String,
}

/// The port that a client uses when the URL names none.
pub const HTTPS_PORT: u16 = 443;

/// `host:port`, the port in decimal.
pub open spec fn host_port(host: Seq<char>, port: u16) -> Seq<char> {
    host + seq![':'] + radix_digits(port as nat, 10)
}

/// `s` without its leading `/` characters.
pub open spec fn trim_start_slashes(s: Seq<char>) -> Seq<char>
    decreases s.len(),
{
    if s.len() > 0 && s[0] == '/' {
        trim_start_slashes(s.drop_first())
    } else {
        s
    }
}

/// `s` without its trailing `/` characters.
pub open spec fn trim_end_slashes(s: Seq<char>) -> Seq<char>
    decreases s.len(),
{
    if s.len() > 0 && s.last() == '/' {
        trim_end_slashes(s.drop_last())
    } else {
        s
    }
}

/// `s` without leading or trailing `/` characters.
pub open spec fn trim_slashes(s: Seq<char>) -> Seq<char> {
    trim_end_slashes(trim_start_slashes(s))
}

/// The URL of a request: `https://`, the client's `host:port`, `/`, and the
/// path without leading or trailing slashes.
pub open spec fn request_url(address: Seq<char>, path: Seq<char>) -> Seq<char> {
    "https://"@ + address + seq!['/'] + trim_slashes(path)
}

/// Why no client can be made for `address`: it is not a URL, or it has no host.
pub open spec fn client_error_text(address: Seq<char>) -> Seq<char> {
    if url_parses(address) {
        "invalid host"@
    } else {
        "invalid url"@
    }
}

/// The port that a URL text names, else 443.
pub open spec fn url_port_or_https(address: Seq<char>) -> u16 {
    match url_port(address) {
        Some(p) => p,
        None => HTTPS_PORT,
    }
}

/// A client of a JSON REST service: `host:port` and basic-auth credentials.
pub struct RestClient {
    address: String,
    user: String,
    password: String,
    accept_invalid_certs: bool,
}

impl RestClient {
    pub closed spec fn address_view(&self) -> Seq<char> {
        self.address@
    }

    pub closed spec fn user_view(&self) -> Seq<char> {
        self.user@
    }

    pub closed spec fn password_view(&self) -> Seq<char> {
        self.password@
    }

    pub closed spec fn accepts_invalid_certs(&self) -> bool {
        self.accept_invalid_certs
    }

    /// Makes a client of `config`: the address must be an absolute URL with a
    /// host; the port is the URL's own, else 443.
    pub fn new(config: &RestConfig) -> (r: Result<RestClient, RestError>)
        ensures
            r is Ok <==> url_parses(config.address@) && url_host(config.address@) is Some,
            r matches Err(e) ==> e matches RestError::InvalidConfig(m) && m@ == client_error_text(
                config.address@,
            ),
            r matches Ok(c) ==> c.address_view() == host_port(
                url_host(config.address@).unwrap(),
                match url_port(config.address@) {
                    Some(p) => p,
                    None => HTTPS_PORT,
                },
            ) && c.user_view() == config.username@ && c.password_view() == config.password@
                && c.accepts_invalid_certs() == config.accept_invalid_certs,
    {
        proof {
            reveal_strlit("invalid url");
            reveal_strlit("invalid host");
        }
        let parts = match parse_url(config.address.as_str()) {
            Some(p) => p,
            None => {
                return Err(RestError::InvalidConfig(String::from_str("invalid url")));
            },
        };
        let host = match parts.host {
            Some(h) => h,
            None => {
                return Err(RestError::InvalidConfig(String::from_str("invalid host")));
            },
        };
        let port = match parts.port {
            Some(p) => p,
            None => HTTPS_PORT,
        };
        proof {
            reveal_strlit(":");
        }
        let digits = digits_text(port as u32, 10);
        let address = host.concat(":").concat(digits.as_str());
        assert(address@ =~= host_port(url_host(config.address@).unwrap(), port));
        Ok(
            RestClient {
                address,
                user: config.username.clone(),
                password: config.password.clone(),
                accept_invalid_certs: config.accept_invalid_certs,
            },
        )
    }

    /// The `host:port` that requests go to.
    pub fn address(&self) -> (r: &String)
        ensures
            r@ == self.address_view(),
    {
        &self.address
    }

    /// The basic-auth user name.
    pub fn user(&self) -> (r: &String)
        ensures
            r@ == self.user_view(),
    {
        &self.user
    }

    /// The basic-auth password.
    pub fn password(&self) -> (r: &String)
        ensures
            r@ == self.password_view(),
    {
        &self.password
    }

    /// Whether any server certificate is accepted.
    pub fn accept_invalid_certs(&self) -> (r: bool)
        ensures
            r == self.accepts_invalid_certs(),
    {
        self.accept_invalid_certs
    }

    /// The URL that a request on `path` goes to.
    pub fn url(&self, path: &str) -> (r: String)
        ensures
            r@ == request_url(self.address_view(), path@),
    {
        proof {
            reveal_strlit("https://");
            reveal_strlit("/");
        }
        let trimmed = trim_slashes_text(path);
        let r = String::from_str("https://").concat(self.address.as_str()).concat("/").concat(
            trimmed.as_str(),
        );
        assert(r@ =~= request_url(self.address_view(), path@));
        r
    }
}

proof fn lemma_trim_start_index(s: Seq<char>, i: int)
    requires
        0 <= i <= s.len(),
        forall|j: int| 0 <= j < i ==> s[j] == '/',
    ensures
        trim_start_slashes(s) == trim_start_slashes(s.subrange(i, s.len() as int)),
    decreases i,
{
    if i > 0 {
        let t = s.drop_first();
        assert(t.subrange(i - 1, t.len() as int) =~= s.subrange(i, s.len() as int));
        lemma_trim_start_index(t, i - 1);
    } else {
        assert(s.subrange(0, s.len() as int) =~= s);
    }
}

proof fn lemma_trim_end_index(s: Seq<char>, k: int)
    requires
        0 <= k <= s.len(),
        forall|j: int| k <= j < s.len() ==> s[j] == '/',
    ensures
        trim_end_slashes(s) == trim_end_slashes(s.subrange(0, k)),
    decreases s.len() - k,
{
    if k < s.len() {
        let t = s.drop_last();
        assert(t.subrange(0, k) =~= s.subrange(0, k));
        lemma_trim_end_index(t, k);
    } else {
        assert(s.subrange(0, k) =~= s);
    }
}

/// `s` without leading or trailing `/` characters.
fn trim_slashes_text(s: &str) -> (r: String)
    ensures
        r@ == trim_slashes(s@),
{
    let n = s.unicode_len();
    let mut lo: usize = 0;
    while lo < n && s.get_char(lo) == '/'
        invariant
            lo <= n,
            n == s@.len(),
            forall|j: int| 0 <= j < lo ==> s@[j] == '/',
        decreases n - lo,
    {
        lo = lo + 1;
    }
    proof {
        lemma_trim_start_index(s@, lo as int);
    }
    let ghost t = s@.subrange(lo as int, n as int);
    assert(trim_start_slashes(t) == t);
    let mut hi: usize = n;
    while hi > lo && s.get_char(hi - 1) == '/'
        invariant
            lo <= hi <= n,
            n == s@.len(),
            forall|j: int| hi <= j < n ==> s@[j] == '/',
        decreases hi,
    {
        hi = hi - 1;
    }
    proof {
        let u = s@.subrange(lo as int, hi as int);
        if u.len() > 0 {
            assert(u.last() == s@[hi - 1]);
        }
        assert(trim_end_slashes(u) == u);
        assert forall|j: int| hi - lo <= j < t.len() implies t[j] == '/' by {
            assert(t[j] == s@[j + lo]);
        }
        lemma_trim_end_index(t, hi - lo);
        assert(t.subrange(0, hi - lo) =~= s@.subrange(lo as int, hi as int));
    }
    String::from_str(s.substring_char(lo, hi))
}

} // verus!
