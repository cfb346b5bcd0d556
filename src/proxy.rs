use crate::forwarded::{forwarded_result, get_forwarded_ip_from_headers};
use crate::ip::{ip_is_global, is_global, IpAddress};
use crate::matcher::{admits, compilable, compile_patterns, compiles_to, policy_admits, views_of, PathSegment, UriPathMatcher};
use hyper::HeaderMap;
use vstd::prelude::*;
use vstd::string::{StrSliceExecFns, StringExecFns};

verus! {

/// The body of the response sent when the upstream server cannot be reached.
pub const UPSTREAM_FAILURE_BODY: &'static str = "Something went wrong, please try again later.";

/// An error that carries only a message.
#[derive(Debug, Clone)]
pub struct StringError(pub String);

impl StringError {
    pub fn message(&self) -> (r: &String)
        ensures
            r@ == self.0@,
    {
        &self.0
    }
}

/// The upstream server: scheme, authority and an optional base path.
pub struct UpstreamUri {
    pub scheme: String,
    pub authority: String,
    pub base_path: String,
}

/// The HTTP version of an upstream response.
#[derive(Clone, Copy, Debug, PartialEq, Eq)]
pub enum HttpVersion {
    Http09,
    Http10,
    Http11,
    Http2,
    Other,
}

/// What to add to a request on its way upstream.
#[derive(Clone, Copy, Debug, PartialEq, Eq)]
pub enum EnrichmentPlan {
    /// Nothing: no global client address, or the path is not covered.
    Skip,
    /// Only `Prux-Addr` for this client address.
    AddressOnly(IpAddress),
    /// `Prux-Addr` and the location that a GeoIP lookup of the address gives.
    Lookup(IpAddress),
}

/// Per-listener request handling: where requests go, who the transport peer
/// is, the path policies and how to read forwarding headers.
pub struct Proxy {
    pub upstream_uri: UpstreamUri,
    pub source_ip: Option<IpAddress>,
    pub path_inclusions: Vec<UriPathMatcher>,
    pub path_exclusions: Option<Vec<UriPathMatcher>>,
    pub maxmind_path_inclusions: Vec<UriPathMatcher>,
    pub forwarded_ip_header: Option<String>,
    pub use_forwarded_ip_header_only: bool,
}

pub open spec fn exclusions_view(e: Option<Vec<UriPathMatcher>>) -> Option<Seq<Seq<PathSegment>>> {
    match e {
        Some(v) => Some(views_of(v@)),
        None => None,
    }
}

/// `ms` are the compiled forms of the patterns that compile, in order.
pub open spec fn compiled_list(ps: Seq<String>, ms: Seq<UriPathMatcher>) -> bool {
    &&& ms.len() == compilable(ps).len()
    &&& forall|i: int| 0 <= i < ms.len() ==> compiles_to(compilable(ps)[i], #[trigger] ms[i]@)
}

/// The base path as a prefix: without one trailing slash.
pub open spec fn base_prefix(b: Seq<char>) -> Seq<char> {
    if b.len() > 0 && b.last() == '/' {
        b.drop_last()
    } else {
        b
    }
}

/// The upstream URI of a request: the upstream scheme, authority and base
/// path, followed by the request's own path and query.
pub open spec fn target_of(u: UpstreamUri, path_and_query: Seq<char>) -> Seq<char> {
    u.scheme@ + "://"@ + u.authority@ + base_prefix(u.base_path@) + path_and_query
}

pub open spec fn version_text(v: HttpVersion) -> Seq<char> {
    match v {
        HttpVersion::Http09 => "0.9"@,
        HttpVersion::Http10 => "1.0"@,
        HttpVersion::Http11 => "1.1"@,
        _ => "2.0"@,
    }
}

/// The value of the `proxy-info` response header.
pub fn proxy_info(version: HttpVersion, semver: &str) -> (r: String)
    ensures
        r@ == version_text(version) + " prux-"@ + semver@,
{
    let mut r = match version {
        HttpVersion::Http09 => String::from_str("0.9"),
        HttpVersion::Http10 => String::from_str("1.0"),
        HttpVersion::Http11 => String::from_str("1.1"),
        _ => String::from_str("2.0"),
    };
    r.append(" prux-");
    r.append(semver);
    r
}

impl Proxy {
    /// The client address to act on: the forwarded one, else the transport
    /// peer; kept only when it is global and the path passes the policy.
    pub open spec fn effective(self, forwarded: Option<IpAddress>, path: Seq<char>) -> Option<
        IpAddress,
    > {
        let c = if forwarded is Some {
            forwarded
        } else {
            self.source_ip
        };
        if c is Some && is_global(c->0) && admits(
            views_of(self.path_inclusions@),
            exclusions_view(self.path_exclusions),
            path,
        ) {
            c
        } else {
            None
        }
    }

    pub open spec fn plan_for(self, forwarded: Option<IpAddress>, path: Seq<char>) -> EnrichmentPlan {
        match self.effective(forwarded, path) {
            None => EnrichmentPlan::Skip,
            Some(ip) => if admits(
                views_of(self.maxmind_path_inclusions@),
                exclusions_view(self.path_exclusions),
                path,
            ) {
                EnrichmentPlan::Lookup(ip)
            } else {
                EnrichmentPlan::AddressOnly(ip)
            },
        }
    }

    pub fn new(
        upstream_uri: UpstreamUri,
        source_ip: Option<IpAddress>,
        inclusions: Vec<String>,
        exclusions: Option<Vec<String>>,
        maxmind_inclusions: Vec<String>,
        forwarded_ip_header: Option<String>,
        use_forwarded_ip_header_only: bool,
    ) -> (r: Proxy)
        ensures
            r.upstream_uri == upstream_uri,
            r.source_ip == source_ip,
            compiled_list(inclusions@, r.path_inclusions@),
            compiled_list(maxmind_inclusions@, r.maxmind_path_inclusions@),
            exclusions is None <==> r.path_exclusions is None,
            exclusions matches Some(e) ==> compiled_list(e@, r.path_exclusions->0@),
            r.forwarded_ip_header == forwarded_ip_header,
            r.use_forwarded_ip_header_only == use_forwarded_ip_header_only,
    {
        let path_inclusions = compile_patterns(&inclusions);
        let maxmind_path_inclusions = compile_patterns(&maxmind_inclusions);
        let path_exclusions = match &exclusions {
            Some(e) => Some(compile_patterns(e)),
            None => None,
        };
        Proxy {
            upstream_uri,
            source_ip,
            path_inclusions,
            path_exclusions,
            maxmind_path_inclusions,
            forwarded_ip_header,
            use_forwarded_ip_header_only,
        }
    }

    /// Whether the path passes the policy for adding the client address.
    pub fn validate_path(&self, path: &str) -> (r: bool)
        ensures
            r == admits(views_of(self.path_inclusions@), exclusions_view(self.path_exclusions), path@),
    {
        policy_admits(&self.path_inclusions, &self.path_exclusions, path)
    }

    /// Whether the path passes the policy for GeoIP lookups.
    pub fn validate_maxmind_path(&self, path: &str) -> (r: bool)
        ensures
            r == admits(
                views_of(self.maxmind_path_inclusions@),
                exclusions_view(self.path_exclusions),
                path@,
            ),
    {
        policy_admits(&self.maxmind_path_inclusions, &self.path_exclusions, path)
    }

    /// The client address to act on, given the forwarded one.
    pub fn effective_ip(&self, forwarded: Option<IpAddress>, path: &str) -> (r: Option<IpAddress>)
        ensures
            r == self.effective(forwarded, path@),
    {
        let c = match forwarded {
            Some(f) => Some(f),
            None => self.source_ip,
        };
        match c {
            Some(ip) => if ip_is_global(&ip) && self.validate_path(path) {
                Some(ip)
            } else {
                None
            },
            None => None,
        }
    }

    /// What to add to a request for `path` that carries `headers`.
    pub fn plan(&self, headers: &HeaderMap, path: &str) -> (r: EnrichmentPlan)
        ensures
            exists|f: Option<IpAddress>|
                forwarded_result(
                    *headers,
                    match self.forwarded_ip_header {
                        Some(n) => Some(n@),
                        None => None,
                    },
                    self.use_forwarded_ip_header_only,
                    f,
                ) && r == self.plan_for(f, path@),
    {
        let name = match &self.forwarded_ip_header {
            Some(n) => Some(n.as_str()),
            None => None,
        };
        assert(crate::forwarded::name_of(name) == match self.forwarded_ip_header {
            Some(n) => Some(n@),
            None => None,
        });
        let f = get_forwarded_ip_from_headers(headers, name, self.use_forwarded_ip_header_only);
        let r = match self.effective_ip(f, path) {
            None => EnrichmentPlan::Skip,
            Some(ip) => if self.validate_maxmind_path(path) {
                EnrichmentPlan::Lookup(ip)
            } else {
                EnrichmentPlan::AddressOnly(ip)
            },
        };
        assert(forwarded_result(
            *headers,
            match self.forwarded_ip_header {
                Some(n) => Some(n@),
                None => None,
            },
            self.use_forwarded_ip_header_only,
            f,
        ));
        assert(r == self.plan_for(f, path@));
        r
    }

    /// The upstream URI for a request with this path and query.
    pub fn upstream_target(&self, path_and_query: &str) -> (r: String)
        ensures
            r@ == target_of(self.upstream_uri, path_and_query@),
    {
        let u = &self.upstream_uri;
        let mut r = u.scheme.clone();
        r.append("://");
        r.append(u.authority.as_str());
        let base = u.base_path.as_str();
        let n = base.unicode_len();
        if n > 0 && base.get_char(n - 1) == '/' {
            r.append(base.substring_char(0, n - 1));
        } else {
            r.append(base);
        }
        r.append(path_and_query);
        r
    }
}

/// A path that some inclusion admits and no exclusion matches is admitted;
/// `validate_path` answers `admits` of the unchanged policy on every call.
pub proof fn lemma_admitted_path_stays_admitted(
    inclusions: Seq<Seq<PathSegment>>,
    exclusions: Option<Seq<Seq<PathSegment>>>,
    path: Seq<char>,
    i: int,
)
    requires
        0 <= i < inclusions.len(),
        crate::matcher::matches_path(inclusions[i], path),
        !(exclusions matches Some(e) && crate::matcher::any_matches(e, path)),
    ensures
        admits(inclusions, exclusions, path),
{
}

/// The policy's answer depends on the patterns and the path alone.
pub proof fn lemma_policy_deterministic(p1: Proxy, p2: Proxy, path: Seq<char>)
    requires
        views_of(p1.path_inclusions@) == views_of(p2.path_inclusions@),
        exclusions_view(p1.path_exclusions) == exclusions_view(p2.path_exclusions),
    ensures
        admits(views_of(p1.path_inclusions@), exclusions_view(p1.path_exclusions), path) == admits(
            views_of(p2.path_inclusions@),
            exclusions_view(p2.path_exclusions),
            path,
        ),
{
}

} // verus!
