//! Anonymous page analytics: the device class of a visitor, which requests
//! are recorded, the referrer host kept of a `Referer` header, the client
//! address header to trust, and the defaults of the dashboard's ranges.

use vstd::prelude::*;

use crate::auth::AuthStatus;
use crate::text::{
    ascii_lower_seq, chars_contain, chars_of, has_substring, is_prefix, starts_with, str_eq,
    string_from_chars, to_ascii_lowercase, trim_prefix, trim_spec,
};

verus! {

// ── Devices ───────────────────────────────────────────────────────────────────

/// The coarse device class of a visitor.
#[derive(Debug, Clone, Copy, PartialEq, Eq, Structural)]
pub enum Device {
    Mobile,
    Desktop,
    Bot,
    Other,
}

impl Device {
    pub open spec fn as_str_view(self) -> Seq<char> {
        match self {
            Device::Mobile => "mobile"@,
            Device::Desktop => "desktop"@,
            Device::Bot => "bot"@,
            Device::Other => "other"@,
        }
    }

    /// The class of a User-Agent: a bot when its lower-cased text mentions
    /// `bot`, `crawler`, `spider`, `curl` or `wget`; else mobile when it
    /// mentions `mobile`, `android` or `iphone`; else desktop when it
    /// mentions `mozilla`; otherwise (and without a User-Agent) other.
    pub open spec fn from_user_agent_spec(ua: Option<Seq<char>>) -> Device {
        match ua {
            None => Device::Other,
            Some(s) => {
                let l = ascii_lower_seq(s);
                if has_substring(l, "bot"@) || has_substring(l, "crawler"@) || has_substring(
                    l,
                    "spider"@,
                ) || has_substring(l, "curl"@) || has_substring(l, "wget"@) {
                    Device::Bot
                } else if has_substring(l, "mobile"@) || has_substring(l, "android"@)
                    || has_substring(l, "iphone"@) {
                    Device::Mobile
                } else if has_substring(l, "mozilla"@) {
                    Device::Desktop
                } else {
                    Device::Other
                }
            },
        }
    }

    pub fn as_str(self) -> (r: &'static str)
        ensures
            r@ == self.as_str_view(),
    {
        match self {
            Device::Mobile => "mobile",
            Device::Desktop => "desktop",
            Device::Bot => "bot",
            Device::Other => "other",
        }
    }

    /// Coarse classification from a User-Agent string.
    /// Intentionally simple — we do not fingerprint.
    pub fn from_user_agent(ua: Option<&str>) -> (r: Device)
        ensures
            r == Device::from_user_agent_spec(
                match ua {
                    Some(s) => Some(s@),
                    None => None,
                },
            ),
    {
        let ua = match ua {
            Some(s) => s,
            None => return Device::Other,
        };
        let lower = to_ascii_lowercase(ua);
        let is_bot = mentions(&lower, "bot") || mentions(&lower, "crawler") || mentions(&lower, "spider")
            || mentions(&lower, "curl") || mentions(&lower, "wget");
        if is_bot {
            Device::Bot
        } else if mentions(&lower, "mobile") || mentions(&lower, "android") || mentions(&lower, "iphone") {
            Device::Mobile
        } else if mentions(&lower, "mozilla") {
            Device::Desktop
        } else {
            Device::Other
        }
    }
}

fn mentions(hay: &Vec<char>, needle: &str) -> (r: bool)
    ensures
        r == has_substring(hay@, needle@),
{
    let n = chars_of(needle);
    chars_contain(hay, &n)
}

// ── Aggregates ────────────────────────────────────────────────────────────────

/// Visits of one path.
#[derive(Debug)]
pub struct PathCount {
    pub path: String,
    pub count: i64,
}

/// Visits from one referrer host.
#[derive(Debug)]
pub struct ReferrerCount {
    pub referrer: String,
    pub count: i64,
}

/// Visits from one country.
#[derive(Debug)]
pub struct CountryCount {
    pub country: String,
    pub count: i64,
}

/// Visits from one device class.
#[derive(Debug)]
pub struct DeviceCount {
    pub device: String,
    pub count: i64,
}

// ── Recording ─────────────────────────────────────────────────────────────────

/// The requests that are not recorded: admin and auth pages, the favicon
/// and static files.
pub open spec fn should_skip_spec(path: Seq<char>) -> bool {
    is_prefix("/admin"@, path) || is_prefix("/auth"@, path) || path == "/favicon.ico"@ || is_prefix(
        "/static/"@,
        path,
    )
}

/// Whether a request to `path` goes unrecorded.
pub fn should_skip(path: &str) -> (r: bool)
    ensures
        r == should_skip_spec(path@),
{
    starts_with(path, "/admin") || starts_with(path, "/auth") || str_eq(path, "/favicon.ico")
        || starts_with(path, "/static/")
}

/// The host of the URL `raw`, as `url` parses it.
pub uninterp spec fn url_host(raw: Seq<char>) -> Option<Seq<char>>;

/// `url::Url::parse` followed by `Url::host_str`: the host of `raw` when it
/// parses as a URL that has one. What the parser accepts is left to the name.
#[verifier::external_body]
fn parse_url_host(raw: &str) -> (r: Option<String>)
    ensures
        match r {
            Some(h) => url_host(raw@) == Some(h@),
            None => url_host(raw@) is None,
        },
{
    url::Url::parse(raw).ok().and_then(|u| u.host_str().map(|h| h.to_string()))
}

/// The host of the `Referer` header, which alone is kept: no path or query
/// string of the referring site.
pub fn extract_referrer_host(raw: Option<&str>) -> (r: Option<String>)
    ensures
        match raw {
            None => r is None,
            Some(s) => match url_host(s@) {
                Some(h) => r matches Some(x) && x@ == h,
                None => r is None,
            },
        },
{
    match raw {
        None => None,
        Some(s) => parse_url_host(s),
    }
}

/// The text before the first comma, or all of `s` when it has none.
pub open spec fn before_comma(s: Seq<char>) -> Seq<char> {
    match crate::find::first_where(s.len() as int, |i: int| s[i] == ',') {
        Some(i) => s.take(i),
        None => s,
    }
}

/// The first address of an `X-Forwarded-For` header: its text before the
/// first comma, trimmed.
pub fn first_forwarded(header: &str) -> (r: String)
    ensures
        r@ == trim_spec(before_comma(header@)),
{
    let cs = chars_of(header);
    let ghost pred = |i: int| header@[i] == ',';
    let mut end: usize = 0;
    while end < cs.len() && cs[end] != ','
        invariant
            cs@ == header@,
            0 <= end <= cs@.len(),
            pred == (|i: int| header@[i] == ','),
            forall|j: int| 0 <= j < end ==> !#[trigger] pred(j),
        decreases cs@.len() - end,
    {
        end = end + 1;
    }
    proof {
        if end < cs@.len() {
            crate::find::lemma_first_where_found(header@.len() as int, pred, end as int);
        } else {
            crate::find::lemma_first_where_range(header@.len() as int, pred);
        }
    }
    let ghost seg = before_comma(header@);
    assert(seg =~= cs@.take(end as int));
    let out = trim_prefix(&cs, end);
    string_from_chars(&out)
}

// ── Countries ─────────────────────────────────────────────────────────────────

/// The country lookup that knows no country: the provider of a plain build,
/// good for local use.
#[derive(Debug, Clone, Copy)]
pub struct NoopGeoIp;

impl NoopGeoIp {
    /// The ISO 3166-1 alpha-2 code of the country of `ip`: always unknown.
    pub fn lookup(&self, ip: &str) -> (r: Option<String>)
        ensures
            r is None,
    {
        None
    }
}

// ── Dashboard ─────────────────────────────────────────────────────────────────

/// The range of a dashboard query: the last `days` days, the top `limit`.
#[derive(Debug, Clone, Copy)]
pub struct RangeParams {
    pub days: u32,
    pub limit: u32,
}

/// The number of days a dashboard query covers when none is given.
pub fn default_days() -> (r: u32)
    ensures
        r == 30,
{
    30
}

/// The number of entries a top-N dashboard query returns when none is given.
pub fn default_limit() -> (r: u32)
    ensures
        r == 10,
{
    10
}

/// Refusal of a dashboard request without the admin session.
#[derive(Debug, Clone, Copy, PartialEq, Eq, Structural)]
pub struct Unauthorized;

/// Lets a dashboard request through unless auth is enabled and the visitor
/// is not logged in.
pub fn guard(auth: &AuthStatus) -> (r: Result<(), Unauthorized>)
    ensures
        r is Err <==> (auth.enabled && !auth.logged_in),
{
    if auth.enabled && !auth.logged_in {
        Err(Unauthorized)
    } else {
        Ok(())
    }
}

} // verus!
