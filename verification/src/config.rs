//! The provider URL setting: validated once, at startup.

use url::Url;
use vstd::prelude::*;
use vstd::utf8::encode_utf8;

use crate::json::{digits_value, is_digit, lemma_digits_value_prefix};
use crate::text::{contains_bytes, lemma_encode_utf8_concat, push_str_bytes, seq_contains, string_of_encoded};

verus! {

/// A parsed URL, as the service reads it: its serialization (which parses
/// back to the same URL) and its host, where it has one.
#[derive(Debug, Clone)]
pub struct ParsedUrl {
    pub serialization: String,
    pub host: Option<String>,
}

/// The characters of an optional string.
pub open spec fn host_view(host: Option<String>) -> Option<Seq<char>> {
    match host {
        Some(h) => Some(h@),
        None => None,
    }
}

/// A setting that is absent or does not parse.
#[derive(Debug)]
pub enum ConfigError {
    /// The named variable is not set.
    Missing(&'static str),
    /// The named variable holds a value that does not parse, with the reason.
    Invalid(&'static str, String),
}

impl ConfigError {
    /// The human-readable message.
    pub open spec fn spec_message(&self) -> Seq<char> {
        match self {
            ConfigError::Missing(name) => "missing required environment variable: "@ + name@,
            ConfigError::Invalid(name, detail) => "invalid value for "@ + name@ + ": "@ + detail@,
        }
    }

    /// The human-readable message.
    pub fn message(&self) -> (message: String)
        ensures
            message@ == self.spec_message(),
    {
        let mut bytes: Vec<u8> = Vec::new();
        match self {
            ConfigError::Missing(name) => {
                let head = "missing required environment variable: ";
                push_str_bytes(&mut bytes, head);
                push_str_bytes(&mut bytes, name);
                proof {
                    lemma_encode_utf8_concat(head@, name@);
                }
                string_of_encoded(bytes, Ghost(head@ + name@))
            },
            ConfigError::Invalid(name, detail) => {
                let head = "invalid value for ";
                let sep = ": ";
                push_str_bytes(&mut bytes, head);
                push_str_bytes(&mut bytes, name);
                push_str_bytes(&mut bytes, sep);
                push_str_bytes(&mut bytes, detail.as_str());
                proof {
                    lemma_encode_utf8_concat(head@, name@);
                    lemma_encode_utf8_concat(head@ + name@, sep@);
                    lemma_encode_utf8_concat(head@ + name@ + sep@, detail@);
                    assert(bytes@ =~= encode_utf8(head@ + name@ + sep@ + detail@));
                }
                string_of_encoded(bytes, Ghost(head@ + name@ + sep@ + detail@))
            },
        }
    }
}

/// What parsing `raw` as a URL yields with the `url` crate: `None` when it
/// parses, else the rendered parse error.
pub uninterp spec fn url_parse_error(raw: Seq<char>) -> Option<Seq<char>>;

/// The serialization (`Url::as_str`) of the URL that `raw` parses to with
/// the `url` crate.
pub uninterp spec fn url_serialization(raw: Seq<char>) -> Seq<char>;

/// The host (`Url::host_str`) of the URL that `raw` parses to with the `url`
/// crate; `None` for a URL without one.
pub uninterp spec fn url_host(raw: Seq<char>) -> Option<Seq<char>>;

/// `str::parse::<url::Url>`, read as plain values: on success the URL's
/// serialization and host, on failure the parse error rendered by
/// `to_string`. Each is a function of `raw` alone, named above.
#[verifier::external_body]
fn parse_url(raw: &str) -> (res: Result<ParsedUrl, String>)
    ensures
        match res {
            Ok(u) => url_parse_error(raw@) is None && u.serialization@ == url_serialization(raw@)
                && host_view(u.host) == url_host(raw@),
            Err(e) => url_parse_error(raw@) == Some(e@),
        },
{
    match raw.parse::<Url>() {
        Ok(u) => Ok(ParsedUrl { serialization: u.as_str().to_string(), host: u.host_str().map(String::from) }),
        Err(e) => Err(e.to_string()),
    }
}

/// Appended to the parse error of a value that has no scheme separator.
pub open spec fn scheme_hint() -> Seq<char> {
    " — did you forget the http:// or https:// prefix?"@
}

/// The detail of an invalid `RPC_URL`: the parse error, with the hint when
/// the value has no `://`.
pub open spec fn invalid_rpc_url_detail(raw: Seq<char>, error: Seq<char>) -> Seq<char> {
    if seq_contains(encode_utf8(raw), encode_utf8("://"@)) {
        error
    } else {
        error + scheme_hint()
    }
}

/// Reads the `RPC_URL` setting from its raw value: the URL it parses to,
/// `Missing` when unset, `Invalid` with the parse error (and the scheme hint
/// where the value has no `://`) when it does not parse as a URL.
pub fn rpc_url_from_setting(raw: Option<String>) -> (res: Result<ParsedUrl, ConfigError>)
    ensures
        match raw {
            None => res matches Err(ConfigError::Missing(name)) && name@ == "RPC_URL"@,
            Some(value) => match url_parse_error(value@) {
                None => res matches Ok(u) && u.serialization@ == url_serialization(value@) && host_view(u.host)
                    == url_host(value@),
                Some(e) => res matches Err(ConfigError::Invalid(name, detail)) && name@ == "RPC_URL"@
                    && detail@ == invalid_rpc_url_detail(value@, e),
            },
        },
{
    let value = match raw {
        None => return Err(ConfigError::Missing("RPC_URL")),
        Some(value) => value,
    };
    match parse_url(value.as_str()) {
        Ok(url) => Ok(url),
        Err(e) => {
            let sep = "://";
            let has_scheme = contains_bytes(value.as_str().as_bytes(), sep.as_bytes());
            if has_scheme {
                Err(ConfigError::Invalid("RPC_URL", e))
            } else {
                let hint = " — did you forget the http:// or https:// prefix?";
                let mut bytes: Vec<u8> = Vec::new();
                push_str_bytes(&mut bytes, e.as_str());
                push_str_bytes(&mut bytes, hint);
                proof {
                    lemma_encode_utf8_concat(e@, hint@);
                    reveal_strlit(" — did you forget the http:// or https:// prefix?");
                }
                let detail = string_of_encoded(bytes, Ghost(e@ + hint@));
                Err(ConfigError::Invalid("RPC_URL", detail))
            }
        },
    }
}

/// The listening address the service settles on: the default one, or the
/// one the `BIND_ADDR` setting parsed to.
#[derive(Debug, PartialEq, Eq)]
pub enum BindAddr<A> {
    /// `127.0.0.1:3000`, as IPv4 octets and a port.
    Default([u8; 4], u16),
    /// The parsed setting.
    Given(A),
}

/// Reads the `BIND_ADDR` setting from its raw value and what that value
/// parsed to (`None` when it does not parse as a socket address): unset
/// gives the default `127.0.0.1:3000`, a value that parses gives its
/// address, and any other value is `Invalid` with the value itself as the
/// detail.
pub fn bind_addr_from_setting<A>(raw: Option<String>, parsed: Option<A>) -> (res: Result<BindAddr<A>, ConfigError>)
    ensures
        match raw {
            None => res matches Ok(BindAddr::Default(ip, port)) && ip@ == seq![127u8, 0, 0, 1] && port == 3000,
            Some(value) => match parsed {
                Some(a) => res == Ok::<BindAddr<A>, ConfigError>(BindAddr::Given(a)),
                None => res matches Err(ConfigError::Invalid(name, detail)) && name@ == "BIND_ADDR"@
                    && detail@ == value@,
            },
        },
{
    match raw {
        None => {
            let ip: [u8; 4] = [127, 0, 0, 1];
            assert(ip@ =~= seq![127u8, 0, 0, 1]);
            Ok(BindAddr::Default(ip, 3000))
        },
        Some(value) => match parsed {
            Some(a) => Ok(BindAddr::Given(a)),
            None => Err(ConfigError::Invalid("BIND_ADDR", value)),
        },
    }
}

/// Reads the chaos proxy's `CHAOS_UPSTREAM_URL` setting from its raw value:
/// the URL it parses to, `Missing` when unset, `Invalid` with the parse
/// error when it does not parse as a URL.
pub fn upstream_url_from_setting(raw: Option<String>) -> (res: Result<ParsedUrl, ConfigError>)
    ensures
        match raw {
            None => res matches Err(ConfigError::Missing(name)) && name@ == "CHAOS_UPSTREAM_URL"@,
            Some(value) => match url_parse_error(value@) {
                None => res matches Ok(u) && u.serialization@ == url_serialization(value@) && host_view(u.host)
                    == url_host(value@),
                Some(e) => res matches Err(ConfigError::Invalid(name, detail)) && name@
                    == "CHAOS_UPSTREAM_URL"@ && detail@ == e,
            },
        },
{
    let value = match raw {
        None => return Err(ConfigError::Missing("CHAOS_UPSTREAM_URL")),
        Some(value) => value,
    };
    match parse_url(value.as_str()) {
        Ok(url) => Ok(url),
        Err(e) => Err(ConfigError::Invalid("CHAOS_UPSTREAM_URL", e)),
    }
}

/// The digits of a decimal text once an optional leading `+` is set aside.
pub open spec fn unsigned_digits(b: Seq<u8>) -> Seq<u8> {
    if b.len() > 0 && b[0] == 0x2b {
        b.drop_first()
    } else {
        b
    }
}

/// What std's `u64::from_str` gives for the bytes `b`: an optional `+`, then
/// at least one ASCII digit and nothing else, with a value that fits in a
/// `u64`; anything else is an error.
pub open spec fn spec_parse_u64(b: Seq<u8>) -> Option<u64> {
    let d = unsigned_digits(b);
    if d.len() == 0 || !(forall|i: int| 0 <= i < d.len() ==> #[trigger] is_digit(d[i])) || digits_value(d)
        > u64::MAX {
        None
    } else {
        Some(digits_value(d) as u64)
    }
}

/// The value of a decimal text, as `spec_parse_u64` says.
pub fn parse_u64(b: &[u8]) -> (res: Option<u64>)
    ensures
        res == spec_parse_u64(b@),
{
    let n = b.len();
    let start: usize = if n > 0 && b[0] == 0x2b { 1 } else { 0 };
    let ghost d = unsigned_digits(b@);
    assert(d =~= b@.subrange(start as int, n as int));
    if start == n {
        return None;
    }
    let mut acc: u64 = 0;
    let mut i: usize = start;
    assert(d.subrange(0, 0) =~= Seq::<u8>::empty());
    while i < n
        invariant
            n == b@.len(),
            start <= i <= n,
            d == b@.subrange(start as int, n as int),
            d == unsigned_digits(b@),
            forall|k: int| 0 <= k < i - start ==> #[trigger] is_digit(d[k]),
            acc == digits_value(d.subrange(0, i - start)),
        decreases n - i,
    {
        let c = b[i];
        assert(d[i - start] == c);
        if c < 0x30 || c > 0x39 {
            assert(!is_digit(d[i - start]));
            return None;
        }
        assert(d.subrange(0, i + 1 - start).drop_last() =~= d.subrange(0, i - start));
        let next = match acc.checked_mul(10) {
            Some(m) => m.checked_add((c - 0x30) as u64),
            None => None,
        };
        match next {
            Some(v) => {
                acc = v;
            },
            None => {
                proof {
                    lemma_digits_value_prefix(d, i + 1 - start);
                    if forall|k: int| 0 <= k < d.len() ==> #[trigger] is_digit(d[k]) {
                        assert(digits_value(d) > u64::MAX);
                    }
                }
                return None;
            },
        }
        i = i + 1;
    }
    assert(d.subrange(0, n - start) =~= d);
    Some(acc)
}

/// Reads the chaos proxy's `CHAOS_RATE` setting from its raw value: the
/// number it parses to, or 10 (one response in ten) when it is unset or does
/// not parse.
pub fn chaos_rate_from_setting(raw: Option<String>) -> (rate: u64)
    ensures
        rate == match raw {
            Some(v) => match spec_parse_u64(encode_utf8(v@)) {
                Some(n) => n,
                None => 10,
            },
            None => 10,
        },
{
    match raw {
        None => 10,
        Some(v) => match parse_u64(v.as_str().as_bytes()) {
            Some(n) => n,
            None => 10,
        },
    }
}

/// The chaos proxy's listening address as text, from its
/// `CHAOS_BIND_ADDR` setting: the value itself, or `127.0.0.1:8547` when it
/// is unset.
pub fn chaos_bind_addr_text(raw: Option<String>) -> (text: String)
    ensures
        text@ == match raw {
            Some(v) => v@,
            None => "127.0.0.1:8547"@,
        },
{
    match raw {
        Some(v) => v,
        None => "127.0.0.1:8547".to_string(),
    }
}

/// What the startup banner shows of the upstream: its host, or `<unknown>`
/// for a URL without one.
pub fn banner_host(url: &ParsedUrl) -> (host: String)
    ensures
        host@ == match host_view(url.host) {
            Some(h) => h,
            None => "<unknown>"@,
        },
{
    match &url.host {
        Some(h) => h.clone(),
        None => "<unknown>".to_string(),
    }
}

} // verus!
