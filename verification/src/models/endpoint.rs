//! Provider endpoints: what a configured URL must look like.

use crate::models::driver::{ModelError, ModelFault};
use crate::outcome;
use crate::text;
use vstd::prelude::*;

verus! {

/// The parts of a URL that decide whether it may be an endpoint.
#[derive(Debug)]
pub struct EndpointParts {
    pub scheme: String,
    pub host: Option<String>,
    pub username: String,
    pub has_password: bool,
    pub has_query: bool,
    pub has_fragment: bool,
    pub path: String,
    /// The length, in bytes, of the URL as it is written.
    pub bytes: usize,
}

/// An [`EndpointParts`] by its texts.
pub struct PartsView {
    pub scheme: Seq<char>,
    pub host: Option<Seq<char>>,
    pub username: Seq<char>,
    pub has_password: bool,
    pub has_query: bool,
    pub has_fragment: bool,
    pub path: Seq<char>,
    pub bytes: usize,
}

impl DeepView for EndpointParts {
    type V = PartsView;

    open spec fn deep_view(&self) -> PartsView {
        PartsView {
            scheme: self.scheme@,
            host: self.host.deep_view(),
            username: self.username@,
            has_password: self.has_password,
            has_query: self.has_query,
            has_fragment: self.has_fragment,
            path: self.path@,
            bytes: self.bytes,
        }
    }
}

/// The parts that `reqwest::Url::parse` finds in a text, or the message of its
/// error.
pub uninterp spec fn url_parts(s: Seq<char>) -> Result<PartsView, Seq<char>>;

/// Parses with `reqwest::Url::parse` and reads the parts with the methods of the
/// result. Named here is only that they go by the text alone.
#[verifier::external_body]
pub(crate) fn parse_url(s: &str) -> (r: Result<EndpointParts, String>)
    ensures
        outcome::of(r) == url_parts(s@),
{
    let url = reqwest::Url::parse(s).map_err(|error| error.to_string())?;
    Ok(EndpointParts {
        scheme: url.scheme().to_owned(),
        host: url.host_str().map(str::to_owned),
        username: url.username().to_owned(),
        has_password: url.password().is_some(),
        has_query: url.query().is_some(),
        has_fragment: url.fragment().is_some(),
        path: url.path().to_owned(),
        bytes: url.as_str().len(),
    })
}

/// Whether a URL of `bytes` bytes can be given another part of `part` bytes: its positions
/// are numbers of 32 bits, and each byte of the part takes up to three.
pub open spec fn has_room(bytes: usize, part: nat) -> bool {
    bytes + 3 * part + 16 <= u32::MAX
}

/// Whether a URL of `bytes` bytes can be given another part of `part` bytes.
pub fn leaves_room(bytes: usize, part: usize) -> (r: bool)
    ensures
        r == has_room(bytes, part as nat),
{
    bytes as u128 + 3 * (part as u128) + 16 <= u32::MAX as u128
}

/// The URL that `reqwest::Url` writes once `Url::set_path` has given it a path, or the
/// message of `Url::parse`.
pub uninterp spec fn url_after_path(base: Seq<char>, path: Seq<char>) -> Result<
    Seq<char>,
    Seq<char>,
>;

/// Gives a URL another path with `Url::set_path`. Named is only that the result goes by
/// the two texts alone. `Url::set_path` panics where the URL outgrows its positions, which
/// the room that is required rules out.
#[verifier::external_body]
pub(crate) fn with_path(base: &str, path: &str) -> (r: Result<String, String>)
    requires
        url_parts(base@) is Ok,
        has_room(url_parts(base@)->Ok_0.bytes, text::utf8_len(path@)),
    ensures
        outcome::of(r) == url_after_path(base@, path@),
{
    let mut url = reqwest::Url::parse(base).map_err(|error| error.to_string())?;
    url.set_path(path);
    Ok(url.into())
}

/// The URL that `reqwest::Url` writes once `Url::set_query` has given it a query, or the
/// message of `Url::parse`.
pub uninterp spec fn url_after_query(base: Seq<char>, query: Seq<char>) -> Result<
    Seq<char>,
    Seq<char>,
>;

/// Gives a URL another query with `Url::set_query`. Named is only that the result goes by
/// the two texts alone. `Url::set_query` panics where the URL outgrows its positions,
/// which the room that is required rules out.
#[verifier::external_body]
pub(crate) fn with_query(base: &str, query: &str) -> (r: Result<String, String>)
    requires
        url_parts(base@) is Ok,
        has_room(url_parts(base@)->Ok_0.bytes, text::utf8_len(query@)),
    ensures
        outcome::of(r) == url_after_query(base@, query@),
{
    let mut url = reqwest::Url::parse(base).map_err(|error| error.to_string())?;
    url.set_query(Some(query));
    Ok(url.into())
}

/// Whether `s` is a number from 0 to 255 in decimal notation without leading zeros.
pub open spec fn is_octet(s: Seq<char>) -> bool {
    &&& 1 <= s.len() <= 3
    &&& text::all_digits(s)
    &&& s.len() > 1 ==> s[0] != '0'
    &&& text::digits_value(s) <= 255
}

/// Whether `host` is an IPv4 address of the loopback network.
pub open spec fn is_loopback_ipv4(host: Seq<char>) -> bool {
    let parts = text::split_char(host, '.');
    &&& parts.len() == 4
    &&& is_octet(parts[0])
    &&& is_octet(parts[1])
    &&& is_octet(parts[2])
    &&& is_octet(parts[3])
    &&& text::digits_value(parts[0]) == 127
}

/// Whether `host`, as a URL has it, names this machine. A URL puts an IPv6 address
/// in brackets, which no address parser reads, so none counts.
pub open spec fn is_loopback(host: Seq<char>) -> bool {
    text::same_ignoring_case_spec(host, "localhost"@) || is_loopback_ipv4(host)
}

fn octet(s: &str) -> (r: Option<u64>)
    ensures
        match r {
            Some(n) => is_octet(s@) && n == text::digits_value(s@),
            None => !is_octet(s@),
        },
{
    let chars = text::chars_of(s);
    if chars.len() == 0 || chars.len() > 3 || chars[0] == '+' || (chars.len() > 1 && chars[0]
        == '0') {
        proof {
            if s@.len() > 0 && s@[0] == '+' {
                assert(!text::all_digits(s@));
            }
        }
        return None;
    }
    match text::parse_u64(s) {
        Some(n) => if n <= 255 {
            Some(n)
        } else {
            None
        },
        None => None,
    }
}

/// Whether `host`, as a URL has it, names this machine.
pub fn is_loopback_host(host: &str) -> (r: bool)
    ensures
        r == is_loopback(host@),
{
    if text::same_ignoring_case(host, "localhost") {
        return true;
    }
    let parts = text::split(host, '.');
    let ghost views = text::split_char(host@, '.');
    assert(views.len() == parts@.len());
    if parts.len() != 4 {
        return false;
    }
    assert(forall|i: int| 0 <= i < 4 ==> views[i] == (#[trigger] parts@[i])@);
    assert(views[0] == parts@[0]@ && views[1] == parts@[1]@ && views[2] == parts@[2]@ && views[3]
        == parts@[3]@);
    match octet(parts[0].as_str()) {
        Some(n) => n == 127 && octet(parts[1].as_str()).is_some() && octet(
            parts[2].as_str(),
        ).is_some() && octet(parts[3].as_str()).is_some(),
        None => false,
    }
}

/// The host, or nothing where a URL has none.
pub open spec fn host_of(p: PartsView) -> Seq<char> {
    match p.host {
        Some(h) => h,
        None => Seq::empty(),
    }
}

/// Whether requests to this endpoint are encrypted or stay on this machine.
pub open spec fn is_private(p: PartsView) -> bool {
    p.scheme == "https"@ || p.scheme == "http"@ && is_loopback(host_of(p))
}

/// Whether requests to this endpoint are encrypted or stay on this machine.
pub fn stays_private(parts: &EndpointParts) -> (r: bool)
    ensures
        r == is_private(parts.deep_view()),
{
    if text::same(parts.scheme.as_str(), "https") {
        return true;
    }
    let loopback = match &parts.host {
        Some(h) => is_loopback_host(h.as_str()),
        None => is_loopback_host(""),
    };
    proof {
        reveal_strlit("");
        assert(""@ =~= Seq::<char>::empty());
    }
    text::same(parts.scheme.as_str(), "http") && loopback
}

/// Whether an endpoint is refused: it must be private, and hold no credentials, no
/// query and no fragment.
pub open spec fn endpoint_spec(
    parsed: Result<PartsView, Seq<char>>,
    invalid: Seq<char>,
    remote: Seq<char>,
) -> Result<(), ModelFault> {
    match parsed {
        Err(m) => Err(ModelFault::InvalidRequest(invalid + m)),
        Ok(p) => if !is_private(p) {
            Err(ModelFault::InvalidRequest(remote))
        } else if p.username.len() > 0 || p.has_password {
            Err(
                ModelFault::InvalidRequest(
                    "provider credentials must not be embedded in the endpoint URL"@,
                ),
            )
        } else if p.has_query || p.has_fragment {
            Err(
                ModelFault::InvalidRequest(
                    "provider endpoint must not contain a query or fragment"@,
                ),
            )
        } else {
            Ok(())
        },
    }
}

/// Checks an endpoint whose URL has been parsed. The first two texts say that it is
/// no URL, and that a remote one must be encrypted.
pub fn check_endpoint(
    parsed: &Result<EndpointParts, String>,
    invalid: &str,
    remote: &str,
) -> (r: Result<(), ModelError>)
    ensures
        outcome::of(r) == endpoint_spec(outcome::of(*parsed), invalid@, remote@),
{
    match parsed {
        Err(m) => Err(ModelError::InvalidRequest(text::concat2(invalid, m.as_str()))),
        Ok(p) => {
            if !stays_private(p) {
                Err(ModelError::invalid(remote))
            } else if !p.username.as_str().is_empty() || p.has_password {
                Err(
                    ModelError::invalid(
                        "provider credentials must not be embedded in the endpoint URL",
                    ),
                )
            } else if p.has_query || p.has_fragment {
                Err(ModelError::invalid("provider endpoint must not contain a query or fragment"))
            } else {
                Ok(())
            }
        },
    }
}

/// An accepted endpoint is encrypted or stays on this machine, and holds neither
/// credentials nor a query nor a fragment.
pub proof fn law_accepted_endpoints_are_private(
    parsed: Result<PartsView, Seq<char>>,
    invalid: Seq<char>,
    remote: Seq<char>,
)
    requires
        endpoint_spec(parsed, invalid, remote) is Ok,
    ensures
        parsed is Ok,
        is_private(parsed->Ok_0),
        parsed->Ok_0.username.len() == 0,
        !parsed->Ok_0.has_password,
        !parsed->Ok_0.has_query,
        !parsed->Ok_0.has_fragment,
{
}

/// `s` without the slashes at its end.
pub open spec fn without_slashes(s: Seq<char>) -> Seq<char>
    decreases s.len(),
{
    if s.len() > 0 && s.last() == '/' {
        without_slashes(s.drop_last())
    } else {
        s
    }
}

/// `s` without the slashes at its end.
pub fn trim_slashes(s: &str) -> (r: String)
    ensures
        r@ == without_slashes(s@),
{
    let chars = text::chars_of(s);
    let mut to: usize = chars.len();
    assert(chars@.subrange(0, to as int) =~= s@);
    while to > 0 && chars[to - 1] == '/'
        invariant
            to <= chars@.len(),
            without_slashes(s@) == without_slashes(chars@.subrange(0, to as int)),
        decreases to,
    {
        assert(chars@.subrange(0, to as int).drop_last() =~= chars@.subrange(0, to as int - 1));
        to -= 1;
    }
    text::text_of(&chars, 0, to)
}

/// Whether a text holds something other than white space.
pub open spec fn is_named(s: Seq<char>) -> bool {
    text::trim_spec(s).len() > 0
}

/// Whether a text holds something other than white space.
pub fn has_name(s: &str) -> (r: bool)
    ensures
        r == is_named(s@),
{
    !text::trim(s).as_str().is_empty()
}

} // verus!
