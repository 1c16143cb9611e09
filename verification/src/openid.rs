//! The OpenID token plugin: when to fetch a new access token, what the
//! token request carries, and the header that carries the token.

use vstd::prelude::*;
use vstd::slice::slice_to_vec;
use vstd::string::StringSliceAdditionalSpecFns;
use vstd::utf8::encode_utf8;
use crate::foreign::{
    form_urlencode, form_urlencoded, is_header_value_char, is_token, parse_header_name,
    parse_header_value, NamedHeader, ValuedHeader,
};
use crate::headers::HeaderField;
use crate::text::{ascii_lower, chars_of, first_index_of, join_strings, join_with, string_from, trim_start, trim_start_ws};

verus! {

/// Nanoseconds in a second.
pub const NANOS_PER_SEC: u128 = 1_000_000_000;

/// How long a fetched token is used before the next fetch, in seconds:
/// half its announced lifetime, or 30 seconds when none is announced.
pub open spec fn token_lifetime_secs(expires_in: Option<u64>) -> nat {
    match expires_in {
        Some(e) => (e / 2) as nat,
        None => 30,
    }
}

/// The refresh deadline after a token fetched at `now` (in nanoseconds).
pub open spec fn refresh_deadline(now: u128, expires_in: Option<u64>) -> int {
    now + token_lifetime_secs(expires_in) * NANOS_PER_SEC
}

/// The access token and the time, in nanoseconds since the Unix epoch,
/// from which it must be fetched again.
pub struct TokenCache {
    access_token: Option<String>,
    refresh_at: u128,
}

impl TokenCache {
    /// The access token, once one has been fetched.
    pub closed spec fn token(&self) -> Option<Seq<char>> {
        match self.access_token {
            Some(t) => Some(t@),
            None => None,
        }
    }

    /// The refresh deadline, in nanoseconds since the Unix epoch.
    pub closed spec fn refresh_at_view(&self) -> u128 {
        self.refresh_at
    }

    /// No token yet, and a deadline at the epoch: the first check fetches one.
    pub fn new() -> (c: Self)
        ensures
            c.token() is None,
            c.refresh_at_view() == 0,
    {
        TokenCache { access_token: None, refresh_at: 0 }
    }

    /// Whether the token must be fetched (again) at `now`: once the deadline
    /// is reached.
    pub fn needs_refresh(&self, now: u128) -> (r: bool)
        ensures
            r == (now >= self.refresh_at_view()),
    {
        !(now < self.refresh_at)
    }

    /// Keeps a token fetched at `now` and sets the next deadline.
    pub fn record_token(&mut self, now: u128, token: String, expires_in: Option<u64>)
        requires
            refresh_deadline(now, expires_in) <= u128::MAX,
        ensures
            final(self).token() == Some(token@),
            final(self).refresh_at_view() == refresh_deadline(now, expires_in),
    {
        let secs: u64 = match expires_in {
            Some(e) => e / 2,
            None => 30,
        };
        let lifetime: u128 = (secs as u128) * NANOS_PER_SEC;
        self.refresh_at = now + lifetime;
        self.access_token = Some(token);
    }

    /// The header that carries the token to the API under test: named
    /// `header_name`, its value the prefix (if any) followed by the token.
    /// There is none while no token has been fetched.
    pub fn auth_header(&self, header_name: &str, prefix: Option<&[u8]>) -> (h: Option<HeaderField>)
        ensures
            h is Some <==> self.token() is Some,
            h matches Some(f) ==> {
                &&& f.name@ == header_name.spec_bytes()
                &&& f.value@ == match prefix {
                    Some(p) => p@,
                    None => Seq::<u8>::empty(),
                } + encode_utf8(self.token()->0)
            },
    {
        match &self.access_token {
            Some(token) => {
                let mut value: Vec<u8> = match prefix {
                    Some(p) => slice_to_vec(p),
                    None => Vec::new(),
                };
                let mut token_bytes = slice_to_vec(token.as_str().as_bytes());
                value.append(&mut token_bytes);
                let name = slice_to_vec(header_name.as_bytes());
                Some(HeaderField { name, value })
            },
            None => None,
        }
    }
}

/// The refresh deadline for a token fetched at `now`, when it can be
/// represented; `None` when it overflows the clock.
pub fn refresh_deadline_for(now: u128, expires_in: Option<u64>) -> (r: Option<u128>)
    ensures
        r is Some <==> refresh_deadline(now, expires_in) <= u128::MAX,
        r matches Some(d) ==> d == refresh_deadline(now, expires_in),
{
    let secs: u64 = match expires_in {
        Some(e) => e / 2,
        None => 30,
    };
    let lifetime: u128 = (secs as u128) * NANOS_PER_SEC;
    now.checked_add(lifetime)
}

/// A token fetched at `now` is reused until its deadline and fetched again
/// from then on; the deadline lies half the announced lifetime (30 seconds
/// when none is announced) after `now`.
pub proof fn lemma_refresh_schedule(now: u128, expires_in: Option<u64>, later: u128)
    requires
        refresh_deadline(now, expires_in) <= u128::MAX,
        later >= now,
    ensures
        later >= refresh_deadline(now, expires_in) <==> later - now >= token_lifetime_secs(expires_in)
            * NANOS_PER_SEC,
        expires_in is None ==> refresh_deadline(now, expires_in) == now + 30 * NANOS_PER_SEC,
{
}

/// A token with an announced lifetime of `e` seconds is reused for exactly
/// half of it (rounded down to whole seconds), whatever `e` is; without an
/// announced lifetime, for 30 seconds. Twice the reuse time never exceeds
/// the announced lifetime, and falls short of it by at most one second.
pub proof fn lemma_refresh_at_half_lifetime(now: u128, e: u64)
    ensures
        refresh_deadline(now, Some(e)) == now + (e / 2) * 1_000_000_000,
        refresh_deadline(now, None) == now + 30 * 1_000_000_000,
        e - 1 <= 2 * token_lifetime_secs(Some(e)) <= e,
{
}

/// Whether the token endpoint's answer is usable: only a 200 is.
pub fn token_response_ok(status: u16) -> (r: bool)
    ensures
        r == (status == 200),
{
    status == 200
}

/// The body of the token request: the encoded data joined with `&`.
pub fn token_request_body(data: &Vec<String>) -> (r: String)
    ensures
        r@ == join_with(data@.map_values(|s: String| s@), '&'),
{
    join_strings(data, '&')
}

/// What `--data-urlencode` makes of its argument: `name=content` gives
/// `name=` and the encoded content, `=content` and `content` give the
/// encoded content alone.
pub open spec fn data_urlencoded(data: Seq<char>) -> Seq<char> {
    match data.index_of_first('=') {
        Some(i) => (if i == 0 { seq![] } else { data.take(i).push('=') }) + form_urlencoded(
            encode_utf8(data.skip(i + 1)),
        ),
        None => form_urlencoded(encode_utf8(data)),
    }
}

/// Encodes one `--data-urlencode` argument (see [`data_urlencoded`]).
pub fn try_parse_data_urlencode(data: &str) -> (r: String)
    ensures
        r@ == data_urlencoded(data@),
{
    let v = chars_of(data);
    match first_index_of(&v, '=') {
        Some(i) => {
            let mut prefix = string_from(&v, 0, i);
            if i > 0 {
                prefix.append("=");
            }
            let chunk = string_from(&v, i + 1, v.len());
            let encoded = form_urlencode(chunk.as_str().as_bytes());
            proof {
                reveal_strlit("=");
                if i == 0 {
                    assert(prefix@ =~= seq![]);
                } else {
                    assert(prefix@ =~= data@.take(i as int).push('='));
                }
                assert(chunk@ =~= data@.skip(i + 1));
            }
            prefix.append(encoded.as_str());
            prefix
        },
        None => {
            let encoded = form_urlencode(data.as_bytes());
            encoded
        },
    }
}

/// Why a `--header` or header-name argument was refused.
pub enum HeaderArgError {
    /// The argument has no `:` between name and value.
    MissingColon,
    /// The name is not a valid header name.
    InvalidName { name: String },
    /// The value (after leading whitespace) is not a valid header value.
    InvalidValue { value: String },
}

/// A valid header name: a token of at most 65535 characters.
pub open spec fn valid_header_name(s: Seq<char>) -> bool {
    is_token(s) && s.len() <= 65535
}

/// A valid header value: header-value characters only.
pub open spec fn valid_header_value(s: Seq<char>) -> bool {
    forall|i: int| 0 <= i < s.len() ==> is_header_value_char(#[trigger] s[i])
}

/// A `--header` argument: its name and its value. The fields are private:
/// only [`try_parse_header`] builds one, from one argument.
pub struct ParsedHeader {
    name: NamedHeader,
    value: ValuedHeader,
}

impl ParsedHeader {
    /// The name.
    pub closed spec fn name_view(&self) -> NamedHeader {
        self.name
    }

    /// The value.
    pub closed spec fn value_view(&self) -> ValuedHeader {
        self.value
    }

    /// The name.
    pub fn name(&self) -> (n: &NamedHeader)
        ensures
            *n == self.name_view(),
    {
        &self.name
    }

    /// The value.
    pub fn value(&self) -> (v: &ValuedHeader)
        ensures
            *v == self.value_view(),
    {
        &self.value
    }

    /// The name and the value, taken out.
    pub fn into_parts(self) -> (parts: (NamedHeader, ValuedHeader))
        ensures
            parts.0 == self.name_view(),
            parts.1 == self.value_view(),
    {
        (self.name, self.value)
    }
}

/// Parses a header name; the name is kept in ASCII lower case.
pub fn try_parse_header_name(header_name: &str) -> (r: Result<NamedHeader, HeaderArgError>)
    ensures
        r is Ok <==> valid_header_name(header_name@),
        r matches Ok(h) ==> h.text_view() == header_name@.map_values(|c: char| ascii_lower(c)),
        r matches Err(e) ==> e matches HeaderArgError::InvalidName { name } && name@ == header_name@,
{
    match parse_header_name(header_name) {
        Some(h) => Ok(h),
        None => Err(HeaderArgError::InvalidName { name: header_name.to_owned() }),
    }
}

/// Parses `<name>:<value>`: the name is what comes before the first `:`,
/// the value what follows it without leading whitespace.
pub fn try_parse_header(header: &str) -> (r: Result<ParsedHeader, HeaderArgError>)
    ensures
        match header@.index_of_first(':') {
            None => r matches Err(HeaderArgError::MissingColon),
            Some(i) => {
                let name = header@.take(i);
                let value = trim_start_ws(header@.skip(i + 1));
                if !valid_header_name(name) {
                    r matches Err(HeaderArgError::InvalidName { name: n }) && n@ == name
                } else if !valid_header_value(value) {
                    r matches Err(HeaderArgError::InvalidValue { value: v }) && v@ == value
                } else {
                    r matches Ok(p) && p.name_view().text_view() == name.map_values(|c: char| ascii_lower(c))
                        && p.value_view().bytes_view() == encode_utf8(value)
                }
            },
        },
{
    let v = chars_of(header);
    let i = match first_index_of(&v, ':') {
        Some(i) => i,
        None => return Err(HeaderArgError::MissingColon),
    };
    let name_part = string_from(&v, 0, i);
    let rest = string_from(&v, i + 1, v.len());
    assert(name_part@ =~= header@.take(i as int));
    assert(rest@ =~= header@.skip(i + 1));
    let name = try_parse_header_name(name_part.as_str())?;
    let value_part = trim_start(rest.as_str());
    match parse_header_value(value_part.as_str()) {
        Some(value) => Ok(ParsedHeader { name, value }),
        None => Err(HeaderArgError::InvalidValue { value: value_part }),
    }
}

} // verus!
