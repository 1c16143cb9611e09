//! Declarations of the standard-library and outside-crate items that the
//! verified code calls, with the contracts that Verus takes on trust.

use vstd::prelude::*;
use dashmap::{DashMap, DashSet};
use reqwest::header::{HeaderName, HeaderValue};
use reqwest::Method;
use vstd::string::StringSliceAdditionalSpecFns;
use vstd::utf8::{decode_utf8, valid_utf8};
use crate::text::ascii_lower;
use crate::idor::{StashEntry, entry_is_fresh, spec_entry_is_fresh};

verus! {

/// `String::push`: appends one character to the end of the string.
#[verifier::external_body]
pub(crate) fn push_char(s: &mut String, c: char)
    ensures
        final(s)@ == old(s)@.push(c),
{
    s.push(c);
}

/// The concurrent map of `dashmap`, held opaque.
#[verifier::external_type_specification]
#[verifier::external_body]
#[verifier::reject_recursive_types(K)]
#[verifier::reject_recursive_types(V)]
#[verifier::reject_recursive_types(S)]
pub struct ExDashMap<K, V, S>(DashMap<K, V, S>);

/// The concurrent set of `dashmap`, held opaque.
#[verifier::external_type_specification]
#[verifier::external_body]
#[verifier::reject_recursive_types(K)]
#[verifier::reject_recursive_types(S)]
pub struct ExDashSet<K, S>(DashSet<K, S>);

/// An HTTP method (`http::Method`, as `reqwest` re-exports it), held opaque.
#[verifier::external_type_specification]
#[verifier::external_body]
pub struct ExMethod(Method);

/// An HTTP header name, held opaque.
#[verifier::external_type_specification]
#[verifier::external_body]
pub struct ExHeaderName(HeaderName);

/// An HTTP header value, held opaque.
#[verifier::external_type_specification]
#[verifier::external_body]
pub struct ExHeaderValue(HeaderValue);

/// What the stash map holds: each correlation id with its entry.
pub uninterp spec fn stash_contents(m: DashMap<String, StashEntry>) -> Map<Seq<char>, StashEntry>;

/// What the blocklist holds: endpoint shapes as (method, path) pairs.
pub uninterp spec fn blocklist_contents(s: DashSet<(String, String)>) -> Set<(Seq<char>, Seq<char>)>;

/// `DashMap::new`: an empty map.
#[verifier::external_body]
pub(crate) fn stash_new() -> (fresh: DashMap<String, StashEntry>)
    ensures
        stash_contents(fresh).dom().is_empty(),
{
    DashMap::new()
}

/// `DashSet::new`: an empty set.
#[verifier::external_body]
pub(crate) fn blocklist_new() -> (fresh: DashSet<(String, String)>)
    ensures
        blocklist_contents(fresh) == Set::<(Seq<char>, Seq<char>)>::empty(),
{
    DashSet::new()
}

/// `DashMap::insert`: afterwards `key` maps to `entry`; other keys keep theirs.
#[verifier::external_body]
pub(crate) fn stash_insert(m: &mut DashMap<String, StashEntry>, key: String, entry: StashEntry)
    ensures
        stash_contents(*final(m)) == stash_contents(*old(m)).insert(key@, entry),
{
    m.insert(key, entry);
}

/// `DashMap::remove`: takes the entry stored under `key`, if any, out of the map.
#[verifier::external_body]
pub(crate) fn stash_remove(m: &mut DashMap<String, StashEntry>, key: &String) -> (r: Option<StashEntry>)
    ensures
        stash_contents(*final(m)) == stash_contents(*old(m)).remove(key@),
        r matches Some(e) ==> stash_contents(*old(m)).contains_key(key@) && e == stash_contents(*old(m))[key@],
        r is None ==> !stash_contents(*old(m)).contains_key(key@),
{
    match m.remove(key) {
        Some((_, entry)) => Some(entry),
        None => None,
    }
}

/// `DashMap::retain` with a predicate that keeps the entries stored less
/// than `ttl` before `now`: exactly the others are removed.
#[verifier::external_body]
pub(crate) fn stash_retain_fresh(m: &mut DashMap<String, StashEntry>, now: u128, ttl: u128)
    ensures
        stash_contents(*final(m)) == stash_contents(*old(m)).restrict(
            stash_contents(*old(m)).dom().filter(
                |k: Seq<char>| spec_entry_is_fresh(stash_contents(*old(m))[k], now, ttl),
            ),
        ),
{
    m.retain(|_, entry| entry_is_fresh(entry, now, ttl));
}

/// `DashSet::contains`: whether `shape` is in the set.
#[verifier::external_body]
pub(crate) fn blocklist_contains(s: &DashSet<(String, String)>, shape: &(String, String)) -> (r: bool)
    ensures
        r == blocklist_contents(*s).contains((shape.0@, shape.1@)),
{
    s.contains(shape)
}

/// `DashSet::insert`: adds `shape` to the set.
#[verifier::external_body]
pub(crate) fn blocklist_insert(s: &mut DashSet<(String, String)>, shape: (String, String))
    ensures
        blocklist_contents(*final(s)) == blocklist_contents(*old(s)).insert((shape.0@, shape.1@)),
{
    s.insert(shape);
}

/// A lower-case hexadecimal digit.
pub open spec fn is_lower_hex(c: char) -> bool {
    ('0' <= c <= '9') || ('a' <= c <= 'f')
}

/// A fresh random correlation id: `uuid::Uuid::new_v4()` in its simple
/// form, 32 lower-case hexadecimal digits.
#[verifier::external_body]
pub(crate) fn new_corr_id() -> (id: String)
    ensures
        id@.len() == 32,
        forall|i: int| 0 <= i < 32 ==> is_lower_hex(#[trigger] id@[i]),
{
    uuid::Uuid::new_v4().simple().to_string()
}

/// A byte that `application/x-www-form-urlencoded` serialization keeps as it is.
pub open spec fn form_unreserved(b: u8) -> bool {
    b == 42 || b == 45 || b == 46 || b == 95 || (48 <= b <= 57) || (65 <= b <= 90) || (97 <= b <= 122)
}

/// The upper-case hexadecimal digit for `n < 16`.
pub open spec fn upper_hex(n: u8) -> char {
    if n < 10 { ((48 + n) as u8) as char } else { ((55 + n) as u8) as char }
}

/// How one byte is serialized: kept, `+` for a space, otherwise `%XX`.
pub open spec fn form_encode_byte(b: u8) -> Seq<char> {
    if form_unreserved(b) {
        seq![b as char]
    } else if b == 32 {
        seq!['+']
    } else {
        seq!['%', upper_hex(b / 16), upper_hex(b % 16)]
    }
}

/// The `application/x-www-form-urlencoded` serialization of `bytes`.
pub open spec fn form_urlencoded(bytes: Seq<u8>) -> Seq<char>
    decreases bytes.len(),
{
    if bytes.len() == 0 {
        seq![]
    } else {
        form_urlencoded(bytes.drop_last()) + form_encode_byte(bytes.last())
    }
}

/// `form_urlencoded::byte_serialize`, its pieces concatenated.
#[verifier::external_body]
pub(crate) fn form_urlencode(bytes: &[u8]) -> (r: String)
    ensures
        r@ == form_urlencoded(bytes@),
{
    form_urlencoded::byte_serialize(bytes).collect()
}

/// A `tchar` of RFC 9110: the characters allowed in a method or header name.
pub open spec fn is_token_char(c: char) -> bool {
    ||| ('0' <= c <= '9')
    ||| ('a' <= c <= 'z')
    ||| ('A' <= c <= 'Z')
    ||| c == '!' || c == '#' || c == '$' || c == '%' || c == '&' || c == '\'' || c == '*'
    ||| c == '+' || c == '-' || c == '.' || c == '^' || c == '_' || c == '`' || c == '|' || c == '~'
}

/// A non-empty sequence of token characters.
pub open spec fn is_token(s: Seq<char>) -> bool {
    s.len() > 0 && forall|i: int| 0 <= i < s.len() ==> is_token_char(#[trigger] s[i])
}

/// An HTTP method and its text as `Method::as_str` gives it. The fields
/// are private: only [`parse_method`] builds one, from a single parse, so
/// the text always belongs to the method beside it.
pub struct ParsedMethod {
    method: Method,
    text: String,
}

impl ParsedMethod {
    /// The method's text.
    pub closed spec fn text_view(&self) -> Seq<char> {
        self.text@
    }

    /// The method.
    pub fn method(&self) -> &Method {
        &self.method
    }

    /// The method's text.
    pub fn text(&self) -> (t: &String)
        ensures
            t@ == self.text_view(),
    {
        &self.text
    }
}

/// `reqwest::Method::from_bytes` on the bytes of `method`: it accepts
/// exactly the non-empty strings of token characters, and keeps the text
/// as it is.
#[verifier::external_body]
pub(crate) fn parse_method(method: &str) -> (r: Option<ParsedMethod>)
    ensures
        r is Some <==> is_token(method@),
        r matches Some(m) ==> m.text_view() == method@,
{
    match Method::from_bytes(method.as_bytes()) {
        Ok(m) => {
            let text = m.as_str().to_string();
            Some(ParsedMethod { method: m, text })
        },
        Err(_) => None,
    }
}

/// A header name and its text as `HeaderName::as_str` gives it. The
/// fields are private: only [`parse_header_name`] builds one, from a single
/// parse, so the text always belongs to the name beside it.
pub struct NamedHeader {
    name: HeaderName,
    text: String,
}

impl NamedHeader {
    /// The name's text.
    pub closed spec fn text_view(&self) -> Seq<char> {
        self.text@
    }

    /// The header name.
    pub fn name(&self) -> &HeaderName {
        &self.name
    }

    /// The header name, taken out.
    pub fn into_name(self) -> HeaderName {
        self.name
    }

    /// The name's text.
    pub fn text(&self) -> (t: &String)
        ensures
            t@ == self.text_view(),
    {
        &self.text
    }
}

/// `HeaderName::from_str`: it accepts token strings of at most 65535
/// characters, and the name's text is the input in ASCII lower case.
#[verifier::external_body]
pub(crate) fn parse_header_name(s: &str) -> (r: Option<NamedHeader>)
    ensures
        r is Some <==> (is_token(s@) && s@.len() <= 65535),
        r matches Some(h) ==> h.text_view() == s@.map_values(|c: char| ascii_lower(c)),
{
    match <HeaderName as std::str::FromStr>::from_str(s) {
        Ok(name) => {
            let text = name.as_str().to_string();
            Some(NamedHeader { name, text })
        },
        Err(_) => None,
    }
}

/// A character that may stand in a header value: a tab, or any character
/// from the space on other than DEL.
pub open spec fn is_header_value_char(c: char) -> bool {
    c == '\t' || (' ' <= c && c != '\u{7f}')
}

/// A header value and its bytes as `HeaderValue::as_bytes` gives them.
/// The fields are private: only [`parse_header_value`] builds one, from a
/// single parse, so the bytes always belong to the value beside them.
pub struct ValuedHeader {
    value: HeaderValue,
    bytes: Vec<u8>,
}

impl ValuedHeader {
    /// The value's bytes.
    pub closed spec fn bytes_view(&self) -> Seq<u8> {
        self.bytes@
    }

    /// The header value.
    pub fn value(&self) -> &HeaderValue {
        &self.value
    }

    /// The header value, taken out.
    pub fn into_value(self) -> HeaderValue {
        self.value
    }

    /// The value's bytes.
    pub fn bytes(&self) -> (b: &Vec<u8>)
        ensures
            b@ == self.bytes_view(),
    {
        &self.bytes
    }
}

/// `HeaderValue::from_str`: it accepts strings of header-value characters,
/// and the value's bytes are the UTF-8 encoding of the input.
#[verifier::external_body]
pub(crate) fn parse_header_value(s: &str) -> (r: Option<ValuedHeader>)
    ensures
        r is Some <==> forall|i: int| 0 <= i < s@.len() ==> is_header_value_char(#[trigger] s@[i]),
        r matches Some(h) ==> h.bytes_view() == s.spec_bytes(),
{
    match HeaderValue::from_str(s) {
        Ok(value) => {
            let bytes = value.as_bytes().to_vec();
            Some(ValuedHeader { value, bytes })
        },
        Err(_) => None,
    }
}

/// What `String::from_utf8_lossy` makes of `bytes`.
pub uninterp spec fn utf8_lossy(bytes: Seq<u8>) -> Seq<char>;

/// `String::from_utf8_lossy`: valid UTF-8 is decoded as it is; otherwise
/// invalid sequences become U+FFFD.
#[verifier::external_body]
pub(crate) fn string_from_utf8_lossy(bytes: &[u8]) -> (s: String)
    ensures
        s@ == utf8_lossy(bytes@),
        valid_utf8(bytes@) ==> s@ == decode_utf8(bytes@),
{
    String::from_utf8_lossy(bytes).into_owned()
}

} // verus!
