//! The IDOR/BOLA detector: which requests are probed with other identities,
//! what the probes send, and how the responses are judged.

use vstd::prelude::*;
use vstd::slice::slice_to_vec;
use vstd::utf8::encode_utf8;
use dashmap::{DashMap, DashSet};
use crate::foreign::{
    blocklist_contains, blocklist_contents, blocklist_insert, blocklist_new, is_lower_hex, is_token,
    new_corr_id, parse_method, ParsedMethod, stash_contents, stash_insert, stash_new, stash_remove,
    stash_retain_fresh, string_from_utf8_lossy, utf8_lossy,
};
use crate::headers::{copy_bytes, header_fields_view, HeaderField};
use crate::text::{decimal, eq_ignore_ascii_case, eq_ignoring_ascii_case, push_decimal};
use crate::url_parts::{
    corr_id_in, endpoint_shape, endpoint_shape_of, extract_corr_id, has_object_id, is_success,
    before_first, path_from_url, path_segments, scheme_sep_from, shape_path, strip_fragment, success_status, tag_url, tagged_url, url_path,
    url_without_fragment,
};

verus! {

/// The label of the probe sent without the authorization header.
pub const CANARY_LABEL: &'static str = "__canary__";

/// An alternate identity: a header to send in place of the primary user's.
pub struct Identity {
    pub label: String,
    pub header: String,
    pub value: String,
}

/// Why a list of alternate identities was refused.
pub enum IdentitiesError {
    /// The list holds no identity.
    Empty,
}

impl IdentitiesError {
    /// The message that reports the refusal.
    pub fn message(&self) -> (s: String)
        ensures
            s@ == "identities file is empty"@,
    {
        match self {
            IdentitiesError::Empty => "identities file is empty".to_owned(),
        }
    }
}

/// The identities to probe with; an empty list is refused, since the
/// detector needs at least one identity to compare against.
pub fn check_identities(identities: Vec<Identity>) -> (r: Result<Vec<Identity>, IdentitiesError>)
    ensures
        r is Ok <==> identities.len() > 0,
        r matches Ok(v) ==> v@ == identities@,
{
    if identities.len() == 0 {
        Err(IdentitiesError::Empty)
    } else {
        Ok(identities)
    }
}

/// What one side-channel request came back with.
pub struct SideChannelResult {
    pub label: String,
    pub status: u16,
    pub body_len: usize,
}

/// The side-channel results kept for a probed request until its response
/// is classified. `stored_at` is in nanoseconds on the plugin's clock.
pub struct StashEntry {
    pub method: String,
    pub path: String,
    pub canary: SideChannelResult,
    pub alts: Vec<SideChannelResult>,
    pub stored_at: u128,
}

/// The entry was stored less than `ttl` before `now` (a `stored_at` later
/// than `now` counts as just stored).
pub open spec fn spec_entry_is_fresh(entry: StashEntry, now: u128, ttl: u128) -> bool {
    (if now >= entry.stored_at { now - entry.stored_at } else { 0 }) < ttl
}

/// Whether the entry is still within its time to live.
pub fn entry_is_fresh(entry: &StashEntry, now: u128, ttl: u128) -> (r: bool)
    ensures
        r == spec_entry_is_fresh(*entry, now, ttl),
{
    let age = if now >= entry.stored_at { now - entry.stored_at } else { 0 };
    age < ttl
}

/// Some allowed method equals `method` up to the case of ASCII letters.
pub open spec fn method_allowed(allowed: Seq<Seq<char>>, method: Seq<char>) -> bool {
    exists|i: int| 0 <= i < allowed.len() && eq_ignoring_ascii_case(#[trigger] allowed[i], method)
}

/// A request the detector looks at: its method is allowed, its path names
/// an object, and its endpoint shape is not blocklisted.
pub open spec fn idor_eligible(
    allowed: Seq<Seq<char>>,
    blocklist: Set<(Seq<char>, Seq<char>)>,
    method: Seq<char>,
    url: Seq<char>,
) -> bool {
    &&& method_allowed(allowed, method)
    &&& path_segments(url_path(url)).len() >= 2
    &&& !blocklist.contains(endpoint_shape_of(method, url_path(url)))
}

/// Whether the eligible request with counter value `n` is probed when one
/// in `rate` is (a rate of 0 or 1 probes every one).
pub open spec fn sampled(n: u64, rate: u64) -> bool {
    rate <= 1 || n % rate == 0
}

/// The counter after one more eligible request.
pub open spec fn next_count(n: u64) -> u64 {
    if n == u64::MAX { 0 } else { (n + 1) as u64 }
}

/// The strings' contents.
pub open spec fn strings_view(v: Seq<String>) -> Seq<Seq<char>> {
    v.map_values(|s: String| s@)
}

/// The detector's shared state: its settings, the stashed side-channel
/// results, the blocklist of endpoint shapes and the sampling counter.
pub struct PluginState {
    allowed_methods: Vec<String>,
    sample_rate: u64,
    canary_header: String,
    identities: Vec<Identity>,
    stash: DashMap<String, StashEntry>,
    blocklist: DashSet<(String, String)>,
    sample_counter: u64,
}

/// What a rewrite does with a request after the cheap filters and sampling.
pub enum RewriteDecision {
    /// Leave the request untouched.
    PassThrough,
    /// Probe it; `path` is the request's path.
    Probe { path: String },
}

/// A header to send on a side-channel request.
pub struct OutgoingHeader {
    pub name: String,
    pub value: Vec<u8>,
}

/// The headers as pairs of name and value.
pub open spec fn outgoing_view(hs: Seq<OutgoingHeader>) -> Seq<(Seq<char>, Seq<u8>)> {
    hs.map_values(|h: OutgoingHeader| (h.name@, h.value@))
}

/// One side-channel request: who it speaks for and the headers it sends.
pub struct ProbeRequest {
    pub label: String,
    pub headers: Vec<OutgoingHeader>,
}

/// The side-channel requests for one probed request: all go to `url` with
/// `method` and `body`; the canary without the auth header, each alternate
/// identity with its own header.
pub struct SideChannelPlan {
    pub method: ParsedMethod,
    pub url: String,
    pub body: Option<Vec<u8>>,
    pub canary: ProbeRequest,
    pub alts: Vec<ProbeRequest>,
}

/// The original headers that a side channel keeps: all but those named
/// `swap` (ignoring ASCII case), names read as lossy UTF-8.
pub open spec fn kept_headers(hs: Seq<(Seq<u8>, Seq<u8>)>, swap: Seq<char>) -> Seq<(Seq<char>, Seq<u8>)>
    decreases hs.len(),
{
    if hs.len() == 0 {
        seq![]
    } else {
        let rest = kept_headers(hs.drop_last(), swap);
        let name = utf8_lossy(hs.last().0);
        if eq_ignoring_ascii_case(name, swap) {
            rest
        } else {
            rest.push((name, hs.last().1))
        }
    }
}

/// The headers of a side channel: the kept headers, then `swap` with the
/// replacement value when there is a non-empty one.
pub open spec fn probe_headers(
    hs: Seq<(Seq<u8>, Seq<u8>)>,
    swap: Seq<char>,
    replacement: Option<Seq<char>>,
) -> Seq<(Seq<char>, Seq<u8>)> {
    kept_headers(hs, swap) + match replacement {
        Some(v) => if v.len() > 0 { seq![(swap, encode_utf8(v))] } else { seq![] },
        None => seq![],
    }
}

/// A request URL tagged with the correlation id of its stashed results.
pub struct TaggedRequest {
    pub url: String,
    pub corr_id: String,
}

/// The summary text of a finding (see [`issue_summary`]).
pub fn issue_summary_text(label: &str, status: u16, shape: &(String, String)) -> (s: String)
    ensures
        s@ == issue_summary(label@, status, (shape.0@, shape.1@)),
{
    let mut s = String::new();
    s.append("IDOR/BOLA: '");
    s.append(label);
    s.append("' returned HTTP ");
    push_decimal(&mut s, status);
    s.append(" on ");
    s.append(shape.0.as_str());
    s.append(" ");
    s.append(shape.1.as_str());
    s
}

/// The request was classified and the detector's verdict on it.
pub enum Verdict {
    /// The original response was not a 2xx: nothing to report.
    NotSuccess,
    /// The unauthenticated canary got a 2xx of about the same size: the
    /// endpoint is public, and its shape is blocklisted.
    PublicEndpoint,
    /// The canary was refused but its body is about as long as the
    /// original's: the original 2xx is likely an error in disguise.
    MaskedError,
    /// The endpoint is auth-gated; the alternate identities were compared
    /// (and the shape is blocklisted when one of them is flagged).
    Checked,
}

/// An alternate identity that got the same 2xx as the original.
pub struct Finding {
    pub alt: usize,
    pub summary: String,
}

/// The outcome of classifying one response.
pub struct Classification {
    pub verdict: Verdict,
    pub shape: (String, String),
    pub findings: Vec<Finding>,
}

/// The verdict for a response with `original_status`, given whether the
/// canary's body is about as long as the original's.
pub open spec fn spec_verdict(canary: SideChannelResult, original_status: u16, canary_similar: bool) -> Verdict {
    if !success_status(original_status) {
        Verdict::NotSuccess
    } else if canary_similar {
        if success_status(canary.status) {
            Verdict::PublicEndpoint
        } else {
            Verdict::MaskedError
        }
    } else {
        Verdict::Checked
    }
}

/// An alternate identity is flagged when it got the original's status, a
/// 2xx, with a body about as long.
pub open spec fn alt_flagged(r: SideChannelResult, original_status: u16, similar: bool) -> bool {
    r.status == original_status && success_status(r.status) && similar
}

/// The positions among the first `n` alternates that are flagged, in order.
pub open spec fn flagged_alts(
    alts: Seq<SideChannelResult>,
    similar: Seq<bool>,
    original_status: u16,
    n: nat,
) -> Seq<int>
    decreases n,
{
    if n == 0 {
        seq![]
    } else {
        let prev = flagged_alts(alts, similar, original_status, (n - 1) as nat);
        if alt_flagged(alts[n - 1], original_status, similar[n - 1]) {
            prev.push(n - 1)
        } else {
            prev
        }
    }
}

/// The summary of a finding: it names the identity, the status and the
/// endpoint shape, so that all findings on one shape read alike.
pub open spec fn issue_summary(label: Seq<char>, status: u16, shape: (Seq<char>, Seq<char>)) -> Seq<char> {
    "IDOR/BOLA: '"@ + label + "' returned HTTP "@ + decimal(status as nat) + " on "@ + shape.0 + " "@
        + shape.1
}

impl PluginState {
    /// The stashed side-channel results, by correlation id.
    pub closed spec fn stash_view(&self) -> Map<Seq<char>, StashEntry> {
        stash_contents(self.stash)
    }

    /// The blocklisted endpoint shapes.
    pub closed spec fn blocklist_view(&self) -> Set<(Seq<char>, Seq<char>)> {
        blocklist_contents(self.blocklist)
    }

    /// How many eligible requests the sampling has counted (modulo 2^64).
    pub closed spec fn counter(&self) -> u64 {
        self.sample_counter
    }

    /// The methods that are checked.
    pub closed spec fn allowed_methods_view(&self) -> Seq<Seq<char>> {
        strings_view(self.allowed_methods@)
    }

    /// One eligible request in this many is probed.
    pub closed spec fn sample_rate_view(&self) -> u64 {
        self.sample_rate
    }

    /// The header that the canary goes without.
    pub closed spec fn canary_header_view(&self) -> Seq<char> {
        self.canary_header@
    }

    /// The alternate identities.
    pub closed spec fn identities_view(&self) -> Seq<Identity> {
        self.identities@
    }

    /// The settings are those of `other`.
    pub open spec fn same_settings(&self, other: &Self) -> bool {
        &&& self.allowed_methods_view() == other.allowed_methods_view()
        &&& self.sample_rate_view() == other.sample_rate_view()
        &&& self.canary_header_view() == other.canary_header_view()
        &&& self.identities_view() == other.identities_view()
    }

    /// A detector with the given settings, an empty stash and blocklist and
    /// the sampling counter at zero.
    pub fn new(allowed_methods: Vec<String>, sample_rate: u64, canary_header: String, identities: Vec<Identity>) -> (s: Self)
        ensures
            s.allowed_methods_view() == strings_view(allowed_methods@),
            s.sample_rate_view() == sample_rate,
            s.canary_header_view() == canary_header@,
            s.identities_view() == identities@,
            s.stash_view().dom().is_empty(),
            s.blocklist_view().is_empty(),
            s.counter() == 0,
    {
        PluginState {
            allowed_methods,
            sample_rate,
            canary_header,
            identities,
            stash: stash_new(),
            blocklist: blocklist_new(),
            sample_counter: 0,
        }
    }

    /// Whether `method` is one of the methods to check, ignoring ASCII case.
    pub fn is_method_allowed(&self, method: &str) -> (r: bool)
        ensures
            r == method_allowed(self.allowed_methods_view(), method@),
    {
        let mut i: usize = 0;
        while i < self.allowed_methods.len()
            invariant
                i <= self.allowed_methods.len(),
                forall|j: int| 0 <= j < i ==> !eq_ignoring_ascii_case(#[trigger] self.allowed_methods_view()[j], method@),
            decreases self.allowed_methods.len() - i,
        {
            if eq_ignore_ascii_case(self.allowed_methods[i].as_str(), method) {
                assert(eq_ignoring_ascii_case(self.allowed_methods_view()[i as int], method@));
                return true;
            }
            i += 1;
        }
        false
    }

    /// The filters and sampling of a rewrite. A request whose method is not
    /// checked, whose path has fewer than two segments, or whose endpoint
    /// shape is blocklisted passes through and leaves the state unchanged.
    /// Any other request counts for sampling, and is probed when sampled.
    pub fn begin_rewrite(&mut self, method: &str, url: &str) -> (d: RewriteDecision)
        ensures
            final(self).same_settings(old(self)),
            final(self).stash_view() == old(self).stash_view(),
            final(self).blocklist_view() == old(self).blocklist_view(),
            final(self).counter() == if idor_eligible(
                old(self).allowed_methods_view(),
                old(self).blocklist_view(),
                method@,
                url@,
            ) {
                next_count(old(self).counter())
            } else {
                old(self).counter()
            },
            d is Probe <==> (idor_eligible(
                old(self).allowed_methods_view(),
                old(self).blocklist_view(),
                method@,
                url@,
            ) && sampled(old(self).counter(), old(self).sample_rate_view())),
            d matches RewriteDecision::Probe { path } ==> path@ == url_path(url@),
    {
        if !self.is_method_allowed(method) {
            return RewriteDecision::PassThrough;
        }
        let path = path_from_url(url);
        if !has_object_id(path.as_str()) {
            return RewriteDecision::PassThrough;
        }
        let shape = endpoint_shape(method, path.as_str());
        if blocklist_contains(&self.blocklist, &shape) {
            return RewriteDecision::PassThrough;
        }
        let n = self.sample_counter;
        self.sample_counter = if n == u64::MAX { 0 } else { n + 1 };
        if self.sample_rate > 1 && n % self.sample_rate != 0 {
            return RewriteDecision::PassThrough;
        }
        RewriteDecision::Probe { path }
    }

    /// The side-channel requests for a request with `method`, `url`,
    /// `headers` and `body`; none when the method is not a valid HTTP
    /// method. They go to the URL without its fragment and carry the body
    /// when it is not empty. The canary drops every header named like the
    /// canary header; each alternate identity drops every header named like
    /// its own and then sends its value there, when the value is not empty.
    pub fn plan_side_channels(
        &self,
        method: &str,
        url: &str,
        headers: &Vec<HeaderField>,
        body: &Vec<u8>,
    ) -> (p: Option<SideChannelPlan>)
        ensures
            p is Some <==> is_token(method@),
            p matches Some(plan) ==> {
                &&& plan.method.text_view() == method@
                &&& plan.url@ == url_without_fragment(url@)
                &&& (if body@.len() == 0 { plan.body is None } else { plan.body matches Some(b) && b@ == body@ })
                &&& plan.canary.label@ == CANARY_LABEL@
                &&& outgoing_view(plan.canary.headers@) == probe_headers(
                    header_fields_view(headers@),
                    self.canary_header_view(),
                    None,
                )
                &&& plan.alts.len() == self.identities_view().len()
                &&& forall|i: int| 0 <= i < plan.alts.len() ==> {
                    let id = #[trigger] self.identities_view()[i];
                    &&& plan.alts@[i].label@ == id.label@
                    &&& outgoing_view(plan.alts@[i].headers@) == probe_headers(
                        header_fields_view(headers@),
                        id.header@,
                        Some(id.value@),
                    )
                }
            },
    {
        let m = match parse_method(method) {
            Some(m) => m,
            None => return None,
        };
        let base_url = strip_fragment(url);
        let body_copy = if body.len() == 0 { None } else { Some(copy_bytes(body)) };
        let canary = ProbeRequest {
            label: CANARY_LABEL.to_owned(),
            headers: probe_headers_for(headers, self.canary_header.as_str(), None),
        };
        let mut alts: Vec<ProbeRequest> = Vec::new();
        let mut i: usize = 0;
        while i < self.identities.len()
            invariant
                i <= self.identities.len(),
                alts.len() == i,
                forall|k: int| 0 <= k < i ==> {
                    let id = #[trigger] self.identities_view()[k];
                    &&& alts@[k].label@ == id.label@
                    &&& outgoing_view(alts@[k].headers@) == probe_headers(
                        header_fields_view(headers@),
                        id.header@,
                        Some(id.value@),
                    )
                },
            decreases self.identities.len() - i,
        {
            let id = &self.identities[i];
            let probe = ProbeRequest {
                label: id.label.clone(),
                headers: probe_headers_for(headers, id.header.as_str(), Some(id.value.as_str())),
            };
            alts.push(probe);
            i += 1;
        }
        Some(SideChannelPlan { method: m, url: base_url, body: body_copy, canary, alts })
    }

    /// Stashes the side-channel results of a probed request under a fresh
    /// correlation id and returns the request URL tagged with that id.
    pub fn finish_rewrite(
        &mut self,
        url: &str,
        method: String,
        path: String,
        canary: SideChannelResult,
        alts: Vec<SideChannelResult>,
        now: u128,
    ) -> (t: TaggedRequest)
        ensures
            final(self).same_settings(old(self)),
            final(self).counter() == old(self).counter(),
            final(self).blocklist_view() == old(self).blocklist_view(),
            t.corr_id@.len() == 32,
            forall|i: int| 0 <= i < 32 ==> is_lower_hex(#[trigger] t.corr_id@[i]),
            t.url@ == tagged_url(url@, t.corr_id@),
            final(self).stash_view() == old(self).stash_view().insert(
                t.corr_id@,
                (StashEntry { method, path, canary, alts, stored_at: now }),
            ),
    {
        let corr_id = new_corr_id();
        let tagged = tag_url(url, corr_id.as_str());
        let entry = StashEntry { method, path, canary, alts, stored_at: now };
        stash_insert(&mut self.stash, corr_id.clone(), entry);
        TaggedRequest { url: tagged, corr_id }
    }

    /// Takes out of the stash the entry that the URL's fragment names, if any.
    pub fn take_entry(&mut self, request_url: &str) -> (r: Option<StashEntry>)
        ensures
            final(self).same_settings(old(self)),
            final(self).counter() == old(self).counter(),
            final(self).blocklist_view() == old(self).blocklist_view(),
            match corr_id_in(request_url@) {
                Some(id) => {
                    &&& final(self).stash_view() == old(self).stash_view().remove(id)
                    &&& (if old(self).stash_view().contains_key(id) {
                        r == Some(old(self).stash_view()[id])
                    } else {
                        r is None
                    })
                },
                None => final(self).stash_view() == old(self).stash_view() && r is None,
            },
    {
        match extract_corr_id(request_url) {
            Some(id) => stash_remove(&mut self.stash, &id),
            None => None,
        }
    }

    /// Classifies the response to a probed request. `original_status` is
    /// the response's status; `canary_similar` and `alt_similar[i]` say
    /// whether the canary's and the i-th alternate's bodies are about as
    /// long as the response's. The shape of a public endpoint, and the shape
    /// of an endpoint with a finding, is blocklisted, so that sibling paths
    /// are not probed again.
    pub fn classify_entry(
        &mut self,
        entry: &StashEntry,
        original_status: u16,
        canary_similar: bool,
        alt_similar: &Vec<bool>,
    ) -> (c: Classification)
        requires
            alt_similar.len() == entry.alts.len(),
        ensures
            final(self).same_settings(old(self)),
            final(self).counter() == old(self).counter(),
            final(self).stash_view() == old(self).stash_view(),
            c.verdict == spec_verdict(entry.canary, original_status, canary_similar),
            (c.shape.0@, c.shape.1@) == endpoint_shape_of(entry.method@, entry.path@),
            final(self).blocklist_view() == if c.verdict is PublicEndpoint || (c.verdict is Checked
                && c.findings.len() > 0) {
                old(self).blocklist_view().insert((c.shape.0@, c.shape.1@))
            } else {
                old(self).blocklist_view()
            },
            c.verdict is Checked ==> c.findings@.map_values(|f: Finding| f.alt as int) == flagged_alts(
                entry.alts@,
                alt_similar@,
                original_status,
                entry.alts.len() as nat,
            ),
            !(c.verdict is Checked) ==> c.findings.len() == 0,
            forall|k: int| 0 <= k < c.findings.len() ==> {
                let f = #[trigger] c.findings@[k];
                &&& f.alt < entry.alts.len()
                &&& f.summary@ == issue_summary(
                    entry.alts@[f.alt as int].label@,
                    original_status,
                    (c.shape.0@, c.shape.1@),
                )
            },
    {
        let shape = endpoint_shape(entry.method.as_str(), entry.path.as_str());
        let mut findings: Vec<Finding> = Vec::new();
        if !is_success(original_status) {
            return Classification { verdict: Verdict::NotSuccess, shape, findings };
        }
        if canary_similar {
            if is_success(entry.canary.status) {
                let blocked = (shape.0.clone(), shape.1.clone());
                blocklist_insert(&mut self.blocklist, blocked);
                return Classification { verdict: Verdict::PublicEndpoint, shape, findings };
            }
            return Classification { verdict: Verdict::MaskedError, shape, findings };
        }
        let mut i: usize = 0;
        while i < entry.alts.len()
            invariant
                i <= entry.alts.len(),
                alt_similar.len() == entry.alts.len(),
                findings@.map_values(|f: Finding| f.alt as int) == flagged_alts(
                    entry.alts@,
                    alt_similar@,
                    original_status,
                    i as nat,
                ),
                forall|k: int| 0 <= k < findings.len() ==> {
                    let f = #[trigger] findings@[k];
                    &&& f.alt < i
                    &&& f.summary@ == issue_summary(
                        entry.alts@[f.alt as int].label@,
                        original_status,
                        (shape.0@, shape.1@),
                    )
                },
            decreases entry.alts.len() - i,
        {
            let r = &entry.alts[i];
            let ghost before = findings@;
            if r.status == original_status && is_success(r.status) && alt_similar[i] {
                let summary = issue_summary_text(r.label.as_str(), r.status, &shape);
                findings.push(Finding { alt: i, summary });
                assert(findings@.map_values(|f: Finding| f.alt as int) =~= before.map_values(
                    |f: Finding| f.alt as int,
                ).push(i as int));
            }
            i += 1;
        }
        if findings.len() > 0 {
            let flagged = (shape.0.clone(), shape.1.clone());
            blocklist_insert(&mut self.blocklist, flagged);
        }
        Classification { verdict: Verdict::Checked, shape, findings }
    }

    /// Drops the stashed entries stored `ttl` or more before `now`.
    pub fn evict_expired(&mut self, now: u128, ttl: u128)
        ensures
            final(self).same_settings(old(self)),
            final(self).counter() == old(self).counter(),
            final(self).blocklist_view() == old(self).blocklist_view(),
            final(self).stash_view() == old(self).stash_view().restrict(
                old(self).stash_view().dom().filter(
                    |k: Seq<char>| spec_entry_is_fresh(old(self).stash_view()[k], now, ttl),
                ),
            ),
    {
        stash_retain_fresh(&mut self.stash, now, ttl);
    }
}

/// The outgoing headers for one side channel (see [`probe_headers`]).
fn probe_headers_for(headers: &Vec<HeaderField>, swap: &str, replacement: Option<&str>) -> (r: Vec<OutgoingHeader>)
    ensures
        outgoing_view(r@) == probe_headers(
            header_fields_view(headers@),
            swap@,
            match replacement {
                Some(v) => Some(v@),
                None => None,
            },
        ),
{
    let ghost hv = header_fields_view(headers@);
    let mut r: Vec<OutgoingHeader> = Vec::new();
    let mut i: usize = 0;
    while i < headers.len()
        invariant
            i <= headers.len(),
            hv == header_fields_view(headers@),
            outgoing_view(r@) == kept_headers(hv.take(i as int), swap@),
        decreases headers.len() - i,
    {
        let h = &headers[i];
        let name = string_from_utf8_lossy(h.name.as_slice());
        let ghost before = r@;
        assert(hv.take(i + 1).drop_last() =~= hv.take(i as int));
        assert(hv.take(i + 1).last() == (h.name@, h.value@));
        if !eq_ignore_ascii_case(name.as_str(), swap) {
            let value = copy_bytes(&h.value);
            r.push(OutgoingHeader { name, value });
            assert(outgoing_view(r@) =~= outgoing_view(before).push((utf8_lossy(h.name@), h.value@)));
        }
        i += 1;
    }
    assert(hv.take(headers.len() as int) =~= hv);
    let ghost kept = r@;
    match replacement {
        Some(v) => {
            if !v.is_empty() {
                let value = slice_to_vec(v.as_bytes());
                r.push(OutgoingHeader { name: swap.to_owned(), value });
                assert(outgoing_view(r@) =~= outgoing_view(kept) + seq![(swap@, encode_utf8(v@))]);
            } else {
                assert(outgoing_view(r@) =~= outgoing_view(kept) + seq![]);
            }
        },
        None => {
            assert(outgoing_view(r@) =~= outgoing_view(kept) + seq![]);
        },
    }
    r
}

} // verus!

verus! {

/// Of any `rate` consecutive counter values, exactly one is sampled when
/// one request in `rate` is probed.
pub proof fn lemma_one_in_rate_sampled(n: u64, rate: u64)
    requires
        rate > 1,
        n + rate - 1 <= u64::MAX,
    ensures
        exists|k: int| #![trigger sampled((n + k) as u64, rate)]
            0 <= k < rate && sampled((n + k) as u64, rate)
            && forall|j: int| 0 <= j < rate && j != k ==> !sampled(#[trigger] ((n + j) as u64), rate),
{
    let r = (n % rate) as int;
    let k: int = if r == 0 { 0 } else { rate - r };
    assert(0 <= r < rate);
    assert(n == (n / rate) * rate + r) by (nonlinear_arith)
        requires
            rate > 0,
            r == n % rate,
    ;
    assert((n + k) % (rate as int) == 0) by (nonlinear_arith)
        requires
            rate > 0,
            n == (n / rate) * rate + r,
            k == (if r == 0 { 0 } else { rate - r }),
            0 <= r < rate,
    ;
    assert forall|j: int| 0 <= j < rate && j != k implies !sampled(#[trigger] ((n + j) as u64), rate) by {
        assert((n + j) % (rate as int) != 0) by (nonlinear_arith)
            requires
                rate > 0,
                n == (n / rate) * rate + r,
                k == (if r == 0 { 0 } else { rate - r }),
                0 <= r < rate,
                0 <= j < rate,
                j != k,
        ;
    }
    assert(sampled((n + k) as u64, rate));
}

/// The blocklist only ever grows, and a request that is not eligible under
/// a blocklist stays ineligible under any larger one.
pub proof fn lemma_blocklist_growth_keeps_requests_out(
    allowed: Seq<Seq<char>>,
    smaller: Set<(Seq<char>, Seq<char>)>,
    larger: Set<(Seq<char>, Seq<char>)>,
    method: Seq<char>,
    url: Seq<char>,
)
    requires
        smaller.subset_of(larger),
    ensures
        idor_eligible(allowed, larger, method, url) ==> idor_eligible(allowed, smaller, method, url),
{
}

/// Once an endpoint's shape is blocklisted (it was found public, or it got
/// a finding), no request to a sibling path (same parent, any last
/// segment), with the method in any ASCII case, is probed again: the
/// blocklisted shape covers them all.
pub proof fn lemma_blocklisted_shape_covers_siblings(
    allowed: Seq<Seq<char>>,
    blocklist: Set<(Seq<char>, Seq<char>)>,
    method: Seq<char>,
    base: Seq<char>,
    last: Seq<char>,
    other_method: Seq<char>,
    other_url: Seq<char>,
    other_last: Seq<char>,
)
    requires
        blocklist.contains(endpoint_shape_of(method, base + seq!['/'] + last)),
        path_segments(base).len() >= 1,
        last.len() > 0,
        !last.contains('/'),
        other_last.len() > 0,
        !other_last.contains('/'),
        eq_ignoring_ascii_case(method, other_method),
        url_path(other_url) == base + seq!['/'] + other_last,
    ensures
        !idor_eligible(allowed, blocklist, other_method, other_url),
{
    crate::url_parts::lemma_sibling_paths_share_shape(base, last, other_last);
    crate::url_parts::lemma_shape_ignores_method_case(method, other_method, base + seq!['/'] + last);
}

/// What a rewrite stashes under the id it tags the URL with, the matching
/// classification takes back, once: the tag names the id, the entry is
/// there, and after it is taken the id is gone from the stash.
pub proof fn lemma_classify_takes_what_rewrite_stashed(
    stash: Map<Seq<char>, StashEntry>,
    url: Seq<char>,
    corr_id: Seq<char>,
    entry: StashEntry,
)
    requires
        !url.contains('#'),
    ensures
        corr_id_in(tagged_url(url, corr_id)) == Some(corr_id),
        stash.insert(corr_id, entry).contains_key(corr_id),
        stash.insert(corr_id, entry)[corr_id] == entry,
        !stash.insert(corr_id, entry).remove(corr_id).contains_key(corr_id),
{
    crate::url_parts::lemma_tag_round_trip(url, corr_id);
}

/// No header that a side channel keeps from the original is named like the
/// swapped header.
pub proof fn lemma_kept_headers_exclude_swapped(hs: Seq<(Seq<u8>, Seq<u8>)>, swap: Seq<char>)
    ensures
        forall|i: int| 0 <= i < kept_headers(hs, swap).len()
            ==> !eq_ignoring_ascii_case(#[trigger] kept_headers(hs, swap)[i].0, swap),
    decreases hs.len(),
{
    if hs.len() > 0 {
        lemma_kept_headers_exclude_swapped(hs.drop_last(), swap);
        let rest = kept_headers(hs.drop_last(), swap);
        let k = kept_headers(hs, swap);
        assert forall|i: int| 0 <= i < k.len() implies !eq_ignoring_ascii_case(#[trigger] k[i].0, swap) by {
            if i < rest.len() {
                assert(k[i] == rest[i]);
            }
        }
    }
}

/// The canary carries no header named like the canary header: it goes out
/// unauthenticated.
pub proof fn lemma_canary_strips_auth_header(hs: Seq<(Seq<u8>, Seq<u8>)>, canary_header: Seq<char>)
    ensures
        forall|i: int| 0 <= i < probe_headers(hs, canary_header, None).len()
            ==> !eq_ignoring_ascii_case(#[trigger] probe_headers(hs, canary_header, None)[i].0, canary_header),
{
    lemma_kept_headers_exclude_swapped(hs, canary_header);
    assert(probe_headers(hs, canary_header, None) =~= kept_headers(hs, canary_header));
}

/// An alternate identity with a non-empty value sends its credential
/// exactly once: as the last header, under its header name, and no other
/// header carries that name.
pub proof fn lemma_alt_sends_credential_once(hs: Seq<(Seq<u8>, Seq<u8>)>, header: Seq<char>, value: Seq<char>)
    requires
        value.len() > 0,
    ensures
        probe_headers(hs, header, Some(value)).len() >= 1,
        probe_headers(hs, header, Some(value)).last() == (header, encode_utf8(value)),
        forall|i: int| 0 <= i < probe_headers(hs, header, Some(value)).len() - 1
            ==> !eq_ignoring_ascii_case(#[trigger] probe_headers(hs, header, Some(value))[i].0, header),
{
    lemma_kept_headers_exclude_swapped(hs, header);
    let p = probe_headers(hs, header, Some(value));
    let k = kept_headers(hs, header);
    assert(p =~= k.push((header, encode_utf8(value))));
    assert forall|i: int| 0 <= i < p.len() - 1 implies !eq_ignoring_ascii_case(#[trigger] p[i].0, header) by {
        assert(p[i] == k[i]);
    }
}

} // verus!

verus! {

/// Findings on sibling paths read alike: the same identity getting the same
/// status on `base/a` and on `base/b` (method in any ASCII case) yields the
/// same summary, so the findings collapse into one per endpoint shape.
pub proof fn lemma_sibling_findings_read_alike(
    label: Seq<char>,
    status: u16,
    method: Seq<char>,
    other_method: Seq<char>,
    base: Seq<char>,
    a: Seq<char>,
    b: Seq<char>,
)
    requires
        eq_ignoring_ascii_case(method, other_method),
        path_segments(base).len() >= 1,
        a.len() > 0,
        !a.contains('/'),
        b.len() > 0,
        !b.contains('/'),
    ensures
        issue_summary(label, status, endpoint_shape_of(method, base + seq!['/'] + a)) == issue_summary(
            label,
            status,
            endpoint_shape_of(other_method, base + seq!['/'] + b),
        ),
{
    crate::url_parts::lemma_sibling_paths_share_shape(base, a, b);
    crate::url_parts::lemma_shape_ignores_method_case(method, other_method, base + seq!['/'] + a);
}

} // verus!

verus! {

/// The counter after `j` more eligible requests.
pub open spec fn count_after(c: u64, j: nat) -> u64
    decreases j,
{
    if j == 0 {
        c
    } else {
        next_count(count_after(c, (j - 1) as nat))
    }
}

/// Sampling over a run of eligible requests: starting from counter `c`, the
/// `j`-th of them (from 0) is probed exactly when the rate is 0 or 1 or
/// `c + j` is a multiple of the rate (as long as the counter does not wrap).
pub proof fn lemma_sampling_over_calls(c: u64, rate: u64, j: nat)
    requires
        c + j <= u64::MAX,
    ensures
        count_after(c, j) == c + j,
        sampled(count_after(c, j), rate) <==> (rate <= 1 || (c + j) % (rate as int) == 0),
    decreases j,
{
    if j > 0 {
        lemma_sampling_over_calls(c, rate, (j - 1) as nat);
    }
}

/// A URL whose authority is followed by nothing (`https://host?q=1`) has
/// the empty path, so the path filter lets it pass untouched.
pub proof fn lemma_bare_authority_not_eligible(
    allowed: Seq<Seq<char>>,
    blocklist: Set<(Seq<char>, Seq<char>)>,
    method: Seq<char>,
    url: Seq<char>,
)
    requires
        scheme_sep_from(before_first(before_first(url, '#'), '?'), 0) matches Some(i) && !before_first(
            before_first(url, '#'),
            '?',
        ).skip(i + 3int).contains('/'),
    ensures
        url_path(url) == Seq::<char>::empty(),
        !idor_eligible(allowed, blocklist, method, url),
{
    let nq = before_first(before_first(url, '#'), '?');
    let i = scheme_sep_from(nq, 0)->0;
    let rest = nq.skip(i + 3int);
    rest.index_of_first_ensures('/');
    assert(path_segments(url_path(url)) =~= seq![]);
}

} // verus!

verus! {

/// Every 2xx response is judged, and only 2xx responses are: the verdict
/// is "not a success" exactly when the original status lies outside
/// 200..300, and a 2xx whose canary body is not similar is checked against
/// the alternate identities.
pub proof fn lemma_every_2xx_is_judged(canary: SideChannelResult, original_status: u16, canary_similar: bool)
    ensures
        (spec_verdict(canary, original_status, canary_similar) is NotSuccess) <==> !(200 <= original_status
            < 300),
        (200 <= original_status < 300 && !canary_similar) ==> spec_verdict(
            canary,
            original_status,
            canary_similar,
        ) is Checked,
        (200 <= original_status < 300 && canary_similar && 200 <= canary.status < 300) ==> spec_verdict(
            canary,
            original_status,
            canary_similar,
        ) is PublicEndpoint,
        (200 <= original_status < 300 && canary_similar && !(200 <= canary.status < 300)) ==> spec_verdict(
            canary,
            original_status,
            canary_similar,
        ) is MaskedError,
{
}

/// Every alternate identity that got the original's 2xx status with a
/// similar body is reported, and no other: the flagged positions among the
/// first `n` are exactly those alternates, each once, in increasing order.
pub proof fn lemma_flagged_alts_are_exactly_the_matches(
    alts: Seq<SideChannelResult>,
    similar: Seq<bool>,
    original_status: u16,
    n: nat,
)
    requires
        n <= alts.len(),
        n <= similar.len(),
    ensures
        forall|k: int| 0 <= k < flagged_alts(alts, similar, original_status, n).len()
            ==> 0 <= #[trigger] flagged_alts(alts, similar, original_status, n)[k] < n,
        forall|k: int, l: int| 0 <= k < l < flagged_alts(alts, similar, original_status, n).len()
            ==> #[trigger] flagged_alts(alts, similar, original_status, n)[k]
            < #[trigger] flagged_alts(alts, similar, original_status, n)[l],
        forall|i: int| 0 <= i < n ==> (#[trigger] flagged_alts(alts, similar, original_status, n).contains(i)
            <==> (alts[i].status == original_status && 200 <= original_status < 300 && similar[i])),
    decreases n,
{
    let f = flagged_alts(alts, similar, original_status, n);
    if n > 0 {
        let m = (n - 1) as nat;
        lemma_flagged_alts_are_exactly_the_matches(alts, similar, original_status, m);
        let prev = flagged_alts(alts, similar, original_status, m);
        let hit = alts[m as int].status == original_status && 200 <= original_status < 300 && similar[m as int];
        if hit {
            assert(f == prev.push(m as int));
            assert forall|i: int| 0 <= i < n implies (#[trigger] f.contains(i) <==> (alts[i].status
                == original_status && 200 <= original_status < 300 && similar[i])) by {
                if i == m {
                    assert(f[prev.len() as int] == i);
                } else {
                    if f.contains(i) {
                        let k = choose|k: int| 0 <= k < f.len() && f[k] == i;
                        if k < prev.len() {
                            assert(prev[k] == i);
                        }
                    }
                    if prev.contains(i) {
                        let k = choose|k: int| 0 <= k < prev.len() && prev[k] == i;
                        assert(f[k] == i);
                    }
                }
            }
            assert forall|k: int, l: int| 0 <= k < l < f.len() implies #[trigger] f[k] < #[trigger] f[l] by {
                if l < prev.len() {
                    assert(f[k] == prev[k] && f[l] == prev[l]);
                } else {
                    assert(f[k] == prev[k]);
                }
            }
            assert forall|k: int| 0 <= k < f.len() implies 0 <= #[trigger] f[k] < n by {
                if k < prev.len() {
                    assert(f[k] == prev[k]);
                }
            }
        } else {
            assert(f == prev);
            assert forall|i: int| 0 <= i < n implies (#[trigger] f.contains(i) <==> (alts[i].status
                == original_status && 200 <= original_status < 300 && similar[i])) by {
                if i == m && f.contains(i) {
                    let k = choose|k: int| 0 <= k < f.len() && f[k] == i;
                    assert(prev[k] < m);
                }
            }
        }
    }
}

/// The kept headers of a list are those of its parts: keeping is decided
/// header by header.
pub proof fn lemma_kept_headers_concat(
    a: Seq<(Seq<u8>, Seq<u8>)>,
    b: Seq<(Seq<u8>, Seq<u8>)>,
    swap: Seq<char>,
)
    ensures
        kept_headers(a + b, swap) == kept_headers(a, swap) + kept_headers(b, swap),
    decreases b.len(),
{
    if b.len() == 0 {
        assert(a + b =~= a);
        assert(kept_headers(a, swap) + kept_headers(b, swap) =~= kept_headers(a, swap));
    } else {
        lemma_kept_headers_concat(a, b.drop_last(), swap);
        assert((a + b).drop_last() =~= a + b.drop_last());
        assert((a + b).last() == b.last());
        let kb = kept_headers(b.drop_last(), swap);
        let ka = kept_headers(a, swap);
        if !eq_ignoring_ascii_case(utf8_lossy(b.last().0), swap) {
            assert(ka + kb.push((utf8_lossy(b.last().0), b.last().1)) =~= (ka + kb).push(
                (utf8_lossy(b.last().0), b.last().1),
            ));
        }
    }
}

/// One header is dropped exactly when its name (read as lossy UTF-8)
/// equals the swapped name ignoring ASCII case; otherwise it is kept with
/// its value.
pub proof fn lemma_kept_headers_single(h: (Seq<u8>, Seq<u8>), swap: Seq<char>)
    ensures
        eq_ignoring_ascii_case(utf8_lossy(h.0), swap) ==> kept_headers(seq![h], swap).len() == 0,
        !eq_ignoring_ascii_case(utf8_lossy(h.0), swap) ==> kept_headers(seq![h], swap) == seq![
            (utf8_lossy(h.0), h.1),
        ],
{
    assert(seq![h].drop_last() =~= Seq::<(Seq<u8>, Seq<u8>)>::empty());
    assert(seq![h].last() == h);
    assert(kept_headers(Seq::<(Seq<u8>, Seq<u8>)>::empty(), swap) =~= seq![]);
    assert(seq![].push((utf8_lossy(h.0), h.1)) =~= seq![(utf8_lossy(h.0), h.1)]);
}

/// When no header is named like the swapped one, every header is forwarded,
/// in order and with its value.
pub proof fn lemma_kept_headers_keep_all_others(hs: Seq<(Seq<u8>, Seq<u8>)>, swap: Seq<char>)
    requires
        forall|i: int| 0 <= i < hs.len() ==> !eq_ignoring_ascii_case(utf8_lossy(#[trigger] hs[i].0), swap),
    ensures
        kept_headers(hs, swap) == hs.map_values(|h: (Seq<u8>, Seq<u8>)| (utf8_lossy(h.0), h.1)),
    decreases hs.len(),
{
    if hs.len() > 0 {
        let d = hs.drop_last();
        assert forall|i: int| 0 <= i < d.len() implies !eq_ignoring_ascii_case(utf8_lossy(#[trigger] d[i].0), swap) by {
            assert(d[i] == hs[i]);
        }
        lemma_kept_headers_keep_all_others(d, swap);
        assert(!eq_ignoring_ascii_case(utf8_lossy(hs[hs.len() - 1].0), swap));
        assert(hs.map_values(|h: (Seq<u8>, Seq<u8>)| (utf8_lossy(h.0), h.1)) =~= d.map_values(
            |h: (Seq<u8>, Seq<u8>)| (utf8_lossy(h.0), h.1),
        ).push((utf8_lossy(hs.last().0), hs.last().1)));
    } else {
        assert(hs.map_values(|h: (Seq<u8>, Seq<u8>)| (utf8_lossy(h.0), h.1)) =~= seq![]);
    }
}

/// A trailing `/` on the path changes nothing: it adds no segment, so a
/// request is eligible exactly when the same request without it is.
pub proof fn lemma_trailing_slash_irrelevant(
    allowed: Seq<Seq<char>>,
    blocklist: Set<(Seq<char>, Seq<char>)>,
    method: Seq<char>,
    url: Seq<char>,
    url_with_slash: Seq<char>,
)
    requires
        url_path(url_with_slash) == url_path(url) + seq!['/'],
    ensures
        path_segments(url_path(url_with_slash)) == path_segments(url_path(url)),
        idor_eligible(allowed, blocklist, method, url_with_slash) == idor_eligible(allowed, blocklist, method, url),
{
    let p = url_path(url);
    crate::url_parts::lemma_segments_of_slash(p);
}

/// Eligibility depends on exactly three things: the method is allowed
/// (ignoring ASCII case), the path has at least two non-empty segments, and
/// the endpoint shape is not blocklisted.
pub proof fn lemma_eligibility_conditions(
    allowed: Seq<Seq<char>>,
    blocklist: Set<(Seq<char>, Seq<char>)>,
    method: Seq<char>,
    url: Seq<char>,
)
    ensures
        idor_eligible(allowed, blocklist, method, url) <==> ((exists|i: int|
            0 <= i < allowed.len() && eq_ignoring_ascii_case(#[trigger] allowed[i], method))
            && path_segments(url_path(url)).len() >= 2 && !blocklist.contains(
            (method.map_values(|c: char| crate::text::ascii_upper(c)), shape_path(url_path(url))),
        )),
{
}

} // verus!
