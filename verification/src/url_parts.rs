//! Reading a request URL: its fragment, its path, and the endpoint shape
//! that the path belongs to.

use vstd::prelude::*;
use crate::foreign::push_char;
use crate::text::{ascii_lower, ascii_upper, eq_ignoring_ascii_case, chars_of, join_with, first_index_in, first_index_of, push_range, string_from, to_ascii_uppercase};

verus! {

/// The start of the URL fragment that tags a request with its correlation id.
pub const FRAGMENT_PREFIX: &'static str = "mapi-idor-";

/// `s` up to (not including) its first `c`; all of `s` when there is none.
pub open spec fn before_first(s: Seq<char>, c: char) -> Seq<char> {
    match s.index_of_first(c) {
        Some(i) => s.take(i),
        None => s,
    }
}

/// What follows the first `c` in `s`, when `s` holds a `c`.
pub open spec fn after_first(s: Seq<char>, c: char) -> Option<Seq<char>> {
    match s.index_of_first(c) {
        Some(i) => Some(s.skip(i + 1)),
        None => None,
    }
}

/// The URL without its fragment.
pub open spec fn url_without_fragment(url: Seq<char>) -> Seq<char> {
    before_first(url, '#')
}

/// The correlation id carried by the URL's fragment, when the fragment
/// starts with the plugin's prefix.
pub open spec fn corr_id_in(url: Seq<char>) -> Option<Seq<char>> {
    match after_first(url, '#') {
        Some(frag) => if FRAGMENT_PREFIX@.is_prefix_of(frag) {
            Some(frag.skip(FRAGMENT_PREFIX@.len() as int))
        } else {
            None
        },
        None => None,
    }
}

/// `url` tagged with the fragment that carries `corr_id`.
pub open spec fn tagged_url(url: Seq<char>, corr_id: Seq<char>) -> Seq<char> {
    url + seq!['#'] + FRAGMENT_PREFIX@ + corr_id
}

/// `://` starts at position `i` of `s`.
pub open spec fn scheme_sep_at(s: Seq<char>, i: int) -> bool {
    &&& 0 <= i
    &&& i + 3 <= s.len()
    &&& s[i] == ':'
    &&& s[i + 1] == '/'
    &&& s[i + 2] == '/'
}

/// The first position at or after `i` where `://` starts in `s`.
pub open spec fn scheme_sep_from(s: Seq<char>, i: nat) -> Option<nat>
    decreases s.len() - i,
{
    if i + 3 > s.len() {
        None
    } else if scheme_sep_at(s, i as int) {
        Some(i)
    } else {
        scheme_sep_from(s, i + 1)
    }
}

/// The path of a URL: fragment and query removed, and, when the URL has
/// a `scheme://authority` part, everything from the first `/` after `://`
/// (the empty path when no `/` follows the authority).
pub open spec fn url_path(url: Seq<char>) -> Seq<char> {
    let no_query = before_first(before_first(url, '#'), '?');
    match scheme_sep_from(no_query, 0) {
        Some(i) => {
            let rest = no_query.skip(i + 3int);
            match rest.index_of_first('/') {
                Some(j) => rest.skip(j),
                None => seq![],
            }
        },
        None => no_query,
    }
}

/// `cur` as a list of segments: none when it is empty.
pub open spec fn flush_segment(cur: Seq<char>) -> Seq<Seq<char>> {
    if cur.len() == 0 {
        seq![]
    } else {
        seq![cur]
    }
}

/// The non-empty `/`-separated segments of `cur + rest`, where `cur` is a
/// segment begun before `rest`.
pub open spec fn segments_from(rest: Seq<char>, cur: Seq<char>) -> Seq<Seq<char>>
    decreases rest.len(),
{
    if rest.len() == 0 {
        flush_segment(cur)
    } else if rest[0] == '/' {
        flush_segment(cur) + segments_from(rest.drop_first(), seq![])
    } else {
        segments_from(rest.drop_first(), cur.push(rest[0]))
    }
}

/// The non-empty segments of a path, split at `/`.
pub open spec fn path_segments(path: Seq<char>) -> Seq<Seq<char>> {
    segments_from(path, seq![])
}

/// The path with its last segment replaced by `*`; a path of at most one
/// segment is its own shape.
pub open spec fn shape_path(path: Seq<char>) -> Seq<char> {
    let segs = path_segments(path);
    if segs.len() <= 1 {
        path
    } else {
        seq!['/'] + join_with(segs.drop_last(), '/') + seq!['/', '*']
    }
}

/// The endpoint shape of a request: its method in upper case and its shape path.
pub open spec fn endpoint_shape_of(method: Seq<char>, path: Seq<char>) -> (Seq<char>, Seq<char>) {
    (method.map_values(|c: char| ascii_upper(c)), shape_path(path))
}

/// An HTTP status in the 2xx range.
pub open spec fn success_status(status: u16) -> bool {
    200 <= status < 300
}

/// The URL without its fragment (everything from the first `#` on).
pub fn strip_fragment(url: &str) -> (r: String)
    ensures
        r@ == url_without_fragment(url@),
{
    let v = chars_of(url);
    match first_index_of(&v, '#') {
        Some(i) => string_from(&v, 0, i),
        None => {
            let r = string_from(&v, 0, v.len());
            assert(v@.subrange(0, v.len() as int) =~= v@);
            r
        },
    }
}

/// The correlation id in the URL's fragment, when the fragment starts with
/// [`FRAGMENT_PREFIX`].
pub fn extract_corr_id(url: &str) -> (r: Option<String>)
    ensures
        r matches Some(id) ==> corr_id_in(url@) == Some(id@),
        r is None ==> corr_id_in(url@) is None,
{
    let v = chars_of(url);
    let p = chars_of(FRAGMENT_PREFIX);
    let i = match first_index_of(&v, '#') {
        Some(i) => i,
        None => return None,
    };
    let start = i + 1;
    let ghost frag = v@.skip(start as int);
    if v.len() - start < p.len() {
        return None;
    }
    let mut k: usize = 0;
    while k < p.len()
        invariant
            v@ == url@,
            p@ == FRAGMENT_PREFIX@,
            frag == v@.skip(start as int),
            v@.index_of_first('#') == Some(i as int),
            start == i + 1,
            start + p.len() <= v.len(),
            k <= p.len(),
            forall|j: int| 0 <= j < k ==> frag[j] == p@[j],
        decreases p.len() - k,
    {
        if v[start + k] != p[k] {
            assert(frag[k as int] != p@[k as int]);
            assert(!FRAGMENT_PREFIX@.is_prefix_of(frag));
            return None;
        }
        k += 1;
    }
    assert(FRAGMENT_PREFIX@ =~= frag.subrange(0, p.len() as int));
    let r = string_from(&v, start + p.len(), v.len());
    assert(r@ =~= frag.skip(p.len() as int));
    Some(r)
}

/// `url` with the fragment `#mapi-idor-<corr_id>` appended.
pub fn tag_url(url: &str, corr_id: &str) -> (r: String)
    ensures
        r@ == tagged_url(url@, corr_id@),
{
    let mut r = url.to_owned();
    push_char(&mut r, '#');
    r.append(FRAGMENT_PREFIX);
    r.append(corr_id);
    r
}

/// Whether `status` is a 2xx success.
pub fn is_success(status: u16) -> (r: bool)
    ensures
        r == success_status(status),
{
    200 <= status && status < 300
}

} // verus!

verus! {

/// The first position where `://` starts in `v[..end]`.
fn scheme_sep_in(v: &Vec<char>, end: usize) -> (r: Option<usize>)
    requires
        end <= v.len(),
    ensures
        r matches Some(i) ==> i + 3 <= end && scheme_sep_from(v@.take(end as int), 0) == Some(i as nat),
        r is None ==> scheme_sep_from(v@.take(end as int), 0) is None,
{
    let ghost s = v@.take(end as int);
    let mut i: usize = 0;
    while 3 <= end - i
        invariant
            i <= end <= v.len(),
            s == v@.take(end as int),
            scheme_sep_from(s, 0) == scheme_sep_from(s, i as nat),
        decreases end - i,
    {
        if v[i] == ':' && v[i + 1] == '/' && v[i + 2] == '/' {
            assert(scheme_sep_at(s, i as int));
            return Some(i);
        }
        assert(!scheme_sep_at(s, i as int));
        i += 1;
    }
    None
}

/// The path of the URL: the fragment and query are dropped, and a
/// `scheme://authority` prefix is removed; a URL with nothing after its
/// authority has the empty path.
pub fn path_from_url(url: &str) -> (r: String)
    ensures
        r@ == url_path(url@),
{
    let v = chars_of(url);
    let e1 = match first_index_of(&v, '#') {
        Some(i) => i,
        None => v.len(),
    };
    assert(before_first(url@, '#') =~= v@.take(e1 as int));
    let e2 = match first_index_in(&v, '?', 0, e1) {
        Some(i) => i,
        None => e1,
    };
    assert(v@.subrange(0, e1 as int) =~= v@.take(e1 as int));
    let ghost no_query = before_first(before_first(url@, '#'), '?');
    assert(no_query =~= v@.take(e2 as int));
    match scheme_sep_in(&v, e2) {
        Some(i) => {
            match first_index_in(&v, '/', i + 3, e2) {
                Some(j) => {
                    assert(no_query.skip(i + 3) =~= v@.subrange(i + 3, e2 as int));
                    let r = string_from(&v, j, e2);
                    assert(r@ =~= no_query.skip(i + 3).skip(j - (i + 3)));
                    r
                },
                None => {
                    assert(no_query.skip(i + 3) =~= v@.subrange(i + 3, e2 as int));
                    String::new()
                },
            }
        },
        None => {
            let r = string_from(&v, 0, e2);
            assert(r@ =~= no_query);
            r
        },
    }
}

} // verus!

verus! {

/// The segments that `bounds` cut out of `v`.
pub open spec fn segments_at(v: Seq<char>, bounds: Seq<(usize, usize)>) -> Seq<Seq<char>> {
    bounds.map_values(|b: (usize, usize)| v.subrange(b.0 as int, b.1 as int))
}

/// The start and end of each non-empty `/`-separated segment of `v`.
fn segment_bounds(v: &Vec<char>) -> (bounds: Vec<(usize, usize)>)
    ensures
        forall|k: int| 0 <= k < bounds.len() ==> #[trigger] bounds@[k].0 < bounds@[k].1 <= v.len(),
        segments_at(v@, bounds@) == path_segments(v@),
{
    let n = v.len();
    let mut out: Vec<(usize, usize)> = Vec::new();
    let mut start: usize = 0;
    let mut in_seg = false;
    let mut i: usize = 0;
    assert(v@.skip(0) =~= v@);
    assert(segments_at(v@, out@) + path_segments(v@) =~= path_segments(v@));
    while i < n
        invariant
            n == v.len(),
            i <= n,
            in_seg ==> start < i,
            forall|k: int| 0 <= k < out.len() ==> #[trigger] out@[k].0 < out@[k].1 <= n,
            path_segments(v@) == segments_at(v@, out@) + segments_from(
                v@.skip(i as int),
                if in_seg { v@.subrange(start as int, i as int) } else { seq![] },
            ),
        decreases n - i,
    {
        let ghost cur = if in_seg { v@.subrange(start as int, i as int) } else { seq![] };
        let ghost rest = v@.skip(i as int);
        assert(rest.drop_first() =~= v@.skip(i + 1));
        assert(rest[0] == v@[i as int]);
        if v[i] == '/' {
            if in_seg {
                let ghost before = out@;
                out.push((start, i));
                assert(segments_at(v@, out@) =~= segments_at(v@, before) + seq![cur]);
                in_seg = false;
            }
        } else {
            if !in_seg {
                start = i;
                in_seg = true;
                assert(seq![].push(v@[i as int]) =~= v@.subrange(start as int, i + 1));
            } else {
                assert(cur.push(v@[i as int]) =~= v@.subrange(start as int, i + 1));
            }
        }
        i += 1;
    }
    let ghost cur = if in_seg { v@.subrange(start as int, n as int) } else { seq![] };
    assert(v@.skip(n as int).len() == 0);
    if in_seg {
        let ghost before = out@;
        out.push((start, n));
        assert(segments_at(v@, out@) =~= segments_at(v@, before) + seq![cur]);
    } else {
        assert(segments_at(v@, out@) + flush_segment(cur) =~= segments_at(v@, out@));
    }
    out
}

/// Whether the path names an object: it has at least two non-empty segments,
/// as in `/collection/{id}`.
pub fn has_object_id(path: &str) -> (r: bool)
    ensures
        r == (path_segments(path@).len() >= 2),
{
    let v = chars_of(path);
    let b = segment_bounds(&v);
    b.len() >= 2
}

/// The endpoint shape of a request: the method in ASCII upper case, and the
/// path with its last segment replaced by `*` (a path of at most one
/// segment is kept as it is).
pub fn endpoint_shape(method: &str, path: &str) -> (r: (String, String))
    ensures
        (r.0@, r.1@) == endpoint_shape_of(method@, path@),
{
    let v = chars_of(path);
    let b = segment_bounds(&v);
    let ghost segs = path_segments(path@);
    let shape = if b.len() <= 1 {
        path.to_owned()
    } else {
        let mut s = String::new();
        push_char(&mut s, '/');
        let last = b.len() - 1;
        let mut k: usize = 0;
        while k < last
            invariant
                v@ == path@,
                last == b.len() - 1,
                k <= last,
                segs == segments_at(v@, b@),
                forall|m: int| 0 <= m < b.len() ==> #[trigger] b@[m].0 < b@[m].1 <= v.len(),
                s@ == seq!['/'] + join_with(segs.take(k as int), '/'),
            decreases last - k,
        {
            if k > 0 {
                push_char(&mut s, '/');
            }
            let (lo, hi) = b[k];
            push_range(&mut s, &v, lo, hi);
            proof {
                let t = segs.take(k + 1);
                assert(t.last() == segs[k as int]);
                if k > 0 {
                    assert(t.drop_last() =~= segs.take(k as int));
                } else {
                    assert(join_with(t, '/') == t[0]);
                    assert(join_with(segs.take(0), '/') =~= seq![]);
                }
            }
            k += 1;
        }
        push_char(&mut s, '/');
        push_char(&mut s, '*');
        assert(segs.take(last as int) =~= segs.drop_last());
        s
    };
    (to_ascii_uppercase(method), shape)
}

} // verus!

verus! {

/// Splitting at a `/` splits the segments: the segments of `x + "/" + y`
/// (with `cur` begun before `x`) are those of `x` followed by those of `y`.
proof fn lemma_segments_split(x: Seq<char>, y: Seq<char>, cur: Seq<char>)
    ensures
        segments_from(x + seq!['/'] + y, cur) == segments_from(x, cur) + segments_from(y, seq![]),
    decreases x.len(),
{
    let whole = x + seq!['/'] + y;
    if x.len() == 0 {
        assert(whole.drop_first() =~= y);
        assert(whole[0] == '/');
    } else {
        assert(whole[0] == x[0]);
        assert(whole.drop_first() =~= x.drop_first() + seq!['/'] + y);
        if x[0] == '/' {
            lemma_segments_split(x.drop_first(), y, seq![]);
            assert(flush_segment(cur) + (segments_from(x.drop_first(), seq![]) + segments_from(y, seq![]))
                =~= (flush_segment(cur) + segments_from(x.drop_first(), seq![])) + segments_from(y, seq![]));
        } else {
            lemma_segments_split(x.drop_first(), y, cur.push(x[0]));
        }
    }
}

/// A run of characters without `/` continues the current segment.
proof fn lemma_segments_single(a: Seq<char>, cur: Seq<char>)
    requires
        !a.contains('/'),
        cur.len() + a.len() > 0,
    ensures
        segments_from(a, cur) == seq![cur + a],
    decreases a.len(),
{
    if a.len() == 0 {
        assert(cur + a =~= cur);
    } else {
        assert(a[0] != '/');
        assert(!a.drop_first().contains('/')) by {
            if a.drop_first().contains('/') {
                let k = choose|k: int| 0 <= k < a.drop_first().len() && a.drop_first()[k] == '/';
                assert(a[k + 1] == '/');
            }
        }
        lemma_segments_single(a.drop_first(), cur.push(a[0]));
        assert(cur.push(a[0]) + a.drop_first() =~= cur + a);
    }
}

/// The segments of `base + "/" + last`, where `last` is non-empty and holds no `/`.
pub proof fn lemma_segments_of_child(base: Seq<char>, last: Seq<char>)
    requires
        last.len() > 0,
        !last.contains('/'),
    ensures
        path_segments(base + seq!['/'] + last) == path_segments(base).push(last),
{
    lemma_segments_split(base, last, seq![]);
    lemma_segments_single(last, seq![]);
    assert(seq![] + last =~= last);
    assert(path_segments(base) + seq![last] =~= path_segments(base).push(last));
}

/// Sibling paths share one endpoint shape: `base/a` and `base/b` have the
/// same shape whatever their last segments are, so one finding or canary
/// verdict on either covers both.
pub proof fn lemma_sibling_paths_share_shape(base: Seq<char>, a: Seq<char>, b: Seq<char>)
    requires
        path_segments(base).len() >= 1,
        a.len() > 0,
        !a.contains('/'),
        b.len() > 0,
        !b.contains('/'),
    ensures
        shape_path(base + seq!['/'] + a) == shape_path(base + seq!['/'] + b),
        shape_path(base + seq!['/'] + a) == seq!['/'] + join_with(path_segments(base), '/') + seq!['/', '*'],
        path_segments(base + seq!['/'] + a).len() >= 2,
{
    lemma_segments_of_child(base, a);
    lemma_segments_of_child(base, b);
    assert(path_segments(base).push(a).drop_last() =~= path_segments(base));
    assert(path_segments(base).push(b).drop_last() =~= path_segments(base));
}

/// Methods that differ only in the case of ASCII letters have the same shape.
pub proof fn lemma_shape_ignores_method_case(m1: Seq<char>, m2: Seq<char>, path: Seq<char>)
    requires
        eq_ignoring_ascii_case(m1, m2),
    ensures
        endpoint_shape_of(m1, path) == endpoint_shape_of(m2, path),
{
    assert forall|i: int| 0 <= i < m1.len() implies ascii_upper(m1[i]) == ascii_upper(m2[i]) by {
        assert(ascii_lower(m1[i]) == ascii_lower(m2[i]));
    }
    assert(m1.map_values(|c: char| ascii_upper(c)) =~= m2.map_values(|c: char| ascii_upper(c)));
}

/// The fragment that tags a request is read back unchanged, and removing
/// it gives back the untagged URL, whose path it leaves alone.
pub proof fn lemma_tag_round_trip(url: Seq<char>, corr_id: Seq<char>)
    requires
        !url.contains('#'),
    ensures
        corr_id_in(tagged_url(url, corr_id)) == Some(corr_id),
        url_without_fragment(tagged_url(url, corr_id)) == url,
        url_path(tagged_url(url, corr_id)) == url_path(url),
{
    let t = tagged_url(url, corr_id);
    let n = url.len() as int;
    assert(t[n] == '#');
    t.index_of_first_ensures('#');
    url.index_of_first_ensures('#');
    assert(t.contains('#'));
    let k = t.index_of_first('#')->0;
    assert(t[k] == '#');
    if k < n {
        assert(url[k] == '#');
        assert(url.contains('#'));
    }
    assert(k == n);
    assert(t.take(n) =~= url);
    assert(t.skip(n + 1) =~= FRAGMENT_PREFIX@ + corr_id);
    assert(FRAGMENT_PREFIX@ =~= (FRAGMENT_PREFIX@ + corr_id).subrange(0, FRAGMENT_PREFIX@.len() as int));
    assert((FRAGMENT_PREFIX@ + corr_id).skip(FRAGMENT_PREFIX@.len() as int) =~= corr_id);
    assert(before_first(url, '#') == url);
}

} // verus!

verus! {

/// A segment: non-empty and free of `/`.
pub open spec fn is_segment(s: Seq<char>) -> bool {
    s.len() > 0 && !s.contains('/')
}

/// Every segment that the splitting yields is a segment.
proof fn lemma_segments_are_segments(rest: Seq<char>, cur: Seq<char>)
    requires
        !cur.contains('/'),
    ensures
        forall|k: int| 0 <= k < segments_from(rest, cur).len() ==> is_segment(#[trigger] segments_from(rest, cur)[k]),
    decreases rest.len(),
{
    if rest.len() == 0 {
        assert(segments_from(rest, cur) == flush_segment(cur));
    } else if rest[0] == '/' {
        lemma_segments_are_segments(rest.drop_first(), seq![]);
        let f = flush_segment(cur);
        let tail = segments_from(rest.drop_first(), seq![]);
        assert forall|k: int| 0 <= k < segments_from(rest, cur).len() implies is_segment(#[trigger] segments_from(rest, cur)[k]) by {
            if k < f.len() {
                assert(segments_from(rest, cur)[k] == cur);
            } else {
                assert(segments_from(rest, cur)[k] == tail[k - f.len()]);
            }
        }
    } else {
        let next = cur.push(rest[0]);
        assert(!next.contains('/')) by {
            if next.contains('/') {
                let j = choose|j: int| 0 <= j < next.len() && next[j] == '/';
                if j < cur.len() {
                    assert(cur[j] == '/');
                }
            }
        }
        lemma_segments_are_segments(rest.drop_first(), next);
        assert(segments_from(rest, cur) == segments_from(rest.drop_first(), next));
    }
}

/// Joining segments behind a leading `/` and splitting again gives them back.
proof fn lemma_join_then_split(segs: Seq<Seq<char>>)
    requires
        segs.len() >= 1,
        forall|k: int| 0 <= k < segs.len() ==> is_segment(#[trigger] segs[k]),
    ensures
        path_segments(seq!['/'] + join_with(segs, '/')) == segs,
    decreases segs.len(),
{
    if segs.len() == 1 {
        assert(is_segment(segs[0]));
        lemma_segments_of_child(seq![], segs[0]);
        assert(seq!['/'] + join_with(segs, '/') =~= Seq::<char>::empty() + seq!['/'] + segs[0]);
        assert(path_segments(Seq::<char>::empty()) =~= seq![]);
        assert(Seq::<Seq<char>>::empty().push(segs[0]) =~= segs);
    } else {
        let dl = segs.drop_last();
        assert forall|k: int| 0 <= k < dl.len() implies is_segment(#[trigger] dl[k]) by {
            assert(dl[k] == segs[k]);
        }
        lemma_join_then_split(dl);
        assert(is_segment(segs.last()));
        lemma_segments_of_child(seq!['/'] + join_with(dl, '/'), segs.last());
        assert(seq!['/'] + join_with(segs, '/') =~= (seq!['/'] + join_with(dl, '/')) + seq!['/'] + segs.last());
        assert(dl.push(segs.last()) =~= segs);
    }
}

/// A shape is its own shape: canonicalizing twice changes nothing.
pub proof fn lemma_shape_path_idempotent(path: Seq<char>)
    ensures
        shape_path(shape_path(path)) == shape_path(path),
{
    let segs = path_segments(path);
    if segs.len() >= 2 {
        let dl = segs.drop_last();
        lemma_segments_are_segments(path, seq![]);
        assert forall|k: int| 0 <= k < dl.len() implies is_segment(#[trigger] dl[k]) by {
            assert(dl[k] == segs[k]);
        }
        lemma_join_then_split(dl);
        let base = seq!['/'] + join_with(dl, '/');
        let star = seq!['*'];
        assert(!star.contains('/')) by {
            if star.contains('/') {
                let j = choose|j: int| 0 <= j < star.len() && star[j] == '/';
                assert(star[j] == '*');
            }
        }
        lemma_segments_of_child(base, star);
        assert(shape_path(path) =~= base + seq!['/'] + star);
        assert(dl.push(star).drop_last() =~= dl);
    }
}

} // verus!

verus! {

/// A trailing `/` adds no segment.
pub proof fn lemma_segments_of_slash(p: Seq<char>)
    ensures
        path_segments(p + seq!['/']) == path_segments(p),
{
    lemma_segments_split(p, seq![], seq![]);
    assert(p + seq!['/'] + Seq::<char>::empty() =~= p + seq!['/']);
    assert(segments_from(Seq::<char>::empty(), seq![]) =~= seq![]);
    assert(path_segments(p) + Seq::<Seq<char>>::empty() =~= path_segments(p));
}

} // verus!
