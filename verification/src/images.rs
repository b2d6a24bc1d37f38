//! Image rehosting: every external image URL maps to one deterministic
//! local path, `assets/images/<hash>.<ext>`, and linked images in the
//! rendered body are rewritten to it.
use crate::text::{chars_to_string, str_to_chars};
use vstd::prelude::*;

verus! {

use kuchiki::traits::TendrilSink;

/// The 64-bit FNV-1a offset basis.
pub const FNV_OFFSET: u64 = 0xcbf29ce484222325;

/// The 64-bit FNV-1a prime.
pub const FNV_PRIME: u64 = 0x100000001b3;

/// One FNV-1a step over a character's scalar value.
pub open spec fn fnv_step(h: u64, c: char) -> u64 {
    vstd::wrapping::u64_specs::wrapping_mul(h ^ (c as u64), FNV_PRIME)
}

pub open spec fn fnv_rec(s: Seq<char>, h: u64) -> u64
    decreases s.len(),
{
    if s.len() == 0 {
        h
    } else {
        fnv_rec(s.drop_first(), fnv_step(h, s[0]))
    }
}

/// The FNV-1a hash of a string's characters.
pub open spec fn fnv1a_of(s: Seq<char>) -> u64 {
    fnv_rec(s, FNV_OFFSET)
}

/// Hashes a URL with FNV-1a, as `fnv1a_of` describes.
pub fn fnv1a_hash(s: &str) -> (r: u64)
    ensures
        r == fnv1a_of(s@),
{
    let v = str_to_chars(s);
    let mut h: u64 = FNV_OFFSET;
    let mut i: usize = 0;
    proof {
        assert(v@.skip(0) =~= v@);
    }
    while i < v.len()
        invariant
            0 <= i <= v.len(),
            v@ == s@,
            fnv1a_of(s@) == fnv_rec(v@.skip(i as int), h),
        decreases v.len() - i,
    {
        let ghost rest = v@.skip(i as int);
        proof {
            assert(rest[0] == v@[i as int]);
            assert(rest.drop_first() =~= v@.skip(i + 1));
        }
        let c = v[i];
        h = (h ^ (c as u64)).wrapping_mul(FNV_PRIME);
        i = i + 1;
    }
    h
}

/// The lowercase hexadecimal digit character for a value below sixteen.
pub open spec fn hex_digit(d: int) -> char {
    if d < 10 {
        ((('0' as u8) + d) as u8) as char
    } else {
        ((('a' as u8) + (d - 10)) as u8) as char
    }
}

/// The lowercase hexadecimal representation of a number, most significant
/// digit first and without leading zeros (zero itself is "0").
pub open spec fn hex_rep(n: nat) -> Seq<char>
    decreases n,
{
    if n < 16 {
        seq![hex_digit(n as int)]
    } else {
        hex_rep(n / 16).push(hex_digit((n % 16) as int))
    }
}

fn hex_digit_exec(d: u64) -> (r: char)
    requires
        d < 16,
    ensures
        r == hex_digit(d as int),
{
    if d < 10 {
        (('0' as u8) + d as u8) as char
    } else {
        (('a' as u8) + (d - 10) as u8) as char
    }
}

fn push_hex(n: u64, out: &mut Vec<char>)
    ensures
        final(out)@ == old(out)@ + hex_rep(n as nat),
    decreases n,
{
    if n >= 16 {
        push_hex(n / 16, out);
        out.push(hex_digit_exec(n % 16));
        proof {
            assert(out@ =~= old(out)@ + hex_rep(n as nat));
        }
    } else {
        out.push(hex_digit_exec(n));
        proof {
            assert(out@ =~= old(out)@ + hex_rep(n as nat));
        }
    }
}

/// The URL up to its query or fragment part.
pub open spec fn before_stop(u: Seq<char>) -> Seq<char>
    decreases u.len(),
{
    if u.len() == 0 {
        Seq::empty()
    } else if u[0] == '?' || u[0] == '#' {
        Seq::empty()
    } else {
        seq![u[0]] + before_stop(u.drop_first())
    }
}

/// The suffix after the first `://`, if the URL has one.
pub open spec fn after_scheme(u: Seq<char>) -> Option<Seq<char>>
    decreases u.len(),
{
    if u.len() < 3 {
        None
    } else if u[0] == ':' && u[1] == '/' && u[2] == '/' {
        Some(u.skip(3))
    } else {
        after_scheme(u.drop_first())
    }
}

/// The part of `r` after its last `/`; `r` itself when it has none.
pub open spec fn last_seg_rec(r: Seq<char>, cur: Seq<char>) -> Seq<char>
    decreases r.len(),
{
    if r.len() == 0 {
        cur
    } else if r[0] == '/' {
        last_seg_rec(r.drop_first(), Seq::empty())
    } else {
        last_seg_rec(r.drop_first(), cur.push(r[0]))
    }
}

pub open spec fn has_slash(r: Seq<char>) -> bool {
    exists|i: int| 0 <= i < r.len() && r[i] == '/'
}

/// The final path segment of the URL: what follows the last `/` of the
/// path, queries and fragments stripped. A URL whose authority is not
/// followed by a path has none.
pub open spec fn url_last_segment(u: Seq<char>) -> Seq<char> {
    let p = before_stop(u);
    match after_scheme(p) {
        Some(r) => if has_slash(r) {
            last_seg_rec(r, Seq::empty())
        } else {
            Seq::empty()
        },
        None => last_seg_rec(p, Seq::empty()),
    }
}

/// The extension of a path segment: what follows its last `.`, unless that
/// `.` leads the segment or ends it; such segments get the generic image
/// extension instead.
pub open spec fn ext_of_segment(seg: Seq<char>) -> Seq<char> {
    match seg.index_of_last('.') {
        Some(i) => if i > 0 && i + 1 < seg.len() {
            seg.skip(i + 1)
        } else {
            seq!['p', 'n', 'g']
        },
        None => seq!['p', 'n', 'g'],
    }
}

/// The extension an image URL's local copy gets.
pub open spec fn image_ext_of(u: Seq<char>) -> Seq<char> {
    ext_of_segment(url_last_segment(u))
}

proof fn lemma_before_stop_prefix(u: Seq<char>, i: int)
    requires
        0 <= i <= u.len(),
        forall|j: int| 0 <= j < i ==> !(#[trigger] u[j] == '?' || u[j] == '#'),
        i < u.len() ==> (u[i] == '?' || u[i] == '#'),
    ensures
        before_stop(u) == u.take(i),
    decreases i,
{
    if i == 0 {
        assert(before_stop(u) =~= u.take(0));
    } else {
        assert(u[0] != '?' && u[0] != '#');
        lemma_before_stop_prefix(u.drop_first(), i - 1);
        assert(seq![u[0]] + u.drop_first().take(i - 1) =~= u.take(i));
    }
}

proof fn lemma_after_scheme_some(u: Seq<char>, j: int)
    requires
        0 <= j,
        j + 2 < u.len(),
        u[j] == ':' && u[j + 1] == '/' && u[j + 2] == '/',
        forall|m: int|
            0 <= m < j ==> !(#[trigger] u[m] == ':' && u[m + 1] == '/' && u[m + 2] == '/'),
    ensures
        after_scheme(u) == Some(u.skip(j + 3)),
    decreases j,
{
    if j == 0 {
    } else {
        lemma_after_scheme_some(u.drop_first(), j - 1);
        assert(u.drop_first().skip(j + 2) =~= u.skip(j + 3));
    }
}

proof fn lemma_after_scheme_none(u: Seq<char>)
    requires
        forall|m: int|
            0 <= m && m + 2 < u.len() ==> !(#[trigger] u[m] == ':' && u[m + 1] == '/' && u[m + 2]
                == '/'),
    ensures
        after_scheme(u) is None,
    decreases u.len(),
{
    if u.len() >= 3 {
        assert(!(u[0] == ':' && u[1] == '/' && u[2] == '/'));
        assert forall|m: int| 0 <= m && m + 2 < u.drop_first().len() implies !(
        #[trigger] u.drop_first()[m] == ':' && u.drop_first()[m + 1] == '/' && u.drop_first()[m + 2]
            == '/') by {
            assert(u[m + 1] == u.drop_first()[m]);
            assert(u[m + 2] == u.drop_first()[m + 1]);
            assert(u[m + 3] == u.drop_first()[m + 2]);
        }
        lemma_after_scheme_none(u.drop_first());
    }
}

proof fn lemma_last_seg_no_slash(s: Seq<char>, cur: Seq<char>)
    requires
        forall|i: int| 0 <= i < s.len() ==> #[trigger] s[i] != '/',
    ensures
        last_seg_rec(s, cur) == cur + s,
    decreases s.len(),
{
    if s.len() == 0 {
        assert(cur + s =~= cur);
    } else {
        lemma_last_seg_no_slash(s.drop_first(), cur.push(s[0]));
        assert(cur.push(s[0]) + s.drop_first() =~= cur + s);
    }
}

proof fn lemma_last_seg_after(r: Seq<char>, cur: Seq<char>, d: int)
    requires
        0 <= d < r.len(),
        r[d] == '/',
        forall|j: int| d < j < r.len() ==> #[trigger] r[j] != '/',
    ensures
        last_seg_rec(r, cur) == r.skip(d + 1),
    decreases d,
{
    if d == 0 {
        lemma_last_seg_no_slash(r.drop_first(), Seq::empty());
        assert(Seq::<char>::empty() + r.drop_first() =~= r.skip(1));
    } else {
        if r[0] == '/' {
            lemma_last_seg_after(r.drop_first(), Seq::empty(), d - 1);
        } else {
            lemma_last_seg_after(r.drop_first(), cur.push(r[0]), d - 1);
        }
        assert(r.drop_first().skip(d) =~= r.skip(d + 1));
    }
}

/// Computes the final path segment of a URL, as `url_last_segment`
/// describes.
fn url_last_segment_exec(v: &Vec<char>) -> (r: Vec<char>)
    ensures
        r@ == url_last_segment(v@),
{
    // The URL up to its query or fragment part.
    let mut i: usize = 0;
    while i < v.len() && !(v[i] == '?' || v[i] == '#')
        invariant
            0 <= i <= v.len(),
            forall|j: int| 0 <= j < i ==> !(#[trigger] v@[j] == '?' || v@[j] == '#'),
        decreases v.len() - i,
    {
        i = i + 1;
    }
    let stop = i;
    proof {
        lemma_before_stop_prefix(v@, stop as int);
    }
    let ghost p = v@.take(stop as int);
    // Where the path-bearing part starts: after the first `://` when the
    // URL has a scheme, at the front otherwise.
    let mut has_scheme: bool = false;
    let mut start: usize = 0;
    let mut j: usize = 0;
    while stop >= 3 && j < stop - 2 && !has_scheme
        invariant
            0 <= j,
            stop <= v.len(),
            !has_scheme ==> j <= stop && start == 0,
            !has_scheme ==> forall|m: int|
                0 <= m < j ==> !(#[trigger] v@[m] == ':' && v@[m + 1] == '/' && v@[m + 2] == '/'),
            has_scheme ==> start == j + 3 && j + 2 < stop && v@[j as int] == ':' && v@[j + 1] == '/'
                && v@[j + 2] == '/' && (forall|m: int|
                0 <= m < j ==> !(#[trigger] v@[m] == ':' && v@[m + 1] == '/' && v@[m + 2] == '/')),
        decreases stop - j - (if has_scheme { 1int } else { 0int }),
    {
        if v[j] == ':' && v[j + 1] == '/' && v[j + 2] == '/' {
            has_scheme = true;
            start = j + 3;
        } else {
            j = j + 1;
        }
    }
    proof {
        if has_scheme {
            assert forall|m: int| 0 <= m < j implies !(#[trigger] p[m] == ':' && p[m + 1] == '/'
                && p[m + 2] == '/') by {
                assert(p[m] == v@[m] && p[m + 1] == v@[m + 1] && p[m + 2] == v@[m + 2]);
            }
            assert(p[j as int] == ':' && p[j + 1] == '/' && p[j + 2] == '/');
            lemma_after_scheme_some(p, j as int);
        } else {
            assert forall|m: int| 0 <= m && m + 2 < p.len() implies !(#[trigger] p[m] == ':' && p[m
                + 1] == '/' && p[m + 2] == '/') by {
                assert(p[m] == v@[m] && p[m + 1] == v@[m + 1] && p[m + 2] == v@[m + 2]);
            }
            lemma_after_scheme_none(p);
        }
    }
    // The last `/` of the path-bearing part, if any.
    let mut saw_slash: bool = false;
    let mut last_slash: usize = 0;
    let mut k: usize = start;
    while k < stop
        invariant
            start <= k,
            k <= stop <= v.len(),
            start <= stop,
            saw_slash ==> start <= last_slash < k && v@[last_slash as int] == '/' && (forall|m: int|
                last_slash < m < k ==> #[trigger] v@[m] != '/'),
            !saw_slash ==> forall|m: int| start <= m < k ==> #[trigger] v@[m] != '/',
        decreases stop - k,
    {
        if v[k] == '/' {
            saw_slash = true;
            last_slash = k;
        }
        k = k + 1;
    }
    // Copy out the segment.
    let seg_start = if saw_slash {
        last_slash + 1
    } else {
        start
    };
    let mut seg: Vec<char> = Vec::new();
    let mut t: usize = seg_start;
    while t < stop
        invariant
            seg_start <= t <= stop,
            stop <= v.len(),
            seg@ == v@.subrange(seg_start as int, t as int),
        decreases stop - t,
    {
        seg.push(v[t]);
        proof {
            assert(seg@ =~= v@.subrange(seg_start as int, t + 1));
        }
        t = t + 1;
    }
    proof {
        let sub = p.skip(start as int);
        if saw_slash {
            let d = last_slash - start;
            assert(sub[d] == v@[last_slash as int]);
            assert forall|m: int| d < m < sub.len() implies #[trigger] sub[m] != '/' by {
                assert(sub[m] == v@[m + start]);
            }
            lemma_last_seg_after(sub, Seq::empty(), d);
            assert(has_slash(sub));
            assert(sub.skip(d + 1) =~= v@.subrange(seg_start as int, stop as int));
        } else {
            assert forall|m: int| 0 <= m < sub.len() implies #[trigger] sub[m] != '/' by {
                assert(sub[m] == v@[m + start]);
            }
            lemma_last_seg_no_slash(sub, Seq::empty());
            assert(!has_slash(sub));
            assert(Seq::<char>::empty() + sub =~= v@.subrange(seg_start as int, stop as int));
        }
        if !has_scheme {
            assert(p.skip(0) =~= p);
        }
        assert(seg@ == v@.subrange(seg_start as int, stop as int));
    }
    if has_scheme && !saw_slash {
        Vec::new()
    } else {
        seg
    }
}


/// Computes the extension of a path segment, as `ext_of_segment` describes.
fn ext_of_segment_exec(seg: &Vec<char>) -> (r: Vec<char>)
    ensures
        r@ == ext_of_segment(seg@),
{
    let mut saw_dot: bool = false;
    let mut last_dot: usize = 0;
    let mut m: usize = 0;
    while m < seg.len()
        invariant
            0 <= m <= seg.len(),
            saw_dot ==> last_dot < m && seg@[last_dot as int] == '.' && (forall|j: int|
                last_dot < j < m ==> #[trigger] seg@[j] != '.'),
            !saw_dot ==> forall|j: int| 0 <= j < m ==> #[trigger] seg@[j] != '.',
        decreases seg.len() - m,
    {
        if seg[m] == '.' {
            saw_dot = true;
            last_dot = m;
        }
        m = m + 1;
    }
    proof {
        seg@.index_of_last_ensures('.');
        if saw_dot {
            assert(seg@.contains('.')) by {
                assert(seg@[last_dot as int] == '.');
            }
        }
    }
    if saw_dot && last_dot > 0 && last_dot + 1 < seg.len() {
        let mut out: Vec<char> = Vec::new();
        let mut t: usize = last_dot + 1;
        while t < seg.len()
            invariant
                last_dot + 1 <= t <= seg.len(),
                out@ == seg@.subrange(last_dot + 1, t as int),
            decreases seg.len() - t,
        {
            out.push(seg[t]);
            proof {
                assert(out@ =~= seg@.subrange(last_dot + 1, t + 1));
            }
            t = t + 1;
        }
        proof {
            assert(seg@.skip(last_dot + 1) =~= seg@.subrange(last_dot + 1, seg@.len() as int));
        }
        out
    } else {
        let mut out: Vec<char> = Vec::new();
        out.push('p');
        out.push('n');
        out.push('g');
        proof {
            assert(out@ =~= seq!['p', 'n', 'g']);
        }
        out
    }
}

/// The deterministic local path an image URL is rehosted at:
/// `assets/images/<fnv1a hash in hex>.<inferred extension>`.
pub open spec fn image_local_path_of(u: Seq<char>) -> Seq<char> {
    "assets/images/"@ + hex_rep(fnv1a_of(u) as nat) + seq!['.'] + image_ext_of(u)
}

/// Computes an image URL's local path, as `image_local_path_of` describes.
pub fn hash_path_from_url(url: &str) -> (r: String)
    ensures
        r@ == image_local_path_of(url@),
{
    let v = str_to_chars(url);
    let h = fnv1a_hash(url);
    let mut hexv: Vec<char> = Vec::new();
    push_hex(h, &mut hexv);
    let seg = url_last_segment_exec(&v);
    let ext = ext_of_segment_exec(&seg);
    let mut out = String::from_str("assets/images/");
    let hx = chars_to_string(&hexv);
    out.append(hx.as_str());
    out.append(".");
    let ex = chars_to_string(&ext);
    out.append(ex.as_str());
    proof {
        reveal_strlit(".");
        assert("."@ =~= seq!['.']);
        assert(out@ =~= image_local_path_of(url@));
    }
    out
}

/// The `src` attributes of the linked images (an `img` that is the direct
/// child of an `a`) in an HTML document, in document order, as kuchiki
/// selects them.
pub uninterp spec fn linked_image_srcs(html: Seq<char>) -> Seq<Seq<char>>;

/// The HTML document after the i-th linked image's anchor `href` and image
/// `src` are both rewritten to the i-th path, as kuchiki serializes it.
pub uninterp spec fn relinked_html(html: Seq<char>, paths: Seq<Seq<char>>) -> Seq<char>;

/// Relies on kuchiki's HTML parser and CSS selectors: parses the document
/// and collects the `src` attribute of every `a > img` element in document
/// order, skipping images without one.
#[verifier::external_body]
fn collect_linked_image_srcs(html: &str) -> (r: Vec<String>)
    ensures
        r@.map_values(|s: String| s@) == linked_image_srcs(html@),
{
    let document = kuchiki::parse_html().one(html);
    let mut srcs = Vec::new();
    if let Ok(sel) = document.select("a > img") {
        for img in sel {
            if let Some(src) = img.attributes.borrow().get("src") {
                srcs.push(src.to_string());
            }
        }
    }
    srcs
}

/// Relies on kuchiki's HTML parser, CSS selectors, and serializer: walks
/// the `a > img` elements in document order (skipping images without a
/// `src`, as the collection does) and sets the anchor's `href` and the
/// image's `src` to the matching path, then serializes the document.
#[verifier::external_body]
fn rewrite_linked_images(html: &str, paths: &Vec<String>) -> (r: String)
    ensures
        r@ == relinked_html(html@, paths@.map_values(|s: String| s@)),
{
    let document = kuchiki::parse_html().one(html);
    let mut it = paths.iter();
    for img in document.select("a > img").into_iter().flatten() {
        if img.attributes.borrow().get("src").is_none() { continue; }
        let path = match it.next() { Some(p) => p, None => break };
        if let Some(parent) = img.as_node().parent() {
            if let Some(a) = parent.as_element() {
                a.attributes.borrow_mut().insert("href", path.clone());
            }
        }
        img.attributes.borrow_mut().insert("src", path.clone());
    }
    document.to_string()
}

/// Whether `u` occurs in the source list `us`.
pub open spec fn url_among(us: Seq<Seq<char>>, u: Seq<char>) -> bool {
    exists|i: int| 0 <= i < us.len() && us[i] == u
}

/// Whether some cache pair in `ps` is for URL `u`.
pub open spec fn pair_for_url(ps: Seq<(String, String)>, u: Seq<char>) -> bool {
    exists|k: int| 0 <= k < ps.len() && (#[trigger] ps[k]).0@ == u
}

/// The cache pairs `ps` cover the source URLs `us`: exactly one entry per
/// distinct URL, each mapped to its deterministic local path.
pub open spec fn pairs_cover(ps: Seq<(String, String)>, us: Seq<Seq<char>>) -> bool {
    &&& (forall|k: int|
        #![trigger ps[k]]
        0 <= k < ps.len() ==> ps[k].1@ == image_local_path_of(ps[k].0@) && url_among(
            us,
            ps[k].0@,
        ))
    &&& (forall|k: int, l: int|
        #![trigger ps[k], ps[l]]
        0 <= k < l < ps.len() ==> ps[k].0@ != ps[l].0@)
    &&& (forall|i: int| #![trigger us[i]] 0 <= i < us.len() ==> pair_for_url(ps, us[i]))
}

proof fn lemma_pairs_step(
    ps: Seq<(String, String)>,
    ps2: Seq<(String, String)>,
    us: Seq<Seq<char>>,
    i: int,
    fresh: bool,
)
    requires
        pairs_cover(ps, us.take(i)),
        0 <= i < us.len(),
        fresh ==> ps2.len() == ps.len() + 1 && ps2.subrange(0, ps.len() as int) == ps
            && ps2.last().0@ == us[i] && ps2.last().1@ == image_local_path_of(us[i])
            && !pair_for_url(ps, us[i]),
        !fresh ==> ps2 == ps && pair_for_url(ps, us[i]),
    ensures
        pairs_cover(ps2, us.take(i + 1)),
{
    let uold = us.take(i);
    let unew = us.take(i + 1);
    assert(unew.len() == i + 1);
    assert(forall|m: int| 0 <= m <= i ==> #[trigger] unew[m] == us[m]);
    assert(forall|m: int| 0 <= m < i ==> #[trigger] uold[m] == us[m]);
    assert forall|k: int| #![trigger ps2[k]] 0 <= k < ps2.len() implies ps2[k].1@
        == image_local_path_of(ps2[k].0@) && url_among(unew, ps2[k].0@) by {
        if k < ps.len() {
            assert(ps2[k] == ps[k]);
            let m0 = choose|m: int| 0 <= m < uold.len() && uold[m] == ps[k].0@;
            assert(unew[m0] == ps2[k].0@);
        } else {
            assert(unew[i] == ps2[k].0@);
        }
    }
    assert forall|k: int, l: int|
        #![trigger ps2[k], ps2[l]]
        0 <= k < l < ps2.len() implies ps2[k].0@ != ps2[l].0@ by {
        if l < ps.len() {
            assert(ps2[k] == ps[k] && ps2[l] == ps[l]);
        } else if fresh && l == ps.len() {
            assert(ps2[k] == ps[k]);
            assert(!(ps[k].0@ == us[i])) by {
                if ps[k].0@ == us[i] {
                    assert(pair_for_url(ps, us[i]));
                }
            }
        }
    }
    assert forall|m: int| #![trigger unew[m]] 0 <= m < unew.len() implies pair_for_url(
        ps2,
        unew[m],
    ) by {
        if m < i {
            assert(uold[m] == unew[m]);
            assert(pair_for_url(ps, uold[m]));
            let k0 = choose|k: int| 0 <= k < ps.len() && (#[trigger] ps[k]).0@ == uold[m];
            assert(ps2[k0] == ps[k0]);
            assert(ps2[k0].0@ == unew[m]);
        } else {
            if fresh {
                assert(ps2[ps2.len() - 1].0@ == unew[m]);
            } else {
                let k0 = choose|k: int| 0 <= k < ps.len() && (#[trigger] ps[k]).0@ == us[i];
                assert(ps2[k0].0@ == unew[m]);
            }
        }
    }
}

/// Whether the cache already holds an entry for URL `u`.
fn contains_url(ps: &Vec<(String, String)>, u: &String) -> (r: bool)
    ensures
        r == pair_for_url(ps@, u@),
{
    let mut k: usize = 0;
    while k < ps.len()
        invariant
            0 <= k <= ps.len(),
            forall|j: int| 0 <= j < k ==> (#[trigger] ps@[j]).0@ != u@,
        decreases ps.len() - k,
    {
        if ps[k].0 == *u {
            return true;
        }
        k = k + 1;
    }
    false
}

/// Discovers the linked images of a rendered body, rewrites each anchor and
/// image to the URL's deterministic local path, and returns the cache pairs
/// (one per distinct URL) together with the rewritten HTML.
pub fn replace_img_srcs_with_hashes(html: &str) -> (r: (Vec<(String, String)>, String))
    ensures
        pairs_cover(r.0@, linked_image_srcs(html@)),
        r.1@ == relinked_html(
            html@,
            linked_image_srcs(html@).map_values(|u: Seq<char>| image_local_path_of(u)),
        ),
{
    let srcs = collect_linked_image_srcs(html);
    let ghost gsrcs = linked_image_srcs(html@);
    let mut paths: Vec<String> = Vec::new();
    let mut i: usize = 0;
    while i < srcs.len()
        invariant
            0 <= i <= srcs.len(),
            srcs@.map_values(|s: String| s@) == gsrcs,
            paths@.len() == i,
            forall|j: int|
                0 <= j < i ==> (#[trigger] paths@[j])@ == image_local_path_of(gsrcs[j]),
        decreases srcs.len() - i,
    {
        proof {
            assert(gsrcs[i as int] == srcs@[i as int]@);
        }
        paths.push(hash_path_from_url(srcs[i].as_str()));
        i = i + 1;
    }
    proof {
        assert(paths@.map_values(|s: String| s@) =~= gsrcs.map_values(
            |u: Seq<char>| image_local_path_of(u),
        ));
    }
    let html2 = rewrite_linked_images(html, &paths);
    let mut pairs: Vec<(String, String)> = Vec::new();
    let mut k: usize = 0;
    proof {
        assert(gsrcs.take(0) =~= Seq::<Seq<char>>::empty());
    }
    while k < srcs.len()
        invariant
            0 <= k <= srcs.len(),
            srcs@.map_values(|s: String| s@) == gsrcs,
            pairs_cover(pairs@, gsrcs.take(k as int)),
        decreases srcs.len() - k,
    {
        let ghost prev = pairs@;
        proof {
            assert(gsrcs[k as int] == srcs@[k as int]@);
        }
        let fresh = !contains_url(&pairs, &srcs[k]);
        if fresh {
            let p = hash_path_from_url(srcs[k].as_str());
            pairs.push((srcs[k].clone(), p));
            proof {
                assert(pairs@.subrange(0, prev.len() as int) =~= prev);
            }
        }
        proof {
            lemma_pairs_step(prev, pairs@, gsrcs, k as int, fresh);
        }
        k = k + 1;
    }
    proof {
        assert(gsrcs.take(gsrcs.len() as int) =~= gsrcs);
    }
    (pairs, html2)
}

} // verus!
