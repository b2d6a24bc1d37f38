//! Redirect reconciliation: every obsolete slug of an article's rename
//! history gets one redirect artifact pointing at the canonical slug, and
//! the canonical article artifact is always written after them.
use crate::slug::{correct_dash_case, slug_of};
use vstd::prelude::*;

verus! {

/// One artifact write of an article's publication. Writes are performed in
/// the order planned, so the canonical page always overwrites a redirect
/// stub that shares its slug, never the reverse.
#[derive(Debug, PartialEq)]
pub enum ArtifactWrite {
    /// A redirect page at an obsolete slug, pointing at the canonical slug.
    Redirect { at: String, target: String },
    /// The canonical article page.
    Canonical { at: String },
}

/// The slug an artifact write lands at.
pub open spec fn write_slug(w: ArtifactWrite) -> Seq<char> {
    match w {
        ArtifactWrite::Redirect { at, target } => at@,
        ArtifactWrite::Canonical { at } => at@,
    }
}

/// Whether `w` is a redirect to the canonical slug `cur` from a different
/// slug.
pub open spec fn is_redirect_to(w: ArtifactWrite, cur: Seq<char>) -> bool {
    match w {
        ArtifactWrite::Redirect { at, target } => target@ == cur && at@ != cur,
        ArtifactWrite::Canonical { at } => false,
    }
}

/// Whether some write in `ws` lands at slug `s`.
pub open spec fn has_write_at(ws: Seq<ArtifactWrite>, s: Seq<char>) -> bool {
    exists|i: int| 0 <= i < ws.len() && write_slug(#[trigger] ws[i]) == s
}

/// Whether `s` is the slug of some title in `titles`.
pub open spec fn slug_among(titles: Seq<String>, s: Seq<char>) -> bool {
    exists|m: int| 0 <= m < titles.len() && slug_of(#[trigger] titles[m]@) == s
}

/// The redirect artifacts `ws` reconcile the rename history `titles`
/// against the canonical slug `cur`: every write is a redirect to `cur`
/// from a distinct slug, every redirect slug is the slug of some historical
/// title, and every historical title whose slug differs from `cur` has its
/// redirect.
pub open spec fn redirects_cover(
    ws: Seq<ArtifactWrite>,
    titles: Seq<String>,
    cur: Seq<char>,
) -> bool {
    &&& (forall|i: int| #![trigger ws[i]] 0 <= i < ws.len() ==> is_redirect_to(ws[i], cur))
    &&& (forall|i: int, j: int|
        #![trigger ws[i], ws[j]]
        0 <= i < j < ws.len() ==> write_slug(ws[i]) != write_slug(ws[j]))
    &&& (forall|i: int|
        #![trigger ws[i]]
        0 <= i < ws.len() ==> slug_among(titles, write_slug(ws[i])))
    &&& (forall|m: int|
        #![trigger titles[m]]
        0 <= m < titles.len() && slug_of(titles[m]@) != cur ==> has_write_at(
            ws,
            slug_of(titles[m]@),
        ))
}

proof fn lemma_cover_step(
    ws: Seq<ArtifactWrite>,
    ws2: Seq<ArtifactWrite>,
    titles: Seq<String>,
    k: int,
    w: ArtifactWrite,
    cur: Seq<char>,
    fresh: bool,
)
    requires
        redirects_cover(ws, titles.take(k), cur),
        0 <= k < titles.len(),
        fresh ==> is_redirect_to(w, cur) && write_slug(w) == slug_of(titles[k]@) && ws2 == ws.push(
            w,
        ) && !has_write_at(ws, slug_of(titles[k]@)),
        !fresh ==> ws2 == ws && (slug_of(titles[k]@) == cur || has_write_at(
            ws,
            slug_of(titles[k]@),
        )),
    ensures
        redirects_cover(ws2, titles.take(k + 1), cur),
{
    let told = titles.take(k);
    let tnew = titles.take(k + 1);
    assert(tnew.len() == k + 1);
    assert(forall|m: int| 0 <= m <= k ==> #[trigger] tnew[m] == titles[m]);
    assert(forall|m: int| 0 <= m < k ==> #[trigger] told[m] == titles[m]);
    assert forall|i: int| #![trigger ws2[i]] 0 <= i < ws2.len() implies is_redirect_to(
        ws2[i],
        cur,
    ) by {
        if i < ws.len() {
            assert(ws2[i] == ws[i]);
        }
    }
    assert forall|i: int, j: int|
        #![trigger ws2[i], ws2[j]]
        0 <= i < j < ws2.len() implies write_slug(ws2[i]) != write_slug(ws2[j]) by {
        if j < ws.len() {
            assert(ws2[i] == ws[i] && ws2[j] == ws[j]);
        } else if fresh && j == ws.len() {
            assert(ws2[i] == ws[i]);
            assert(!(write_slug(ws[i]) == slug_of(titles[k]@))) by {
                if write_slug(ws[i]) == slug_of(titles[k]@) {
                    assert(has_write_at(ws, slug_of(titles[k]@)));
                }
            }
        }
    }
    assert forall|i: int| #![trigger ws2[i]] 0 <= i < ws2.len() implies slug_among(
        tnew,
        write_slug(ws2[i]),
    ) by {
        if i < ws.len() {
            assert(ws2[i] == ws[i]);
            assert(slug_among(told, write_slug(ws[i])));
            let m0 = choose|m: int|
                0 <= m < told.len() && slug_of(#[trigger] told[m]@) == write_slug(ws[i]);
            assert(slug_of(tnew[m0]@) == write_slug(ws2[i]));
        } else {
            assert(slug_of(tnew[k]@) == write_slug(ws2[i]));
        }
    }
    assert forall|m: int|
        #![trigger tnew[m]]
        0 <= m < tnew.len() && slug_of(tnew[m]@) != cur implies has_write_at(
            ws2,
            slug_of(tnew[m]@),
        ) by {
        if m < k {
            assert(told[m] == tnew[m]);
            assert(has_write_at(ws, slug_of(told[m]@)));
            let i0 = choose|i: int|
                0 <= i < ws.len() && write_slug(#[trigger] ws[i]) == slug_of(told[m]@);
            assert(ws2[i0] == ws[i0]);
            assert(write_slug(ws2[i0]) == slug_of(tnew[m]@));
        } else {
            if fresh {
                assert(write_slug(ws2[ws2.len() - 1]) == slug_of(tnew[m]@));
            } else {
                let i0 = choose|i: int|
                    0 <= i < ws.len() && write_slug(#[trigger] ws[i]) == slug_of(titles[k]@);
                assert(write_slug(ws2[i0]) == slug_of(tnew[m]@));
            }
        }
    }
}

/// Whether some planned write already lands at slug `s`.
fn contains_write_slug(out: &Vec<ArtifactWrite>, s: &String) -> (r: bool)
    ensures
        r == has_write_at(out@, s@),
{
    let mut i: usize = 0;
    while i < out.len()
        invariant
            0 <= i <= out.len(),
            forall|j: int| 0 <= j < i ==> write_slug(#[trigger] out@[j]) != s@,
        decreases out.len() - i,
    {
        let hit = match &out[i] {
            ArtifactWrite::Redirect { at, target } => *at == *s,
            ArtifactWrite::Canonical { at } => *at == *s,
        };
        if hit {
            return true;
        }
        i = i + 1;
    }
    false
}

/// Plans the artifact writes of one article: first exactly one redirect for
/// every distinct historical slug that differs from the current slug, each
/// targeting the current slug; last the canonical page at the current slug.
pub fn plan_article_writes(from_titles: &Vec<String>, current_title: &str) -> (r: Vec<
    ArtifactWrite,
>)
    ensures
        r@.len() >= 1,
        r@.last() matches ArtifactWrite::Canonical { at } && at@ == slug_of(current_title@),
        redirects_cover(r@.drop_last(), from_titles@, slug_of(current_title@)),
{
    let cur_slug = correct_dash_case(current_title);
    let ghost cur = slug_of(current_title@);
    let mut out: Vec<ArtifactWrite> = Vec::new();
    let mut k: usize = 0;
    proof {
        assert(from_titles@.take(0) =~= Seq::<String>::empty());
    }
    while k < from_titles.len()
        invariant
            0 <= k <= from_titles.len(),
            cur_slug@ == cur,
            cur == slug_of(current_title@),
            redirects_cover(out@, from_titles@.take(k as int), cur),
        decreases from_titles.len() - k,
    {
        let ghost prev_out = out@;
        let s = correct_dash_case(from_titles[k].as_str());
        let fresh = !(s == cur_slug) && !contains_write_slug(&out, &s);
        let ghost mut w_ghost: ArtifactWrite = arbitrary();
        if fresh {
            let w = ArtifactWrite::Redirect { at: s, target: cur_slug.clone() };
            proof {
                w_ghost = w;
            }
            out.push(w);
        }
        proof {
            lemma_cover_step(prev_out, out@, from_titles@, k as int, w_ghost, cur, fresh);
        }
        k = k + 1;
    }
    proof {
        assert(from_titles@.take(from_titles@.len() as int) =~= from_titles@);
    }
    let ghost planned = out@;
    out.push(ArtifactWrite::Canonical { at: cur_slug });
    proof {
        assert(out@.drop_last() =~= planned);
    }
    out
}

} // verus!
