//! Slug derivation: a title becomes a lowercase, hyphen-delimited,
//! URL-safe identifier.
use vstd::prelude::*;

verus! {

use vstd::std_specs::iter::IteratorSpec;

broadcast use vstd::string::group_string_axioms;

/// An ASCII alphanumeric character: the only characters a slug keeps.
pub open spec fn is_slug_alnum(c: char) -> bool {
    ('a' <= c && c <= 'z') || ('A' <= c && c <= 'Z') || ('0' <= c && c <= '9')
}

/// ASCII lowercasing of a single character.
pub open spec fn lower_char(c: char) -> char {
    if 'A' <= c && c <= 'Z' {
        (((c as u8) + 32) as char)
    } else {
        c
    }
}

/// One step of slug construction: `out` is the slug of the part already
/// read, and `pending` records whether a separator character has been seen
/// since the last alphanumeric character (or the start of the title).
pub open spec fn slug_step(out: Seq<char>, pending: bool, c: char) -> (Seq<char>, bool) {
    if is_slug_alnum(c) {
        if pending && out.len() > 0 {
            (out + seq!['-', lower_char(c)], false)
        } else {
            (out.push(lower_char(c)), false)
        }
    } else {
        (out, true)
    }
}

pub open spec fn slug_rec(s: Seq<char>, out: Seq<char>, pending: bool) -> Seq<char>
    decreases s.len(),
{
    if s.len() == 0 {
        out
    } else {
        let (out2, pending2) = slug_step(out, pending, s[0]);
        slug_rec(s.drop_first(), out2, pending2)
    }
}

/// The slug of a title: maximal runs of ASCII alphanumerics are lowercased
/// and kept; every other run of characters collapses to a single `-`
/// between two kept runs; nothing is emitted for leading or trailing runs.
pub open spec fn slug_of(s: Seq<char>) -> Seq<char> {
    slug_rec(s, Seq::empty(), false)
}

/// A character a slug may contain besides `-`: lowercase ASCII letters
/// and digits.
pub open spec fn is_lower_slug_char(c: char) -> bool {
    ('a' <= c && c <= 'z') || ('0' <= c && c <= '9')
}

/// Well-formedness of a slug: only lowercase ASCII alphanumerics and
/// hyphens, with no hyphen leading, trailing, or doubled.
pub open spec fn slug_canonical(t: Seq<char>) -> bool {
    &&& (forall|i: int| 0 <= i < t.len() ==> is_lower_slug_char(#[trigger] t[i]) || t[i] == '-')
    &&& (t.len() > 0 ==> t[0] != '-' && t[t.len() - 1] != '-')
    &&& (forall|i: int| 0 <= i < t.len() - 1 ==> !(#[trigger] t[i] == '-' && t[i + 1] == '-'))
}

proof fn lemma_lower_char_shape(c: char)
    requires
        is_slug_alnum(c),
    ensures
        is_lower_slug_char(lower_char(c)),
        lower_char(c) != '-',
{
}

proof fn lemma_rec_canonical(s: Seq<char>, out: Seq<char>, pending: bool)
    requires
        slug_canonical(out),
    ensures
        slug_canonical(slug_rec(s, out, pending)),
    decreases s.len(),
{
    if s.len() > 0 {
        let c = s[0];
        let out2 = slug_step(out, pending, c).0;
        let p2 = slug_step(out, pending, c).1;
        if is_slug_alnum(c) {
            lemma_lower_char_shape(c);
            assert(slug_canonical(out2)) by {
                if pending && out.len() > 0 {
                    assert(out2 =~= out + seq!['-', lower_char(c)]);
                    assert forall|i: int| 0 <= i < out2.len() implies is_lower_slug_char(
                        #[trigger] out2[i],
                    ) || out2[i] == '-' by {
                        if i < out.len() {
                            assert(out2[i] == out[i]);
                        }
                    }
                    assert forall|i: int| 0 <= i < out2.len() - 1 implies !(#[trigger] out2[i]
                        == '-' && out2[i + 1] == '-') by {
                        if i < out.len() - 1 {
                            assert(out2[i] == out[i] && out2[i + 1] == out[i + 1]);
                        } else if i == out.len() - 1 {
                            assert(out2[i] == out[out.len() - 1]);
                        }
                    }
                } else {
                    assert(out2 =~= out.push(lower_char(c)));
                }
            }
        }
        lemma_rec_canonical(s.drop_first(), out2, p2);
    }
}

/// Every slug is well formed: only lowercase ASCII alphanumerics and
/// hyphens, and no hyphen is adjacent to another, leads, or trails.
pub proof fn lemma_slug_well_formed(s: Seq<char>)
    ensures
        slug_canonical(slug_of(s)),
{
    lemma_rec_canonical(s, Seq::empty(), false);
}

proof fn lemma_fix_rec(t: Seq<char>, i: int, out: Seq<char>, pending: bool)
    requires
        slug_canonical(t),
        0 <= i <= t.len(),
        pending ==> i > 0 && t[i - 1] == '-' && out =~= t.take(i - 1),
        !pending ==> out =~= t.take(i) && (i > 0 ==> t[i - 1] != '-'),
    ensures
        slug_rec(t.skip(i), out, pending) == t,
    decreases t.len() - i,
{
    if i == t.len() {
        assert(t.skip(i) =~= Seq::<char>::empty());
        if pending {
            assert(t[t.len() - 1] == '-');
            assert(false);
        } else {
            assert(out =~= t);
        }
    } else {
        let c = t[i];
        assert(t.skip(i)[0] == c);
        assert(t.skip(i).drop_first() =~= t.skip(i + 1));
        assert(is_lower_slug_char(c) || c == '-');
        if is_lower_slug_char(c) {
            assert(is_slug_alnum(c));
            assert(lower_char(c) == c);
            if pending {
                assert(out.len() == i - 1);
                assert(i >= 2);
                assert(out + seq!['-', c] =~= t.take(i + 1));
                lemma_fix_rec(t, i + 1, out + seq!['-', lower_char(c)], false);
            } else {
                assert(out.push(c) =~= t.take(i + 1));
                lemma_fix_rec(t, i + 1, out.push(lower_char(c)), false);
            }
        } else {
            assert(!is_slug_alnum(c));
            if pending {
                assert(t[i - 1] == '-' && t[i] == '-');
                assert(false);
            } else {
                assert(out =~= t.take(i + 1 - 1));
                lemma_fix_rec(t, i + 1, out, true);
            }
        }
    }
}

/// A well-formed slug is a fixed point of slug derivation.
pub proof fn lemma_slug_fixed_point(t: Seq<char>)
    requires
        slug_canonical(t),
    ensures
        slug_of(t) == t,
{
    assert(t.skip(0) =~= t);
    assert(Seq::<char>::empty() =~= t.take(0));
    lemma_fix_rec(t, 0, Seq::empty(), false);
}

/// Slug derivation is idempotent: deriving the slug of a slug changes
/// nothing.
pub proof fn lemma_slug_idempotent(s: Seq<char>)
    ensures
        slug_of(slug_of(s)) == slug_of(s),
{
    lemma_slug_well_formed(s);
    lemma_slug_fixed_point(slug_of(s));
}

proof fn lemma_rec_grows(s: Seq<char>, out: Seq<char>, pending: bool)
    ensures
        slug_rec(s, out, pending).len() >= out.len(),
    decreases s.len(),
{
    if s.len() > 0 {
        let out2 = slug_step(out, pending, s[0]).0;
        let p2 = slug_step(out, pending, s[0]).1;
        lemma_rec_grows(s.drop_first(), out2, p2);
    }
}

proof fn lemma_rec_nonempty(s: Seq<char>, out: Seq<char>, pending: bool)
    requires
        exists|i: int| 0 <= i < s.len() && is_slug_alnum(#[trigger] s[i]),
    ensures
        slug_rec(s, out, pending).len() > 0,
    decreases s.len(),
{
    let i = choose|i: int| 0 <= i < s.len() && is_slug_alnum(#[trigger] s[i]);
    let out2 = slug_step(out, pending, s[0]).0;
    let p2 = slug_step(out, pending, s[0]).1;
    if i == 0 {
        lemma_rec_grows(s.drop_first(), out2, p2);
    } else {
        assert(s.drop_first()[i - 1] == s[i]);
        lemma_rec_nonempty(s.drop_first(), out2, p2);
    }
}

/// A title with at least one ASCII alphanumeric character has a nonempty
/// slug.
pub proof fn lemma_slug_nonempty(s: Seq<char>)
    requires
        exists|i: int| 0 <= i < s.len() && is_slug_alnum(#[trigger] s[i]),
    ensures
        slug_of(s).len() > 0,
{
    lemma_rec_nonempty(s, Seq::empty(), false);
}

fn is_slug_alnum_exec(c: char) -> (r: bool)
    ensures
        r == is_slug_alnum(c),
{
    ('a' <= c && c <= 'z') || ('A' <= c && c <= 'Z') || ('0' <= c && c <= '9')
}

fn lower_char_exec(c: char) -> (r: char)
    ensures
        r == lower_char(c),
{
    if 'A' <= c && c <= 'Z' {
        ((c as u8) + 32) as char
    } else {
        c
    }
}

/// Derives the slug of a title, as `slug_of` describes.
pub fn correct_dash_case(s: &str) -> (r: String)
    ensures
        r@ == slug_of(s@),
{
    let mut out: Vec<char> = Vec::new();
    let mut pending: bool = false;
    proof {
        assert(s@.skip(0) =~= s@);
    }
    for c in it: s.chars()
        invariant
            it.seq() == s@,
            slug_of(s@) == slug_rec(s@.skip(it.index() as int), out@, pending),
    {
        let ghost i = it.index() as int;
        let ghost rest = s@.skip(i);
        let ghost prev_out = out@;
        let ghost prev_pending = pending;
        if is_slug_alnum_exec(c) {
            if pending && out.len() > 0 {
                out.push('-');
            }
            out.push(lower_char_exec(c));
            pending = false;
        } else {
            pending = true;
        }
        proof {
            assert(rest[0] == c);
            assert(rest.drop_first() =~= s@.skip(i + 1));
            assert(out@ =~= slug_step(prev_out, prev_pending, c).0);
            assert(pending == slug_step(prev_out, prev_pending, c).1);
            assert(slug_rec(rest, prev_out, prev_pending) == slug_rec(
                s@.skip(i + 1),
                out@,
                pending,
            ));
        }
    }
    crate::text::chars_to_string(&out)
}

} // verus!
