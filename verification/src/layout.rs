//! Preview text layout: wraps a title into at most three display lines for
//! the fixed-size preview canvas, and builds the pluralized comment phrase.
use vstd::prelude::*;

verus! {

use unicode_segmentation::UnicodeSegmentation;

/// Character budget of one preview line (an approximation of pixel width).
pub const MAX_LINE_CHARS: usize = 26;

/// The word-boundary segmentation of a string, as unicode_segmentation's
/// `split_word_bounds` produces it.
pub uninterp spec fn word_bounds_of(s: Seq<char>) -> Seq<Seq<char>>;

/// Relies on unicode_segmentation's `str::split_word_bounds` (UAX #29 word
/// boundaries): the concatenation of the returned substrings is exactly the
/// original string, and no substring is empty.
#[verifier::external_body]
fn split_word_bounds(s: &str) -> (r: Vec<Vec<char>>)
    ensures
        r@.map_values(|w: Vec<char>| w@) == word_bounds_of(s@),
        r@.map_values(|w: Vec<char>| w@).flatten() == s@,
        forall|i: int| 0 <= i < r@.len() ==> (#[trigger] r@[i])@.len() > 0,
{
    s.split_word_bounds().map(|w| w.chars().collect()).collect()
}

/// Greedy wrapping of word segments into lines. `cur` is the line being
/// filled and `acc` its running length, which deliberately omits the
/// segment that opened the line after a break.
pub open spec fn wrap_rec(segs: Seq<Seq<char>>, cur: Seq<char>, acc: int, budget: int) -> Seq<
    Seq<char>,
>
    decreases segs.len(),
{
    if segs.len() == 0 {
        if cur.len() == 0 {
            Seq::empty()
        } else {
            seq![cur]
        }
    } else {
        let w = segs[0];
        if acc + w.len() > budget {
            seq![cur] + wrap_rec(segs.drop_first(), w, 0, budget)
        } else {
            wrap_rec(segs.drop_first(), cur + w, acc + w.len(), budget)
        }
    }
}

/// The lines that greedy wrapping cuts a segmentation into.
pub open spec fn wrap_parts(segs: Seq<Seq<char>>, budget: int) -> Seq<Seq<char>> {
    wrap_rec(segs, Seq::empty(), 0, budget)
}

/// The line segments of a title under the preview budget.
pub open spec fn title_parts(title: Seq<char>) -> Seq<Seq<char>> {
    wrap_parts(word_bounds_of(title), MAX_LINE_CHARS as int)
}

proof fn lemma_wrap_rec_flatten(segs: Seq<Seq<char>>, cur: Seq<char>, acc: int, budget: int)
    ensures
        wrap_rec(segs, cur, acc, budget).flatten() == cur + segs.flatten(),
    decreases segs.len(),
{
    broadcast use vstd::seq_lib::group_seq_properties;

    if segs.len() == 0 {
        if cur.len() == 0 {
            assert(wrap_rec(segs, cur, acc, budget).flatten() =~= cur + segs.flatten());
        } else {
            seq![cur].lemma_flatten_one_element();
            assert(seq![cur].flatten() =~= cur + segs.flatten());
        }
    } else {
        let w = segs[0];
        if acc + w.len() > budget {
            lemma_wrap_rec_flatten(segs.drop_first(), w, 0, budget);
            vstd::seq_lib::lemma_flatten_concat(
                seq![cur],
                wrap_rec(segs.drop_first(), w, 0, budget),
            );
            seq![cur].lemma_flatten_one_element();
            assert(cur + (w + segs.drop_first().flatten()) =~= cur + segs.flatten());
        } else {
            lemma_wrap_rec_flatten(segs.drop_first(), cur + w, acc + w.len(), budget);
            assert((cur + w) + segs.drop_first().flatten() =~= cur + segs.flatten());
        }
    }
}

/// Wrapping never reorders, drops, or duplicates characters: the lines
/// concatenate back to the concatenation of the segments.
pub proof fn lemma_wrap_preserves_chars(segs: Seq<Seq<char>>, budget: int)
    ensures
        wrap_parts(segs, budget).flatten() == segs.flatten(),
{
    lemma_wrap_rec_flatten(segs, Seq::empty(), 0, budget);
    assert(Seq::<char>::empty() + segs.flatten() =~= segs.flatten());
}

/// The title of a preview card, cut into at most three lines.
#[derive(Debug, PartialEq)]
pub enum Spans {
    One(String),
    Two(String, String),
    Three(String, String, String),
}

/// The marker appended to the third line when wrapping produced more than
/// three line segments.
pub open spec fn ellipsis_suffix(n: int) -> Seq<char> {
    if n > 3 {
        seq!['.', '.', '.']
    } else {
        Seq::empty()
    }
}

/// How a `Spans` value displays the line segments `parts`: `parts` has
/// `min(N, 3)` displayed lines for N segments; the first two lines are the
/// first two segments; the third line is the third segment alone, with an
/// ellipsis appended exactly when segments beyond the third were dropped.
pub open spec fn spans_match(r: Spans, parts: Seq<Seq<char>>) -> bool {
    match r {
        Spans::One(a) => parts.len() == 1 && a@ == parts[0],
        Spans::Two(a, b) => parts.len() == 2 && a@ == parts[0] && b@ == parts[1],
        Spans::Three(a, b, c) => parts.len() >= 3 && a@ == parts[0] && b@ == parts[1] && c@
            == parts[2] + ellipsis_suffix(parts.len() as int),
    }
}

/// The number of lines a `Spans` value displays.
pub open spec fn span_count(r: Spans) -> int {
    match r {
        Spans::One(_) => 1,
        Spans::Two(_, _) => 2,
        Spans::Three(_, _, _) => 3,
    }
}

/// A title that wraps into N line segments is displayed on min(N, 3) lines.
pub proof fn lemma_layout_line_count(r: Spans, parts: Seq<Seq<char>>)
    requires
        spans_match(r, parts),
    ensures
        span_count(r) == if parts.len() < 3 {
            parts.len() as int
        } else {
            3int
        },
{
}

/// Cuts a title into at most three preview lines, as `spans_match`
/// describes; the line segments together carry every character of the
/// title, in order.
pub fn cut_title(title: &str) -> (r: Spans)
    requires
        title@.len() > 0,
    ensures
        spans_match(r, title_parts(title@)),
        title_parts(title@).flatten() == title@,
{
    let segs = split_word_bounds(title);
    let ghost gsegs = segs@.map_values(|w: Vec<char>| w@);
    let mut parts: Vec<Vec<char>> = Vec::new();
    let mut cur: Vec<char> = Vec::new();
    let mut acc: usize = 0;
    let mut i: usize = 0;
    proof {
        assert(gsegs.skip(0) =~= gsegs);
    }
    while i < segs.len()
        invariant
            0 <= i <= segs.len(),
            gsegs == segs@.map_values(|w: Vec<char>| w@),
            gsegs == word_bounds_of(title@),
            gsegs.flatten() == title@,
            acc <= MAX_LINE_CHARS,
            title_parts(title@) == parts@.map_values(|w: Vec<char>| w@) + wrap_rec(
                gsegs.skip(i as int),
                cur@,
                acc as int,
                MAX_LINE_CHARS as int,
            ),
        decreases segs.len() - i,
    {
        let ghost rest = gsegs.skip(i as int);
        let w = &segs[i];
        proof {
            assert(rest[0] == w@);
            assert(rest.drop_first() =~= gsegs.skip(i + 1));
        }
        if w.len() > MAX_LINE_CHARS - acc {
            parts.push(cur);
            cur = Vec::new();
            crate::text::extend_chars(&mut cur, w);
            acc = 0;
            proof {
                assert(cur@ =~= w@);
            }
        } else {
            crate::text::extend_chars(&mut cur, w);
            acc = acc + w.len();
        }
        i = i + 1;
    }
    proof {
        assert(gsegs.skip(segs@.len() as int) =~= Seq::<Seq<char>>::empty());
    }
    if cur.len() > 0 {
        parts.push(cur);
    }
    let ghost gparts = title_parts(title@);
    proof {
        assert(gparts =~= parts@.map_values(|w: Vec<char>| w@));
        lemma_wrap_preserves_chars(gsegs, MAX_LINE_CHARS as int);
        assert(gparts.len() >= 1) by {
            if gparts.len() == 0 {
                assert(gparts.flatten() =~= Seq::<char>::empty());
            }
        }
    }
    if parts.len() == 1 {
        Spans::One(crate::text::chars_to_string(&parts[0]))
    } else if parts.len() == 2 {
        Spans::Two(
            crate::text::chars_to_string(&parts[0]),
            crate::text::chars_to_string(&parts[1]),
        )
    } else {
        let mut third: Vec<char> = Vec::new();
        crate::text::extend_chars(&mut third, &parts[2]);
        if parts.len() > 3 {
            third.push('.');
            third.push('.');
            third.push('.');
        }
        proof {
            assert(third@ =~= gparts[2] + ellipsis_suffix(gparts.len() as int));
        }
        Spans::Three(
            crate::text::chars_to_string(&parts[0]),
            crate::text::chars_to_string(&parts[1]),
            crate::text::chars_to_string(&third),
        )
    }
}

/// The pluralized comment phrase: "1 comment" for exactly one comment,
/// "N comments" for every other count, zero included.
pub open spec fn comment_phrase(n: nat) -> Seq<char> {
    if n == 1 {
        crate::text::dec_rep(n) + " comment"@
    } else {
        crate::text::dec_rep(n) + " comments"@
    }
}

/// Builds the comment phrase of a preview card, as `comment_phrase`
/// describes.
pub fn comments_text(count: u32) -> (r: String)
    ensures
        r@ == comment_phrase(count as nat),
{
    let mut s = crate::text::u32_to_string(count);
    if count == 1 {
        s.append(" comment");
    } else {
        s.append(" comments");
    }
    s
}

} // verus!
