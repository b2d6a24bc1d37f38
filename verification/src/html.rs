//! Textual HTML touch-ups of the rendered pages: linking `@`-references,
//! widening table markup, anchoring headers, and extracting the synopsis
//! comment.
use crate::text::{chars_to_string, extend_chars, str_to_chars};
use vstd::prelude::*;

verus! {

/// `s` with every non-overlapping occurrence of `pat` replaced by `rep`,
/// scanning left to right.
pub open spec fn replace_all_rec(s: Seq<char>, pat: Seq<char>, rep: Seq<char>) -> Seq<char>
    decreases s.len(),
{
    if pat.len() == 0 || s.len() == 0 {
        s
    } else if pat.len() <= s.len() && s.take(pat.len() as int) == pat {
        rep + replace_all_rec(s.skip(pat.len() as int), pat, rep)
    } else {
        seq![s[0]] + replace_all_rec(s.drop_first(), pat, rep)
    }
}

/// Whether `pat` occurs in `v` starting at `i`.
fn matches_at(v: &Vec<char>, pat: &Vec<char>, i: usize) -> (r: bool)
    requires
        i + pat@.len() <= v@.len(),
    ensures
        r == (v@.subrange(i as int, i + pat@.len()) == pat@),
{
    let n = v.len();
    let mut j: usize = 0;
    while j < pat.len()
        invariant
            0 <= j <= pat@.len(),
            i + pat@.len() <= v@.len(),
            v@.len() == n,
            forall|m: int| 0 <= m < j ==> v@[i + m] == pat@[m],
        decreases pat.len() - j,
    {
        if v[i + j] != pat[j] {
            proof {
                assert(v@.subrange(i as int, i + pat@.len())[j as int] != pat@[j as int]);
            }
            return false;
        }
        j = j + 1;
    }
    proof {
        assert(v@.subrange(i as int, i + pat@.len()) =~= pat@);
    }
    true
}

/// Replaces every occurrence of `pat` in `v` by `rep`, as
/// `replace_all_rec` describes.
fn replace_all_chars(v: &Vec<char>, pat: &Vec<char>, rep: &Vec<char>) -> (r: Vec<char>)
    requires
        pat@.len() > 0,
    ensures
        r@ == replace_all_rec(v@, pat@, rep@),
{
    let mut out: Vec<char> = Vec::new();
    let mut i: usize = 0;
    proof {
        assert(v@.skip(0) =~= v@);
    }
    while i < v.len()
        invariant
            0 <= i <= v.len(),
            pat@.len() > 0,
            replace_all_rec(v@, pat@, rep@) == out@ + replace_all_rec(
                v@.skip(i as int),
                pat@,
                rep@,
            ),
        decreases v.len() - i,
    {
        let ghost rest = v@.skip(i as int);
        let ghost prev = out@;
        if pat.len() <= v.len() - i && matches_at(v, pat, i) {
            extend_chars(&mut out, rep);
            proof {
                assert(rest.take(pat@.len() as int) =~= v@.subrange(i as int, i + pat@.len()));
                assert(rest.skip(pat@.len() as int) =~= v@.skip(i + pat@.len()));
            }
            i = i + pat.len();
        } else {
            out.push(v[i]);
            proof {
                assert(rest[0] == v@[i as int]);
                assert(rest.drop_first() =~= v@.skip(i + 1));
                if pat@.len() <= rest.len() {
                    assert(rest.take(pat@.len() as int) =~= v@.subrange(i as int, i + pat@.len()));
                }
                assert(prev + seq![v@[i as int]] =~= out@);
            }
            i = i + 1;
        }
    }
    proof {
        assert(v@.skip(v@.len() as int) =~= Seq::<char>::empty());
        assert(out@ + Seq::<char>::empty() =~= out@);
    }
    out
}

/// The table markup of GitHub-rendered bodies with the display classes
/// inserted.
pub open spec fn tables_with_class_of(html: Seq<char>) -> Seq<char> {
    replace_all_rec(
        html,
        "<table role=\"table\">"@,
        "<table class=\"table table-striped\" role=\"table\">"@,
    )
}

/// Inserts the display classes into every table tag of the rendered body,
/// as `tables_with_class_of` describes.
pub fn insert_table_class_to_table(html: &str) -> (r: String)
    ensures
        r@ == tables_with_class_of(html@),
{
    let v = str_to_chars(html);
    let pat = str_to_chars("<table role=\"table\">");
    let rep = str_to_chars("<table class=\"table table-striped\" role=\"table\">");
    proof {
        reveal_strlit("<table role=\"table\">");
    }
    chars_to_string(&replace_all_chars(&v, &pat, &rep))
}


/// The characters of a comment body: everything before the closing `-->`,
/// or the whole rest when the comment is unterminated.
pub open spec fn comment_content(s: Seq<char>) -> Seq<char>
    decreases s.len(),
{
    if s.len() == 0 {
        Seq::empty()
    } else if s.len() >= 3 && s[0] == '-' && s[1] == '-' && s[2] == '>' {
        Seq::empty()
    } else {
        seq![s[0]] + comment_content(s.drop_first())
    }
}

/// The synopsis of a rendered body: the content of its first HTML comment,
/// empty when it has none.
pub open spec fn synopsis_of(s: Seq<char>) -> Seq<char>
    decreases s.len(),
{
    if s.len() < 4 {
        Seq::empty()
    } else if s[0] == '<' && s[1] == '!' && s[2] == '-' && s[3] == '-' {
        comment_content(s.skip(4))
    } else {
        synopsis_of(s.drop_first())
    }
}

pub open spec fn comment_open_at(s: Seq<char>, j: int) -> bool {
    s[j] == '<' && s[j + 1] == '!' && s[j + 2] == '-' && s[j + 3] == '-'
}

proof fn lemma_synopsis_at(s: Seq<char>, m: int)
    requires
        0 <= m,
        m + 3 < s.len(),
        comment_open_at(s, m),
        forall|j: int| 0 <= j < m ==> !#[trigger] comment_open_at(s, j),
    ensures
        synopsis_of(s) == comment_content(s.skip(m + 4)),
    decreases m,
{
    if m == 0 {
    } else {
        assert(!comment_open_at(s, 0));
        assert forall|j: int| 0 <= j < m - 1 implies !#[trigger] comment_open_at(
            s.drop_first(),
            j,
        ) by {
            assert(!comment_open_at(s, j + 1));
        }
        assert(comment_open_at(s.drop_first(), m - 1)) by {
            assert(comment_open_at(s, m));
        }
        lemma_synopsis_at(s.drop_first(), m - 1);
        assert(s.drop_first().skip(m + 3) =~= s.skip(m + 4));
    }
}

proof fn lemma_synopsis_none(s: Seq<char>)
    requires
        forall|j: int| 0 <= j && j + 3 < s.len() ==> !#[trigger] comment_open_at(s, j),
    ensures
        synopsis_of(s) == Seq::<char>::empty(),
    decreases s.len(),
{
    if s.len() >= 4 {
        assert(!comment_open_at(s, 0));
        assert forall|j: int| 0 <= j && j + 3 < s.drop_first().len() implies !#[trigger] comment_open_at(
            s.drop_first(),
            j,
        ) by {
            assert(!comment_open_at(s, j + 1));
        }
        lemma_synopsis_none(s.drop_first());
    }
}

pub open spec fn comment_close_at(s: Seq<char>, j: int) -> bool {
    s[j] == '-' && s[j + 1] == '-' && s[j + 2] == '>'
}

proof fn lemma_comment_prefix(t: Seq<char>, e: int)
    requires
        0 <= e <= t.len(),
        forall|m: int| 0 <= m < e ==> !(m + 2 < t.len() && #[trigger] comment_close_at(t, m)),
        e < t.len() ==> e + 2 < t.len() && comment_close_at(t, e),
    ensures
        comment_content(t) == t.take(e),
    decreases e,
{
    if e == 0 {
        assert(comment_content(t) =~= t.take(0));
    } else {
        assert(!(0 + 2 < t.len() && comment_close_at(t, 0)));
        assert forall|m: int| 0 <= m < e - 1 implies !(m + 2 < t.drop_first().len()
            && #[trigger] comment_close_at(t.drop_first(), m)) by {
            if m + 2 < t.drop_first().len() && comment_close_at(t.drop_first(), m) {
                assert(comment_close_at(t, m + 1));
            }
        }
        if e - 1 < t.drop_first().len() {
            assert(comment_close_at(t.drop_first(), e - 1)) by {
                assert(comment_close_at(t, e));
            }
        }
        lemma_comment_prefix(t.drop_first(), e - 1);
        assert(seq![t[0]] + t.drop_first().take(e - 1) =~= t.take(e));
    }
}

/// Extracts the synopsis of a rendered body, as `synopsis_of` describes.
pub fn synopsis(s: &str) -> (r: String)
    ensures
        r@ == synopsis_of(s@),
{
    let v = str_to_chars(s);
    let n = v.len();
    let mut m: usize = 0;
    let mut found: bool = false;
    while !found && n >= 4 && m < n - 3
        invariant
            v@.len() == n,
            0 <= m <= n,
            !found ==> forall|j: int| 0 <= j < m ==> !#[trigger] comment_open_at(v@, j),
            found ==> m + 3 < n && comment_open_at(v@, m as int) && (forall|j: int|
                0 <= j < m ==> !#[trigger] comment_open_at(v@, j)),
        decreases n - m + (if found { 0int } else { 1int }),
    {
        if v[m] == '<' && v[m + 1] == '!' && v[m + 2] == '-' && v[m + 3] == '-' {
            found = true;
        } else {
            m = m + 1;
        }
    }
    if !found {
        proof {
            lemma_synopsis_none(v@);
        }
        String::new()
    } else {
        let start = m + 4;
        let mut e: usize = start;
        let mut closed: bool = false;
        while !closed && e < n
            invariant
                v@.len() == n,
                start <= e,
                start <= n,
                !closed ==> e <= n,
                !closed ==> forall|q: int|
                    start <= q < e ==> !(q + 2 < v@.len() && #[trigger] comment_close_at(v@, q)),
                closed ==> start <= e && e + 2 < n && comment_close_at(v@, e as int) && (forall|
                    q: int,
                |
                    start <= q < e ==> !(q + 2 < v@.len() && #[trigger] comment_close_at(v@, q))),
            decreases n - e + (if closed { 0int } else { 1int }),
        {
            if n - e > 2 && v[e] == '-' && v[e + 1] == '-' && v[e + 2] == '>' {
                closed = true;
            } else {
                e = e + 1;
            }
        }
        let mut out: Vec<char> = Vec::new();
        let mut t: usize = start;
        while t < e
            invariant
                v@.len() == n,
                start <= t <= e,
                e <= n,
                out@ == v@.subrange(start as int, t as int),
            decreases e - t,
        {
            out.push(v[t]);
            proof {
                assert(out@ =~= v@.subrange(start as int, t + 1));
            }
            t = t + 1;
        }
        proof {
            lemma_synopsis_at(v@, m as int);
            let tail = v@.skip(start as int);
            assert forall|q: int| 0 <= q < e - start implies !(q + 2 < tail.len()
                && #[trigger] comment_close_at(tail, q)) by {
                if q + 2 < tail.len() && comment_close_at(tail, q) {
                    assert(comment_close_at(v@, q + start));
                }
            }
            if closed {
                assert(comment_close_at(tail, e - start)) by {
                    assert(comment_close_at(v@, e as int));
                }
            }
            lemma_comment_prefix(tail, e - start);
            assert(tail.take(e - start) =~= v@.subrange(start as int, e as int));
        }
        chars_to_string(&out)
    }
}

/// A character of an `@`-reference: ASCII letters, digits, and underscore.
pub open spec fn is_word_char(c: char) -> bool {
    ('a' <= c && c <= 'z') || ('A' <= c && c <= 'Z') || ('0' <= c && c <= '9') || c == '_'
}

/// The longest prefix of reference characters.
pub open spec fn word_prefix(s: Seq<char>) -> Seq<char>
    decreases s.len(),
{
    if s.len() == 0 || !is_word_char(s[0]) {
        Seq::empty()
    } else {
        seq![s[0]] + word_prefix(s.drop_first())
    }
}

proof fn lemma_word_prefix_len(t: Seq<char>)
    ensures
        word_prefix(t).len() <= t.len(),
    decreases t.len(),
{
    if t.len() > 0 && is_word_char(t[0]) {
        lemma_word_prefix_len(t.drop_first());
    }
}

proof fn lemma_word_prefix_is(t: Seq<char>, m: int)
    requires
        0 <= m <= t.len(),
        forall|q: int| 0 <= q < m ==> is_word_char(#[trigger] t[q]),
        m < t.len() ==> !is_word_char(t[m]),
    ensures
        word_prefix(t) == t.take(m),
    decreases m,
{
    if m == 0 {
        assert(word_prefix(t) =~= t.take(0));
    } else {
        assert(is_word_char(t[0]));
        lemma_word_prefix_is(t.drop_first(), m - 1);
        assert(seq![t[0]] + t.drop_first().take(m - 1) =~= t.take(m));
    }
}

/// A bio with every `@`-reference turned into a profile link: `@name`
/// becomes an anchor to the name's profile page, keeping the `@name` text.
pub open spec fn linkify_rec(s: Seq<char>) -> Seq<char>
    decreases s.len(),
    via linkify_rec_dec
{
    if s.len() == 0 {
        s
    } else if s[0] == '@' && s.len() > 1 && is_word_char(s[1]) {
        let w = word_prefix(s.skip(1));
        "<a href=\"https://github.com/"@ + w + "\">@"@ + w + "</a>"@ + linkify_rec(
            s.skip(1 + w.len() as int),
        )
    } else {
        seq![s[0]] + linkify_rec(s.drop_first())
    }
}

#[via_fn]
proof fn linkify_rec_dec(s: Seq<char>) {
    if s.len() > 0 && s[0] == '@' && s.len() > 1 && is_word_char(s[1]) {
        lemma_word_prefix_len(s.skip(1));
    }
}

fn is_word_char_exec(c: char) -> (r: bool)
    ensures
        r == is_word_char(c),
{
    ('a' <= c && c <= 'z') || ('A' <= c && c <= 'Z') || ('0' <= c && c <= '9') || c == '_'
}

/// Links every `@`-reference of a bio, as `linkify_rec` describes.
pub fn linkify_at_references(bio: &str) -> (r: String)
    ensures
        r@ == linkify_rec(bio@),
{
    let v = str_to_chars(bio);
    let pre = str_to_chars("<a href=\"https://github.com/");
    let mid = str_to_chars("\">@");
    let post = str_to_chars("</a>");
    let mut out: Vec<char> = Vec::new();
    let mut i: usize = 0;
    proof {
        assert(v@.skip(0) =~= v@);
    }
    while i < v.len()
        invariant
            0 <= i <= v.len(),
            pre@ == "<a href=\"https://github.com/"@,
            mid@ == "\">@"@,
            post@ == "</a>"@,
            linkify_rec(v@) == out@ + linkify_rec(v@.skip(i as int)),
        decreases v.len() - i,
    {
        let ghost rest = v@.skip(i as int);
        let ghost prev = out@;
        proof {
            assert(rest[0] == v@[i as int]);
            assert(rest.drop_first() =~= v@.skip(i + 1));
        }
        if v[i] == '@' && i + 1 < v.len() && is_word_char_exec(v[i + 1]) {
            let mut j: usize = i + 1;
            let mut wv: Vec<char> = Vec::new();
            while j < v.len() && is_word_char_exec(v[j])
                invariant
                    i + 1 <= j <= v.len(),
                    forall|q: int| i + 1 <= q < j ==> is_word_char(#[trigger] v@[q]),
                    wv@ == v@.subrange(i + 1, j as int),
                decreases v.len() - j,
            {
                wv.push(v[j]);
                proof {
                    assert(wv@ =~= v@.subrange(i + 1, j + 1));
                }
                j = j + 1;
            }
            proof {
                let tail = rest.drop_first();
                assert forall|q: int| 0 <= q < j - (i + 1) implies is_word_char(
                    #[trigger] tail[q],
                ) by {
                    assert(tail[q] == v@[q + i + 1]);
                }
                if j < v@.len() {
                    assert(tail[j - (i + 1)] == v@[j as int]);
                }
                lemma_word_prefix_is(tail, j - (i + 1));
                assert(tail.take(j - (i + 1)) =~= v@.subrange(i + 1, j as int));
            }
            extend_chars(&mut out, &pre);
            extend_chars(&mut out, &wv);
            extend_chars(&mut out, &mid);
            extend_chars(&mut out, &wv);
            extend_chars(&mut out, &post);
            proof {
                let w = word_prefix(rest.drop_first());
                assert(w == wv@);
                assert(rest.skip(1 + w.len() as int) =~= v@.skip(j as int));
                assert(out@ =~= prev + (pre@ + w + mid@ + w + post@));
            }
            i = j;
        } else {
            out.push(v[i]);
            proof {
                assert(prev + seq![v@[i as int]] =~= out@);
            }
            i = i + 1;
        }
    }
    proof {
        assert(v@.skip(v@.len() as int) =~= Seq::<char>::empty());
        assert(out@ + Seq::<char>::empty() =~= out@);
    }
    chars_to_string(&out)
}


/// The index of the first occurrence of `c`.
pub open spec fn find_char(s: Seq<char>, c: char) -> Option<int>
    decreases s.len(),
{
    if s.len() == 0 {
        None
    } else if s[0] == c {
        Some(0int)
    } else {
        match find_char(s.drop_first(), c) {
            Some(i) => Some(i + 1),
            None => None,
        }
    }
}

proof fn lemma_find_char_at(t: Seq<char>, c: char, m: int)
    requires
        0 <= m <= t.len(),
        forall|q: int| 0 <= q < m ==> #[trigger] t[q] != c,
        m < t.len() ==> t[m] == c,
    ensures
        find_char(t, c) == (if m < t.len() {
            Some(m)
        } else {
            None::<int>
        }),
    decreases m,
{
    if m == 0 {
    } else {
        assert(t[0] != c);
        lemma_find_char_at(t.drop_first(), c, m - 1);
    }
}

proof fn lemma_find_char_bound(t: Seq<char>, c: char)
    ensures
        match find_char(t, c) {
            Some(i) => 0 <= i < t.len() && t[i] == c,
            None => true,
        },
    decreases t.len(),
{
    if t.len() > 0 && t[0] != c {
        lemma_find_char_bound(t.drop_first(), c);
    }
}

/// A header level that receives an anchor.
pub open spec fn is_header_digit(c: char) -> bool {
    c == '2' || c == '3' || c == '4'
}

/// Whether `s` begins with an anchored header's opening, `<h2 `, `<h3 `,
/// or `<h4 `.
pub open spec fn header_open_at(s: Seq<char>) -> bool {
    s.len() >= 4 && s[0] == '<' && s[1] == 'h' && is_header_digit(s[2]) && s[3] == ' '
}

pub open spec fn close_tag(d: char) -> Seq<char> {
    seq!['<', '/', 'h', d, '>']
}

/// A header with its anchor inserted: an `id` carrying the slug of the
/// header text, and the text wrapped in a link to that fragment.
pub open spec fn rewritten_header(d: char, attrs: Seq<char>, text: Seq<char>) -> Seq<char> {
    let sl = crate::slug::slug_of(text);
    seq!['<', 'h', d] + " id=\""@ + sl + "\" "@ + attrs + "><a href=\"#"@ + sl + "\">"@ + text
        + "</a></h"@ + seq![d, '>']
}

/// How a header opening at the front of `s` is rewritten: the attributes
/// run to the next `>`, the text to the next `<`, which must start the
/// matching closing tag; the result carries the rewritten header and how
/// many characters it consumed.
pub open spec fn header_rewrite(s: Seq<char>) -> Option<(Seq<char>, int)> {
    let d = s[2];
    match find_char(s.skip(4), '>') {
        Some(ae) => {
            let attrs = s.skip(4).take(ae);
            let rest1 = s.skip(4 + ae + 1);
            match find_char(rest1, '<') {
                Some(te) => {
                    let text = rest1.take(te);
                    let rest2 = rest1.skip(te);
                    if rest2.len() >= 5 && rest2.take(5) == close_tag(d) {
                        Some((rewritten_header(d, attrs, text), 4 + ae + 1 + te + 5))
                    } else {
                        None
                    }
                },
                None => None,
            }
        },
        None => None,
    }
}

/// The rendered body with every well-formed `h2`/`h3`/`h4` header
/// anchored, as `header_rewrite` describes; malformed openings are copied
/// unchanged.
pub open spec fn anchored_headers_of(s: Seq<char>) -> Seq<char>
    decreases s.len(),
    via anchored_headers_dec
{
    if s.len() == 0 {
        s
    } else if header_open_at(s) {
        match header_rewrite(s) {
            Some(rw) => rw.0 + anchored_headers_of(s.skip(rw.1)),
            None => seq![s[0]] + anchored_headers_of(s.drop_first()),
        }
    } else {
        seq![s[0]] + anchored_headers_of(s.drop_first())
    }
}

#[via_fn]
proof fn anchored_headers_dec(s: Seq<char>) {
    if s.len() > 0 && header_open_at(s) {
        lemma_find_char_bound(s.skip(4), '>');
        match find_char(s.skip(4), '>') {
            Some(ae) => {
                lemma_find_char_bound(s.skip(4 + ae + 1), '<');
            },
            None => {},
        }
    }
}

/// Anchors the well-formed headers of a rendered body, as
/// `anchored_headers_of` describes.
#[verifier::rlimit(100)]
pub fn insert_anchor_to_headers(html: &str) -> (r: String)
    ensures
        r@ == anchored_headers_of(html@),
{
    let v = str_to_chars(html);
    let n = v.len();
    let lit_id = str_to_chars(" id=\"");
    let lit_mid = str_to_chars("\" ");
    let lit_open = str_to_chars("><a href=\"#");
    let lit_gt = str_to_chars("\">");
    let lit_close = str_to_chars("</a></h");
    let mut out: Vec<char> = Vec::new();
    let mut i: usize = 0;
    proof {
        assert(v@.skip(0) =~= v@);
    }
    while i < n
        invariant
            v@.len() == n,
            0 <= i <= n,
            lit_id@ == " id=\""@,
            lit_mid@ == "\" "@,
            lit_open@ == "><a href=\"#"@,
            lit_gt@ == "\">"@,
            lit_close@ == "</a></h"@,
            anchored_headers_of(v@) == out@ + anchored_headers_of(v@.skip(i as int)),
        decreases n - i,
    {
        let ghost rest = v@.skip(i as int);
        let ghost prev = out@;
        proof {
            assert(rest[0] == v@[i as int]);
            assert(rest.drop_first() =~= v@.skip(i + 1));
        }
        let mut advanced = false;
        if n - i >= 4 && v[i] == '<' && v[i + 1] == 'h' && (v[i + 2] == '2' || v[i + 2] == '3'
            || v[i + 2] == '4') && v[i + 3] == ' ' {
            proof {
                assert(header_open_at(rest));
            }
            let d = v[i + 2];
            let ghost t1 = rest.skip(4);
            proof {
                assert(t1 =~= v@.skip(i + 4));
            }
            let mut a: usize = i + 4;
            while a < n && v[a] != '>'
                invariant
                    v@.len() == n,
                    i + 4 <= a <= n,
                    forall|q: int| i + 4 <= q < a ==> #[trigger] v@[q] != '>',
                decreases n - a,
            {
                a = a + 1;
            }
            proof {
                assert forall|q: int| 0 <= q < a - (i + 4) implies #[trigger] t1[q] != '>' by {
                    assert(t1[q] == v@[q + i + 4]);
                }
                if a < n {
                    assert(t1[a - (i + 4)] == v@[a as int]);
                }
                lemma_find_char_at(t1, '>', a - (i + 4));
            }
            if a < n {
                let ghost ae = a - (i + 4);
                let ghost rest1 = rest.skip(4 + ae + 1);
                proof {
                    assert(rest1 =~= v@.skip(a + 1));
                }
                let mut b: usize = a + 1;
                while b < n && v[b] != '<'
                    invariant
                        v@.len() == n,
                        a + 1 <= b <= n,
                        forall|q: int| a + 1 <= q < b ==> #[trigger] v@[q] != '<',
                    decreases n - b,
                {
                    b = b + 1;
                }
                proof {
                    assert forall|q: int| 0 <= q < b - (a + 1) implies #[trigger] rest1[q]
                        != '<' by {
                        assert(rest1[q] == v@[q + a + 1]);
                    }
                    if b < n {
                        assert(rest1[b - (a + 1)] == v@[b as int]);
                    }
                    lemma_find_char_at(rest1, '<', b - (a + 1));
                }
                if b < n {
                    let ghost te = b - (a + 1);
                    let ghost rest2 = rest1.skip(te);
                    proof {
                        assert(rest2 =~= v@.skip(b as int));
                    }
                    if n - b >= 5 && v[b] == '<' && v[b + 1] == '/' && v[b + 2] == 'h' && v[b + 3]
                        == d && v[b + 4] == '>' {
                        proof {
                            assert(rest2.take(5) =~= close_tag(d)) by {
                                assert(rest2.take(5)[0] == v@[b as int]);
                                assert(rest2.take(5)[1] == v@[b + 1]);
                                assert(rest2.take(5)[2] == v@[b + 2]);
                                assert(rest2.take(5)[3] == v@[b + 3]);
                                assert(rest2.take(5)[4] == v@[b + 4]);
                            }
                        }
                        // Copy out attributes and text, then emit the anchor.
                        let mut attrs_v: Vec<char> = Vec::new();
                        let mut t: usize = i + 4;
                        while t < a
                            invariant
                                v@.len() == n,
                                i + 4 <= t <= a <= n,
                                attrs_v@ == v@.subrange(i + 4, t as int),
                            decreases a - t,
                        {
                            attrs_v.push(v[t]);
                            proof {
                                assert(attrs_v@ =~= v@.subrange(i + 4, t + 1));
                            }
                            t = t + 1;
                        }
                        let mut text_v: Vec<char> = Vec::new();
                        let mut u: usize = a + 1;
                        while u < b
                            invariant
                                v@.len() == n,
                                a + 1 <= u <= b <= n,
                                text_v@ == v@.subrange(a + 1, u as int),
                            decreases b - u,
                        {
                            text_v.push(v[u]);
                            proof {
                                assert(text_v@ =~= v@.subrange(a + 1, u + 1));
                            }
                            u = u + 1;
                        }
                        let text_s = chars_to_string(&text_v);
                        let slug_s = crate::slug::correct_dash_case(text_s.as_str());
                        let slug_v = str_to_chars(slug_s.as_str());
                        out.push('<');
                        out.push('h');
                        out.push(d);
                        extend_chars(&mut out, &lit_id);
                        extend_chars(&mut out, &slug_v);
                        extend_chars(&mut out, &lit_mid);
                        extend_chars(&mut out, &attrs_v);
                        extend_chars(&mut out, &lit_open);
                        extend_chars(&mut out, &slug_v);
                        extend_chars(&mut out, &lit_gt);
                        extend_chars(&mut out, &text_v);
                        extend_chars(&mut out, &lit_close);
                        out.push(d);
                        out.push('>');
                        proof {
                            let attrs = t1.take(ae);
                            let text = rest1.take(te);
                            assert(attrs =~= v@.subrange(i + 4, a as int));
                            assert(text =~= v@.subrange(a + 1, b as int));
                            assert(header_rewrite(rest) == Some(
                                (rewritten_header(d, attrs, text), 4 + ae + 1 + te + 5),
                            ));
                            assert(out@ =~= prev + rewritten_header(d, attrs, text));
                            assert(rest.skip(4 + ae + 1 + te + 5) =~= v@.skip(b + 5));
                        }
                        i = b + 5;
                        advanced = true;
                    } else {
                        proof {
                            if rest2.len() >= 5 {
                                assert(n - b >= 5);
                                assert(rest2.take(5)[0] == v@[b as int]);
                                assert(rest2.take(5)[1] == v@[b + 1]);
                                assert(rest2.take(5)[2] == v@[b + 2]);
                                assert(rest2.take(5)[3] == v@[b + 3]);
                                assert(rest2.take(5)[4] == v@[b + 4]);
                                assert(rest2.take(5) != close_tag(d));
                            }
                            assert(header_rewrite(rest) is None);
                        }
                    }
                } else {
                    proof {
                        assert(find_char(rest1, '<') is None);
                        assert(header_rewrite(rest) is None);
                    }
                }
            } else {
                proof {
                    assert(find_char(t1, '>') is None);
                    assert(header_rewrite(rest) is None);
                }
            }
        }
        if !advanced {
            out.push(v[i]);
            proof {
                assert(prev + seq![v@[i as int]] =~= out@);
            }
            i = i + 1;
        }
    }
    proof {
        assert(v@.skip(n as int) =~= Seq::<char>::empty());
        assert(out@ + Seq::<char>::empty() =~= out@);
    }
    chars_to_string(&out)
}

} // verus!
