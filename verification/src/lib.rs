//! Verified core of a static blog generator: slug derivation, redirect
//! reconciliation, image rehosting paths, and preview text layout.
pub mod date;
pub mod html;
pub mod images;
pub mod layout;
pub mod reactions;
pub mod redirect;
pub mod slug;
pub mod text;
pub mod timeline;

use vstd::prelude::*;

verus! {

/// Width of the preview canvas, in pixels.
pub const WIDTH: u32 = 1200;

/// Height of the preview canvas, in pixels.
pub const HEIGHT: u32 = 630;

/// The data of one article's preview card.
pub struct Preview {
    pub username: String,
    pub publish_date: String,
    pub title: String,
    pub comment_count: u32,
}

/// The typed text payload of a preview card, ready for a scene composer:
/// the title cut into display lines and the pluralized comment phrase.
pub struct PreviewLayout {
    pub username: String,
    pub publish_date: String,
    pub title_spans: layout::Spans,
    pub comments_text: String,
}

/// ASCII-case-insensitive equality of two names.
pub open spec fn ascii_eq_ignore_case(a: Seq<char>, b: Seq<char>) -> bool {
    a.len() == b.len() && (forall|i: int|
        0 <= i < a.len() ==> slug::lower_char(#[trigger] a[i]) == slug::lower_char(b[i]))
}

/// The listing's guest author: the record's author, unless it is the
/// blog's owner (compared ASCII-case-insensitively).
pub fn guest_user(login: String, owner: &str) -> (r: Option<String>)
    ensures
        ascii_eq_ignore_case(login@, owner@) ==> r is None,
        !ascii_eq_ignore_case(login@, owner@) ==> (r matches Some(l) && l == login),
{
    let a = text::str_to_chars(login.as_str());
    let b = text::str_to_chars(owner);
    if a.len() != b.len() {
        return Some(login);
    }
    let mut i: usize = 0;
    while i < a.len()
        invariant
            0 <= i <= a.len(),
            a@.len() == b@.len(),
            a@ == login@,
            b@ == owner@,
            forall|j: int| 0 <= j < i ==> slug::lower_char(#[trigger] a@[j]) == slug::lower_char(
                b@[j],
            ),
        decreases a.len() - i,
    {
        let ca = a[i];
        let cb = b[i];
        let la = if 'A' <= ca && ca <= 'Z' {
            ((ca as u8) + 32) as char
        } else {
            ca
        };
        let lb = if 'A' <= cb && cb <= 'Z' {
            ((cb as u8) + 32) as char
        } else {
            cb
        };
        proof {
            assert(la == slug::lower_char(a@[i as int]));
            assert(lb == slug::lower_char(b@[i as int]));
        }
        if la != lb {
            return Some(login);
        }
        i = i + 1;
    }
    None
}

impl Preview {
    /// Computes the preview card's text layout. Composing and rasterizing
    /// the fixed-size scene from it is the caller's concern.
    pub fn layout(self) -> (r: PreviewLayout)
        requires
            self.title@.len() > 0,
        ensures
            r.username == self.username,
            r.publish_date == self.publish_date,
            layout::spans_match(r.title_spans, layout::title_parts(self.title@)),
            r.comments_text@ == layout::comment_phrase(self.comment_count as nat),
    {
        let Preview { username, publish_date, title, comment_count } = self;
        let comments_text = layout::comments_text(comment_count);
        let title_spans = layout::cut_title(title.as_str());
        PreviewLayout { username, publish_date, title_spans, comments_text }
    }
}

} // verus!
