//! Finding markdown image links (`![alt](url)`) in text, and turning
//! markdown with fetched media into parts.

use super::types::{parts_view, InlineData, Part, PartView, TextPart};
use crate::framing::chars_of;
use crate::text::{copy_string, opt_view, push_char};
use vstd::prelude::*;

verus! {

/// The first position at or after `from` holding `c`, when no line break
/// comes before it.
pub open spec fn close_at(s: Seq<char>, from: int, c: char) -> Option<int>
    decreases s.len() - from,
{
    if from < 0 || from >= s.len() {
        None
    } else if s[from] == c {
        Some(from)
    } else if s[from] == '\n' {
        None
    } else {
        close_at(s, from + 1, c)
    }
}

/// The image link starting at `i`, as the positions of the `]` closing its
/// alt text and of the `)` closing its URL: `![`, alt text up to the first
/// `]`, then `(`, URL up to the first `)`, all on one line.
pub open spec fn link_at(s: Seq<char>, i: int) -> Option<(int, int)> {
    if 0 <= i && i + 1 < s.len() && s[i] == '!' && s[i + 1] == '[' {
        match close_at(s, i + 2, ']') {
            Some(j) => if j + 1 < s.len() && s[j + 1] == '(' {
                match close_at(s, j + 2, ')') {
                    Some(k) => Some((j, k)),
                    None => None,
                }
            } else {
                None
            },
            None => None,
        }
    } else {
        None
    }
}

/// The first position at or after `i` where an image link starts.
pub open spec fn first_link_from(s: Seq<char>, i: int) -> Option<int>
    decreases s.len() - i,
{
    if i < 0 || i >= s.len() {
        None
    } else if link_at(s, i) is Some {
        Some(i)
    } else {
        first_link_from(s, i + 1)
    }
}

/// An image link found in markdown; positions count characters.
pub struct ImageLink {
    /// Position of the `!`.
    pub start: usize,
    /// Position just after the closing `)`.
    pub end: usize,
    pub alt: String,
    pub url: String,
}

/// `l` is the image link of `s` that starts at `l.start`.
pub open spec fn link_matches(s: Seq<char>, l: ImageLink) -> bool {
    link_at(s, l.start as int) matches Some((j, k)) && {
        &&& l.end == k + 1
        &&& l.alt@ == s.subrange(l.start + 2, j)
        &&& l.url@ == s.subrange(j + 2, k)
    }
}

fn find_close(v: &Vec<char>, from: usize, c: char) -> (r: Option<usize>)
    requires
        from <= v@.len(),
    ensures
        match close_at(v@, from as int, c) {
            Some(k) => r == Some(k as usize),
            None => r is None,
        },
{
    let mut k = from;
    while k < v.len()
        invariant
            from <= k <= v@.len(),
            close_at(v@, from as int, c) == close_at(v@, k as int, c),
        decreases v@.len() - k,
    {
        if v[k] == c {
            return Some(k);
        }
        if v[k] == '\n' {
            return None;
        }
        k += 1;
    }
    None
}

fn link_at_exec(v: &Vec<char>, i: usize) -> (r: Option<(usize, usize)>)
    requires
        i <= v@.len(),
    ensures
        match link_at(v@, i as int) {
            Some((j, k)) => r == Some((j as usize, k as usize)) && i + 2 <= j && j + 2 <= k < v@.len(),
            None => r is None,
        },
{
    let n = v.len();
    if !(n - i >= 2 && v[i] == '!' && v[i + 1] == '[') {
        return None;
    }
    proof {
        lemma_close_at_range(v@, i + 2, ']');
    }
    match find_close(v, i + 2, ']') {
        Some(j) => {
            if !(n - j >= 2 && v[j + 1] == '(') {
                return None;
            }
            proof {
                lemma_close_at_range(v@, j + 2, ')');
            }
            match find_close(v, j + 2, ')') {
                Some(k) => Some((j, k)),
                None => None,
            }
        },
        None => None,
    }
}

proof fn lemma_close_at_range(s: Seq<char>, from: int, c: char)
    ensures
        close_at(s, from, c) matches Some(k) ==> from <= k < s.len(),
    decreases s.len() - from,
{
    if from < 0 || from >= s.len() {
    } else if s[from] == c {
    } else if s[from] == '\n' {
    } else {
        lemma_close_at_range(s, from + 1, c);
    }
}

fn collect_range(v: &Vec<char>, lo: usize, hi: usize) -> (r: String)
    requires
        lo <= hi <= v@.len(),
    ensures
        r@ == v@.subrange(lo as int, hi as int),
{
    let mut out = String::new();
    let mut i = lo;
    while i < hi
        invariant
            lo <= i <= hi,
            hi <= v@.len(),
            out@ == v@.subrange(lo as int, i as int),
        decreases hi - i,
    {
        push_char(&mut out, v[i]);
        assert(v@.subrange(lo as int, i + 1) =~= v@.subrange(lo as int, i as int).push(v@[i as int]));
        i += 1;
    }
    out
}

/// The first image link of `markdown` that starts at or after character
/// position `from`, with its alt text and URL.
pub fn find_image_link(markdown: &str, from: usize) -> (r: Option<ImageLink>)
    ensures
        match first_link_from(markdown@, from as int) {
            Some(i) => r is Some && r->Some_0.start == i && link_matches(markdown@, r->Some_0),
            None => r is None,
        },
{
    let v = chars_of(markdown);
    let n = v.len();
    let mut i = from;
    if i > n {
        return None;
    }
    while i < n
        invariant
            from <= i <= n,
            n == v@.len(),
            v@ == markdown@,
            first_link_from(markdown@, from as int) == first_link_from(markdown@, i as int),
        decreases n - i,
    {
        match link_at_exec(&v, i) {
            Some((j, k)) => {
                let alt = collect_range(&v, i + 2, j);
                let url = collect_range(&v, j + 2, k);
                return Some(ImageLink { start: i, end: k + 1, alt, url });
            },
            None => {},
        }
        i += 1;
    }
    None
}

/// Where the search for the link after the `t`-th one starts.
pub open spec fn search_from(links: Seq<ImageLink>, t: int) -> int {
    if t == 0 {
        0
    } else {
        links[t - 1].end as int
    }
}

/// Every image link of `markdown`, left to right: each is the first link
/// starting at or after the end of the one before, and none follows the
/// last.
pub fn image_links(markdown: &str) -> (r: Vec<ImageLink>)
    ensures
        forall|t: int| 0 <= t < r@.len() ==> first_link_from(markdown@, search_from(r@, t))
            == Some(#[trigger] r@[t].start as int) && link_matches(markdown@, r@[t]),
        first_link_from(markdown@, search_from(r@, r@.len() as int)) is None,
{
    let mut out: Vec<ImageLink> = Vec::new();
    let mut from: usize = 0;
    loop
        invariant
            forall|t: int| 0 <= t < out@.len() ==> first_link_from(markdown@, search_from(out@, t))
                == Some(#[trigger] out@[t].start as int) && link_matches(markdown@, out@[t]),
            from == search_from(out@, out@.len() as int),
            from <= markdown@.len(),
        ensures
            forall|t: int| 0 <= t < out@.len() ==> first_link_from(markdown@, search_from(out@, t))
                == Some(#[trigger] out@[t].start as int) && link_matches(markdown@, out@[t]),
            first_link_from(markdown@, search_from(out@, out@.len() as int)) is None,
        decreases markdown@.len() + 1 - from,
    {
        proof {
            lemma_first_link_found(markdown@, from as int);
        }
        match find_image_link(markdown, from) {
            Some(l) => {
                let ghost prev = out@;
                from = l.end;
                out.push(l);
                proof {
                    assert forall|t: int| 0 <= t < out@.len() implies first_link_from(markdown@, search_from(out@, t))
                        == Some(#[trigger] out@[t].start as int) && link_matches(markdown@, out@[t]) by {
                        if t < prev.len() {
                            assert(out@[t] == prev[t]);
                            assert(search_from(out@, t) == search_from(prev, t));
                        }
                    }
                }
            },
            None => {
                break;
            },
        }
    }
    out
}

proof fn lemma_first_link_found(s: Seq<char>, i: int)
    ensures
        first_link_from(s, i) matches Some(p) ==> i <= p && link_at(s, p) is Some && p + 4 < s.len() + 1
            && link_at(s, p)->Some_0.1 < s.len() && p < link_at(s, p)->Some_0.1,
    decreases s.len() - i,
{
    if i < 0 || i >= s.len() {
    } else if link_at(s, i) is Some {
        lemma_close_at_range(s, i + 2, ']');
        let j = close_at(s, i + 2, ']')->Some_0;
        lemma_close_at_range(s, j + 2, ')');
    } else {
        lemma_first_link_found(s, i + 1);
    }
}

/// A media reference found in markdown, with what fetching it gave.
/// Positions count characters; `mime_type` and `base64` are `None` when the
/// media could not be fetched.
pub struct MatchedFiles {
    pub index: usize,
    pub length: usize,
    pub mime_type: Option<String>,
    pub base64: Option<String>,
}

/// Whether a match can be embedded after position `cut`: it was fetched,
/// and it ends within the text, no earlier than `cut`.
pub open spec fn usable(m: MatchedFiles, cut: int, len: int) -> bool {
    &&& m.mime_type is Some
    &&& m.base64 is Some
    &&& cut <= m.index + m.length <= len
}

/// The parts for `s` from position `cut` on, given the remaining matches:
/// for each usable match, the text up to the end of its markdown, then its
/// data; last, any text left.
pub open spec fn markdown_parts(s: Seq<char>, ms: Seq<MatchedFiles>, cut: int) -> Seq<PartView>
    decreases ms.len(),
{
    if ms.len() == 0 {
        if cut < s.len() {
            seq![PartView::Text { text: s.subrange(cut, s.len() as int), thought: false }]
        } else {
            Seq::empty()
        }
    } else {
        let m = ms[0];
        if usable(m, cut, s.len() as int) {
            let end = m.index + m.length;
            seq![
                PartView::Text { text: s.subrange(cut, end), thought: false },
                PartView::InlineData {
                    mime_type: opt_view(m.mime_type)->Some_0,
                    data: opt_view(m.base64)->Some_0,
                },
            ] + markdown_parts(s, ms.drop_first(), end)
        } else {
            markdown_parts(s, ms.drop_first(), cut)
        }
    }
}

/// Markdown with the media it references, fetched.
pub struct MarkdownToParts {
    markdown: String,
    base64s: Vec<MatchedFiles>,
}

impl MarkdownToParts {
    pub closed spec fn markdown(&self) -> Seq<char> {
        self.markdown@
    }

    pub closed spec fn matches(&self) -> Seq<MatchedFiles> {
        self.base64s@
    }

    /// Pairs markdown with its matches, in order of position.
    pub fn from_matches(markdown: String, base64s: Vec<MatchedFiles>) -> (r: MarkdownToParts)
        ensures
            r.markdown() == markdown@,
            r.matches() == base64s@,
    {
        MarkdownToParts { markdown, base64s }
    }

    /// Splits the markdown into text parts, each ending with the markdown of
    /// an embedded media, followed by that media's data; the text after the
    /// last one, if any, ends the list. Matches that were not fetched, or
    /// that do not lie after the previous one within the text, are left as
    /// text.
    pub fn process(self) -> (r: Vec<Part>)
        ensures
            parts_view(r@) == markdown_parts(self.markdown(), self.matches(), 0),
    {
        let v = chars_of(self.markdown.as_str());
        let n = v.len();
        let ms = &self.base64s;
        let mut parts: Vec<Part> = Vec::new();
        let mut cut: usize = 0;
        let mut i: usize = 0;
        assert(ms@.skip(0) =~= ms@);
        assert(parts_view(parts@) =~= Seq::<PartView>::empty());
        assert(Seq::<PartView>::empty() + markdown_parts(v@, ms@, 0) =~= markdown_parts(v@, ms@, 0));
        while i < ms.len()
            invariant
                v@ == self.markdown@,
                n == v@.len(),
                cut <= n,
                i <= ms@.len(),
                *ms == self.base64s,
                parts_view(parts@) + markdown_parts(v@, ms@.skip(i as int), cut as int)
                    == markdown_parts(v@, ms@, 0),
            decreases ms@.len() - i,
        {
            let m = &ms[i];
            let ghost rest = ms@.skip(i as int);
            assert(rest.drop_first() =~= ms@.skip(i + 1));
            assert(rest[0] == ms@[i as int]);
            let ok = match (&m.mime_type, &m.base64) {
                (Some(_), Some(_)) => m.index <= n && m.length <= n - m.index && cut <= m.index + m.length,
                _ => false,
            };
            if ok {
                let end = m.index + m.length;
                let (mime, data) = match (&m.mime_type, &m.base64) {
                    (Some(a), Some(b)) => (copy_string(a), copy_string(b)),
                    _ => (String::new(), String::new()),
                };
                let ghost before = parts_view(parts@);
                parts.push(Part::text(TextPart::new(collect_range(&v, cut, end), false)));
                parts.push(Part::inline_data(InlineData::new(mime, data)));
                proof {
                    let two = seq![
                        PartView::Text { text: v@.subrange(cut as int, end as int), thought: false },
                        PartView::InlineData {
                            mime_type: opt_view(m.mime_type)->Some_0,
                            data: opt_view(m.base64)->Some_0,
                        },
                    ];
                    assert(parts_view(parts@) =~= before + two);
                    assert(before + (two + markdown_parts(v@, ms@.skip(i + 1), end as int))
                        =~= parts_view(parts@) + markdown_parts(v@, ms@.skip(i + 1), end as int));
                }
                cut = end;
            }
            i += 1;
        }
        let ghost before = parts_view(parts@);
        assert(ms@.skip(i as int) =~= Seq::<MatchedFiles>::empty());
        if cut < n {
            parts.push(Part::text(TextPart::new(collect_range(&v, cut, n), false)));
            assert(parts_view(parts@) =~= before + markdown_parts(v@, ms@.skip(i as int), cut as int));
        } else {
            assert(parts_view(parts@) =~= before + markdown_parts(v@, ms@.skip(i as int), cut as int));
        }
        parts
    }
}

} // verus!
