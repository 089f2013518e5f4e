//! Choosing a drama at random and finding each episode's stream address on its
//! share page.

use vstd::prelude::*;
use crate::text::{
    chars_of, find_char, find_chars, first_index, lemma_first_index_at, lemma_first_index_bounds, lemma_first_piece,
    occurs_at,
    slice_chars, string_of, utf8_width,
};
use crate::grouping::Video;
use rand::Rng;

verus! {

broadcast use vstd::string::group_string_axioms;

/// An episode ready to be played: its name and its stream address.
#[derive(Debug)]
pub struct Videoplay {
    name: String,
    pub url: String,
}

/// What a `Videoplay` holds.
pub struct VideoplayView {
    pub name: Seq<char>,
    pub url: Seq<char>,
}

impl View for Videoplay {
    type V = VideoplayView;

    closed spec fn view(&self) -> VideoplayView {
        VideoplayView { name: self.name@, url: self.url@ }
    }
}

impl Videoplay {
    /// An episode named `name` streamed from `url`.
    pub fn new(name: String, url: String) -> (v: Videoplay)
        ensures
            v@ == (VideoplayView { name: name@, url: url@ }),
    {
        Videoplay { name, url }
    }

    /// The episode's name.
    pub fn name(&self) -> (n: &str)
        ensures
            n@ == self@.name,
    {
        self.name.as_str()
    }

    /// The stream address.
    pub fn url(&self) -> (u: &str)
        ensures
            u@ == self@.url,
    {
        self.url.as_str()
    }
}

/// The tag that introduces the stream address on a share page.
pub open spec fn source_tag() -> Seq<char> {
    seq!['<', 's', 'o', 'u', 'r', 'c', 'e', ' ', 's', 'r', 'c', '=']
}

/// The stream address on a share page: after the first `<source src=` and the
/// one (single-byte) character that follows it, everything up to the next `"`.
/// `None` where there is no such tag, no character after it, a multi-byte one,
/// or no closing `"` (the places where the share page reader aborts).
pub open spec fn video_source(page: Seq<char>) -> Option<Seq<char>> {
    match first_index(page, source_tag()) {
        None => None,
        Some(p) => {
            let after = p + source_tag().len();
            if after >= page.len() || utf8_width(page[after]) != 1 {
                None
            } else {
                let rest = page.skip(after + 1);
                match first_index(rest, seq!['"']) {
                    Some(q) => Some(rest.take(q)),
                    None => None,
                }
            }
        },
    }
}

/// Finds the stream address on a share page (see `video_source`).
pub fn extract_video_url(page: &str) -> (r: Option<String>)
    ensures
        match r {
            Some(u) => video_source(page@) == Some(u@),
            None => video_source(page@) is None,
        },
{
    let text = chars_of(page);
    let tag: Vec<char> = vec!['<', 's', 'o', 'u', 'r', 'c', 'e', ' ', 's', 'r', 'c', '='];
    assert(tag@ =~= source_tag());
    let p = match find_chars(&text, &tag) {
        Some(p) => p,
        None => {
            return None;
        },
    };
    proof { lemma_first_index_bounds(text@, source_tag()); }
    assert(occurs_at(text@, source_tag(), p as int));
    assert(p + tag.len() <= text.len());
    let after = p + tag.len();
    if after >= text.len() {
        return None;
    }
    let code = text[after] as u32;
    if code >= 0x80 {
        return None;
    }
    let rest = slice_chars(&text, after + 1, text.len());
    assert(rest@ =~= text@.skip(after + 1));
    match find_char(&rest, '"') {
        Some(q) => {
            proof { lemma_first_index_bounds(rest@, seq!['"']); }
            assert(occurs_at(rest@, seq!['"'], q as int));
            let url = slice_chars(&rest, 0, q);
            assert(url@ =~= rest@.take(q as int));
            Some(string_of(url.as_slice()))
        },
        None => None,
    }
}

/// A stream address found on a page never holds a double quote.
pub proof fn law_video_source(page: Seq<char>)
    ensures
        video_source(page) matches Some(u) ==> !u.contains('"'),
{
    lemma_first_index_bounds(page, source_tag());
    if let Some(p) = first_index(page, source_tag()) {
        let after = p + source_tag().len();
        if !(after >= page.len() || utf8_width(page[after]) != 1) {
            let rest = page.skip(after + 1);
            lemma_first_piece(rest, '"');
        }
    }
}

/// On a page `p`, then the first `<source src=`, then one single-byte
/// character, then an address `u` without double quotes, then `"` and anything
/// `r`, the stream address found is exactly `u`: every character up to the
/// closing quote is kept.
pub proof fn law_video_source_whole(p: Seq<char>, c: char, u: Seq<char>, r: Seq<char>)
    requires
        (c as u32) < 0x80,
        !u.contains('"'),
        forall|j: int|
            0 <= j < p.len() ==> !occurs_at(
                p + seq!['<', 's', 'o', 'u', 'r', 'c', 'e', ' ', 's', 'r', 'c', '='] + seq![c] + u
                    + seq!['"'] + r,
                seq!['<', 's', 'o', 'u', 'r', 'c', 'e', ' ', 's', 'r', 'c', '='],
                j,
            ),
    ensures
        video_source(
            p + seq!['<', 's', 'o', 'u', 'r', 'c', 'e', ' ', 's', 'r', 'c', '='] + seq![c] + u
                + seq!['"'] + r,
        ) == Some(u),
{
    let tag = seq!['<', 's', 'o', 'u', 'r', 'c', 'e', ' ', 's', 'r', 'c', '='];
    let page = p + tag + seq![c] + u + seq!['"'] + r;
    assert(tag =~= source_tag());
    assert(page.subrange(p.len() as int, (p.len() + tag.len()) as int) =~= tag);
    lemma_first_index_at(page, tag, p.len() as int);
    let after: int = (p.len() + tag.len()) as int;
    assert(page[after] == c);
    let rest = page.skip(after + 1);
    assert(rest =~= u + seq!['"'] + r);
    assert(rest.subrange(u.len() as int, u.len() + 1 as int) =~= seq!['"']);
    assert forall|j: int| 0 <= j < u.len() implies !occurs_at(rest, seq!['"'], j) by {
        if occurs_at(rest, seq!['"'], j) {
            assert(rest.subrange(j, j + 1)[0] == '"');
            assert(u[j] == '"');
            assert(u.contains('"'));
        }
    }
    lemma_first_index_at(rest, seq!['"'], u.len() as int);
    assert(rest.take(u.len() as int) =~= u);
}

/// `rand::thread_rng().gen_range(0..n)`: a random number below `n` (it panics
/// on an empty range, hence `n > 0`). Only the bound is stated.
#[verifier::external_body]
fn random_below(n: usize) -> (r: usize)
    requires
        n > 0,
    ensures
        r < n,
{
    rand::thread_rng().gen_range(0..n)
}

/// Picks one of the dramas at random: the index of the one to play.
pub fn random_drama(videos: &Vec<Video>) -> (i: usize)
    requires
        videos@.len() > 0,
    ensures
        i < videos@.len(),
{
    random_below(videos.len())
}

} // verus!
