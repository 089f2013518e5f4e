//! The episode listing of the xmtv opera programme: reading it from the search
//! API's JSON answer into `VideoUrl`s.

use vstd::prelude::*;
use crate::text::{
    char_at_byte, char_index_at_byte, chars_of, find_char, find_chars, first_index, first_piece,
    lemma_first_index_bounds, lemma_first_piece, lemma_replace_char, lemma_without_char,
    nth_piece, occurs_at, parse_u32, parse_u32_spec, remove_char, replace_char,
    replace_chars, slice_chars, string_of, take_first_piece, take_nth_piece, utf8_width,
    without_char,
};
use crate::json;

verus! {

broadcast use vstd::string::group_string_axioms;

/// One episode: the drama's title, the episode's full name, its share page and
/// its broadcast date as a number (such as `20240105`).
#[derive(Debug, Clone)]
pub struct VideoUrl {
    pub title: String,
    pub name: String,
    pub url: String,
    pub time: u32,
}

/// What a `VideoUrl` holds, as character sequences.
pub struct VideoUrlView {
    pub title: Seq<char>,
    pub name: Seq<char>,
    pub url: Seq<char>,
    pub time: u32,
}

impl View for VideoUrl {
    type V = VideoUrlView;

    open spec fn view(&self) -> VideoUrlView {
        VideoUrlView { title: self.title@, name: self.name@, url: self.url@, time: self.time }
    }
}

/// The views of a sequence of episodes.
pub open spec fn url_views(s: Seq<VideoUrl>) -> Seq<VideoUrlView> {
    s.map_values(|u: VideoUrl| u@)
}

impl VideoUrl {
    /// A copy of this episode.
    pub fn duplicate(&self) -> (r: VideoUrl)
        ensures
            r@ == self@,
    {
        VideoUrl {
            title: self.title.clone(),
            name: self.name.clone(),
            url: self.url.clone(),
            time: self.time,
        }
    }

    /// Whether the two episodes hold the same fields.
    pub fn same_as(&self, other: &VideoUrl) -> (b: bool)
        ensures
            b == (self@ == other@),
    {
        self.title == other.title && self.name == other.name && self.url == other.url
            && self.time == other.time
    }
}

/// One element of the listing's `data` array: its `title` member written as
/// JSON text, and its `content_urls.share` member where that is a string.
pub struct ListingItem {
    pub title: String,
    pub share: Option<String>,
}

/// What a `ListingItem` holds, as character sequences.
pub struct ListingItemView {
    pub title: Seq<char>,
    pub share: Option<Seq<char>>,
}

impl View for ListingItem {
    type V = ListingItemView;

    open spec fn view(&self) -> ListingItemView {
        ListingItemView {
            title: self.title@,
            share: match self.share {
                Some(s) => Some(s@),
                None => None,
            },
        }
    }
}

/// Why a listing could not be read.
#[derive(Debug, Clone, Copy, PartialEq, Eq, Structural)]
pub enum ListingError {
    /// The answer is not JSON.
    Json,
    /// The answer's `data` member is not an array.
    NotAList,
    /// An episode number is not a decimal `u32`.
    EpisodeNumber,
    /// An entry's name or share address is too short for the positions the
    /// reader takes from it.
    Malformed,
}

/// The programme's name, which every episode name carries.
pub open spec fn marker() -> Seq<char> {
    seq!['斗', '阵', '来', '看', '戏']
}

/// The length of `marker()` in UTF-8 bytes.
pub open spec fn marker_bytes() -> nat {
    15
}

/// The drama's title in an episode name: what comes before the marker, up to
/// the first parenthesis (ASCII or full-width), without spaces.
pub open spec fn title_of(name: Seq<char>) -> Seq<char> {
    let part = match first_index(name, marker()) {
        Some(p) => name.take(p),
        None => name,
    };
    without_char(first_piece(replace_char(part, '（', '('), '('), ' ')
}

/// `s` without dots and dashes.
pub open spec fn strip_separators(s: Seq<char>) -> Seq<char> {
    without_char(without_char(s, '.'), '-')
}

/// How the episode number is found for an entry whose name is `name` and share
/// address `url`.
pub enum EpisodeText {
    /// Found, as this text.
    Text(Seq<char>),
    /// There is none: the entry is left out.
    Absent,
    /// The reader fails on the entry.
    Broken,
}

/// The episode text: the second space-separated word after the marker (or
/// after the first `marker_bytes()` bytes where the name has no marker);
/// failing that, the fifth `/`-separated piece of a share address that holds a
/// dash; without dots and dashes.
pub open spec fn episode_text(name: Seq<char>, url: Seq<char>) -> EpisodeText {
    let start = match first_index(name, marker()) {
        Some(p) => Some(p + marker().len()),
        None => char_index_at_byte(name, marker_bytes()),
    };
    match start {
        None => EpisodeText::Broken,
        Some(st) => match nth_piece(name.skip(st), ' ', 1) {
            Some(word) => EpisodeText::Text(strip_separators(word)),
            None => if first_index(url, seq!['-']) is Some {
                match nth_piece(url, '/', 4) {
                    Some(piece) => EpisodeText::Text(strip_separators(piece)),
                    None => EpisodeText::Broken,
                }
            } else {
                EpisodeText::Absent
            },
        },
    }
}

/// What reading one listing entry gives: `Ok(None)` where the entry is left
/// out (no share address, or no episode number to be found).
pub open spec fn entry_spec(raw_title: Seq<char>, share: Option<Seq<char>>) -> Result<
    Option<VideoUrlView>,
    ListingError,
> {
    let name = without_char(raw_title, '"');
    match share {
        None => Ok(None),
        Some(url) => match episode_text(name, url) {
            EpisodeText::Broken => Err(ListingError::Malformed),
            EpisodeText::Absent => Ok(None),
            EpisodeText::Text(t) => match parse_u32_spec(t) {
                None => Err(ListingError::EpisodeNumber),
                Some(n) => Ok(Some(VideoUrlView { title: title_of(name), name, url, time: n })),
            },
        },
    }
}

fn marker_chars() -> (m: Vec<char>)
    ensures
        m@ == marker(),
{
    let m: Vec<char> = vec!['斗', '阵', '来', '看', '戏'];
    assert(m@ =~= marker());
    m
}

fn copy_chars(s: &Vec<char>) -> (r: Vec<char>)
    ensures
        r@ == s@,
{
    let r = slice_chars(s, 0, s.len());
    assert(r@ =~= s@);
    r
}

/// Reads one listing entry: `raw_title` is the entry's title written as JSON,
/// `share` its share address.
pub fn parse_entry(raw_title: &str, share: Option<&str>) -> (res: Result<Option<VideoUrl>, ListingError>)
    ensures
        match (res, entry_spec(raw_title@, match share { Some(s) => Some(s@), None => None })) {
            (Ok(Some(v)), Ok(Some(w))) => v@ == w,
            (Ok(None), Ok(None)) => true,
            (Err(e), Err(f)) => e == f,
            _ => false,
        },
{
    let raw = chars_of(raw_title);
    let name = remove_char(&raw, '"');
    let key = marker_chars();
    let found = find_chars(&name, &key);
    proof { lemma_first_index_bounds(name@, marker()); }
    let url = match share {
        None => {
            return Ok(None);
        },
        Some(u) => u,
    };
    let start: usize = match found {
        Some(p) => {
            assert(occurs_at(name@, marker(), p as int));
            assert(p + key.len() <= name.len());
            p + key.len()
        },
        None => match char_at_byte(&name, 15) {
            Some(k) => k,
            None => {
                return Err(ListingError::Malformed);
            },
        },
    };
    proof {
        if found is None {
            lemma_char_index_bound(name@, marker_bytes());
        }
    }
    let t = slice_chars(&name, start, name.len());
    assert(t@ =~= name@.skip(start as int));
    let url_chars = chars_of(url);
    let episode: Vec<char> = match take_nth_piece(&t, ' ', 1) {
        Some(word) => remove_char(&remove_char(&word, '.'), '-'),
        None => {
            match find_char(&url_chars, '-') {
                None => {
                    return Ok(None);
                },
                Some(_) => match take_nth_piece(&url_chars, '/', 4) {
                    Some(piece) => remove_char(&remove_char(&piece, '.'), '-'),
                    None => {
                        return Err(ListingError::Malformed);
                    },
                },
            }
        },
    };
    let time = match parse_u32(&episode) {
        None => {
            return Err(ListingError::EpisodeNumber);
        },
        Some(n) => n,
    };
    let part = match found {
        Some(p) => slice_chars(&name, 0, p),
        None => copy_chars(&name),
    };
    assert(part@ == (match first_index(name@, marker()) {
        Some(p) => name@.take(p),
        None => name@,
    }));
    let title = remove_char(&take_first_piece(&replace_chars(&part, '（', '('), '('), ' ');
    Ok(Some(VideoUrl {
        title: string_of(title.as_slice()),
        name: string_of(name.as_slice()),
        url: string_of(url_chars.as_slice()),
        time,
    }))
}

/// What reading a whole listing gives: the entries taken from the last item to
/// the first (the API lists the newest first), those left out dropped, and the
/// first failure met on that walk if there is one.
pub open spec fn collect_spec(items: Seq<ListingItemView>) -> Result<Seq<VideoUrlView>, ListingError>
    decreases items.len(),
{
    if items.len() == 0 {
        Ok(Seq::empty())
    } else {
        match entry_spec(items.last().title, items.last().share) {
            Err(e) => Err(e),
            Ok(found) => match collect_spec(items.drop_last()) {
                Err(e) => Err(e),
                Ok(rest) => Ok(
                    match found {
                        Some(v) => seq![v] + rest,
                        None => rest,
                    },
                ),
            },
        }
    }
}

/// The views of a sequence of listing items.
pub open spec fn item_views(s: Seq<ListingItem>) -> Seq<ListingItemView> {
    s.map_values(|i: ListingItem| i@)
}

/// Reads the entries of a listing, given as its items in the API's order.
pub fn collect_entries(items: &Vec<ListingItem>) -> (res: Result<Vec<VideoUrl>, ListingError>)
    ensures
        match (res, collect_spec(item_views(items@))) {
            (Ok(v), Ok(w)) => url_views(v@) == w,
            (Err(e), Err(f)) => e == f,
            _ => false,
        },
{
    let ghost all = item_views(items@);
    let mut out: Vec<VideoUrl> = Vec::new();
    let mut k: usize = items.len();
    assert(all.take(k as int) =~= all);
    while k > 0
        invariant
            k <= items@.len(),
            all == item_views(items@),
            collect_spec(all) == (match collect_spec(all.take(k as int)) {
                Ok(r) => Ok(url_views(out@) + r),
                Err(e) => Err(e),
            }),
        decreases k,
    {
        k = k - 1;
        let item = &items[k];
        let share: Option<&str> = match &item.share {
            Some(s) => Some(s.as_str()),
            None => None,
        };
        let ghost prefix = all.take(k + 1);
        assert(prefix.drop_last() =~= all.take(k as int));
        assert(prefix.last() == item@);
        let entry = parse_entry(item.title.as_str(), share);
        match entry {
            Err(e) => {
                return Err(e);
            },
            Ok(None) => {},
            Ok(Some(v)) => {
                let ghost before = url_views(out@);
                out.push(v);
                assert(url_views(out@) =~= before.push(v@));
                assert forall|r: Seq<VideoUrlView>| #![auto] before + (seq![v@] + r) =~= url_views(out@) + r by {}
            },
        }
    }
    assert(url_views(out@) + Seq::empty() =~= url_views(out@));
    Ok(out)
}

/// What reading the listing `answer` gives: `Json` where it is not a JSON
/// document, `NotAList` where its `data` member is not an array, and otherwise
/// what reading its items gives (`collect_spec`).
pub open spec fn get_spec(answer: Seq<char>) -> Result<Seq<VideoUrlView>, ListingError> {
    match json::listing_of(answer) {
        None => Err(ListingError::Json),
        Some(None) => Err(ListingError::NotAList),
        Some(Some(items)) => collect_spec(items),
    }
}

/// Reads the episode listing from the search API's answer: the `data` array of
/// the JSON document, each element's `title` (as JSON text) and
/// `content_urls.share`, read as `collect_entries` does.
pub fn get(answer: &str) -> (res: Result<Vec<VideoUrl>, ListingError>)
    ensures
        match (res, get_spec(answer@)) {
            (Ok(v), Ok(w)) => url_views(v@) == w,
            (Err(e), Err(f)) => e == f,
            _ => false,
        },
{
    match json::listing_items(answer) {
        None => Err(ListingError::Json),
        Some(None) => Err(ListingError::NotAList),
        Some(Some(items)) => collect_entries(&items),
    }
}

/// An entry read from a listing has a title without spaces or parentheses
/// (ASCII or full-width), a name without double quotes, the share address as
/// its address, and its episode number read from text without dots or dashes.
pub proof fn law_entry(raw_title: Seq<char>, share: Option<Seq<char>>)
    ensures
        entry_spec(raw_title, share) matches Ok(Some(v)) ==> {
            &&& !v.title.contains(' ')
            &&& !v.title.contains('(')
            &&& !v.title.contains('（')
            &&& !v.name.contains('"')
            &&& share == Some(v.url)
        },
        share is None ==> entry_spec(raw_title, share) == Ok::<Option<VideoUrlView>, ListingError>(
            None,
        ),
{
    let name = without_char(raw_title, '"');
    lemma_without_char(raw_title, '"');
    lemma_first_index_bounds(name, marker());
    let part = match first_index(name, marker()) {
        Some(p) => name.take(p),
        None => name,
    };
    assert forall|x: char| #[trigger] part.contains(x) implies name.contains(x) by {
        let j = choose|j: int| 0 <= j < part.len() && part[j] == x;
        assert(name[j] == x);
    }
    let replaced = replace_char(part, '（', '(');
    lemma_replace_char(part, '（', '(');
    let piece = first_piece(replaced, '(');
    lemma_first_piece(replaced, '(');
    lemma_without_char(piece, ' ');
    assert(title_of(name) == without_char(piece, ' '));
    if title_of(name).contains('（') {
        assert(piece.contains('（'));
        assert(replaced.contains('（'));
    }
}

/// Where the name has a second space-separated word after the programme's
/// name (or, without it, after its first fifteen bytes), the episode number is
/// read from that word, without dots and dashes, whatever the share address
/// holds; a word that is no decimal `u32` fails the entry.
pub proof fn law_episode_from_name(
    raw_title: Seq<char>,
    url: Seq<char>,
    start: int,
    word: Seq<char>,
)
    requires
        (first_index(without_char(raw_title, '"'), seq!['斗', '阵', '来', '看', '戏']) matches Some(p)
            && start == p + 5) || (first_index(
            without_char(raw_title, '"'),
            seq!['斗', '阵', '来', '看', '戏'],
        ) is None && char_index_at_byte(without_char(raw_title, '"'), 15) == Some(start)),
        nth_piece(without_char(raw_title, '"').skip(start), ' ', 1) == Some(word),
    ensures
        match parse_u32_spec(without_char(without_char(word, '.'), '-')) {
            None => entry_spec(raw_title, Some(url)) == Err::<Option<VideoUrlView>, ListingError>(
                ListingError::EpisodeNumber,
            ),
            Some(n) => entry_spec(raw_title, Some(url)) matches Ok(Some(v)) && v.time == n
                && v.url == url && v.name == without_char(raw_title, '"'),
        },
{
    assert(marker() =~= seq!['斗', '阵', '来', '看', '戏']);
}

/// Where every item gives an entry, the listing holds them all, the last
/// item's first: reading reverses the API's newest-first order.
pub proof fn law_collect_reverses(items: Seq<ListingItemView>, entries: Seq<VideoUrlView>)
    requires
        entries.len() == items.len(),
        forall|i: int|
            0 <= i < items.len() ==> entry_spec(#[trigger] items[i].title, items[i].share) == Ok::<
                Option<VideoUrlView>,
                ListingError,
            >(Some(entries[i])),
    ensures
        collect_spec(items) == Ok::<Seq<VideoUrlView>, ListingError>(entries.reverse()),
    decreases items.len(),
{
    if items.len() > 0 {
        let d = items.drop_last();
        let e = entries.drop_last();
        assert forall|i: int|
            0 <= i < d.len() implies entry_spec(#[trigger] d[i].title, d[i].share) == Ok::<
                Option<VideoUrlView>,
                ListingError,
            >(Some(e[i])) by {
            assert(d[i] == items[i]);
        }
        law_collect_reverses(d, e);
        assert(entry_spec(items.last().title, items.last().share) == Ok::<
            Option<VideoUrlView>,
            ListingError,
        >(Some(entries.last())));
        assert(seq![entries.last()] + e.reverse() =~= entries.reverse());
    }
}

/// A position that `char_index_at_byte` reports lies within `s`.
pub proof fn lemma_char_index_bound(s: Seq<char>, b: nat)
    ensures
        char_index_at_byte(s, b) matches Some(k) ==> 0 <= k <= s.len(),
    decreases s.len(),
{
    if b != 0 && s.len() != 0 && utf8_width(s[0]) <= b {
        lemma_char_index_bound(s.drop_first(), (b - utf8_width(s[0])) as nat);
    }
}

} // verus!
