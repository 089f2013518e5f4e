//! Character-level text operations, stated over `Seq<char>`.

use vstd::prelude::*;

verus! {

broadcast use vstd::string::group_string_axioms;

/// `pat` occurs in `s` starting at position `i`.
pub open spec fn occurs_at(s: Seq<char>, pat: Seq<char>, i: int) -> bool {
    0 <= i && i + pat.len() <= s.len() && s.subrange(i, i + pat.len()) == pat
}

/// The first position at or after `k` where `pat` occurs in `s`.
pub open spec fn first_index_from(s: Seq<char>, pat: Seq<char>, k: int) -> Option<int>
    decreases s.len() + 1 - k,
{
    if k < 0 || k + pat.len() > s.len() {
        None
    } else if occurs_at(s, pat, k) {
        Some(k)
    } else {
        first_index_from(s, pat, k + 1)
    }
}

/// The first position where `pat` occurs in `s`, as `str::find` reports it.
pub open spec fn first_index(s: Seq<char>, pat: Seq<char>) -> Option<int> {
    first_index_from(s, pat, 0)
}

/// The characters of `s` other than `c`, in order (`str::replace(c, "")`).
pub open spec fn without_char(s: Seq<char>, c: char) -> Seq<char>
    decreases s.len(),
{
    if s.len() == 0 {
        s
    } else {
        let rest = without_char(s.drop_last(), c);
        if s.last() != c {
            rest.push(s.last())
        } else {
            rest
        }
    }
}

/// `s` with every `from` replaced by `to`.
pub open spec fn replace_char(s: Seq<char>, from: char, to: char) -> Seq<char> {
    s.map_values(|x: char| if x == from { to } else { x })
}

/// The first piece of `s` split at `sep` (everything before the first `sep`).
pub open spec fn first_piece(s: Seq<char>, sep: char) -> Seq<char> {
    match first_index(s, seq![sep]) {
        Some(i) => s.take(i),
        None => s,
    }
}

/// The piece number `n` (from 0) of `s` split at `sep`, if there are that many.
pub open spec fn nth_piece(s: Seq<char>, sep: char, n: nat) -> Option<Seq<char>>
    decreases n,
{
    if n == 0 {
        Some(first_piece(s, sep))
    } else {
        match first_index(s, seq![sep]) {
            Some(i) => nth_piece(s.skip(i + 1), sep, (n - 1) as nat),
            None => None,
        }
    }
}

/// The last piece of `s` split at `sep` (everything after the last `sep`).
pub open spec fn last_piece(s: Seq<char>, sep: char) -> Seq<char>
    decreases s.len(),
{
    match first_index(s, seq![sep]) {
        Some(i) => if 0 <= i < s.len() {
            last_piece(s.skip(i + 1), sep)
        } else {
            s
        },
        None => s,
    }
}

/// The number of bytes that `c` takes in UTF-8.
pub open spec fn utf8_width(c: char) -> nat {
    if (c as u32) < 0x80 {
        1
    } else if (c as u32) < 0x800 {
        2
    } else if (c as u32) < 0x10000 {
        3
    } else {
        4
    }
}

/// The character position at which byte offset `b` of the UTF-8 encoding of `s`
/// lies, if that offset is a character boundary within `s` (else slicing `s` at
/// `b` would panic).
pub open spec fn char_index_at_byte(s: Seq<char>, b: nat) -> Option<int>
    decreases s.len(),
{
    if b == 0 {
        Some(0)
    } else if s.len() == 0 || utf8_width(s[0]) > b {
        None
    } else {
        match char_index_at_byte(s.drop_first(), (b - utf8_width(s[0])) as nat) {
            Some(k) => Some(k + 1),
            None => None,
        }
    }
}

/// `c` is an ASCII decimal digit.
pub open spec fn is_digit(c: char) -> bool {
    '0' <= c && c <= '9'
}

/// The value of the decimal numeral `s`.
pub open spec fn digits_value(s: Seq<char>) -> nat
    decreases s.len(),
{
    if s.len() == 0 {
        0
    } else {
        digits_value(s.drop_last()) * 10 + ((s.last() as int) - ('0' as int)) as nat
    }
}

/// `s` without one leading `+`.
pub open spec fn unsigned_digits(s: Seq<char>) -> Seq<char> {
    if s.len() > 0 && s[0] == '+' {
        s.drop_first()
    } else {
        s
    }
}

/// What `str::parse::<u32>` gives: an optional `+`, then at least one ASCII
/// digit and nothing else, of a value that fits in `u32`.
pub open spec fn parse_u32_spec(s: Seq<char>) -> Option<u32> {
    let d = unsigned_digits(s);
    if d.len() > 0 && (forall|i: int| 0 <= i < d.len() ==> is_digit(#[trigger] d[i]))
        && digits_value(d) <= u32::MAX {
        Some(digits_value(d) as u32)
    } else {
        None
    }
}

/// A position that `first_index` reports is a real occurrence, and no earlier one exists.
pub proof fn lemma_first_index_bounds(s: Seq<char>, pat: Seq<char>)
    ensures
        match first_index(s, pat) {
            Some(i) => occurs_at(s, pat, i) && forall|j: int| 0 <= j < i ==> !occurs_at(s, pat, j),
            None => forall|j: int| !occurs_at(s, pat, j),
        },
{
    lemma_first_index_from(s, pat, 0);
}

/// Where `pat` occurs at `m` and nowhere before, `first_index` reports `m`.
pub proof fn lemma_first_index_at(s: Seq<char>, pat: Seq<char>, m: int)
    requires
        occurs_at(s, pat, m),
        forall|j: int| 0 <= j < m ==> !occurs_at(s, pat, j),
    ensures
        first_index(s, pat) == Some(m),
{
    lemma_first_index_from_at(s, pat, m, 0);
}

proof fn lemma_first_index_from_at(s: Seq<char>, pat: Seq<char>, m: int, k: int)
    requires
        0 <= k <= m,
        occurs_at(s, pat, m),
        forall|j: int| 0 <= j < m ==> !occurs_at(s, pat, j),
    ensures
        first_index_from(s, pat, k) == Some(m),
    decreases m - k,
{
    if k < m {
        lemma_first_index_from_at(s, pat, m, k + 1);
    }
}

proof fn lemma_first_index_from(s: Seq<char>, pat: Seq<char>, k: int)
    requires
        0 <= k,
    ensures
        match first_index_from(s, pat, k) {
            Some(i) => occurs_at(s, pat, i) && k <= i && forall|j: int|
                k <= j < i ==> !occurs_at(s, pat, j),
            None => forall|j: int| k <= j ==> !occurs_at(s, pat, j),
        },
    decreases s.len() + 1 - k,
{
    if k + pat.len() > s.len() {
    } else if occurs_at(s, pat, k) {
    } else {
        lemma_first_index_from(s, pat, k + 1);
    }
}

/// `without_char(s, c)` holds the characters of `s` other than `c`.
pub proof fn lemma_without_char(s: Seq<char>, c: char)
    ensures
        forall|x: char| #[trigger] without_char(s, c).contains(x) <==> (s.contains(x) && x != c),
    decreases s.len(),
{
    if s.len() > 0 {
        let d = s.drop_last();
        lemma_without_char(d, c);
        assert forall|x: char| #[trigger] without_char(s, c).contains(x) <==> (s.contains(x) && x
            != c) by {
            let w = without_char(d, c);
            if s.contains(x) && x != c {
                let i = choose|i: int| 0 <= i < s.len() && s[i] == x;
                if i < d.len() {
                    assert(d[i] == x);
                    assert(w.contains(x));
                    let j = choose|j: int| 0 <= j < w.len() && w[j] == x;
                    if s.last() != c {
                        assert(w.push(s.last())[j] == x);
                    }
                } else {
                    assert(without_char(s, c)[without_char(s, c).len() - 1] == x);
                }
            }
            if without_char(s, c).contains(x) {
                let j = choose|j: int|
                    0 <= j < without_char(s, c).len() && without_char(s, c)[j] == x;
                if s.last() != c && j == w.len() {
                    assert(s[s.len() - 1] == x);
                } else {
                    assert(w[j] == x);
                    assert(w.contains(x));
                    let i = choose|i: int| 0 <= i < d.len() && d[i] == x;
                    assert(s[i] == x);
                }
            }
        }
    }
}

/// The first piece of `s` at `sep` holds no `sep`, and only characters of `s`.
pub proof fn lemma_first_piece(s: Seq<char>, sep: char)
    ensures
        !first_piece(s, sep).contains(sep),
        forall|x: char| #[trigger] first_piece(s, sep).contains(x) ==> s.contains(x),
{
    lemma_first_index_bounds(s, seq![sep]);
    let p = first_piece(s, sep);
    assert forall|x: char| #[trigger] p.contains(x) implies s.contains(x) && x != sep by {
        let j = choose|j: int| 0 <= j < p.len() && p[j] == x;
        assert(s[j] == x);
        if x == sep {
            assert(s.subrange(j, j + 1) =~= seq![sep]);
            assert(occurs_at(s, seq![sep], j));
        }
    }
}

/// After replacing every `from` by another character, no `from` is left, and
/// every character is the replacement or one of `s`.
pub proof fn lemma_replace_char(s: Seq<char>, from: char, to: char)
    requires
        from != to,
    ensures
        forall|x: char| #[trigger] replace_char(s, from, to).contains(x) ==> x != from && (x == to
            || s.contains(x)),
{
    let r = replace_char(s, from, to);
    assert forall|x: char| #[trigger] r.contains(x) implies x != from && (x == to || s.contains(
        x,
    )) by {
        let j = choose|j: int| 0 <= j < r.len() && r[j] == x;
        assert(r[j] == (if s[j] == from { to } else { s[j] }));
    }
}

/// The last piece of `s` at `sep` holds no `sep`; where `s` holds no `sep` it
/// is `s` itself.
pub proof fn lemma_last_piece(s: Seq<char>, sep: char)
    ensures
        !last_piece(s, sep).contains(sep),
        !s.contains(sep) ==> last_piece(s, sep) == s,
    decreases s.len(),
{
    lemma_first_index_bounds(s, seq![sep]);
    match first_index(s, seq![sep]) {
        Some(i) => {
            assert(s[i] == s.subrange(i, i + 1)[0]);
            lemma_last_piece(s.skip(i + 1), sep);
        },
        None => {
            if s.contains(sep) {
                let j = choose|j: int| 0 <= j < s.len() && s[j] == sep;
                assert(s.subrange(j, j + 1) =~= seq![sep]);
                assert(occurs_at(s, seq![sep], j));
            }
        },
    }
}

/// Copies the characters of a string slice into a vector.
pub fn chars_of(s: &str) -> (v: Vec<char>)
    ensures
        v@ == s@,
{
    let mut v: Vec<char> = Vec::new();
    for c in it: s.chars()
        invariant
            it.seq() == s@,
            v@ == it.seq().take(it.index() as int),
    {
        v.push(c);
    }
    v
}

/// The characters of `s` from `from` up to `to`.
pub fn slice_chars(s: &Vec<char>, from: usize, to: usize) -> (r: Vec<char>)
    requires
        from <= to <= s@.len(),
    ensures
        r@ == s@.subrange(from as int, to as int),
{
    let mut r: Vec<char> = Vec::new();
    let mut k = from;
    while k < to
        invariant
            from <= k <= to <= s@.len(),
            r@ == s@.subrange(from as int, k as int),
        decreases to - k,
    {
        r.push(s[k]);
        k = k + 1;
    }
    r
}

/// Whether `pat` occurs in `s` at position `i`.
pub fn matches_at(s: &Vec<char>, pat: &Vec<char>, i: usize) -> (b: bool)
    ensures
        b == occurs_at(s@, pat@, i as int),
{
    if i > s.len() || pat.len() > s.len() - i {
        return false;
    }
    let mut j: usize = 0;
    while j < pat.len()
        invariant
            i <= s.len(),
            i + pat.len() <= s.len(),
            j <= pat@.len(),
            forall|m: int| 0 <= m < j ==> s@[i + m] == pat@[m],
        decreases pat@.len() - j,
    {
        if s[i + j] != pat[j] {
            assert(s@.subrange(i as int, i + pat@.len())[j as int] != pat@[j as int]);
            return false;
        }
        j = j + 1;
    }
    assert(s@.subrange(i as int, i + pat@.len()) =~= pat@);
    true
}

/// The first position of `pat` in `s` (`str::find`).
pub fn find_chars(s: &Vec<char>, pat: &Vec<char>) -> (r: Option<usize>)
    ensures
        match r {
            Some(i) => first_index(s@, pat@) == Some(i as int),
            None => first_index(s@, pat@) is None,
        },
{
    if pat.len() > s.len() {
        return None;
    }
    let last = s.len() - pat.len();
    let mut k: usize = 0;
    while k <= last
        invariant
            pat@.len() <= s@.len(),
            last == s@.len() - pat@.len(),
            k <= last,
            first_index(s@, pat@) == first_index_from(s@, pat@, k as int),
        decreases last - k,
    {
        if matches_at(s, pat, k) {
            return Some(k);
        }
        if k == last {
            assert(first_index_from(s@, pat@, k + 1) is None);
            return None;
        }
        k = k + 1;
    }
    None
}

/// Finds a single character (`str::find(c)`).
pub fn find_char(s: &Vec<char>, c: char) -> (r: Option<usize>)
    ensures
        match r {
            Some(i) => first_index(s@, seq![c]) == Some(i as int),
            None => first_index(s@, seq![c]) is None,
        },
{
    let pat: Vec<char> = vec![c];
    assert(pat@ =~= seq![c]);
    find_chars(s, &pat)
}

/// Drops every `c` from `s`.
pub fn remove_char(s: &Vec<char>, c: char) -> (r: Vec<char>)
    ensures
        r@ == without_char(s@, c),
{
    let mut r: Vec<char> = Vec::new();
    let mut k: usize = 0;
    while k < s.len()
        invariant
            k <= s@.len(),
            r@ == without_char(s@.take(k as int), c),
        decreases s@.len() - k,
    {
        assert(s@.take(k + 1).drop_last() =~= s@.take(k as int));
        if s[k] != c {
            r.push(s[k]);
        }
        k = k + 1;
    }
    assert(s@.take(s@.len() as int) =~= s@);
    r
}

/// Replaces every `from` in `s` by `to`.
pub fn replace_chars(s: &Vec<char>, from: char, to: char) -> (r: Vec<char>)
    ensures
        r@ == replace_char(s@, from, to),
{
    let mut r: Vec<char> = Vec::new();
    let mut k: usize = 0;
    while k < s.len()
        invariant
            k <= s@.len(),
            r@ =~= replace_char(s@.take(k as int), from, to),
        decreases s@.len() - k,
    {
        if s[k] == from {
            r.push(to);
        } else {
            r.push(s[k]);
        }
        k = k + 1;
    }
    assert(s@.take(s@.len() as int) =~= s@);
    r
}

/// Everything before the first `sep` (`s.split(sep).next()`).
pub fn take_first_piece(s: &Vec<char>, sep: char) -> (r: Vec<char>)
    ensures
        r@ == first_piece(s@, sep),
{
    match find_char(s, sep) {
        Some(i) => {
            proof { lemma_first_index_bounds(s@, seq![sep]); }
            slice_chars(s, 0, i)
        },
        None => {
            let r = slice_chars(s, 0, s.len());
            assert(r@ =~= s@);
            r
        },
    }
}

/// Everything after the first `sep`, if `s` holds one.
pub fn after_first(s: &Vec<char>, sep: char) -> (r: Option<Vec<char>>)
    ensures
        match r {
            Some(rest) => first_index(s@, seq![sep]) matches Some(i) && rest@ == s@.skip(i + 1),
            None => first_index(s@, seq![sep]) is None,
        },
{
    match find_char(s, sep) {
        Some(i) => {
            proof { lemma_first_index_bounds(s@, seq![sep]); }
            assert(seq![sep].len() == 1);
            assert(occurs_at(s@, seq![sep], i as int));
            assert(i < s.len());
            let rest = slice_chars(s, i + 1, s.len());
            assert(rest@ =~= s@.skip(i + 1));
            Some(rest)
        },
        None => None,
    }
}

/// The piece number `n` of `s` split at `sep` (`s.split(sep).nth(n)`).
pub fn take_nth_piece(s: &Vec<char>, sep: char, n: usize) -> (r: Option<Vec<char>>)
    ensures
        match r {
            Some(p) => nth_piece(s@, sep, n as nat) == Some(p@),
            None => nth_piece(s@, sep, n as nat) is None,
        },
{
    let mut cur = slice_chars(s, 0, s.len());
    assert(cur@ =~= s@);
    let mut k: usize = 0;
    while k < n
        invariant
            k <= n,
            nth_piece(s@, sep, n as nat) == nth_piece(cur@, sep, (n - k) as nat),
        decreases n - k,
    {
        match after_first(&cur, sep) {
            Some(rest) => {
                cur = rest;
            },
            None => {
                return None;
            },
        }
        k = k + 1;
    }
    Some(take_first_piece(&cur, sep))
}

/// Everything after the last `sep` (`s.split(sep).last()`).
pub fn take_last_piece(s: &Vec<char>, sep: char) -> (r: Vec<char>)
    ensures
        r@ == last_piece(s@, sep),
{
    let mut cur = slice_chars(s, 0, s.len());
    assert(cur@ =~= s@);
    loop
        invariant
            last_piece(s@, sep) == last_piece(cur@, sep),
        decreases cur@.len(),
    {
        proof { lemma_first_index_bounds(cur@, seq![sep]); }
        match after_first(&cur, sep) {
            Some(rest) => {
                cur = rest;
            },
            None => {
                return cur;
            },
        }
    }
}

/// The position of the character at byte offset `b` of `s` (see `char_index_at_byte`).
pub fn char_at_byte(s: &Vec<char>, b: usize) -> (r: Option<usize>)
    ensures
        match r {
            Some(k) => char_index_at_byte(s@, b as nat) == Some(k as int),
            None => char_index_at_byte(s@, b as nat) is None,
        },
{
    let mut i: usize = 0;
    let mut rem: usize = b;
    assert(s@.skip(0) =~= s@);
    while rem > 0
        invariant
            i <= s@.len(),
            char_index_at_byte(s@, b as nat) == (match char_index_at_byte(s@.skip(i as int), rem as nat) {
                Some(k) => Some(k + i),
                None => None,
            }),
        decreases rem,
    {
        if i == s.len() {
            return None;
        }
        let c = s[i];
        let code = c as u32;
        assert(code == c as u32);
        let w: usize = if code < 0x80 {
            1
        } else if code < 0x800 {
            2
        } else if code < 0x10000 {
            3
        } else {
            4
        };
        assert(s@.skip(i as int)[0] == c);
        assert(w == utf8_width(c));
        if w > rem {
            return None;
        }
        assert(s@.skip(i as int).drop_first() =~= s@.skip(i + 1));
        rem = rem - w;
        i = i + 1;
    }
    Some(i)
}

proof fn lemma_digits_prefix(d: Seq<char>, i: int)
    requires
        0 <= i <= d.len(),
        forall|j: int| 0 <= j < d.len() ==> is_digit(#[trigger] d[j]),
    ensures
        digits_value(d.take(i)) <= digits_value(d),
    decreases d.len(),
{
    if i < d.len() {
        assert(d.drop_last().take(i) =~= d.take(i));
        assert forall|j: int| 0 <= j < d.drop_last().len() implies is_digit(#[trigger] d.drop_last()[j]) by {
            assert(d.drop_last()[j] == d[j]);
        }
        lemma_digits_prefix(d.drop_last(), i);
    } else {
        assert(d.take(i) =~= d);
    }
}

/// Parses a decimal `u32` as `str::parse::<u32>` does.
pub fn parse_u32(s: &Vec<char>) -> (r: Option<u32>)
    ensures
        r == parse_u32_spec(s@),
{
    let start: usize = if s.len() > 0 && s[0] == '+' {
        1
    } else {
        0
    };
    let ghost d = unsigned_digits(s@);
    assert(d =~= s@.skip(start as int));
    if start == s.len() {
        return None;
    }
    let mut acc: u64 = 0;
    let mut k: usize = start;
    while k < s.len()
        invariant
            start <= k <= s@.len(),
            d == unsigned_digits(s@),
            d =~= s@.skip(start as int),
            acc as nat == digits_value(d.take(k - start)),
            acc <= u32::MAX,
            forall|j: int| 0 <= j < k - start ==> is_digit(#[trigger] d[j]),
        decreases s@.len() - k,
    {
        let c = s[k];
        assert(d[k - start] == c);
        if !('0' <= c && c <= '9') {
            assert(!is_digit(d[k - start]));
            assert(!(forall|i: int| 0 <= i < d.len() ==> is_digit(#[trigger] d[i])));
            return None;
        }
        assert(d.take(k - start + 1).drop_last() =~= d.take(k - start));
        let v = (c as u64) - ('0' as u64);
        assert(v == (c as int) - ('0' as int));
        acc = acc * 10 + v;
        k = k + 1;
        assert(d.take(k - start).last() == c);
        assert(acc as nat == digits_value(d.take(k - start)));
        if acc > 0xffff_ffff {
            let ghost upto = k - start;
            proof {
                if forall|j: int| 0 <= j < d.len() ==> is_digit(#[trigger] d[j]) {
                    lemma_digits_prefix(d, upto as int);
                }
            }
            return None;
        }
    }
    assert(d.take(s@.len() - start) =~= d);
    Some(acc as u32)
}

/// Whether `a` and `b` hold the same characters.
pub fn chars_equal(a: &Vec<char>, b: &Vec<char>) -> (r: bool)
    ensures
        r == (a@ == b@),
{
    if a.len() != b.len() {
        return false;
    }
    let mut k: usize = 0;
    while k < a.len()
        invariant
            a@.len() == b@.len(),
            k <= a@.len(),
            forall|j: int| 0 <= j < k ==> a@[j] == b@[j],
        decreases a@.len() - k,
    {
        if a[k] != b[k] {
            return false;
        }
        k = k + 1;
    }
    assert(a@ =~= b@);
    true
}

/// Whether two string slices hold the same text.
pub fn same_text(a: &str, b: &str) -> (r: bool)
    ensures
        r == (a@ == b@),
{
    chars_equal(&chars_of(a), &chars_of(b))
}

/// Builds a `String` from its characters (std's `FromIterator<char>`).
#[verifier::external_body]
pub(crate) fn string_of(cs: &[char]) -> (s: String)
    ensures
        s@ == cs@,
{
    cs.iter().collect()
}

} // verus!
