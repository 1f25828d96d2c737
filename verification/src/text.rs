//! Character-level text helpers: trimming, searching and copying.

use vstd::prelude::*;

verus! {

/// Whether `c` has the Unicode `White_Space` property, which is what
/// `char::is_whitespace` reports: tab through carriage return (U+0009 to
/// U+000D), space, U+0085, U+00A0, U+1680, U+2000 to U+200A, U+2028,
/// U+2029, U+202F, U+205F and U+3000.
pub open spec fn is_white_space(c: char) -> bool {
    let v = c as u32;
    ||| 0x09 <= v <= 0x0d
    ||| v == 0x20
    ||| v == 0x85
    ||| v == 0xa0
    ||| v == 0x1680
    ||| 0x2000 <= v <= 0x200a
    ||| v == 0x2028
    ||| v == 0x2029
    ||| v == 0x202f
    ||| v == 0x205f
    ||| v == 0x3000
}

/// Whether `c` is white space (see `is_white_space`).
pub fn char_is_whitespace(c: char) -> (b: bool)
    ensures
        b == is_white_space(c),
{
    let v = c as u32;
    (0x09 <= v && v <= 0x0d) || v == 0x20 || v == 0x85 || v == 0xa0 || v == 0x1680 || (0x2000
        <= v && v <= 0x200a) || v == 0x2028 || v == 0x2029 || v == 0x202f || v == 0x205f || v
        == 0x3000
}

/// `String::from_iter` over characters: the string holds exactly the given
/// characters, in order.
#[verifier::external_body]
pub(crate) fn string_from_chars(chars: &[char]) -> (s: String)
    ensures
        s@ == chars@,
{
    String::from_iter(chars.iter())
}

/// The characters of `text`, in order.
pub fn chars_of(text: &str) -> (chars: Vec<char>)
    ensures
        chars@ == text@,
{
    broadcast use vstd::string::group_string_axioms;

    let mut chars: Vec<char> = Vec::new();
    for c in it: text.chars()
        invariant
            chars@ == it.seq().take(it.index() as int),
            it.seq() == text@,
    {
        chars.push(c);
    }
    chars
}

/// Index of the first `c` in `s[lo..hi]`, or `hi` when there is none.
pub open spec fn first_index_of(s: Seq<char>, c: char, lo: int, hi: int) -> int
    decreases hi - lo,
{
    if lo >= hi {
        hi
    } else if s[lo] == c {
        lo
    } else {
        first_index_of(s, c, lo + 1, hi)
    }
}

/// First index in `lo..hi` that does not hold white space (`hi` if none).
pub open spec fn skip_white_space(s: Seq<char>, lo: int, hi: int) -> int
    decreases hi - lo,
{
    if lo < hi && is_white_space(s[lo]) {
        skip_white_space(s, lo + 1, hi)
    } else {
        lo
    }
}

/// End of `s[lo..hi]` once trailing white space is dropped.
pub open spec fn skip_white_space_back(s: Seq<char>, lo: int, hi: int) -> int
    decreases hi - lo,
{
    if lo < hi && is_white_space(s[hi - 1]) {
        skip_white_space_back(s, lo, hi - 1)
    } else {
        hi
    }
}

/// The window `s[lo..hi]` with leading and then trailing white space
/// removed, as `str::trim` does, given as the bounds `(start, end)`.
pub open spec fn trim_window(s: Seq<char>, lo: int, hi: int) -> (int, int) {
    let start = skip_white_space(s, lo, hi);
    (start, skip_white_space_back(s, start, hi))
}

/// `s` without leading and trailing white space.
pub open spec fn trimmed(s: Seq<char>) -> Seq<char> {
    let (a, b) = trim_window(s, 0, s.len() as int);
    s.subrange(a, b)
}

pub proof fn lemma_first_index_bounds(s: Seq<char>, c: char, lo: int, hi: int)
    requires
        lo <= hi,
    ensures
        lo <= first_index_of(s, c, lo, hi) <= hi,
        forall|i: int| lo <= i < first_index_of(s, c, lo, hi) ==> s[i] != c,
    decreases hi - lo,
{
    if lo < hi && s[lo] != c {
        lemma_first_index_bounds(s, c, lo + 1, hi);
    }
}

/// When `s[lo..h]` holds no `c`, the first `c` of `s[lo..hi]` (for any
/// `hi >= h`) is at or after `h`; in particular the search within `s[lo..h]`
/// ends at `h`.
pub proof fn lemma_first_index_none_before(s: Seq<char>, c: char, lo: int, h: int, hi: int)
    requires
        lo <= h <= hi,
        forall|i: int| lo <= i < h ==> s[i] != c,
    ensures
        first_index_of(s, c, lo, h) == h,
        h < hi && s[h] == c ==> first_index_of(s, c, lo, hi) == h,
    decreases h - lo,
{
    if lo < h {
        lemma_first_index_none_before(s, c, lo + 1, h, hi);
    }
}

pub proof fn lemma_trim_window_bounds(s: Seq<char>, lo: int, hi: int)
    requires
        lo <= hi,
    ensures
        lo <= trim_window(s, lo, hi).0 <= trim_window(s, lo, hi).1 <= hi,
{
    lemma_skip_bounds(s, lo, hi);
    lemma_skip_bounds(s, skip_white_space(s, lo, hi), hi);
}

proof fn lemma_skip_bounds(s: Seq<char>, lo: int, hi: int)
    requires
        lo <= hi,
    ensures
        lo <= skip_white_space(s, lo, hi) <= hi,
        lo <= skip_white_space_back(s, lo, hi) <= hi,
    decreases hi - lo,
{
    if lo < hi {
        lemma_skip_bounds(s, lo + 1, hi);
        lemma_skip_bounds(s, lo, hi - 1);
    }
}

/// Index of the first `c` in `s[lo..hi]`, or `hi` when there is none.
pub fn find_char(s: &Vec<char>, c: char, lo: usize, hi: usize) -> (i: usize)
    requires
        lo <= hi <= s@.len(),
    ensures
        i == first_index_of(s@, c, lo as int, hi as int),
        lo <= i <= hi,
{
    proof {
        lemma_first_index_bounds(s@, c, lo as int, hi as int);
    }
    let mut i = lo;
    while i < hi && s[i] != c
        invariant
            lo <= i <= hi <= s@.len(),
            first_index_of(s@, c, lo as int, hi as int) == first_index_of(s@, c, i as int, hi as int),
        decreases hi - i,
    {
        i = i + 1;
    }
    i
}

/// Bounds of `s[lo..hi]` with surrounding white space removed
/// (see `trim_window`).
pub fn trim_bounds(s: &Vec<char>, lo: usize, hi: usize) -> (r: (usize, usize))
    requires
        lo <= hi <= s@.len(),
    ensures
        r.0 == trim_window(s@, lo as int, hi as int).0,
        r.1 == trim_window(s@, lo as int, hi as int).1,
        lo <= r.0 <= r.1 <= hi,
{
    let mut start = lo;
    while start < hi && char_is_whitespace(s[start])
        invariant
            lo <= start <= hi <= s@.len(),
            skip_white_space(s@, lo as int, hi as int) == skip_white_space(s@, start as int, hi as int),
        decreases hi - start,
    {
        start = start + 1;
    }
    let mut end = hi;
    while end > start && char_is_whitespace(s[end - 1])
        invariant
            lo <= start <= end <= hi <= s@.len(),
            skip_white_space_back(s@, start as int, hi as int) == skip_white_space_back(s@, start as int, end as int),
        decreases end - start,
    {
        end = end - 1;
    }
    (start, end)
}

/// The characters `s[lo..hi]` as a new vector.
pub fn slice_chars(s: &Vec<char>, lo: usize, hi: usize) -> (r: Vec<char>)
    requires
        lo <= hi <= s@.len(),
    ensures
        r@ == s@.subrange(lo as int, hi as int),
{
    let mut r: Vec<char> = Vec::new();
    let mut i = lo;
    while i < hi
        invariant
            lo <= i <= hi <= s@.len(),
            r@ == s@.subrange(lo as int, i as int),
        decreases hi - i,
    {
        r.push(s[i]);
        i = i + 1;
    }
    r
}

/// Whether two character vectors are equal.
pub fn same_chars(a: &Vec<char>, b: &Vec<char>) -> (r: bool)
    ensures
        r == (a@ == b@),
{
    if a.len() != b.len() {
        return false;
    }
    let mut i: usize = 0;
    while i < a.len()
        invariant
            a@.len() == b@.len(),
            i <= a@.len(),
            forall|j: int| 0 <= j < i ==> a@[j] == b@[j],
        decreases a@.len() - i,
    {
        if a[i] != b[i] {
            return false;
        }
        i = i + 1;
    }
    assert(a@ =~= b@);
    true
}

/// Whether `c` is a double or a single quote.
pub open spec fn is_quote(c: char) -> bool {
    c == '"' || c == '\''
}

/// `s` with every leading and every trailing quote removed, as
/// `trim_matches` does with a quote predicate.
pub open spec fn unquoted(s: Seq<char>) -> Seq<char> {
    let start = skip_quotes(s, 0, s.len() as int);
    s.subrange(start, skip_quotes_back(s, start, s.len() as int))
}

pub open spec fn skip_quotes(s: Seq<char>, lo: int, hi: int) -> int
    decreases hi - lo,
{
    if lo < hi && is_quote(s[lo]) {
        skip_quotes(s, lo + 1, hi)
    } else {
        lo
    }
}

pub open spec fn skip_quotes_back(s: Seq<char>, lo: int, hi: int) -> int
    decreases hi - lo,
{
    if lo < hi && is_quote(s[hi - 1]) {
        skip_quotes_back(s, lo, hi - 1)
    } else {
        hi
    }
}

proof fn lemma_skip_quotes(s: Seq<char>, lo: int, hi: int)
    requires
        0 <= lo <= hi <= s.len(),
    ensures
        lo <= skip_quotes(s, lo, hi) <= hi,
        forall|i: int| lo <= i < skip_quotes(s, lo, hi) ==> is_quote(s[i]),
        skip_quotes(s, lo, hi) < hi ==> !is_quote(s[skip_quotes(s, lo, hi)]),
        lo <= skip_quotes_back(s, lo, hi) <= hi,
        forall|i: int| skip_quotes_back(s, lo, hi) <= i < hi ==> is_quote(s[i]),
        lo < skip_quotes_back(s, lo, hi) ==> !is_quote(s[skip_quotes_back(s, lo, hi) - 1]),
    decreases hi - lo,
{
    if lo < hi {
        lemma_skip_quotes(s, lo + 1, hi);
        lemma_skip_quotes(s, lo, hi - 1);
    }
}

/// Unquoting cuts off quotes and nothing else: `unquoted(s)` is the part of
/// `s` between its leading run of `"`/`'` characters and its trailing run,
/// and it neither starts nor ends with a quote. In particular a text with no
/// quote at either end is left as it is.
pub proof fn lemma_unquoted_cuts_only_quotes(s: Seq<char>)
    ensures
        exists|a: int, b: int|
            {
                &&& 0 <= a <= b <= s.len()
                &&& unquoted(s) == s.subrange(a, b)
                &&& forall|i: int| 0 <= i < a ==> (s[i] == '"' || s[i] == '\'')
                &&& forall|i: int| b <= i < s.len() ==> (s[i] == '"' || s[i] == '\'')
                &&& a < b ==> (s[a] != '"' && s[a] != '\'' && s[b - 1] != '"' && s[b - 1] != '\'')
            },
        (s.len() == 0 || (s[0] != '"' && s[0] != '\'' && s.last() != '"' && s.last() != '\''))
            ==> unquoted(s) == s,
{
    let n = s.len() as int;
    lemma_skip_quotes(s, 0, n);
    let a = skip_quotes(s, 0, n);
    lemma_skip_quotes(s, a, n);
    let b = skip_quotes_back(s, a, n);
    assert(unquoted(s) == s.subrange(a, b));
    if s.len() == 0 || (s[0] != '"' && s[0] != '\'' && s.last() != '"' && s.last() != '\'') {
        if n > 0 {
            assert(a == 0);
            assert(b == n);
        }
        assert(s.subrange(a, b) =~= s);
    }
}

/// The characters of `s` without leading and trailing quotes
/// (see `unquoted`).
pub fn unquote(s: &Vec<char>) -> (r: Vec<char>)
    ensures
        r@ == unquoted(s@),
{
    let n = s.len();
    let mut start: usize = 0;
    while start < n && (s[start] == '"' || s[start] == '\'')
        invariant
            start <= n == s@.len(),
            skip_quotes(s@, 0, n as int) == skip_quotes(s@, start as int, n as int),
        decreases n - start,
    {
        start = start + 1;
    }
    let mut end = n;
    while end > start && (s[end - 1] == '"' || s[end - 1] == '\'')
        invariant
            start <= end <= n == s@.len(),
            skip_quotes_back(s@, start as int, n as int) == skip_quotes_back(s@, start as int, end as int),
        decreases end - start,
    {
        end = end - 1;
    }
    slice_chars(s, start, end)
}

} // verus!
