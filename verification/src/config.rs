//! The `key = value` configuration file and the settings read from it.

use vstd::prelude::*;

use crate::cli::{method_from_name, method_named, InputMethod};
use crate::decimal::{read_usize, usize_text_value};
use crate::text::{
    chars_of, find_char, first_index_of, lemma_first_index_bounds, lemma_first_index_none_before,
    lemma_trim_window_bounds, same_chars, slice_chars, string_from_chars, trim_bounds,
    trim_window, unquote, unquoted,
};
use vstd::string::StringExecFns;

verus! {

/// The key/value pairs of a configuration; later pairs override earlier ones
/// with the same key.
pub open spec fn pairs_map(p: Seq<(Seq<char>, Seq<char>)>) -> Map<Seq<char>, Seq<char>>
    decreases p.len(),
{
    if p.len() == 0 {
        Map::empty()
    } else {
        pairs_map(p.drop_last()).insert(p.last().0, p.last().1)
    }
}

/// No key occurs twice.
pub open spec fn distinct_keys(p: Seq<(Seq<char>, Seq<char>)>) -> bool {
    forall|i: int, j: int| 0 <= i < j < p.len() ==> p[i].0 != p[j].0
}

pub proof fn lemma_pairs_map_lookup(p: Seq<(Seq<char>, Seq<char>)>, k: Seq<char>)
    requires
        distinct_keys(p),
    ensures
        pairs_map(p).contains_key(k) <==> exists|i: int| 0 <= i < p.len() && p[i].0 == k,
        forall|i: int| 0 <= i < p.len() && p[i].0 == k ==> pairs_map(p)[k] == p[i].1,
    decreases p.len(),
{
    if p.len() > 0 {
        let q = p.drop_last();
        assert(distinct_keys(q));
        lemma_pairs_map_lookup(q, k);
        if k != p.last().0 {
            assert forall|i: int| 0 <= i < q.len() && #[trigger] q[i].0 == k implies p[i].0 == k by {}
            if exists|i: int| 0 <= i < p.len() && p[i].0 == k {
                let i = choose|i: int| 0 <= i < p.len() && p[i].0 == k;
                assert(q[i].0 == k);
            }
        } else {
            assert(p[p.len() - 1].0 == k);
        }
    }
}

pub proof fn lemma_pairs_map_update(p: Seq<(Seq<char>, Seq<char>)>, j: int, v: Seq<char>)
    requires
        distinct_keys(p),
        0 <= j < p.len(),
    ensures
        pairs_map(p.update(j, (p[j].0, v))) == pairs_map(p).insert(p[j].0, v),
    decreases p.len(),
{
    let q = p.update(j, (p[j].0, v));
    if j == p.len() - 1 {
        assert(q.drop_last() =~= p.drop_last());
        assert(pairs_map(p).insert(p[j].0, v) =~= pairs_map(p.drop_last()).insert(p[j].0, v));
    } else {
        let pd = p.drop_last();
        assert(distinct_keys(pd));
        lemma_pairs_map_update(pd, j, v);
        assert(q.drop_last() =~= pd.update(j, (pd[j].0, v)));
        assert(p.last().0 != p[j].0);
        assert(pairs_map(q) =~= pairs_map(p).insert(p[j].0, v));
    }
}

/// Settings read from `key = value` lines. Keys are stored as characters,
/// each at most once.
pub struct RawConfig {
    entries: Vec<(Vec<char>, String)>,
}

impl View for RawConfig {
    type V = Map<Seq<char>, Seq<char>>;

    /// The settings as a map from key to value.
    closed spec fn view(&self) -> Map<Seq<char>, Seq<char>> {
        pairs_map(self.pairs())
    }
}

impl RawConfig {
    /// The stored pairs, in insertion order.
    pub closed spec fn pairs(&self) -> Seq<(Seq<char>, Seq<char>)> {
        self.entries@.map_values(|e: (Vec<char>, String)| (e.0@, e.1@))
    }

    #[verifier::type_invariant]
    closed spec fn keys_distinct(&self) -> bool {
        distinct_keys(self.pairs())
    }


    /// An empty configuration.
    pub fn new() -> (c: RawConfig)
        ensures
            c@ == Map::<Seq<char>, Seq<char>>::empty(),
    {
        let c = RawConfig { entries: Vec::new() };
        assert(c.pairs() =~= Seq::empty());
        c
    }

    fn position(&self, key: &Vec<char>) -> (r: Option<usize>)
        ensures
            match r {
                Some(i) => i < self.pairs().len() && self.pairs()[i as int].0 == key@,
                None => forall|i: int| 0 <= i < self.pairs().len() ==> self.pairs()[i].0 != key@,
            },
    {
        let mut i: usize = 0;
        while i < self.entries.len()
            invariant
                i <= self.entries@.len(),
                forall|j: int| 0 <= j < i ==> self.pairs()[j].0 != key@,
            decreases self.entries@.len() - i,
        {
            if same_chars(&self.entries[i].0, key) {
                return Some(i);
            }
            i = i + 1;
        }
        None
    }

    /// Sets `key` to `value`, replacing any earlier value of that key.
    pub fn insert(&mut self, key: Vec<char>, value: String)
        ensures
            final(self)@ == old(self)@.insert(key@, value@),
    {
        proof {
            use_type_invariant(&*self);
        }
        let ghost p = self.pairs();
        let ghost k = key@;
        let ghost v = value@;
        let found = self.position(&key);
        let mut entries: Vec<(Vec<char>, String)> = Vec::new();
        std::mem::swap(&mut entries, &mut self.entries);
        assert(entries@.map_values(|e: (Vec<char>, String)| (e.0@, e.1@)) == p);
        match found {
            Some(i) => {
                proof {
                    lemma_pairs_map_update(p, i as int, v);
                    assert(p.update(i as int, (p[i as int].0, v)) =~= p.update(i as int, (k, v)));
                }
                entries.set(i, (key, value));
                assert(entries@.map_values(|e: (Vec<char>, String)| (e.0@, e.1@)) =~= p.update(i as int, (k, v)));
            },
            None => {
                proof {
                    assert(p.push((k, v)).drop_last() =~= p);
                }
                entries.push((key, value));
                assert(entries@.map_values(|e: (Vec<char>, String)| (e.0@, e.1@)) =~= p.push((k, v)));
            },
        }
        self.entries = entries;
    }

    /// The value stored under `key`, if any.
    pub fn get(&self, key: &str) -> (r: Option<&String>)
        ensures
            match r {
                Some(v) => self@.contains_key(key@) && v@ == self@[key@],
                None => !self@.contains_key(key@),
            },
    {
        proof {
            use_type_invariant(self);
            lemma_pairs_map_lookup(self.pairs(), key@);
        }
        let wanted = chars_of(key);
        match self.position(&wanted) {
            Some(i) => Some(&self.entries[i].1),
            None => None,
        }
    }
}

/// What one line `s[lo..hi]` of a configuration text contributes: text from
/// the first `#` on is a comment, and the rest is trimmed; an empty rest is
/// `Blank`, a rest without `=` is `Malformed`, and otherwise the trimmed text
/// before the first `=` is the key and the trimmed text after it the value.
pub enum LineParse {
    Blank,
    Malformed,
    Entry { key: Seq<char>, value: Seq<char> },
}

pub open spec fn parse_line(s: Seq<char>, lo: int, hi: int) -> LineParse {
    let content = trim_window(s, lo, first_index_of(s, '#', lo, hi));
    if content.0 == content.1 {
        LineParse::Blank
    } else {
        let eq = first_index_of(s, '=', content.0, content.1);
        if eq == content.1 {
            LineParse::Malformed
        } else {
            let k = trim_window(s, content.0, eq);
            let v = trim_window(s, eq + 1, content.1);
            LineParse::Entry { key: s.subrange(k.0, k.1), value: s.subrange(v.0, v.1) }
        }
    }
}

/// A `#` starts a comment: what a line contributes depends only on its text
/// before its first `#`. If `s[h]` is a `#` (or `h` is the line's end) and
/// `s[lo..h]` holds no `#`, the line `s[lo..hi]` parses as `s[lo..h]` does.
pub proof fn lemma_line_ends_at_comment(s: Seq<char>, lo: int, h: int, hi: int)
    requires
        lo <= h <= hi,
        h < hi ==> s[h] == '#',
        forall|i: int| lo <= i < h ==> s[i] != '#',
    ensures
        parse_line(s, lo, hi) == parse_line(s, lo, h),
{
    lemma_first_index_none_before(s, '#', lo, h, hi);
}

/// A line's key and value hold no `#`.
pub proof fn lemma_line_entry_has_no_hash(s: Seq<char>, lo: int, hi: int)
    requires
        0 <= lo <= hi <= s.len(),
    ensures
        parse_line(s, lo, hi) matches LineParse::Entry { key, value } ==> !key.contains('#')
            && !value.contains('#'),
{
    let hash = first_index_of(s, '#', lo, hi);
    lemma_first_index_bounds(s, '#', lo, hi);
    let content = trim_window(s, lo, hash);
    lemma_trim_window_bounds(s, lo, hash);
    if content.0 < content.1 {
        let eq = first_index_of(s, '=', content.0, content.1);
        lemma_first_index_bounds(s, '=', content.0, content.1);
        if eq < content.1 {
            let k = trim_window(s, content.0, eq);
            let v = trim_window(s, eq + 1, content.1);
            lemma_trim_window_bounds(s, content.0, eq);
            lemma_trim_window_bounds(s, eq + 1, content.1);
            let key = s.subrange(k.0, k.1);
            let value = s.subrange(v.0, v.1);
            assert forall|i: int| 0 <= i < key.len() implies key[i] != '#' by {
                assert(key[i] == s[k.0 + i]);
            }
            assert forall|i: int| 0 <= i < value.len() implies value[i] != '#' by {
                assert(value[i] == s[v.0 + i]);
            }
        }
    }
}

proof fn lemma_parse_lines_no_hash(
    s: Seq<char>,
    pos: int,
    line: nat,
    acc: Map<Seq<char>, Seq<char>>,
)
    requires
        forall|k: Seq<char>| #[trigger] acc.contains_key(k) ==> !k.contains('#') && !acc[k].contains('#'),
    ensures
        parse_lines(s, pos, line, acc) matches Ok(m) ==> forall|k: Seq<char>| #[trigger]
            m.contains_key(k) ==> !k.contains('#') && !m[k].contains('#'),
    decreases s.len() + 1 - pos,
{
    if 0 <= pos <= s.len() {
        let end = first_index_of(s, '\n', pos, s.len() as int);
        lemma_first_index_bounds(s, '\n', pos, s.len() as int);
        lemma_line_entry_has_no_hash(s, pos, end);
        match parse_line(s, pos, end) {
            LineParse::Blank => lemma_parse_lines_no_hash(s, end + 1, line + 1, acc),
            LineParse::Malformed => {},
            LineParse::Entry { key, value } => {
                let next = acc.insert(key, value);
                assert forall|k: Seq<char>| #[trigger] next.contains_key(k) implies !k.contains('#')
                    && !next[k].contains('#') by {
                    if k != key {
                        assert(acc.contains_key(k));
                    }
                }
                lemma_parse_lines_no_hash(s, end + 1, line + 1, next);
            },
        }
    }
}

/// No key or value read from a configuration text holds a `#`: everything
/// from a line's first `#` on is a comment.
pub proof fn lemma_config_has_no_hash(text: Seq<char>)
    ensures
        config_of(text) matches Ok(m) ==> forall|k: Seq<char>| #[trigger] m.contains_key(k)
            ==> !k.contains('#') && !m[k].contains('#'),
{
    lemma_parse_lines_no_hash(text, 0, 1, Map::empty());
}

/// Reads the lines of `s` from index `pos` on, where `line` is the (1-based)
/// number of the line that starts at `pos` and `acc` the settings read so
/// far. Lines end at `\n`. The result is the settings, or the number of the
/// first malformed line.
pub open spec fn parse_lines(
    s: Seq<char>,
    pos: int,
    line: nat,
    acc: Map<Seq<char>, Seq<char>>,
) -> Result<Map<Seq<char>, Seq<char>>, nat>
    decreases s.len() + 1 - pos,
{
    if pos < 0 || pos > s.len() {
        Ok(acc)
    } else {
        let end = first_index_of(s, '\n', pos, s.len() as int);
        if end < pos || end > s.len() {
            Ok(acc)
        } else {
            match parse_line(s, pos, end) {
                LineParse::Blank => parse_lines(s, end + 1, line + 1, acc),
                LineParse::Malformed => Err(line),
                LineParse::Entry { key, value } => parse_lines(
                    s,
                    end + 1,
                    line + 1,
                    acc.insert(key, value),
                ),
            }
        }
    }
}

/// The settings that a configuration text holds, or the number of its first
/// malformed line.
pub open spec fn config_of(text: Seq<char>) -> Result<Map<Seq<char>, Seq<char>>, nat> {
    parse_lines(text, 0, 1, Map::empty())
}

/// A configuration line that is neither blank nor of the form `key = value`.
pub struct ConfigError {
    /// The (1-based) number of the offending line.
    pub line: usize,
}

/// Reads simple `key = value` lines: a `#` starts a comment, blank lines are
/// skipped, keys and values are trimmed, and a later line for a key replaces
/// an earlier one. A non-blank line without `=` is an error naming the line.
pub fn parse_config(text: &str) -> (r: Result<RawConfig, ConfigError>)
    ensures
        match (r, config_of(text@)) {
            (Ok(c), Ok(m)) => c@ == m,
            (Err(e), Err(line)) => e.line == line,
            _ => false,
        },
        r matches Ok(c) ==> forall|k: Seq<char>| #[trigger] c@.contains_key(k) ==> !k.contains('#')
            && !c@[k].contains('#'),
{
    proof {
        lemma_config_has_no_hash(text@);
    }
    let s = chars_of(text);
    let n = s.len();
    let mut config = RawConfig::new();
    let mut pos: usize = 0;
    let mut index: usize = 0;
    let mut done = false;
    while !done
        invariant
            s@ == text@,
            n == s@.len(),
            index <= pos <= n,
            done ==> parse_lines(s@, n + 1, (index + 2) as nat, config@) == config_of(
                text@,
            ),
            !done ==> parse_lines(s@, pos as int, (index + 1) as nat, config@)
                == config_of(text@),
        decreases n + 1 - pos + (if done { 0int } else { 1 }),
    {
        let end = find_char(&s, '\n', pos, n);
        let hash = find_char(&s, '#', pos, end);
        let (start, stop) = trim_bounds(&s, pos, hash);
        if start < stop {
            let eq = find_char(&s, '=', start, stop);
            if eq == stop {
                return Err(ConfigError { line: index + 1 });
            }
            let (key_lo, key_hi) = trim_bounds(&s, start, eq);
            let (value_lo, value_hi) = trim_bounds(&s, eq + 1, stop);
            let key = slice_chars(&s, key_lo, key_hi);
            let value_chars = slice_chars(&s, value_lo, value_hi);
            let value = string_from_chars(value_chars.as_slice());
            config.insert(key, value);
        }
        if end == n {
            done = true;
        } else {
            pos = end + 1;
            index = index + 1;
        }
    }
    Ok(config)
}

/// How the input method was settled.
#[derive(Debug, Clone, Copy, PartialEq, Eq, Structural)]
pub enum MethodSource {
    /// Given on the command line.
    CommandLine,
    /// Read from the configuration's `method` setting.
    Config,
    /// Neither gives one: `Direct` is used.
    Default,
}

/// Settles the input method: the command line's if it names one; else the
/// configuration's `method` setting with surrounding quotes removed, which
/// must be `direct` or `interpolated` (otherwise the unquoted setting is the
/// error); else `Direct` by default.
pub fn resolve_method(cli: Option<InputMethod>, config: &RawConfig) -> (r: Result<
    (InputMethod, MethodSource),
    String,
>)
    ensures
        match cli {
            Some(m) => r == Ok::<(InputMethod, MethodSource), String>((m, MethodSource::CommandLine)),
            None => if !config@.contains_key("method"@) {
                r == Ok::<(InputMethod, MethodSource), String>((InputMethod::Direct, MethodSource::Default))
            } else {
                match method_named(unquoted(config@["method"@])) {
                    Some(m) => r == Ok::<(InputMethod, MethodSource), String>((m, MethodSource::Config)),
                    None => r matches Err(e) && e@ == unquoted(config@["method"@]),
                }
            },
        },
{
    match cli {
        Some(m) => Ok((m, MethodSource::CommandLine)),
        None => match config.get("method") {
            None => Ok((InputMethod::Direct, MethodSource::Default)),
            Some(value) => {
                let bare = unquote(&chars_of(value.as_str()));
                let text = string_from_chars(bare.as_slice());
                match method_from_name(text.as_str()) {
                    Some(m) => Ok((m, MethodSource::Config)),
                    None => Err(text),
                }
            },
        },
    }
}

/// The configuration's `name` setting, or `unnamed` without one.
pub fn config_name(config: &RawConfig) -> (name: String)
    ensures
        name@ == (if config@.contains_key("name"@) {
            config@["name"@]
        } else {
            "unnamed"@
        }),
{
    match config.get("name") {
        Some(v) => v.clone(),
        None => String::from_str("unnamed"),
    }
}

/// The interpolation degree under `key`: the setting's value when it reads
/// as a `usize`, and 3 otherwise.
pub fn config_degree(config: &RawConfig, key: &str) -> (d: usize)
    ensures
        d == (if config@.contains_key(key@) && usize_text_value(config@[key@]) is Some {
            usize_text_value(config@[key@])->0
        } else {
            3
        }),
{
    match config.get(key) {
        Some(v) => match read_usize(v.as_str()) {
            Some(d) => d,
            None => 3,
        },
        None => 3,
    }
}

} // verus!
