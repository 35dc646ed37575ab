//! A minimal TOML-like configuration: `[section]` headers and
//! `key = value` lines.
use vstd::prelude::*;
use crate::keyed::{find_slot, has_key, key_chars, keyed_map, keys_ascending, lemma_keyed_map_at, lemma_keyed_map_insert, lemma_keyed_map_update};
use crate::num::decimal;
use crate::text::{chars_of, lines_view, split_chars, split_on, string_of_range, trim, trim_bounds};

verus! {

/// A section's entries as character sequences.
pub open spec fn entries_view(es: Seq<(String, String)>) -> Seq<(Seq<char>, Seq<char>)> {
    es.map_values(|e: (String, String)| (e.0@, e.1@))
}

/// The configuration model: each section name to its key/value map.
pub type ConfigMap = Map<Seq<char>, Map<Seq<char>, Seq<char>>>;

/// The entries of section `name` in `m`, none if the section is absent.
pub open spec fn section_of(m: ConfigMap, name: Seq<char>) -> Map<Seq<char>, Seq<char>> {
    if m.dom().contains(name) {
        m[name]
    } else {
        Map::empty()
    }
}

/// Sections of a configuration, by name; each holds its entries by key.
pub struct Config {
    pub sections: Vec<(String, Vec<(String, String)>)>,
}

impl Config {
    /// The sections in stored order, each with its entries as a map.
    pub open spec fn model(&self) -> Seq<(Seq<char>, Map<Seq<char>, Seq<char>>)> {
        self.sections@.map_values(
            |s: (String, Vec<(String, String)>)| (s.0@, keyed_map(entries_view(s.1@))),
        )
    }

    /// Section names ascend strictly, and so do the keys within each section.
    pub open spec fn wf(&self) -> bool {
        &&& keys_ascending(self.model())
        &&& forall|i: int|
            0 <= i < self.sections@.len() ==> keys_ascending(
                entries_view(#[trigger] self.sections@[i].1@),
            )
    }
}

impl View for Config {
    type V = ConfigMap;

    open spec fn view(&self) -> ConfigMap {
        keyed_map(self.model())
    }
}

/// No pairs make the empty map.
pub proof fn lemma_keyed_map_empty<X>(s: Seq<(Seq<char>, X)>)
    requires
        s.len() == 0,
    ensures
        keyed_map(s) == Map::<Seq<char>, X>::empty(),
{
    assert(keyed_map(s) =~= Map::<Seq<char>, X>::empty());
}

impl Config {
    /// An empty configuration.
    pub fn new() -> (c: Config)
        ensures
            c.wf(),
            c@ == Map::<Seq<char>, Map<Seq<char>, Seq<char>>>::empty(),
    {
        let c = Config { sections: Vec::new() };
        proof {
            lemma_keyed_map_empty(c.model());
        }
        c
    }

    /// Makes sure section `name` exists, adding it empty if it is new.
    fn touch_section(&mut self, name: &str)
        requires
            old(self).wf(),
        ensures
            final(self).wf(),
            final(self)@ == (if old(self)@.dom().contains(name@) {
                old(self)@
            } else {
                old(self)@.insert(name@, Map::empty())
            }),
    {
        let keys = key_chars(&self.sections);
        let nc = chars_of(name);
        proof {
            crate::keyed::lemma_key_chars_ascend(self.model(), self.sections@, keys@);
        }
        let (pos, found) = find_slot(&keys, &nc);
        if found {
            proof {
                assert(self.model()[pos as int].0 == name@);
                lemma_keyed_map_at(self.model(), pos as int);
            }
        } else {
            let ghost old_model = self.model();
            self.sections.insert(pos, (name.to_owned(), Vec::new()));
            proof {
                let e: Seq<(Seq<char>, Seq<char>)> = entries_view(Seq::<(String, String)>::empty());
                assert(e.len() == 0);
                lemma_keyed_map_empty(e);
                assert(self.model() =~= old_model.insert(pos as int, (name@, Map::empty())));
                assert forall|j: int| 0 <= j < pos implies crate::text::seq_less(
                    #[trigger] old_model[j].0,
                    name@,
                ) by {
                    assert(keys@[j]@ == old_model[j].0);
                }
                assert forall|j: int| pos <= j < old_model.len() implies crate::text::seq_less(
                    name@,
                    #[trigger] old_model[j].0,
                ) by {
                    assert(keys@[j]@ == old_model[j].0);
                }
                lemma_keyed_map_insert(old_model, pos as int, name@, Map::empty());
                if has_key(old_model, name@) {
                    let q = choose|q: int| 0 <= q < old_model.len() && #[trigger] old_model[q].0 == name@;
                    crate::text::lemma_seq_less_trichotomy(name@, name@);
                    assert(keys@[q]@ == name@);
                }
                assert forall|i: int| 0 <= i < self.sections@.len() implies keys_ascending(
                    entries_view(#[trigger] self.sections@[i].1@),
                ) by {
                    if i < pos {
                        assert(self.sections@[i] == old(self).sections@[i]);
                    } else if i > pos {
                        assert(self.sections@[i] == old(self).sections@[i - 1]);
                    } else {
                        assert(entries_view(self.sections@[i].1@).len() == 0);
                    }
                }
            }
        }
    }
}

impl Config {
    /// The position of section `name`, which must be present.
    fn section_position(&self, name: &str) -> (pos: usize)
        requires
            self.wf(),
            self@.dom().contains(name@),
        ensures
            pos < self.sections@.len(),
            self.model()[pos as int].0 == name@,
            self@[name@] == self.model()[pos as int].1,
    {
        let keys = key_chars(&self.sections);
        let nc = chars_of(name);
        proof {
            crate::keyed::lemma_key_chars_ascend(self.model(), self.sections@, keys@);
        }
        let (pos, found) = find_slot(&keys, &nc);
        proof {
            let m = self.model();
            assert(has_key(m, name@));
            let q = choose|q: int| 0 <= q < m.len() && #[trigger] m[q].0 == name@;
            assert(keys@[q]@ == name@);
            crate::text::lemma_seq_less_trichotomy(name@, name@);
            if !found {
                if q < pos {
                    assert(crate::text::seq_less(keys@[q]@, nc@));
                } else {
                    assert(crate::text::seq_less(nc@, keys@[q]@));
                }
            }
            assert(m[pos as int].0 == name@);
            lemma_keyed_map_at(m, pos as int);
        }
        pos
    }

    /// Sets `key` to `value` in section `section`, adding the section if it
    /// is new.
    fn set_value(&mut self, section: &str, key: &str, value: &str)
        requires
            old(self).wf(),
        ensures
            final(self).wf(),
            final(self)@ == old(self)@.insert(
                section@,
                section_of(old(self)@, section@).insert(key@, value@),
            ),
    {
        self.touch_section(section);
        let ghost mid = self.model();
        let ghost mid_sections = self.sections@;
        let pos = self.section_position(section);
        let mut sec = self.sections.remove(pos);
        let ghost old_entries = sec.1@;
        assert(mid_sections[pos as int] == sec);
        assert(keys_ascending(entries_view(old_entries)));
        let ekeys = key_chars(&sec.1);
        let kc = chars_of(key);
        proof {
            crate::keyed::lemma_key_chars_ascend(entries_view(old_entries), old_entries, ekeys@);
        }
        let (epos, efound) = find_slot(&ekeys, &kc);
        let ghost ev = entries_view(old_entries);
        if efound {
            sec.1.set(epos, (key.to_owned(), value.to_owned()));
            proof {
                assert(ev[epos as int].0 == key@);
                assert(entries_view(sec.1@) =~= ev.update(epos as int, (ev[epos as int].0, value@)));
                lemma_keyed_map_update(ev, epos as int, value@);
            }
        } else {
            sec.1.insert(epos, (key.to_owned(), value.to_owned()));
            proof {
                assert(entries_view(sec.1@) =~= ev.insert(epos as int, (key@, value@)));
                assert forall|j: int| 0 <= j < epos implies crate::text::seq_less(
                    #[trigger] ev[j].0,
                    key@,
                ) by {
                    assert(ekeys@[j]@ == ev[j].0);
                }
                assert forall|j: int| epos <= j < ev.len() implies crate::text::seq_less(
                    key@,
                    #[trigger] ev[j].0,
                ) by {
                    assert(ekeys@[j]@ == ev[j].0);
                }
                lemma_keyed_map_insert(ev, epos as int, key@, value@);
            }
        }
        let ghost new_entries = sec.1@;
        self.sections.insert(pos, sec);
        proof {
            let new_map = keyed_map(ev).insert(key@, value@);
            assert(keyed_map(entries_view(new_entries)) == new_map);
            assert(self.sections@ =~= mid_sections.update(pos as int, sec));
            assert(self.model() =~= mid.update(pos as int, (mid[pos as int].0, new_map)));
            lemma_keyed_map_update(mid, pos as int, new_map);
            assert(mid[pos as int].1 == keyed_map(ev));
            assert forall|i: int| 0 <= i < self.sections@.len() implies keys_ascending(
                entries_view(#[trigger] self.sections@[i].1@),
            ) by {
                if i != pos {
                    assert(self.sections@[i] == mid_sections[i]);
                }
            }
        }
    }

    /// The value of `key` in section `section`, if both are present.
    pub fn get(&self, section: &str, key: &str) -> (r: Option<&str>)
        requires
            self.wf(),
        ensures
            r is Some <==> self@.dom().contains(section@) && self@[section@].dom().contains(key@),
            r matches Some(v) ==> v@ == self@[section@][key@],
    {
        let keys = key_chars(&self.sections);
        let nc = chars_of(section);
        proof {
            crate::keyed::lemma_key_chars_ascend(self.model(), self.sections@, keys@);
        }
        let (pos, found) = find_slot(&keys, &nc);
        if !found {
            proof {
                let m = self.model();
                if has_key(m, section@) {
                    let q = choose|q: int| 0 <= q < m.len() && #[trigger] m[q].0 == section@;
                    assert(keys@[q]@ == section@);
                    crate::text::lemma_seq_less_trichotomy(section@, section@);
                    if q < pos {
                        assert(crate::text::seq_less(keys@[q]@, nc@));
                    } else {
                        assert(crate::text::seq_less(nc@, keys@[q]@));
                    }
                }
            }
            return None;
        }
        let entries = &self.sections[pos].1;
        let ghost ev = entries_view(entries@);
        proof {
            assert(self.model()[pos as int].0 == section@);
            lemma_keyed_map_at(self.model(), pos as int);
            assert(self@[section@] == keyed_map(ev));
            assert(keys_ascending(ev));
        }
        let ekeys = key_chars(entries);
        let kc = chars_of(key);
        proof {
            crate::keyed::lemma_key_chars_ascend(ev, entries@, ekeys@);
        }
        let (epos, efound) = find_slot(&ekeys, &kc);
        if !efound {
            proof {
                if has_key(ev, key@) {
                    let q = choose|q: int| 0 <= q < ev.len() && #[trigger] ev[q].0 == key@;
                    assert(ekeys@[q]@ == key@);
                    crate::text::lemma_seq_less_trichotomy(key@, key@);
                    if q < epos {
                        assert(crate::text::seq_less(ekeys@[q]@, kc@));
                    } else {
                        assert(crate::text::seq_less(kc@, ekeys@[q]@));
                    }
                }
            }
            return None;
        }
        proof {
            assert(ev[epos as int].0 == key@);
            lemma_keyed_map_at(ev, epos as int);
        }
        Some(entries[epos].1.as_str())
    }
}

} // verus!

verus! {

/// The lines of `s`: its pieces between newline characters. Besides the
/// lines that `str::lines` yields, this has a blank last piece when `s` ends
/// with a newline, and keeps a `\r` before a newline; both are white space,
/// which the reader trims away.
pub open spec fn split_lines(s: Seq<char>) -> Seq<Seq<char>> {
    split_on(s, '\n')
}

/// Whether `c` occurs in `s`.
pub open spec fn has_char(s: Seq<char>, c: char) -> bool {
    exists|i: int| 0 <= i < s.len() && s[i] == c
}

/// The position of the first `c` in `s`.
pub open spec fn first_position(s: Seq<char>, c: char) -> int {
    choose|i: int| 0 <= i < s.len() && s[i] == c && forall|j: int| 0 <= j < i ==> s[j] != c
}

/// What a line of configuration text says.
pub enum LineKind {
    /// Nothing but white space, or a comment.
    Blank,
    /// `[name]`.
    Header(Seq<char>),
    /// `[]`, possibly with white space inside.
    EmptyHeader,
    /// `key = value`, quotes taken off the value.
    Pair(Seq<char>, Seq<char>),
    /// `= value`.
    EmptyKey,
    /// `key = "` or `key = '`: a value of a single quote.
    LoneQuote,
    /// Anything else.
    NoEquals,
}

/// Whether `v` is wrapped in a matching pair of double or single quotes
/// (a value of one quote character counts, as both its first and last).
pub open spec fn is_quoted(v: Seq<char>) -> bool {
    v.len() > 0 && ((v[0] == '"' && v.last() == '"') || (v[0] == '\'' && v.last() == '\''))
}

/// How the reader sees `before = after`, split at the first `=`.
pub open spec fn assignment_kind(before: Seq<char>, after: Seq<char>) -> LineKind {
    let key = trim(before);
    let value = trim(after);
    if key.len() == 0 {
        LineKind::EmptyKey
    } else if is_quoted(value) {
        if value.len() == 1 {
            LineKind::LoneQuote
        } else {
            LineKind::Pair(key, value.subrange(1, value.len() - 1))
        }
    } else {
        LineKind::Pair(key, value)
    }
}

/// How the reader sees one line.
pub open spec fn line_kind(line: Seq<char>) -> LineKind {
    let t = trim(line);
    if t.len() == 0 || t[0] == '#' {
        LineKind::Blank
    } else if t[0] == '[' && t.last() == ']' {
        let name = trim(t.subrange(1, t.len() - 1));
        if name.len() == 0 {
            LineKind::EmptyHeader
        } else {
            LineKind::Header(name)
        }
    } else if has_char(t, '=') {
        let e = first_position(t, '=');
        assignment_kind(t.take(e), t.skip(e + 1))
    } else {
        LineKind::NoEquals
    }
}

/// Comments and blank lines are skipped: a line that is nothing but white
/// space, or whose text after leading white space starts with `#`, leaves
/// the reader's section and configuration as they were, whatever else the
/// line holds (an `=`, brackets, quotes).
pub proof fn lemma_comments_are_skipped(
    lines: Seq<Seq<char>>,
    k: int,
    section: Seq<char>,
    m: ConfigMap,
)
    requires
        0 <= k < lines.len(),
        trim(lines[k]).len() == 0 || trim(lines[k])[0] == '#',
    ensures
        line_kind(lines[k]) == LineKind::Blank,
        parse_lines(lines, k, section, m) == parse_lines(lines, k + 1, section, m),
{
}

/// What reading a whole text gives: a configuration, an error message, or
/// a panic (slicing a lone quote).
pub enum ConfigOutcome {
    Parsed(ConfigMap),
    Failed(Seq<char>),
    Panics,
}

/// An error message about the line at index `k` (lines count from 1).
pub open spec fn line_error(k: int, what: Seq<char>) -> Seq<char> {
    "line "@ + decimal((k + 1) as nat) + what
}

/// Reads `lines` from index `k` on, inside section `section`, into `m`.
pub open spec fn parse_lines(
    lines: Seq<Seq<char>>,
    k: int,
    section: Seq<char>,
    m: ConfigMap,
) -> ConfigOutcome
    decreases lines.len() - k,
{
    if k < 0 || k >= lines.len() {
        ConfigOutcome::Parsed(m)
    } else {
        match line_kind(lines[k]) {
            LineKind::Blank => parse_lines(lines, k + 1, section, m),
            LineKind::Header(name) => parse_lines(
                lines,
                k + 1,
                name,
                if m.dom().contains(name) {
                    m
                } else {
                    m.insert(name, Map::empty())
                },
            ),
            LineKind::EmptyHeader => ConfigOutcome::Failed(line_error(k, ": empty section name"@)),
            LineKind::Pair(key, value) => parse_lines(
                lines,
                k + 1,
                section,
                m.insert(section, section_of(m, section).insert(key, value)),
            ),
            LineKind::EmptyKey => ConfigOutcome::Failed(line_error(k, ": empty key"@)),
            LineKind::LoneQuote => ConfigOutcome::Panics,
            LineKind::NoEquals => ConfigOutcome::Failed(
                line_error(k, ": expected 'key = value' or [section]"@),
            ),
        }
    }
}

/// What reading `input` gives: entries before any header go to the section
/// named by the empty string; a repeated key keeps its last value.
pub open spec fn config_spec(input: Seq<char>) -> ConfigOutcome {
    parse_lines(split_lines(input), 0, Seq::empty(), Map::empty())
}

/// A line as the reader sees it, with owned text.
enum Line {
    Blank,
    Header(String),
    EmptyHeader,
    Pair(String, String),
    EmptyKey,
    LoneQuote,
    NoEquals,
}

impl View for Line {
    type V = LineKind;

    closed spec fn view(&self) -> LineKind {
        match self {
            Line::Blank => LineKind::Blank,
            Line::Header(n) => LineKind::Header(n@),
            Line::EmptyHeader => LineKind::EmptyHeader,
            Line::Pair(k, v) => LineKind::Pair(k@, v@),
            Line::EmptyKey => LineKind::EmptyKey,
            Line::LoneQuote => LineKind::LoneQuote,
            Line::NoEquals => LineKind::NoEquals,
        }
    }
}

/// Reads one line.
fn read_line(line: &Vec<char>) -> (r: Line)
    ensures
        r@ == line_kind(line@),
{
    let n: usize = line.len();
    assert(line@.subrange(0, n as int) =~= line@);
    let (a, b) = trim_bounds(line, 0, n);
    let ghost t = line@.subrange(a as int, b as int);
    assert(t == trim(line@));
    if a == b {
        return Line::Blank;
    }
    assert(t[0] == line@[a as int]);
    assert(t.last() == line@[b - 1]);
    if line[a] == '#' {
        return Line::Blank;
    }
    if line[a] == '[' && line[b - 1] == ']' {
        assert(a + 1 <= b - 1);
        let (c, d) = trim_bounds(line, a + 1, b - 1);
        assert(line@.subrange(a + 1, b - 1) =~= t.subrange(1, t.len() - 1));
        if c == d {
            return Line::EmptyHeader;
        }
        return Line::Header(string_of_range(line, c, d));
    }
    let mut e: usize = a;
    while e < b && line[e] != '='
        invariant
            a <= e <= b <= line@.len(),
            t == line@.subrange(a as int, b as int),
            forall|j: int| 0 <= j < e - a ==> t[j] != '=',
        decreases b - e,
    {
        e = e + 1;
    }
    if e == b {
        assert(!has_char(t, '='));
        return Line::NoEquals;
    }
    let ghost ep = (e - a) as int;
    proof {
        assert(t[ep] == '=');
        assert(has_char(t, '='));
        let f = first_position(t, '=');
        assert(0 <= f < t.len() && t[f] == '=' && forall|j: int| 0 <= j < f ==> t[j] != '=');
        if f < ep {
        } else if f > ep {
            assert(t[ep] != '=');
        }
        assert(f == ep);
    }
    assert(line@.subrange(a as int, e as int) =~= t.take(ep));
    assert(line@.subrange(e as int + 1, b as int) =~= t.skip(ep + 1));
    read_assignment(line, a, e, b)
}

/// Reads `line[a..e]`, `=`, `line[e+1..b]`.
fn read_assignment(line: &Vec<char>, a: usize, e: usize, b: usize) -> (r: Line)
    requires
        a <= e < b <= line@.len(),
    ensures
        r@ == assignment_kind(
            line@.subrange(a as int, e as int),
            line@.subrange(e as int + 1, b as int),
        ),
{
    let (ks, ke) = trim_bounds(line, a, e);
    if ks == ke {
        return Line::EmptyKey;
    }
    let (vs, ve) = trim_bounds(line, e + 1, b);
    let ghost value = line@.subrange(vs as int, ve as int);
    let key = string_of_range(line, ks, ke);
    if vs < ve && ((line[vs] == '"' && line[ve - 1] == '"') || (line[vs] == '\'' && line[ve - 1]
        == '\'')) {
        assert(value[0] == line@[vs as int]);
        assert(value.last() == line@[ve - 1]);
        assert(is_quoted(value));
        if ve - vs == 1 {
            return Line::LoneQuote;
        }
        assert(line@.subrange(vs + 1, ve - 1) =~= value.subrange(1, value.len() - 1));
        return Line::Pair(key, string_of_range(line, vs + 1, ve - 1));
    }
    proof {
        if vs < ve {
            assert(value[0] == line@[vs as int]);
            assert(value.last() == line@[ve - 1]);
        }
    }
    Line::Pair(key, string_of_range(line, vs, ve))
}

/// The outcome of reading a configuration text.
pub enum ConfigParse {
    Parsed(Config),
    Failed(String),
    Panics,
}

/// `"line N"` followed by `what`, for the line at index `k`.
fn line_message(k: usize, what: &str) -> (m: String)
    requires
        k < usize::MAX,
    ensures
        m@ == line_error(k as int, what@),
{
    let mut m = "line ".to_owned();
    crate::num::push_decimal(&mut m, (k + 1) as u64);
    m.append(what);
    m
}

impl Config {
    /// Reads a configuration text; a value made of a single quote character
    /// is reported as the panic it causes.
    pub fn read(input: &str) -> (r: ConfigParse)
        ensures
            match config_spec(input@) {
                ConfigOutcome::Parsed(m) => r matches ConfigParse::Parsed(c) && c.wf() && c@ == m,
                ConfigOutcome::Failed(msg) => r matches ConfigParse::Failed(e) && e@ == msg,
                ConfigOutcome::Panics => r is Panics,
            },
    {
        let cs = chars_of(input);
        let lines = split_chars(&cs, '\n');
        let ghost lv = lines_view(lines@);
        let mut config = Config::new();
        let mut section = String::new();
        let n: usize = lines.len();
        let mut k: usize = 0;
        while k < n
            invariant
                n == lines@.len(),
                lv == lines_view(lines@),
                lv == split_lines(input@),
                k <= n,
                config.wf(),
                config_spec(input@) == parse_lines(lv, k as int, section@, config@),
            decreases n - k,
        {
            assert(lv[k as int] == lines@[k as int]@);
            match read_line(&lines[k]) {
                Line::Blank => {},
                Line::Header(name) => {
                    config.touch_section(name.as_str());
                    section = name;
                },
                Line::EmptyHeader => {
                    return ConfigParse::Failed(line_message(k, ": empty section name"));
                },
                Line::Pair(key, value) => {
                    config.set_value(section.as_str(), key.as_str(), value.as_str());
                },
                Line::EmptyKey => {
                    return ConfigParse::Failed(line_message(k, ": empty key"));
                },
                Line::LoneQuote => {
                    return ConfigParse::Panics;
                },
                Line::NoEquals => {
                    return ConfigParse::Failed(
                        line_message(k, ": expected 'key = value' or [section]"),
                    );
                },
            }
            k = k + 1;
        }
        ConfigParse::Parsed(config)
    }

    /// Reads a configuration text that has no value made of a single quote.
    pub fn parse(input: &str) -> (r: Result<Config, String>)
        requires
            !(config_spec(input@) is Panics),
        ensures
            match config_spec(input@) {
                ConfigOutcome::Parsed(m) => r matches Ok(c) && c.wf() && c@ == m,
                ConfigOutcome::Failed(msg) => r matches Err(e) && e@ == msg,
                ConfigOutcome::Panics => false,
            },
    {
        match Self::read(input) {
            ConfigParse::Parsed(c) => Ok(c),
            ConfigParse::Failed(e) => Err(e),
            ConfigParse::Panics => Err(String::new()),
        }
    }
}

/// The text of entries: one `key = value` line each, in order.
pub open spec fn render_entries(es: Seq<(Seq<char>, Seq<char>)>) -> Seq<char>
    decreases es.len(),
{
    if es.len() == 0 {
        Seq::empty()
    } else {
        render_entries(es.drop_last()) + es.last().0 + " = "@ + es.last().1 + "\n"@
    }
}

/// The text of sections: for each, its `[name]` line, its entries and a
/// blank line, in order.
pub open spec fn render_sections(ss: Seq<(Seq<char>, Seq<(Seq<char>, Seq<char>)>)>) -> Seq<char>
    decreases ss.len(),
{
    if ss.len() == 0 {
        Seq::empty()
    } else {
        render_sections(ss.drop_last()) + "["@ + ss.last().0 + "]\n"@ + render_entries(ss.last().1)
            + "\n"@
    }
}

impl Config {
    /// The sections in stored order, each with its entries in stored order;
    /// for a well-formed configuration, names and keys ascend.
    pub open spec fn layout(&self) -> Seq<(Seq<char>, Seq<(Seq<char>, Seq<char>)>)> {
        self.sections@.map_values(
            |s: (String, Vec<(String, String)>)| (s.0@, entries_view(s.1@)),
        )
    }

    /// The configuration as text: sections by ascending name, each with its
    /// keys in ascending order.
    pub fn to_string(&self) -> (s: String)
        requires
            self.wf(),
        ensures
            s@ == render_sections(self.layout()),
    {
        let mut out = String::new();
        let n: usize = self.sections.len();
        let mut i: usize = 0;
        let ghost lay = self.layout();
        assert(lay.take(0) =~= Seq::<(Seq<char>, Seq<(Seq<char>, Seq<char>)>)>::empty());
        while i < n
            invariant
                n == self.sections@.len(),
                lay == self.layout(),
                i <= n,
                out@ == render_sections(lay.take(i as int)),
            decreases n - i,
        {
            let name: &str = self.sections[i].0.as_str();
            let entries = &self.sections[i].1;
            let ghost ev = entries_view(entries@);
            assert(lay[i as int] == (name@, ev));
            out.append("[");
            out.append(name);
            out.append("]\n");
            let ghost head = out@;
            let m: usize = entries.len();
            let mut j: usize = 0;
            assert(ev.take(0) =~= Seq::<(Seq<char>, Seq<char>)>::empty());
            assert(head =~= head + render_entries(ev.take(0)));
            while j < m
                invariant
                    m == entries@.len(),
                    ev == entries_view(entries@),
                    j <= m,
                    out@ == head + render_entries(ev.take(j as int)),
                decreases m - j,
            {
                out.append(entries[j].0.as_str());
                out.append(" = ");
                out.append(entries[j].1.as_str());
                out.append("\n");
                assert(ev.take(j as int + 1).drop_last() =~= ev.take(j as int));
                assert(ev[j as int] == (entries@[j as int].0@, entries@[j as int].1@));
                assert(out@ =~= head + render_entries(ev.take(j as int + 1)));
                j = j + 1;
            }
            assert(ev.take(m as int) =~= ev);
            out.append("\n");
            assert(lay.take(i as int + 1).drop_last() =~= lay.take(i as int));
            assert(out@ =~= render_sections(lay.take(i as int + 1)));
            i = i + 1;
        }
        assert(lay.take(n as int) =~= lay);
        out
    }
}

/// Two well-formed configurations with the same contents are laid out
/// alike: names and keys in ascending order leave no choice.
pub proof fn lemma_contents_determine_layout(c1: &Config, c2: &Config)
    requires
        c1.wf(),
        c2.wf(),
        c1@ == c2@,
    ensures
        c1.layout() == c2.layout(),
{
    crate::keyed::lemma_ascending_unique(c1.model(), c2.model());
    let l1 = c1.layout();
    let l2 = c2.layout();
    assert(c1.model().len() == c2.model().len());
    assert forall|i: int| 0 <= i < l1.len() implies l1[i] == l2[i] by {
        assert(c1.model()[i] == c2.model()[i]);
        assert(keys_ascending(entries_view(c1.sections@[i].1@)));
        assert(keys_ascending(entries_view(c2.sections@[i].1@)));
        crate::keyed::lemma_ascending_unique(
            entries_view(c1.sections@[i].1@),
            entries_view(c2.sections@[i].1@),
        );
    }
    assert(l1 =~= l2);
}

/// The text of a configuration depends on its contents alone: two
/// well-formed configurations holding the same sections and entries print
/// alike.
pub proof fn lemma_text_determined_by_contents(c1: &Config, c2: &Config)
    requires
        c1.wf(),
        c2.wf(),
        c1@ == c2@,
    ensures
        render_sections(c1.layout()) == render_sections(c2.layout()),
{
    lemma_contents_determine_layout(c1, c2);
}

} // verus!
