//! The credentials text: sections headed by `[name]`, settings written
//! `key = value`, and comments.
//!
//! A line is trimmed before it is read. An empty line and a line that starts
//! with `;` or `#` say nothing. A line in square brackets opens a section. Any
//! other line with a `=` is a setting of the open section; a later setting
//! under the same key replaces the earlier one. A section counts when its
//! settings make a complete credential set, and of two such sections of one
//! name the later counts.

use crate::config::{
    is_complete, is_trimmed, lemma_validated_fields_are_trimmed, outcome, validated, Credentials,
    EdgeGridConfig, MAX_BODY,
};
use crate::error::{EdgeGridError, Failure};
use crate::table::TextMap;
use crate::text::{
    chars_of, decimal_usize, find_char, find_in, parse_decimal, range_is, text_of, trim,
    trim_range,
};
use vstd::prelude::*;

verus! {

/// What one line of the text says.
pub enum LineKind {
    /// Nothing: an empty line, a comment, or a line without `=`.
    Ignored,
    /// A section opens under this name.
    Section(Seq<char>),
    /// The open section has this value under this key.
    Setting(Seq<char>, Seq<char>),
}

/// How far the reading of a text has come.
pub struct Progress {
    /// The name of the open section.
    pub section: Option<Seq<char>>,
    /// The settings of the open section.
    pub values: Map<Seq<char>, Seq<char>>,
    /// The sections that are closed and count.
    pub sections: Map<Seq<char>, Credentials>,
}

/// `s` without the pair of quotes around it, double or single.
pub open spec fn unquoted(s: Seq<char>) -> Seq<char> {
    if s.len() >= 2 && ((s.first() == '"' && s.last() == '"') || (s.first() == '\''
        && s.last() == '\'')) {
        s.subrange(1, s.len() - 1)
    } else {
        s
    }
}

/// `s` up to its first `;`, trimmed; all of `s` where it holds none.
pub open spec fn without_comment(s: Seq<char>) -> Seq<char> {
    match find_char(s, ';') {
        Some(i) => trim(s.take(i)),
        None => s,
    }
}

/// The value that the text `s` right of a `=` stands for: trimmed, freed of
/// quotes, and cut at an inline comment.
pub open spec fn value_of(s: Seq<char>) -> Seq<char> {
    without_comment(unquoted(trim(s)))
}

/// The key that the text `s` left of a `=` stands for: trimmed, with
/// `max-body` read as `max_body`.
pub open spec fn key_of(s: Seq<char>) -> Seq<char> {
    if trim(s) == "max-body"@ {
        "max_body"@
    } else {
        trim(s)
    }
}

/// What the line `line` says.
pub open spec fn read_line(line: Seq<char>) -> LineKind {
    let t = trim(line);
    if t.len() == 0 || t.first() == ';' || t.first() == '#' {
        LineKind::Ignored
    } else if t.first() == '[' && t.last() == ']' {
        LineKind::Section(t.subrange(1, t.len() - 1))
    } else {
        match find_char(t, '=') {
            Some(i) => LineKind::Setting(key_of(t.take(i)), value_of(trim(t.skip(i + 1)))),
            None => LineKind::Ignored,
        }
    }
}

/// The lines of `s`: the pieces between its line feeds.
pub open spec fn split_lines(s: Seq<char>) -> Seq<Seq<char>>
    decreases s.len(),
{
    if s.len() == 0 {
        seq![Seq::<char>::empty()]
    } else {
        let before = split_lines(s.drop_last());
        if s.last() == '\n' {
            before.push(Seq::<char>::empty())
        } else {
            before.update(before.len() - 1, before.last().push(s.last()))
        }
    }
}

/// The value under `key`, or the empty text.
pub open spec fn setting(values: Map<Seq<char>, Seq<char>>, key: Seq<char>) -> Seq<char> {
    if values.dom().contains(key) {
        values[key]
    } else {
        Seq::<char>::empty()
    }
}

/// The credential set that the settings of a section describe, before it is
/// validated. A body limit that is no decimal number counts as not given.
pub open spec fn section_credentials(values: Map<Seq<char>, Seq<char>>) -> Credentials {
    Credentials {
        client_token: setting(values, "client_token"@),
        client_secret: setting(values, "client_secret"@),
        access_token: setting(values, "access_token"@),
        host: setting(values, "host"@),
        max_body: if values.dom().contains("max_body"@) {
            match decimal_usize(values["max_body"@]) {
                Some(n) => n,
                None => MAX_BODY,
            }
        } else {
            MAX_BODY
        },
        debug: false,
        account_switch_key: if values.dom().contains("account_switch_key"@) {
            Some(values["account_switch_key"@])
        } else {
            None
        },
    }
}

/// The validated credential set of a section, or what it lacks.
pub open spec fn section_config(values: Map<Seq<char>, Seq<char>>) -> Result<
    Credentials,
    Failure,
> {
    validated(section_credentials(values))
}

/// The sections that count once the open section is closed.
pub open spec fn closed_sections(p: Progress) -> Map<Seq<char>, Credentials> {
    match p.section {
        Some(name) => match section_config(p.values) {
            Ok(c) => p.sections.insert(name, c),
            Err(_) => p.sections,
        },
        None => p.sections,
    }
}

/// The progress after one more line.
pub open spec fn advance(p: Progress, line: Seq<char>) -> Progress {
    match read_line(line) {
        LineKind::Ignored => p,
        LineKind::Section(name) => Progress {
            section: Some(name),
            values: Map::empty(),
            sections: closed_sections(p),
        },
        LineKind::Setting(key, value) => Progress { values: p.values.insert(key, value), ..p },
    }
}

/// The progress after the lines `lines`, read in order from nothing.
pub open spec fn read_lines(lines: Seq<Seq<char>>) -> Progress
    decreases lines.len(),
{
    if lines.len() == 0 {
        Progress { section: None, values: Map::empty(), sections: Map::empty() }
    } else {
        advance(read_lines(lines.drop_last()), lines.last())
    }
}

/// The sections of the text `content` that count, by name.
pub open spec fn edgerc_sections(content: Seq<char>) -> Map<Seq<char>, Credentials> {
    closed_sections(read_lines(split_lines(content)))
}

/// What `EdgeGridConfig::from_edgerc` makes of the text `content` for the
/// section `section`.
pub open spec fn edgerc_credentials(content: Seq<char>, section: Seq<char>) -> Result<
    Credentials,
    Failure,
> {
    let sections = edgerc_sections(content);
    if sections == Map::<Seq<char>, Credentials>::empty() {
        Err(Failure::Config("No valid sections found in .edgerc"@))
    } else if !sections.dom().contains(section) {
        Err(Failure::InvalidSection(section))
    } else {
        validated(sections[section])
    }
}

/// One line as the parser holds it.
enum Line {
    Ignored,
    Section(String),
    Setting(String, String),
}

impl View for Line {
    type V = LineKind;

    closed spec fn view(&self) -> LineKind {
        match self {
            Line::Ignored => LineKind::Ignored,
            Line::Section(name) => LineKind::Section(name@),
            Line::Setting(key, value) => LineKind::Setting(key@, value@),
        }
    }
}

/// The value that `v[lo..hi]` stands for.
fn value_in(v: &Vec<char>, lo: usize, hi: usize) -> (r: String)
    requires
        lo <= hi <= v.len(),
    ensures
        r@ == value_of(v@.subrange(lo as int, hi as int)),
{
    let (a, b) = trim_range(v, lo, hi);
    let ghost t = v@.subrange(a as int, b as int);
    let quoted = b - a >= 2 && ((v[a] == '"' && v[b - 1] == '"') || (v[a] == '\'' && v[b - 1]
        == '\''));
    let (a2, b2) = if quoted {
        (a + 1, b - 1)
    } else {
        (a, b)
    };
    let ghost u = v@.subrange(a2 as int, b2 as int);
    proof {
        if b - a >= 2 {
            assert(t.first() == v@[a as int]);
            assert(t.last() == v@[b - 1]);
        }
        if quoted {
            assert(t.subrange(1, t.len() - 1) =~= u);
        }
        assert(u == unquoted(t));
    }
    match find_in(v, a2, b2, ';') {
        Some(k) => {
            let (c, d) = trim_range(v, a2, k);
            proof {
                assert(u.take(k - a2) =~= v@.subrange(a2 as int, k as int));
            }
            text_of(v, c, d)
        },
        None => text_of(v, a2, b2),
    }
}

/// The value that the text right of a `=` stands for: trimmed, freed of a
/// pair of quotes around it, and cut at the first `;`, which starts a comment.
pub fn parse_value(value: &str) -> (r: String)
    ensures
        r@ == value_of(value@),
{
    let v = chars_of(value);
    proof {
        assert(v@.subrange(0, v.len() as int) =~= value@);
    }
    value_in(&v, 0, v.len())
}

/// What the line `v[lo..hi]` says.
fn line_at(v: &Vec<char>, lo: usize, hi: usize) -> (r: Line)
    requires
        lo <= hi <= v.len(),
    ensures
        r@ == read_line(v@.subrange(lo as int, hi as int)),
{
    let (a, b) = trim_range(v, lo, hi);
    let ghost t = v@.subrange(a as int, b as int);
    if a == b {
        return Line::Ignored;
    }
    proof {
        assert(t.first() == v@[a as int]);
        assert(t.last() == v@[b - 1]);
    }
    let first = v[a];
    if first == ';' || first == '#' {
        return Line::Ignored;
    }
    if first == '[' && v[b - 1] == ']' {
        proof {
            assert(t.subrange(1, t.len() - 1) =~= v@.subrange(a + 1, b - 1));
        }
        return Line::Section(text_of(v, a + 1, b - 1));
    }
    match find_in(v, a, b, '=') {
        Some(k) => {
            let (ka, kb) = trim_range(v, a, k);
            let key = if range_is(v, ka, kb, "max-body") {
                "max_body".to_string()
            } else {
                text_of(v, ka, kb)
            };
            let (va, vb) = trim_range(v, k + 1, b);
            let value = value_in(v, va, vb);
            proof {
                assert(t.take(k - a) =~= v@.subrange(a as int, k as int));
                assert(t.skip(k - a + 1) =~= v@.subrange(k + 1, b as int));
            }
            Line::Setting(key, value)
        },
        None => Line::Ignored,
    }
}

/// The bounds of the lines of `v`, in order.
fn line_ranges(v: &Vec<char>) -> (r: Vec<(usize, usize)>)
    ensures
        r@.len() == split_lines(v@).len(),
        forall|k: int|
            0 <= k < r@.len() ==> (#[trigger] r@[k]).0 <= r@[k].1 <= v.len() && v@.subrange(
                r@[k].0 as int,
                r@[k].1 as int,
            ) == split_lines(v@)[k],
{
    let mut ranges: Vec<(usize, usize)> = Vec::new();
    let mut start: usize = 0;
    let mut i: usize = 0;
    proof {
        assert(v@.take(0) =~= Seq::<char>::empty());
        assert(v@.subrange(0, 0) =~= Seq::<char>::empty());
    }
    while i < v.len()
        invariant
            start <= i <= v.len(),
            split_lines(v@.take(i as int)).len() == ranges@.len() + 1,
            split_lines(v@.take(i as int)).last() == v@.subrange(start as int, i as int),
            forall|k: int|
                0 <= k < ranges@.len() ==> (#[trigger] ranges@[k]).0 <= ranges@[k].1 <= v.len()
                    && v@.subrange(ranges@[k].0 as int, ranges@[k].1 as int) == split_lines(
                    v@.take(i as int),
                )[k],
        decreases v.len() - i,
    {
        let ghost before = split_lines(v@.take(i as int));
        let ghost after = split_lines(v@.take(i + 1));
        proof {
            assert(v@.take(i + 1).drop_last() =~= v@.take(i as int));
            assert(v@.take(i + 1).last() == v@[i as int]);
        }
        if v[i] == '\n' {
            ranges.push((start, i));
            start = i + 1;
            proof {
                assert(after == before.push(Seq::<char>::empty()));
                assert(v@.subrange(i + 1, i + 1) =~= Seq::<char>::empty());
            }
        } else {
            proof {
                assert(after == before.update(
                    before.len() - 1,
                    before.last().push(v@[i as int]),
                ));
                assert(v@.subrange(start as int, i as int).push(v@[i as int]) =~= v@.subrange(
                    start as int,
                    i + 1,
                ));
            }
        }
        i += 1;
    }
    proof {
        assert(v@.take(v.len() as int) =~= v@);
    }
    ranges.push((start, i));
    ranges
}

/// The credential set that the settings of a section describe, validated: the
/// four identity fields under `client_token`, `client_secret`, `access_token`
/// and `host`, the body limit under `max_body`, and the account under
/// `account_switch_key`.
pub fn parse_section_config(values: &TextMap<String>) -> (r: Result<EdgeGridConfig, EdgeGridError>)
    ensures
        outcome(r) == section_config(values@),
{
    let client_token = match values.get("client_token") {
        Some(s) => s.clone(),
        None => String::new(),
    };
    let client_secret = match values.get("client_secret") {
        Some(s) => s.clone(),
        None => String::new(),
    };
    let access_token = match values.get("access_token") {
        Some(s) => s.clone(),
        None => String::new(),
    };
    let host = match values.get("host") {
        Some(s) => s.clone(),
        None => String::new(),
    };
    let max_body = match values.get("max_body") {
        Some(s) => {
            let digits = chars_of(s.as_str());
            proof {
                assert(digits@.subrange(0, digits.len() as int) =~= s@);
            }
            match parse_decimal(&digits, 0, digits.len()) {
                Some(n) => n,
                None => MAX_BODY,
            }
        },
        None => MAX_BODY,
    };
    let account_switch_key = match values.get("account_switch_key") {
        Some(s) => Some(s.clone()),
        None => None,
    };
    let config = EdgeGridConfig {
        client_token,
        client_secret,
        access_token,
        host,
        max_body,
        debug: false,
        account_switch_key,
    };
    assert(config@ == section_credentials(values@));
    EdgeGridConfig::validate_config(config)
}

/// Closes the open section: it joins `sections` where its settings make a
/// complete credential set.
fn close_section(
    section: Option<String>,
    values: &TextMap<String>,
    sections: &mut TextMap<EdgeGridConfig>,
)
    ensures
        final(sections)@ == closed_sections(
            Progress {
                section: crate::config::text_view(section),
                values: values@,
                sections: old(sections)@,
            },
        ),
{
    match section {
        Some(name) => {
            match parse_section_config(values) {
                Ok(config) => {
                    sections.insert(name, config);
                },
                Err(_) => {},
            }
        },
        None => {},
    }
}

/// The sections of the credentials text `content` that count, by name. A text
/// without any such section is refused.
pub fn parse_edgerc(content: &str) -> (r: Result<TextMap<EdgeGridConfig>, EdgeGridError>)
    ensures
        match r {
            Ok(sections) => sections@ == edgerc_sections(content@) && sections@ != Map::<
                Seq<char>,
                Credentials,
            >::empty(),
            Err(e) => edgerc_sections(content@) == Map::<Seq<char>, Credentials>::empty() && e@
                == Failure::Config("No valid sections found in .edgerc"@),
        },
{
    let v = chars_of(content);
    let lines = line_ranges(&v);
    let ghost texts = split_lines(v@);
    let mut sections: TextMap<EdgeGridConfig> = TextMap::new();
    let mut values: TextMap<String> = TextMap::new();
    let mut section: Option<String> = None;
    let mut i: usize = 0;
    proof {
        assert(texts.take(0) =~= Seq::<Seq<char>>::empty());
    }
    while i < lines.len()
        invariant
            i <= lines.len(),
            texts == split_lines(v@),
            lines@.len() == texts.len(),
            forall|k: int|
                0 <= k < lines@.len() ==> (#[trigger] lines@[k]).0 <= lines@[k].1 <= v.len()
                    && v@.subrange(lines@[k].0 as int, lines@[k].1 as int) == texts[k],
            crate::config::text_view(section) == read_lines(texts.take(i as int)).section,
            values@ == read_lines(texts.take(i as int)).values,
            sections@ == read_lines(texts.take(i as int)).sections,
        decreases lines.len() - i,
    {
        let ghost before = read_lines(texts.take(i as int));
        proof {
            assert(texts.take(i + 1).drop_last() =~= texts.take(i as int));
            assert(texts.take(i + 1).last() == texts[i as int]);
            assert(read_lines(texts.take(i + 1)) == advance(before, texts[i as int]));
        }
        let (lo, hi) = lines[i];
        match line_at(&v, lo, hi) {
            Line::Ignored => {},
            Line::Section(name) => {
                let open = section;
                close_section(open, &values, &mut sections);
                section = Some(name);
                values.clear();
            },
            Line::Setting(key, value) => {
                values.insert(key, value);
            },
        }
        i += 1;
    }
    proof {
        assert(texts.take(lines.len() as int) =~= texts);
    }
    close_section(section, &values, &mut sections);
    if sections.is_empty() {
        Err(EdgeGridError::Config("No valid sections found in .edgerc".to_string()))
    } else {
        Ok(sections)
    }
}

impl EdgeGridConfig {
    /// The credential set that the credentials text `content` holds under the
    /// section `section`, validated.
    pub fn from_edgerc(content: &str, section: &str) -> (r: Result<Self, EdgeGridError>)
        ensures
            outcome(r) == edgerc_credentials(content@, section@),
    {
        let sections = match parse_edgerc(content) {
            Ok(sections) => sections,
            Err(e) => {
                return Err(e);
            },
        };
        match sections.get(section) {
            Some(config) => EdgeGridConfig::validate_config(config.clone()),
            None => Err(EdgeGridError::InvalidSection(section.to_string())),
        }
    }
}

/// Whether `v` is what validation makes of some credential set.
pub open spec fn is_validated(v: Credentials) -> bool {
    exists|c: Credentials| #[trigger] validated(c) == Ok::<Credentials, Failure>(v)
}

/// Whether every section of `sections` is a validated credential set.
pub open spec fn all_validated(sections: Map<Seq<char>, Credentials>) -> bool {
    forall|name: Seq<char>| sections.dom().contains(name) ==> is_validated(#[trigger] sections[name])
}

/// Closing the open section keeps every section validated.
proof fn lemma_closed_sections_are_validated(p: Progress)
    requires
        all_validated(p.sections),
    ensures
        all_validated(closed_sections(p)),
{
    match p.section {
        Some(name) => {
            let c = section_credentials(p.values);
            match validated(c) {
                Ok(v) => {
                    assert(is_validated(v));
                    assert forall|n: Seq<char>| closed_sections(p).dom().contains(n) implies is_validated(
                        #[trigger] closed_sections(p)[n],
                    ) by {
                        if n != name {
                            assert(p.sections.dom().contains(n));
                        }
                    }
                },
                Err(_) => {},
            }
        },
        None => {},
    }
}

/// Reading lines keeps every section validated.
proof fn lemma_read_sections_are_validated(lines: Seq<Seq<char>>)
    ensures
        all_validated(read_lines(lines).sections),
    decreases lines.len(),
{
    if lines.len() > 0 {
        lemma_read_sections_are_validated(lines.drop_last());
        lemma_closed_sections_are_validated(read_lines(lines.drop_last()));
    }
}

/// Every section that a credentials text holds is a validated credential
/// set: its four identity fields are not empty and trimmed, and its host
/// starts with the scheme `https://`.
pub proof fn lemma_sections_are_validated(content: Seq<char>, name: Seq<char>)
    requires
        edgerc_sections(content).dom().contains(name),
    ensures
        is_complete(edgerc_sections(content)[name]),
        is_trimmed(edgerc_sections(content)[name].client_token),
        is_trimmed(edgerc_sections(content)[name].client_secret),
        is_trimmed(edgerc_sections(content)[name].access_token),
        is_trimmed(edgerc_sections(content)[name].host),
        "https://"@.is_prefix_of(edgerc_sections(content)[name].host),
{
    let p = read_lines(split_lines(content));
    lemma_read_sections_are_validated(split_lines(content));
    lemma_closed_sections_are_validated(p);
    let v = edgerc_sections(content)[name];
    assert(is_validated(v));
    let c = choose|c: Credentials| #[trigger] validated(c) == Ok::<Credentials, Failure>(v);
    lemma_validated_fields_are_trimmed(c);
}

} // verus!
