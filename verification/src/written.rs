//! Credentials text written from a credential set, and read back.

use crate::config::{
    missing_field, normalized, validated, with_scheme, without_final_slash, Credentials, MAX_BODY,
};
use crate::edgerc::{
    advance, closed_sections, edgerc_credentials, edgerc_sections, read_line, read_lines,
    section_config, section_credentials, setting, split_lines, unquoted, value_of, LineKind,
};
use crate::error::Failure;
use crate::text::{
    is_whitespace, lemma_find_char_at, lemma_find_char_none, trim, trim_end, trim_start,
};
use vstd::prelude::*;

verus! {

/// Whether `v` can be written as a value and read back as it is: it is not
/// empty, neither starts nor ends with white space, holds no line feed and
/// no `;`, and does not stand in quotes.
pub open spec fn is_plain_value(v: Seq<char>) -> bool {
    &&& v.len() > 0
    &&& !is_whitespace(v.first())
    &&& !is_whitespace(v.last())
    &&& forall|i: int| 0 <= i < v.len() ==> #[trigger] v[i] != '\n' && v[i] != ';'
    &&& unquoted(v) == v
}

/// Whether `name` can be written as the name of a section: it holds no line
/// feed.
pub open spec fn is_plain_name(name: Seq<char>) -> bool {
    forall|i: int| 0 <= i < name.len() ==> #[trigger] name[i] != '\n'
}

/// The line that opens the section `name`.
pub open spec fn header_text(name: Seq<char>) -> Seq<char> {
    seq!['['] + name + seq![']']
}

/// The line that sets `key` to `value`.
pub open spec fn setting_text(key: Seq<char>, value: Seq<char>) -> Seq<char> {
    key + seq![' ', '=', ' '] + value
}

/// The lines of the section `name` written from the four identity fields of
/// `c`.
pub open spec fn section_lines(name: Seq<char>, c: Credentials) -> Seq<Seq<char>> {
    seq![
        header_text(name),
        setting_text("client_token"@, c.client_token),
        setting_text("client_secret"@, c.client_secret),
        setting_text("access_token"@, c.access_token),
        setting_text("host"@, c.host),
    ]
}

/// `lines`, each followed by a line feed.
pub open spec fn lines_text(lines: Seq<Seq<char>>) -> Seq<char>
    decreases lines.len(),
{
    if lines.len() == 0 {
        Seq::<char>::empty()
    } else {
        lines_text(lines.drop_last()) + lines.last() + seq!['\n']
    }
}

/// The text of the section `name` written from the four identity fields of
/// `c`: the line `[name]`, then `client_token = ..`, `client_secret = ..`,
/// `access_token = ..` and `host = ..`, each line closed by a line feed.
pub open spec fn section_text(name: Seq<char>, c: Credentials) -> Seq<char> {
    lines_text(section_lines(name, c))
}

/// Whether `key` is one of the four keys under which the identity fields are
/// written.
pub open spec fn is_identity_key(key: Seq<char>) -> bool {
    key == "client_token"@ || key == "client_secret"@ || key == "access_token"@ || key == "host"@
}

/// A text that neither starts nor ends with white space is its own trimmed
/// form.
pub proof fn lemma_trim_of_tight(v: Seq<char>)
    requires
        v.len() > 0,
        !is_whitespace(v.first()),
        !is_whitespace(v.last()),
    ensures
        trim(v) == v,
{
}

/// White space in front of a text that does not start with white space is
/// all that `trim_start` drops.
proof fn lemma_trim_start_space(v: Seq<char>)
    requires
        v.len() > 0,
        !is_whitespace(v.first()),
    ensures
        trim_start(seq![' '] + v) == v,
{
    let s = seq![' '] + v;
    assert(s.first() == ' ');
    assert(s.drop_first() =~= v);
    assert(trim_start(v) == v);
}

/// White space behind a text that does not end with white space is all that
/// `trim_end` drops.
proof fn lemma_trim_end_space(v: Seq<char>)
    requires
        v.len() > 0,
        !is_whitespace(v.last()),
    ensures
        trim_end(v + seq![' ']) == v,
{
    let s = v + seq![' '];
    assert(s.last() == ' ');
    assert(s.drop_last() =~= v);
    assert(trim_end(v) == v);
}

/// What is known of the four keys: each is made of letters and `_`, and no
/// two of them, nor `max_body` or `account_switch_key`, are the same.
proof fn lemma_identity_keys(key: Seq<char>)
    requires
        is_identity_key(key),
    ensures
        key.len() >= 4,
        forall|i: int|
            0 <= i < key.len() ==> !is_whitespace(#[trigger] key[i]) && key[i] != '=' && key[i]
                != '\n',
        key.first() != ';' && key.first() != '#' && key.first() != '[',
        key != "max-body"@,
        key != "max_body"@,
        key != "account_switch_key"@,
        "client_token"@ != "client_secret"@,
        "client_token"@ != "access_token"@,
        "client_token"@ != "host"@,
        "client_secret"@ != "access_token"@,
        "client_secret"@ != "host"@,
        "access_token"@ != "host"@,
{
    reveal_strlit("client_token");
    reveal_strlit("client_secret");
    reveal_strlit("access_token");
    reveal_strlit("host");
    reveal_strlit("max-body");
    reveal_strlit("max_body");
    reveal_strlit("account_switch_key");
    assert("client_token"@[0] != "access_token"@[0]);
    assert("client_token"@.len() != "client_secret"@.len());
    if key == "client_token"@ || key == "access_token"@ {
        assert(key.len() == 12);
    }
}

/// A line written as a setting under one of the four keys is read as that
/// setting.
pub proof fn lemma_setting_is_read(key: Seq<char>, value: Seq<char>)
    requires
        is_identity_key(key),
        is_plain_value(value),
    ensures
        read_line(setting_text(key, value)) == LineKind::Setting(key, value),
        forall|i: int|
            0 <= i < setting_text(key, value).len() ==> #[trigger] setting_text(key, value)[i]
                != '\n',
{
    lemma_identity_keys(key);
    let line = setting_text(key, value);
    let n = key.len() as int;
    assert(line.first() == key[0]);
    assert(line.last() == value.last());
    lemma_trim_of_tight(line);
    assert forall|i: int| 0 <= i < n + 1 implies #[trigger] line[i] != '=' by {
        if i < n {
            assert(line[i] == key[i]);
        }
    }
    assert(line[n + 1] == '=');
    lemma_find_char_at(line, '=', n + 1);
    assert(line.take(n + 1) =~= key + seq![' ']);
    assert(line.skip(n + 2) =~= seq![' '] + value);
    assert(key.last() == key[n - 1]);
    lemma_trim_end_space(key);
    assert(trim_start(key + seq![' ']) == key + seq![' ']) by {
        assert((key + seq![' ']).first() == key[0]);
    }
    assert(trim(key + seq![' ']) == key);
    lemma_trim_start_space(value);
    assert(trim(seq![' '] + value) == value);
    lemma_trim_of_tight(value);
    lemma_find_char_none(value, ';');
    assert(value_of(value) == value);
    assert forall|i: int| 0 <= i < line.len() implies #[trigger] line[i] != '\n' by {
        if i < n {
            assert(line[i] == key[i]);
        } else if i >= n + 3 {
            assert(line[i] == value[i - n - 3]);
        }
    }
}

/// A line written as the header of a section is read as that header.
pub proof fn lemma_header_is_read(name: Seq<char>)
    requires
        is_plain_name(name),
    ensures
        read_line(header_text(name)) == LineKind::Section(name),
        forall|i: int|
            0 <= i < header_text(name).len() ==> #[trigger] header_text(name)[i] != '\n',
{
    let line = header_text(name);
    assert(line.first() == '[');
    assert(line.last() == ']');
    lemma_trim_of_tight(line);
    assert(line.subrange(1, line.len() - 1) =~= name);
    assert forall|i: int| 0 <= i < line.len() implies #[trigger] line[i] != '\n' by {
        if 0 < i < line.len() - 1 {
            assert(line[i] == name[i - 1]);
        }
    }
}

/// A text without a line feed, put behind `s`, only makes the last line of
/// `s` longer.
pub proof fn lemma_split_lines_grow(s: Seq<char>, more: Seq<char>)
    requires
        forall|i: int| 0 <= i < more.len() ==> #[trigger] more[i] != '\n',
    ensures
        split_lines(s).len() > 0,
        split_lines(s + more) == split_lines(s).update(
            split_lines(s).len() - 1,
            split_lines(s).last() + more,
        ),
    decreases more.len(),
{
    lemma_split_lines_not_empty(s);
    let lines = split_lines(s);
    if more.len() == 0 {
        assert(s + more =~= s);
        assert(lines.last() + more =~= lines.last());
        assert(lines.update(lines.len() - 1, lines.last()) =~= lines);
    } else {
        let front = more.drop_last();
        assert forall|i: int| 0 <= i < front.len() implies #[trigger] front[i] != '\n' by {
            assert(front[i] == more[i]);
        }
        lemma_split_lines_grow(s, front);
        let whole = s + more;
        assert(whole.drop_last() =~= s + front);
        assert(whole.last() == more.last());
        assert(more.last() == more[more.len() - 1]);
        let before = split_lines(s + front);
        assert(before.last() == lines.last() + front);
        assert(lines.last() + front.push(more.last()) =~= (lines.last() + front).push(
            more.last(),
        ));
        assert(front.push(more.last()) =~= more);
        assert(before.update(before.len() - 1, before.last().push(more.last())) =~= lines.update(
            lines.len() - 1,
            lines.last() + more,
        ));
    }
}

/// Every text has a line, if only the empty one.
pub proof fn lemma_split_lines_not_empty(s: Seq<char>)
    ensures
        split_lines(s).len() > 0,
    decreases s.len(),
{
    if s.len() > 0 {
        lemma_split_lines_not_empty(s.drop_last());
    }
}

/// The lines of a text written line by line are those lines, and an empty
/// one behind the last line feed.
pub proof fn lemma_split_lines_of_written(lines: Seq<Seq<char>>)
    requires
        forall|k: int, i: int|
            0 <= k < lines.len() && 0 <= i < lines[k].len() ==> #[trigger] lines[k][i] != '\n',
    ensures
        split_lines(lines_text(lines)) == lines.push(Seq::<char>::empty()),
    decreases lines.len(),
{
    if lines.len() == 0 {
        assert(split_lines(lines_text(lines)) =~= lines.push(Seq::<char>::empty()));
    } else {
        let front = lines.drop_last();
        let last = lines.last();
        assert forall|k: int, i: int|
            0 <= k < front.len() && 0 <= i < front[k].len() implies #[trigger] front[k][i]
            != '\n' by {
            assert(front[k] == lines[k]);
        }
        lemma_split_lines_of_written(front);
        let s = lines_text(front);
        assert forall|i: int| 0 <= i < last.len() implies #[trigger] last[i] != '\n' by {
            assert(lines[lines.len() - 1][i] != '\n');
        }
        lemma_split_lines_grow(s, last);
        let grown = s + last;
        let whole = grown + seq!['\n'];
        assert(whole.drop_last() =~= grown);
        assert(whole.last() == '\n');
        assert(Seq::<char>::empty() + last =~= last);
        assert(split_lines(whole) =~= lines.push(Seq::<char>::empty()));
    }
}

/// The settings that a written section holds.
pub open spec fn written_values(c: Credentials) -> Map<Seq<char>, Seq<char>> {
    Map::<Seq<char>, Seq<char>>::empty().insert("client_token"@, c.client_token).insert(
        "client_secret"@,
        c.client_secret,
    ).insert("access_token"@, c.access_token).insert("host"@, c.host)
}

/// What is read back of a credential set: its four identity fields, with
/// everything else as a fresh set has it.
pub open spec fn read_back(c: Credentials) -> Credentials {
    Credentials {
        client_token: c.client_token,
        client_secret: c.client_secret,
        access_token: c.access_token,
        host: c.host,
        max_body: MAX_BODY,
        debug: false,
        account_switch_key: None,
    }
}

/// Whether the four identity fields of `c` can be written and read back as
/// they are: each is a plain value, and the host is in its normal form, with
/// the scheme `https://` and without a final slash.
pub open spec fn is_writable(c: Credentials) -> bool {
    &&& is_plain_value(c.client_token)
    &&& is_plain_value(c.client_secret)
    &&& is_plain_value(c.access_token)
    &&& is_plain_value(c.host)
    &&& "https://"@.is_prefix_of(c.host)
    &&& c.host.last() != '/'
}

/// Reading the lines of a written section leaves that section open, with the
/// four settings.
proof fn lemma_written_lines_are_read(name: Seq<char>, c: Credentials)
    requires
        is_plain_name(name),
        is_writable(c),
    ensures
        read_lines(section_lines(name, c).push(Seq::<char>::empty())).section == Some(name),
        read_lines(section_lines(name, c).push(Seq::<char>::empty())).values == written_values(c),
        read_lines(section_lines(name, c).push(Seq::<char>::empty())).sections == Map::<
            Seq<char>,
            Credentials,
        >::empty(),
{
    let ls = section_lines(name, c).push(Seq::<char>::empty());
    let none = Map::<Seq<char>, Credentials>::empty();
    let v0 = Map::<Seq<char>, Seq<char>>::empty();
    let v1 = v0.insert("client_token"@, c.client_token);
    let v2 = v1.insert("client_secret"@, c.client_secret);
    let v3 = v2.insert("access_token"@, c.access_token);
    let v4 = v3.insert("host"@, c.host);
    lemma_header_is_read(name);
    lemma_setting_is_read("client_token"@, c.client_token);
    lemma_setting_is_read("client_secret"@, c.client_secret);
    lemma_setting_is_read("access_token"@, c.access_token);
    lemma_setting_is_read("host"@, c.host);
    assert(ls.len() == 6);
    let after0 = read_lines(ls.take(0));
    assert(ls.take(0) =~= Seq::<Seq<char>>::empty());
    assert(after0.section is None && after0.values == v0 && after0.sections == none);
    let after1 = read_lines(ls.take(1));
    assert(ls.take(1).drop_last() =~= ls.take(0));
    assert(ls.take(1).last() == header_text(name));
    assert(after1 == advance(after0, header_text(name)));
    assert(after1.section == Some(name) && after1.values == v0 && after1.sections == none);
    let after2 = read_lines(ls.take(2));
    assert(ls.take(2).drop_last() =~= ls.take(1));
    assert(ls.take(2).last() == setting_text("client_token"@, c.client_token));
    assert(after2 == advance(after1, ls.take(2).last()));
    assert(after2.section == Some(name) && after2.values == v1 && after2.sections == none);
    let after3 = read_lines(ls.take(3));
    assert(ls.take(3).drop_last() =~= ls.take(2));
    assert(ls.take(3).last() == setting_text("client_secret"@, c.client_secret));
    assert(after3 == advance(after2, ls.take(3).last()));
    assert(after3.section == Some(name) && after3.values == v2 && after3.sections == none);
    let after4 = read_lines(ls.take(4));
    assert(ls.take(4).drop_last() =~= ls.take(3));
    assert(ls.take(4).last() == setting_text("access_token"@, c.access_token));
    assert(after4 == advance(after3, ls.take(4).last()));
    assert(after4.section == Some(name) && after4.values == v3 && after4.sections == none);
    let after5 = read_lines(ls.take(5));
    assert(ls.take(5).drop_last() =~= ls.take(4));
    assert(ls.take(5).last() == setting_text("host"@, c.host));
    assert(after5 == advance(after4, ls.take(5).last()));
    assert(after5.section == Some(name) && after5.values == v4 && after5.sections == none);
    let after6 = read_lines(ls);
    assert(ls.drop_last() =~= ls.take(5));
    assert(ls.last() == Seq::<char>::empty());
    assert(read_line(Seq::<char>::empty()) == LineKind::Ignored);
    assert(after6 == advance(after5, ls.last()));
}

/// The settings of a written section describe the credential set that was
/// written.
proof fn lemma_written_values_are_complete(c: Credentials)
    requires
        is_writable(c),
    ensures
        section_config(written_values(c)) == Ok::<Credentials, Failure>(read_back(c)),
        validated(read_back(c)) == Ok::<Credentials, Failure>(read_back(c)),
{
    lemma_identity_keys("host"@);
    let v = written_values(c);
    assert(setting(v, "client_token"@) == c.client_token);
    assert(setting(v, "client_secret"@) == c.client_secret);
    assert(setting(v, "access_token"@) == c.access_token);
    assert(setting(v, "host"@) == c.host);
    lemma_identity_keys("client_token"@);
    lemma_identity_keys("client_secret"@);
    lemma_identity_keys("access_token"@);
    assert(!v.dom().contains("max_body"@));
    assert(!v.dom().contains("account_switch_key"@));
    let r = section_credentials(v);
    assert(r == read_back(c));
    lemma_trim_of_tight(c.client_token);
    lemma_trim_of_tight(c.client_secret);
    lemma_trim_of_tight(c.access_token);
    lemma_trim_of_tight(c.host);
    assert(missing_field(r) is None);
    assert(with_scheme(c.host) == c.host);
    assert(without_final_slash(c.host) == c.host);
    assert(normalized(r) == r);
}

/// A section written from a credential set is read back with the same four
/// identity fields: where the fields are plain values and the host is in its
/// normal form, the text of the section, asked for that section, gives the
/// credential set with those four fields.
pub proof fn lemma_written_section_is_read_back(name: Seq<char>, c: Credentials)
    requires
        is_plain_name(name),
        is_writable(c),
    ensures
        edgerc_credentials(section_text(name, c), name) == Ok::<Credentials, Failure>(
            read_back(c),
        ),
        read_back(c).client_token == c.client_token,
        read_back(c).client_secret == c.client_secret,
        read_back(c).access_token == c.access_token,
        read_back(c).host == c.host,
{
    let lines = section_lines(name, c);
    lemma_header_is_read(name);
    lemma_setting_is_read("client_token"@, c.client_token);
    lemma_setting_is_read("client_secret"@, c.client_secret);
    lemma_setting_is_read("access_token"@, c.access_token);
    lemma_setting_is_read("host"@, c.host);
    assert forall|k: int, i: int|
        0 <= k < lines.len() && 0 <= i < lines[k].len() implies #[trigger] lines[k][i] != '\n' by {
        if k == 0 {
            assert(header_text(name)[i] != '\n');
        } else if k == 1 {
            assert(setting_text("client_token"@, c.client_token)[i] != '\n');
        } else if k == 2 {
            assert(setting_text("client_secret"@, c.client_secret)[i] != '\n');
        } else if k == 3 {
            assert(setting_text("access_token"@, c.access_token)[i] != '\n');
        } else {
            assert(setting_text("host"@, c.host)[i] != '\n');
        }
    }
    lemma_split_lines_of_written(lines);
    lemma_written_lines_are_read(name, c);
    lemma_written_values_are_complete(c);
    let p = read_lines(lines.push(Seq::<char>::empty()));
    let sections = edgerc_sections(section_text(name, c));
    assert(sections == closed_sections(p));
    assert(sections == Map::<Seq<char>, Credentials>::empty().insert(name, read_back(c)));
    assert(sections.dom().contains(name));
    assert(!Map::<Seq<char>, Credentials>::empty().dom().contains(name));
}

} // verus!
