//! What the written form of a record guarantees: a record that was written
//! is read back unchanged, and the order of the lines carries no meaning.

use crate::codec::{
    decode, encode, encode_field, escape, escape_char, first_index, lemma_field_names_differ,
    lemma_first_index, parse_line, parse_lines, prepend, unescape, values_of, DecodeError,
};
use crate::data::DataView;
use vstd::prelude::*;

verus! {

/// A name that can stand in front of `=` on a line: it holds neither `=` nor
/// a line feed.
pub open spec fn plain_name(name: Seq<char>) -> bool {
    forall|j: int| 0 <= j < name.len() ==> name[j] != '=' && name[j] != '\n'
}

/// An escaped value holds no line feed, so it stays on its line.
pub proof fn lemma_escape_stays_on_line(s: Seq<char>)
    ensures
        forall|j: int| 0 <= j < escape(s).len() ==> escape(s)[j] != '\n',
    decreases s.len(),
{
    if s.len() > 0 {
        lemma_escape_stays_on_line(s.drop_first());
        let head = escape_char(s[0]);
        let tail = escape(s.drop_first());
        assert forall|j: int| 0 <= j < escape(s).len() implies escape(s)[j] != '\n' by {
            if j < head.len() {
                assert(escape(s)[j] == head[j]);
            } else {
                assert(escape(s)[j] == tail[j - head.len()]);
            }
        }
    }
}

/// Unescaping undoes escaping.
pub proof fn lemma_unescape_escape(s: Seq<char>)
    ensures
        unescape(escape(s)) == Some(s),
    decreases s.len(),
{
    if s.len() > 0 {
        let written = escape(s);
        let tail = escape(s.drop_first());
        lemma_unescape_escape(s.drop_first());
        if s[0] == '\\' || s[0] == '\n' {
            assert(written.skip(2) =~= tail);
            assert(seq![s[0]] + s.drop_first() =~= s);
        } else {
            assert(written.skip(1) =~= tail);
            assert(seq![s[0]] + s.drop_first() =~= s);
        }
    }
}

/// The line of a field, standing in front of `rest`, is read as that field's
/// name and value, followed by what `rest` holds.
pub proof fn lemma_parse_field(name: Seq<char>, value: Seq<char>, rest: Seq<char>)
    requires
        plain_name(name),
    ensures
        parse_lines(encode_field(name, value) + rest) == prepend(
            seq![(name, value)],
            parse_lines(rest),
        ),
{
    let s = encode_field(name, value) + rest;
    let line = name + seq!['='] + escape(value);
    let n = line.len() as int;
    lemma_escape_stays_on_line(value);
    lemma_unescape_escape(value);
    assert forall|j: int| 0 <= j < n implies s[j] != '\n' by {
        if j > name.len() {
            assert(s[j] == escape(value)[j - name.len() - 1]);
        }
    }
    lemma_first_index(s, '\n', n);
    assert(s.take(n) =~= line);
    assert(s.skip(n + 1) =~= rest);
    lemma_first_index(line, '=', name.len() as int);
    assert(line.skip(name.len() as int + 1) =~= escape(value));
    assert(line.take(name.len() as int) =~= name);
    assert(parse_line(line) == Some((name, value)));
}

/// The five field names hold neither `=` nor a line feed.
pub proof fn lemma_field_names_plain()
    ensures
        plain_name("base"@),
        plain_name("client_id"@),
        plain_name("client_secret"@),
        plain_name("redirect"@),
        plain_name("token"@),
{
    reveal_strlit("base");
    reveal_strlit("client_id");
    reveal_strlit("client_secret");
    reveal_strlit("redirect");
    reveal_strlit("token");
}

/// Where no entry stands under `name`, no value is found for it.
pub proof fn lemma_no_value(entries: Seq<(Seq<char>, Seq<char>)>, name: Seq<char>)
    requires
        forall|j: int| 0 <= j < entries.len() ==> entries[j].0 != name,
    ensures
        values_of(entries, name) == Seq::<Seq<char>>::empty(),
    decreases entries.len(),
{
    if entries.len() > 0 {
        lemma_no_value(entries.drop_last(), name);
    }
}

/// Where exactly one entry stands under `name`, its value is the one found.
pub proof fn lemma_single_value(entries: Seq<(Seq<char>, Seq<char>)>, name: Seq<char>, i: int)
    requires
        0 <= i < entries.len(),
        entries[i].0 == name,
        forall|j: int| 0 <= j < entries.len() && j != i ==> entries[j].0 != name,
    ensures
        values_of(entries, name) == seq![entries[i].1],
    decreases entries.len(),
{
    if i == entries.len() - 1 {
        lemma_no_value(entries.drop_last(), name);
        assert(Seq::<Seq<char>>::empty().push(entries[i].1) =~= seq![entries[i].1]);
    } else {
        lemma_single_value(entries.drop_last(), name, i);
    }
}

/// A record that was written is read back unchanged, whatever its fields
/// hold, the empty text included.
pub proof fn written_record_reads_back(v: DataView)
    ensures
        decode(encode(v)) == Ok::<DataView, DecodeError>(v),
{
    let none = Seq::<char>::empty();
    let f4 = encode_field("token"@, v.token) + none;
    let f3 = encode_field("redirect"@, v.redirect) + f4;
    let f2 = encode_field("client_secret"@, v.client_secret) + f3;
    let f1 = encode_field("client_id"@, v.client_id) + f2;
    let f0 = encode_field("base"@, v.base) + f1;
    assert(f0 =~= encode(v));
    lemma_field_names_plain();
    lemma_field_names_differ();
    lemma_parse_field("token"@, v.token, none);
    lemma_parse_field("redirect"@, v.redirect, f4);
    lemma_parse_field("client_secret"@, v.client_secret, f3);
    lemma_parse_field("client_id"@, v.client_id, f2);
    lemma_parse_field("base"@, v.base, f1);
    let entries = seq![
        ("base"@, v.base),
        ("client_id"@, v.client_id),
        ("client_secret"@, v.client_secret),
        ("redirect"@, v.redirect),
        ("token"@, v.token),
    ];
    let e4 = seq![("token"@, v.token)] + Seq::empty();
    let e3 = seq![("redirect"@, v.redirect)] + e4;
    let e2 = seq![("client_secret"@, v.client_secret)] + e3;
    let e1 = seq![("client_id"@, v.client_id)] + e2;
    let e0 = seq![("base"@, v.base)] + e1;
    assert(e0 =~= entries);
    assert(parse_lines(encode(v)) == Some(entries));
    lemma_single_value(entries, "base"@, 0);
    lemma_single_value(entries, "client_id"@, 1);
    lemma_single_value(entries, "client_secret"@, 2);
    lemma_single_value(entries, "redirect"@, 3);
    lemma_single_value(entries, "token"@, 4);
}

/// What the first index says: no earlier place holds `c`, and the place
/// itself does unless it is the end of `s`.
pub proof fn lemma_first_index_found(s: Seq<char>, c: char)
    ensures
        0 <= first_index(s, c) <= s.len(),
        forall|j: int| 0 <= j < first_index(s, c) ==> s[j] != c,
        first_index(s, c) < s.len() ==> s[first_index(s, c)] == c,
    decreases s.len(),
{
    if s.len() == 0 || s[0] == c {
    } else {
        let tail = s.drop_first();
        lemma_first_index_found(tail, c);
        assert forall|j: int| 0 <= j < first_index(s, c) implies s[j] != c by {
            if j > 0 {
                assert(s[j] == tail[j - 1]);
            }
        }
    }
}

/// Lines that are read well are read the same way when more text follows.
pub proof fn lemma_parse_concat(a: Seq<char>, b: Seq<char>)
    requires
        parse_lines(a) is Some,
    ensures
        parse_lines(a + b) == prepend(parse_lines(a)->0, parse_lines(b)),
    decreases a.len(),
{
    if a.len() == 0 {
        assert(a + b =~= b);
        match parse_lines(b) {
            Some(r) => {
                assert(Seq::<(Seq<char>, Seq<char>)>::empty() + r =~= r);
            },
            None => {},
        }
    } else {
        let n = first_index(a, '\n');
        lemma_first_index_found(a, '\n');
        lemma_first_index(a + b, '\n', n);
        assert((a + b).take(n) =~= a.take(n));
        assert((a + b).skip(n + 1) =~= a.skip(n + 1) + b);
        lemma_parse_concat(a.skip(n + 1), b);
        let entry = parse_line(a.take(n))->0;
        let rest = parse_lines(a.skip(n + 1))->0;
        match parse_lines(b) {
            Some(r) => {
                assert(seq![entry] + (rest + r) =~= (seq![entry] + rest) + r);
            },
            None => {},
        }
    }
}

/// The values found in two lists of entries, one after the other, are those
/// of the first followed by those of the second.
pub proof fn lemma_values_of_concat(
    x: Seq<(Seq<char>, Seq<char>)>,
    y: Seq<(Seq<char>, Seq<char>)>,
    name: Seq<char>,
)
    ensures
        values_of(x + y, name) == values_of(x, name) + values_of(y, name),
    decreases y.len(),
{
    if y.len() == 0 {
        assert(x + y =~= x);
        assert(values_of(x, name) + values_of(y, name) =~= values_of(x, name));
    } else {
        lemma_values_of_concat(x, y.drop_last(), name);
        assert((x + y).drop_last() =~= x + y.drop_last());
        assert((x + y).last() == y.last());
        assert(values_of(x + y, name) =~= values_of(x, name) + values_of(y, name));
    }
}

/// The order of the lines carries no meaning: two runs of well-formed lines
/// read the same whichever of them comes first.
pub proof fn line_order_is_free(a: Seq<char>, b: Seq<char>)
    requires
        parse_lines(a) is Some,
        parse_lines(b) is Some,
    ensures
        decode(a + b) == decode(b + a),
{
    let x = parse_lines(a)->0;
    let y = parse_lines(b)->0;
    lemma_parse_concat(a, b);
    lemma_parse_concat(b, a);
    lemma_values_of_concat(x, y, "base"@);
    lemma_values_of_concat(y, x, "base"@);
    lemma_values_of_concat(x, y, "client_id"@);
    lemma_values_of_concat(y, x, "client_id"@);
    lemma_values_of_concat(x, y, "client_secret"@);
    lemma_values_of_concat(y, x, "client_secret"@);
    lemma_values_of_concat(x, y, "redirect"@);
    lemma_values_of_concat(y, x, "redirect"@);
    lemma_values_of_concat(x, y, "token"@);
    lemma_values_of_concat(y, x, "token"@);
}

/// No field is ever filled in: a text that is read as a record gives each of
/// the five fields exactly once, and the record holds the values given.
pub proof fn read_record_was_given_in_full(s: Seq<char>)
    requires
        decode(s) is Ok,
    ensures
        parse_lines(s) is Some,
        values_of(parse_lines(s)->0, "base"@) == seq![decode(s)->Ok_0.base],
        values_of(parse_lines(s)->0, "client_id"@) == seq![decode(s)->Ok_0.client_id],
        values_of(parse_lines(s)->0, "client_secret"@) == seq![decode(s)->Ok_0.client_secret],
        values_of(parse_lines(s)->0, "redirect"@) == seq![decode(s)->Ok_0.redirect],
        values_of(parse_lines(s)->0, "token"@) == seq![decode(s)->Ok_0.token],
{
    let entries = parse_lines(s)->0;
    assert(values_of(entries, "base"@) =~= seq![decode(s)->Ok_0.base]);
    assert(values_of(entries, "client_id"@) =~= seq![decode(s)->Ok_0.client_id]);
    assert(values_of(entries, "client_secret"@) =~= seq![decode(s)->Ok_0.client_secret]);
    assert(values_of(entries, "redirect"@) =~= seq![decode(s)->Ok_0.redirect]);
    assert(values_of(entries, "token"@) =~= seq![decode(s)->Ok_0.token]);
}

} // verus!
