//! The persistent form of a record: one line per field, `name=value`, in
//! which the value is escaped so that it stays on its line. Every field is
//! written under its name, and a reader finds the fields by name, in whatever
//! order the lines stand.

use crate::data::{Data, DataView};
use crate::text::{text, to_chars};
use std::borrow::Cow;
use std::str::Chars;
use vstd::prelude::*;
use vstd::std_specs::iter::IteratorSpec;

verus! {

/// Why a text could not be read as a record.
#[derive(Clone, Copy, Debug, PartialEq, Eq, Structural)]
pub enum DecodeError {
    /// The text is not a sequence of well-formed lines: a line is not ended
    /// by a line feed, holds no `=`, or holds a backslash that starts no
    /// escape.
    Malformed,
    /// One of the record's fields is given more than once.
    DuplicateField,
    /// One of the record's fields is not given.
    MissingField,
}

/// One character of a value as it is written: a backslash is doubled, a line
/// feed becomes a backslash and `n`, any other character stands for itself.
pub open spec fn escape_char(c: char) -> Seq<char> {
    if c == '\\' {
        seq!['\\', '\\']
    } else if c == '\n' {
        seq!['\\', 'n']
    } else {
        seq![c]
    }
}

/// A value as it is written: each character escaped, in order.
pub open spec fn escape(s: Seq<char>) -> Seq<char>
    decreases s.len(),
{
    if s.len() == 0 {
        Seq::empty()
    } else {
        escape_char(s[0]) + escape(s.drop_first())
    }
}

/// The value that a written text stands for, or `None` where a backslash is
/// followed by neither a backslash nor `n`.
pub open spec fn unescape(s: Seq<char>) -> Option<Seq<char>>
    decreases s.len(),
{
    if s.len() == 0 {
        Some(Seq::empty())
    } else if s[0] != '\\' {
        match unescape(s.skip(1)) {
            Some(rest) => Some(seq![s[0]] + rest),
            None => None,
        }
    } else if s.len() >= 2 && (s[1] == '\\' || s[1] == 'n') {
        match unescape(s.skip(2)) {
            Some(rest) => Some(seq![if s[1] == 'n' { '\n' } else { '\\' }] + rest),
            None => None,
        }
    } else {
        None
    }
}

/// The place of the first `c` in `s`, or the length of `s` where it holds
/// none.
pub open spec fn first_index(s: Seq<char>, c: char) -> int
    decreases s.len(),
{
    if s.len() == 0 || s[0] == c {
        0
    } else {
        1 + first_index(s.drop_first(), c)
    }
}

/// The name and the value of one line, given without its line feed.
pub open spec fn parse_line(line: Seq<char>) -> Option<(Seq<char>, Seq<char>)> {
    let k = first_index(line, '=');
    if 0 <= k < line.len() {
        match unescape(line.skip(k + 1)) {
            Some(value) => Some((line.take(k), value)),
            None => None,
        }
    } else {
        None
    }
}

/// The names and values of all the lines of `s`, in order, or `None` where
/// some line is not well formed.
pub open spec fn parse_lines(s: Seq<char>) -> Option<Seq<(Seq<char>, Seq<char>)>>
    decreases s.len(),
{
    if s.len() == 0 {
        Some(Seq::empty())
    } else {
        let n = first_index(s, '\n');
        if 0 <= n < s.len() {
            match (parse_line(s.take(n)), parse_lines(s.skip(n + 1))) {
                (Some(entry), Some(rest)) => Some(seq![entry] + rest),
                _ => None,
            }
        } else {
            None
        }
    }
}

/// The values given under `name` in `entries`, in order.
pub open spec fn values_of(entries: Seq<(Seq<char>, Seq<char>)>, name: Seq<char>) -> Seq<Seq<char>>
    decreases entries.len(),
{
    if entries.len() == 0 {
        Seq::empty()
    } else if entries.last().0 == name {
        values_of(entries.drop_last(), name).push(entries.last().1)
    } else {
        values_of(entries.drop_last(), name)
    }
}

/// One field as it is written: its name, `=`, its escaped value, a line feed.
pub open spec fn encode_field(name: Seq<char>, value: Seq<char>) -> Seq<char> {
    name + seq!['='] + escape(value) + seq!['\n']
}

/// A record as it is written: its five fields, each on a line of its own.
pub open spec fn encode(v: DataView) -> Seq<char> {
    encode_field("base"@, v.base) + encode_field("client_id"@, v.client_id) + encode_field(
        "client_secret"@,
        v.client_secret,
    ) + encode_field("redirect"@, v.redirect) + encode_field("token"@, v.token)
}

/// The record that a text stands for. Lines under other names than the five
/// fields' are passed over; each of the five must be given exactly once.
pub open spec fn decode(s: Seq<char>) -> Result<DataView, DecodeError> {
    match parse_lines(s) {
        None => Err(DecodeError::Malformed),
        Some(entries) => {
            let base = values_of(entries, "base"@);
            let client_id = values_of(entries, "client_id"@);
            let client_secret = values_of(entries, "client_secret"@);
            let redirect = values_of(entries, "redirect"@);
            let token = values_of(entries, "token"@);
            if base.len() > 1 || client_id.len() > 1 || client_secret.len() > 1 || redirect.len()
                > 1 || token.len() > 1 {
                Err(DecodeError::DuplicateField)
            } else if base.len() == 0 || client_id.len() == 0 || client_secret.len() == 0
                || redirect.len() == 0 || token.len() == 0 {
                Err(DecodeError::MissingField)
            } else {
                Ok(
                    DataView {
                        base: base[0],
                        client_id: client_id[0],
                        client_secret: client_secret[0],
                        redirect: redirect[0],
                        token: token[0],
                    },
                )
            }
        },
    }
}

/// Appends the escaped form of `value` to `out`.
fn write_escaped(out: &mut String, value: &str)
    ensures
        final(out)@ == old(out)@ + escape(value@),
{
    broadcast use vstd::string::group_string_axioms;

    let mut it: Chars<'_> = value.chars();
    loop
        invariant
            it.obeys_prophetic_iter_laws(),
            it.decrease() is Some,
            old(out)@ + escape(value@) =~= out@ + escape(it.remaining()),
        ensures
            out@ =~= old(out)@ + escape(value@),
        decreases it.decrease()->0,
    {
        match it.next() {
            Some(c) => {
                if c == '\\' {
                    out.push('\\');
                    out.push('\\');
                } else if c == '\n' {
                    out.push('\\');
                    out.push('n');
                } else {
                    out.push(c);
                }
            },
            None => {
                break;
            },
        }
    }
}

/// Appends the line of one field to `out`.
fn write_field(out: &mut String, name: &str, value: &str)
    ensures
        final(out)@ == old(out)@ + encode_field(name@, value@),
{
    out.append(name);
    out.push('=');
    write_escaped(out, value);
    out.push('\n');
    assert(out@ =~= old(out)@ + encode_field(name@, value@));
}

/// `done` in front of the entries `rest`, where there are any.
pub open spec fn prepend(
    done: Seq<(Seq<char>, Seq<char>)>,
    rest: Option<Seq<(Seq<char>, Seq<char>)>>,
) -> Option<Seq<(Seq<char>, Seq<char>)>> {
    match rest {
        Some(r) => Some(done + r),
        None => None,
    }
}

/// A slot is empty while no value was given for its field, and afterwards
/// holds the first value given.
pub open spec fn slot_holds(slot: Option<String>, values: Seq<Seq<char>>) -> bool {
    match slot {
        None => values.len() == 0,
        Some(s) => values.len() >= 1 && s@ == values[0],
    }
}

/// `k` is the first index of `c` in `s` when no earlier place holds `c` and
/// `k` is either a place that holds it or the end of `s`.
pub proof fn lemma_first_index(s: Seq<char>, c: char, k: int)
    requires
        0 <= k <= s.len(),
        forall|j: int| 0 <= j < k ==> s[j] != c,
        k == s.len() || s[k] == c,
    ensures
        first_index(s, c) == k,
    decreases s.len(),
{
    if s.len() == 0 || s[0] == c {
    } else {
        lemma_first_index(s.drop_first(), c, k - 1);
    }
}

/// The five field names are pairwise different.
pub proof fn lemma_field_names_differ()
    ensures
        "base"@ != "client_id"@,
        "base"@ != "client_secret"@,
        "base"@ != "redirect"@,
        "base"@ != "token"@,
        "client_id"@ != "client_secret"@,
        "client_id"@ != "redirect"@,
        "client_id"@ != "token"@,
        "client_secret"@ != "redirect"@,
        "client_secret"@ != "token"@,
        "redirect"@ != "token"@,
{
    reveal_strlit("base");
    reveal_strlit("client_id");
    reveal_strlit("client_secret");
    reveal_strlit("redirect");
    reveal_strlit("token");
    assert("base"@.len() == 4);
    assert("client_id"@.len() == 9);
    assert("client_secret"@.len() == 13);
    assert("redirect"@.len() == 8);
    assert("token"@.len() == 5);
}

/// The first place from `from` on, before `to`, that holds `c`; `to` where
/// none does.
fn find(cs: &Vec<char>, from: usize, to: usize, c: char) -> (k: usize)
    requires
        from <= to <= cs.len(),
    ensures
        from <= k <= to,
        k - from == first_index(cs@.subrange(from as int, to as int), c),
{
    let mut k: usize = from;
    while k < to && cs[k] != c
        invariant
            from <= k <= to <= cs.len(),
            forall|j: int| from <= j < k ==> cs@[j] != c,
        decreases to - k,
    {
        k += 1;
    }
    proof {
        lemma_first_index(cs@.subrange(from as int, to as int), c, k - from);
    }
    k
}

/// Whether the characters from `from` up to `to` spell `name`.
fn spells(cs: &Vec<char>, from: usize, to: usize, name: &Vec<char>) -> (r: bool)
    requires
        from <= to <= cs.len(),
    ensures
        r == (cs@.subrange(from as int, to as int) == name@),
{
    if to - from != name.len() {
        return false;
    }
    let mut i: usize = 0;
    while i < name.len()
        invariant
            from <= to <= cs.len(),
            to - from == name.len(),
            0 <= i <= name.len(),
            forall|j: int| 0 <= j < i ==> cs@[from + j] == name@[j],
        decreases name.len() - i,
    {
        if cs[from + i] != name[i] {
            assert(cs@.subrange(from as int, to as int)[i as int] != name@[i as int]);
            return false;
        }
        i += 1;
    }
    assert(cs@.subrange(from as int, to as int) =~= name@);
    true
}

/// Reads the escaped value that stands from `from` up to `to`.
fn read_escaped(cs: &Vec<char>, from: usize, to: usize) -> (r: Option<String>)
    requires
        from <= to <= cs.len(),
    ensures
        match unescape(cs@.subrange(from as int, to as int)) {
            Some(value) => r is Some && r->0@ == value,
            None => r is None,
        },
{
    let ghost whole = cs@.subrange(from as int, to as int);
    let mut out = String::new();
    let mut i: usize = from;
    while i < to
        invariant
            from <= i <= to <= cs.len(),
            whole == cs@.subrange(from as int, to as int),
            unescape(whole) == match unescape(cs@.subrange(i as int, to as int)) {
                Some(rest) => Some(out@ + rest),
                None => None,
            },
        decreases to - i,
    {
        let ghost here = cs@.subrange(i as int, to as int);
        let c = cs[i];
        if c != '\\' {
            proof {
                assert(here.skip(1) =~= cs@.subrange(i + 1, to as int));
                assert forall|rest: Seq<char>| out@ + (seq![c] + rest) == out@.push(c) + rest by {
                    assert(out@ + (seq![c] + rest) =~= out@.push(c) + rest);
                }
            }
            out.push(c);
            i += 1;
        } else if i + 1 < to && (cs[i + 1] == '\\' || cs[i + 1] == 'n') {
            let d: char = if cs[i + 1] == 'n' { '\n' } else { '\\' };
            proof {
                assert(here.skip(2) =~= cs@.subrange(i + 2, to as int));
                assert forall|rest: Seq<char>| out@ + (seq![d] + rest) == out@.push(d) + rest by {
                    assert(out@ + (seq![d] + rest) =~= out@.push(d) + rest);
                }
            }
            out.push(d);
            i += 2;
        } else {
            return None;
        }
    }
    assert(out@ + Seq::<char>::empty() =~= out@);
    Some(out)
}

/// Puts `value` into an empty slot. A full slot keeps what it holds, and the
/// result says that it was full.
fn store(slot: &mut Option<String>, value: String) -> (full: bool)
    ensures
        full == (*old(slot) is Some),
        *final(slot) == (if *old(slot) is Some { *old(slot) } else { Some(value) }),
{
    if slot.is_some() {
        true
    } else {
        *slot = Some(value);
        false
    }
}

impl Data {
    /// Writes the record down, all five fields, each under its name.
    pub fn serialize(&self) -> (out: String)
        ensures
            out@ == encode(self@),
    {
        let mut out = String::new();
        write_field(&mut out, "base", text(&self.base));
        write_field(&mut out, "client_id", text(&self.client_id));
        write_field(&mut out, "client_secret", text(&self.client_secret));
        write_field(&mut out, "redirect", text(&self.redirect));
        write_field(&mut out, "token", text(&self.token));
        assert(out@ =~= encode(self@));
        out
    }

    /// Reads a record back from its written form. The lines may stand in any
    /// order, and lines under names that the record does not have are passed
    /// over. No field is ever filled in: a text that lacks one is refused.
    pub fn deserialize(input: &str) -> (r: Result<Data, DecodeError>)
        ensures
            match decode(input@) {
                Ok(v) => r is Ok && r->Ok_0@ == v,
                Err(e) => r is Err && r->Err_0 == e,
            },
    {
        let cs = to_chars(input);
        let name_base = to_chars("base");
        let name_client_id = to_chars("client_id");
        let name_client_secret = to_chars("client_secret");
        let name_redirect = to_chars("redirect");
        let name_token = to_chars("token");
        let mut base: Option<String> = None;
        let mut client_id: Option<String> = None;
        let mut client_secret: Option<String> = None;
        let mut redirect: Option<String> = None;
        let mut token: Option<String> = None;
        let mut twice = false;
        let ghost mut done: Seq<(Seq<char>, Seq<char>)> = Seq::empty();
        let mut pos: usize = 0;
        proof {
            assert(cs@.skip(0) =~= cs@);
            match parse_lines(cs@) {
                Some(all) => {
                    assert(done + all =~= all);
                },
                None => {},
            }
        }
        while pos < cs.len()
            invariant
                pos <= cs.len(),
                cs@ == input@,
                name_base@ == "base"@,
                name_client_id@ == "client_id"@,
                name_client_secret@ == "client_secret"@,
                name_redirect@ == "redirect"@,
                name_token@ == "token"@,
                parse_lines(cs@) == prepend(done, parse_lines(cs@.skip(pos as int))),
                slot_holds(base, values_of(done, "base"@)),
                slot_holds(client_id, values_of(done, "client_id"@)),
                slot_holds(client_secret, values_of(done, "client_secret"@)),
                slot_holds(redirect, values_of(done, "redirect"@)),
                slot_holds(token, values_of(done, "token"@)),
                twice == (values_of(done, "base"@).len() > 1 || values_of(
                    done,
                    "client_id"@,
                ).len() > 1 || values_of(done, "client_secret"@).len() > 1 || values_of(
                    done,
                    "redirect"@,
                ).len() > 1 || values_of(done, "token"@).len() > 1),
            decreases cs.len() - pos,
        {
            let ghost rest = cs@.skip(pos as int);
            let end = find(&cs, pos, cs.len(), '\n');
            proof {
                assert(cs@.subrange(pos as int, cs.len() as int) =~= rest);
            }
            if end == cs.len() {
                return Err(DecodeError::Malformed);
            }
            let ghost line = rest.take(end - pos);
            let mid = find(&cs, pos, end, '=');
            proof {
                assert(cs@.subrange(pos as int, end as int) =~= line);
            }
            if mid == end {
                return Err(DecodeError::Malformed);
            }
            proof {
                assert(cs@.subrange(mid + 1, end as int) =~= line.skip(mid - pos + 1));
                assert(cs@.subrange(pos as int, mid as int) =~= line.take(mid - pos));
                assert(cs@.skip(end + 1) =~= rest.skip(end - pos + 1));
            }
            let value = match read_escaped(&cs, mid + 1, end) {
                Some(value) => value,
                None => {
                    return Err(DecodeError::Malformed);
                },
            };
            let ghost entry = (line.take(mid - pos), value@);
            proof {
                lemma_field_names_differ();
                let after = done.push(entry);
                assert(after.drop_last() =~= done);
                assert(after.last() == entry);
                match parse_lines(cs@.skip(end + 1)) {
                    Some(tail) => {
                        assert(done + (seq![entry] + tail) =~= after + tail);
                    },
                    None => {},
                }
            }
            if spells(&cs, pos, mid, &name_base) {
                let full = store(&mut base, value);
                twice = twice || full;
            } else if spells(&cs, pos, mid, &name_client_id) {
                let full = store(&mut client_id, value);
                twice = twice || full;
            } else if spells(&cs, pos, mid, &name_client_secret) {
                let full = store(&mut client_secret, value);
                twice = twice || full;
            } else if spells(&cs, pos, mid, &name_redirect) {
                let full = store(&mut redirect, value);
                twice = twice || full;
            } else if spells(&cs, pos, mid, &name_token) {
                let full = store(&mut token, value);
                twice = twice || full;
            }
            proof {
                done = done.push(entry);
            }
            pos = end + 1;
        }
        proof {
            assert(cs@.skip(pos as int) =~= Seq::empty());
            assert(done + Seq::<(Seq<char>, Seq<char>)>::empty() =~= done);
        }
        if twice {
            return Err(DecodeError::DuplicateField);
        }
        match (base, client_id, client_secret, redirect, token) {
            (Some(base), Some(client_id), Some(client_secret), Some(redirect), Some(token)) => Ok(
                Data {
                    base: Cow::Owned(base),
                    client_id: Cow::Owned(client_id),
                    client_secret: Cow::Owned(client_secret),
                    redirect: Cow::Owned(redirect),
                    token: Cow::Owned(token),
                },
            ),
            _ => Err(DecodeError::MissingField),
        }
    }
}

} // verus!
