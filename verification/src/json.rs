//! The JSON object that record fields are sent as, for create, update and
//! revise requests.
//!
//! The fields are gathered as a map would gather them: a key given twice is
//! kept once, at its first place, with the last value given for it.

use crate::types::{key_index, lookup};
use crate::text::{digit_char, push_char};
use vstd::prelude::*;

verus! {

/// A lower-case hexadecimal digit (`d < 16`).
pub open spec fn hex_char(d: nat) -> char {
    if d < 10 {
        digit_char(d)
    } else if d == 10 {
        'a'
    } else if d == 11 {
        'b'
    } else if d == 12 {
        'c'
    } else if d == 13 {
        'd'
    } else if d == 14 {
        'e'
    } else {
        'f'
    }
}

/// How a character stands inside a JSON string literal as `serde_json`
/// writes it: `"` and `\` behind a backslash; backspace, tab, line feed,
/// form feed and carriage return as `\b`, `\t`, `\n`, `\f`, `\r`; other
/// characters below U+0020 as `\u00` and two lower-case hex digits; every
/// other character as itself.
pub open spec fn json_escaped_char(c: char) -> Seq<char> {
    if c == '"' {
        seq!['\\', '"']
    } else if c == '\\' {
        seq!['\\', '\\']
    } else if c == '\u{8}' {
        seq!['\\', 'b']
    } else if c == '\t' {
        seq!['\\', 't']
    } else if c == '\n' {
        seq!['\\', 'n']
    } else if c == '\u{c}' {
        seq!['\\', 'f']
    } else if c == '\r' {
        seq!['\\', 'r']
    } else if (c as u32) < 0x20 {
        seq!['\\', 'u', '0', '0', hex_char((c as u32 / 16) as nat), hex_char((c as u32 % 16) as nat)]
    } else {
        seq![c]
    }
}

/// The characters of `s`, each as it stands inside a JSON string literal.
pub open spec fn json_escape(s: Seq<char>) -> Seq<char>
    decreases s.len(),
{
    if s.len() == 0 {
        seq![]
    } else {
        json_escape(s.drop_last()) + json_escaped_char(s.last())
    }
}

/// The JSON string literal that `serde_json` writes for `s`.
pub open spec fn json_quoted(s: Seq<char>) -> Seq<char> {
    seq!['"'] + json_escape(s) + seq!['"']
}

/// The error type of `serde_json`.
#[verifier::external_type_specification]
#[verifier::external_body]
pub struct ExJsonError(serde_json::Error);

/// `serde_json::to_string` on a string slice: the string as a JSON string
/// literal, each byte escaped by the table of its serializer. The serializer
/// writes into a `Vec<u8>`, whose writes do not fail, and a string serializes
/// without other errors, so the result is always `Ok`.
#[verifier::external_body]
pub(crate) fn json_string(s: &str) -> (r: Result<String, serde_json::Error>)
    ensures
        r is Ok,
        r matches Ok(t) ==> t@ == json_quoted(s@),
{
    serde_json::to_string(s)
}

/// The characters of each field name and value.
pub open spec fn pairs_view(fields: Seq<(&str, &str)>) -> Seq<(Seq<char>, Seq<char>)> {
    fields.map_values(|p: (&str, &str)| (p.0@, p.1@))
}

/// The characters of each owned field name and value.
pub open spec fn owned_pairs_view(fields: Seq<(String, String)>) -> Seq<(Seq<char>, Seq<char>)> {
    fields.map_values(|p: (String, String)| (p.0@, p.1@))
}

/// The fields gathered into a map, in order: a new key goes last; a key seen
/// before keeps its place and takes the new value.
pub open spec fn merge_fields(s: Seq<(Seq<char>, Seq<char>)>) -> Seq<(Seq<char>, Seq<char>)>
    decreases s.len(),
{
    if s.len() == 0 {
        seq![]
    } else {
        let m = merge_fields(s.drop_last());
        let p = s.last();
        match key_index(m, p.0) {
            Some(j) => m.update(j, p),
            None => m.push(p),
        }
    }
}

/// One member of a JSON object: the quoted key, a colon, the quoted value.
pub open spec fn json_member(p: (Seq<char>, Seq<char>)) -> Seq<char> {
    json_quoted(p.0) + seq![':'] + json_quoted(p.1)
}

/// The members of a JSON object, separated by commas.
pub open spec fn json_members(s: Seq<(Seq<char>, Seq<char>)>) -> Seq<char>
    decreases s.len(),
{
    if s.len() == 0 {
        seq![]
    } else if s.len() == 1 {
        json_member(s[0])
    } else {
        json_members(s.drop_last()) + seq![','] + json_member(s.last())
    }
}

/// The compact JSON object with the given members, in order.
pub open spec fn json_object(s: Seq<(Seq<char>, Seq<char>)>) -> Seq<char> {
    seq!['{'] + json_members(s) + seq!['}']
}

/// The JSON object text that a list of fields is sent as.
pub open spec fn fields_object(fields: Seq<(&str, &str)>) -> Seq<char> {
    json_object(merge_fields(pairs_view(fields)))
}

proof fn lemma_key_index<V>(s: Seq<(Seq<char>, V)>, k: Seq<char>)
    ensures
        match key_index(s, k) {
            Some(j) => 0 <= j < s.len() && s[j].0 == k && forall|i: int|
                0 <= i < j ==> #[trigger] s[i].0 != k,
            None => forall|i: int| 0 <= i < s.len() ==> #[trigger] s[i].0 != k,
        },
    decreases s.len(),
{
    if s.len() > 0 {
        let d = s.drop_last();
        lemma_key_index(d, k);
        assert forall|i: int| 0 <= i < d.len() implies s[i] == #[trigger] d[i] by {}
        match key_index(d, k) {
            Some(j) => {
                assert(key_index(s, k) == Some(j));
                assert forall|i: int| 0 <= i < j implies #[trigger] s[i].0 != k by {
                    assert(d[i] == s[i]);
                }
            },
            None => {
                assert forall|i: int| 0 <= i < d.len() implies #[trigger] s[i].0 != k by {
                    assert(d[i] == s[i]);
                }
            },
        }
    }
}

/// Gathers `fields` as a map would, keeping the order in which keys first
/// appear.
fn merge_field_list(fields: &[(&str, &str)]) -> (out: Vec<(String, String)>)
    ensures
        owned_pairs_view(out@) == merge_fields(pairs_view(fields@)),
{
    let ghost view = pairs_view(fields@);
    let mut out: Vec<(String, String)> = Vec::new();
    let mut i: usize = 0;
    while i < fields.len()
        invariant
            i <= fields@.len(),
            view == pairs_view(fields@),
            owned_pairs_view(out@) == merge_fields(view.take(i as int)),
        decreases fields@.len() - i,
    {
        let (k, v) = fields[i];
        let key = k.to_owned();
        let value = v.to_owned();
        let ghost m = owned_pairs_view(out@);
        let mut j: usize = 0;
        let mut found = false;
        while j < out.len() && !found
            invariant
                j <= out@.len(),
                m == owned_pairs_view(out@),
                found ==> j < out@.len() && m[j as int].0 == key@,
                forall|t: int| 0 <= t < j ==> #[trigger] m[t].0 != key@,
                !found ==> forall|t: int| 0 <= t < j ==> #[trigger] m[t].0 != key@,
            decreases out@.len() - j + (if found { 0int } else { 1int }),
        {
            if out[j].0 == key {
                found = true;
            } else {
                j = j + 1;
            }
        }
        proof {
            lemma_key_index(m, key@);
            assert(view.take(i + 1).drop_last() =~= view.take(i as int));
            assert(view.take(i + 1).last() == (key@, value@));
        }
        if found {
            out.set(j, (key, value));
            assert(key_index(m, key@) == Some(j as int));
        } else {
            assert(key_index(m, key@) is None);
            out.push((key, value));
        }
        assert(owned_pairs_view(out@) =~= merge_fields(view.take(i + 1)));
        i = i + 1;
    }
    assert(view.take(fields@.len() as int) =~= view);
    out
}

/// Renders fields as the compact JSON object that Vtiger reads, as
/// `serde_json` renders a map of strings.
pub fn fields_json(fields: &[(&str, &str)]) -> (r: String)
    ensures
        r@ == fields_object(fields@),
{
    let merged = merge_field_list(fields);
    let ghost m = owned_pairs_view(merged@);
    let mut out = String::new();
    push_char(&mut out, '{');
    let mut i: usize = 0;
    while i < merged.len()
        invariant
            i <= merged@.len(),
            m == owned_pairs_view(merged@),
            out@ == seq!['{'] + json_members(m.take(i as int)),
        decreases merged@.len() - i,
    {
        let kq = match json_string(merged[i].0.as_str()) {
            Ok(t) => t,
            Err(_) => String::new(),
        };
        let vq = match json_string(merged[i].1.as_str()) {
            Ok(t) => t,
            Err(_) => String::new(),
        };
        if i > 0 {
            push_char(&mut out, ',');
        }
        out.append(kq.as_str());
        push_char(&mut out, ':');
        out.append(vq.as_str());
        proof {
            assert(m.take(i + 1).drop_last() =~= m.take(i as int));
            assert(m.take(i + 1).last() == m[i as int]);
            if i == 0 {
                assert(m.take(1)[0] == m[0]);
            }
        }
        assert(out@ =~= seq!['{'] + json_members(m.take(i + 1)));
        i = i + 1;
    }
    push_char(&mut out, '}');
    assert(m.take(merged@.len() as int) =~= m);
    out
}

/// The value that the last of `s` with key `k` carries, if any.
pub open spec fn last_value(s: Seq<(Seq<char>, Seq<char>)>, k: Seq<char>) -> Option<Seq<char>>
    decreases s.len(),
{
    if s.len() == 0 {
        None
    } else if s.last().0 == k {
        Some(s.last().1)
    } else {
        last_value(s.drop_last(), k)
    }
}

/// Gathering fields keeps each key once, and a key carries the value that
/// was given last for it.
pub proof fn lemma_fields_last_wins(s: Seq<(Seq<char>, Seq<char>)>)
    ensures
        forall|i: int, j: int|
            0 <= i < j < merge_fields(s).len() ==> merge_fields(s)[i].0 != merge_fields(s)[j].0,
        forall|k: Seq<char>| #[trigger] lookup(merge_fields(s), k) == last_value(s, k),
    decreases s.len(),
{
    if s.len() > 0 {
        let prev = s.drop_last();
        let m = merge_fields(prev);
        let p = s.last();
        lemma_fields_last_wins(prev);
        lemma_key_index(m, p.0);
        let n = merge_fields(s);
        assert forall|k: Seq<char>| #[trigger] lookup(n, k) == last_value(s, k) by {
            lemma_key_index(n, k);
            lemma_key_index(m, k);
            assert(lookup(m, k) == last_value(prev, k));
            if k == p.0 {
                assert(last_value(s, k) == Some(p.1));
                match key_index(m, k) {
                    Some(j) => {
                        assert(n == m.update(j, p));
                        assert(n[j] == p);
                        assert(forall|i: int| 0 <= i < j ==> n[i] == m[i]);
                    },
                    None => {
                        assert(n == m.push(p));
                        assert(n[m.len() as int] == p);
                        assert(forall|i: int| 0 <= i < m.len() ==> n[i] == m[i]);
                    },
                }
            } else {
                assert(last_value(s, k) == last_value(prev, k));
                match key_index(m, p.0) {
                    Some(jp) => {
                        assert(n == m.update(jp, p));
                        assert(forall|i: int| 0 <= i < m.len() && i != jp ==> n[i] == m[i]);
                        assert(n.len() == m.len());
                    },
                    None => {
                        assert(n == m.push(p));
                        assert(forall|i: int| 0 <= i < m.len() ==> n[i] == m[i]);
                    },
                }
            }
        }
    }
}

proof fn lemma_key_index_push<V>(s: Seq<(Seq<char>, V)>, p: (Seq<char>, V), k: Seq<char>)
    ensures
        key_index(s.push(p), k) == match key_index(s, k) {
            Some(a) => Some(a),
            None => if p.0 == k {
                Some(s.len() as int)
            } else {
                None
            },
        },
{
    assert(s.push(p).drop_last() =~= s);
    assert(s.push(p).last() == p);
}

/// Gathering fields keeps the keys given and no other, each in the place
/// where it was first given: a key comes before another exactly when it was
/// first given before it.
pub proof fn lemma_fields_keep_first_order(s: Seq<(Seq<char>, Seq<char>)>)
    ensures
        forall|k: Seq<char>|
            (#[trigger] key_index(merge_fields(s), k) is Some) == (key_index(s, k) is Some),
        forall|i: int, j: int|
            #![trigger merge_fields(s)[i], merge_fields(s)[j]]
            0 <= i < j < merge_fields(s).len() ==> (key_index(s, merge_fields(s)[i].0) matches Some(
                a,
            ) && key_index(s, merge_fields(s)[j].0) matches Some(b) && a < b),
    decreases s.len(),
{
    if s.len() > 0 {
        let prev = s.drop_last();
        let m = merge_fields(prev);
        let p = s.last();
        let n = merge_fields(s);
        lemma_fields_keep_first_order(prev);
        lemma_key_index(m, p.0);
        assert(prev.push(p) =~= s);
        assert forall|k: Seq<char>|
            (#[trigger] key_index(n, k) is Some) == (key_index(s, k) is Some) by {
            lemma_key_index_push(prev, p, k);
            lemma_key_index(m, k);
            lemma_key_index(n, k);
            assert(key_index(m, k) is Some == key_index(prev, k) is Some);
            match key_index(m, p.0) {
                Some(jp) => {
                    assert(n == m.update(jp, p));
                    if key_index(m, k) is Some {
                        let a = key_index(m, k)->0;
                        assert(n[a].0 == k);
                    }
                    if key_index(n, k) is Some {
                        let a = key_index(n, k)->0;
                        if a == jp {
                            assert(k == p.0);
                        } else {
                            assert(m[a].0 == k);
                        }
                    }
                },
                None => {
                    assert(n == m.push(p));
                    lemma_key_index_push(m, p, k);
                },
            }
        }
        assert forall|i: int, j: int|
            #![trigger n[i], n[j]]
            0 <= i < j < n.len() implies (key_index(s, n[i].0) matches Some(
            a,
        ) && key_index(s, n[j].0) matches Some(b) && a < b) by {
            lemma_key_index_push(prev, p, n[i].0);
            lemma_key_index_push(prev, p, n[j].0);
            match key_index(m, p.0) {
                Some(jp) => {
                    assert(n == m.update(jp, p));
                    assert(n[i].0 == m[i].0);
                    assert(n[j].0 == m[j].0);
                    assert(key_index(m, m[i].0) is Some);
                    assert(key_index(m, m[j].0) is Some);
                },
                None => {
                    assert(n == m.push(p));
                    assert(n[i] == m[i]);
                    assert(key_index(m, m[i].0) is Some) by {
                        lemma_key_index(m, m[i].0);
                    }
                    if j < m.len() {
                        assert(n[j] == m[j]);
                        assert(key_index(m, m[j].0) is Some) by {
                            lemma_key_index(m, m[j].0);
                        }
                    } else {
                        assert(n[j] == p);
                        assert(key_index(prev, p.0) is None);
                        lemma_key_index(prev, m[i].0);
                    }
                },
            }
        }
    }
}

/// The members of a JSON object are separated by exactly one comma,
/// however many there are: one more member adds a comma and the member.
pub proof fn lemma_json_members_push(s: Seq<(Seq<char>, Seq<char>)>, p: (Seq<char>, Seq<char>))
    requires
        s.len() > 0,
    ensures
        json_members(s.push(p)) == json_members(s) + seq![','] + json_member(p),
{
    assert(s.push(p).drop_last() =~= s);
    assert(s.push(p).last() == p);
}

/// An object with no member is `{}`; one with a single member holds just
/// that member.
pub proof fn lemma_json_object_small(p: (Seq<char>, Seq<char>))
    ensures
        json_object(Seq::<(Seq<char>, Seq<char>)>::empty()) == seq!['{', '}'],
        json_object(seq![p]) == seq!['{'] + json_member(p) + seq!['}'],
{
    assert(json_object(Seq::<(Seq<char>, Seq<char>)>::empty()) =~= seq!['{', '}']);
}

/// The value of a hexadecimal digit, either case.
pub open spec fn hex_value(c: char) -> Option<int> {
    if '0' <= c && c <= '9' {
        Some(c as int - '0' as int)
    } else if 'a' <= c && c <= 'f' {
        Some(c as int - 'a' as int + 10)
    } else if 'A' <= c && c <= 'F' {
        Some(c as int - 'A' as int + 10)
    } else {
        None
    }
}

/// The character that a two-character escape `\e` stands for in JSON.
pub open spec fn short_escape(e: char) -> Option<char> {
    if e == '"' {
        Some('"')
    } else if e == '\\' {
        Some('\\')
    } else if e == '/' {
        Some('/')
    } else if e == 'b' {
        Some('\u{8}')
    } else if e == 'f' {
        Some('\u{c}')
    } else if e == 'n' {
        Some('\n')
    } else if e == 'r' {
        Some('\r')
    } else if e == 't' {
        Some('\t')
    } else {
        None
    }
}

/// The code of a `\uXXXX` escape at the start of `t`, when `t` starts with
/// one that stands for a character outside the surrogate range.
pub open spec fn unicode_escape(t: Seq<char>) -> Option<int> {
    if t.len() >= 6 && t[0] == '\\' && t[1] == 'u' && hex_value(t[2]) is Some && hex_value(
        t[3],
    ) is Some && hex_value(t[4]) is Some && hex_value(t[5]) is Some {
        let v = hex_value(t[2])->0 * 4096 + hex_value(t[3])->0 * 256 + hex_value(t[4])->0 * 16
            + hex_value(t[5])->0;
        if v < 0xD800 || v > 0xDFFF {
            Some(v)
        } else {
            None
        }
    } else {
        None
    }
}

/// The characters that the inside of a JSON string literal stands for, read
/// from left to right as a JSON reader reads them; `None` where it is not
/// the inside of a literal (a raw quote or control character, or a bad
/// escape).
pub open spec fn json_unescape(t: Seq<char>) -> Option<Seq<char>>
    decreases t.len(),
{
    if t.len() == 0 {
        Some(seq![])
    } else if t[0] == '\\' {
        if t.len() >= 2 && short_escape(t[1]) is Some {
            match json_unescape(t.skip(2)) {
                Some(r) => Some(seq![short_escape(t[1])->0] + r),
                None => None,
            }
        } else if unicode_escape(t) is Some {
            match json_unescape(t.skip(6)) {
                Some(r) => Some(seq![unicode_escape(t)->0 as char] + r),
                None => None,
            }
        } else {
            None
        }
    } else if t[0] == '"' || (t[0] as u32) < 0x20 {
        None
    } else {
        match json_unescape(t.skip(1)) {
            Some(r) => Some(seq![t[0]] + r),
            None => None,
        }
    }
}

/// The string that a JSON string literal stands for: the inside of its
/// quotes, read back.
pub open spec fn json_string_value(t: Seq<char>) -> Option<Seq<char>> {
    if t.len() >= 2 && t[0] == '"' && t.last() == '"' {
        json_unescape(t.subrange(1, t.len() - 1))
    } else {
        None
    }
}

proof fn lemma_json_escape_concat(a: Seq<char>, b: Seq<char>)
    ensures
        json_escape(a + b) == json_escape(a) + json_escape(b),
    decreases b.len(),
{
    if b.len() == 0 {
        assert(a + b =~= a);
        assert(json_escape(a) + json_escape(b) =~= json_escape(a));
    } else {
        lemma_json_escape_concat(a, b.drop_last());
        assert((a + b).drop_last() =~= a + b.drop_last());
        assert((a + b).last() == b.last());
        assert(json_escape(a + b) =~= json_escape(a) + json_escape(b));
    }
}

proof fn lemma_hex_digit(d: nat)
    requires
        d < 16,
    ensures
        hex_value(hex_char(d)) == Some(d as int),
{
}

proof fn lemma_escaped_char_read_back(c: char, rest: Seq<char>)
    ensures
        json_unescape(json_escaped_char(c) + rest) == match json_unescape(rest) {
            Some(r) => Some(seq![c] + r),
            None => None,
        },
{
    let t = json_escaped_char(c) + rest;
    if c == '"' || c == '\\' || c == '\u{8}' || c == '\t' || c == '\n' || c == '\u{c}' || c
        == '\r' {
        assert(t.skip(2) =~= rest);
        assert(t[0] == '\\');
    } else if (c as u32) < 0x20 {
        let x = c as u32;
        lemma_hex_digit((x / 16) as nat);
        lemma_hex_digit((x % 16) as nat);
        assert(t[0] == '\\');
        assert(t[1] == 'u');
        assert(short_escape(t[1]) is None);
        assert(hex_value(t[2]) == Some(0int));
        assert(hex_value(t[3]) == Some(0int));
        assert(hex_value(t[4]) == Some((x / 16) as int));
        assert(hex_value(t[5]) == Some((x % 16) as int));
        assert(unicode_escape(t) == Some(x as int));
        assert(t.skip(6) =~= rest);
    } else {
        assert(t.skip(1) =~= rest);
        assert(t[0] == c);
    }
}

/// Every string reads back from its JSON string literal: the text that
/// `serde_json` writes for `s` stands for `s` and nothing else.
pub proof fn lemma_json_quoted_reads_back(s: Seq<char>)
    ensures
        json_unescape(json_escape(s)) == Some(s),
        json_string_value(json_quoted(s)) == Some(s),
    decreases s.len(),
{
    if s.len() > 0 {
        let r = s.drop_first();
        lemma_json_quoted_reads_back(r);
        assert(seq![s[0]] + r =~= s);
        lemma_json_escape_concat(seq![s[0]], r);
        assert(seq![s[0]].drop_last() =~= Seq::<char>::empty());
        assert(json_escape(Seq::<char>::empty()) =~= Seq::<char>::empty());
        assert(json_escape(seq![s[0]]) =~= json_escaped_char(s[0]));
        lemma_escaped_char_read_back(s[0], json_escape(r));
        assert(seq![s[0]] + r =~= s);
    } else {
        assert(json_escape(s) =~= Seq::<char>::empty());
    }
    let q = json_quoted(s);
    assert(q.subrange(1, q.len() - 1) =~= json_escape(s));
}

/// Each member of a fields object reads back: its first part is a JSON
/// string literal for the field name, then a colon, then a JSON string
/// literal for the value.
pub proof fn lemma_json_member_reads_back(p: (Seq<char>, Seq<char>))
    ensures
        json_string_value(json_member(p).take(json_quoted(p.0).len() as int)) == Some(p.0),
        json_member(p)[json_quoted(p.0).len() as int] == ':',
        json_string_value(json_member(p).skip(json_quoted(p.0).len() as int + 1)) == Some(p.1),
{
    lemma_json_quoted_reads_back(p.0);
    lemma_json_quoted_reads_back(p.1);
    let m = json_member(p);
    let k = json_quoted(p.0);
    assert(m.take(k.len() as int) =~= k);
    assert(m.skip(k.len() as int + 1) =~= json_quoted(p.1));
}

} // verus!
