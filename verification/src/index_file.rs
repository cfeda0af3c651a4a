//! The persisted map index: each target's inventory as a JSON array of
//! tagged entries, written on every mutation and read back on start.
//! The encoder and the parser are both verified, and parsing an encoded
//! index is proved to give the index back: what sits in the file is
//! exactly the in-memory entry list.
//!
//! An entry is a JSON array of strings — `["valid", path, hash, id]`,
//! `["unknown", path, hash]`, or `["invalid", path]` — with the id as a
//! lowercase hex numeral and `\` and `"` escaped inside strings.

use vstd::prelude::*;

verus! {

use crate::config::EntryModel;
use crate::config::MapData;
use crate::config::MapMetadata;
use crate::config::index_view;
use crate::hex::hex_digits;
use crate::hex::parse_hex_u32_spec;

/// How one character sits inside a JSON string: `\` and `"` behind a
/// backslash, everything else as itself.
pub open spec fn esc_char(c: char) -> Seq<char> {
    if c == '\\' || c == '"' {
        seq!['\\', c]
    } else {
        seq![c]
    }
}

/// Text with its JSON string escaping applied.
pub open spec fn escaped(s: Seq<char>) -> Seq<char>
    decreases s.len(),
{
    if s.len() == 0 {
        Seq::empty()
    } else {
        esc_char(s.first()) + escaped(s.drop_first())
    }
}

/// A JSON string: quote, escaped text, quote.
pub open spec fn enc_str(s: Seq<char>) -> Seq<char> {
    seq!['"'] + escaped(s) + seq!['"']
}

proof fn lemma_escaped_push(s: Seq<char>, c: char)
    ensures
        escaped(s.push(c)) == escaped(s) + esc_char(c),
    decreases s.len(),
{
    reveal_with_fuel(escaped, 3);
    if s.len() == 0 {
        assert(s.push(c).drop_first() =~= Seq::<char>::empty());
        assert(s.push(c).first() == c);
        assert(escaped(Seq::<char>::empty()) == Seq::<char>::empty());
        assert(escaped(s.push(c)) =~= escaped(s) + esc_char(c));
    } else {
        assert(s.push(c).first() == s.first());
        assert(s.push(c).drop_first() =~= s.drop_first().push(c));
        lemma_escaped_push(s.drop_first(), c);
        assert(escaped(s.push(c)) =~= escaped(s) + esc_char(c));
    }
}

/// What parsing the body of a JSON string yields, from just after the
/// opening quote: the decoded text and the count of characters consumed,
/// closing quote included. Only the canonical escapes `\\` and `\"` are
/// accepted.
pub open spec fn p_strbody(s: Seq<char>) -> Option<(Seq<char>, int)>
    decreases s.len(),
{
    if s.len() == 0 {
        None
    } else if s.first() == '"' {
        Some((Seq::empty(), 1))
    } else if s.first() == '\\' {
        if s.len() >= 2 && (s[1] == '\\' || s[1] == '"') {
            match p_strbody(s.skip(2)) {
                Some((t, n)) => Some((seq![s[1]] + t, n + 2)),
                None => None,
            }
        } else {
            None
        }
    } else {
        match p_strbody(s.skip(1)) {
            Some((t, n)) => Some((seq![s[0]] + t, n + 1)),
            None => None,
        }
    }
}

/// What parsing a JSON string yields: the decoded text and the count
/// consumed, both quotes included.
pub open spec fn p_str(s: Seq<char>) -> Option<(Seq<char>, int)> {
    if s.len() >= 1 && s.first() == '"' {
        match p_strbody(s.skip(1)) {
            Some((t, n)) => Some((t, n + 1)),
            None => None,
        }
    } else {
        None
    }
}

/// Parsing behind an escaped prefix: the body parser walks over the
/// escape of `done` and continues in `rem`, prepending `done` to
/// whatever it finds there.
proof fn lemma_p_strbody_prefix(done: Seq<char>, rem: Seq<char>)
    ensures
        p_strbody(escaped(done) + rem) == match p_strbody(rem) {
            Some((t, n)) => Some::<(Seq<char>, int)>((done + t, n + escaped(done).len())),
            None => None::<(Seq<char>, int)>,
        },
    decreases done.len(),
{
    let s = escaped(done) + rem;
    if done.len() == 0 {
        assert(escaped(done) =~= Seq::<char>::empty());
        assert(s =~= rem);
        match p_strbody(rem) {
            Some((t, n)) => {
                assert(done + t =~= t);
            },
            None => {},
        }
    } else {
        let c = done.first();
        lemma_p_strbody_prefix(done.drop_first(), rem);
        if c == '\\' || c == '"' {
            assert(s.first() == '\\');
            assert(s[1] == c);
            assert(s.len() >= 2);
            assert(s.skip(2) =~= escaped(done.drop_first()) + rem);
            match p_strbody(rem) {
                Some((t, n)) => {
                    assert(seq![s[1]] + (done.drop_first() + t) =~= done + t);
                },
                None => {},
            }
        } else {
            assert(s.first() == c);
            assert(c != '"' && c != '\\');
            assert(s.skip(1) =~= escaped(done.drop_first()) + rem);
            match p_strbody(rem) {
                Some((t, n)) => {
                    assert(seq![s[0]] + (done.drop_first() + t) =~= done + t);
                },
                None => {},
            }
        }
    }
}

/// Parsing an encoded string gives the text back, whatever follows it.
pub proof fn lemma_p_str_round(t: Seq<char>, rest: Seq<char>)
    ensures
        p_str(enc_str(t) + rest) == Some((t, enc_str(t).len() as int)),
{
    let s = enc_str(t) + rest;
    assert(s.first() == '"');
    assert(s.skip(1) =~= escaped(t) + (seq!['"'] + rest));
    lemma_p_strbody_prefix(t, seq!['"'] + rest);
    assert((seq!['"'] + rest).first() == '"');
    assert(p_strbody(seq!['"'] + rest) == Some((Seq::<char>::empty(), 1int)));
    assert(t + Seq::<char>::empty() =~= t);
}

/// Appends the escaped form of the text.
fn escape_into(out: &mut Vec<char>, s: &str)
    ensures
        final(out)@ == old(out)@ + escaped(s@),
{
    let chars = crate::chars::str_to_chars(s);
    let mut i: usize = 0;
    while i < chars.len()
        invariant
            i <= chars@.len(),
            chars@ == s@,
            out@ == old(out)@ + escaped(s@.take(i as int)),
        decreases chars.len() - i,
    {
        let c = chars[i];
        proof {
            assert(s@.take(i as int + 1) =~= s@.take(i as int).push(s@[i as int]));
            lemma_escaped_push(s@.take(i as int), s@[i as int]);
        }
        if c == '\\' || c == '"' {
            out.push('\\');
            out.push(c);
        }
        if !(c == '\\' || c == '"') {
            out.push(c);
        }
        proof {
            assert(out@ =~= old(out)@ + escaped(s@.take(i as int)) + esc_char(s@[i as int]));
            assert(old(out)@ + escaped(s@.take(i as int)) + esc_char(s@[i as int]) =~= old(
                out,
            )@ + (escaped(s@.take(i as int)) + esc_char(s@[i as int])));
        }
        i = i + 1;
    }
    proof {
        assert(s@.take(s@.len() as int) =~= s@);
    }
}

/// Appends the full JSON string form of the text.
fn encode_str_into(out: &mut Vec<char>, s: &str)
    ensures
        final(out)@ == old(out)@ + enc_str(s@),
{
    out.push('"');
    escape_into(out, s);
    out.push('"');
    proof {
        assert(out@ =~= old(out)@ + enc_str(s@));
    }
}

/// Parses a JSON string starting at `pos`: the decoded text and the
/// position just past the closing quote, exactly as the string grammar
/// says.
fn parse_string_at(v: &Vec<char>, pos: usize) -> (r: Option<(Vec<char>, usize)>)
    requires
        pos <= v@.len(),
    ensures
        r matches Some((t, end)) ==> pos < end <= v@.len() && p_str(v@.skip(pos as int))
            == Some((t@, end - pos as int)),
        r is None ==> p_str(v@.skip(pos as int)) is None,
{
    if pos >= v.len() || v[pos] != '"' {
        proof {
            if pos < v@.len() {
                assert(v@.skip(pos as int).first() == v@[pos as int]);
            }
        }
        return None;
    }
    let ghost body = v@.skip(pos as int + 1);
    let mut decoded: Vec<char> = Vec::new();
    let mut cur: usize = pos + 1;
    loop
        invariant
            pos + 1 <= cur <= v@.len(),
            v@.subrange(pos as int + 1, cur as int) == escaped(decoded@),
            body == v@.skip(pos as int + 1),
            pos < v@.len(),
            v@[pos as int] == '"',
        decreases v@.len() - cur,
    {
        proof {
            lemma_p_strbody_prefix(decoded@, v@.skip(cur as int));
            assert(escaped(decoded@) + v@.skip(cur as int) =~= body);
        }
        if cur >= v.len() {
            proof {
                assert(v@.skip(cur as int).len() == 0);
                assert(v@.skip(pos as int).first() == '"');
                assert(v@.skip(pos as int).skip(1) =~= body);
            }
            return None;
        }
        let c = v[cur];
        if c == '"' {
            proof {
                assert(v@.skip(cur as int).first() == '"');
                assert(p_strbody(v@.skip(cur as int)) == Some((Seq::<char>::empty(), 1int)));
                assert(decoded@ + Seq::<char>::empty() =~= decoded@);
                assert(v@.skip(pos as int).first() == '"');
                assert(v@.skip(pos as int).skip(1) =~= body);
            }
            return Some((decoded, cur + 1));
        } else if c == '\\' {
            if cur + 1 >= v.len() {
                proof {
                    assert(v@.skip(cur as int).first() == '\\');
                    assert(v@.skip(cur as int).len() == 1);
                    assert(v@.skip(pos as int).first() == '"');
                    assert(v@.skip(pos as int).skip(1) =~= body);
                }
                return None;
            }
            let e = v[cur + 1];
            if e == '\\' || e == '"' {
                let ghost prev = decoded@;
                decoded.push(e);
                proof {
                    assert(decoded@ == prev.push(e));
                    assert(decoded@.drop_last() =~= prev);
                    lemma_escaped_push(prev, e);
                    assert(v@.subrange(pos as int + 1, cur as int + 2) =~= v@.subrange(
                        pos as int + 1,
                        cur as int,
                    ) + seq![v@[cur as int], v@[cur as int + 1]]);
                    assert(esc_char(e) =~= seq!['\\', e]);
                    assert(v@.subrange(pos as int + 1, cur as int + 2) =~= escaped(prev)
                        + esc_char(e));
                    assert(escaped(prev) + esc_char(e) == escaped(prev.push(e)));
                    assert(prev.push(e) =~= decoded@);
                }
                cur = cur + 2;
            } else {
                proof {
                    assert(v@.skip(cur as int).first() == '\\');
                    assert(v@.skip(cur as int)[1] == e);
                    assert(v@.skip(pos as int).first() == '"');
                    assert(v@.skip(pos as int).skip(1) =~= body);
                }
                return None;
            }
        } else {
            let ghost prev = decoded@;
            decoded.push(c);
            proof {
                assert(decoded@ == prev.push(c));
                lemma_escaped_push(prev, c);
                assert(esc_char(c) =~= seq![c]);
                assert(v@.subrange(pos as int + 1, cur as int + 1) =~= v@.subrange(
                    pos as int + 1,
                    cur as int,
                ) + seq![v@[cur as int]]);
                assert(v@.subrange(pos as int + 1, cur as int + 1) =~= escaped(prev)
                    + esc_char(c));
                assert(escaped(prev) + esc_char(c) == escaped(prev.push(c)));
                assert(prev.push(c) =~= decoded@);
            }
            cur = cur + 1;
        }
    }
}

/// A comma followed by a JSON string: one further element of an entry.
pub open spec fn p_comma_str(s: Seq<char>) -> Option<(Seq<char>, int)> {
    if s.len() >= 1 && s.first() == ',' {
        match p_str(s.skip(1)) {
            Some((t, n)) => Some((t, n + 1)),
            None => None,
        }
    } else {
        None
    }
}

/// One encoded entry: a JSON array of strings opened by its tag, with
/// the numeric id as a lowercase hex numeral.
pub open spec fn enc_entry(e: EntryModel) -> Seq<char> {
    match e {
        EntryModel::Valid { path, hash, id } => seq!['['] + enc_str("valid"@) + seq![',']
            + enc_str(path) + seq![','] + enc_str(hash) + seq![','] + enc_str(hex_digits(id))
            + seq![']'],
        EntryModel::Unknown { path, hash } => seq!['['] + enc_str("unknown"@) + seq![',']
            + enc_str(path) + seq![','] + enc_str(hash) + seq![']'],
        EntryModel::Invalid { path } => seq!['['] + enc_str("invalid"@) + seq![','] + enc_str(
            path,
        ) + seq![']'],
    }
}

/// What parsing one entry yields: the entry and the count consumed,
/// closing bracket included.
pub open spec fn p_entry(s: Seq<char>) -> Option<(EntryModel, int)> {
    if s.len() >= 1 && s.first() == '[' {
        match p_str(s.skip(1)) {
            Some((tag, n1)) => {
                let rest1 = s.skip(1 + n1);
                if tag == "valid"@ {
                    match p_comma_str(rest1) {
                        Some((path, n2)) => {
                            let rest2 = rest1.skip(n2);
                            match p_comma_str(rest2) {
                                Some((hash, n3)) => {
                                    let rest3 = rest2.skip(n3);
                                    match p_comma_str(rest3) {
                                        Some((idtxt, n4)) => {
                                            let rest4 = rest3.skip(n4);
                                            if rest4.len() >= 1 && rest4.first() == ']' {
                                                match parse_hex_u32_spec(idtxt) {
                                                    Some(id) => Some(
                                                        (
                                                            EntryModel::Valid { path, hash, id },
                                                            1 + n1 + n2 + n3 + n4 + 1,
                                                        ),
                                                    ),
                                                    None => None,
                                                }
                                            } else {
                                                None
                                            }
                                        },
                                        None => None,
                                    }
                                },
                                None => None,
                            }
                        },
                        None => None,
                    }
                } else if tag == "unknown"@ {
                    match p_comma_str(rest1) {
                        Some((path, n2)) => {
                            let rest2 = rest1.skip(n2);
                            match p_comma_str(rest2) {
                                Some((hash, n3)) => {
                                    let rest3 = rest2.skip(n3);
                                    if rest3.len() >= 1 && rest3.first() == ']' {
                                        Some((EntryModel::Unknown { path, hash }, 1 + n1 + n2 + n3 + 1))
                                    } else {
                                        None
                                    }
                                },
                                None => None,
                            }
                        },
                        None => None,
                    }
                } else if tag == "invalid"@ {
                    match p_comma_str(rest1) {
                        Some((path, n2)) => {
                            let rest2 = rest1.skip(n2);
                            if rest2.len() >= 1 && rest2.first() == ']' {
                                Some((EntryModel::Invalid { path }, 1 + n1 + n2 + 1))
                            } else {
                                None
                            }
                        },
                        None => None,
                    }
                } else {
                    None
                }
            },
            None => None,
        }
    } else {
        None
    }
}

/// The tags are pairwise distinct words.
proof fn lemma_tags_distinct()
    ensures
        "valid"@ != "unknown"@,
        "valid"@ != "invalid"@,
        "unknown"@ != "invalid"@,
{
    reveal_strlit("valid");
    reveal_strlit("unknown");
    reveal_strlit("invalid");
    assert("valid"@.len() == 5);
    assert("unknown"@.len() == 7);
    assert("invalid"@.len() == 7);
    assert("unknown"@[0] == 'u');
    assert("invalid"@[0] == 'i');
}

/// A comma-string round trip, whatever follows.
proof fn lemma_p_comma_str_round(t: Seq<char>, rest: Seq<char>)
    ensures
        p_comma_str(seq![','] + enc_str(t) + rest) == Some(
            (t, 1 + enc_str(t).len() as int),
        ),
{
    let s = seq![','] + enc_str(t) + rest;
    assert(s.first() == ',');
    assert(s.skip(1) =~= enc_str(t) + rest);
    lemma_p_str_round(t, rest);
}

/// Parsing an encoded entry gives the entry back, whatever follows it.
#[verifier::rlimit(100)]
pub proof fn lemma_p_entry_round(e: EntryModel, rest: Seq<char>)
    ensures
        p_entry(enc_entry(e) + rest) == Some((e, enc_entry(e).len() as int)),
{
    lemma_tags_distinct();
    let s = enc_entry(e) + rest;
    match e {
        EntryModel::Valid { path, hash, id } => {
            let r1 = seq![','] + enc_str(path) + (seq![','] + enc_str(hash) + (seq![',']
                + enc_str(hex_digits(id)) + (seq![']'] + rest)));
            assert(s.first() == '[');
            assert(s.skip(1) =~= enc_str("valid"@) + r1);
            lemma_p_str_round("valid"@, r1);
            assert(s.skip(1 + enc_str("valid"@).len() as int) =~= r1);
            let r2 = seq![','] + enc_str(hash) + (seq![','] + enc_str(hex_digits(id)) + (
            seq![']'] + rest));
            lemma_p_comma_str_round(path, r2);
            assert(r1 =~= seq![','] + enc_str(path) + r2);
            assert(r1.skip(1 + enc_str(path).len() as int) =~= r2);
            let r3 = seq![','] + enc_str(hex_digits(id)) + (seq![']'] + rest);
            lemma_p_comma_str_round(hash, r3);
            assert(r2 =~= seq![','] + enc_str(hash) + r3);
            assert(r2.skip(1 + enc_str(hash).len() as int) =~= r3);
            let r4 = seq![']'] + rest;
            lemma_p_comma_str_round(hex_digits(id), r4);
            assert(r3 =~= seq![','] + enc_str(hex_digits(id)) + r4);
            assert(r3.skip(1 + enc_str(hex_digits(id)).len() as int) =~= r4);
            assert(r4.first() == ']');
            crate::hex::lemma_hex_round_trip(id);
        },
        EntryModel::Unknown { path, hash } => {
            let r1 = seq![','] + enc_str(path) + (seq![','] + enc_str(hash) + (seq![']']
                + rest));
            assert(s.first() == '[');
            assert(s.skip(1) =~= enc_str("unknown"@) + r1);
            lemma_p_str_round("unknown"@, r1);
            assert(s.skip(1 + enc_str("unknown"@).len() as int) =~= r1);
            let r2 = seq![','] + enc_str(hash) + (seq![']'] + rest);
            lemma_p_comma_str_round(path, r2);
            assert(r1 =~= seq![','] + enc_str(path) + r2);
            assert(r1.skip(1 + enc_str(path).len() as int) =~= r2);
            let r3 = seq![']'] + rest;
            lemma_p_comma_str_round(hash, r3);
            assert(r2 =~= seq![','] + enc_str(hash) + r3);
            assert(r2.skip(1 + enc_str(hash).len() as int) =~= r3);
            assert(r3.first() == ']');
        },
        EntryModel::Invalid { path } => {
            let r1 = seq![','] + enc_str(path) + (seq![']'] + rest);
            assert(s.first() == '[');
            assert(s.skip(1) =~= enc_str("invalid"@) + r1);
            lemma_p_str_round("invalid"@, r1);
            assert(s.skip(1 + enc_str("invalid"@).len() as int) =~= r1);
            let r2 = seq![']'] + rest;
            lemma_p_comma_str_round(path, r2);
            assert(r1 =~= seq![','] + enc_str(path) + r2);
            assert(r1.skip(1 + enc_str(path).len() as int) =~= r2);
            assert(r2.first() == ']');
        },
    }
}

/// One or more encoded entries, comma-separated.
pub open spec fn enc_entries(es: Seq<EntryModel>) -> Seq<char>
    decreases es.len(),
{
    if es.len() == 0 {
        Seq::empty()
    } else if es.len() == 1 {
        enc_entry(es[0])
    } else {
        enc_entry(es.first()) + seq![','] + enc_entries(es.drop_first())
    }
}

/// A whole index file: a JSON array of encoded entries.
pub open spec fn enc_index(es: Seq<EntryModel>) -> Seq<char> {
    if es.len() == 0 {
        seq!['[', ']']
    } else {
        seq!['['] + enc_entries(es) + seq![']']
    }
}

/// What parsing one or more entries up to the closing bracket yields:
/// the entries and the count consumed, closing bracket included.
pub open spec fn p_entries(s: Seq<char>) -> Option<(Seq<EntryModel>, int)>
    decreases s.len(),
{
    match p_entry(s) {
        Some((e, n)) => {
            if 0 <= n < s.len() && s[n] == ',' {
                match p_entries(s.skip(n + 1)) {
                    Some((es, m)) => Some((seq![e] + es, n + 1 + m)),
                    None => None,
                }
            } else if 0 <= n < s.len() && s[n] == ']' {
                Some((seq![e], n + 1))
            } else {
                None
            }
        },
        None => None,
    }
}

/// What parsing a whole index file yields: the entries and the count
/// consumed.
pub open spec fn p_index(s: Seq<char>) -> Option<(Seq<EntryModel>, int)> {
    if s.len() >= 2 && s.first() == '[' && s[1] == ']' {
        Some((Seq::empty(), 2))
    } else if s.len() >= 1 && s.first() == '[' {
        match p_entries(s.skip(1)) {
            Some((es, m)) => Some((es, 1 + m)),
            None => None,
        }
    } else {
        None
    }
}

/// An encoded entry starts with `[` and is never empty.
proof fn lemma_enc_entry_shape(e: EntryModel)
    ensures
        enc_entry(e).len() >= 2,
        enc_entry(e).first() == '[',
{
}

proof fn lemma_p_entries_round(es: Seq<EntryModel>, rest: Seq<char>)
    requires
        es.len() >= 1,
    ensures
        p_entries(enc_entries(es) + seq![']'] + rest) == Some(
            (es, enc_entries(es).len() as int + 1),
        ),
    decreases es.len(),
{
    let s = enc_entries(es) + seq![']'] + rest;
    if es.len() == 1 {
        assert(s =~= enc_entry(es[0]) + (seq![']'] + rest));
        lemma_p_entry_round(es[0], seq![']'] + rest);
        let n = enc_entry(es[0]).len() as int;
        assert(s[n] == ']');
        assert(s[n] != ',');
        assert(seq![es[0]] =~= es);
    } else {
        let e = es.first();
        let tail = es.drop_first();
        assert(enc_entries(es) == enc_entry(e) + seq![','] + enc_entries(tail));
        let after = seq![','] + enc_entries(tail) + seq![']'] + rest;
        assert(s =~= enc_entry(e) + after);
        lemma_p_entry_round(e, after);
        let n = enc_entry(e).len() as int;
        assert(s[n] == ',') by {
            assert(s[n] == after.first());
        }
        assert(s.skip(n + 1) =~= enc_entries(tail) + seq![']'] + rest);
        lemma_p_entries_round(tail, rest);
        assert(seq![e] + tail =~= es);
    }
}

/// Parsing an encoded index gives the entries back, consuming exactly
/// the whole encoding: the persisted file and the in-memory index hold
/// the same entries.
pub proof fn lemma_index_round_trip(es: Seq<EntryModel>)
    ensures
        p_index(enc_index(es)) == Some((es, enc_index(es).len() as int)),
{
    let s = enc_index(es);
    if es.len() == 0 {
        assert(s.first() == '[');
        assert(s[1] == ']');
    } else {
        lemma_enc_entry_shape(es[0]);
        assert(s.first() == '[');
        assert(s[1] != ']') by {
            if es.len() == 1 {
                assert(s[1] == enc_entries(es)[0]);
                assert(enc_entries(es)[0] == enc_entry(es[0]).first());
            } else {
                assert(s[1] == enc_entries(es)[0]);
                assert(enc_entries(es)[0] == enc_entry(es[0]).first());
            }
        }
        assert(s.skip(1) =~= enc_entries(es) + seq![']'] + Seq::<char>::empty());
        lemma_p_entries_round(es, Seq::<char>::empty());
    }
}

/// Appends the encoding of one entry.
fn encode_entry_into(out: &mut Vec<char>, e: &MapData)
    ensures
        final(out)@ == old(out)@ + enc_entry(e@),
{
    out.push('[');
    match e {
        MapData::Valid(m) => {
            encode_str_into(out, "valid");
            out.push(',');
            encode_str_into(out, m.path.as_str());
            out.push(',');
            encode_str_into(out, m.hash.as_str());
            out.push(',');
            out.push('"');
            let digits = crate::hex::to_hex_digits(m.id);
            crate::chars::append_chars(out, &digits);
            out.push('"');
            out.push(']');
            proof {
                assert(escaped(hex_digits(m.id)) == hex_digits(m.id)) by {
                    lemma_hex_escape_free(m.id);
                }
                assert(out@ =~= old(out)@ + enc_entry(e@));
            }
        },
        MapData::Unknown(p, h) => {
            encode_str_into(out, "unknown");
            out.push(',');
            encode_str_into(out, p.as_str());
            out.push(',');
            encode_str_into(out, h.as_str());
            out.push(']');
            proof {
                assert(out@ =~= old(out)@ + enc_entry(e@));
            }
        },
        MapData::Invalid(p) => {
            encode_str_into(out, "invalid");
            out.push(',');
            encode_str_into(out, p.as_str());
            out.push(']');
            proof {
                assert(out@ =~= old(out)@ + enc_entry(e@));
            }
        },
    }
}

/// Hex digits contain nothing the string escaping touches.
proof fn lemma_hex_escape_free(n: u32)
    ensures
        escaped(hex_digits(n)) == hex_digits(n),
{
    lemma_hex_digits_chars(n);
    lemma_escape_free_digits(hex_digits(n));
}

proof fn lemma_escape_free_digits(s: Seq<char>)
    requires
        forall|k: int| 0 <= k < s.len() ==> #[trigger] s[k] != '\\' && s[k] != '"',
    ensures
        escaped(s) == s,
    decreases s.len(),
{
    if s.len() > 0 {
        assert(forall|k: int| 0 <= k < s.drop_first().len() ==> #[trigger] s.drop_first()[k]
            != '\\' && s.drop_first()[k] != '"');
        lemma_escape_free_digits(s.drop_first());
        assert(esc_char(s.first()) =~= seq![s.first()]);
        assert(escaped(s) =~= s);
    }
}

/// All the digit characters a hex numeral can hold are escape-free.
proof fn lemma_hex_digits_chars(n: u32)
    ensures
        forall|k: int| 0 <= k < hex_digits(n).len() ==> #[trigger] hex_digits(n)[k] != '\\'
            && hex_digits(n)[k] != '"',
    decreases n,
{
    if n < 16 {
    } else {
        lemma_hex_digits_chars(n / 16);
        assert forall|k: int| 0 <= k < hex_digits(n).len() implies #[trigger] hex_digits(
            n,
        )[k] != '\\' && hex_digits(n)[k] != '"' by {
            if k < hex_digits(n).len() - 1 {
                assert(hex_digits(n)[k] == hex_digits(n / 16)[k]);
            } else {
                assert(hex_digits(n)[k] == crate::hex::hex_digit_char(n % 16));
            }
        }
    }
}

/// Renders a whole index as its file text.
pub fn encode_index(index: &Vec<MapData>) -> (r: String)
    ensures
        r@ == enc_index(index_view(index@)),
{
    let mut out: Vec<char> = Vec::new();
    out.push('[');
    if index.len() == 0 {
        out.push(']');
        proof {
            assert(out@ =~= enc_index(index_view(index@)));
        }
        return crate::chars::chars_to_string(&out);
    }
    let mut i: usize = 0;
    while i < index.len()
        invariant
            i <= index@.len(),
            index@.len() >= 1,
            i >= 1 ==> out@ == seq!['['] + enc_entries(index_view(index@).take(i as int)),
            i == 0 ==> out@ == seq!['['],
        decreases index.len() - i,
    {
        if i > 0 {
            out.push(',');
        }
        encode_entry_into(&mut out, &index[i]);
        proof {
            lemma_enc_entries_snoc(index_view(index@), i as int);
        }
        i = i + 1;
    }
    out.push(']');
    proof {
        assert(index_view(index@).take(index@.len() as int) =~= index_view(index@));
        assert(out@ =~= enc_index(index_view(index@)));
    }
    crate::chars::chars_to_string(&out)
}

/// Extending a nonempty entry run by one appends a comma and the entry;
/// the first entry starts the run.
proof fn lemma_enc_entries_snoc(es: Seq<EntryModel>, i: int)
    requires
        0 <= i < es.len(),
    ensures
        i == 0 ==> enc_entries(es.take(1)) == enc_entry(es[0]),
        i >= 1 ==> enc_entries(es.take(i + 1)) == enc_entries(es.take(i)) + seq![',']
            + enc_entry(es[i]),
    decreases i,
{
    if i == 0 {
        assert(es.take(1).len() == 1);
        assert(es.take(1)[0] == es[0]);
    } else {
        lemma_enc_entries_snoc(es, i - 1);
        lemma_enc_entries_step(es.take(i + 1), es.take(i), es[i]);
    }
}

/// Splitting a run of two or more entries at its head.
proof fn lemma_enc_entries_step(whole: Seq<EntryModel>, front: Seq<EntryModel>, last: EntryModel)
    requires
        whole.len() >= 2,
        front.len() == whole.len() - 1,
        forall|k: int| 0 <= k < front.len() ==> front[k] == whole[k],
        whole[whole.len() - 1] == last,
    ensures
        enc_entries(whole) == enc_entries(front) + seq![','] + enc_entry(last),
    decreases whole.len(),
{
    if whole.len() == 2 {
        assert(whole.drop_first() =~= seq![last]);
        assert(front =~= seq![whole[0]]);
        assert(enc_entries(whole.drop_first()) == enc_entry(last));
        assert(enc_entries(front) == enc_entry(whole[0]));
        assert(enc_entries(whole) =~= enc_entries(front) + seq![','] + enc_entry(last));
    } else {
        lemma_enc_entries_step(whole.drop_first(), front.drop_first(), last);
        assert(front.first() == whole.first());
        assert(enc_entries(whole) == enc_entry(whole.first()) + seq![','] + enc_entries(
            whole.drop_first(),
        ));
        assert(enc_entries(front) == enc_entry(front.first()) + seq![','] + enc_entries(
            front.drop_first(),
        ));
        assert(enc_entries(whole) =~= enc_entries(front) + seq![','] + enc_entry(last));
    }
}

/// Parses a comma-led JSON string starting at `pos`.
fn parse_comma_string_at(v: &Vec<char>, pos: usize) -> (r: Option<(Vec<char>, usize)>)
    requires
        pos <= v@.len(),
    ensures
        r matches Some((t, end)) ==> pos < end <= v@.len() && p_comma_str(v@.skip(pos as int))
            == Some((t@, end - pos as int)),
        r is None ==> p_comma_str(v@.skip(pos as int)) is None,
{
    if pos >= v.len() || v[pos] != ',' {
        proof {
            if pos < v@.len() {
                assert(v@.skip(pos as int).first() == v@[pos as int]);
            }
        }
        return None;
    }
    proof {
        assert(v@.skip(pos as int).first() == ',');
        assert(v@.skip(pos as int).skip(1) =~= v@.skip(pos as int + 1));
    }
    match parse_string_at(v, pos + 1) {
        Some((t, end)) => Some((t, end)),
        None => None,
    }
}

/// Parses one entry starting at `pos`: the entry and the position just
/// past its closing bracket, exactly as the entry grammar says.
#[verifier::rlimit(100)]
fn parse_entry_at(v: &Vec<char>, pos: usize) -> (r: Option<(MapData, usize)>)
    requires
        pos <= v@.len(),
    ensures
        r matches Some((e, end)) ==> pos < end <= v@.len() && p_entry(v@.skip(pos as int))
            == Some((e@, end - pos as int)),
        r is None ==> p_entry(v@.skip(pos as int)) is None,
{
    let ghost s = v@.skip(pos as int);
    if pos >= v.len() || v[pos] != '[' {
        proof {
            if pos < v@.len() {
                assert(s.first() == v@[pos as int]);
            }
        }
        return None;
    }
    proof {
        assert(s.first() == '[');
        assert(s.skip(1) =~= v@.skip(pos as int + 1));
    }
    let (tag, p1) = match parse_string_at(v, pos + 1) {
        Some(x) => x,
        None => {
            return None;
        },
    };
    proof {
        assert(s.skip(1 + (p1 - pos - 1)) =~= v@.skip(p1 as int));
    }
    let tag_s = crate::chars::chars_to_string(&tag);
    if crate::chars::str_eq(tag_s.as_str(), "valid") {
        let (path, p2) = match parse_comma_string_at(v, p1) {
            Some(x) => x,
            None => {
                return None;
            },
        };
        proof {
            assert(v@.skip(p1 as int).skip(p2 - p1 as int) =~= v@.skip(p2 as int));
        }
        let (hash, p3) = match parse_comma_string_at(v, p2) {
            Some(x) => x,
            None => {
                return None;
            },
        };
        proof {
            assert(v@.skip(p2 as int).skip(p3 - p2 as int) =~= v@.skip(p3 as int));
        }
        let (idtxt, p4) = match parse_comma_string_at(v, p3) {
            Some(x) => x,
            None => {
                return None;
            },
        };
        proof {
            assert(v@.skip(p3 as int).skip(p4 - p3 as int) =~= v@.skip(p4 as int));
            if p4 < v@.len() {
                assert(v@.skip(p4 as int).first() == v@[p4 as int]);
            }
        }
        if p4 < v.len() && v[p4] == ']' {
            match crate::hex::parse_hex_u32(&idtxt) {
                Some(id) => Some(
                    (
                        MapData::Valid(
                            MapMetadata {
                                path: crate::chars::chars_to_string(&path),
                                hash: crate::chars::chars_to_string(&hash),
                                id,
                            },
                        ),
                        p4 + 1,
                    ),
                ),
                None => None,
            }
        } else {
            None
        }
    } else if crate::chars::str_eq(tag_s.as_str(), "unknown") {
        proof {
            lemma_tags_distinct();
        }
        let (path, p2) = match parse_comma_string_at(v, p1) {
            Some(x) => x,
            None => {
                return None;
            },
        };
        proof {
            assert(v@.skip(p1 as int).skip(p2 - p1 as int) =~= v@.skip(p2 as int));
            if p2 < v@.len() {
                assert(v@.skip(p2 as int).first() == v@[p2 as int]);
            }
        }
        let (hash, p3) = match parse_comma_string_at(v, p2) {
            Some(x) => x,
            None => {
                return None;
            },
        };
        proof {
            assert(v@.skip(p2 as int).skip(p3 - p2 as int) =~= v@.skip(p3 as int));
            if p3 < v@.len() {
                assert(v@.skip(p3 as int).first() == v@[p3 as int]);
            }
        }
        if p3 < v.len() && v[p3] == ']' {
            Some(
                (
                    MapData::Unknown(
                        crate::chars::chars_to_string(&path),
                        crate::chars::chars_to_string(&hash),
                    ),
                    p3 + 1,
                ),
            )
        } else {
            None
        }
    } else if crate::chars::str_eq(tag_s.as_str(), "invalid") {
        proof {
            lemma_tags_distinct();
        }
        let (path, p2) = match parse_comma_string_at(v, p1) {
            Some(x) => x,
            None => {
                return None;
            },
        };
        proof {
            assert(v@.skip(p1 as int).skip(p2 - p1 as int) =~= v@.skip(p2 as int));
            if p2 < v@.len() {
                assert(v@.skip(p2 as int).first() == v@[p2 as int]);
            }
        }
        if p2 < v.len() && v[p2] == ']' {
            Some((MapData::Invalid(crate::chars::chars_to_string(&path)), p2 + 1))
        } else {
            None
        }
    } else {
        None
    }
}

/// Parses one or more entries up to the closing bracket, starting at
/// `pos`.
fn parse_entries_at(v: &Vec<char>, pos: usize) -> (r: Option<(Vec<MapData>, usize)>)
    requires
        pos <= v@.len(),
    ensures
        r matches Some((es, end)) ==> pos < end <= v@.len() && p_entries(v@.skip(pos as int))
            == Some((index_view(es@), end - pos as int)),
        r is None ==> p_entries(v@.skip(pos as int)) is None,
    decreases v@.len() - pos,
{
    let ghost s = v@.skip(pos as int);
    let (e, n) = match parse_entry_at(v, pos) {
        Some(x) => x,
        None => {
            return None;
        },
    };
    proof {
        if n < v@.len() {
            assert(s[n - pos as int] == v@[n as int]);
        }
    }
    if n < v.len() && v[n] == ',' {
        proof {
            assert(s.skip(n - pos as int + 1) =~= v@.skip(n as int + 1));
        }
        match parse_entries_at(v, n + 1) {
            Some((mut es, end)) => {
                es.insert(0, e);
                proof {
                    assert(index_view(es@) =~= seq![es@[0]@] + index_view(es@.drop_first()));
                    assert(es@.drop_first() =~= es@.skip(1));
                }
                Some((es, end))
            },
            None => None,
        }
    } else if n < v.len() && v[n] == ']' {
        let mut es: Vec<MapData> = Vec::new();
        es.push(e);
        proof {
            assert(index_view(es@) =~= seq![es@[0]@]);
        }
        Some((es, n + 1))
    } else {
        None
    }
}

/// Parses a whole index file: the entries, provided the text is exactly
/// one encoded index and nothing more.
pub fn parse_index(text: &str) -> (r: Option<Vec<MapData>>)
    ensures
        r matches Some(out) ==> p_index(text@) == Some(
            (index_view(out@), text@.len() as int),
        ),
        r is None ==> !(p_index(text@) matches Some(pr) && pr.1 == text@.len()),
{
    let v = crate::chars::str_to_chars(text);
    if v.len() >= 2 && v[0] == '[' && v[1] == ']' {
        if v.len() == 2 {
            let out: Vec<MapData> = Vec::new();
            proof {
                assert(text@.first() == '[');
                assert(text@[1] == ']');
                assert(index_view(out@) =~= Seq::<EntryModel>::empty());
            }
            return Some(out);
        } else {
            proof {
                assert(text@.first() == '[');
                assert(text@[1] == ']');
            }
            return None;
        }
    }
    if v.len() < 1 || v[0] != '[' {
        proof {
            if v@.len() >= 1 {
                assert(text@.first() == v@[0]);
            }
        }
        return None;
    }
    proof {
        assert(text@.first() == '[');
        assert(!(text@.len() >= 2 && text@[1] == ']')) by {
            if v@.len() >= 2 {
                assert(v@[1] == text@[1]);
            }
        }
        assert(text@.skip(1) =~= v@.skip(1));
    }
    match parse_entries_at(&v, 1) {
        Some((es, end)) => {
            if end == v.len() {
                Some(es)
            } else {
                None
            }
        },
        None => None,
    }
}

} // verus!
