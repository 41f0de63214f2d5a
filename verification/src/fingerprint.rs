//! The fingerprint of a reviewed removal plan: the SHA-256 digest (through
//! `sha2`, shown with `hex`) of a compact JSON record of the selection, the
//! requested manager cleanup and the preview.
use crate::model::{texts, Impact, Match, Preview, PreviewModel, PreviewStatus};
use crate::text::{owned, push_char, push_str};
use sha2::Digest;
use vstd::prelude::*;

verus! {

/// The SHA-256 digest of the UTF-8 encoding of a text, as `sha2` computes it.
pub uninterp spec fn sha256_of(text: Seq<char>) -> Seq<u8>;

/// Calls `sha2::Sha256::digest` on the text's UTF-8 bytes; the digest is
/// named by `sha256_of` and is 32 bytes long.
#[verifier::external_body]
fn sha256_text(text: &str) -> (r: Vec<u8>)
    ensures
        r@ == sha256_of(text@),
        r@.len() == 32,
{
    sha2::Sha256::digest(text.as_bytes()).to_vec()
}

/// A lowercase hexadecimal digit.
pub open spec fn hex_digit(n: int) -> char {
    if n < 10 {
        (('0' as int) + n) as char
    } else {
        (('a' as int) + n - 10) as char
    }
}

/// Two lowercase hexadecimal digits per byte, high nibble first.
pub open spec fn hex_spec(bytes: Seq<u8>) -> Seq<char>
    decreases bytes.len(),
{
    if bytes.len() == 0 {
        Seq::empty()
    } else {
        hex_spec(bytes.drop_last()) + seq![
            hex_digit(bytes.last() as int / 16),
            hex_digit(bytes.last() as int % 16),
        ]
    }
}

/// Calls `hex::encode`: two lowercase hexadecimal digits per byte.
#[verifier::external_body]
fn hex_encode(bytes: &[u8]) -> (r: String)
    ensures
        r@ == hex_spec(bytes@),
{
    hex::encode(bytes)
}

/// A character as it appears inside a JSON string: quotes, backslashes
/// and control characters escaped the way `serde_json` writes them.
pub open spec fn json_char(c: char) -> Seq<char> {
    if c == '"' {
        seq!['\\', '"']
    } else if c == '\\' {
        seq!['\\', '\\']
    } else if c == '\n' {
        seq!['\\', 'n']
    } else if c == '\r' {
        seq!['\\', 'r']
    } else if c == '\t' {
        seq!['\\', 't']
    } else if c == '\x08' {
        seq!['\\', 'b']
    } else if c == '\x0c' {
        seq!['\\', 'f']
    } else if (c as int) < 0x20 {
        seq!['\\', 'u', '0', '0', hex_digit(c as int / 16), hex_digit(c as int % 16)]
    } else {
        seq![c]
    }
}

pub open spec fn json_body(s: Seq<char>) -> Seq<char>
    decreases s.len(),
{
    if s.len() == 0 {
        Seq::empty()
    } else {
        json_body(s.drop_last()) + json_char(s.last())
    }
}

/// A JSON string.
pub open spec fn json_string(s: Seq<char>) -> Seq<char> {
    seq!['"'] + json_body(s) + seq!['"']
}

/// JSON values separated by commas.
pub open spec fn json_joined(values: Seq<Seq<char>>) -> Seq<char>
    decreases values.len(),
{
    if values.len() == 0 {
        Seq::empty()
    } else if values.len() == 1 {
        values[0]
    } else {
        json_joined(values.drop_last()) + seq![','] + values.last()
    }
}

/// A JSON array of the given values.
pub open spec fn json_array(values: Seq<Seq<char>>) -> Seq<char> {
    seq!['['] + json_joined(values) + seq![']']
}

/// A JSON array of strings.
pub open spec fn json_strings(s: Seq<Seq<char>>) -> Seq<char> {
    json_array(s.map_values(|x: Seq<char>| json_string(x)))
}

/// How a status is written: in kebab case.
pub open spec fn status_name(s: PreviewStatus) -> Seq<char> {
    match s {
        PreviewStatus::Exact => "exact"@,
        PreviewStatus::Blocked => "blocked"@,
        PreviewStatus::NoOp => "no-op"@,
        PreviewStatus::Unknown => "unknown"@,
        PreviewStatus::Failed => "failed"@,
        PreviewStatus::Unsupported => "unsupported"@,
    }
}

/// The identity of a selected item: backend, id, version, scope,
/// installation and profile.
pub open spec fn item_record(m: Match) -> Seq<char> {
    json_strings(seq![m.backend@, m.id@, m.version@, m.scope@, m.installation@, m.profile@])
}

/// The record that is hashed, with its keys in ascending order.
pub open spec fn fingerprint_record(
    p: PreviewModel,
    items: Seq<Match>,
    cleanup: Seq<Seq<char>>,
) -> Seq<char> {
    "{\"blockers\":"@ + json_strings(p.blockers) + ",\"impact\":"@ + json_string(
        p.impact.label_spec(),
    ) + ",\"items\":"@ + json_array(items.map_values(|m: Match| item_record(m)))
        + ",\"manager_cleanup\":"@ + json_strings(cleanup) + ",\"planned\":"@ + json_strings(
        p.planned,
    ) + ",\"protected\":"@ + json_strings(p.protected) + ",\"status\":"@ + json_string(
        status_name(p.status),
    ) + ",\"unused\":"@ + json_strings(p.unused) + "}"@
}

/// The fingerprint: the hexadecimal SHA-256 digest of the record.
pub open spec fn fingerprint_spec(p: PreviewModel, items: Seq<Match>, cleanup: Seq<Seq<char>>) -> Seq<
    char,
> {
    hex_spec(sha256_of(fingerprint_record(p, items, cleanup)))
}

fn hex_char(n: u32) -> (r: char)
    requires
        n < 16,
    ensures
        r == hex_digit(n as int),
{
    if n < 10 {
        char_of_digit(n)
    } else {
        char_of_letter(n - 10)
    }
}

fn char_of_digit(n: u32) -> (r: char)
    requires
        n < 10,
    ensures
        r == (('0' as int) + n) as char,
{
    if n == 0 {
        '0'
    } else if n == 1 {
        '1'
    } else if n == 2 {
        '2'
    } else if n == 3 {
        '3'
    } else if n == 4 {
        '4'
    } else if n == 5 {
        '5'
    } else if n == 6 {
        '6'
    } else if n == 7 {
        '7'
    } else if n == 8 {
        '8'
    } else {
        '9'
    }
}

fn char_of_letter(n: u32) -> (r: char)
    requires
        n < 6,
    ensures
        r == (('a' as int) + n) as char,
{
    if n == 0 {
        'a'
    } else if n == 1 {
        'b'
    } else if n == 2 {
        'c'
    } else if n == 3 {
        'd'
    } else if n == 4 {
        'e'
    } else {
        'f'
    }
}

fn push_json_char(out: &mut String, c: char)
    ensures
        final(out)@ == old(out)@ + json_char(c),
{
    let ghost start = out@;
    if c == '"' {
        push_char(out, '\\');
        push_char(out, '"');
    } else if c == '\\' {
        push_char(out, '\\');
        push_char(out, '\\');
    } else if c == '\n' {
        push_char(out, '\\');
        push_char(out, 'n');
    } else if c == '\r' {
        push_char(out, '\\');
        push_char(out, 'r');
    } else if c == '\t' {
        push_char(out, '\\');
        push_char(out, 't');
    } else if c == '\x08' {
        push_char(out, '\\');
        push_char(out, 'b');
    } else if c == '\x0c' {
        push_char(out, '\\');
        push_char(out, 'f');
    } else if (c as u32) < 0x20 {
        let code = c as u32;
        push_char(out, '\\');
        push_char(out, 'u');
        push_char(out, '0');
        push_char(out, '0');
        push_char(out, hex_char(code / 16));
        push_char(out, hex_char(code % 16));
    } else {
        push_char(out, c);
    }
    assert(out@ =~= start + json_char(c));
}

fn push_json_string(out: &mut String, s: &str)
    ensures
        final(out)@ == old(out)@ + json_string(s@),
{
    let ghost start = out@;
    let cs = crate::text::chars_of(s);
    push_char(out, '"');
    for i in 0..cs.len()
        invariant
            out@ == start + seq!['"'] + json_body(cs@.take(i as int)),
    {
        let ghost before = out@;
        push_json_char(out, cs[i]);
        assert(cs@.take(i + 1).drop_last() =~= cs@.take(i as int));
        assert(out@ =~= start + seq!['"'] + json_body(cs@.take(i + 1)));
    }
    assert(cs@.take(cs@.len() as int) =~= cs@);
    push_char(out, '"');
    assert(out@ =~= start + json_string(s@));
}

proof fn lemma_json_joined_push(values: Seq<Seq<char>>, v: Seq<char>)
    ensures
        json_joined(values.push(v)) == if values.len() == 0 {
            v
        } else {
            json_joined(values) + seq![','] + v
        },
{
    assert(values.push(v).drop_last() =~= values);
    if values.len() == 0 {
        assert(values.push(v)[0] == v);
    }
}

fn push_json_strings(out: &mut String, values: &Vec<String>)
    ensures
        final(out)@ == old(out)@ + json_strings(texts(values@)),
{
    let ghost start = out@;
    let ghost f = |x: Seq<char>| json_string(x);
    push_char(out, '[');
    assert(texts(values@).take(0).map_values(f) =~= Seq::<Seq<char>>::empty());
    for i in 0..values.len()
        invariant
            f == (|x: Seq<char>| json_string(x)),
            out@ == start + seq!['['] + json_joined(texts(values@).take(i as int).map_values(f)),
    {
        let ghost done = texts(values@).take(i as int).map_values(f);
        if i > 0 {
            push_char(out, ',');
        }
        push_json_string(out, values[i].as_str());
        proof {
            assert(texts(values@).take(i + 1).map_values(f) =~= done.push(
                json_string(values@[i as int]@),
            ));
            lemma_json_joined_push(done, json_string(values@[i as int]@));
        }
        assert(out@ =~= start + seq!['['] + json_joined(texts(values@).take(i + 1).map_values(f)));
    }
    assert(texts(values@).take(values@.len() as int) =~= texts(values@));
    push_char(out, ']');
    assert(out@ =~= start + json_strings(texts(values@)));
}

fn push_item_record(out: &mut String, m: &Match)
    ensures
        final(out)@ == old(out)@ + item_record(*m),
{
    let mut fields: Vec<String> = Vec::new();
    fields.push(m.backend.clone());
    fields.push(m.id.clone());
    fields.push(m.version.clone());
    fields.push(m.scope.clone());
    fields.push(m.installation.clone());
    fields.push(m.profile.clone());
    assert(texts(fields@) =~= seq![m.backend@, m.id@, m.version@, m.scope@, m.installation@, m.profile@]);
    push_json_strings(out, &fields);
}

fn push_items(out: &mut String, items: &[Match])
    ensures
        final(out)@ == old(out)@ + json_array(items@.map_values(|m: Match| item_record(m))),
{
    let ghost start = out@;
    let ghost f = |m: Match| item_record(m);
    push_char(out, '[');
    assert(items@.take(0).map_values(f) =~= Seq::<Seq<char>>::empty());
    for i in 0..items.len()
        invariant
            f == (|m: Match| item_record(m)),
            out@ == start + seq!['['] + json_joined(items@.take(i as int).map_values(f)),
    {
        let ghost done = items@.take(i as int).map_values(f);
        if i > 0 {
            push_char(out, ',');
        }
        push_item_record(out, &items[i]);
        proof {
            assert(items@.take(i + 1).map_values(f) =~= done.push(item_record(items@[i as int])));
            lemma_json_joined_push(done, item_record(items@[i as int]));
        }
        assert(out@ =~= start + seq!['['] + json_joined(items@.take(i + 1).map_values(f)));
    }
    assert(items@.take(items@.len() as int) =~= items@);
    push_char(out, ']');
    assert(out@ =~= start + json_array(items@.map_values(f)));
}

fn status_text(s: PreviewStatus) -> (r: &'static str)
    ensures
        r@ == status_name(s),
{
    match s {
        PreviewStatus::Exact => "exact",
        PreviewStatus::Blocked => "blocked",
        PreviewStatus::NoOp => "no-op",
        PreviewStatus::Unknown => "unknown",
        PreviewStatus::Failed => "failed",
        PreviewStatus::Unsupported => "unsupported",
    }
}

/// The hashed record, written out.
pub fn fingerprint_text(preview: &Preview, items: &[Match], cleanup: &[String]) -> (r: String)
    ensures
        r@ == fingerprint_record(preview@, items@, texts(cleanup@)),
{
    let mut clean: Vec<String> = Vec::new();
    for i in 0..cleanup.len()
        invariant
            texts(clean@) == texts(cleanup@.take(i as int)),
    {
        let ghost before = clean@;
        clean.push(cleanup[i].clone());
        assert(texts(clean@) =~= texts(before).push(cleanup@[i as int]@));
        assert(texts(cleanup@.take(i + 1)) =~= texts(cleanup@.take(i as int)).push(
            cleanup@[i as int]@,
        ));
    }
    assert(cleanup@.take(cleanup@.len() as int) =~= cleanup@);
    let mut out = owned("{\"blockers\":");
    push_json_strings(&mut out, &preview.blockers);
    push_str(&mut out, ",\"impact\":");
    push_json_string(&mut out, preview.impact.label());
    push_str(&mut out, ",\"items\":");
    push_items(&mut out, items);
    push_str(&mut out, ",\"manager_cleanup\":");
    push_json_strings(&mut out, &clean);
    push_str(&mut out, ",\"planned\":");
    push_json_strings(&mut out, &preview.planned_removals);
    push_str(&mut out, ",\"protected\":");
    push_json_strings(&mut out, &preview.protected);
    push_str(&mut out, ",\"status\":");
    push_json_string(&mut out, status_text(preview.status));
    push_str(&mut out, ",\"unused\":");
    push_json_strings(&mut out, &preview.unused_dependencies);
    push_str(&mut out, "}");
    out
}

/// The fingerprint of a reviewed plan: it changes with the selection, the
/// requested manager cleanup, and everything the preview says except its
/// notes.
pub fn fingerprint(preview: &Preview, items: &[Match], cleanup_backends: &[String]) -> (r: String)
    ensures
        r@ == fingerprint_spec(preview@, items@, texts(cleanup_backends@)),
{
    let text = fingerprint_text(preview, items, cleanup_backends);
    let digest = sha256_text(text.as_str());
    hex_encode(digest.as_slice())
}

} // verus!
