//! Reading the JSON that package tools print. `serde_json` parses the text
//! once; the library then reads the document through JSON pointers, and
//! the readers below pick from it the records that the listings use.
use crate::history::{DnfPackage, DnfTransaction};
use crate::inventory::{gather, lemma_gather_push};
use crate::model::texts;
use crate::provenance::opt_texts_of;
use crate::text::{owned, push_char, push_str, str_eq};
use crate::tools::{BrewRecord, PipxEnvironment};
use crate::util::views;
use vstd::prelude::*;

verus! {

#[verifier::external_type_specification]
#[verifier::external_body]
pub struct ExJsonValue(serde_json::Value);

/// A parsed JSON document, with the text it was read from.
pub struct JsonDoc {
    value: serde_json::Value,
    source: Ghost<Seq<char>>,
}

impl JsonDoc {
    /// The text that the document was read from.
    pub closed spec fn text(&self) -> Seq<char> {
        self.source@
    }
}

/// The string at a JSON pointer (RFC 6901) in the document that
/// `serde_json::from_str::<serde_json::Value>` reads from `text` (`null`
/// when the text is not JSON), as `Value::pointer` and `Value::as_str`
/// give it.
pub uninterp spec fn json_str_at(text: Seq<char>, pointer: Seq<char>) -> Option<Seq<char>>;

/// Whether a JSON pointer leads to a value in that document.
pub uninterp spec fn json_present_at(text: Seq<char>, pointer: Seq<char>) -> bool;

/// The length of the array at a JSON pointer in that document.
pub uninterp spec fn json_len_at(text: Seq<char>, pointer: Seq<char>) -> Option<usize>;

/// The keys of the object at a JSON pointer in that document, in the order
/// of `serde_json`'s map.
pub uninterp spec fn json_keys_at(text: Seq<char>, pointer: Seq<char>) -> Option<Seq<Seq<char>>>;

/// The boolean at a JSON pointer in that document.
pub uninterp spec fn json_bool_at(text: Seq<char>, pointer: Seq<char>) -> Option<bool>;

/// The integer at a JSON pointer in that document, as `Value::as_i64`
/// gives it.
pub uninterp spec fn json_int_at(text: Seq<char>, pointer: Seq<char>) -> Option<i64>;

/// Calls `serde_json::from_str::<serde_json::Value>`, keeping `null` when
/// the text is not JSON. The document is tied to the text it was read
/// from; nothing is claimed of its contents.
#[verifier::external_body]
pub fn read_json(text: &str) -> (r: JsonDoc)
    ensures
        r.text() == text@,
{
    JsonDoc {
        value: serde_json::from_str(text).unwrap_or(serde_json::Value::Null),
        source: Ghost(text@),
    }
}

/// Calls `Value::pointer` and `Value::as_str`; named by `json_str_at`.
#[verifier::external_body]
fn json_str(doc: &JsonDoc, pointer: &str) -> (r: Option<String>)
    ensures
        opt_texts_of(r) == json_str_at(doc.text(), pointer@),
{
    doc.value.pointer(pointer).and_then(serde_json::Value::as_str).map(str::to_owned)
}

/// Calls `Value::pointer`; named by `json_present_at`.
#[verifier::external_body]
fn json_present(doc: &JsonDoc, pointer: &str) -> (r: bool)
    ensures
        r == json_present_at(doc.text(), pointer@),
{
    doc.value.pointer(pointer).is_some()
}

/// Calls `Value::pointer` and `Value::as_array`; named by `json_len_at`.
#[verifier::external_body]
fn json_len(doc: &JsonDoc, pointer: &str) -> (r: Option<usize>)
    ensures
        r == json_len_at(doc.text(), pointer@),
{
    doc.value.pointer(pointer).and_then(serde_json::Value::as_array).map(Vec::len)
}

/// Calls `Value::pointer` and `Value::as_object`, taking the keys; named by
/// `json_keys_at`.
#[verifier::external_body]
fn json_keys(doc: &JsonDoc, pointer: &str) -> (r: Option<Vec<String>>)
    ensures
        match r {
            Some(k) => json_keys_at(doc.text(), pointer@) == Some(texts(k@)),
            None => json_keys_at(doc.text(), pointer@) is None,
        },
{
    doc.value.pointer(pointer).and_then(serde_json::Value::as_object).map(|o| o.keys().cloned().collect())
}

/// Calls `Value::pointer` and `Value::as_bool`; named by `json_bool_at`.
#[verifier::external_body]
fn json_bool(doc: &JsonDoc, pointer: &str) -> (r: Option<bool>)
    ensures
        r == json_bool_at(doc.text(), pointer@),
{
    doc.value.pointer(pointer).and_then(serde_json::Value::as_bool)
}

/// Calls `Value::pointer` and `Value::as_i64`; named by `json_int_at`.
#[verifier::external_body]
fn json_int(doc: &JsonDoc, pointer: &str) -> (r: Option<i64>)
    ensures
        r == json_int_at(doc.text(), pointer@),
{
    doc.value.pointer(pointer).and_then(serde_json::Value::as_i64)
}

// ---------------------------------------------------------------------------
// Pointers
// ---------------------------------------------------------------------------

/// A key as a JSON pointer token: `~` becomes `~0` and `/` becomes `~1`.
pub open spec fn escape_token(key: Seq<char>) -> Seq<char>
    decreases key.len(),
{
    if key.len() == 0 {
        Seq::empty()
    } else {
        let c = key.last();
        escape_token(key.drop_last()) + if c == '~' {
            seq!['~', '0']
        } else if c == '/' {
            seq!['~', '1']
        } else {
            seq![c]
        }
    }
}

pub open spec fn digit_char(d: int) -> char {
    if d == 0 {
        '0'
    } else if d == 1 {
        '1'
    } else if d == 2 {
        '2'
    } else if d == 3 {
        '3'
    } else if d == 4 {
        '4'
    } else if d == 5 {
        '5'
    } else if d == 6 {
        '6'
    } else if d == 7 {
        '7'
    } else if d == 8 {
        '8'
    } else {
        '9'
    }
}

/// The decimal digits of a number.
pub open spec fn decimal(n: nat) -> Seq<char>
    decreases n,
{
    if n < 10 {
        seq![digit_char(n as int)]
    } else {
        decimal(n / 10) + seq![digit_char((n % 10) as int)]
    }
}

/// An integer as `i64::to_string` writes it.
pub open spec fn int_text(n: int) -> Seq<char> {
    if n < 0 {
        seq!['-'] + decimal((-n) as nat)
    } else {
        decimal(n as nat)
    }
}

/// The pointer to the member `key` of the value at `base`.
pub open spec fn child(base: Seq<char>, key: Seq<char>) -> Seq<char> {
    base + seq!['/'] + escape_token(key)
}

/// The pointer to the element `i` of the array at `base`.
pub open spec fn element(base: Seq<char>, i: nat) -> Seq<char> {
    base + seq!['/'] + decimal(i)
}

/// The pointers to the elements of the array at `base`, if it is one.
pub open spec fn elements(t: Seq<char>, base: Seq<char>) -> Seq<Seq<char>> {
    match json_len_at(t, base) {
        Some(n) => Seq::new(n as nat, |i: int| element(base, i as nat)),
        None => Seq::empty(),
    }
}

/// The strings among the elements of the array at `base`.
pub open spec fn strings_spec(t: Seq<char>, base: Seq<char>) -> Seq<Seq<char>> {
    gather(elements(t, base), |q: Seq<char>| json_str_at(t, q))
}

/// The pointers to the objects among the elements of the array at `base`.
pub open spec fn objects_spec(t: Seq<char>, base: Seq<char>) -> Seq<Seq<char>> {
    gather(
        elements(t, base),
        |q: Seq<char>|
            if json_keys_at(t, q) is Some {
                Some(q)
            } else {
                None
            },
    )
}

/// The first of the named members of the value at `base` that is a
/// string, or the empty text.
pub open spec fn field_text_spec(t: Seq<char>, base: Seq<char>, names: Seq<Seq<char>>) -> Seq<char>
    decreases names.len(),
{
    if names.len() == 0 {
        Seq::empty()
    } else {
        match json_str_at(t, child(base, names[0])) {
            Some(s) => s,
            None => field_text_spec(t, base, names.drop_first()),
        }
    }
}

fn escape_key(key: &str) -> (r: String)
    ensures
        r@ == escape_token(key@),
{
    let cs = crate::text::chars_of(key);
    let mut out = String::new();
    for i in 0..cs.len()
        invariant
            cs@ == key@,
            out@ == escape_token(key@.take(i as int)),
    {
        let c = cs[i];
        assert(key@.take(i + 1).drop_last() =~= key@.take(i as int));
        if c == '~' {
            push_char(&mut out, '~');
            push_char(&mut out, '0');
        } else if c == '/' {
            push_char(&mut out, '~');
            push_char(&mut out, '1');
        } else {
            push_char(&mut out, c);
        }
        assert(out@ =~= escape_token(key@.take(i + 1)));
    }
    assert(key@.take(cs.len() as int) =~= key@);
    out
}

fn digit(d: u64) -> (c: char)
    requires
        d < 10,
    ensures
        c == digit_char(d as int),
{
    if d == 0 {
        '0'
    } else if d == 1 {
        '1'
    } else if d == 2 {
        '2'
    } else if d == 3 {
        '3'
    } else if d == 4 {
        '4'
    } else if d == 5 {
        '5'
    } else if d == 6 {
        '6'
    } else if d == 7 {
        '7'
    } else if d == 8 {
        '8'
    } else {
        '9'
    }
}

fn decimal_text(n: u64) -> (r: String)
    ensures
        r@ == decimal(n as nat),
    decreases n,
{
    if n < 10 {
        let mut s = String::new();
        push_char(&mut s, digit(n));
        assert(s@ =~= decimal(n as nat));
        s
    } else {
        let mut s = decimal_text(n / 10);
        push_char(&mut s, digit(n % 10));
        assert(s@ =~= decimal(n as nat));
        s
    }
}

/// An integer as `i64::to_string` writes it.
pub fn integer_text(n: i64) -> (r: String)
    ensures
        r@ == int_text(n as int),
{
    if n < 0 {
        let magnitude: u64 = (-(n + 1)) as u64 + 1;
        let digits = decimal_text(magnitude);
        let mut s = owned("-");
        push_str(&mut s, digits.as_str());
        proof {
            reveal_strlit("-");
        }
        assert(s@ =~= int_text(n as int));
        s
    } else {
        decimal_text(n as u64)
    }
}

fn child_of(base: &str, key: &str) -> (r: String)
    ensures
        r@ == child(base@, key@),
{
    let mut s = owned(base);
    push_char(&mut s, '/');
    let k = escape_key(key);
    push_str(&mut s, k.as_str());
    s
}

fn element_of(base: &str, i: usize) -> (r: String)
    ensures
        r@ == element(base@, i as nat),
{
    let mut s = owned(base);
    push_char(&mut s, '/');
    let d = decimal_text(i as u64);
    push_str(&mut s, d.as_str());
    s
}

fn strings_at(doc: &JsonDoc, base: &str) -> (r: Vec<String>)
    ensures
        texts(r@) == strings_spec(doc.text(), base@),
{
    let ghost t = doc.text();
    let ghost f = |q: Seq<char>| json_str_at(t, q);
    let mut out: Vec<String> = Vec::new();
    let n = match json_len(doc, base) {
        Some(n) => n,
        None => {
            assert(elements(t, base@) =~= Seq::<Seq<char>>::empty());
            return out;
        },
    };
    let ghost es = elements(t, base@);
    for i in 0..n
        invariant
            t == doc.text(),
            f == (|q: Seq<char>| json_str_at(t, q)),
            json_len_at(t, base@) == Some(n),
            es == elements(t, base@),
            es.len() == n,
            texts(out@) == gather(es.take(i as int), f),
    {
        let p = element_of(base, i);
        proof {
            assert(es[i as int] == p@);
            assert(es.take(i + 1) =~= es.take(i as int).push(p@));
            lemma_gather_push(es.take(i as int), p@, f);
        }
        let ghost before = out@;
        match json_str(doc, p.as_str()) {
            Some(s) => {
                out.push(s);
                assert(texts(out@) =~= texts(before).push(out@.last()@));
            },
            None => {},
        }
    }
    assert(es.take(n as int) =~= es);
    out
}

fn objects_at(doc: &JsonDoc, base: &str) -> (r: Vec<String>)
    ensures
        texts(r@) == objects_spec(doc.text(), base@),
{
    let ghost t = doc.text();
    let ghost f = |q: Seq<char>|
        if json_keys_at(t, q) is Some {
            Some(q)
        } else {
            None
        };
    let mut out: Vec<String> = Vec::new();
    let n = match json_len(doc, base) {
        Some(n) => n,
        None => {
            assert(elements(t, base@) =~= Seq::<Seq<char>>::empty());
            return out;
        },
    };
    let ghost es = elements(t, base@);
    for i in 0..n
        invariant
            t == doc.text(),
            f == (|q: Seq<char>|
                if json_keys_at(t, q) is Some {
                    Some(q)
                } else {
                    None
                }),
            json_len_at(t, base@) == Some(n),
            es == elements(t, base@),
            es.len() == n,
            texts(out@) == gather(es.take(i as int), f),
    {
        let p = element_of(base, i);
        proof {
            assert(es[i as int] == p@);
            assert(es.take(i + 1) =~= es.take(i as int).push(p@));
            lemma_gather_push(es.take(i as int), p@, f);
        }
        let ghost before = out@;
        if json_keys(doc, p.as_str()).is_some() {
            out.push(p);
            assert(texts(out@) =~= texts(before).push(out@.last()@));
        }
    }
    assert(es.take(n as int) =~= es);
    out
}

fn field_text(doc: &JsonDoc, base: &str, names: &[&str]) -> (r: String)
    ensures
        r@ == field_text_spec(doc.text(), base@, views(names@)),
{
    let ghost t = doc.text();
    let ghost all = views(names@);
    assert(all.skip(0) =~= all);
    for i in 0..names.len()
        invariant
            t == doc.text(),
            all == views(names@),
            field_text_spec(t, base@, all) == field_text_spec(t, base@, all.skip(i as int)),
    {
        let p = child_of(base, names[i]);
        proof {
            assert(all.skip(i as int)[0] == names@[i as int]@);
            assert(all.skip(i as int).drop_first() =~= all.skip(i + 1));
        }
        match json_str(doc, p.as_str()) {
            Some(s) => {
                return s;
            },
            None => {},
        }
    }
    proof {
        assert(all.skip(names.len() as int) =~= Seq::<Seq<char>>::empty());
    }
    String::new()
}

fn element_pointers(doc: &JsonDoc, base: &str) -> (r: Vec<String>)
    ensures
        texts(r@) == elements(doc.text(), base@),
{
    let mut out: Vec<String> = Vec::new();
    let n = match json_len(doc, base) {
        Some(n) => n,
        None => {
            assert(texts(out@) =~= elements(doc.text(), base@));
            return out;
        },
    };
    for i in 0..n
        invariant
            json_len_at(doc.text(), base@) == Some(n),
            texts(out@) == elements(doc.text(), base@).take(i as int),
    {
        let p = element_of(base, i);
        let ghost before = out@;
        out.push(p);
        assert(texts(out@) =~= texts(before).push(out@.last()@));
        assert(elements(doc.text(), base@).take(i + 1) =~= elements(doc.text(), base@).take(
            i as int,
        ).push(element(base@, i as nat)));
    }
    assert(elements(doc.text(), base@).take(n as int) =~= elements(doc.text(), base@));
    out
}

fn member_pointers(base: &str, keys: &Vec<String>) -> (r: Vec<String>)
    ensures
        texts(r@) == texts(keys@).map_values(|k: Seq<char>| child(base@, k)),
{
    let mut out: Vec<String> = Vec::new();
    for i in 0..keys.len()
        invariant
            texts(out@) == texts(keys@).take(i as int).map_values(|k: Seq<char>| child(base@, k)),
    {
        let p = child_of(base, keys[i].as_str());
        let ghost before = out@;
        out.push(p);
        assert(texts(out@) =~= texts(before).push(out@.last()@));
        assert(texts(keys@).take(i + 1) =~= texts(keys@).take(i as int).push(keys@[i as int]@));
    }
    assert(texts(keys@).take(keys.len() as int) =~= texts(keys@));
    out
}

// ---------------------------------------------------------------------------
// rpm-ostree
// ---------------------------------------------------------------------------

/// The packages requested on the booted deployment (the first listed by
/// `rpm-ostree status --json`): its requested packages, then its requested
/// local packages; none when no deployment is listed.
pub open spec fn layered_spec(t: Seq<char>) -> Option<Seq<Seq<char>>> {
    let d = child(""@, "deployments"@);
    match json_len_at(t, d) {
        Some(n) => if n > 0 {
            let first = element(d, 0);
            Some(
                strings_spec(t, child(first, "requested-packages"@)) + strings_spec(
                    t,
                    child(first, "requested-local-packages"@),
                ),
            )
        } else {
            None
        },
        None => None,
    }
}

pub fn layered_packages(status: &str) -> (r: Option<Vec<String>>)
    ensures
        match r {
            Some(v) => layered_spec(status@) == Some(texts(v@)),
            None => layered_spec(status@) is None,
        },
{
    let doc = read_json(status);
    let d = child_of("", "deployments");
    match json_len(&doc, d.as_str()) {
        Some(n) => {
            if n == 0 {
                return None;
            }
        },
        None => {
            return None;
        },
    }
    let first = element_of(d.as_str(), 0);
    let a = child_of(first.as_str(), "requested-packages");
    let b = child_of(first.as_str(), "requested-local-packages");
    let mut out = strings_at(&doc, a.as_str());
    let mut more = strings_at(&doc, b.as_str());
    let ghost x = out@;
    let ghost y = more@;
    out.append(&mut more);
    assert(texts(out@) =~= texts(x) + texts(y));
    Some(out)
}

// ---------------------------------------------------------------------------
// Homebrew
// ---------------------------------------------------------------------------

pub open spec fn brew_view(r: BrewRecord) -> (
    bool,
    Option<Seq<char>>,
    Option<Seq<char>>,
    Option<Seq<char>>,
    Option<bool>,
) {
    (r.cask, opt_texts_of(r.id), opt_texts_of(r.version), opt_texts_of(r.tap), r.on_request)
}

/// The pointer to the last of a formula's or cask's installations.
pub open spec fn last_installed(t: Seq<char>, d: Seq<char>) -> Option<Seq<char>> {
    let inst = child(d, "installed"@);
    match json_len_at(t, inst) {
        Some(n) => if n > 0 {
            Some(element(inst, (n - 1) as nat))
        } else {
            None
        },
        None => None,
    }
}

/// A formula or cask of `brew info --json=v2 --installed`: its name (or
/// token), the version of its last installation (or its own), its tap and
/// whether that installation was requested.
pub open spec fn brew_entry_spec(t: Seq<char>, d: Seq<char>, cask: bool) -> (
    bool,
    Option<Seq<char>>,
    Option<Seq<char>>,
    Option<Seq<char>>,
    Option<bool>,
) {
    let last = last_installed(t, d);
    (
        cask,
        if json_present_at(t, child(d, "name"@)) {
            json_str_at(t, child(d, "name"@))
        } else {
            json_str_at(t, child(d, "token"@))
        },
        match last {
            Some(l) => if json_present_at(t, child(l, "version"@)) {
                json_str_at(t, child(l, "version"@))
            } else {
                json_str_at(t, child(d, "version"@))
            },
            None => json_str_at(t, child(d, "version"@)),
        },
        json_str_at(t, child(d, "tap"@)),
        match last {
            Some(l) => json_bool_at(t, child(l, "installed_on_request"@)),
            None => None,
        },
    )
}

/// The formulae, then the casks, of `brew info --json=v2 --installed`.
pub open spec fn brew_spec(t: Seq<char>) -> Seq<
    (bool, Option<Seq<char>>, Option<Seq<char>>, Option<Seq<char>>, Option<bool>),
> {
    elements(t, child(""@, "formulae"@)).map_values(|d: Seq<char>| brew_entry_spec(t, d, false))
        + elements(t, child(""@, "casks"@)).map_values(|d: Seq<char>| brew_entry_spec(t, d, true))
}

fn brew_entry(doc: &JsonDoc, d: &str, cask: bool) -> (r: BrewRecord)
    ensures
        brew_view(r) == brew_entry_spec(doc.text(), d@, cask),
{
    let inst = child_of(d, "installed");
    let last = match json_len(doc, inst.as_str()) {
        Some(n) => if n > 0 {
            Some(element_of(inst.as_str(), n - 1))
        } else {
            None
        },
        None => None,
    };
    let name = child_of(d, "name");
    let id = if json_present(doc, name.as_str()) {
        json_str(doc, name.as_str())
    } else {
        json_str(doc, child_of(d, "token").as_str())
    };
    let own_version = child_of(d, "version");
    let version = match &last {
        Some(l) => {
            let v = child_of(l.as_str(), "version");
            if json_present(doc, v.as_str()) {
                json_str(doc, v.as_str())
            } else {
                json_str(doc, own_version.as_str())
            }
        },
        None => json_str(doc, own_version.as_str()),
    };
    let tap = json_str(doc, child_of(d, "tap").as_str());
    let on_request = match &last {
        Some(l) => json_bool(doc, child_of(l.as_str(), "installed_on_request").as_str()),
        None => None,
    };
    BrewRecord { cask, id, version, tap, on_request }
}

fn brew_group(doc: &JsonDoc, key: &str, cask: bool, out: &mut Vec<BrewRecord>)
    ensures
        final(out)@.map_values(|b: BrewRecord| brew_view(b)) == old(out)@.map_values(
            |b: BrewRecord| brew_view(b),
        ) + elements(doc.text(), child(""@, key@)).map_values(
            |d: Seq<char>| brew_entry_spec(doc.text(), d, cask),
        ),
{
    let base = child_of("", key);
    let ps = element_pointers(doc, base.as_str());
    let ghost start = out@.map_values(|b: BrewRecord| brew_view(b));
    let ghost es = elements(doc.text(), base@);
    for i in 0..ps.len()
        invariant
            texts(ps@) == es,
            es == elements(doc.text(), base@),
            out@.map_values(|b: BrewRecord| brew_view(b)) == start + es.take(i as int).map_values(
                |d: Seq<char>| brew_entry_spec(doc.text(), d, cask),
            ),
    {
        let r = brew_entry(doc, ps[i].as_str(), cask);
        let ghost before = out@;
        out.push(r);
        proof {
            assert(es[i as int] == ps@[i as int]@);
            assert(out@.map_values(|b: BrewRecord| brew_view(b)) =~= before.map_values(
                |b: BrewRecord| brew_view(b),
            ).push(brew_view(r)));
            assert(es.take(i + 1) =~= es.take(i as int).push(es[i as int]));
            assert(es.take(i + 1).map_values(|d: Seq<char>| brew_entry_spec(doc.text(), d, cask))
                =~= es.take(i as int).map_values(
                |d: Seq<char>| brew_entry_spec(doc.text(), d, cask),
            ).push(brew_entry_spec(doc.text(), es[i as int], cask)));
        }
    }
    assert(es.take(ps.len() as int) =~= es);
}

/// The formulae and casks that `brew info --json=v2 --installed` printed.
pub fn brew_records(info: &str) -> (r: Vec<BrewRecord>)
    ensures
        r@.map_values(|b: BrewRecord| brew_view(b)) == brew_spec(info@),
{
    let doc = read_json(info);
    let mut out: Vec<BrewRecord> = Vec::new();
    brew_group(&doc, "formulae", false, &mut out);
    brew_group(&doc, "casks", true, &mut out);
    assert(out@.map_values(|b: BrewRecord| brew_view(b)) =~= brew_spec(info@));
    out
}

// ---------------------------------------------------------------------------
// Gear Lever
// ---------------------------------------------------------------------------

pub open spec fn opt4_view(r: (Option<String>, Option<String>, Option<String>, Option<String>)) -> (
    Option<Seq<char>>,
    Option<Seq<char>>,
    Option<Seq<char>>,
    Option<Seq<char>>,
) {
    (opt_texts_of(r.0), opt_texts_of(r.1), opt_texts_of(r.2), opt_texts_of(r.3))
}

/// The first of several optional texts that is given.
pub open spec fn first_given(a: Option<Seq<char>>, b: Option<Seq<char>>, c: Option<Seq<char>>) -> Option<
    Seq<char>,
> {
    match a {
        Some(x) => Some(x),
        None => match b {
            Some(x) => Some(x),
            None => c,
        },
    }
}

/// An installed AppImage of `gearlever --list-installed --json`: its name,
/// path, current version, and the first of its update, source and home
/// URLs that is given.
pub open spec fn gearlever_entry_spec(t: Seq<char>, q: Seq<char>) -> (
    Option<Seq<char>>,
    Option<Seq<char>>,
    Option<Seq<char>>,
    Option<Seq<char>>,
) {
    (
        json_str_at(t, child(q, "name"@)),
        json_str_at(t, child(q, "path"@)),
        json_str_at(t, child(q, "current_version"@)),
        first_given(
            json_str_at(t, child(q, "update_url"@)),
            json_str_at(t, child(q, "source_url"@)),
            json_str_at(t, child(q, "url"@)),
        ),
    )
}

fn gearlever_entry(doc: &JsonDoc, q: &str) -> (r: (Option<String>, Option<String>, Option<String>, Option<String>))
    ensures
        opt4_view(r) == gearlever_entry_spec(doc.text(), q@),
{
    let name = json_str(doc, child_of(q, "name").as_str());
    let path = json_str(doc, child_of(q, "path").as_str());
    let version = json_str(doc, child_of(q, "current_version").as_str());
    let origin = match json_str(doc, child_of(q, "update_url").as_str()) {
        Some(x) => Some(x),
        None => match json_str(doc, child_of(q, "source_url").as_str()) {
            Some(x) => Some(x),
            None => json_str(doc, child_of(q, "url").as_str()),
        },
    };
    (name, path, version, origin)
}

/// The installed AppImages in the JSON line that Gear Lever printed, each
/// as its name, path, version and origin.
pub fn gearlever_entries(line: &str) -> (r: Vec<(Option<String>, Option<String>, Option<String>, Option<String>)>)
    ensures
        r@.map_values(|e: (Option<String>, Option<String>, Option<String>, Option<String>)| opt4_view(e))
            == elements(line@, child(""@, "installed"@)).map_values(
            |q: Seq<char>| gearlever_entry_spec(line@, q),
        ),
{
    let doc = read_json(line);
    let base = child_of("", "installed");
    let ps = element_pointers(&doc, base.as_str());
    let ghost es = elements(line@, base@);
    let mut out: Vec<(Option<String>, Option<String>, Option<String>, Option<String>)> = Vec::new();
    for i in 0..ps.len()
        invariant
            doc.text() == line@,
            texts(ps@) == es,
            out@.map_values(
                |e: (Option<String>, Option<String>, Option<String>, Option<String>)| opt4_view(e),
            ) == es.take(i as int).map_values(|q: Seq<char>| gearlever_entry_spec(line@, q)),
    {
        let r = gearlever_entry(&doc, ps[i].as_str());
        let ghost before = out@;
        out.push(r);
        proof {
            assert(es[i as int] == ps@[i as int]@);
            assert(es.take(i + 1) =~= es.take(i as int).push(es[i as int]));
            let g = |e: (Option<String>, Option<String>, Option<String>, Option<String>)| opt4_view(e);
            let h = |q: Seq<char>| gearlever_entry_spec(line@, q);
            assert(out@.map_values(g) =~= before.map_values(g).push(g(r)));
            assert(es.take(i + 1).map_values(h) =~= es.take(i as int).map_values(h).push(h(es[i as int])));
        }
    }
    assert(es.take(ps.len() as int) =~= es);
    out
}

// ---------------------------------------------------------------------------
// pipx
// ---------------------------------------------------------------------------

pub open spec fn pipx_view(r: PipxEnvironment) -> (
    Seq<char>,
    Option<Seq<char>>,
    Seq<Seq<char>>,
    Option<Seq<char>>,
    Option<Seq<char>>,
) {
    (r.environment@, opt_texts_of(r.package), texts(r.apps@), opt_texts_of(r.version), opt_texts_of(r.source))
}

/// The main package of a pipx environment: under its `metadata` member
/// when it has one, else under the environment itself.
pub open spec fn pipx_main(t: Seq<char>, p: Seq<char>) -> Seq<char> {
    let meta = child(p, "metadata"@);
    child(
        if json_present_at(t, meta) {
            meta
        } else {
            p
        },
        "main_package"@,
    )
}

/// An environment of `pipx list --json`: its name, and its main package's
/// name, commands, version and source.
pub open spec fn pipx_entry_spec(t: Seq<char>, k: Seq<char>) -> (
    Seq<char>,
    Option<Seq<char>>,
    Seq<Seq<char>>,
    Option<Seq<char>>,
    Option<Seq<char>>,
) {
    let main = pipx_main(t, child(child(""@, "venvs"@), k));
    (
        k,
        json_str_at(t, child(main, "package"@)),
        strings_spec(t, child(main, "apps"@)),
        json_str_at(t, child(main, "package_version"@)),
        json_str_at(t, child(main, "package_or_url"@)),
    )
}

/// The environments of `pipx list --json`, in the order of their names;
/// none when it lists no `venvs` object.
pub open spec fn pipx_spec(t: Seq<char>) -> Seq<
    (Seq<char>, Option<Seq<char>>, Seq<Seq<char>>, Option<Seq<char>>, Option<Seq<char>>),
> {
    match json_keys_at(t, child(""@, "venvs"@)) {
        Some(keys) => keys.map_values(|k: Seq<char>| pipx_entry_spec(t, k)),
        None => Seq::empty(),
    }
}

fn pipx_entry(doc: &JsonDoc, venvs: &str, key: &String) -> (r: PipxEnvironment)
    requires
        venvs@ == child(""@, "venvs"@),
    ensures
        pipx_view(r) == pipx_entry_spec(doc.text(), key@),
{
    let p = child_of(venvs, key.as_str());
    let meta = child_of(p.as_str(), "metadata");
    let holder = if json_present(doc, meta.as_str()) {
        meta
    } else {
        p
    };
    let main = child_of(holder.as_str(), "main_package");
    PipxEnvironment {
        environment: key.clone(),
        package: json_str(doc, child_of(main.as_str(), "package").as_str()),
        apps: strings_at(doc, child_of(main.as_str(), "apps").as_str()),
        version: json_str(doc, child_of(main.as_str(), "package_version").as_str()),
        source: json_str(doc, child_of(main.as_str(), "package_or_url").as_str()),
    }
}

/// The environments that `pipx list --json` printed.
pub fn pipx_environments(list: &str) -> (r: Vec<PipxEnvironment>)
    ensures
        r@.map_values(|e: PipxEnvironment| pipx_view(e)) == pipx_spec(list@),
{
    let doc = read_json(list);
    let venvs = child_of("", "venvs");
    let mut out: Vec<PipxEnvironment> = Vec::new();
    let keys = match json_keys(&doc, venvs.as_str()) {
        Some(k) => k,
        None => {
            assert(out@.map_values(|e: PipxEnvironment| pipx_view(e)) =~= pipx_spec(list@));
            return out;
        },
    };
    let ghost ks = texts(keys@);
    for i in 0..keys.len()
        invariant
            doc.text() == list@,
            venvs@ == child(""@, "venvs"@),
            ks == texts(keys@),
            json_keys_at(list@, venvs@) == Some(ks),
            out@.map_values(|e: PipxEnvironment| pipx_view(e)) == ks.take(i as int).map_values(
                |k: Seq<char>| pipx_entry_spec(list@, k),
            ),
    {
        let r = pipx_entry(&doc, venvs.as_str(), &keys[i]);
        let ghost before = out@;
        out.push(r);
        proof {
            assert(ks.take(i + 1) =~= ks.take(i as int).push(ks[i as int]));
            let g = |e: PipxEnvironment| pipx_view(e);
            let h = |k: Seq<char>| pipx_entry_spec(list@, k);
            assert(out@.map_values(g) =~= before.map_values(g).push(g(r)));
            assert(ks.take(i + 1).map_values(h) =~= ks.take(i as int).map_values(h).push(h(ks[i as int])));
        }
    }
    assert(ks.take(keys.len() as int) =~= ks);
    out
}

// ---------------------------------------------------------------------------
// npm and Cargo
// ---------------------------------------------------------------------------

pub open spec fn npm_view(r: (String, Option<String>, Option<String>)) -> (
    Seq<char>,
    Option<Seq<char>>,
    Option<Seq<char>>,
) {
    (r.0@, opt_texts_of(r.1), opt_texts_of(r.2))
}

/// The global packages of `npm list --global --depth=0 --json`, in the
/// order of their names: each name, version and resolved source.
pub open spec fn npm_spec(t: Seq<char>) -> Seq<(Seq<char>, Option<Seq<char>>, Option<Seq<char>>)> {
    let deps = child(""@, "dependencies"@);
    match json_keys_at(t, deps) {
        Some(keys) => keys.map_values(
            |k: Seq<char>|
                (
                    k,
                    json_str_at(t, child(child(deps, k), "version"@)),
                    json_str_at(t, child(child(deps, k), "resolved"@)),
                ),
        ),
        None => Seq::empty(),
    }
}

/// The global packages that `npm list --global --depth=0 --json` printed.
pub fn npm_dependencies(list: &str) -> (r: Vec<(String, Option<String>, Option<String>)>)
    ensures
        r@.map_values(|e: (String, Option<String>, Option<String>)| npm_view(e)) == npm_spec(list@),
{
    let doc = read_json(list);
    let deps = child_of("", "dependencies");
    let mut out: Vec<(String, Option<String>, Option<String>)> = Vec::new();
    let keys = match json_keys(&doc, deps.as_str()) {
        Some(k) => k,
        None => {
            assert(out@.map_values(|e: (String, Option<String>, Option<String>)| npm_view(e))
                =~= npm_spec(list@));
            return out;
        },
    };
    let ghost ks = texts(keys@);
    let ghost f = |k: Seq<char>|
        (
            k,
            json_str_at(list@, child(child(deps@, k), "version"@)),
            json_str_at(list@, child(child(deps@, k), "resolved"@)),
        );
    for i in 0..keys.len()
        invariant
            doc.text() == list@,
            deps@ == child(""@, "dependencies"@),
            ks == texts(keys@),
            json_keys_at(list@, deps@) == Some(ks),
            f == (|k: Seq<char>|
                (
                    k,
                    json_str_at(list@, child(child(deps@, k), "version"@)),
                    json_str_at(list@, child(child(deps@, k), "resolved"@)),
                )),
            out@.map_values(|e: (String, Option<String>, Option<String>)| npm_view(e)) == ks.take(
                i as int,
            ).map_values(f),
    {
        let p = child_of(deps.as_str(), keys[i].as_str());
        let version = json_str(&doc, child_of(p.as_str(), "version").as_str());
        let resolved = json_str(&doc, child_of(p.as_str(), "resolved").as_str());
        let ghost before = out@;
        let e = (keys[i].clone(), version, resolved);
        out.push(e);
        proof {
            let g = |e: (String, Option<String>, Option<String>)| npm_view(e);
            assert(ks.take(i + 1) =~= ks.take(i as int).push(ks[i as int]));
            assert(out@.map_values(g) =~= before.map_values(g).push(g(e)));
            assert(ks.take(i + 1).map_values(f) =~= ks.take(i as int).map_values(f).push(f(ks[i as int])));
        }
    }
    assert(ks.take(keys.len() as int) =~= ks);
    assert(out@.map_values(|e: (String, Option<String>, Option<String>)| npm_view(e)) =~= npm_spec(
        list@,
    ));
    out
}

pub open spec fn install_view(r: (String, Vec<String>)) -> (Seq<char>, Seq<Seq<char>>) {
    (r.0@, texts(r.1@))
}

/// The installs recorded in Cargo's `.crates2.json`, in the order of their
/// keys: each key and the binaries it installed.
pub open spec fn cargo_spec(t: Seq<char>) -> Seq<(Seq<char>, Seq<Seq<char>>)> {
    let installs = child(""@, "installs"@);
    match json_keys_at(t, installs) {
        Some(keys) => keys.map_values(
            |k: Seq<char>| (k, strings_spec(t, child(child(installs, k), "bins"@))),
        ),
        None => Seq::empty(),
    }
}

/// The installs that Cargo's `.crates2.json` records.
pub fn cargo_installs(crates: &str) -> (r: Vec<(String, Vec<String>)>)
    ensures
        r@.map_values(|e: (String, Vec<String>)| install_view(e)) == cargo_spec(crates@),
{
    let doc = read_json(crates);
    let installs = child_of("", "installs");
    let mut out: Vec<(String, Vec<String>)> = Vec::new();
    let keys = match json_keys(&doc, installs.as_str()) {
        Some(k) => k,
        None => {
            assert(out@.map_values(|e: (String, Vec<String>)| install_view(e)) =~= cargo_spec(crates@));
            return out;
        },
    };
    let ghost ks = texts(keys@);
    let ghost f = |k: Seq<char>| (k, strings_spec(crates@, child(child(installs@, k), "bins"@)));
    for i in 0..keys.len()
        invariant
            doc.text() == crates@,
            installs@ == child(""@, "installs"@),
            ks == texts(keys@),
            json_keys_at(crates@, installs@) == Some(ks),
            f == (|k: Seq<char>| (k, strings_spec(crates@, child(child(installs@, k), "bins"@)))),
            out@.map_values(|e: (String, Vec<String>)| install_view(e)) == ks.take(i as int).map_values(f),
    {
        let p = child_of(installs.as_str(), keys[i].as_str());
        let bins = strings_at(&doc, child_of(p.as_str(), "bins").as_str());
        let ghost before = out@;
        let e = (keys[i].clone(), bins);
        out.push(e);
        proof {
            let g = |e: (String, Vec<String>)| install_view(e);
            assert(ks.take(i + 1) =~= ks.take(i as int).push(ks[i as int]));
            assert(out@.map_values(g) =~= before.map_values(g).push(g(e)));
            assert(ks.take(i + 1).map_values(f) =~= ks.take(i as int).map_values(f).push(f(ks[i as int])));
        }
    }
    assert(ks.take(keys.len() as int) =~= ks);
    assert(out@.map_values(|e: (String, Vec<String>)| install_view(e)) =~= cargo_spec(crates@));
    out
}

// ---------------------------------------------------------------------------
// Conda
// ---------------------------------------------------------------------------

/// The environment prefixes that `conda env list --json` printed.
pub fn conda_profiles(list: &str) -> (r: Vec<String>)
    ensures
        texts(r@) == strings_spec(list@, child(""@, "envs"@)),
{
    let doc = read_json(list);
    strings_at(&doc, child_of("", "envs").as_str())
}

pub open spec fn triple_view(r: (Option<String>, Option<String>, Option<String>)) -> (
    Option<Seq<char>>,
    Option<Seq<char>>,
    Option<Seq<char>>,
) {
    (opt_texts_of(r.0), opt_texts_of(r.1), opt_texts_of(r.2))
}

/// A package of `conda list --json`: its name, version and channel.
pub open spec fn conda_entry_spec(t: Seq<char>, q: Seq<char>) -> (
    Option<Seq<char>>,
    Option<Seq<char>>,
    Option<Seq<char>>,
) {
    (json_str_at(t, child(q, "name"@)), json_str_at(t, child(q, "version"@)), json_str_at(t, child(q, "channel"@)))
}

/// The packages that `conda list --json` printed (a JSON array).
pub fn conda_packages(list: &str) -> (r: Vec<(Option<String>, Option<String>, Option<String>)>)
    ensures
        r@.map_values(|e: (Option<String>, Option<String>, Option<String>)| triple_view(e))
            == elements(list@, ""@).map_values(|q: Seq<char>| conda_entry_spec(list@, q)),
{
    let doc = read_json(list);
    let ps = element_pointers(&doc, "");
    let ghost es = elements(list@, ""@);
    let mut out: Vec<(Option<String>, Option<String>, Option<String>)> = Vec::new();
    for i in 0..ps.len()
        invariant
            doc.text() == list@,
            texts(ps@) == es,
            out@.map_values(|e: (Option<String>, Option<String>, Option<String>)| triple_view(e))
                == es.take(i as int).map_values(|q: Seq<char>| conda_entry_spec(list@, q)),
    {
        let q = ps[i].as_str();
        let name = json_str(&doc, child_of(q, "name").as_str());
        let version = json_str(&doc, child_of(q, "version").as_str());
        let channel = json_str(&doc, child_of(q, "channel").as_str());
        let ghost before = out@;
        let e = (name, version, channel);
        out.push(e);
        proof {
            let g = |e: (Option<String>, Option<String>, Option<String>)| triple_view(e);
            let h = |q: Seq<char>| conda_entry_spec(list@, q);
            assert(es[i as int] == ps@[i as int]@);
            assert(es.take(i + 1) =~= es.take(i as int).push(es[i as int]));
            assert(out@.map_values(g) =~= before.map_values(g).push(g(e)));
            assert(es.take(i + 1).map_values(h) =~= es.take(i as int).map_values(h).push(h(es[i as int])));
        }
    }
    assert(es.take(ps.len() as int) =~= es);
    out
}

// ---------------------------------------------------------------------------
// DNF 5 history
// ---------------------------------------------------------------------------

/// The transactions of `dnf5 history list --json` (a JSON array), newest
/// first: each one's id, and its command line or the empty text; none when
/// the text is not a JSON array.
pub open spec fn dnf5_summaries_spec(t: Seq<char>) -> Option<Seq<(Option<i64>, Seq<char>)>> {
    match json_len_at(t, ""@) {
        Some(n) => Some(
            Seq::new(
                n as nat,
                |i: int|
                    {
                        let q = element(""@, (n - 1 - i) as nat);
                        (
                            json_int_at(t, child(q, "id"@)),
                            match json_str_at(t, child(q, "command_line"@)) {
                                Some(c) => c,
                                None => Seq::empty(),
                            },
                        )
                    },
            ),
        ),
        None => None,
    }
}

pub open spec fn summary_view(r: (Option<i64>, String)) -> (Option<i64>, Seq<char>) {
    (r.0, r.1@)
}

/// The transactions that `dnf5 history list --json` printed, newest first.
pub fn dnf5_summaries(listed: &str) -> (r: Option<Vec<(Option<i64>, String)>>)
    ensures
        match r {
            Some(v) => dnf5_summaries_spec(listed@) == Some(
                v@.map_values(|e: (Option<i64>, String)| summary_view(e)),
            ),
            None => dnf5_summaries_spec(listed@) is None,
        },
{
    let doc = read_json(listed);
    let n = match json_len(&doc, "") {
        Some(n) => n,
        None => {
            return None;
        },
    };
    let ghost f = |i: int|
        {
            let q = element(""@, (n - 1 - i) as nat);
            (
                json_int_at(listed@, child(q, "id"@)),
                match json_str_at(listed@, child(q, "command_line"@)) {
                    Some(c) => c,
                    None => Seq::<char>::empty(),
                },
            )
        };
    let mut out: Vec<(Option<i64>, String)> = Vec::new();
    for i in 0..n
        invariant
            doc.text() == listed@,
            json_len_at(listed@, ""@) == Some(n),
            f == (|i: int|
                {
                    let q = element(""@, (n - 1 - i) as nat);
                    (
                        json_int_at(listed@, child(q, "id"@)),
                        match json_str_at(listed@, child(q, "command_line"@)) {
                            Some(c) => c,
                            None => Seq::<char>::empty(),
                        },
                    )
                }),
            out@.map_values(|e: (Option<i64>, String)| summary_view(e)) =~= Seq::new(i as nat, f),
    {
        let q = element_of("", n - 1 - i);
        let id = json_int(&doc, child_of(q.as_str(), "id").as_str());
        let command = match json_str(&doc, child_of(q.as_str(), "command_line").as_str()) {
            Some(c) => c,
            None => String::new(),
        };
        let ghost before = out@;
        let e = (id, command);
        out.push(e);
        proof {
            let g = |e: (Option<i64>, String)| summary_view(e);
            assert(out@.map_values(g) =~= before.map_values(g).push(g(e)));
            assert(Seq::new((i + 1) as nat, f) =~= Seq::new(i as nat, f).push(f(i as int)));
        }
    }
    Some(out)
}

pub open spec fn package_view(p: DnfPackage) -> (Seq<char>, Seq<char>, Seq<char>, Seq<char>, Seq<char>) {
    (p.name@, p.nevra@, p.action@, p.reason@, p.repository@)
}

pub open spec fn pair_view(p: (String, String)) -> (Seq<char>, Seq<char>) {
    (p.0@, p.1@)
}

pub open spec fn transaction_view(t: DnfTransaction) -> (
    Seq<char>,
    Seq<char>,
    Seq<char>,
    Seq<(Seq<char>, Seq<char>, Seq<char>, Seq<char>, Seq<char>)>,
    Seq<(Seq<char>, Seq<char>)>,
    Seq<(Seq<char>, Seq<char>)>,
) {
    (
        t.id@,
        t.command@,
        t.summary_command@,
        t.packages@.map_values(|p: DnfPackage| package_view(p)),
        t.groups@.map_values(|p: (String, String)| pair_view(p)),
        t.environments@.map_values(|p: (String, String)| pair_view(p)),
    )
}

/// The transaction that `dnf5 history info --json` describes: the first
/// element when it printed a non-empty array, else the document itself.
pub open spec fn dnf5_detail(t: Seq<char>) -> Seq<char> {
    match json_len_at(t, ""@) {
        Some(n) => if n > 0 {
            element(""@, 0)
        } else {
            ""@
        },
        None => ""@,
    }
}

/// A package of the transaction: its name, NEVRA, action, reason and
/// repository (or repository id).
pub open spec fn dnf5_package_spec(t: Seq<char>, q: Seq<char>) -> (
    Seq<char>,
    Seq<char>,
    Seq<char>,
    Seq<char>,
    Seq<char>,
) {
    (
        field_text_spec(t, q, seq!["name"@]),
        field_text_spec(t, q, seq!["nevra"@]),
        field_text_spec(t, q, seq!["action"@]),
        field_text_spec(t, q, seq!["reason"@]),
        field_text_spec(t, q, seq!["repository"@, "repo_id"@]),
    )
}

/// The groups (or environments) of the transaction that are objects: each
/// one's action and its first named id.
pub open spec fn dnf5_pairs_spec(t: Seq<char>, base: Seq<char>, key: Seq<char>, names: Seq<Seq<char>>) -> Seq<
    (Seq<char>, Seq<char>),
> {
    objects_spec(t, child(base, key)).map_values(
        |q: Seq<char>| (field_text_spec(t, q, seq!["action"@]), field_text_spec(t, q, names)),
    )
}

/// The DNF 5 transaction `id` as `dnf5 history info --json` describes it,
/// with the command line of its summary; none when the description is not
/// an object (or an array whose first element is one).
pub open spec fn dnf5_transaction_spec(id: i64, summary: Seq<char>, t: Seq<char>) -> Option<
    (
        Seq<char>,
        Seq<char>,
        Seq<char>,
        Seq<(Seq<char>, Seq<char>, Seq<char>, Seq<char>, Seq<char>)>,
        Seq<(Seq<char>, Seq<char>)>,
        Seq<(Seq<char>, Seq<char>)>,
    ),
> {
    let base = dnf5_detail(t);
    if json_keys_at(t, base) is Some {
        Some(
            (
                int_text(id as int),
                field_text_spec(t, base, seq!["description"@, "command_line"@]),
                summary,
                objects_spec(t, child(base, "packages"@)).map_values(
                    |q: Seq<char>| dnf5_package_spec(t, q),
                ),
                dnf5_pairs_spec(t, base, "groups"@, seq!["group"@, "id"@]),
                dnf5_pairs_spec(t, base, "environments"@, seq!["environment"@, "id"@]),
            ),
        )
    } else {
        None
    }
}

fn dnf5_package(doc: &JsonDoc, q: &str) -> (r: DnfPackage)
    ensures
        package_view(r) == dnf5_package_spec(doc.text(), q@),
{
    let name = ["name"];
    let nevra = ["nevra"];
    let action = ["action"];
    let reason = ["reason"];
    let repository = ["repository", "repo_id"];
    assert(views(name@) =~= seq!["name"@]);
    assert(views(nevra@) =~= seq!["nevra"@]);
    assert(views(action@) =~= seq!["action"@]);
    assert(views(reason@) =~= seq!["reason"@]);
    assert(views(repository@) =~= seq!["repository"@, "repo_id"@]);
    DnfPackage {
        name: field_text(doc, q, &name),
        nevra: field_text(doc, q, &nevra),
        action: field_text(doc, q, &action),
        reason: field_text(doc, q, &reason),
        repository: field_text(doc, q, &repository),
    }
}

fn dnf5_pairs(doc: &JsonDoc, base: &str, key: &str, names: &[&str]) -> (r: Vec<(String, String)>)
    ensures
        r@.map_values(|p: (String, String)| pair_view(p)) == dnf5_pairs_spec(
            doc.text(),
            base@,
            key@,
            views(names@),
        ),
{
    let ps = objects_at(doc, child_of(base, key).as_str());
    let ghost es = objects_spec(doc.text(), child(base@, key@));
    let ghost h = |q: Seq<char>|
        (field_text_spec(doc.text(), q, seq!["action"@]), field_text_spec(doc.text(), q, views(names@)));
    let action = ["action"];
    assert(views(action@) =~= seq!["action"@]);
    let mut out: Vec<(String, String)> = Vec::new();
    for i in 0..ps.len()
        invariant
            texts(ps@) == es,
            views(action@) == seq!["action"@],
            h == (|q: Seq<char>|
                (field_text_spec(doc.text(), q, seq!["action"@]), field_text_spec(doc.text(), q, views(names@)))),
            out@.map_values(|p: (String, String)| pair_view(p)) == es.take(i as int).map_values(h),
    {
        let q = ps[i].as_str();
        let e = (field_text(doc, q, &action), field_text(doc, q, names));
        let ghost before = out@;
        out.push(e);
        proof {
            let g = |p: (String, String)| pair_view(p);
            assert(es[i as int] == ps@[i as int]@);
            assert(es.take(i + 1) =~= es.take(i as int).push(es[i as int]));
            assert(out@.map_values(g) =~= before.map_values(g).push(g(e)));
            assert(es.take(i + 1).map_values(h) =~= es.take(i as int).map_values(h).push(h(es[i as int])));
        }
    }
    assert(es.take(ps.len() as int) =~= es);
    out
}

/// The DNF 5 transaction `id` that `dnf5 history info --json` described
/// in `details`; `summary_command` is the command line of its summary.
pub fn dnf5_transaction(id: i64, summary_command: &str, details: &str) -> (r: Option<DnfTransaction>)
    ensures
        match r {
            Some(t) => dnf5_transaction_spec(id, summary_command@, details@) == Some(transaction_view(t)),
            None => dnf5_transaction_spec(id, summary_command@, details@) is None,
        },
{
    let doc = read_json(details);
    let base = match json_len(&doc, "") {
        Some(n) => if n > 0 {
            element_of("", 0)
        } else {
            owned("")
        },
        None => owned(""),
    };
    if json_keys(&doc, base.as_str()).is_none() {
        return None;
    }
    let ps = objects_at(&doc, child_of(base.as_str(), "packages").as_str());
    let ghost es = objects_spec(details@, child(base@, "packages"@));
    let ghost h = |q: Seq<char>| dnf5_package_spec(details@, q);
    let mut packages: Vec<DnfPackage> = Vec::new();
    for i in 0..ps.len()
        invariant
            doc.text() == details@,
            texts(ps@) == es,
            h == (|q: Seq<char>| dnf5_package_spec(details@, q)),
            packages@.map_values(|p: DnfPackage| package_view(p)) == es.take(i as int).map_values(h),
    {
        let e = dnf5_package(&doc, ps[i].as_str());
        let ghost before = packages@;
        packages.push(e);
        proof {
            let g = |p: DnfPackage| package_view(p);
            assert(es[i as int] == ps@[i as int]@);
            assert(es.take(i + 1) =~= es.take(i as int).push(es[i as int]));
            assert(packages@.map_values(g) =~= before.map_values(g).push(g(e)));
            assert(es.take(i + 1).map_values(h) =~= es.take(i as int).map_values(h).push(h(es[i as int])));
        }
    }
    assert(es.take(ps.len() as int) =~= es);
    let command_names = ["description", "command_line"];
    let group_names = ["group", "id"];
    let environment_names = ["environment", "id"];
    assert(views(command_names@) =~= seq!["description"@, "command_line"@]);
    assert(views(group_names@) =~= seq!["group"@, "id"@]);
    assert(views(environment_names@) =~= seq!["environment"@, "id"@]);
    let t = DnfTransaction {
        id: integer_text(id),
        command: field_text(&doc, base.as_str(), &command_names),
        summary_command: owned(summary_command),
        packages,
        groups: dnf5_pairs(&doc, base.as_str(), "groups", &group_names),
        environments: dnf5_pairs(&doc, base.as_str(), "environments", &environment_names),
    };
    proof {
        reveal_strlit("");
    }
    assert(base@ == dnf5_detail(details@));
    Some(t)
}

} // verus!
