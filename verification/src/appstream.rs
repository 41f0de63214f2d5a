//! AppStream metadata: the components that an XML catalogue describes,
//! with their ids, names, summaries, packages and binaries.
use crate::model::{texts, Match};
use crate::text::{chars_of, owned, push_char, push_str, str_eq, string_of, trim_chars, trim_spec};
use crate::util::{
    file_name, file_name_spec, join_words, package_base, package_base_spec, relevant, relevant_spec,
};
use quick_xml::events::Event;
use quick_xml::Reader;
use vstd::prelude::*;

verus! {

/// The events that `quick-xml` reads from a document, until its end or
/// its first error: `(0, local name)` opens an element, `(1, local name)`
/// closes one, `(2, text)` is character data, `(3, _)` is anything else.
pub uninterp spec fn xml_events_of(bytes: Seq<u8>) -> Seq<(u8, Seq<char>)>;

/// Reads a document with `quick_xml::Reader` (text trimmed at both ends)
/// and converts each event to a plain value; the events are named by
/// `xml_events_of`.
#[verifier::external_body]
fn xml_events(bytes: &[u8]) -> (r: Vec<(u8, String)>)
    ensures
        r@.map_values(|e: (u8, String)| (e.0, e.1@)) == xml_events_of(bytes@),
{
    let mut reader = Reader::from_reader(bytes);
    reader.config_mut().trim_text(true);
    let (mut buffer, mut events) = (Vec::new(), Vec::new());
    loop {
        events.push(match reader.read_event_into(&mut buffer) {
            Ok(Event::Start(e)) => (0, e.local_name().into_inner().to_owned()),
            Ok(Event::End(e)) => (1, e.local_name().into_inner().to_owned()),
            Ok(Event::Text(t)) => (2, t.to_string()),
            Ok(Event::Eof) | Err(_) => return events,
            Ok(_) => (3, String::new()),
        });
        buffer.clear();
    }
}

/// A component of an AppStream catalogue.
pub struct AppStreamRecord {
    pub id: String,
    pub name: String,
    pub summary: String,
    pub package: String,
    pub binaries: Vec<String>,
}

/// id, name, summary, package, binaries.
pub type RecordView = (Seq<char>, Seq<char>, Seq<char>, Seq<char>, Seq<Seq<char>>);

pub open spec fn record_view(r: AppStreamRecord) -> RecordView {
    (r.id@, r.name@, r.summary@, r.package@, texts(r.binaries@))
}

pub open spec fn records_view(v: Seq<AppStreamRecord>) -> Seq<RecordView> {
    v.map_values(|r: AppStreamRecord| record_view(r))
}

pub open spec fn empty_record() -> RecordView {
    (Seq::empty(), Seq::empty(), Seq::empty(), Seq::empty(), Seq::empty())
}

/// The element whose text is being read: 0 none, 1 id, 2 name, 3
/// summary, 4 package, 5 binary.
pub open spec fn field_for(name: Seq<char>) -> u8 {
    if name == "id"@ {
        1
    } else if name == "name"@ {
        2
    } else if name == "summary"@ {
        3
    } else if name == "pkgname"@ {
        4
    } else if name == "binary"@ {
        5
    } else {
        0
    }
}

/// A text read into a field of the open component: the first value of a
/// single field, every binary.
pub open spec fn with_text(r: RecordView, field: u8, value: Seq<char>) -> RecordView {
    if field == 1 && r.0.len() == 0 {
        (value, r.1, r.2, r.3, r.4)
    } else if field == 2 && r.1.len() == 0 {
        (r.0, value, r.2, r.3, r.4)
    } else if field == 3 && r.2.len() == 0 {
        (r.0, r.1, value, r.3, r.4)
    } else if field == 4 && r.3.len() == 0 {
        (r.0, r.1, r.2, value, r.4)
    } else if field == 5 {
        (r.0, r.1, r.2, r.3, r.4.push(value))
    } else {
        r
    }
}

/// A component is kept when it names an id, a package or a binary, and,
/// for a query, when one of its texts is relevant to it.
pub open spec fn keep_component(r: RecordView, query: Option<Seq<char>>) -> bool {
    (r.0.len() > 0 || r.3.len() > 0 || r.4.len() > 0) && match query {
        Some(q) => relevant_spec(q, seq![r.0, r.1, r.2, r.3, join_words(r.4)]),
        None => true,
    }
}

/// The reading state: the open component, the field being read and the
/// components kept so far.
pub type ReadState = (Option<RecordView>, u8, Seq<RecordView>);

pub open spec fn read_step(s: ReadState, e: (u8, Seq<char>), query: Option<Seq<char>>) -> ReadState {
    let (current, field, records) = s;
    if e.0 == 0 {
        if e.1 == "component"@ {
            (Some(empty_record()), 0, records)
        } else {
            (current, field_for(e.1), records)
        }
    } else if e.0 == 2 {
        match current {
            Some(r) => if field != 0 && trim_spec(e.1).len() > 0 {
                (Some(with_text(r, field, trim_spec(e.1))), field, records)
            } else {
                s
            },
            None => s,
        }
    } else if e.0 == 1 {
        if e.1 == "component"@ {
            match current {
                Some(r) => if keep_component(r, query) {
                    (None, 0, records.push(r))
                } else {
                    (None, 0, records)
                },
                None => (None, 0, records),
            }
        } else {
            (current, 0, records)
        }
    } else {
        s
    }
}

pub open spec fn read_events(events: Seq<(u8, Seq<char>)>, query: Option<Seq<char>>) -> ReadState
    decreases events.len(),
{
    if events.len() == 0 {
        (None, 0, Seq::empty())
    } else {
        read_step(read_events(events.drop_last(), query), events.last(), query)
    }
}

/// The components of a catalogue, and of them those relevant to the
/// query when there is one.
pub open spec fn appstream_spec(bytes: Seq<u8>, query: Option<Seq<char>>) -> Seq<RecordView> {
    read_events(xml_events_of(bytes), query).2
}

pub open spec fn current_view(c: Option<AppStreamRecord>) -> Option<RecordView> {
    match c {
        Some(r) => Some(record_view(r)),
        None => None,
    }
}

fn field_of(name: &str) -> (r: u8)
    ensures
        r == field_for(name@),
{
    if str_eq(name, "id") {
        1
    } else if str_eq(name, "name") {
        2
    } else if str_eq(name, "summary") {
        3
    } else if str_eq(name, "pkgname") {
        4
    } else if str_eq(name, "binary") {
        5
    } else {
        0
    }
}

fn new_record() -> (r: AppStreamRecord)
    ensures
        record_view(r) == empty_record(),
{
    let r = AppStreamRecord {
        id: String::new(),
        name: String::new(),
        summary: String::new(),
        package: String::new(),
        binaries: Vec::new(),
    };
    assert(texts(r.binaries@) =~= Seq::<Seq<char>>::empty());
    r
}

fn join_binaries(v: &Vec<String>) -> (r: String)
    ensures
        r@ == join_words(texts(v@)),
{
    let mut out = String::new();
    for i in 0..v.len()
        invariant
            out@ == join_words(texts(v@).take(i as int)),
    {
        if i > 0 {
            push_char(&mut out, ' ');
        }
        push_str(&mut out, v[i].as_str());
        assert(texts(v@).take(i + 1).drop_last() =~= texts(v@).take(i as int));
        assert(out@ =~= join_words(texts(v@).take(i + 1)));
    }
    assert(texts(v@).take(v@.len() as int) =~= texts(v@));
    out
}

fn keep_record(r: &AppStreamRecord, query: Option<&str>) -> (b: bool)
    ensures
        b == keep_component(record_view(*r), match query {
            Some(q) => Some(q@),
            None => None,
        }),
{
    if r.id.as_str().is_empty() && r.package.as_str().is_empty() && r.binaries.len() == 0 {
        return false;
    }
    match query {
        Some(q) => {
            let joined = join_binaries(&r.binaries);
            let values = [
                r.id.as_str(),
                r.name.as_str(),
                r.summary.as_str(),
                r.package.as_str(),
                joined.as_str(),
            ];
            let b = relevant(q, &values);
            assert(crate::util::views(values@) =~= seq![
                r.id@,
                r.name@,
                r.summary@,
                r.package@,
                join_words(texts(r.binaries@)),
            ]);
            b
        },
        None => true,
    }
}

/// The components that an AppStream catalogue describes, in document
/// order; with a query, only those relevant to it.
pub fn parse_appstream(bytes: &[u8], query: Option<&str>) -> (r: Vec<AppStreamRecord>)
    ensures
        records_view(r@) == appstream_spec(bytes@, match query {
            Some(q) => Some(q@),
            None => None,
        }),
{
    let events = xml_events(bytes);
    let ghost q = match query {
        Some(q) => Some(q@),
        None => None,
    };
    let ghost ev = events@.map_values(|e: (u8, String)| (e.0, e.1@));
    let mut current: Option<AppStreamRecord> = None;
    let mut field: u8 = 0;
    let mut records: Vec<AppStreamRecord> = Vec::new();
    assert(ev.take(0) =~= Seq::<(u8, Seq<char>)>::empty());
    assert(records_view(records@) =~= Seq::<RecordView>::empty());
    for i in 0..events.len()
        invariant
            ev == events@.map_values(|e: (u8, String)| (e.0, e.1@)),
            ev == xml_events_of(bytes@),
            q == match query {
                Some(s) => Some(s@),
                None => None,
            },
            read_events(ev.take(i as int), q) == (
                current_view(current),
                field,
                records_view(records@),
            ),
    {
        let ghost e = ev[i as int];
        assert(ev.take(i + 1).drop_last() =~= ev.take(i as int));
        assert(ev.take(i + 1).last() == e);
        let event = &events[i];
        assert(e == (event.0, event.1@));
        if event.0 == 0 {
            if str_eq(event.1.as_str(), "component") {
                current = Some(new_record());
                field = 0;
            } else {
                field = field_of(event.1.as_str());
            }
        } else if event.0 == 2 {
            let value = trim_chars(&chars_of(event.1.as_str()));
            if field != 0 && value.len() > 0 {
                match current {
                    Some(mut r) => {
                        let ghost old_view = record_view(r);
                        let text = string_of(&value);
                        if field == 1 && r.id.as_str().is_empty() {
                            r.id = text;
                        } else if field == 2 && r.name.as_str().is_empty() {
                            r.name = text;
                        } else if field == 3 && r.summary.as_str().is_empty() {
                            r.summary = text;
                        } else if field == 4 && r.package.as_str().is_empty() {
                            r.package = text;
                        } else if field == 5 {
                            r.binaries.push(text);
                            assert(texts(r.binaries@) =~= old_view.4.push(value@));
                        }
                        assert(record_view(r) == with_text(old_view, field, value@));
                        current = Some(r);
                    },
                    None => {},
                }
            }
        } else if event.0 == 1 {
            if str_eq(event.1.as_str(), "component") {
                match current {
                    Some(r) => {
                        if keep_record(&r, query) {
                            let ghost rv = records_view(records@);
                            let ghost one = record_view(r);
                            records.push(r);
                            assert(records_view(records@) =~= rv.push(one));
                        }
                    },
                    None => {},
                }
                current = None;
            }
            field = 0;
        }
    }
    assert(ev.take(events@.len() as int) =~= ev);
    records
}


// ---------------------------------------------------------------------------
// Components and installed packages
// ---------------------------------------------------------------------------

pub open spec fn same_base_pred(base: Seq<char>) -> spec_fn(Match) -> bool {
    |m: Match| package_base_spec(m.id@) == base
}

/// The installed packages whose base name is the component's package.
pub fn package_matches(items: &Vec<Match>, package: &str) -> (r: Vec<Match>)
    ensures
        r@ == items@.filter(same_base_pred(package_base_spec(package@))),
{
    let base = package_base(package);
    let ghost b = package_base_spec(package@);
    let mut out: Vec<Match> = Vec::new();
    assert(items@.take(0) =~= Seq::<Match>::empty());
    proof {
        reveal(Seq::filter);
    }
    for i in 0..items.len()
        invariant
            base@ == b,
            out@ == items@.take(i as int).filter(same_base_pred(b)),
    {
        proof {
            reveal(Seq::filter);
            assert(items@.take(i + 1).drop_last() =~= items@.take(i as int));
            assert(items@.take(i + 1).last() == items@[i as int]);
        }
        let item_base = package_base(items[i].id.as_str());
        if str_eq(item_base.as_str(), base.as_str()) {
            out.push(items[i].duplicate());
        }
    }
    assert(items@.take(items@.len() as int) =~= items@);
    out
}

/// The first binary of a component that names a command: its file name.
pub open spec fn first_command(binaries: Seq<Seq<char>>) -> Option<Seq<char>>
    decreases binaries.len(),
{
    if binaries.len() == 0 {
        None
    } else {
        match file_name_spec(binaries[0]) {
            Some(n) => Some(n),
            None => first_command(binaries.drop_first()),
        }
    }
}

/// The commands that a component's binaries name, in order.
pub open spec fn binary_commands(binaries: Seq<Seq<char>>) -> Seq<Seq<char>>
    decreases binaries.len(),
{
    if binaries.len() == 0 {
        Seq::empty()
    } else {
        match file_name_spec(binaries.last()) {
            Some(n) => binary_commands(binaries.drop_last()).push(n),
            None => binary_commands(binaries.drop_last()),
        }
    }
}

/// The command names of a component's binaries, to look their owners up
/// in turn.
pub fn component_commands(record: &AppStreamRecord) -> (r: Vec<String>)
    ensures
        texts(r@) == binary_commands(texts(record.binaries@)),
{
    let ghost bs = texts(record.binaries@);
    let mut out: Vec<String> = Vec::new();
    for i in 0..record.binaries.len()
        invariant
            bs == texts(record.binaries@),
            texts(out@) == binary_commands(bs.take(i as int)),
    {
        assert(bs.take(i + 1).drop_last() =~= bs.take(i as int));
        assert(bs.take(i + 1).last() == record.binaries@[i as int]@);
        match file_name(record.binaries[i].as_str()) {
            Some(n) => {
                let ghost before = texts(out@);
                out.push(string_of(&n));
                assert(texts(out@) =~= before.push(n@));
            },
            None => {},
        }
    }
    assert(bs.take(bs.len() as int) =~= bs);
    out
}

/// An installed package that an AppStream component stands for: named as
/// the component is, when it has a name, and with the component as
/// evidence.
pub fn with_component(owner: Match, record: &AppStreamRecord) -> (r: Match)
    ensures
        r.name@ == if record.name@.len() > 0 {
            record.name@
        } else {
            owner.name@
        },
        r.evidence@ == "AppStream component "@ + record.id@,
        r == (Match { name: r.name, evidence: r.evidence, ..owner }),
{
    let mut item = owner;
    if !record.name.as_str().is_empty() {
        item.name = record.name.clone();
    }
    let mut evidence = owned("AppStream component ");
    push_str(&mut evidence, record.id.as_str());
    item.evidence = evidence;
    item
}

} // verus!
