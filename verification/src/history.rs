//! What package managers' logs and histories say about how a package was
//! installed, and the parents that the dependency queries report.
use crate::lines::{lines_of, lines_spec, words_of, words_spec};
use crate::matching::{
    capture_all, capture_pair, capture_pairs, escape, is_match, regex_escaped, regex_groups,
    regex_matches, regex_pair, regex_pairs,
};
use crate::model::texts;
use crate::provenance::{compact_command, compact_spec, opt_texts_of, DnfRecord};
use crate::text::{
    chars_eq, chars_of, contains_seq, copy_chars, ends_with_chars, occurs_at, owned, push_str,
    slice_chars, starts_with_chars, str_eq, string_of, trim_chars, trim_spec,
};
use crate::util::{deep, package_base, package_base_spec};
use vstd::prelude::*;

verus! {

// ---------------------------------------------------------------------------
// APT's history log
// ---------------------------------------------------------------------------

/// `\n\n` starts at `at`.
pub open spec fn blank_at(s: Seq<char>, at: int) -> bool {
    0 <= at && at + 2 <= s.len() && s[at] == '\n' && s[at + 1] == '\n'
}

/// Where the last `\n\n` starts, searching from the end.
pub open spec fn last_blank(s: Seq<char>) -> Option<int> {
    if exists|at: int| #[trigger] blank_at(s, at) {
        Some(
            choose|at: int|
                #[trigger] blank_at(s, at) && forall|later: int|
                    at < later ==> !#[trigger] blank_at(s, later),
        )
    } else {
        None
    }
}

/// The blocks of a log between blank lines, last first (what
/// `str::rsplit("\n\n")` yields).
#[verifier::opaque]
pub open spec fn blocks_from_end(s: Seq<char>) -> Seq<Seq<char>>
    decreases s.len(),
{
    match last_blank(s) {
        Some(at) => if blank_at(s, at) {
            seq![s.skip(at + 2)] + blocks_from_end(s.take(at))
        } else {
            seq![s]
        },
        None => seq![s],
    }
}

proof fn lemma_blocks_split(s: Seq<char>, at: int)
    requires
        last_blank(s) == Some(at),
        blank_at(s, at),
    ensures
        blocks_from_end(s) == seq![s.skip(at + 2)] + blocks_from_end(s.take(at)),
{
    reveal(blocks_from_end);
}

proof fn lemma_blocks_whole(s: Seq<char>)
    requires
        last_blank(s) is None,
    ensures
        blocks_from_end(s) == seq![s],
{
    reveal(blocks_from_end);
}

fn last_blank_exec(s: &Vec<char>) -> (r: Option<usize>)
    ensures
        match r {
            Some(at) => last_blank(s@) == Some(at as int) && blank_at(s@, at as int),
            None => last_blank(s@) is None,
        },
{
    if s.len() < 2 {
        assert(forall|at: int| !#[trigger] blank_at(s@, at));
        return None;
    }
    let mut at: usize = s.len() - 1;
    while at > 0
        invariant
            s@.len() >= 2,
            at <= s@.len() - 1,
            forall|later: int| at <= later ==> !#[trigger] blank_at(s@, later),
        decreases at,
    {
        let k = at - 1;
        if s[k] == '\n' && s[k + 1] == '\n' {
            assert(blank_at(s@, k as int));
            let ghost c = choose|x: int|
                #[trigger] blank_at(s@, x) && forall|later: int| x < later ==> !#[trigger] blank_at(s@, later);
            assert(c == k) by {
                if c < k {
                    assert(!blank_at(s@, k as int));
                } else if c > k {
                    assert(!blank_at(s@, c));
                }
            }
            return Some(k);
        }
        assert(!blank_at(s@, k as int));
        at = k;
    }
    None
}

/// Splits a log into its blocks, last first.
#[verifier::rlimit(40)]
pub fn blocks_reversed(text: &str) -> (r: Vec<String>)
    ensures
        texts(r@) == blocks_from_end(text@),
{
    let mut rest = chars_of(text);
    let mut out: Vec<String> = Vec::new();
    let ghost whole = text@;
    loop
        invariant
            whole == text@,
            blocks_from_end(whole) == texts(out@) + blocks_from_end(rest@),
        decreases rest@.len(),
    {
        match last_blank_exec(&rest) {
            Some(at) => {
                let n = rest.len();
                assert(at + 2 <= n);
                let piece = slice_chars(&rest, at + 2, n);
                let head = slice_chars(&rest, 0, at);
                assert(piece@ =~= rest@.skip(at + 2));
                assert(head@ =~= rest@.take(at as int));
                let ghost before = texts(out@);
                out.push(string_of(&piece));
                assert(texts(out@) =~= before.push(piece@));
                proof {
                    lemma_blocks_split(rest@, at as int);
                }
                assert(texts(out@) + blocks_from_end(head@) =~= before + blocks_from_end(rest@));
                rest = head;
            },
            None => {
                let ghost before = texts(out@);
                proof {
                    lemma_blocks_whole(rest@);
                }
                out.push(string_of(&rest));
                assert(texts(out@) =~= before + blocks_from_end(rest@));
                return out;
            },
        }
    }
}

pub open spec fn apt_field_pattern() -> Seq<char> {
    "(?m)^(Start-Date|Commandline|Install|Remove|Purge):\\s*(.+)$"@
}

/// The expression that finds a package in an APT history list.
pub open spec fn apt_package_pattern(base: Seq<char>) -> Seq<char> {
    "(?:^|[,\\s])"@ + regex_escaped(base) + "(?::[^\\s,(]+)?(?:[:\\s,(]|$)"@
}

/// Reading one block's fields: the command, the date, and whether the
/// package was installed (and not then removed or purged).
pub open spec fn apt_fields(fields: Seq<(Seq<char>, Seq<char>)>, package: Seq<char>) -> (Seq<char>, Seq<char>, bool)
    decreases fields.len(),
{
    if fields.len() == 0 {
        (Seq::empty(), Seq::empty(), false)
    } else {
        let (command, date, event) = apt_fields(fields.drop_last(), package);
        let (name, value) = fields.last();
        if name == "Commandline"@ {
            (value, date, event)
        } else if name == "Start-Date"@ {
            (command, value, event)
        } else if name == "Install"@ {
            (command, date, event || regex_matches(package, value))
        } else if (name == "Remove"@ || name == "Purge"@) && regex_matches(package, value) {
            (command, date, false)
        } else {
            (command, date, event)
        }
    }
}

/// The history line for an installing block.
pub open spec fn apt_block_text(command: Seq<char>, date: Seq<char>) -> Seq<char> {
    "APT history"@ + (if date.len() == 0 {
        Seq::empty()
    } else {
        " on "@ + trim_spec(date)
    }) + ": "@ + (if command.len() == 0 {
        "unknown command"@
    } else {
        compact_spec(command)
    })
}

pub open spec fn apt_block(block: Seq<char>, package: Seq<char>) -> Option<Seq<char>> {
    let (command, date, event) = apt_fields(regex_pairs(apt_field_pattern(), block), package);
    if event {
        Some(apt_block_text(command, date))
    } else {
        None
    }
}

/// The newest installing block over the logs (newest log first, and in
/// each the last block first).
pub open spec fn apt_blocks(blocks: Seq<Seq<char>>, package: Seq<char>) -> Option<Seq<char>>
    decreases blocks.len(),
{
    if blocks.len() == 0 {
        None
    } else {
        match apt_block(blocks[0], package) {
            Some(t) => Some(t),
            None => apt_blocks(blocks.drop_first(), package),
        }
    }
}

pub open spec fn apt_logs(logs: Seq<Seq<char>>, package: Seq<char>) -> Option<Seq<char>>
    decreases logs.len(),
{
    if logs.len() == 0 {
        None
    } else {
        match apt_blocks(blocks_from_end(logs[0]), package) {
            Some(t) => Some(t),
            None => apt_logs(logs.drop_first(), package),
        }
    }
}

fn apt_block_exec(block: &str, package: &str) -> (r: Option<String>)
    ensures
        opt_texts_of(r) == apt_block(block@, package@),
{
    let fields = capture_pairs("(?m)^(Start-Date|Commandline|Install|Remove|Purge):\\s*(.+)$", block);
    let ghost fv = fields@.map_values(|p: (String, String)| (p.0@, p.1@));
    let mut command = String::new();
    let mut date = String::new();
    let mut event = false;
    for i in 0..fields.len()
        invariant
            fv == fields@.map_values(|p: (String, String)| (p.0@, p.1@)),
            apt_fields(fv.take(i as int), package@) == (command@, date@, event),
    {
        assert(fv.take(i + 1).drop_last() =~= fv.take(i as int));
        assert(fv.take(i + 1).last() == (fields@[i as int].0@, fields@[i as int].1@));
        let name = fields[i].0.as_str();
        let value = fields[i].1.as_str();
        if str_eq(name, "Commandline") {
            command = owned(value);
        } else if str_eq(name, "Start-Date") {
            date = owned(value);
        } else if str_eq(name, "Install") {
            event = event || is_match(package, value);
        } else if (str_eq(name, "Remove") || str_eq(name, "Purge")) && is_match(package, value) {
            event = false;
        }
    }
    assert(fv.take(fields@.len() as int) =~= fv);
    if !event {
        return None;
    }
    let mut line = owned("APT history");
    if !date.as_str().is_empty() {
        push_str(&mut line, " on ");
        push_str(&mut line, string_of(&trim_chars(&chars_of(date.as_str()))).as_str());
    }
    push_str(&mut line, ": ");
    if command.as_str().is_empty() {
        push_str(&mut line, "unknown command");
    } else {
        push_str(&mut line, compact_command(command.as_str()).as_str());
    }
    assert(line@ =~= apt_block_text(command@, date@));
    Some(line)
}

fn apt_log(log: &str, pattern: &str) -> (r: Option<String>)
    ensures
        opt_texts_of(r) == apt_blocks(blocks_from_end(log@), pattern@),
{
    let blocks = blocks_reversed(log);
    let ghost bs = texts(blocks@);
    let mut j: usize = 0;
    assert(bs.skip(0) =~= bs);
    while j < blocks.len()
        invariant
            j <= blocks@.len(),
            bs == texts(blocks@),
            bs == blocks_from_end(log@),
            apt_blocks(bs, pattern@) == apt_blocks(bs.skip(j as int), pattern@),
        decreases blocks@.len() - j,
    {
        assert(bs.skip(j as int)[0] == blocks@[j as int]@);
        match apt_block_exec(blocks[j].as_str(), pattern) {
            Some(t) => {
                return Some(t);
            },
            None => {},
        }
        assert(bs.skip(j as int).drop_first() =~= bs.skip(j + 1));
        j = j + 1;
    }
    None
}

/// How APT's history logs say a package was installed: the newest
/// `Install` of it that was not removed again in the same transaction.
/// `logs` are the logs' texts, newest first.
pub fn apt_history(logs: &Vec<String>, target: &str) -> (r: Option<String>)
    ensures
        opt_texts_of(r) == apt_logs(texts(logs@), apt_package_pattern(package_base_spec(target@))),
{
    let base = package_base(target);
    let mut pattern = owned("(?:^|[,\\s])");
    push_str(&mut pattern, escape(base.as_str()).as_str());
    push_str(&mut pattern, "(?::[^\\s,(]+)?(?:[:\\s,(]|$)");
    let ghost package = apt_package_pattern(package_base_spec(target@));
    assert(pattern@ == package);
    let ghost ls = texts(logs@);
    let mut i: usize = 0;
    assert(ls.skip(0) =~= ls);
    while i < logs.len()
        invariant
            i <= logs@.len(),
            ls == texts(logs@),
            pattern@ == package,
            package == apt_package_pattern(package_base_spec(target@)),
            apt_logs(ls, package) == apt_logs(ls.skip(i as int), package),
        decreases logs@.len() - i,
    {
        assert(ls.skip(i as int)[0] == logs@[i as int]@);
        match apt_log(logs[i].as_str(), pattern.as_str()) {
            Some(t) => {
                return Some(t);
            },
            None => {},
        }
        assert(ls.skip(i as int).drop_first() =~= ls.skip(i + 1));
        i = i + 1;
    }
    None
}

// ---------------------------------------------------------------------------
// Pacman's log
// ---------------------------------------------------------------------------

pub open spec fn pacman_pattern(target: Seq<char>) -> Seq<char> {
    "^\\[([^]]+)] \\[ALPM] (installed|removed) "@ + regex_escaped(target) + " \\(([^)]+)\\)"@
}

/// The state after reading log lines: the last install or removal wins.
pub open spec fn pacman_scan(lines: Seq<Seq<char>>, pattern: Seq<char>, target: Seq<char>, state: Option<Seq<char>>) -> Option<Seq<char>>
    decreases lines.len(),
{
    if lines.len() == 0 {
        state
    } else {
        let next = match regex_pair(pattern, lines[0]) {
            Some((when, what)) => if what == "installed"@ {
                Some("Pacman log: installed "@ + target + " on "@ + when)
            } else {
                None
            },
            None => state,
        };
        pacman_scan(lines.drop_first(), pattern, target, next)
    }
}

pub open spec fn pacman_logs(logs: Seq<Seq<char>>, pattern: Seq<char>, target: Seq<char>, state: Option<Seq<char>>) -> Option<Seq<char>>
    decreases logs.len(),
{
    if logs.len() == 0 {
        state
    } else {
        pacman_logs(logs.drop_first(), pattern, target, pacman_scan(lines_spec(logs[0]), pattern, target, state))
    }
}

/// How Pacman's log says a package was installed: its last install, unless
/// it was removed after.  `logs` are the logs' texts, oldest first.
pub fn pacman_history(logs: &Vec<String>, target: &str) -> (r: Option<String>)
    ensures
        opt_texts_of(r) == pacman_logs(texts(logs@), pacman_pattern(target@), target@, None),
{
    let mut pattern = owned("^\\[([^]]+)] \\[ALPM] (installed|removed) ");
    push_str(&mut pattern, escape(target).as_str());
    push_str(&mut pattern, " \\(([^)]+)\\)");
    let ghost p = pacman_pattern(target@);
    assert(pattern@ == p);
    let ghost ls = texts(logs@);
    let mut state: Option<String> = None;
    let mut i: usize = 0;
    assert(ls.skip(0) =~= ls);
    while i < logs.len()
        invariant
            i <= logs@.len(),
            ls == texts(logs@),
            pattern@ == p,
            pacman_logs(ls, p, target@, None) == pacman_logs(ls.skip(i as int), p, target@, opt_texts_of(state)),
        decreases logs@.len() - i,
    {
        assert(ls.skip(i as int)[0] == logs@[i as int]@);
        let lines = lines_of(&chars_of(logs[i].as_str()));
        let ghost lv = deep(lines@);
        let ghost start = opt_texts_of(state);
        let mut j: usize = 0;
        assert(lv.skip(0) =~= lv);
        while j < lines.len()
            invariant
                j <= lines@.len(),
                lv == deep(lines@),
                pattern@ == p,
                pacman_scan(lv, p, target@, start) == pacman_scan(lv.skip(j as int), p, target@, opt_texts_of(state)),
            decreases lines@.len() - j,
        {
            assert(lv.skip(j as int)[0] == lines@[j as int]@);
            assert(lv.skip(j as int).drop_first() =~= lv.skip(j + 1));
            let line = string_of(&lines[j]);
            match capture_pair(pattern.as_str(), line.as_str()) {
                Some((when, what)) => {
                    if str_eq(what.as_str(), "installed") {
                        let mut t = owned("Pacman log: installed ");
                        push_str(&mut t, target);
                        push_str(&mut t, " on ");
                        push_str(&mut t, when.as_str());
                        state = Some(t);
                    } else {
                        state = None;
                    }
                },
                None => {},
            }
            j = j + 1;
        }
        assert(ls.skip(i as int).drop_first() =~= ls.skip(i + 1));
        i = i + 1;
    }
    state
}

// ---------------------------------------------------------------------------
// DNF before version 5
// ---------------------------------------------------------------------------

pub open spec fn legacy_id_pattern() -> Seq<char> {
    "(?m)^\\s*(\\d+)\\s*\\|"@
}

/// The last transaction that `dnf history list` printed for a package.
pub open spec fn legacy_dnf_id_spec(list: Seq<char>) -> Option<Seq<char>> {
    let ids = regex_groups(legacy_id_pattern(), list);
    if ids.len() > 0 {
        Some(ids.last())
    } else {
        None
    }
}

pub fn legacy_dnf_id(list: &str) -> (r: Option<String>)
    ensures
        opt_texts_of(r) == legacy_dnf_id_spec(list@),
{
    let ids = capture_all("(?m)^\\s*(\\d+)\\s*\\|", list);
    if ids.len() > 0 {
        assert(texts(ids@).last() == ids@[ids@.len() - 1]@);
        Some(ids[ids.len() - 1].clone())
    } else {
        None
    }
}

/// `Command Line :` first occurs at `at`.
pub open spec fn label_at(line: Seq<char>, at: int) -> bool {
    occurs_at(line, "Command Line :"@, at)
}

/// The recorded command in `dnf history info` output: after the first
/// `Command Line :` of the first line that has one, trimmed.
#[verifier::opaque]
pub open spec fn legacy_command(lines: Seq<Seq<char>>) -> Seq<char>
    decreases lines.len(),
{
    if lines.len() == 0 {
        Seq::empty()
    } else if contains_seq(lines[0], "Command Line :"@) {
        let at = choose|at: int|
            #[trigger] label_at(lines[0], at) && forall|k: int| 0 <= k < at ==> !#[trigger] label_at(lines[0], k);
        trim_spec(lines[0].skip(at + 14))
    } else {
        legacy_command(lines.drop_first())
    }
}

proof fn lemma_legacy_found(lines: Seq<Seq<char>>, at: int)
    requires
        lines.len() > 0,
        label_at(lines[0], at),
        forall|k: int| 0 <= k < at ==> !#[trigger] label_at(lines[0], k),
    ensures
        legacy_command(lines) == trim_spec(lines[0].skip(at + 14)),
{
    reveal(legacy_command);
    assert(contains_seq(lines[0], "Command Line :"@));
    let c = choose|x: int|
        #[trigger] label_at(lines[0], x) && forall|k: int| 0 <= k < x ==> !#[trigger] label_at(lines[0], k);
    assert(c == at) by {
        if c < at {
        } else if c > at {
        }
    }
}

proof fn lemma_legacy_next(lines: Seq<Seq<char>>)
    requires
        lines.len() > 0,
        !contains_seq(lines[0], "Command Line :"@),
    ensures
        legacy_command(lines) == legacy_command(lines.drop_first()),
{
    reveal(legacy_command);
}

proof fn lemma_legacy_empty(lines: Seq<Seq<char>>)
    requires
        lines.len() == 0,
    ensures
        legacy_command(lines) == Seq::<char>::empty(),
{
    reveal(legacy_command);
}

fn label_position(line: &Vec<char>, label: &Vec<char>) -> (r: Option<usize>)
    requires
        label@ == "Command Line :"@,
    ensures
        match r {
            Some(at) => {
                &&& label_at(line@, at as int)
                &&& forall|k: int| 0 <= k < at ==> !#[trigger] label_at(line@, k)
            },
            None => !contains_seq(line@, "Command Line :"@),
        },
{
    proof {
        reveal_strlit("Command Line :");
    }
    if label.len() > line.len() {
        assert forall|at: int| !occurs_at(line@, label@, at) by {}
        return None;
    }
    let last = line.len() - label.len();
    let mut at: usize = 0;
    while at <= last
        invariant
            label@ == "Command Line :"@,
            label@.len() == 14,
            last == line@.len() - label@.len(),
            label@.len() <= line@.len(),
            line@.len() <= usize::MAX,
            at <= last + 1,
            forall|k: int| 0 <= k < at ==> !#[trigger] label_at(line@, k),
        decreases last + 1 - at,
    {
        let piece = slice_chars(line, at, at + label.len());
        if chars_eq(&piece, label) {
            assert(label_at(line@, at as int));
            return Some(at);
        }
        at = at + 1;
    }
    assert forall|k: int| !occurs_at(line@, label@, k) by {
        if 0 <= k < at {
            assert(!label_at(line@, k));
        }
    }
    None
}

/// The record of a transaction that DNF before version 5 printed:
/// `info` is the output of `dnf history info` for the transaction `id`.
pub fn legacy_dnf_record(id: &str, info: &str) -> (r: DnfRecord)
    ensures
        r.id@ == id@,
        r.command@ == legacy_command(lines_spec(info@)),
        r.reason@ == Seq::<char>::empty(),
        r.repository@ == Seq::<char>::empty(),
        r.groups@.len() == 0,
        r.environments@.len() == 0,
{
    proof {
        reveal_strlit("Command Line :");
    }
    let label = chars_of("Command Line :");
    let lines = lines_of(&chars_of(info));
    let ghost ls = deep(lines@);
    let mut i: usize = 0;
    assert(ls.skip(0) =~= ls);
    while i < lines.len()
        invariant
            i <= lines@.len(),
            ls == deep(lines@),
            ls == lines_spec(info@),
            label@ == "Command Line :"@,
            "Command Line :"@.len() == 14,
            legacy_command(ls) == legacy_command(ls.skip(i as int)),
        decreases lines@.len() - i,
    {
        assert(ls.skip(i as int)[0] == lines@[i as int]@);
        let line = &lines[i];
        match label_position(line, &label) {
            Some(at) => {
                proof {
                    lemma_legacy_found(ls.skip(i as int), at as int);
                }
                let n = line.len();
                assert(at + 14 <= n);
                let rest = slice_chars(line, at + 14, n);
                assert(rest@ =~= line@.skip(at + 14));
                return DnfRecord {
                    id: owned(id),
                    command: string_of(&trim_chars(&rest)),
                    reason: String::new(),
                    repository: String::new(),
                    groups: Vec::new(),
                    environments: Vec::new(),
                };
            },
            None => {
                proof {
                    lemma_legacy_next(ls.skip(i as int));
                }
            },
        }
        assert(ls.skip(i as int).drop_first() =~= ls.skip(i + 1));
        i = i + 1;
    }
    proof {
        lemma_legacy_empty(ls.skip(i as int));
    }
    DnfRecord {
        id: owned(id),
        command: String::new(),
        reason: String::new(),
        repository: String::new(),
        groups: Vec::new(),
        environments: Vec::new(),
    }
}


// ---------------------------------------------------------------------------
// Parents that dependency queries report
// ---------------------------------------------------------------------------

/// A line of `apt-cache rdepends` that names a reverse dependency.
pub open spec fn rdepends_line(line: Seq<char>) -> bool {
    let t = trim_spec(line);
    t.len() > 0 && t.last() != ':' && t[0] != '|' && !"Reverse Depends"@.is_prefix_of(t)
}

pub open spec fn rdepends_names(lines: Seq<Seq<char>>) -> Seq<Seq<char>>
    decreases lines.len(),
{
    if lines.len() == 0 {
        Seq::empty()
    } else if rdepends_line(lines.last()) {
        rdepends_names(lines.drop_last()).push(package_base_spec(trim_spec(lines.last())))
    } else {
        rdepends_names(lines.drop_last())
    }
}

/// The installed packages that `apt-cache rdepends --installed` lists as
/// depending on a package, by base name.
pub fn apt_reverse_depends(text: &str) -> (r: Vec<String>)
    ensures
        texts(r@) == rdepends_names(lines_spec(text@)),
{
    let lines = lines_of(&chars_of(text));
    let ghost ls = deep(lines@);
    let heading = chars_of("Reverse Depends");
    let mut out: Vec<String> = Vec::new();
    for i in 0..lines.len()
        invariant
            ls == deep(lines@),
            heading@ == "Reverse Depends"@,
            texts(out@) == rdepends_names(ls.take(i as int)),
    {
        assert(ls.take(i + 1).drop_last() =~= ls.take(i as int));
        assert(ls.take(i + 1).last() == lines@[i as int]@);
        let t = trim_chars(&lines[i]);
        if t.len() > 0 && t[t.len() - 1] != ':' && t[0] != '|' && !starts_with_chars(&t, &heading) {
            let ghost before = texts(out@);
            out.push(package_base(string_of(&t).as_str()));
            assert(texts(out@) =~= before.push(package_base_spec(t@)));
        }
    }
    assert(ls.take(ls.len() as int) =~= ls);
    out
}

pub open spec fn not_none_words(words: Seq<Seq<char>>) -> Seq<Seq<char>>
    decreases words.len(),
{
    if words.len() == 0 {
        Seq::empty()
    } else if words.last() != "None"@ {
        not_none_words(words.drop_last()).push(words.last())
    } else {
        not_none_words(words.drop_last())
    }
}

/// The packages in the `Required By` field of `pacman -Qi`, without
/// `None`.
pub open spec fn required_by_spec(text: Seq<char>) -> Seq<Seq<char>> {
    let records = crate::provenance::key_records_spec(text);
    let value = if records.len() > 0 {
        match crate::provenance::field_value(records[0], "Required By"@) {
            Some(v) => v,
            None => Seq::empty(),
        }
    } else {
        Seq::empty()
    };
    not_none_words(words_spec(value))
}

pub fn pacman_required_by(text: &str) -> (r: Vec<String>)
    ensures
        texts(r@) == required_by_spec(text@),
{
    let records = crate::provenance::parse_key_records(text);
    let value = if records.len() > 0 {
        assert(crate::provenance::records_view(records@)[0] == crate::provenance::record_view(records@[0]));
        match records[0].get("Required By") {
            Some(v) => chars_of(v.as_str()),
            None => Vec::new(),
        }
    } else {
        Vec::new()
    };
    let words = words_of(&value);
    let ghost ws = deep(words@);
    let mut out: Vec<String> = Vec::new();
    for i in 0..words.len()
        invariant
            ws == deep(words@),
            texts(out@) == not_none_words(ws.take(i as int)),
    {
        assert(ws.take(i + 1).drop_last() =~= ws.take(i as int));
        assert(ws.take(i + 1).last() == words@[i as int]@);
        let w = string_of(&words[i]);
        if !str_eq(w.as_str(), "None") {
            let ghost before = texts(out@);
            out.push(w);
            assert(texts(out@) =~= before.push(words@[i as int]@));
        }
    }
    assert(ws.take(ws.len() as int) =~= ws);
    out
}

/// The first reported parent other than the package itself.
pub open spec fn first_other(parents: Seq<Seq<char>>, id: Seq<char>) -> Option<Seq<char>>
    decreases parents.len(),
{
    if parents.len() == 0 {
        None
    } else if parents[0] != id {
        Some(parents[0])
    } else {
        first_other(parents.drop_first(), id)
    }
}

/// What `apk info --rdepends` says requires a package.
pub fn apk_parent(parents: &Vec<String>, id: &str) -> (r: Option<String>)
    ensures
        opt_texts_of(r) == match first_other(texts(parents@), id@) {
            Some(p) => Some(p + " requires it"@),
            None => None,
        },
{
    let ghost ps = texts(parents@);
    let mut i: usize = 0;
    assert(ps.skip(0) =~= ps);
    while i < parents.len()
        invariant
            i <= parents@.len(),
            ps == texts(parents@),
            first_other(ps, id@) == first_other(ps.skip(i as int), id@),
        decreases parents@.len() - i,
    {
        assert(ps.skip(i as int)[0] == parents@[i as int]@);
        if !str_eq(parents[i].as_str(), id) {
            let mut t = parents[i].clone();
            push_str(&mut t, " requires it");
            return Some(t);
        }
        assert(ps.skip(i as int).drop_first() =~= ps.skip(i + 1));
        i = i + 1;
    }
    None
}

/// What `xbps-query --revdeps` says requires a package: the first
/// reported package, by the part of its name before the first `-`.
pub fn xbps_parent(parents: &Vec<String>) -> (r: Option<String>)
    ensures
        opt_texts_of(r) == if parents@.len() > 0 {
            Some(
                parents@[0]@.take(crate::text::first_index(parents@[0]@, '-')) + " requires it"@,
            )
        } else {
            None
        },
{
    if parents.len() == 0 {
        return None;
    }
    let cs = chars_of(parents[0].as_str());
    let k = crate::text::find_char(&cs, '-');
    proof {
        crate::text::lemma_first_index(cs@, '-');
    }
    let head = slice_chars(&cs, 0, k);
    assert(head@ =~= parents@[0]@.take(crate::text::first_index(parents@[0]@, '-')));
    let mut t = string_of(&head);
    push_str(&mut t, " requires it");
    Some(t)
}

/// What pulled in an automatically installed Eopkg package, as its origin
/// records it.
pub fn eopkg_parent(origin: &str) -> (r: Option<String>)
    ensures
        opt_texts_of(r) == if origin@.len() > 0 {
            Some(origin@ + " requires it"@)
        } else {
            None
        },
{
    if origin.is_empty() {
        return None;
    }
    let mut t = owned(origin);
    push_str(&mut t, " requires it");
    Some(t)
}


// ---------------------------------------------------------------------------
// DNF 5's transaction history
// ---------------------------------------------------------------------------

/// A package of a DNF 5 transaction, as its JSON history lists it.
pub struct DnfPackage {
    pub name: String,
    pub nevra: String,
    pub action: String,
    pub reason: String,
    pub repository: String,
}

/// A DNF 5 transaction, as `dnf5 history info --json` describes it; the
/// summary's command line is the fallback for the transaction's own.
pub struct DnfTransaction {
    pub id: String,
    pub command: String,
    pub summary_command: String,
    pub packages: Vec<DnfPackage>,
    /// Each group's action and id.
    pub groups: Vec<(String, String)>,
    /// Each environment's action and id.
    pub environments: Vec<(String, String)>,
}

pub open spec fn nevra_pattern() -> Seq<char> {
    "^(.*)-\\d+:"@
}

/// The name a package is known by: its name, or the name in its NEVRA.
pub open spec fn package_name_of(p: DnfPackage) -> Seq<char> {
    if p.name@.len() > 0 {
        p.name@
    } else {
        match crate::matching::regex_group(nevra_pattern(), p.nevra@) {
            Some(n) => n,
            None => Seq::empty(),
        }
    }
}

/// An action that installed the package.
pub open spec fn installing(action: Seq<char>) -> bool {
    let a = crate::lines::ascii_lower_seq(action);
    a == "install"@ || a == "installed"@ || a == "reinstall"@ || a == "reinstalled"@
}

pub open spec fn installs_target(p: DnfPackage, target: Seq<char>) -> bool {
    package_base_spec(package_name_of(p)) == package_base_spec(target) && installing(p.action@)
}

/// The ids of the groups (or environments) that the transaction installed.
pub open spec fn installed_ids(entries: Seq<(Seq<char>, Seq<char>)>) -> Seq<Seq<char>>
    decreases entries.len(),
{
    if entries.len() == 0 {
        Seq::empty()
    } else if crate::lines::ascii_lower_seq(entries.last().0) == "install"@ && entries.last().1.len() > 0 {
        installed_ids(entries.drop_last()).push(entries.last().1)
    } else {
        installed_ids(entries.drop_last())
    }
}

pub open spec fn pairs_of(v: Seq<(String, String)>) -> Seq<(Seq<char>, Seq<char>)> {
    v.map_values(|e: (String, String)| (e.0@, e.1@))
}

/// The first package of the transaction that installed the target.
pub open spec fn first_install(packages: Seq<DnfPackage>, target: Seq<char>) -> Option<int>
    decreases packages.len(),
{
    if packages.len() == 0 {
        None
    } else if installs_target(packages[0], target) {
        Some(0)
    } else {
        match first_install(packages.drop_first(), target) {
            Some(i) => Some(i + 1),
            None => None,
        }
    }
}

fn installed_ids_of(entries: &Vec<(String, String)>) -> (r: Vec<String>)
    ensures
        texts(r@) == installed_ids(pairs_of(entries@)),
{
    let ghost es = pairs_of(entries@);
    let mut out: Vec<String> = Vec::new();
    for i in 0..entries.len()
        invariant
            es == pairs_of(entries@),
            texts(out@) == installed_ids(es.take(i as int)),
    {
        assert(es.take(i + 1).drop_last() =~= es.take(i as int));
        assert(es.take(i + 1).last() == (entries@[i as int].0@, entries@[i as int].1@));
        let lower = string_of(&crate::lines::ascii_lower_chars(&chars_of(entries[i].0.as_str())));
        if str_eq(lower.as_str(), "install") && !entries[i].1.as_str().is_empty() {
            let ghost before = texts(out@);
            out.push(entries[i].1.clone());
            assert(texts(out@) =~= before.push(entries@[i as int].1@));
        }
    }
    assert(es.take(es.len() as int) =~= es);
    out
}

fn installs_target_exec(p: &DnfPackage, target_base: &str) -> (r: bool)
    ensures
        r == (package_base_spec(package_name_of(*p)) == target_base@ && installing(p.action@)),
{
    let name = if !p.name.as_str().is_empty() {
        p.name.clone()
    } else {
        match crate::matching::capture_first("^(.*)-\\d+:", p.nevra.as_str()) {
            Some(n) => n,
            None => String::new(),
        }
    };
    if !str_eq(package_base(name.as_str()).as_str(), target_base) {
        return false;
    }
    let a = string_of(&crate::lines::ascii_lower_chars(&chars_of(p.action.as_str())));
    let t = a.as_str();
    str_eq(t, "install") || str_eq(t, "installed") || str_eq(t, "reinstall") || str_eq(t, "reinstalled")
}

/// The record of a DNF 5 transaction for a target package: the first of
/// its packages that installed the target, with the transaction's command
/// (or the summary's) and the groups and environments it installed.
pub fn dnf_transaction_record(t: &DnfTransaction, target: &str) -> (r: Option<DnfRecord>)
    ensures
        r is Some <==> first_install(t.packages@, target@) is Some,
        r matches Some(rec) ==> {
            let p = t.packages@[first_install(t.packages@, target@).unwrap()];
            &&& rec.id@ == t.id@
            &&& rec.command@ == if t.command@.len() > 0 {
                t.command@
            } else {
                t.summary_command@
            }
            &&& rec.reason@ == p.reason@
            &&& rec.repository@ == p.repository@
            &&& texts(rec.groups@) == installed_ids(pairs_of(t.groups@))
            &&& texts(rec.environments@) == installed_ids(pairs_of(t.environments@))
        },
{
    let base = package_base(target);
    let ghost ps = t.packages@;
    let mut i: usize = 0;
    assert(ps.skip(0) =~= ps);
    while i < t.packages.len()
        invariant
            i <= ps.len(),
            ps == t.packages@,
            base@ == package_base_spec(target@),
            first_install(ps, target@) == match first_install(ps.skip(i as int), target@) {
                Some(k) => Some(k + i),
                None => None,
            },
        decreases ps.len() - i,
    {
        assert(ps.skip(i as int)[0] == ps[i as int]);
        assert(ps.skip(i as int).drop_first() =~= ps.skip(i + 1));
        let p = &t.packages[i];
        if installs_target_exec(p, base.as_str()) {
            let command = if !t.command.as_str().is_empty() {
                t.command.clone()
            } else {
                t.summary_command.clone()
            };
            return Some(DnfRecord {
                id: t.id.clone(),
                command,
                reason: p.reason.clone(),
                repository: p.repository.clone(),
                groups: installed_ids_of(&t.groups),
                environments: installed_ids_of(&t.environments),
            });
        }
        i = i + 1;
    }
    None
}

// ---------------------------------------------------------------------------
// Log files
// ---------------------------------------------------------------------------

/// A log file of `prefix`: named the prefix itself, or the prefix, a dot
/// and more (a rotated log).
pub open spec fn is_log_of(path: Seq<char>, prefix: Seq<char>) -> bool {
    match crate::util::file_name_spec(path) {
        Some(n) => n == prefix || (prefix + seq!['.']).is_prefix_of(n),
        None => false,
    }
}

pub open spec fn log_pred(prefix: Seq<char>) -> spec_fn(Seq<char>) -> bool {
    |p: Seq<char>| is_log_of(p, prefix)
}

fn is_log(path: &str, prefix: &str) -> (b: bool)
    ensures
        b == is_log_of(path@, prefix@),
{
    match crate::util::file_name(path) {
        Some(n) => {
            let mut dotted = chars_of(prefix);
            dotted.push('.');
            let p = chars_of(prefix);
            crate::text::chars_eq(&n, &p) || crate::text::starts_with_chars(&n, &dotted)
        },
        None => false,
    }
}

/// The log files of `prefix` among the entries of a log directory, newest
/// (greatest path) first.
pub fn history_logs(paths: &Vec<String>, prefix: &str) -> (r: Vec<String>)
    ensures
        exists|s: Seq<Seq<char>>|
            crate::paths::sorted_paths_of(texts(paths@).filter(log_pred(prefix@)), s) && #[trigger] texts(r@)
                == s.reverse(),
{
    let ghost ps = texts(paths@);
    let ghost pred = log_pred(prefix@);
    let mut kept: Vec<String> = Vec::new();
    proof {
        reveal(Seq::filter);
    }
    assert(ps.take(0) =~= Seq::<Seq<char>>::empty());
    for i in 0..paths.len()
        invariant
            ps == texts(paths@),
            pred == log_pred(prefix@),
            texts(kept@) == ps.take(i as int).filter(pred),
    {
        proof {
            reveal(Seq::filter);
            assert(ps.take(i + 1).drop_last() =~= ps.take(i as int));
            assert(ps.take(i + 1).last() == paths@[i as int]@);
        }
        if is_log(paths[i].as_str(), prefix) {
            let ghost before = texts(kept@);
            kept.push(paths[i].clone());
            assert(texts(kept@) =~= before.push(paths@[i as int]@));
        }
    }
    assert(ps.take(ps.len() as int) =~= ps);
    let sorted = crate::paths::sort_paths(&kept);
    let mut out: Vec<String> = Vec::new();
    let mut k = sorted.len();
    while k > 0
        invariant
            k <= sorted@.len(),
            out@.len() == sorted@.len() - k,
            forall|j: int| 0 <= j < out@.len() ==> #[trigger] out@[j]@ == sorted@[sorted@.len() - 1 - j]@,
        decreases k,
    {
        out.push(sorted[k - 1].clone());
        k = k - 1;
    }
    assert(texts(out@) =~= texts(sorted@).reverse());
    out
}

} // verus!
