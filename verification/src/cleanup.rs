//! Leftover user data: what each manager can clean up itself, where a
//! user's own data may live, which entries there belong to the removed
//! software, and how they are offered and deleted.
use crate::model::{texts, Match};
use crate::lines::{first_word, first_word_of};
use crate::number::{parse_u64, unsigned_value};
use crate::paths::{
    absolute_path, absolute_spec, is_absolute, join_path, path_join, same_path, same_path_exec,
    sort_paths, sorted_paths_of,
};
use crate::removal::{v3, v4};
use crate::sorting::{sort_dedup, sort_unique};
use crate::text::{
    after_last_index, before_first, chars_of, ends_with_chars, find_char, first_index,
    lemma_first_index, owned, push_str, rfind_after, slice_chars, str_eq, string_of,
};
use crate::util::{
    file_name, file_name_spec, norm, norm_spec, path_within, path_within_spec,
    utf8_shorter_than_three,
};
use vstd::prelude::*;

verus! {

/// A cleanup the user may choose: a manager's own cleanup for a backend,
/// or a detected path of user data.
#[derive(Debug)]
pub struct DataOption {
    pub label: String,
    pub path: Option<String>,
    pub backend: Option<String>,
    pub size_bytes: Option<u64>,
}

/// The managers that can remove an application's data themselves.
pub open spec fn cleanup_supported(b: Seq<char>) -> bool {
    b == "Flatpak"@ || b == "Snap"@ || b == "APT"@ || b == "Homebrew Cask"@ || b == "Eopkg"@
}

pub fn manager_cleanup_supported(item: &Match) -> (r: bool)
    ensures
        r == cleanup_supported(item.backend@),
{
    let b = item.backend.as_str();
    str_eq(b, "Flatpak") || str_eq(b, "Snap") || str_eq(b, "APT") || str_eq(b, "Homebrew Cask")
        || str_eq(b, "Eopkg")
}

/// What each manager's own cleanup removes.
pub open spec fn cleanup_label(b: Seq<char>) -> Option<Seq<char>> {
    if b == "Flatpak"@ {
        Some("Sandbox data and permissions"@)
    } else if b == "Snap"@ {
        Some("Snap data and retained removal snapshot"@)
    } else if b == "APT"@ {
        Some("System configuration files (APT purge)"@)
    } else if b == "Homebrew Cask"@ {
        Some("Cask-associated files (Homebrew zap)"@)
    } else if b == "Eopkg"@ {
        Some("System configuration files (Eopkg purge)"@)
    } else {
        None
    }
}

pub open spec fn opt_text(o: Option<String>) -> Option<Seq<char>> {
    match o {
        Some(s) => Some(s@),
        None => None,
    }
}

pub fn manager_cleanup_label(item: &Match) -> (r: Option<String>)
    ensures
        opt_text(r) == cleanup_label(item.backend@),
{
    let b = item.backend.as_str();
    if str_eq(b, "Flatpak") {
        Some(owned("Sandbox data and permissions"))
    } else if str_eq(b, "Snap") {
        Some(owned("Snap data and retained removal snapshot"))
    } else if str_eq(b, "APT") {
        Some(owned("System configuration files (APT purge)"))
    } else if str_eq(b, "Homebrew Cask") {
        Some(owned("Cask-associated files (Homebrew zap)"))
    } else if str_eq(b, "Eopkg") {
        Some(owned("System configuration files (Eopkg purge)"))
    } else {
        None
    }
}

/// Where Flatpak keeps an application's sandbox data.
pub open spec fn flatpak_data_spec(item: Match, home: Seq<char>) -> Option<Seq<char>> {
    if item.backend@ == "Flatpak"@ {
        Some(path_join(path_join(home, ".var/app"@), item.id@))
    } else {
        None
    }
}

pub fn flatpak_data_path(item: &Match, home: &str) -> (r: Option<String>)
    ensures
        opt_text(r) == flatpak_data_spec(*item, home@),
{
    if str_eq(item.backend.as_str(), "Flatpak") {
        let base = join_path(home, ".var/app");
        Some(join_path(base.as_str(), item.id.as_str()))
    } else {
        None
    }
}

/// The directory whose size a manager's own cleanup frees: Flatpak's
/// sandbox data and Snap's per-user data.
pub open spec fn cleanup_path_spec(item: Match, home: Seq<char>) -> Option<Seq<char>> {
    if item.backend@ == "Flatpak"@ {
        flatpak_data_spec(item, home)
    } else if item.backend@ == "Snap"@ {
        Some(path_join(path_join(home, "snap"@), item.id@))
    } else {
        None
    }
}

pub fn manager_cleanup_path(item: &Match, home: &str) -> (r: Option<String>)
    ensures
        opt_text(r) == cleanup_path_spec(*item, home@),
{
    if str_eq(item.backend.as_str(), "Flatpak") {
        flatpak_data_path(item, home)
    } else if str_eq(item.backend.as_str(), "Snap") {
        let base = join_path(home, "snap");
        Some(join_path(base.as_str(), item.id.as_str()))
    } else {
        None
    }
}

/// The size a manager's own cleanup frees, from the measured size of its
/// directory (nothing measured counts as empty); none for managers whose
/// cleanup cannot be measured.
pub fn manager_cleanup_size(item: &Match, measured: Option<u64>) -> (r: Option<u64>)
    ensures
        r == if item.backend@ == "Flatpak"@ || item.backend@ == "Snap"@ {
            Some(
                match measured {
                    Some(n) => n,
                    None => 0,
                },
            )
        } else {
            None
        },
{
    if str_eq(item.backend.as_str(), "Flatpak") || str_eq(item.backend.as_str(), "Snap") {
        Some(
            match measured {
                Some(n) => n,
                None => 0,
            },
        )
    } else {
        None
    }
}

/// An XDG base directory: the variable when it holds an absolute path,
/// otherwise the default.
pub open spec fn xdg_dir(value: Option<Seq<char>>, fallback: Seq<char>) -> Seq<char> {
    match value {
        Some(v) => if is_absolute(v) {
            v
        } else {
            fallback
        },
        None => fallback,
    }
}

fn xdg_dir_of(value: Option<&str>, fallback: String) -> (r: String)
    ensures
        r@ == xdg_dir(
            match value {
                Some(v) => Some(v@),
                None => None,
            },
            fallback@,
        ),
{
    match value {
        Some(v) => {
            let cs = chars_of(v);
            if cs.len() > 0 && cs[0] == '/' {
                owned(v)
            } else {
                fallback
            }
        },
        None => fallback,
    }
}

pub open spec fn opt_str(o: Option<&str>) -> Option<Seq<char>> {
    match o {
        Some(s) => Some(s@),
        None => None,
    }
}

/// The four XDG base directories of the user: cache, configuration, data
/// and state.
pub open spec fn xdg_roots(
    home: Seq<char>,
    cache: Option<Seq<char>>,
    config: Option<Seq<char>>,
    data: Option<Seq<char>>,
    state: Option<Seq<char>>,
) -> Seq<Seq<char>> {
    seq![
        xdg_dir(cache, path_join(home, ".cache"@)),
        xdg_dir(config, path_join(home, ".config"@)),
        xdg_dir(data, path_join(home, ".local/share"@)),
        xdg_dir(state, path_join(home, ".local/state"@)),
    ]
}

/// Where user data may be left behind: the XDG base directories, sorted
/// and without repeats.
pub fn data_roots(
    home: &str,
    cache: Option<&str>,
    config: Option<&str>,
    data: Option<&str>,
    state: Option<&str>,
) -> (r: Vec<String>)
    ensures
        sorted_paths_of(
            xdg_roots(home@, opt_str(cache), opt_str(config), opt_str(data), opt_str(state)),
            texts(r@),
        ),
{
    let mut roots: Vec<String> = Vec::new();
    roots.push(xdg_dir_of(cache, join_path(home, ".cache")));
    roots.push(xdg_dir_of(config, join_path(home, ".config")));
    roots.push(xdg_dir_of(data, join_path(home, ".local/share")));
    roots.push(xdg_dir_of(state, join_path(home, ".local/state")));
    assert(texts(roots@) =~= xdg_roots(
        home@,
        opt_str(cache),
        opt_str(config),
        opt_str(data),
        opt_str(state),
    ));
    sort_paths(&roots)
}

/// The part of a value after its last dot and before the first colon that
/// follows (`org.example.App:stable` gives `App`).
pub open spec fn simple_name(v: Seq<char>) -> Seq<char> {
    before_first(v.skip(after_last_index(v, '.')), ':')
}

/// A key long enough to identify data: at least three bytes of UTF-8.
pub open spec fn long_key(k: Seq<char>) -> bool {
    vstd::utf8::encode_utf8(k).len() >= 3
}

/// The file stem of a path (what `Path::file_stem` gives): its file name
/// without the last extension, a leading dot not counting as one.
pub open spec fn file_stem_spec(path: Seq<char>) -> Option<Seq<char>> {
    match file_name_spec(path) {
        None => None,
        Some(name) => {
            let d = after_last_index(name, '.');
            if d <= 1 {
                Some(name)
            } else {
                Some(name.take(d - 1))
            }
        },
    }
}

/// The normalised names of an item that its data may be named by.
pub open spec fn item_keys(m: Match) -> Seq<Seq<char>> {
    let from_values = seq![
        norm_spec(m.name@),
        norm_spec(simple_name(m.name@)),
        norm_spec(m.id@),
        norm_spec(simple_name(m.id@)),
    ];
    from_values + stem_keys(m)
}

/// The normalised file stem of the item's command, when it has one.
pub open spec fn stem_keys(m: Match) -> Seq<Seq<char>> {
    match m.command_path {
        Some(p) => match file_stem_spec(p@) {
            Some(s) => seq![norm_spec(s)],
            None => Seq::empty(),
        },
        None => Seq::empty(),
    }
}

/// Keep the long keys.
pub open spec fn long_keys(ks: Seq<Seq<char>>) -> Seq<Seq<char>>
    decreases ks.len(),
{
    if ks.len() == 0 {
        ks
    } else if long_key(ks.last()) {
        long_keys(ks.drop_last()).push(ks.last())
    } else {
        long_keys(ks.drop_last())
    }
}

pub open spec fn all_item_keys(items: Seq<Match>) -> Seq<Seq<char>>
    decreases items.len(),
{
    if items.len() == 0 {
        Seq::empty()
    } else {
        all_item_keys(items.drop_last()) + long_keys(item_keys(items.last()))
    }
}

proof fn lemma_long_keys_keep(ks: Seq<Seq<char>>, k: Seq<char>)
    requires
        ks.contains(k),
        vstd::utf8::encode_utf8(k).len() >= 3,
    ensures
        long_keys(ks).contains(k),
    decreases ks.len(),
{
    let i = choose|i: int| 0 <= i < ks.len() && ks[i] == k;
    if i == ks.len() - 1 {
        assert(long_keys(ks).last() == k);
    } else {
        assert(ks.drop_last()[i] == k);
        lemma_long_keys_keep(ks.drop_last(), k);
        let prev = long_keys(ks.drop_last());
        let j = choose|j: int| 0 <= j < prev.len() && prev[j] == k;
        if long_key(ks.last()) {
            assert(long_keys(ks)[j] == k);
        }
    }
}

/// An item's data is looked for under its normalised id and name and
/// under the last dotted part of each (before any `:`), normalised: each
/// is one of the keys when it takes at least three bytes, whatever else
/// the selection holds.
pub proof fn keys_include_last_dotted_parts(items: Seq<Match>, i: int)
    requires
        0 <= i < items.len(),
    ensures
        vstd::utf8::encode_utf8(norm_spec(items[i].id@)).len() >= 3 ==> all_item_keys(items).contains(
            norm_spec(items[i].id@),
        ),
        vstd::utf8::encode_utf8(norm_spec(items[i].name@)).len() >= 3 ==> all_item_keys(items).contains(
            norm_spec(items[i].name@),
        ),
        vstd::utf8::encode_utf8(
            norm_spec(before_first(items[i].id@.skip(after_last_index(items[i].id@, '.')), ':')),
        ).len() >= 3 ==> all_item_keys(items).contains(
            norm_spec(before_first(items[i].id@.skip(after_last_index(items[i].id@, '.')), ':')),
        ),
        vstd::utf8::encode_utf8(
            norm_spec(before_first(items[i].name@.skip(after_last_index(items[i].name@, '.')), ':')),
        ).len() >= 3 ==> all_item_keys(items).contains(
            norm_spec(before_first(items[i].name@.skip(after_last_index(items[i].name@, '.')), ':')),
        ),
    decreases items.len(),
{
    let m = items[i];
    let kid = norm_spec(before_first(m.id@.skip(after_last_index(m.id@, '.')), ':'));
    let kname = norm_spec(before_first(m.name@.skip(after_last_index(m.name@, '.')), ':'));
    let rest = all_item_keys(items.drop_last());
    let last = long_keys(item_keys(items.last()));
    assert(all_item_keys(items) == rest + last);
    if i == items.len() - 1 {
        assert(item_keys(m)[3] == kid);
        assert(item_keys(m)[1] == kname);
        assert(item_keys(m)[2] == norm_spec(m.id@));
        assert(item_keys(m)[0] == norm_spec(m.name@));
        if vstd::utf8::encode_utf8(norm_spec(m.id@)).len() >= 3 {
            lemma_long_keys_keep(item_keys(m), norm_spec(m.id@));
            let j = choose|j: int| 0 <= j < last.len() && last[j] == norm_spec(m.id@);
            assert((rest + last)[rest.len() + j] == norm_spec(m.id@));
        }
        if vstd::utf8::encode_utf8(norm_spec(m.name@)).len() >= 3 {
            lemma_long_keys_keep(item_keys(m), norm_spec(m.name@));
            let j = choose|j: int| 0 <= j < last.len() && last[j] == norm_spec(m.name@);
            assert((rest + last)[rest.len() + j] == norm_spec(m.name@));
        }
        if vstd::utf8::encode_utf8(kid).len() >= 3 {
            lemma_long_keys_keep(item_keys(m), kid);
            let j = choose|j: int| 0 <= j < last.len() && last[j] == kid;
            assert((rest + last)[rest.len() + j] == kid);
        }
        if vstd::utf8::encode_utf8(kname).len() >= 3 {
            lemma_long_keys_keep(item_keys(m), kname);
            let j = choose|j: int| 0 <= j < last.len() && last[j] == kname;
            assert((rest + last)[rest.len() + j] == kname);
        }
    } else {
        assert(items.drop_last()[i] == m);
        keys_include_last_dotted_parts(items.drop_last(), i);
        if vstd::utf8::encode_utf8(norm_spec(m.id@)).len() >= 3 {
            let j = choose|j: int| 0 <= j < rest.len() && rest[j] == norm_spec(m.id@);
            assert((rest + last)[j] == norm_spec(m.id@));
        }
        if vstd::utf8::encode_utf8(norm_spec(m.name@)).len() >= 3 {
            let j = choose|j: int| 0 <= j < rest.len() && rest[j] == norm_spec(m.name@);
            assert((rest + last)[j] == norm_spec(m.name@));
        }
        if vstd::utf8::encode_utf8(kid).len() >= 3 {
            let j = choose|j: int| 0 <= j < rest.len() && rest[j] == kid;
            assert((rest + last)[j] == kid);
        }
        if vstd::utf8::encode_utf8(kname).len() >= 3 {
            let j = choose|j: int| 0 <= j < rest.len() && rest[j] == kname;
            assert((rest + last)[j] == kname);
        }
    }
}

/// The names user data of the selection may carry, sorted and once each.
pub open spec fn data_keys_spec(items: Seq<Match>) -> Seq<Seq<char>> {
    sort_dedup(all_item_keys(items))
}

fn simple_name_of(v: &str) -> (r: String)
    ensures
        r@ == simple_name(v@),
{
    let cs = chars_of(v);
    let start = rfind_after(&cs, '.');
    let tail = slice_chars(&cs, start, cs.len());
    assert(tail@ =~= v@.skip(start as int));
    let colon = find_char(&tail, ':');
    proof {
        lemma_first_index(tail@, ':');
    }
    let head = slice_chars(&tail, 0, colon);
    assert(head@ =~= tail@.take(colon as int));
    string_of(&head)
}

fn file_stem(path: &str) -> (r: Option<String>)
    ensures
        opt_text(r) == file_stem_spec(path@),
{
    match file_name(path) {
        None => None,
        Some(name) => {
            let d = rfind_after(&name, '.');
            if d <= 1 {
                Some(string_of(&name))
            } else {
                let head = slice_chars(&name, 0, d - 1);
                assert(head@ =~= name@.take(d - 1));
                Some(string_of(&head))
            }
        },
    }
}

fn push_if_long(out: &mut Vec<String>, key: String)
    ensures
        texts(final(out)@) == texts(old(out)@) + long_keys(seq![key@]),
{
    let cs = chars_of(key.as_str());
    let short = utf8_shorter_than_three(&cs);
    let ghost before = out@;
    let ghost k = key@;
    assert(seq![k].drop_last() =~= Seq::<Seq<char>>::empty());
    assert(seq![k].last() == k);
    assert(long_keys(Seq::<Seq<char>>::empty()) == Seq::<Seq<char>>::empty());
    if !short {
        out.push(key);
        assert(long_keys(seq![k]) =~= seq![k]);
        assert(texts(out@) =~= texts(before) + seq![k]);
    } else {
        assert(long_keys(seq![k]) =~= Seq::<Seq<char>>::empty());
        assert(texts(out@) =~= texts(before) + Seq::<Seq<char>>::empty());
    }
}

proof fn lemma_long_keys_append(a: Seq<Seq<char>>, b: Seq<Seq<char>>)
    ensures
        long_keys(a + b) == long_keys(a) + long_keys(b),
    decreases b.len(),
{
    if b.len() == 0 {
        assert(a + b =~= a);
        assert(long_keys(a) + long_keys(b) =~= long_keys(a));
    } else {
        assert((a + b).drop_last() =~= a + b.drop_last());
        assert((a + b).last() == b.last());
        lemma_long_keys_append(a, b.drop_last());
        if long_key(b.last()) {
            assert(long_keys(a) + long_keys(b) =~= (long_keys(a) + long_keys(b.drop_last())).push(
                b.last(),
            ));
        }
    }
}

fn keys_of_item(m: &Match, out: &mut Vec<String>)
    ensures
        texts(final(out)@) == texts(old(out)@) + long_keys(item_keys(*m)),
{
    let ghost start = texts(out@);
    let k1 = norm(m.name.as_str());
    let s1 = simple_name_of(m.name.as_str());
    let k2 = norm(s1.as_str());
    let k3 = norm(m.id.as_str());
    let s3 = simple_name_of(m.id.as_str());
    let k4 = norm(s3.as_str());
    let ghost keys = item_keys(*m);
    let ghost stem_keys = stem_keys(*m);
    push_if_long(out, k1);
    push_if_long(out, k2);
    push_if_long(out, k3);
    push_if_long(out, k4);
    proof {
        let a = seq![k1@];
        let b = seq![k2@];
        let c = seq![k3@];
        let d = seq![k4@];
        lemma_long_keys_append(a, b);
        lemma_long_keys_append(a + b, c);
        lemma_long_keys_append(a + b + c, d);
        assert(a + b + c + d =~= seq![k1@, k2@, k3@, k4@]);
        assert(texts(out@) =~= start + long_keys(seq![k1@, k2@, k3@, k4@]));
    }
    let ghost mid = texts(out@);
    match &m.command_path {
        Some(p) => match file_stem(p.as_str()) {
            Some(s) => {
                let k5 = norm(s.as_str());
                push_if_long(out, k5);
                assert(stem_keys =~= seq![k5@]);
            },
            None => {
                assert(long_keys(stem_keys) =~= Seq::<Seq<char>>::empty());
                assert(texts(out@) =~= mid + long_keys(stem_keys));
            },
        },
        None => {
            assert(long_keys(stem_keys) =~= Seq::<Seq<char>>::empty());
            assert(texts(out@) =~= mid + long_keys(stem_keys));
        },
    }
    proof {
        lemma_long_keys_append(seq![k1@, k2@, k3@, k4@], stem_keys);
        assert(keys =~= seq![k1@, k2@, k3@, k4@] + stem_keys);
        assert(texts(out@) =~= start + long_keys(keys));
    }
}

/// The names user data of the selection may carry: the normalised names,
/// ids, their last dotted parts and the command's file stem, when at least
/// three bytes long.
pub fn data_keys(items: &[Match]) -> (r: Vec<String>)
    ensures
        texts(r@) == data_keys_spec(items@),
        forall|k: Seq<char>| texts(r@).contains(k) <==> all_item_keys(items@).contains(k),
{
    let mut all: Vec<String> = Vec::new();
    assert(texts(all@) =~= all_item_keys(items@.take(0)));
    for i in 0..items.len()
        invariant
            texts(all@) == all_item_keys(items@.take(i as int)),
    {
        keys_of_item(&items[i], &mut all);
        proof {
            assert(items@.take(i + 1).drop_last() =~= items@.take(i as int));
            assert(items@.take(i + 1).last() == items@[i as int]);
        }
    }
    assert(items@.take(items@.len() as int) =~= items@);
    sort_unique(&all)
}

/// Whether a path may be searched for user data: an absolute path inside
/// the home directory, but neither the home directory itself nor the root.
pub open spec fn safe_root_spec(path: Seq<char>, home: Seq<char>, current: Option<Seq<char>>) -> bool {
    let absolute = absolute_spec(path, current);
    is_absolute(absolute) && path_within_spec(absolute, home) && !same_path(absolute, home)
        && !same_path(absolute, "/"@)
}

pub fn safe_root(path: &str, home: &str, current: Option<&str>) -> (r: bool)
    ensures
        r == safe_root_spec(path@, home@, opt_str(current)),
{
    let absolute = absolute_path(path, current);
    let cs = chars_of(absolute.as_str());
    cs.len() > 0 && cs[0] == '/' && path_within(absolute.as_str(), home) && !same_path_exec(
        absolute.as_str(),
        home,
    ) && !same_path_exec(absolute.as_str(), "/")
}

/// A directory entry's name without the first of the suffixes `.desktop`,
/// `.conf`, `.config` and `.cache` that it ends with.
pub open spec fn data_stem(name: Seq<char>) -> Seq<char> {
    if ".desktop"@.is_suffix_of(name) {
        name.take(name.len() - 8)
    } else if ".conf"@.is_suffix_of(name) {
        name.take(name.len() - 5)
    } else if ".config"@.is_suffix_of(name) {
        name.take(name.len() - 7)
    } else if ".cache"@.is_suffix_of(name) {
        name.take(name.len() - 6)
    } else {
        name
    }
}

fn strip_suffix_len(cs: &Vec<char>, suffix: &str) -> (r: bool)
    ensures
        r == suffix@.is_suffix_of(cs@),
{
    let s = chars_of(suffix);
    ends_with_chars(cs, &s)
}

/// Whether a directory entry of a data root belongs to the selection: its
/// name, without a typical suffix and normalised, is one of the keys.
pub fn is_user_data(name: &str, keys: &Vec<String>) -> (r: bool)
    ensures
        r == texts(keys@).contains(norm_spec(data_stem(name@))),
{
    let cs = chars_of(name);
    proof {
        reveal_strlit(".desktop");
        reveal_strlit(".conf");
        reveal_strlit(".config");
        reveal_strlit(".cache");
    }
    let stem: Vec<char> = if strip_suffix_len(&cs, ".desktop") {
        slice_chars(&cs, 0, cs.len() - 8)
    } else if strip_suffix_len(&cs, ".conf") {
        slice_chars(&cs, 0, cs.len() - 5)
    } else if strip_suffix_len(&cs, ".config") {
        slice_chars(&cs, 0, cs.len() - 7)
    } else if strip_suffix_len(&cs, ".cache") {
        slice_chars(&cs, 0, cs.len() - 6)
    } else {
        crate::text::copy_chars(&cs)
    };
    assert(stem@ =~= data_stem(name@));
    let text = string_of(&stem);
    let key = norm(text.as_str());
    let mut i: usize = 0;
    while i < keys.len()
        invariant
            i <= keys@.len(),
            key@ == norm_spec(data_stem(name@)),
            forall|j: int| 0 <= j < i ==> texts(keys@)[j] != key@,
        decreases keys@.len() - i,
    {
        if str_eq(keys[i].as_str(), key.as_str()) {
            assert(texts(keys@)[i as int] == key@);
            return true;
        }
        i = i + 1;
    }
    false
}

/// A listed directory entry that is user data of the selection: not a
/// manager's own data path, and named after one of the selection's keys.
pub open spec fn user_data_entry(
    e: (String, String),
    owned: Seq<Seq<char>>,
    keys: Seq<Seq<char>>,
) -> Option<Seq<char>> {
    if !owned.contains(e.0@) && keys.contains(norm_spec(data_stem(e.1@))) {
        Some(e.0@)
    } else {
        None
    }
}

/// The user data among a listing (a data root, whether it is a directory,
/// and its entries as path and file name): none unless the root is a safe
/// directory under the home directory.
pub open spec fn listing_user_data(
    l: (String, bool, Vec<(String, String)>),
    owned: Seq<Seq<char>>,
    keys: Seq<Seq<char>>,
    home: Seq<char>,
    current: Option<Seq<char>>,
) -> Seq<Seq<char>> {
    if safe_root_spec(l.0@, home, current) && l.1 {
        crate::inventory::gather(l.2@, |e: (String, String)| user_data_entry(e, owned, keys))
    } else {
        Seq::empty()
    }
}

/// The user data of all listings, in their order.
pub open spec fn all_user_data(
    ls: Seq<(String, bool, Vec<(String, String)>)>,
    owned: Seq<Seq<char>>,
    keys: Seq<Seq<char>>,
    home: Seq<char>,
    current: Option<Seq<char>>,
) -> Seq<Seq<char>>
    decreases ls.len(),
{
    if ls.len() == 0 {
        Seq::empty()
    } else {
        all_user_data(ls.drop_last(), owned, keys, home, current) + listing_user_data(
            ls.last(),
            owned,
            keys,
            home,
            current,
        )
    }
}

/// The entries of the user's data directories that belong to the
/// selection: from each listing of a safe data root that is a directory,
/// the entries that are not a manager's own data and are named after one
/// of `keys`; sorted, each path once.
pub fn select_user_data(
    listings: &Vec<(String, bool, Vec<(String, String)>)>,
    manager_owned: &Vec<String>,
    keys: &Vec<String>,
    home: &str,
    current: Option<&str>,
) -> (r: Vec<String>)
    ensures
        sorted_paths_of(
            all_user_data(listings@, texts(manager_owned@), texts(keys@), home@, opt_str(current)),
            texts(r@),
        ),
{
    let ghost owned = texts(manager_owned@);
    let ghost ks = texts(keys@);
    let ghost cur = opt_str(current);
    let mut found: Vec<String> = Vec::new();
    assert(listings@.take(0) =~= Seq::<(String, bool, Vec<(String, String)>)>::empty());
    for i in 0..listings.len()
        invariant
            owned == texts(manager_owned@),
            ks == texts(keys@),
            cur == opt_str(current),
            texts(found@) == all_user_data(listings@.take(i as int), owned, ks, home@, cur),
    {
        let listing = &listings[i];
        let ghost before = texts(found@);
        proof {
            assert(listings@.take(i + 1).drop_last() =~= listings@.take(i as int));
            assert(listings@.take(i + 1).last() == listings@[i as int]);
        }
        if safe_root(listing.0.as_str(), home, current) && listing.1 {
            let entries = &listing.2;
            let ghost f = |e: (String, String)| user_data_entry(e, owned, ks);
            assert(entries@.take(0) =~= Seq::<(String, String)>::empty());
            for j in 0..entries.len()
                invariant
                    owned == texts(manager_owned@),
                    ks == texts(keys@),
                    f == (|e: (String, String)| user_data_entry(e, owned, ks)),
                    texts(found@) == before + crate::inventory::gather(entries@.take(j as int), f),
            {
                let entry = &entries[j];
                proof {
                    assert(entries@.take(j + 1) =~= entries@.take(j as int).push(entries@[j as int]));
                    crate::inventory::lemma_gather_push(entries@.take(j as int), entries@[j as int], f);
                }
                let mut owned_path = false;
                for k in 0..manager_owned.len()
                    invariant
                        owned == texts(manager_owned@),
                        owned_path <==> exists|q: int| 0 <= q < k && owned[q] == entry.0@,
                {
                    proof {
                        assert(owned[k as int] == manager_owned@[k as int]@);
                    }
                    if str_eq(manager_owned[k].as_str(), entry.0.as_str()) {
                        owned_path = true;
                    }
                    assert(owned_path <==> exists|q: int| 0 <= q < k + 1 && owned[q] == entry.0@) by {
                        if exists|q: int| 0 <= q < k + 1 && owned[q] == entry.0@ {
                            let q = choose|q: int| 0 <= q < k + 1 && owned[q] == entry.0@;
                            if q < k {
                                assert(exists|q2: int| 0 <= q2 < k && owned[q2] == entry.0@);
                            }
                        }
                    }
                }
                proof {
                    if owned.contains(entry.0@) {
                        let q = choose|q: int| 0 <= q < owned.len() && owned[q] == entry.0@;
                        assert(owned_path);
                    }
                }
                if !owned_path && is_user_data(entry.1.as_str(), keys) {
                    let ghost prev = found@;
                    found.push(entry.0.clone());
                    assert(texts(found@) =~= texts(prev).push(entry.0@));
                }
            }
            assert(entries@.take(entries@.len() as int) =~= entries@);
        }
        assert(texts(found@) =~= all_user_data(listings@.take(i + 1), owned, ks, home@, cur));
    }
    assert(listings@.take(listings@.len() as int) =~= listings@);
    sort_paths(&found)
}

/// The size of all of a backend's items: the sum of their sizes when every
/// one is known.
pub open spec fn backend_total(items: Seq<Match>, sizes: Seq<Option<u64>>, b: Seq<char>, n: int) -> Option<
    int,
>
    decreases n,
{
    if n <= 0 {
        Some(0)
    } else {
        let rest = backend_total(items, sizes, b, n - 1);
        if items[n - 1].backend@ == b {
            match (rest, sizes[n - 1]) {
                (Some(t), Some(x)) => Some(t + x),
                _ => None,
            }
        } else {
            rest
        }
    }
}

/// A cleanup option as plain values.
pub open spec fn option_view(o: DataOption) -> (Seq<char>, Option<Seq<char>>, Option<Seq<char>>, Option<u64>) {
    (o.label@, opt_text(o.path), opt_text(o.backend), o.size_bytes)
}

/// The first item of its backend.
pub open spec fn first_of_backend(items: Seq<Match>, i: int) -> bool {
    forall|k: int| 0 <= k < i ==> #[trigger] items[k].backend@ != items[i].backend@
}

/// The manager cleanups offered for the first `n` items: one per backend
/// that supports one, at its first item, labelled with the backend and
/// sized by all of that backend's items.
pub open spec fn manager_options(items: Seq<Match>, sizes: Seq<Option<u64>>, n: int) -> Seq<
    (Seq<char>, Option<Seq<char>>, Option<Seq<char>>, Option<u64>),
>
    decreases n,
{
    if n <= 0 {
        Seq::empty()
    } else {
        let rest = manager_options(items, sizes, n - 1);
        let b = items[n - 1].backend@;
        if cleanup_supported(b) && first_of_backend(items, n - 1) {
            rest.push(
                (
                    "["@ + b + "] "@ + match cleanup_label(b) {
                        Some(l) => l,
                        None => Seq::empty(),
                    },
                    None,
                    Some(b),
                    match backend_total(items, sizes, b, items.len() as int) {
                        Some(t) => Some(t as u64),
                        None => None,
                    },
                ),
            )
        } else {
            rest
        }
    }
}

/// The detected paths, each offered with its measured size.
pub open spec fn detected_options(detected: Seq<String>, sizes: Seq<Option<u64>>) -> Seq<
    (Seq<char>, Option<Seq<char>>, Option<Seq<char>>, Option<u64>),
> {
    Seq::new(
        detected.len(),
        |i: int| ("[Detected] "@ + detected[i]@, Some(detected[i]@), None, sizes[i]),
    )
}

fn backend_size(items: &[Match], sizes: &[Option<u64>], b: &str) -> (r: Option<u64>)
    requires
        sizes@.len() == items@.len(),
        match backend_total(items@, sizes@, b@, items@.len() as int) {
            Some(t) => t <= u64::MAX,
            None => true,
        },
    ensures
        r == match backend_total(items@, sizes@, b@, items@.len() as int) {
            Some(t) => Some(t as u64),
            None => None,
        },
{
    let mut all_known = true;
    for i in 0..items.len()
        invariant
            sizes@.len() == items@.len(),
            all_known == backend_total(items@, sizes@, b@, i as int) is Some,
    {
        if str_eq(items[i].backend.as_str(), b) && sizes[i].is_none() {
            all_known = false;
        }
    }
    if !all_known {
        return None;
    }
    proof {
        lemma_backend_total_monotone(items@, sizes@, b@, items@.len() as int);
    }
    let mut total: u64 = 0;
    for i in 0..items.len()
        invariant
            sizes@.len() == items@.len(),
            backend_total(items@, sizes@, b@, items@.len() as int) is Some,
            backend_total(items@, sizes@, b@, items@.len() as int)->Some_0 <= u64::MAX,
            forall|m: int|
                0 <= m <= items@.len() ==> #[trigger] backend_total(items@, sizes@, b@, m) is Some
                    && backend_total(items@, sizes@, b@, m)->Some_0 <= backend_total(
                    items@,
                    sizes@,
                    b@,
                    items@.len() as int,
                )->Some_0,
            backend_total(items@, sizes@, b@, i as int) == Some(total as int),
    {
        if str_eq(items[i].backend.as_str(), b) {
            match sizes[i] {
                Some(x) => {
                    assert(backend_total(items@, sizes@, b@, i + 1) is Some);
                    total = total + x;
                },
                None => {},
            }
        }
    }
    Some(total)
}

proof fn lemma_backend_total_monotone(items: Seq<Match>, sizes: Seq<Option<u64>>, b: Seq<char>, n: int)
    requires
        0 <= n <= items.len(),
        sizes.len() == items.len(),
        backend_total(items, sizes, b, n) is Some,
    ensures
        forall|m: int|
            0 <= m <= n ==> #[trigger] backend_total(items, sizes, b, m) is Some && backend_total(
                items,
                sizes,
                b,
                m,
            )->Some_0 <= backend_total(items, sizes, b, n)->Some_0,
    decreases n,
{
    if n > 0 {
        let rest = backend_total(items, sizes, b, n - 1);
        assert(rest is Some);
        lemma_backend_total_monotone(items, sizes, b, n - 1);
    }
}

/// The cleanup choices for a selection: each manager's own cleanup first,
/// then every detected path.
pub fn data_options(
    items: &[Match],
    cleanup_sizes: &[Option<u64>],
    detected: &Vec<String>,
    detected_sizes: &Vec<Option<u64>>,
) -> (r: Vec<DataOption>)
    requires
        cleanup_sizes@.len() == items@.len(),
        detected_sizes@.len() == detected@.len(),
        forall|i: int|
            0 <= i < items@.len() ==> match backend_total(
                items@,
                cleanup_sizes@,
                #[trigger] items@[i].backend@,
                items@.len() as int,
            ) {
                Some(t) => t <= u64::MAX,
                None => true,
            },
    ensures
        r@.map_values(|o: DataOption| option_view(o)) == manager_options(
            items@,
            cleanup_sizes@,
            items@.len() as int,
        ) + detected_options(detected@, detected_sizes@),
{
    let mut options: Vec<DataOption> = Vec::new();
    for i in 0..items.len()
        invariant
            cleanup_sizes@.len() == items@.len(),
            forall|j: int|
                0 <= j < items@.len() ==> match backend_total(
                    items@,
                    cleanup_sizes@,
                    #[trigger] items@[j].backend@,
                    items@.len() as int,
                ) {
                    Some(t) => t <= u64::MAX,
                    None => true,
                },
            options@.map_values(|o: DataOption| option_view(o)) == manager_options(
                items@,
                cleanup_sizes@,
                i as int,
            ),
    {
        let item = &items[i];
        let b = item.backend.as_str();
        let mut first = true;
        for k in 0..i
            invariant
                i < items@.len(),
                b@ == items@[i as int].backend@,
                first == forall|q: int| 0 <= q < k ==> #[trigger] items@[q].backend@ != b@,
        {
            if str_eq(items[k].backend.as_str(), b) {
                first = false;
            }
        }
        if manager_cleanup_supported(item) && first {
            let mut label = owned("[");
            push_str(&mut label, b);
            push_str(&mut label, "] ");
            match manager_cleanup_label(item) {
                Some(l) => push_str(&mut label, l.as_str()),
                None => {},
            }
            let size = backend_size(items, cleanup_sizes, b);
            let ghost before = options@;
            options.push(DataOption { label, path: None, backend: Some(owned(b)), size_bytes: size });
            assert(options@.map_values(|o: DataOption| option_view(o)) =~= before.map_values(
                |o: DataOption| option_view(o),
            ).push(option_view(options@.last())));
        }
    }
    let ghost managed = options@.map_values(|o: DataOption| option_view(o));
    for j in 0..detected.len()
        invariant
            detected_sizes@.len() == detected@.len(),
            options@.map_values(|o: DataOption| option_view(o)) == managed + detected_options(
                detected@,
                detected_sizes@,
            ).take(j as int),
    {
        let mut label = owned("[Detected] ");
        push_str(&mut label, detected[j].as_str());
        let ghost before = options@;
        options.push(
            DataOption {
                label,
                path: Some(detected[j].clone()),
                backend: None,
                size_bytes: detected_sizes[j],
            },
        );
        assert(options@.map_values(|o: DataOption| option_view(o)) =~= before.map_values(
            |o: DataOption| option_view(o),
        ).push(option_view(options@.last())));
        assert(detected_options(detected@, detected_sizes@).take(j + 1) =~= detected_options(
            detected@,
            detected_sizes@,
        ).take(j as int).push(option_view(options@.last())));
    }
    assert(detected_options(detected@, detected_sizes@).take(detected@.len() as int)
        =~= detected_options(detected@, detected_sizes@));
    options
}

/// The command that deletes a data path: recursive for a real directory.
pub fn cleanup_command(path: &str, is_directory: bool) -> (r: Vec<String>)
    ensures
        texts(r@) == if is_directory {
            seq!["rm"@, "-r"@, "--"@, path@]
        } else {
            seq!["rm"@, "--"@, path@]
        },
{
    if is_directory {
        v4("rm", "-r", "--", path)
    } else {
        v3("rm", "--", path)
    }
}

/// A data path may be deleted only when it is absolute and neither the
/// root nor the home directory.
pub fn check_cleanup_target(path: &str, home: &str) -> (r: Result<(), String>)
    ensures
        match r {
            Ok(_) => is_absolute(path@) && !same_path(path@, "/"@) && !same_path(path@, home@),
            Err(e) => !(is_absolute(path@) && !same_path(path@, "/"@) && !same_path(path@, home@))
                && e@ == "refusing unsafe cleanup target "@ + path@,
        },
{
    let cs = chars_of(path);
    if !(cs.len() > 0 && cs[0] == '/') || same_path_exec(path, "/") || same_path_exec(path, home) {
        let mut message = owned("refusing unsafe cleanup target ");
        push_str(&mut message, path);
        Err(message)
    } else {
        Ok(())
    }
}

/// The size that `du -sk` reports: its first word, in KiB, converted to
/// bytes (saturating).
pub open spec fn du_bytes(stdout: Seq<char>) -> Option<nat> {
    match unsigned_value(first_word(stdout), u64::MAX as nat) {
        Some(k) => Some(if k * 1024 <= u64::MAX {
            k * 1024
        } else {
            u64::MAX as nat
        }),
        None => None,
    }
}

/// Reads the size out of `du -sk` output.
pub fn du_size(stdout: &str) -> (r: Option<u64>)
    ensures
        match r {
            Some(v) => du_bytes(stdout@) == Some(v as nat),
            None => du_bytes(stdout@) is None,
        },
{
    let w = string_of(&first_word_of(&chars_of(stdout)));
    match parse_u64(w.as_str()) {
        Some(k) => Some(
            if k <= u64::MAX / 1024 {
                k * 1024
            } else {
                u64::MAX
            },
        ),
        None => None,
    }
}

/// What identifies a file system entry at one moment: the entry's device,
/// inode, mode and change time, and its parent directory's device and
/// inode.
#[derive(Debug, Clone, Copy, PartialEq, Eq, Structural)]
pub struct EntryState {
    pub device: u64,
    pub inode: u64,
    pub mode: u32,
    pub change_seconds: i64,
    pub change_nanos: u64,
    pub parent_device: u64,
    pub parent_inode: u64,
}

/// A selected entry may be deleted only while it is the same entry in the
/// same directory, unchanged since it was selected.
pub fn unchanged(selected: &EntryState, now: &EntryState) -> (r: bool)
    ensures
        r == (*selected == *now),
{
    selected.device == now.device && selected.inode == now.inode && selected.mode == now.mode
        && selected.change_seconds == now.change_seconds && selected.change_nanos
        == now.change_nanos && selected.parent_device == now.parent_device
        && selected.parent_inode == now.parent_inode
}

} // verus!
