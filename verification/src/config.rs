//! The `.git-super` configuration: its sections, branch aliases, and the
//! entries that discovery adds.

use vstd::prelude::*;
use vstd::utf8::*;
use vstd::string::*;
use crate::text::{texts, bytes_eq};

verus! {

broadcast use {encode_utf8_decode_utf8};

/// The INI document of the `rust-ini` crate.
#[verifier::external_type_specification]
#[verifier::external_body]
pub struct ExIni(ini::Ini);

/// The properties of one section: keys with their values, in order.
pub type Props = Seq<(Seq<char>, Seq<char>)>;

/// The sections of an INI document in the order it iterates them: each
/// section's name (`None` for the general section) with its properties in
/// the order they are iterated.
pub uninterp spec fn ini_sections(ini: ini::Ini) -> Seq<(Option<Seq<char>>, Props)>;

/// The first section at or after `from` named `name`.
pub open spec fn section_index(secs: Seq<(Option<Seq<char>>, Props)>, name: Seq<char>, from: int) -> Option<int>
    decreases secs.len() - from,
{
    if from < 0 || from >= secs.len() {
        None
    } else if secs[from].0 == Some(name) {
        Some(from)
    } else {
        section_index(secs, name, from + 1)
    }
}

/// The properties of the first section named `name`.
pub open spec fn section_of(secs: Seq<(Option<Seq<char>>, Props)>, name: Seq<char>) -> Option<Props> {
    match section_index(secs, name, 0) {
        Some(i) => Some(secs[i].1),
        None => None,
    }
}

/// The properties without `key`, then `key = value` at the end: a property
/// set by replacing.
pub open spec fn replaced(props: Props, key: Seq<char>, value: Seq<char>) -> Props {
    props.filter(key_is_not(key)).push((key, value))
}

/// Holds of the pairs whose key is not `key`.
pub open spec fn key_is_not(key: Seq<char>) -> spec_fn((Seq<char>, Seq<char>)) -> bool {
    |e: (Seq<char>, Seq<char>)| e.0 != key
}

/// The sections after `key = value` is set in the first section named
/// `name`, which is appended when there is none.
pub open spec fn with_entry(
    secs: Seq<(Option<Seq<char>>, Props)>,
    name: Seq<char>,
    key: Seq<char>,
    value: Seq<char>,
) -> Seq<(Option<Seq<char>>, Props)> {
    match section_index(secs, name, 0) {
        Some(i) => secs.update(i, (Some(name), replaced(secs[i].1, key, value))),
        None => secs.push((Some(name), seq![(key, value)])),
    }
}

/// Key/value string pairs as character sequences.
pub open spec fn pairs(v: Seq<(String, String)>) -> Props {
    v.map_values(|p: (String, String)| (p.0@, p.1@))
}

/// The properties of one INI section, of the `rust-ini` crate.
#[verifier::external_type_specification]
#[verifier::external_body]
pub struct ExProperties(ini::Properties);

/// The key/value pairs of a section's properties, in the order they are
/// iterated.
pub uninterp spec fn properties_of(p: ini::Properties) -> Props;

/// `Ini::section`: the first section named `name`, or `None` when no section
/// has that name.
#[verifier::external_body]
fn ini_section<'a>(ini: &'a ini::Ini, name: &str) -> (r: Option<&'a ini::Properties>)
    ensures
        match r {
            Some(p) => section_of(ini_sections(*ini), name@) == Some(properties_of(*p)),
            None => section_of(ini_sections(*ini), name@) is None,
        },
{
    ini.section(Some(name))
}

/// `Properties::iter`: the key/value pairs of the section, in order, copied
/// into strings.
#[verifier::external_body]
fn properties_entries(p: &ini::Properties) -> (r: Vec<(String, String)>)
    ensures
        pairs(r@) == properties_of(*p),
{
    let mut v = Vec::new();
    for (k, val) in p.iter() {
        v.push((k.to_string(), val.to_string()));
    }
    v
}

/// `Properties::get`: the first value of `key` in the section.
#[verifier::external_body]
fn properties_get(p: &ini::Properties, key: &str) -> (r: Option<String>)
    ensures
        opt_text(r) == first_value(properties_of(*p), key@),
{
    p.get(key).map(|v| v.to_string())
}

/// `Ini::set_to`: sets `key = value` in the first section named `name`
/// (appending that section when there is none), replacing every earlier
/// value of `key` there; the new pair comes last.
#[verifier::external_body]
fn set_entry(ini: &mut ini::Ini, name: &str, key: String, value: String)
    ensures
        ini_sections(*final(ini)) == with_entry(ini_sections(*old(ini)), name@, key@, value@),
{
    ini.set_to(Some(name), key, value);
}

/// The text of an optional string.
pub open spec fn opt_text(o: Option<String>) -> Option<Seq<char>> {
    match o {
        Some(s) => Some(s@),
        None => None,
    }
}

/// The first value of `key` among the properties.
pub open spec fn first_value(props: Props, key: Seq<char>) -> Option<Seq<char>>
    decreases props.len(),
{
    if props.len() == 0 {
        None
    } else if props[0].0 == key {
        Some(props[0].1)
    } else {
        first_value(props.drop_first(), key)
    }
}

/// The value of `key` in the first section named `name`, as
/// `Properties::get` gives it.
pub open spec fn config_value(secs: Seq<(Option<Seq<char>>, Props)>, name: Seq<char>, key: Seq<char>) -> Option<Seq<char>> {
    match section_of(secs, name) {
        Some(p) => first_value(p, key),
        None => None,
    }
}

/// The map that the pairs give when each later pair overrides an earlier one
/// with the same key.
pub open spec fn as_map(props: Props) -> Map<Seq<char>, Seq<char>>
    decreases props.len(),
{
    if props.len() == 0 {
        Map::empty()
    } else {
        as_map(props.drop_last()).insert(props.last().0, props.last().1)
    }
}

/// Whether two strings hold the same text.
pub fn str_eq(a: &str, b: &str) -> (r: bool)
    ensures
        r == (a@ == b@),
{
    let r = bytes_eq(a.as_bytes(), b.as_bytes());
    proof {
        assert(decode_utf8(encode_utf8(a@)) == a@);
        assert(decode_utf8(encode_utf8(b@)) == b@);
    }
    r
}

/// The value of `key` in the first section named `name` of the configuration.
pub fn value_of(config: &ini::Ini, name: &str, key: &str) -> (r: Option<String>)
    ensures
        match r {
            Some(v) => config_value(ini_sections(*config), name@, key@) == Some(v@),
            None => config_value(ini_sections(*config), name@, key@) is None,
        },
{
    match ini_section(config, name) {
        Some(p) => properties_get(p, key),
        None => None,
    }
}

/// The key/value pairs of the first section named `name`, or none.
pub fn entries_of(config: &ini::Ini, name: &str) -> (r: Vec<(String, String)>)
    ensures
        pairs(r@) == match section_of(ini_sections(*config), name@) {
            Some(p) => p,
            None => Seq::empty(),
        },
{
    match ini_section(config, name) {
        Some(p) => properties_entries(p),
        None => {
            let v: Vec<(String, String)> = Vec::new();
            assert(pairs(v@) =~= Seq::<(Seq<char>, Seq<char>)>::empty());
            v
        },
    }
}

/// The branches that a branch alias names, one per repository.
pub struct AliasMap {
    /// The `repository = branch` pairs of the alias's section, in order.
    pub entries: Vec<(String, String)>,
}

impl View for AliasMap {
    type V = Map<Seq<char>, Seq<char>>;

    open spec fn view(&self) -> Map<Seq<char>, Seq<char>> {
        as_map(pairs(self.entries@))
    }
}

/// When no pair from `j` on has key `k`, the map of all pairs gives `k` what
/// the map of the first `j` pairs gives it.
proof fn lemma_as_map_prefix(ps: Props, j: int, k: Seq<char>)
    requires
        0 <= j <= ps.len(),
        forall|m: int| j <= m < ps.len() ==> #[trigger] ps[m].0 != k,
    ensures
        as_map(ps).contains_key(k) == as_map(ps.take(j)).contains_key(k),
        as_map(ps).contains_key(k) ==> as_map(ps)[k] == as_map(ps.take(j))[k],
    decreases ps.len(),
{
    if ps.len() == j {
        assert(ps.take(j) =~= ps);
    } else {
        let d = ps.drop_last();
        assert(ps[ps.len() - 1].0 != k);
        assert forall|m: int| j <= m < d.len() implies #[trigger] d[m].0 != k by {
            assert(d[m] == ps[m]);
        }
        lemma_as_map_prefix(d, j, k);
        assert(d.take(j) =~= ps.take(j));
    }
}

impl AliasMap {
    /// The branch that the alias names for repository `key`.
    pub fn get(&self, key: &str) -> (r: Option<String>)
        ensures
            match r {
                Some(v) => self@.contains_key(key@) && self@[key@] == v@,
                None => !self@.contains_key(key@),
            },
    {
        let ghost ps = pairs(self.entries@);
        let mut j = self.entries.len();
        while j > 0
            invariant
                j <= ps.len(),
                ps == pairs(self.entries@),
                forall|m: int| j <= m < ps.len() ==> #[trigger] ps[m].0 != key@,
            decreases j,
        {
            if str_eq(self.entries[j - 1].0.as_str(), key) {
                proof {
                    lemma_as_map_prefix(ps, j as int, key@);
                    assert(ps.take(j as int).drop_last() =~= ps.take(j - 1));
                    assert(ps.take(j as int).last() == ps[j - 1]);
                }
                return Some(self.entries[j - 1].1.clone());
            }
            j -= 1;
        }
        proof {
            lemma_as_map_prefix(ps, 0, key@);
        }
        None
    }
}

/// The name of the section that defines branch alias `name`.
pub open spec fn alias_section(name: Seq<char>) -> Seq<char> {
    "branch_alias."@ + name
}

/// The branch alias named `name`: the pairs of section `[branch_alias.<name>]`,
/// when the configuration has that section.
pub fn resolve_alias(config: &ini::Ini, name: &str) -> (r: Option<AliasMap>)
    ensures
        r is Some <==> section_of(ini_sections(*config), alias_section(name@)) is Some,
        r matches Some(m) ==> section_of(ini_sections(*config), alias_section(name@)) == Some(
            pairs(m.entries@),
        ),
{
    let mut section_name = "branch_alias.".to_owned();
    section_name.append(name);
    match ini_section(config, section_name.as_str()) {
        Some(p) => Some(AliasMap { entries: properties_entries(p) }),
        None => None,
    }
}

/// `s` without its leading slashes.
pub open spec fn trim_slashes(s: Seq<char>) -> Seq<char>
    decreases s.len(),
{
    if s.len() > 0 && s[0] == '/' {
        trim_slashes(s.drop_first())
    } else {
        s
    }
}

/// `s` without its leading slashes.
pub fn trim_leading_slashes(s: &str) -> (r: &str)
    ensures
        r@ == trim_slashes(s@),
{
    let n = s.unicode_len();
    let mut k: usize = 0;
    assert(s@.skip(0) =~= s@);
    while k < n
        invariant
            k <= n,
            n == s@.len(),
            trim_slashes(s@) == trim_slashes(s@.skip(k as int)),
        ensures
            k <= n,
            trim_slashes(s@) == s@.skip(k as int),
        decreases n - k,
    {
        if s.get_char(k) != '/' {
            assert(s@.skip(k as int)[0] == s@[k as int]);
            break;
        }
        assert(s@.skip(k as int).drop_first() =~= s@.skip(k + 1));
        k += 1;
    }
    let r = s.substring_char(k, n);
    assert(r@ =~= s@.skip(k as int));
    r
}

/// The configuration after discovery met the repositories at `paths`, in
/// order: each path without leading slashes names a subproject, which is
/// added as `name = ./name` to `[subprojects]` unless it is empty or already
/// listed there.
pub open spec fn discovered(secs: Seq<(Option<Seq<char>>, Props)>, paths: Seq<Seq<char>>) -> Seq<(Option<Seq<char>>, Props)>
    decreases paths.len(),
{
    if paths.len() == 0 {
        secs
    } else {
        let prev = discovered(secs, paths.drop_last());
        let name = trim_slashes(paths.last());
        if name.len() == 0 || config_value(prev, "subprojects"@, name) is Some {
            prev
        } else {
            with_entry(prev, "subprojects"@, name, "./"@ + name)
        }
    }
}

/// Lists the repositories found at `paths` (relative to the configuration's
/// directory) in `[subprojects]`, keeping every entry already there.
pub fn discover(config: &mut ini::Ini, paths: &Vec<String>) -> (r: bool)
    ensures
        r,
        ini_sections(*final(config)) == discovered(ini_sections(*old(config)), texts(paths@)),
{
    let ghost start = ini_sections(*config);
    let ghost ps = texts(paths@);
    let mut i: usize = 0;
    assert(ps.take(0) =~= Seq::<Seq<char>>::empty());
    while i < paths.len()
        invariant
            i <= paths@.len(),
            ps == texts(paths@),
            ini_sections(*config) == discovered(start, ps.take(i as int)),
        decreases paths@.len() - i,
    {
        assert(ps.take(i + 1).drop_last() =~= ps.take(i as int));
        assert(ps.take(i + 1).last() == paths@[i as int]@);
        let name = trim_leading_slashes(paths[i].as_str());
        if name.unicode_len() > 0 {
            let already = value_of(config, "subprojects", name).is_some();
            if !already {
                let mut value = "./".to_owned();
                value.append(name);
                set_entry(config, "subprojects", name.to_owned(), value);
            }
        }
        i += 1;
    }
    assert(ps.take(paths@.len() as int) =~= ps);
    true
}

/// Subproject `name` is listed in `[subprojects]`.
pub open spec fn listed(secs: Seq<(Option<Seq<char>>, Props)>, name: Seq<char>) -> bool {
    config_value(secs, "subprojects"@, name) is Some
}

/// A first value exists exactly when some pair has the key.
proof fn lemma_first_value_exists(props: Props, key: Seq<char>)
    ensures
        first_value(props, key) is Some <==> exists|j: int| 0 <= j < props.len() && #[trigger] props[j].0 == key,
    decreases props.len(),
{
    if props.len() > 0 {
        let rest = props.drop_first();
        lemma_first_value_exists(rest, key);
        if props[0].0 != key {
            if exists|j: int| 0 <= j < props.len() && #[trigger] props[j].0 == key {
                let j = choose|j: int| 0 <= j < props.len() && #[trigger] props[j].0 == key;
                assert(rest[j - 1] == props[j]);
            }
            if exists|j: int| 0 <= j < rest.len() && #[trigger] rest[j].0 == key {
                let j = choose|j: int| 0 <= j < rest.len() && #[trigger] rest[j].0 == key;
                assert(props[j + 1] == rest[j]);
            }
        }
    }
}

/// The search for a section looks only at the section names.
proof fn lemma_section_index_names(
    a: Seq<(Option<Seq<char>>, Props)>,
    b: Seq<(Option<Seq<char>>, Props)>,
    name: Seq<char>,
    from: int,
)
    requires
        a.len() == b.len(),
        forall|m: int| 0 <= m < a.len() ==> #[trigger] a[m].0 == b[m].0,
    ensures
        section_index(a, name, from) == section_index(b, name, from),
    decreases a.len() - from,
{
    if 0 <= from < a.len() {
        lemma_section_index_names(a, b, name, from + 1);
    }
}

/// A section appended after a search that found none is what the search finds.
proof fn lemma_section_index_push(
    a: Seq<(Option<Seq<char>>, Props)>,
    x: (Option<Seq<char>>, Props),
    name: Seq<char>,
    from: int,
)
    requires
        0 <= from <= a.len(),
        section_index(a, name, from) is None,
        x.0 == Some(name),
    ensures
        section_index(a.push(x), name, from) == Some(a.len() as int),
    decreases a.len() - from,
{
    if from < a.len() {
        assert(a.push(x)[from] == a[from]);
        lemma_section_index_push(a, x, name, from + 1);
    }
}

/// A found section carries the name searched for.
proof fn lemma_section_index_found(a: Seq<(Option<Seq<char>>, Props)>, name: Seq<char>, from: int)
    ensures
        section_index(a, name, from) matches Some(i) ==> from <= i < a.len() && a[i].0 == Some(name),
    decreases a.len() - from,
{
    if 0 <= from < a.len() {
        lemma_section_index_found(a, name, from + 1);
    }
}

/// Setting a subproject lists it and keeps every subproject listed before.
proof fn lemma_with_entry_lists(
    secs: Seq<(Option<Seq<char>>, Props)>,
    name: Seq<char>,
    value: Seq<char>,
    other: Seq<char>,
)
    ensures
        listed(with_entry(secs, "subprojects"@, name, value), name),
        listed(secs, other) ==> listed(with_entry(secs, "subprojects"@, name, value), other),
{
    let s = "subprojects"@;
    let after = with_entry(secs, s, name, value);
    lemma_section_index_found(secs, s, 0);
    match section_index(secs, s, 0) {
        Some(i) => {
            let p = secs[i].1;
            let np = replaced(p, name, value);
            assert forall|m: int| 0 <= m < secs.len() implies #[trigger] secs[m].0 == after[m].0 by {}
            lemma_section_index_names(secs, after, s, 0);
            assert(np[np.len() - 1].0 == name);
            lemma_first_value_exists(np, name);
            if listed(secs, other) && other != name {
                lemma_first_value_exists(p, other);
                let j = choose|j: int| 0 <= j < p.len() && #[trigger] p[j].0 == other;
                let pred = key_is_not(name);
                p.lemma_filter_contains(pred, j);
                let f = p.filter(pred);
                assert(pred(p[j]));
                assert(f.contains(p[j]));
                let k = choose|k: int| 0 <= k < f.len() && f[k] == p[j];
                assert(np =~= f.push((name, value)));
                assert(np[k] == f[k]);
                lemma_first_value_exists(np, other);
            }
        },
        None => {
            let x = (Some(s), seq![(name, value)]);
            lemma_section_index_push(secs, x, s, 0);
            assert(after[secs.len() as int] == x);
            assert(x.1[0].0 == name);
            lemma_first_value_exists(x.1, name);
        },
    }
}

/// After discovery every non-empty name among the paths is listed.
proof fn lemma_discovered_lists(secs: Seq<(Option<Seq<char>>, Props)>, paths: Seq<Seq<char>>, m: int)
    requires
        0 <= m < paths.len(),
        trim_slashes(paths[m]).len() > 0,
    ensures
        listed(discovered(secs, paths), trim_slashes(paths[m])),
    decreases paths.len(),
{
    let prev = discovered(secs, paths.drop_last());
    let name = trim_slashes(paths.last());
    if m < paths.len() - 1 {
        assert(paths.drop_last()[m] == paths[m]);
        lemma_discovered_lists(secs, paths.drop_last(), m);
    }
    if !(name.len() == 0 || config_value(prev, "subprojects"@, name) is Some) {
        lemma_with_entry_lists(prev, name, "./"@ + name, trim_slashes(paths[m]));
    }
}

/// Discovery changes nothing when every non-empty name is already listed.
proof fn lemma_discovered_unchanged(secs: Seq<(Option<Seq<char>>, Props)>, paths: Seq<Seq<char>>)
    requires
        forall|m: int| 0 <= m < paths.len() && trim_slashes(#[trigger] paths[m]).len() > 0 ==> listed(secs, trim_slashes(paths[m])),
    ensures
        discovered(secs, paths) == secs,
    decreases paths.len(),
{
    if paths.len() > 0 {
        let d = paths.drop_last();
        assert forall|m: int| 0 <= m < d.len() && trim_slashes(#[trigger] d[m]).len() > 0 implies listed(secs, trim_slashes(d[m])) by {
            assert(d[m] == paths[m]);
        }
        lemma_discovered_unchanged(secs, d);
        assert(paths.last() == paths[paths.len() - 1]);
    }
}

/// Discovering the same repositories twice gives what discovering them once
/// gives: a second `git super discover` leaves `.git-super` as the first left it.
pub proof fn law_discover_idempotent(secs: Seq<(Option<Seq<char>>, Props)>, paths: Seq<Seq<char>>)
    ensures
        discovered(discovered(secs, paths), paths) == discovered(secs, paths),
{
    let once = discovered(secs, paths);
    assert forall|m: int| 0 <= m < paths.len() && trim_slashes(#[trigger] paths[m]).len() > 0 implies listed(once, trim_slashes(paths[m])) by {
        lemma_discovered_lists(secs, paths, m);
    }
    lemma_discovered_unchanged(once, paths);
}

/// Discovery keeps every subproject that was listed before it.
pub proof fn law_discover_keeps_listed(secs: Seq<(Option<Seq<char>>, Props)>, paths: Seq<Seq<char>>, name: Seq<char>)
    requires
        listed(secs, name),
    ensures
        listed(discovered(secs, paths), name),
    decreases paths.len(),
{
    if paths.len() > 0 {
        law_discover_keeps_listed(secs, paths.drop_last(), name);
        let prev = discovered(secs, paths.drop_last());
        let n = trim_slashes(paths.last());
        if !(n.len() == 0 || config_value(prev, "subprojects"@, n) is Some) {
            lemma_with_entry_lists(prev, n, "./"@ + n, name);
        }
    }
}

/// After discovery every repository found is listed under its name.
pub proof fn law_discover_lists_found(secs: Seq<(Option<Seq<char>>, Props)>, paths: Seq<Seq<char>>, m: int)
    requires
        0 <= m < paths.len(),
        trim_slashes(paths[m]).len() > 0,
    ensures
        listed(discovered(secs, paths), trim_slashes(paths[m])),
{
    lemma_discovered_lists(secs, paths, m);
}

} // verus!
