//! Chrome's profiles: read them out of the `Local State` document, and map a
//! friendly profile name to the directory name Chrome expects.

use vstd::prelude::*;
use vstd::string::StringExecFns;
use crate::text::{
    eq_ascii_nocase, eq_ignore_ascii_case, lemma_seq_le_total, lemma_seq_le_transitive, seq_le, str_eq,
    str_le,
};

verus! {

/// A JSON document, as the profile lookup reads it. Object members are in
/// the order the reader hands them over (serde_json hands them over sorted
/// by name, each name once); numbers keep their text.
pub enum Json {
    Null,
    Bool(bool),
    Number(String),
    Str(String),
    Array(Vec<Json>),
    Object(Vec<(String, Json)>),
}

/// No two members of an object share a name, as with every object that
/// serde_json parses.
pub open spec fn distinct_names(fields: Seq<(String, Json)>) -> bool {
    forall|i: int, j: int| 0 <= i < j < fields.len() ==> (#[trigger] fields[i]).0@ != (#[trigger] fields[j]).0@
}

/// Every object in the document, at any depth, names each member once.
pub open spec fn json_wf(j: Json) -> bool
    decreases j,
{
    match j {
        Json::Object(fields) => distinct_names(fields@) && forall|i: int|
            0 <= i < fields@.len() ==> json_wf(#[trigger] fields@[i].1),
        Json::Array(items) => forall|i: int| 0 <= i < items@.len() ==> json_wf(#[trigger] items@[i]),
        _ => true,
    }
}

#[verifier::external_type_specification]
#[verifier::external_body]
pub struct ExJsonValue(serde_json::Value);

/// Turns a `serde_json::Value` into the library's `Json`, variant by
/// variant; the body of `parse_json` uses it to hand over its result.
#[verifier::external_body]
fn json_of(v: &serde_json::Value) -> Json {
    match v {
        serde_json::Value::Null => Json::Null,
        serde_json::Value::Bool(b) => Json::Bool(*b),
        serde_json::Value::Number(n) => Json::Number(n.to_string()),
        serde_json::Value::String(t) => Json::Str(t.clone()),
        serde_json::Value::Array(items) => Json::Array(items.iter().map(json_of).collect()),
        serde_json::Value::Object(map) => Json::Object(
            map.iter().map(|(k, x)| (k.clone(), json_of(x))).collect(),
        ),
    }
}

/// The name for what `serde_json::from_str::<serde_json::Value>` makes of a
/// text: `None` where it is no JSON document, else the document.
pub uninterp spec fn json_text(text: Seq<char>) -> Option<Json>;

/// Calls `serde_json::from_str::<serde_json::Value>` on `text`. The result is
/// named, not spelled out; what is stated is that an object's members come
/// from serde_json's `Map`, which holds each name once (without the
/// `preserve_order` feature it is a `BTreeMap`, so they also come sorted).
#[verifier::external_body]
pub fn parse_json(text: &str) -> (r: Option<Json>)
    ensures
        r == json_text(text@),
        r matches Some(j) ==> json_wf(j),
{
    match serde_json::from_str::<serde_json::Value>(text) {
        Ok(v) => Some(json_of(&v)),
        Err(_) => None,
    }
}

/// A profile as (directory name, display name).
pub type Profile = (String, String);

/// The value of the first member named `key` at or after index `i`.
pub open spec fn member_from(fields: Seq<(String, Json)>, key: Seq<char>, i: int) -> Option<Json>
    decreases fields.len() - i,
{
    if i < 0 || i >= fields.len() {
        None
    } else if fields[i].0@ == key {
        Some(fields[i].1)
    } else {
        member_from(fields, key, i + 1)
    }
}

/// The value of member `key` of an object; `None` for a missing member or a
/// value that is no object.
pub open spec fn json_get(j: Json, key: Seq<char>) -> Option<Json> {
    match j {
        Json::Object(fields) => member_from(fields@, key, 0),
        _ => None,
    }
}

/// The value of member `key` of `j`, if `j` is an object that has one.
pub fn get<'a>(j: &'a Json, key: &str) -> (r: Option<&'a Json>)
    ensures
        match json_get(*j, key@) {
            Some(v) => r == Some(&v),
            None => r is None,
        },
{
    match j {
        Json::Object(fields) => {
            let n = fields.len();
            let mut i: usize = 0;
            while i < n
                invariant
                    n == fields@.len(),
                    json_get(*j, key@) == member_from(fields@, key@, 0),
                    i <= n,
                    member_from(fields@, key@, 0) == member_from(fields@, key@, i as int),
                decreases n - i,
            {
                if str_eq(fields[i].0.as_str(), key) {
                    return Some(&fields[i].1);
                }
                i = i + 1;
            }
            None
        },
        _ => None,
    }
}

/// The members of `profile.info_cache`, when that is an object.
pub open spec fn cache_entries(state: Json) -> Seq<(String, Json)> {
    match json_get(state, "profile"@) {
        Some(p) => match json_get(p, "info_cache"@) {
            Some(Json::Object(fields)) => fields@,
            _ => Seq::empty(),
        },
        None => Seq::empty(),
    }
}

/// The display name of profile directory `dir`: its `name` member when that
/// is a string, else the directory name itself.
pub open spec fn display_name(dir: Seq<char>, info: Json) -> Seq<char> {
    match json_get(info, "name"@) {
        Some(Json::Str(n)) => n@,
        _ => dir,
    }
}

/// The profiles that `Local State` lists, in the order it lists them.
pub open spec fn listed_profiles(state: Json) -> Seq<(Seq<char>, Seq<char>)> {
    cache_entries(state).map_values(|e: (String, Json)| (e.0@, display_name(e.0@, e.1)))
}

/// Where a stable sort by directory name puts `e` among the sorted `s`: after
/// every entry whose directory name is no greater than that of `e`.
pub open spec fn insert_pos(s: Seq<(Seq<char>, Seq<char>)>, e: (Seq<char>, Seq<char>), j: int) -> int
    decreases s.len() - j,
{
    if j < 0 || j >= s.len() {
        s.len() as int
    } else if !seq_le(s[j].0, e.0) {
        j
    } else {
        insert_pos(s, e, j + 1)
    }
}

/// `s` sorted by directory name; entries with equal directory names keep
/// their relative order.
pub open spec fn sort_by_dir(s: Seq<(Seq<char>, Seq<char>)>) -> Seq<(Seq<char>, Seq<char>)>
    decreases s.len(),
{
    if s.len() == 0 {
        s
    } else {
        let rest = sort_by_dir(s.drop_last());
        rest.insert(insert_pos(rest, s.last(), 0), s.last())
    }
}

/// The profiles of a `Local State` document, sorted by directory name.
pub open spec fn profile_list(state: Json) -> Seq<(Seq<char>, Seq<char>)> {
    sort_by_dir(listed_profiles(state))
}

pub proof fn lemma_insert_pos_bounds(s: Seq<(Seq<char>, Seq<char>)>, e: (Seq<char>, Seq<char>), j: int)
    requires
        0 <= j <= s.len(),
    ensures
        j <= insert_pos(s, e, j) <= s.len(),
        forall|k: int| j <= k < insert_pos(s, e, j) ==> seq_le(#[trigger] s[k].0, e.0),
        insert_pos(s, e, j) < s.len() ==> !seq_le(s[insert_pos(s, e, j)].0, e.0),
    decreases s.len() - j,
{
    if j < s.len() && seq_le(s[j].0, e.0) {
        lemma_insert_pos_bounds(s, e, j + 1);
    }
}

/// Sort profiles by directory name, keeping the order of equal names.
fn sort_profiles(v: &Vec<Profile>) -> (r: Vec<Profile>)
    ensures
        r.deep_view() == sort_by_dir(v.deep_view()),
{
    let n = v.len();
    let mut out: Vec<Profile> = Vec::new();
    let mut i: usize = 0;
    while i < n
        invariant
            n == v@.len(),
            i <= n,
            out.deep_view() == sort_by_dir(v.deep_view().take(i as int)),
        decreases n - i,
    {
        let e = &v[i];
        let ghost ev = e.deep_view();
        let ghost sorted = out.deep_view();
        let m = out.len();
        let mut j: usize = 0;
        while j < m && str_le(out[j].0.as_str(), e.0.as_str())
            invariant
                m == out@.len(),
                sorted == out.deep_view(),
                ev == e.deep_view(),
                j <= m,
                insert_pos(sorted, ev, j as int) == insert_pos(sorted, ev, 0),
            decreases m - j,
        {
            j = j + 1;
        }
        let item: Profile = (e.0.clone(), e.1.clone());
        out.insert(j, item);
        proof {
            assert(v.deep_view().take(i + 1).drop_last() == v.deep_view().take(i as int));
            assert(v.deep_view().take(i + 1).last() == ev);
            assert(out.deep_view() == sorted.insert(j as int, ev));
        }
        i = i + 1;
    }
    assert(v.deep_view().take(n as int) == v.deep_view());
    out
}

/// (directory name, display name) for every profile that a `Local State`
/// document lists, e.g. ("Profile 1", "Work"), sorted by directory name.
/// Empty when the document has no `profile.info_cache` object.
pub fn profiles_from_state(state: &Json) -> (r: Vec<Profile>)
    ensures
        r.deep_view() == profile_list(*state),
        distinct_names(cache_entries(*state)) ==> forall|i: int, j: int|
            0 <= i < j < r@.len() ==> seq_le(
                (#[trigger] r.deep_view()[i]).0,
                (#[trigger] r.deep_view()[j]).0,
            ) && r.deep_view()[i].0 != r.deep_view()[j].0,
{
    let mut found: Vec<Profile> = Vec::new();
    let ghost entries = cache_entries(*state);
    if let Some(p) = get(state, "profile") {
        if let Some(Json::Object(cache)) = get(p, "info_cache") {
            let n = cache.len();
            let mut i: usize = 0;
            while i < n
                invariant
                    n == cache@.len(),
                    entries == cache@,
                    entries == cache_entries(*state),
                    i <= n,
                    found.deep_view() == listed_profiles(*state).take(i as int),
                decreases n - i,
            {
                let dir = &cache[i].0;
                let display = match get(&cache[i].1, "name") {
                    Some(Json::Str(name)) => name.clone(),
                    _ => dir.clone(),
                };
                found.push((dir.clone(), display));
                proof {
                    assert(listed_profiles(*state).take(i + 1) == listed_profiles(*state).take(
                        i as int,
                    ).push(listed_profiles(*state)[i as int]));
                }
                i = i + 1;
            }
            assert(listed_profiles(*state).take(n as int) == listed_profiles(*state));
        }
    }
    let r = sort_profiles(&found);
    proof {
        if distinct_names(cache_entries(*state)) {
            lemma_profiles_strictly_ordered(*state);
            let l = profile_list(*state);
            assert(r.deep_view().len() == r@.len());
            assert forall|i: int, j: int| 0 <= i < j < r@.len() implies seq_le(
                (#[trigger] r.deep_view()[i]).0,
                (#[trigger] r.deep_view()[j]).0,
            ) && r.deep_view()[i].0 != r.deep_view()[j].0 by {
                assert(l[i] == r.deep_view()[i] && l[j] == r.deep_view()[j]);
            }
        }
    }
    r
}


/// Some profile's directory name equals `name`, ASCII case aside.
pub open spec fn has_dir(list: Seq<(Seq<char>, Seq<char>)>, name: Seq<char>) -> bool {
    exists|i: int| 0 <= i < list.len() && eq_ascii_nocase(#[trigger] list[i].0, name)
}

/// The first profile at or after `i` whose display name equals `name`,
/// ASCII case aside.
pub open spec fn display_match_from(list: Seq<(Seq<char>, Seq<char>)>, name: Seq<char>, i: int) -> Option<int>
    decreases list.len() - i,
{
    if i < 0 || i >= list.len() {
        None
    } else if eq_ascii_nocase(list[i].1, name) {
        Some(i)
    } else {
        display_match_from(list, name, i + 1)
    }
}

/// The `--profile-directory` value for a configured profile name: the name
/// itself when it is a directory name, else the directory of the first
/// profile with that display name; `None` when neither exists.
pub open spec fn resolved_dir(list: Seq<(Seq<char>, Seq<char>)>, name: Seq<char>) -> Option<Seq<char>> {
    if has_dir(list, name) {
        Some(name)
    } else {
        match display_match_from(list, name, 0) {
            Some(i) => Some(list[i].0),
            None => None,
        }
    }
}

pub proof fn lemma_display_match_in_range(list: Seq<(Seq<char>, Seq<char>)>, name: Seq<char>, i: int)
    ensures
        match display_match_from(list, name, i) {
            Some(k) => i <= k < list.len() && eq_ascii_nocase(list[k].1, name),
            None => true,
        },
    decreases list.len() - i,
{
    if 0 <= i < list.len() && !eq_ascii_nocase(list[i].1, name) {
        lemma_display_match_in_range(list, name, i + 1);
    }
}

/// Resolve a config `profile` value (a display name or a literal directory
/// name) to the `--profile-directory` value Chrome expects, among `profiles`.
/// `None` if it can't be matched.
pub fn resolve_profile_dir(profiles: &Vec<Profile>, name: &str) -> (r: Option<String>)
    ensures
        r.deep_view() == resolved_dir(profiles.deep_view(), name@),
{
    let n = profiles.len();
    let ghost list = profiles.deep_view();
    let mut i: usize = 0;
    while i < n
        invariant
            n == profiles@.len(),
            list == profiles.deep_view(),
            i <= n,
            forall|k: int| 0 <= k < i ==> !eq_ascii_nocase(#[trigger] list[k].0, name@),
        decreases n - i,
    {
        if eq_ignore_ascii_case(profiles[i].0.as_str(), name) {
            assert(eq_ascii_nocase(list[i as int].0, name@));
            return Some(String::from_str(name));
        }
        i = i + 1;
    }
    let mut j: usize = 0;
    while j < n
        invariant
            n == profiles@.len(),
            list == profiles.deep_view(),
            !has_dir(list, name@),
            j <= n,
            display_match_from(list, name@, 0) == display_match_from(list, name@, j as int),
        decreases n - j,
    {
        if eq_ignore_ascii_case(profiles[j].1.as_str(), name) {
            return Some(profiles[j].0.clone());
        }
        j = j + 1;
    }
    None
}


/// Entries are in ascending order of directory name.
pub open spec fn sorted_by_dir(s: Seq<(Seq<char>, Seq<char>)>) -> bool {
    forall|i: int, j: int| 0 <= i < j < s.len() ==> seq_le(#[trigger] s[i].0, #[trigger] s[j].0)
}

proof fn lemma_insert_keeps_sorted(rest: Seq<(Seq<char>, Seq<char>)>, e: (Seq<char>, Seq<char>))
    requires
        sorted_by_dir(rest),
    ensures
        sorted_by_dir(rest.insert(insert_pos(rest, e, 0), e)),
{
    let pos = insert_pos(rest, e, 0);
    lemma_insert_pos_bounds(rest, e, 0);
    let out = rest.insert(pos, e);
    assert forall|k: int| pos <= k < rest.len() implies seq_le(e.0, #[trigger] rest[k].0) by {
        lemma_seq_le_total(rest[pos].0, e.0);
        if k > pos {
            lemma_seq_le_transitive(e.0, rest[pos].0, rest[k].0);
        }
    }
    assert forall|i: int, j: int| 0 <= i < j < out.len() implies seq_le(
        #[trigger] out[i].0,
        #[trigger] out[j].0,
    ) by {
        if j < pos {
            assert(out[i] == rest[i] && out[j] == rest[j]);
        } else if j == pos {
            assert(out[i] == rest[i]);
        } else if i < pos {
            assert(out[i] == rest[i] && out[j] == rest[j - 1]);
            lemma_seq_le_transitive(rest[i].0, e.0, rest[j - 1].0);
        } else if i == pos {
            assert(out[j] == rest[j - 1]);
        } else {
            assert(out[i] == rest[i - 1] && out[j] == rest[j - 1]);
        }
    }
}

/// Sorting profiles by directory name orders them and loses or adds none:
/// the result is in ascending order and holds the same entries, each as many
/// times.
pub proof fn lemma_sort_by_dir_sorted_permutation(s: Seq<(Seq<char>, Seq<char>)>)
    ensures
        sorted_by_dir(sort_by_dir(s)),
        sort_by_dir(s).to_multiset() == s.to_multiset(),
    decreases s.len(),
{
    broadcast use vstd::seq_lib::group_to_multiset_ensures;

    if s.len() > 0 {
        let rest = sort_by_dir(s.drop_last());
        lemma_sort_by_dir_sorted_permutation(s.drop_last());
        lemma_insert_pos_bounds(rest, s.last(), 0);
        lemma_insert_keeps_sorted(rest, s.last());
        assert(s == s.drop_last().push(s.last()));
    }
}

/// The listed profiles come out sorted by directory name, each listed
/// profile exactly as often as `Local State` lists it.
pub proof fn lemma_profile_list_sorted_permutation(state: Json)
    ensures
        sorted_by_dir(profile_list(state)),
        profile_list(state).to_multiset() == listed_profiles(state).to_multiset(),
{
    lemma_sort_by_dir_sorted_permutation(listed_profiles(state));
}

/// A configured name that is a directory name passes through unchanged;
/// otherwise the resolution, when there is one, is the directory of a
/// profile whose display name is the configured name.
pub proof fn lemma_resolution_sources(list: Seq<(Seq<char>, Seq<char>)>, name: Seq<char>)
    ensures
        has_dir(list, name) ==> resolved_dir(list, name) == Some(name),
        !has_dir(list, name) ==> match resolved_dir(list, name) {
            Some(d) => exists|i: int|
                0 <= i < list.len() && (#[trigger] list[i]).0 == d && eq_ascii_nocase(list[i].1, name),
            None => forall|i: int| 0 <= i < list.len() ==> !eq_ascii_nocase(#[trigger] list[i].1, name),
        },
{
    lemma_display_match_in_range(list, name, 0);
    lemma_display_scan(list, name, 0);
}

proof fn lemma_display_scan(list: Seq<(Seq<char>, Seq<char>)>, name: Seq<char>, i: int)
    requires
        0 <= i,
    ensures
        display_match_from(list, name, i) is None ==> forall|k: int|
            i <= k < list.len() ==> !eq_ascii_nocase(#[trigger] list[k].1, name),
    decreases list.len() - i,
{
    if i < list.len() && !eq_ascii_nocase(list[i].1, name) {
        lemma_display_scan(list, name, i + 1);
    }
}


/// No two entries share a directory name.
pub open spec fn distinct_dirs(s: Seq<(Seq<char>, Seq<char>)>) -> bool {
    forall|i: int, j: int| 0 <= i < j < s.len() ==> (#[trigger] s[i]).0 != (#[trigger] s[j]).0
}

proof fn lemma_sort_keeps_distinct(s: Seq<(Seq<char>, Seq<char>)>)
    requires
        distinct_dirs(s),
    ensures
        distinct_dirs(sort_by_dir(s)),
    decreases s.len(),
{
    broadcast use vstd::seq_lib::group_to_multiset_ensures;

    if s.len() > 0 {
        let init = s.drop_last();
        let e = s.last();
        assert(distinct_dirs(init)) by {
            assert forall|i: int, j: int| 0 <= i < j < init.len() implies (#[trigger] init[i]).0
                != (#[trigger] init[j]).0 by {
                assert(init[i] == s[i] && init[j] == s[j]);
            }
        }
        lemma_sort_keeps_distinct(init);
        lemma_sort_by_dir_sorted_permutation(init);
        let rest = sort_by_dir(init);
        lemma_insert_pos_bounds(rest, e, 0);
        let pos = insert_pos(rest, e, 0);
        let out = rest.insert(pos, e);
        assert forall|k: int| 0 <= k < rest.len() implies (#[trigger] rest[k]).0 != e.0 by {
            assert(rest.to_multiset().count(rest[k]) > 0);
            assert(init.contains(rest[k]));
            let m = choose|m: int| 0 <= m < init.len() && init[m] == rest[k];
            assert(s[m] == init[m]);
            assert(s[s.len() - 1] == e);
        }
        assert forall|i: int, j: int| 0 <= i < j < out.len() implies (#[trigger] out[i]).0
            != (#[trigger] out[j]).0 by {
            if j < pos {
                assert(out[i] == rest[i] && out[j] == rest[j]);
            } else if j == pos {
                assert(out[i] == rest[i]);
            } else if i < pos {
                assert(out[i] == rest[i] && out[j] == rest[j - 1]);
            } else if i == pos {
                assert(out[j] == rest[j - 1]);
            } else {
                assert(out[i] == rest[i - 1] && out[j] == rest[j - 1]);
            }
        }
    }
}

/// When `profile.info_cache` names each profile directory once, as every
/// document that serde_json reads does, the profiles come out in strictly
/// ascending order of directory name: each directory once.
pub proof fn lemma_profiles_strictly_ordered(state: Json)
    requires
        distinct_names(cache_entries(state)),
    ensures
        forall|i: int, j: int|
            0 <= i < j < profile_list(state).len() ==> seq_le(
                (#[trigger] profile_list(state)[i]).0,
                (#[trigger] profile_list(state)[j]).0,
            ) && profile_list(state)[i].0 != profile_list(state)[j].0,
{
    let listed = listed_profiles(state);
    let entries = cache_entries(state);
    assert forall|i: int, j: int| 0 <= i < j < listed.len() implies (#[trigger] listed[i]).0
        != (#[trigger] listed[j]).0 by {
        assert(listed[i].0 == entries[i].0@);
        assert(listed[j].0 == entries[j].0@);
    }
    lemma_sort_keeps_distinct(listed);
    lemma_sort_by_dir_sorted_permutation(listed);
}


/// A member found by name is one of the object's members.
proof fn lemma_member_is_field(fields: Seq<(String, Json)>, key: Seq<char>, i: int)
    ensures
        member_from(fields, key, i) matches Some(v) ==> exists|k: int|
            0 <= k < fields.len() && (#[trigger] fields[k]).1 == v,
    decreases fields.len() - i,
{
    if 0 <= i < fields.len() && fields[i].0@ != key {
        lemma_member_is_field(fields, key, i + 1);
    }
}

proof fn lemma_get_keeps_wf(j: Json, key: Seq<char>)
    requires
        json_wf(j),
    ensures
        json_get(j, key) matches Some(v) ==> json_wf(v),
{
    if let Json::Object(fields) = j {
        lemma_member_is_field(fields@, key, 0);
    }
}

/// In a document where every object names each member once, the profile
/// cache names each directory once.
pub proof fn lemma_wf_cache_distinct(state: Json)
    requires
        json_wf(state),
    ensures
        distinct_names(cache_entries(state)),
{
    lemma_get_keeps_wf(state, "profile"@);
    if let Some(p) = json_get(state, "profile"@) {
        lemma_get_keeps_wf(p, "info_cache"@);
    }
}

/// The profiles listed in a `Local State` text: none when it is no JSON
/// document; else (directory name, display name) for every profile, in
/// strictly ascending order of directory name.
pub fn profiles_from_text(text: &str) -> (r: Vec<Profile>)
    ensures
        r.deep_view() == match json_text(text@) {
            Some(j) => profile_list(j),
            None => Seq::empty(),
        },
        forall|i: int, j: int|
            0 <= i < j < r@.len() ==> seq_le(
                (#[trigger] r.deep_view()[i]).0,
                (#[trigger] r.deep_view()[j]).0,
            ) && r.deep_view()[i].0 != r.deep_view()[j].0,
{
    match parse_json(text) {
        Some(j) => {
            proof {
                lemma_wf_cache_distinct(j);
            }
            profiles_from_state(&j)
        },
        None => {
            let r: Vec<Profile> = Vec::new();
            assert(r.deep_view() == Seq::<(Seq<char>, Seq<char>)>::empty());
            r
        },
    }
}


proof fn lemma_display_match_at(list: Seq<(Seq<char>, Seq<char>)>, name: Seq<char>, i: int, k: int)
    requires
        0 <= i <= k < list.len(),
        eq_ascii_nocase(list[k].1, name),
        forall|j: int| i <= j < k ==> !eq_ascii_nocase(#[trigger] list[j].1, name),
    ensures
        display_match_from(list, name, i) == Some(k),
    decreases k - i,
{
    if i < k {
        lemma_display_match_at(list, name, i + 1, k);
    }
}

/// How a configured profile name resolves, in terms of the names compared
/// without ASCII case: a directory name equal to it makes it pass through
/// as written; failing that, the first profile whose display name equals it
/// gives its directory; failing both, it does not resolve.
pub proof fn lemma_resolution_ignores_ascii_case(list: Seq<(Seq<char>, Seq<char>)>, name: Seq<char>)
    ensures
        forall|i: int|
            0 <= i < list.len() && eq_ascii_nocase(#[trigger] list[i].0, name) ==> resolved_dir(
                list,
                name,
            ) == Some(name),
        (forall|i: int| 0 <= i < list.len() ==> !eq_ascii_nocase(#[trigger] list[i].0, name))
            ==> forall|k: int|
            0 <= k < list.len() && eq_ascii_nocase(#[trigger] list[k].1, name) && (forall|j: int|
                0 <= j < k ==> !eq_ascii_nocase(#[trigger] list[j].1, name)) ==> resolved_dir(
                list,
                name,
            ) == Some(list[k].0),
        (forall|i: int|
            0 <= i < list.len() ==> !eq_ascii_nocase(#[trigger] list[i].0, name)
                && !eq_ascii_nocase(list[i].1, name)) ==> resolved_dir(list, name) is None,
{
    lemma_display_scan(list, name, 0);
    lemma_display_match_in_range(list, name, 0);
    if !has_dir(list, name) {
        assert forall|k: int|
            0 <= k < list.len() && eq_ascii_nocase(#[trigger] list[k].1, name) && (forall|j: int|
                0 <= j < k ==> !eq_ascii_nocase(#[trigger] list[j].1, name)) implies resolved_dir(
            list,
            name,
        ) == Some(list[k].0) by {
            lemma_display_match_at(list, name, 0, k);
        }
    }
}

/// Every listed profile is a member of `profile.info_cache`, shown by its
/// directory name and, as display name, the member's "name" when that is a
/// string, else the directory name again, whatever other members the entry
/// has; and each member is listed.
pub proof fn lemma_listed_display_is_name_member(state: Json)
    ensures
        forall|k: int|
            0 <= k < profile_list(state).len() ==> exists|i: int|
                0 <= i < cache_entries(state).len() && #[trigger] profile_list(state)[k] == (
                    (#[trigger] cache_entries(state)[i]).0@,
                    match json_get(cache_entries(state)[i].1, "name"@) {
                        Some(Json::Str(n)) => n@,
                        _ => cache_entries(state)[i].0@,
                    },
                ),
        profile_list(state).len() == cache_entries(state).len(),
{
    broadcast use vstd::seq_lib::group_to_multiset_ensures;

    let listed = listed_profiles(state);
    let entries = cache_entries(state);
    let l = profile_list(state);
    lemma_sort_by_dir_sorted_permutation(listed);
    assert(l.len() == l.to_multiset().len());
    assert(listed.len() == listed.to_multiset().len());
    assert forall|k: int| 0 <= k < l.len() implies exists|i: int|
        0 <= i < entries.len() && #[trigger] l[k] == (
            (#[trigger] entries[i]).0@,
            match json_get(entries[i].1, "name"@) {
                Some(Json::Str(n)) => n@,
                _ => entries[i].0@,
            },
        ) by {
        assert(l.to_multiset().count(l[k]) > 0);
        assert(listed.contains(l[k]));
        let i = choose|i: int| 0 <= i < listed.len() && listed[i] == l[k];
        assert(listed[i] == (entries[i].0@, display_name(entries[i].0@, entries[i].1)));
    }
}

} // verus!
