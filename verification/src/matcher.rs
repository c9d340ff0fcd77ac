//! Extract the host and path from a URL and pick a profile from the rules.

use vstd::prelude::*;
use vstd::string::StrSliceExecFns;
use vstd::string::StringExecFns;
use crate::config::{Config, Rule};
use crate::text::{
    ends_with, is_white_space, lemma_end_without_bounds, lemma_ws_end_bounds, lemma_ws_start_bounds,
    lowercase, seq_ends_with, seq_starts_with, starts_with, str_eq, to_lowercase, trim, trim_end_char,
    trim_end_matches, trim_ws, ws_end, ws_start,
};

verus! {

/// What the logic reads of a parsed URL: its host, if it has one, and its
/// path.
pub struct ParsedUrl {
    pub host: Option<String>,
    pub path: String,
}

/// The name for what `url::Url::parse` yields, read through `Url::host_str`
/// and `Url::path`: `None` where the input is no URL, else its host (if any)
/// and its path.
pub uninterp spec fn url_parts(input: Seq<char>) -> Option<(Option<Seq<char>>, Seq<char>)>;

/// A parsed URL as plain sequences.
pub open spec fn parsed_view(p: Option<ParsedUrl>) -> Option<(Option<Seq<char>>, Seq<char>)> {
    match p {
        Some(u) => Some(
            (
                match u.host {
                    Some(h) => Some(h@),
                    None => None,
                },
                u.path@,
            ),
        ),
        None => None,
    }
}

/// Calls `url::Url::parse` and reads `host_str` and `path` from the result.
/// Nothing is stated of the parse but that it is a function of the input.
#[verifier::external_body]
fn parse_url(input: &str) -> (r: Option<ParsedUrl>)
    ensures
        parsed_view(r) == url_parts(input@),
{
    match url::Url::parse(input) {
        Ok(u) => Some(ParsedUrl { host: u.host_str().map(String::from), path: String::from(u.path()) }),
        Err(_) => None,
    }
}

/// A host as the rules see it: lowercased, trailing dots removed.
pub open spec fn normalize_host(h: Seq<char>) -> Seq<char> {
    trim_end_char(lowercase(h), '.')
}

/// The host of `input` as the rules see it; `None` for input that is no URL
/// or a URL without a host (mailto:, data:, ...).
pub open spec fn spec_host_of(input: Seq<char>) -> Option<Seq<char>> {
    match url_parts(input) {
        Some((Some(h), _)) => Some(normalize_host(h)),
        _ => None,
    }
}

/// The normalized host and the path of `input`, when it has a host.
pub open spec fn route_target(input: Seq<char>) -> Option<(Seq<char>, Seq<char>)> {
    match url_parts(input) {
        Some((Some(h), p)) => Some((normalize_host(h), p)),
        _ => None,
    }
}

/// Lowercase `h` and drop its trailing dots.
fn normalized_host(h: &str) -> (r: String)
    ensures
        r@ == normalize_host(h@),
{
    let lower = to_lowercase(h);
    String::from_str(trim_end_matches(lower.as_str(), '.'))
}

/// Lowercased host of an http(s)-style URL, trailing dots stripped.
/// `None` for schemes without a host (mailto:, etc.) or unparseable input.
pub fn host_of(input: &str) -> (r: Option<String>)
    ensures
        r.deep_view() == spec_host_of(input@),
{
    match parse_url(input) {
        Some(u) => match u.host {
            Some(h) => Some(normalized_host(h.as_str())),
            None => None,
        },
        None => None,
    }
}

/// Whether an already trimmed and lowercased domain pattern covers `host`:
/// `*.example.com` covers the apex and any subdomain, anything else only the
/// identical host.
pub open spec fn pattern_matches(p: Seq<char>, host: Seq<char>) -> bool {
    if seq_starts_with(p, seq!['*', '.']) {
        let suffix = p.skip(2);
        host == suffix || seq_ends_with(host, seq!['.'] + suffix)
    } else {
        host == p
    }
}

/// Whether the domain pattern of a rule, as written, covers `host`; both
/// are compared in lowercase, so the match ignores case.
pub open spec fn domain_matches(pattern: Seq<char>, host: Seq<char>) -> bool {
    pattern_matches(lowercase(trim_ws(pattern)), lowercase(host))
}

/// Whether the trimmed, lowercased pattern `p` covers `host`.
pub fn matches_normalized(p: &str, host: &str) -> (r: bool)
    ensures
        r == pattern_matches(p@, host@),
{
    let n = p.unicode_len();
    if n >= 2 && p.get_char(0) == '*' && p.get_char(1) == '.' {
        assert(p@.subrange(0, 2) == seq!['*', '.']);
        let suffix = p.substring_char(2, n);
        assert(suffix@ == p@.skip(2));
        if str_eq(host, suffix) {
            return true;
        }
        let hn = host.unicode_len();
        let sn = n - 2;
        let r = hn > sn && host.get_char(hn - sn - 1) == '.' && ends_with(host, suffix);
        proof {
            let dotted = seq!['.'] + suffix@;
            if r {
                assert(host@.subrange(hn - sn - 1, hn as int) == dotted);
            }
            if seq_ends_with(host@, dotted) {
                assert(host@.subrange(hn - sn - 1, hn as int)[0] == '.');
                assert(host@.subrange(hn - sn, hn as int) == host@.subrange(
                    hn - sn - 1,
                    hn as int,
                ).skip(1));
                assert(dotted.skip(1) == suffix@);
            }
        }
        r
    } else {
        proof {
            if seq_starts_with(p@, seq!['*', '.']) {
                assert(p@.subrange(0, 2)[0] == '*');
                assert(p@.subrange(0, 2)[1] == '.');
            }
        }
        str_eq(host, p)
    }
}

/// Does `pattern` match `host`? `*.example.com` matches the apex and any
/// subdomain; anything else is an exact, case-insensitive match.
pub fn matches(pattern: &str, host: &str) -> (r: bool)
    ensures
        r == domain_matches(pattern@, host@),
{
    let p = to_lowercase(trim(pattern));
    let h = to_lowercase(host);
    matches_normalized(p.as_str(), h.as_str())
}


/// Whether a rule's path pattern covers `path`: "/prefix/*" covers /prefix
/// and everything under it, "/prefix*" every path that starts with /prefix,
/// anything else only the identical path.
pub open spec fn path_pattern_matches(pat: Seq<char>, path: Seq<char>) -> bool {
    if pat.len() > 0 && pat.last() == '*' {
        let prefix = pat.drop_last();
        seq_starts_with(path, prefix) || (prefix.len() > 0 && prefix.last() == '/' && path
            == prefix.drop_last())
    } else {
        path == pat
    }
}

/// Whether the path pattern `pattern` covers `path`.
pub fn path_matches(pattern: &str, path: &str) -> (r: bool)
    ensures
        r == path_pattern_matches(pattern@, path@),
{
    let n = pattern.unicode_len();
    if n > 0 && pattern.get_char(n - 1) == '*' {
        let prefix = pattern.substring_char(0, n - 1);
        assert(prefix@ == pattern@.drop_last());
        if starts_with(path, prefix) {
            return true;
        }
        if n >= 2 && pattern.get_char(n - 2) == '/' {
            let parent = pattern.substring_char(0, n - 2);
            assert(parent@ == prefix@.drop_last());
            str_eq(path, parent)
        } else {
            false
        }
    } else {
        str_eq(path, pattern)
    }
}

/// Whether `rule` applies to a link with the given normalized host and path.
pub open spec fn rule_applies(rule: Rule, host: Seq<char>, path: Seq<char>) -> bool {
    &&& domain_matches(rule.domain@, host)
    &&& match rule.path {
        Some(p) => path_pattern_matches(p@, path),
        None => true,
    }
}

/// The index of the first rule at or after `i` that applies.
pub open spec fn first_match_from(rules: Seq<Rule>, host: Seq<char>, path: Seq<char>, i: int) -> Option<int>
    decreases rules.len() - i,
{
    if i < 0 || i >= rules.len() {
        None
    } else if rule_applies(rules[i], host, path) {
        Some(i)
    } else {
        first_match_from(rules, host, path, i + 1)
    }
}

/// The index of the rule that decides where `url` opens; `None` means the
/// fallback profile.
pub open spec fn chosen_rule(rules: Seq<Rule>, url: Seq<char>) -> Option<int> {
    match route_target(url) {
        Some((h, p)) => first_match_from(rules, h, p, 0),
        None => None,
    }
}

/// Whether `rule` applies to a link with normalized host `host` and path `path`.
pub fn rule_matches(rule: &Rule, host: &str, path: &str) -> (r: bool)
    ensures
        r == rule_applies(*rule, host@, path@),
{
    if !matches(rule.domain.as_str(), host) {
        return false;
    }
    match &rule.path {
        Some(p) => path_matches(p.as_str(), path),
        None => true,
    }
}

/// The index of the first rule that applies to a link with normalized host
/// `host` and path `path`.
pub fn first_rule(rules: &Vec<Rule>, host: &str, path: &str) -> (r: Option<usize>)
    ensures
        match r {
            Some(i) => i < rules@.len() && first_match_from(rules@, host@, path@, 0) == Some(i as int),
            None => first_match_from(rules@, host@, path@, 0) is None,
        },
{
    let n = rules.len();
    let mut i: usize = 0;
    while i < n
        invariant
            n == rules@.len(),
            i <= n,
            first_match_from(rules@, host@, path@, 0) == first_match_from(rules@, host@, path@, i as int),
        decreases n - i,
    {
        if rule_matches(&rules[i], host, path) {
            return Some(i);
        }
        i = i + 1;
    }
    None
}

/// Choose a profile for `url`. Returns the profile name and the rule that
/// matched (None means the config `default` was used).
pub fn choose_profile<'a>(cfg: &'a Config, url: &str) -> (r: (&'a str, Option<&'a Rule>))
    ensures
        match chosen_rule(cfg.rules@, url@) {
            Some(i) => 0 <= i < cfg.rules@.len() && r.0@ == cfg.rules@[i].profile@ && r.1 == Some(
                &cfg.rules@[i],
            ),
            None => r.0@ == cfg.default@ && r.1 is None,
        },
{
    if let Some(u) = parse_url(url) {
        if let Some(h) = &u.host {
            let host = normalized_host(h.as_str());
            match first_rule(&cfg.rules, host.as_str(), u.path.as_str()) {
                Some(i) => {
                    let rule = &cfg.rules[i];
                    return (rule.profile.as_str(), Some(rule));
                },
                None => {},
            }
        }
    }
    (cfg.default.as_str(), None)
}

/// A wildcard pattern `*.S` covers the apex `S` itself and every host one
/// label below it, `L.S`.
pub proof fn lemma_wildcard_covers_apex_and_subdomains(suffix: Seq<char>, label: Seq<char>)
    ensures
        pattern_matches(seq!['*', '.'] + suffix, suffix),
        pattern_matches(seq!['*', '.'] + suffix, label + seq!['.'] + suffix),
{
    let p = seq!['*', '.'] + suffix;
    assert(p.subrange(0, 2) == seq!['*', '.']);
    assert(p.skip(2) == suffix);
    let host = label + seq!['.'] + suffix;
    let dotted = seq!['.'] + suffix;
    assert(host == label + dotted);
    assert(host.subrange(host.len() - dotted.len(), host.len() as int) == dotted);
}

/// A wildcard pattern `*.S` covers no host but `S` and the hosts that end in
/// `.S`: neither `S.evil.com` nor `otherS` is covered.
pub proof fn lemma_wildcard_covers_only_suffixes(suffix: Seq<char>, host: Seq<char>)
    requires
        pattern_matches(seq!['*', '.'] + suffix, host),
    ensures
        host == suffix || seq_ends_with(host, seq!['.'] + suffix),
{
    let p = seq!['*', '.'] + suffix;
    assert(p.subrange(0, 2) == seq!['*', '.']);
    assert(p.skip(2) == suffix);
}

/// Whatever a wildcard pattern covers, it also covers every subdomain of.
pub proof fn lemma_wildcard_closed_under_subdomains(p: Seq<char>, host: Seq<char>, label: Seq<char>)
    requires
        seq_starts_with(p, seq!['*', '.']),
        pattern_matches(p, host),
    ensures
        pattern_matches(p, label + seq!['.'] + host),
{
    let suffix = p.skip(2);
    let dotted = seq!['.'] + suffix;
    let sub = label + seq!['.'] + host;
    if host == suffix {
        assert(sub == label + dotted);
        assert(sub.subrange(sub.len() - dotted.len(), sub.len() as int) == dotted);
    } else {
        let k = host.len() - dotted.len();
        assert(host.subrange(k, host.len() as int) == dotted);
        assert(sub.subrange(sub.len() - dotted.len(), sub.len() as int) == host.subrange(
            k,
            host.len() as int,
        ));
    }
}

/// A pattern without the `*.` prefix covers exactly one host: itself.
pub proof fn lemma_exact_pattern(p: Seq<char>, host: Seq<char>)
    requires
        !seq_starts_with(p, seq!['*', '.']),
    ensures
        pattern_matches(p, host) <==> host == p,
{
}

/// Removing white space does not change what a trimmed sequence is.
pub proof fn lemma_trim_idempotent(s: Seq<char>)
    ensures
        trim_ws(trim_ws(s)) == trim_ws(s),
{
    let a = ws_start(s, 0);
    lemma_ws_start_bounds(s, 0);
    let b = ws_end(s, a, s.len() as int);
    lemma_ws_end_bounds(s, a, s.len() as int);
    let t = s.subrange(a, b);
    lemma_ws_start_bounds(t, 0);
    let a2 = ws_start(t, 0);
    if a2 > 0 {
        assert(is_white_space(t[0]));
        assert(t[0] == s[a]);
    }
    assert(a2 == 0);
    lemma_ws_end_bounds(t, 0, t.len() as int);
    let b2 = ws_end(t, 0, t.len() as int);
    if b2 < t.len() {
        assert(is_white_space(t[t.len() - 1]));
        assert(t[t.len() - 1] == s[b - 1]);
    }
    assert(b2 == t.len());
    assert(t.subrange(0, t.len() as int) == t);
}

/// White space around a rule's domain pattern does not change what it
/// matches.
pub proof fn lemma_pattern_space_ignored(pattern: Seq<char>, host: Seq<char>)
    ensures
        domain_matches(trim_ws(pattern), host) == domain_matches(pattern, host),
{
    lemma_trim_idempotent(pattern);
}

/// The host of a URL as the rules see it never ends with a dot.
pub proof fn lemma_host_has_no_trailing_dot(input: Seq<char>)
    ensures
        spec_host_of(input) matches Some(h) ==> h.len() == 0 || h.last() != '.',
{
    if let Some((Some(h), _)) = url_parts(input) {
        let l = lowercase(h);
        lemma_end_without_bounds(l, '.', 0, l.len() as int);
    }
}

/// A path pattern `P/*` covers `P` itself and every path under `P/`.
pub proof fn lemma_directory_pattern(prefix: Seq<char>, rest: Seq<char>)
    ensures
        path_pattern_matches(prefix + seq!['/', '*'], prefix),
        path_pattern_matches(prefix + seq!['/', '*'], prefix + seq!['/'] + rest),
{
    let pat = prefix + seq!['/', '*'];
    assert(pat.drop_last() == prefix + seq!['/']);
    assert(pat.drop_last().drop_last() == prefix);
    let path = prefix + seq!['/'] + rest;
    assert(path.subrange(0, prefix.len() + 1 as int) == prefix + seq!['/']);
}

/// A rule without a path pattern applies to every path of a host it covers.
pub proof fn lemma_rule_without_path(rule: Rule, host: Seq<char>, p1: Seq<char>, p2: Seq<char>)
    requires
        rule.path is None,
    ensures
        rule_applies(rule, host, p1) == rule_applies(rule, host, p2),
{
}

/// Rules are tried top to bottom and the first that applies wins; the
/// fallback profile is used only when no rule applies or the link has no
/// host.
pub proof fn lemma_first_applicable_rule_wins(rules: Seq<Rule>, url: Seq<char>)
    ensures
        match chosen_rule(rules, url) {
            Some(i) => {
                &&& 0 <= i < rules.len()
                &&& route_target(url) matches Some((h, p)) && rule_applies(rules[i], h, p) && (
                forall|j: int| 0 <= j < i ==> !rule_applies(#[trigger] rules[j], h, p))
            },
            None => route_target(url) matches Some((h, p)) ==> forall|j: int|
                0 <= j < rules.len() ==> !rule_applies(#[trigger] rules[j], h, p),
        },
{
    if let Some((h, p)) = route_target(url) {
        lemma_first_match_scan(rules, h, p, 0);
    }
}

proof fn lemma_first_match_scan(rules: Seq<Rule>, host: Seq<char>, path: Seq<char>, i: int)
    requires
        0 <= i,
    ensures
        match first_match_from(rules, host, path, i) {
            Some(k) => i <= k < rules.len() && rule_applies(rules[k], host, path) && forall|j: int|
                i <= j < k ==> !rule_applies(#[trigger] rules[j], host, path),
            None => forall|j: int| i <= j < rules.len() ==> !rule_applies(#[trigger] rules[j], host, path),
        },
    decreases rules.len() - i,
{
    if i < rules.len() && !rule_applies(rules[i], host, path) {
        lemma_first_match_scan(rules, host, path, i + 1);
    }
}


pub proof fn lemma_first_match_at(rules: Seq<Rule>, host: Seq<char>, path: Seq<char>, i: int, k: int)
    requires
        0 <= i <= k < rules.len(),
        rule_applies(rules[k], host, path),
        forall|j: int| i <= j < k ==> !rule_applies(#[trigger] rules[j], host, path),
    ensures
        first_match_from(rules, host, path, i) == Some(k),
    decreases k - i,
{
    if i < k {
        lemma_first_match_at(rules, host, path, i + 1, k);
    }
}

pub proof fn lemma_first_match_none(rules: Seq<Rule>, host: Seq<char>, path: Seq<char>, i: int)
    requires
        0 <= i,
        forall|j: int| i <= j < rules.len() ==> !rule_applies(#[trigger] rules[j], host, path),
    ensures
        first_match_from(rules, host, path, i) is None,
    decreases rules.len() - i,
{
    if i < rules.len() {
        lemma_first_match_none(rules, host, path, i + 1);
    }
}

/// Rules appended after the one that routes a link do not change where it
/// opens.
pub proof fn lemma_appending_rules_keeps_choice(rules: Seq<Rule>, more: Seq<Rule>, url: Seq<char>)
    requires
        chosen_rule(rules, url) is Some,
    ensures
        chosen_rule(rules + more, url) == chosen_rule(rules, url),
{
    lemma_first_applicable_rule_wins(rules, url);
    if let Some((h, p)) = route_target(url) {
        let k = chosen_rule(rules, url)->0;
        let all = rules + more;
        assert forall|j: int| 0 <= j < k implies !rule_applies(#[trigger] all[j], h, p) by {
            assert(all[j] == rules[j]);
        }
        assert(all[k] == rules[k]);
        lemma_first_match_at(all, h, p, 0, k);
    }
}

/// Rules put in front that do not apply to a link leave it routed by the
/// same rule as before (now further down the list), or by the fallback as
/// before.
pub proof fn lemma_nonmatching_rules_before_keep_choice(
    before: Seq<Rule>,
    rules: Seq<Rule>,
    url: Seq<char>,
)
    requires
        route_target(url) matches Some((h, p)) ==> forall|j: int|
            0 <= j < before.len() ==> !rule_applies(#[trigger] before[j], h, p),
    ensures
        chosen_rule(before + rules, url) == match chosen_rule(rules, url) {
            Some(i) => Some(i + before.len()),
            None => None,
        },
        chosen_rule(before + rules, url) matches Some(k) ==> (before + rules)[k] == rules[k
            - before.len()],
{
    lemma_first_applicable_rule_wins(rules, url);
    if let Some((h, p)) = route_target(url) {
        let all = before + rules;
        let b = before.len() as int;
        match chosen_rule(rules, url) {
            Some(i) => {
                assert forall|j: int| 0 <= j < i + b implies !rule_applies(#[trigger] all[j], h, p) by {
                    if j < b {
                        assert(all[j] == before[j]);
                    } else {
                        assert(all[j] == rules[j - b]);
                    }
                }
                assert(all[i + b] == rules[i]);
                lemma_first_match_at(all, h, p, 0, i + b);
            },
            None => {
                assert forall|j: int| 0 <= j < all.len() implies !rule_applies(#[trigger] all[j], h, p) by {
                    if j < b {
                        assert(all[j] == before[j]);
                    } else {
                        assert(all[j] == rules[j - b]);
                    }
                }
                lemma_first_match_none(all, h, p, 0);
            },
        }
    }
}

} // verus!
