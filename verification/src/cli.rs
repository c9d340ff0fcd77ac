//! The command line: which command the arguments ask for, what routing a
//! link decides, and the lines each command reports.

use vstd::prelude::*;
use vstd::string::StrSliceExecFns;
use vstd::string::StringExecFns;
use crate::chrome::{lemma_resolution_ignores_ascii_case, resolve_profile_dir, resolved_dir, Profile};
use crate::config::Config;
use crate::matcher::{
    choose_profile, chosen_rule, host_of, lemma_first_applicable_rule_wins, lemma_first_match_at,
    lemma_first_match_none, route_target, rule_applies, spec_host_of,
};
use crate::text::{eq_ascii_nocase, push_char, seq_starts_with, starts_with, str_eq};

verus! {

/// What the program was asked to do.
pub enum Command {
    /// Route a URL: the first argument, when it does not start with `--`.
    Route(String),
    Register,
    Unregister,
    ListProfiles,
    /// Show which profile a URL would use; the URL is the second argument.
    DryRun(Option<String>),
    ShowConfig,
    Help,
}

/// A command with its arguments as plain sequences.
pub enum CommandView {
    Route(Seq<char>),
    Register,
    Unregister,
    ListProfiles,
    DryRun(Option<Seq<char>>),
    ShowConfig,
    Help,
}

impl View for Command {
    type V = CommandView;

    open spec fn view(&self) -> CommandView {
        match self {
            Command::Route(u) => CommandView::Route(u@),
            Command::Register => CommandView::Register,
            Command::Unregister => CommandView::Unregister,
            Command::ListProfiles => CommandView::ListProfiles,
            Command::DryRun(u) => CommandView::DryRun(
                match u {
                    Some(s) => Some(s@),
                    None => None,
                },
            ),
            Command::ShowConfig => CommandView::ShowConfig,
            Command::Help => CommandView::Help,
        }
    }
}

/// The command that the arguments (program name excluded) ask for.
pub open spec fn command_for(args: Seq<Seq<char>>) -> CommandView {
    if args.len() == 0 {
        CommandView::Help
    } else {
        let first = args[0];
        if first.len() > 0 && !seq_starts_with(first, "--"@) {
            CommandView::Route(first)
        } else if first == "--register"@ {
            CommandView::Register
        } else if first == "--unregister"@ {
            CommandView::Unregister
        } else if first == "--list-profiles"@ {
            CommandView::ListProfiles
        } else if first == "--dry-run"@ {
            CommandView::DryRun(
                if args.len() > 1 {
                    Some(args[1])
                } else {
                    None
                },
            )
        } else if first == "--config"@ {
            CommandView::ShowConfig
        } else {
            CommandView::Help
        }
    }
}

/// Decide the command from the arguments (program name excluded). A first
/// argument that is not empty and does not start with `--` is a URL to route.
pub fn parse_command(args: &Vec<String>) -> (r: Command)
    ensures
        r@ == command_for(args.deep_view()),
{
    if args.len() == 0 {
        return Command::Help;
    }
    let first = args[0].as_str();
    if !first.is_empty() && !starts_with(first, "--") {
        Command::Route(String::from_str(first))
    } else if str_eq(first, "--register") {
        Command::Register
    } else if str_eq(first, "--unregister") {
        Command::Unregister
    } else if str_eq(first, "--list-profiles") {
        Command::ListProfiles
    } else if str_eq(first, "--dry-run") {
        if args.len() > 1 {
            Command::DryRun(Some(args[1].clone()))
        } else {
            Command::DryRun(None)
        }
    } else if str_eq(first, "--config") {
        Command::ShowConfig
    } else {
        Command::Help
    }
}


/// What routing a link decided: the profile, the domain of the rule that
/// chose it (`None` for the fallback), and the directory handed to Chrome.
pub struct RoutePlan {
    pub profile: String,
    pub rule_domain: Option<String>,
    pub dir: String,
}

/// The profile that `url` opens in.
pub open spec fn planned_profile(cfg: Config, url: Seq<char>) -> Seq<char> {
    match chosen_rule(cfg.rules@, url) {
        Some(i) => cfg.rules@[i].profile@,
        None => cfg.default@,
    }
}

/// The domain of the rule that routes `url`, if one does.
pub open spec fn planned_rule_domain(cfg: Config, url: Seq<char>) -> Option<Seq<char>> {
    match chosen_rule(cfg.rules@, url) {
        Some(i) => Some(cfg.rules@[i].domain@),
        None => None,
    }
}

/// The `--profile-directory` value for `url`: the resolved directory of its
/// profile, or the profile name itself when it resolves to none.
pub open spec fn planned_dir(cfg: Config, url: Seq<char>, list: Seq<(Seq<char>, Seq<char>)>) -> Seq<char> {
    match resolved_dir(list, planned_profile(cfg, url)) {
        Some(d) => d,
        None => planned_profile(cfg, url),
    }
}

/// Decide where `url` opens: pick the profile from the rules, then the
/// directory Chrome knows it by among `profiles` (the name passes through
/// unchanged when it matches none).
pub fn plan_route(cfg: &Config, url: &str, profiles: &Vec<Profile>) -> (r: RoutePlan)
    ensures
        r.profile@ == planned_profile(*cfg, url@),
        r.rule_domain.deep_view() == planned_rule_domain(*cfg, url@),
        r.dir@ == planned_dir(*cfg, url@, profiles.deep_view()),
{
    let (profile, rule) = choose_profile(cfg, url);
    let rule_domain = match rule {
        Some(rl) => Some(rl.domain.clone()),
        None => None,
    };
    let dir = match resolve_profile_dir(profiles, profile) {
        Some(d) => d,
        None => String::from_str(profile),
    };
    RoutePlan { profile: String::from_str(profile), rule_domain, dir }
}

/// The log line for a routed link: URL, deciding rule (`<default>` for the
/// fallback), profile, directory, chrome.exe, and whether the launch worked.
pub open spec fn route_line(
    url: Seq<char>,
    rule_domain: Option<Seq<char>>,
    profile: Seq<char>,
    dir: Seq<char>,
    chrome: Seq<char>,
    spawned: bool,
) -> Seq<char> {
    "url="@ + url + " rule="@ + (match rule_domain {
        Some(d) => d,
        None => "<default>"@,
    }) + " profile="@ + profile + " dir="@ + dir + " chrome=\""@ + chrome + "\" spawn="@ + (if spawned {
        "ok"@
    } else {
        "FAILED"@
    })
}

/// The log line for a routed link.
pub fn route_log_line(url: &str, plan: &RoutePlan, chrome: &str, spawned: bool) -> (r: String)
    ensures
        r@ == route_line(url@, plan.rule_domain.deep_view(), plan.profile@, plan.dir@, chrome@, spawned),
{
    let mut s = String::from_str("url=");
    s.append(url);
    s.append(" rule=");
    match &plan.rule_domain {
        Some(d) => s.append(d.as_str()),
        None => s.append("<default>"),
    }
    s.append(" profile=");
    s.append(plan.profile.as_str());
    s.append(" dir=");
    s.append(plan.dir.as_str());
    s.append(" chrome=\"");
    s.append(chrome);
    s.append("\" spawn=");
    if spawned {
        s.append("ok");
    } else {
        s.append("FAILED");
    }
    s
}

/// The log line for a routed link when chrome.exe cannot be found: URL,
/// deciding rule (`<default>` for the fallback), profile, directory, and
/// that Chrome was not launched.
pub open spec fn chrome_missing_text(
    url: Seq<char>,
    rule_domain: Option<Seq<char>>,
    profile: Seq<char>,
    dir: Seq<char>,
) -> Seq<char> {
    "url="@ + url + " rule="@ + (match rule_domain {
        Some(d) => d,
        None => "<default>"@,
    }) + " profile="@ + profile + " dir="@ + dir + " ERROR: chrome.exe not found"@
}

/// The log line for a routed link when chrome.exe cannot be found.
pub fn chrome_missing_line(url: &str, plan: &RoutePlan) -> (r: String)
    ensures
        r@ == chrome_missing_text(url@, plan.rule_domain.deep_view(), plan.profile@, plan.dir@),
{
    let mut s = String::from_str("url=");
    s.append(url);
    s.append(" rule=");
    match &plan.rule_domain {
        Some(d) => s.append(d.as_str()),
        None => s.append("<default>"),
    }
    s.append(" profile=");
    s.append(plan.profile.as_str());
    s.append(" dir=");
    s.append(plan.dir.as_str());
    s.append(" ERROR: chrome.exe not found");
    s
}

/// The log line when launching Chrome failed with `err`.
pub fn spawn_error_line(err: &str) -> (r: String)
    ensures
        r@ == "spawn error: "@ + err@,
{
    let mut s = String::from_str("spawn error: ");
    s.append(err);
    s
}


/// The report of `--dry-run` for `url`: the URL, its host, the deciding rule,
/// the profile and the directory, one line each.
pub open spec fn dry_run_lines(cfg: Config, url: Seq<char>, list: Seq<(Seq<char>, Seq<char>)>) -> Seq<Seq<char>> {
    let profile = planned_profile(cfg, url);
    seq![
        "URL      : "@ + url,
        "Host     : "@ + match spec_host_of(url) {
            Some(h) => h,
            None => "<none>"@,
        },
        "Matched  : "@ + match planned_rule_domain(cfg, url) {
            Some(d) => d,
            None => "<no rule - using default>"@,
        },
        "Profile  : "@ + profile,
        "Directory: "@ + match resolved_dir(list, profile) {
            Some(d) => d,
            None => profile + " (unresolved - will pass through to Chrome)"@,
        },
    ]
}

/// The lines `--dry-run` prints for `url`, given the rules and Chrome's
/// profiles; nothing is launched.
pub fn dry_run_report(cfg: &Config, profiles: &Vec<Profile>, url: &str) -> (r: Vec<String>)
    ensures
        r.deep_view() == dry_run_lines(*cfg, url@, profiles.deep_view()),
{
    let (profile, rule) = choose_profile(cfg, url);
    let mut lines: Vec<String> = Vec::new();
    let mut l1 = String::from_str("URL      : ");
    l1.append(url);
    let ghost v1 = l1@;
    lines.push(l1);
    let mut l2 = String::from_str("Host     : ");
    match host_of(url) {
        Some(h) => l2.append(h.as_str()),
        None => l2.append("<none>"),
    }
    let ghost v2 = l2@;
    lines.push(l2);
    let mut l3 = String::from_str("Matched  : ");
    match rule {
        Some(rl) => l3.append(rl.domain.as_str()),
        None => l3.append("<no rule - using default>"),
    }
    let ghost v3 = l3@;
    lines.push(l3);
    let mut l4 = String::from_str("Profile  : ");
    l4.append(profile);
    let ghost v4 = l4@;
    lines.push(l4);
    let mut l5 = String::from_str("Directory: ");
    match resolve_profile_dir(profiles, profile) {
        Some(d) => l5.append(d.as_str()),
        None => {
            l5.append(profile);
            l5.append(" (unresolved - will pass through to Chrome)");
        },
    }
    let ghost v5 = l5@;
    lines.push(l5);
    let ghost expect = dry_run_lines(*cfg, url@, profiles.deep_view());
    assert(v1 == expect[0]);
    assert(v2 == expect[1]);
    assert(v3 == expect[2]);
    assert(v4 == expect[3]);
    assert(v5 == expect[4]);
    assert(lines.deep_view() == seq![v1, v2, v3, v4, v5]);
    lines
}

/// `s` followed by spaces up to `width` characters, as `{:<width}` writes it.
pub open spec fn pad_right(s: Seq<char>, width: nat) -> Seq<char> {
    if s.len() < width {
        s + Seq::new((width - s.len()) as nat, |i: int| ' ')
    } else {
        s
    }
}

fn push_padded_right(out: &mut String, s: &str, width: usize)
    ensures
        final(out)@ == old(out)@ + pad_right(s@, width as nat),
{
    out.append(s);
    let ghost start = out@;
    let mut k: usize = s.unicode_len();
    while k < width
        invariant
            s@.len() <= k,
            k <= width || s@.len() > width,
            s@.len() >= width ==> k == s@.len(),
            out@ == start + Seq::new((k - s@.len()) as nat, |i: int| ' '),
        decreases width - k,
    {
        push_char(out, ' ');
        assert(start + Seq::new((k + 1 - s@.len()) as nat, |i: int| ' ') == start + Seq::new(
            (k - s@.len()) as nat,
            |i: int| ' ',
        ).push(' '));
        k = k + 1;
    }
    proof {
        if s@.len() < width {
            assert(out@ == old(out)@ + (s@ + Seq::new((width - s@.len()) as nat, |i: int| ' ')));
        } else {
            assert(Seq::new((k - s@.len()) as nat, |i: int| ' ') == Seq::<char>::empty());
        }
    }
}

/// One row of the profile listing: two spaces, the first column padded to 14
/// characters, a space, the second column.
pub open spec fn listing_row(dir: Seq<char>, name: Seq<char>) -> Seq<char> {
    "  "@ + pad_right(dir, 14) + " "@ + name
}

pub(crate) fn listing_row_text(dir: &str, name: &str) -> (r: String)
    ensures
        r@ == listing_row(dir@, name@),
{
    let mut s = String::from_str("  ");
    push_padded_right(&mut s, dir, 14);
    s.append(" ");
    s.append(name);
    s
}

/// What `--list-profiles` prints for the given profiles.
pub open spec fn listing_lines(list: Seq<(Seq<char>, Seq<char>)>) -> Seq<Seq<char>> {
    if list.len() == 0 {
        seq!["No Chrome profiles found (is Chrome installed for this user?)."@]
    } else {
        seq![
            "Chrome profiles (use either column as a rule's `profile` value):"@,
            listing_row("DIRECTORY"@, "DISPLAY NAME"@),
        ] + list.map_values(|p: (Seq<char>, Seq<char>)| listing_row(p.0, p.1))
    }
}

/// The lines that list Chrome's profiles, one row per profile under a header.
pub fn profile_listing(profiles: &Vec<Profile>) -> (r: Vec<String>)
    ensures
        r.deep_view() == listing_lines(profiles.deep_view()),
{
    let mut lines: Vec<String> = Vec::new();
    if profiles.len() == 0 {
        lines.push(String::from_str("No Chrome profiles found (is Chrome installed for this user?)."));
        assert(lines.deep_view() == listing_lines(profiles.deep_view()));
        return lines;
    }
    lines.push(String::from_str("Chrome profiles (use either column as a rule's `profile` value):"));
    lines.push(listing_row_text("DIRECTORY", "DISPLAY NAME"));
    let ghost head = lines.deep_view();
    let ghost rows = profiles.deep_view().map_values(
        |p: (Seq<char>, Seq<char>)| listing_row(p.0, p.1),
    );
    let n = profiles.len();
    let mut i: usize = 0;
    while i < n
        invariant
            n == profiles@.len(),
            rows == profiles.deep_view().map_values(
                |p: (Seq<char>, Seq<char>)| listing_row(p.0, p.1),
            ),
            i <= n,
            lines.deep_view() == head + rows.take(i as int),
        decreases n - i,
    {
        let row = listing_row_text(profiles[i].0.as_str(), profiles[i].1.as_str());
        let ghost before = lines.deep_view();
        lines.push(row);
        assert(lines.deep_view() == before.push(row@));
        assert(rows.take(i + 1) == rows.take(i as int).push(rows[i as int]));
        i = i + 1;
    }
    assert(rows.take(n as int) == rows);
    lines
}


/// The usage text of the program, one line each.
pub open spec fn help_text() -> Seq<Seq<char>> {
    seq![
        "Profile Router - open clicked links in the matching Chrome profile."@,
        ""@,
        "Usage:"@,
        "  profile-router <url>            Route a URL (used by Windows on link click)"@,
        "  profile-router --register       Register as a browser, then open Default Apps"@,
        "  profile-router --unregister     Remove the browser registration"@,
        "  profile-router --list-profiles  Show Chrome profiles (for writing rules)"@,
        "  profile-router --dry-run <url>  Show which profile a URL would use"@,
        "  profile-router --config         Show and reveal the config file"@,
    ]
}

/// The lines of the usage text.
pub fn help_lines() -> (r: Vec<String>)
    ensures
        r.deep_view() == help_text(),
{
    let mut v: Vec<String> = Vec::new();
    v.push(String::from_str("Profile Router - open clicked links in the matching Chrome profile."));
    v.push(String::from_str(""));
    v.push(String::from_str("Usage:"));
    v.push(
        String::from_str(
            "  profile-router <url>            Route a URL (used by Windows on link click)",
        ),
    );
    v.push(
        String::from_str(
            "  profile-router --register       Register as a browser, then open Default Apps",
        ),
    );
    v.push(String::from_str("  profile-router --unregister     Remove the browser registration"));
    v.push(
        String::from_str("  profile-router --list-profiles  Show Chrome profiles (for writing rules)"),
    );
    v.push(String::from_str("  profile-router --dry-run <url>  Show which profile a URL would use"));
    v.push(String::from_str("  profile-router --config         Show and reveal the config file"));
    assert(v.deep_view() == help_text());
    v
}

/// The line `--dry-run` prints when no URL follows it.
pub fn dry_run_usage() -> (r: String)
    ensures
        r@ == "Usage: profile-router --dry-run \"https://example.com/...\""@,
{
    String::from_str("Usage: profile-router --dry-run \"https://example.com/...\"")
}

/// What `--register` reports: the next step on success, the error otherwise.
pub open spec fn register_lines(exe: Seq<char>, outcome: Result<(), Seq<char>>) -> Seq<Seq<char>> {
    match outcome {
        Ok(()) => seq![
            "Registered \"Profile Router\" ("@ + exe + ") as an available browser."@,
            ""@,
            "Next step (required, one time):"@,
            "  Settings > Apps > Default apps > set Profile Router as default for HTTP and HTTPS."@,
            "Opening Default Apps settings now..."@,
        ],
        Err(e) => seq!["Registration failed: "@ + e],
    }
}

/// The lines `--register` prints for the executable `exe`, given whether
/// writing the registry succeeded (or the error it failed with).
pub fn register_report(exe: &str, outcome: &Result<(), String>) -> (r: Vec<String>)
    ensures
        r.deep_view() == register_lines(
            exe@,
            match outcome {
                Ok(()) => Ok(()),
                Err(e) => Err(e@),
            },
        ),
{
    let mut v: Vec<String> = Vec::new();
    match outcome {
        Ok(()) => {
            let mut first = String::from_str("Registered \"Profile Router\" (");
            first.append(exe);
            first.append(") as an available browser.");
            let ghost v1 = first@;
            v.push(first);
            v.push(String::from_str(""));
            v.push(String::from_str("Next step (required, one time):"));
            v.push(
                String::from_str(
                    "  Settings > Apps > Default apps > set Profile Router as default for HTTP and HTTPS.",
                ),
            );
            v.push(String::from_str("Opening Default Apps settings now..."));
            assert(v.deep_view() == register_lines(exe@, Ok(())));
        },
        Err(e) => {
            let mut line = String::from_str("Registration failed: ");
            line.append(e.as_str());
            v.push(line);
            assert(v.deep_view() == register_lines(exe@, Err(e@)));
        },
    }
    v
}

/// The line `--unregister` prints, given whether removing the registration
/// succeeded (or the error it failed with).
pub fn unregister_report(outcome: &Result<(), String>) -> (r: String)
    ensures
        match outcome {
            Ok(()) => r@ == "Unregistered Profile Router. Set another browser as default in Settings."@,
            Err(e) => r@ == "Unregister failed: "@ + e@,
        },
{
    match outcome {
        Ok(()) => String::from_str(
            "Unregistered Profile Router. Set another browser as default in Settings.",
        ),
        Err(e) => {
            let mut line = String::from_str("Unregister failed: ");
            line.append(e.as_str());
            line
        },
    }
}

/// The line `--config` prints for the rules file at `path`.
pub fn config_report(path: &str) -> (r: String)
    ensures
        r@ == "Config file: "@ + path@,
{
    let mut line = String::from_str("Config file: ");
    line.append(path);
    line
}

/// The argument that makes Explorer open a window with `path` selected.
pub fn reveal_argument(path: &str) -> (r: String)
    ensures
        r@ == "/select,"@ + path@,
{
    let mut arg = String::from_str("/select,");
    arg.append(path);
    arg
}


/// A link always opens somewhere: in the profile of a rule, or in the
/// fallback profile; a link without a host (mailto:, or no URL at all)
/// always opens in the fallback profile.
pub proof fn lemma_link_always_has_profile(cfg: Config, url: Seq<char>)
    ensures
        planned_profile(cfg, url) == cfg.default@ || exists|i: int|
            0 <= i < cfg.rules@.len() && planned_profile(cfg, url) == (#[trigger] cfg.rules@[i]).profile@,
        route_target(url) is None ==> planned_profile(cfg, url) == cfg.default@,
{
    lemma_first_applicable_rule_wins(cfg.rules@, url);
    if let Some(i) = chosen_rule(cfg.rules@, url) {
        assert(planned_profile(cfg, url) == cfg.rules@[i].profile@);
    }
}


/// `--dry-run` reports what routing the same URL does: the URL's host, the
/// rule and profile that routing uses (the first rule that applies to the
/// URL's host and path, or the fallback when none applies or the URL has no
/// host), and the directory the route hands to Chrome when the profile
/// resolves.
pub proof fn lemma_dry_run_agrees_with_routing(cfg: Config, url: Seq<char>, list: Seq<(Seq<char>, Seq<char>)>)
    ensures
        dry_run_lines(cfg, url, list).len() == 5,
        dry_run_lines(cfg, url, list)[0] == "URL      : "@ + url,
        dry_run_lines(cfg, url, list)[3] == "Profile  : "@ + planned_profile(cfg, url),
        spec_host_of(url) matches Some(h) ==> dry_run_lines(cfg, url, list)[1] == "Host     : "@ + h,
        resolved_dir(list, planned_profile(cfg, url)) is Some ==> dry_run_lines(cfg, url, list)[4]
            == "Directory: "@ + planned_dir(cfg, url, list),
        route_target(url) matches Some((h, p)) ==> forall|i: int|
            0 <= i < cfg.rules@.len() && rule_applies(#[trigger] cfg.rules@[i], h, p) && (forall|j: int|
                0 <= j < i ==> !rule_applies(#[trigger] cfg.rules@[j], h, p)) ==> dry_run_lines(
                cfg,
                url,
                list,
            )[2] == "Matched  : "@ + cfg.rules@[i].domain@ && dry_run_lines(cfg, url, list)[3]
                == "Profile  : "@ + cfg.rules@[i].profile@,
        (route_target(url) is None || (route_target(url) matches Some((h, p)) && forall|j: int|
            0 <= j < cfg.rules@.len() ==> !rule_applies(#[trigger] cfg.rules@[j], h, p)))
            ==> dry_run_lines(cfg, url, list)[2] == "Matched  : "@ + "<no rule - using default>"@
            && dry_run_lines(cfg, url, list)[3] == "Profile  : "@ + cfg.default@,
{
    lemma_first_applicable_rule_wins(cfg.rules@, url);
    if let Some((h, p)) = route_target(url) {
        assert forall|i: int|
            0 <= i < cfg.rules@.len() && rule_applies(#[trigger] cfg.rules@[i], h, p) && (forall|j: int|
                0 <= j < i ==> !rule_applies(#[trigger] cfg.rules@[j], h, p)) implies dry_run_lines(
            cfg,
            url,
            list,
        )[2] == "Matched  : "@ + cfg.rules@[i].domain@ && dry_run_lines(cfg, url, list)[3]
            == "Profile  : "@ + cfg.rules@[i].profile@ by {
            lemma_first_match_at(cfg.rules@, h, p, 0, i);
        }
        if let Some(i) = chosen_rule(cfg.rules@, url) {
            assert(rule_applies(cfg.rules@[i], h, p));
        }
    }

}

/// The directory a route hands to Chrome, in terms of the names compared
/// without ASCII case: the chosen profile name itself when some directory
/// name equals it; else the directory of the first profile whose display
/// name equals it; else the name itself, passed through.
pub proof fn lemma_route_dir_resolution(cfg: Config, url: Seq<char>, list: Seq<(Seq<char>, Seq<char>)>)
    ensures
        ({
            let prof = planned_profile(cfg, url);
            &&& (exists|i: int| 0 <= i < list.len() && eq_ascii_nocase(#[trigger] list[i].0, prof))
                ==> planned_dir(cfg, url, list) == prof
            &&& (forall|i: int| 0 <= i < list.len() ==> !eq_ascii_nocase(#[trigger] list[i].0, prof))
                ==> forall|k: int|
                0 <= k < list.len() && eq_ascii_nocase(#[trigger] list[k].1, prof) && (forall|j: int|
                    0 <= j < k ==> !eq_ascii_nocase(#[trigger] list[j].1, prof)) ==> planned_dir(
                    cfg,
                    url,
                    list,
                ) == list[k].0
            &&& (forall|i: int|
                0 <= i < list.len() ==> !eq_ascii_nocase(#[trigger] list[i].0, prof)
                    && !eq_ascii_nocase(list[i].1, prof)) ==> planned_dir(cfg, url, list) == prof
        }),
{
    lemma_resolution_ignores_ascii_case(list, planned_profile(cfg, url));
}

} // verus!
