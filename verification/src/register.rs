//! What registering Profile Router as a choosable Windows browser writes
//! under HKEY_CURRENT_USER, and what unregistering removes.

use vstd::prelude::*;
use vstd::string::StringExecFns;
use crate::text::seq_starts_with;

verus! {

/// Identifier of the browser client and of its registered application.
pub const APP_ID: &'static str = "ProfileRouter";

/// The ProgId that runs the router with the clicked URL.
pub const PROGID: &'static str = "ProfileRouterURL";

/// The name shown in Settings.
pub const APP_NAME: &'static str = "Profile Router";

/// The description shown in Settings.
pub const APP_DESC: &'static str = "Routes links to the matching Chrome profile by domain";

/// One registry value to write under HKEY_CURRENT_USER: the key's path, the
/// value's name (empty for the key's default value) and its data.
pub struct RegEntry {
    pub key: String,
    pub name: String,
    pub value: String,
}

impl View for RegEntry {
    type V = (Seq<char>, Seq<char>, Seq<char>);

    open spec fn view(&self) -> (Seq<char>, Seq<char>, Seq<char>) {
        (self.key@, self.name@, self.value@)
    }
}

/// What unregistering removes under HKEY_CURRENT_USER: whole key trees, and
/// one named value of one key.
pub struct Removal {
    pub trees: Vec<String>,
    pub value_key: String,
    pub value_name: String,
}

/// `parent\child`.
pub open spec fn subkey(parent: Seq<char>, child: Seq<char>) -> Seq<char> {
    parent + "\\"@ + child
}

/// The browser client's key.
pub open spec fn client_key() -> Seq<char> {
    subkey("Software\\Clients\\StartMenuInternet"@, APP_ID@)
}

/// The client's Capabilities key.
pub open spec fn caps_key() -> Seq<char> {
    subkey(client_key(), "Capabilities"@)
}

/// The ProgId's key.
pub open spec fn progid_key() -> Seq<char> {
    subkey("Software\\Classes"@, PROGID@)
}

/// The key that lists registered applications.
pub open spec fn registered_apps_key() -> Seq<char> {
    "Software\\RegisteredApplications"@
}

/// Every value that registering writes, in order, for the executable `exe`.
pub open spec fn registry_entries(exe: Seq<char>) -> Seq<(Seq<char>, Seq<char>, Seq<char>)> {
    let icon = exe + ",0"@;
    let open_cmd = "\""@ + exe + "\" \"%1\""@;
    let client = client_key();
    let caps = caps_key();
    let progid = progid_key();
    seq![
        (client, ""@, APP_NAME@),
        (subkey(client, "DefaultIcon"@), ""@, icon),
        (subkey(client, "shell\\open\\command"@), ""@, "\""@ + exe + "\""@),
        (caps, "ApplicationName"@, APP_NAME@),
        (caps, "ApplicationDescription"@, APP_DESC@),
        (caps, "ApplicationIcon"@, icon),
        (subkey(caps, "StartMenu"@), "StartMenuInternet"@, APP_ID@),
        (subkey(caps, "URLAssociations"@), "http"@, PROGID@),
        (subkey(caps, "URLAssociations"@), "https"@, PROGID@),
        (progid, ""@, "Profile Router URL"@),
        (subkey(progid, "DefaultIcon"@), ""@, icon),
        (subkey(progid, "shell\\open\\command"@), ""@, open_cmd),
        (registered_apps_key(), APP_ID@, caps),
    ]
}

/// `a` followed by `b`.
fn concat2(a: &str, b: &str) -> (r: String)
    ensures
        r@ == a@ + b@,
{
    let mut s = String::from_str(a);
    s.append(b);
    s
}

/// `a`, `b` and `c` in a row.
fn concat3(a: &str, b: &str, c: &str) -> (r: String)
    ensures
        r@ == a@ + b@ + c@,
{
    let mut s = String::from_str(a);
    s.append(b);
    s.append(c);
    s
}

/// The path of `child` under `parent`.
fn child_key(parent: &str, child: &str) -> (r: String)
    ensures
        r@ == subkey(parent@, child@),
{
    concat3(parent, "\\", child)
}

fn entry(key: &str, name: &str, value: &str) -> (r: RegEntry)
    ensures
        r@ == (key@, name@, value@),
{
    RegEntry { key: String::from_str(key), name: String::from_str(name), value: String::from_str(value) }
}

/// Every registry value needed to appear in Settings > Default Apps as a
/// browser, for the router executable at `exe`, in the order they are
/// written.
pub fn registration_entries(exe: &str) -> (r: Vec<RegEntry>)
    ensures
        r@.map_values(|e: RegEntry| e@) == registry_entries(exe@),
{
    let icon = concat2(exe, ",0");
    let open_cmd = concat3("\"", exe, "\" \"%1\"");
    let quoted = concat3("\"", exe, "\"");
    let client = child_key("Software\\Clients\\StartMenuInternet", APP_ID);
    let caps = child_key(client.as_str(), "Capabilities");
    let progid = child_key("Software\\Classes", PROGID);
    let mut v: Vec<RegEntry> = Vec::new();
    // Browser client registration.
    v.push(entry(client.as_str(), "", APP_NAME));
    v.push(entry(child_key(client.as_str(), "DefaultIcon").as_str(), "", icon.as_str()));
    v.push(entry(child_key(client.as_str(), "shell\\open\\command").as_str(), "", quoted.as_str()));
    // Capabilities advertised to the Default Apps UI.
    v.push(entry(caps.as_str(), "ApplicationName", APP_NAME));
    v.push(entry(caps.as_str(), "ApplicationDescription", APP_DESC));
    v.push(entry(caps.as_str(), "ApplicationIcon", icon.as_str()));
    v.push(entry(child_key(caps.as_str(), "StartMenu").as_str(), "StartMenuInternet", APP_ID));
    v.push(entry(child_key(caps.as_str(), "URLAssociations").as_str(), "http", PROGID));
    v.push(entry(child_key(caps.as_str(), "URLAssociations").as_str(), "https", PROGID));
    // The ProgId that actually runs the router with the clicked URL as %1.
    v.push(entry(progid.as_str(), "", "Profile Router URL"));
    v.push(entry(child_key(progid.as_str(), "DefaultIcon").as_str(), "", icon.as_str()));
    v.push(entry(child_key(progid.as_str(), "shell\\open\\command").as_str(), "", open_cmd.as_str()));
    // Announce the Capabilities to Windows.
    v.push(entry("Software\\RegisteredApplications", APP_ID, caps.as_str()));
    assert(v@.map_values(|e: RegEntry| e@) == registry_entries(exe@));
    v
}


/// What unregistering removes: the client's and the ProgId's key trees, and
/// the application's entry among the registered applications.
pub open spec fn removal_plan() -> (Seq<Seq<char>>, Seq<char>, Seq<char>) {
    (seq![client_key(), progid_key()], registered_apps_key(), APP_ID@)
}

/// The key trees and the named value that unregistering removes.
pub fn removal() -> (r: Removal)
    ensures
        (r.trees.deep_view(), r.value_key@, r.value_name@) == removal_plan(),
{
    let client = child_key("Software\\Clients\\StartMenuInternet", APP_ID);
    let progid = child_key("Software\\Classes", PROGID);
    let mut trees: Vec<String> = Vec::new();
    trees.push(client);
    trees.push(progid);
    let r = Removal {
        trees,
        value_key: String::from_str("Software\\RegisteredApplications"),
        value_name: String::from_str(APP_ID),
    };
    assert(r.trees.deep_view() == removal_plan().0);
    r
}

/// `key` is the key `tree` or lies below it.
pub open spec fn within(key: Seq<char>, tree: Seq<char>) -> bool {
    key == tree || seq_starts_with(key, tree + "\\"@)
}

/// Unregistering removes the value `name` of `key`: the key lies in one of
/// the removed trees, or the value is the one named value removed.
pub open spec fn removed(key: Seq<char>, name: Seq<char>) -> bool {
    let (trees, value_key, value_name) = removal_plan();
    (exists|t: int| 0 <= t < trees.len() && within(key, #[trigger] trees[t])) || (key == value_key
        && name == value_name)
}

proof fn lemma_subkey_within(parent: Seq<char>, child: Seq<char>)
    ensures
        within(subkey(parent, child), parent),
{
    let head = parent + "\\"@;
    assert(subkey(parent, child) == head + child);
    assert((head + child).subrange(0, head.len() as int) == head);
}

proof fn lemma_within_subkey(key: Seq<char>, tree: Seq<char>, child: Seq<char>)
    requires
        within(key, tree),
    ensures
        within(subkey(key, child), tree),
{
    let head = tree + "\\"@;
    if key == tree {
        lemma_subkey_within(tree, child);
    } else {
        let rest = key.subrange(head.len() as int, key.len() as int);
        assert(key == head + rest);
        assert(subkey(key, child) == head + (rest + "\\"@ + child));
        assert((head + (rest + "\\"@ + child)).subrange(0, head.len() as int) == head);
    }
}

/// Unregistering removes everything that registering writes, whatever the
/// executable's path.
pub proof fn lemma_unregister_undoes_register(exe: Seq<char>)
    ensures
        forall|i: int|
            0 <= i < registry_entries(exe).len() ==> removed(
                (#[trigger] registry_entries(exe)[i]).0,
                registry_entries(exe)[i].1,
            ),
{
    let trees = removal_plan().0;
    let client = client_key();
    let progid = progid_key();
    assert(trees[0] == client);
    assert(trees[1] == progid);
    assert(within(client, client));
    assert(within(progid, progid));
    lemma_subkey_within(client, "DefaultIcon"@);
    lemma_subkey_within(client, "shell\\open\\command"@);
    lemma_subkey_within(client, "Capabilities"@);
    lemma_within_subkey(caps_key(), client, "StartMenu"@);
    lemma_within_subkey(caps_key(), client, "URLAssociations"@);
    lemma_subkey_within(progid, "DefaultIcon"@);
    lemma_subkey_within(progid, "shell\\open\\command"@);
    let es = registry_entries(exe);
    assert forall|i: int| 0 <= i < es.len() implies removed((#[trigger] es[i]).0, es[i].1) by {
        if i == 12 {
        } else if i >= 9 {
            assert(within(es[i].0, trees[1]));
        } else {
            assert(within(es[i].0, trees[0]));
        }
    }
}


/// Both commands that start the router name the executable as one quoted
/// argument, whatever its path holds (spaces included): the client's open
/// command is the quoted path, and the ProgId's open command is the quoted
/// path followed by the quoted clicked URL `%1`.
pub proof fn lemma_open_commands_quote_exe(exe: Seq<char>)
    ensures
        registry_entries(exe)[2].0 == subkey(client_key(), "shell\\open\\command"@),
        registry_entries(exe)[2].1 == ""@,
        registry_entries(exe)[2].2 == seq!['"'] + exe + seq!['"'],
        registry_entries(exe)[11].0 == subkey(progid_key(), "shell\\open\\command"@),
        registry_entries(exe)[11].1 == ""@,
        registry_entries(exe)[11].2 == seq!['"'] + exe + seq!['"', ' ', '"', '%', '1', '"'],
{
    reveal_strlit("\"");
    reveal_strlit("\" \"%1\"");
    assert("\""@ == seq!['"']);
    assert("\" \"%1\""@ == seq!['"', ' ', '"', '%', '1', '"']);
}

} // verus!
