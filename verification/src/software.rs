//! The software center: reading the package managers' listings into one list of
//! applications, and what it runs to remove one.

use vstd::prelude::*;
use crate::json::{
    chars_between, find_char, find_from, first_char, first_match, lemma_first_char_bounds,
    next_object, objects_from, spec_string_field, string_field_in,
};
use crate::text::{
    chars_of, copy_range, lemma_chars_deep_view, lemma_lex_transitive, lemma_lex_trichotomy,
    lex_less, lex_lt, lines_of, split_lines, string_from_chars, text_eq,
};
use crate::updates::{before_char, before_char_of};

verus! {

/// An application as the software center lists it.
#[derive(Debug)]
pub struct App {
    pub source: String,
    pub name: String,
    pub id: String,
}

pub struct SpecListedApp {
    pub source: Seq<char>,
    pub name: Seq<char>,
    pub id: Seq<char>,
}

impl DeepView for App {
    type V = SpecListedApp;

    open spec fn deep_view(&self) -> SpecListedApp {
        SpecListedApp { source: self.source@, name: self.name@, id: self.id@ }
    }
}

/// A copy of an application record.
pub fn clone_app(app: &App) -> (r: App)
    ensures
        r.deep_view() == app.deep_view(),
{
    App { source: app.source.clone(), name: app.name.clone(), id: app.id.clone() }
}

fn new_app(source: &str, name: &Vec<char>, id: &Vec<char>) -> (a: App)
    ensures
        a.deep_view() == (SpecListedApp { source: source@, name: name@, id: id@ }),
{
    App {
        source: source.to_owned(),
        name: string_from_chars(name.as_slice()),
        id: string_from_chars(id.as_slice()),
    }
}

// ---------------------------------------------------------------------------
// Tab-separated fields
// ---------------------------------------------------------------------------

/// What follows the first `c` in `s`, when there is one.
pub open spec fn after_char(s: Seq<char>, c: char) -> Option<Seq<char>> {
    match first_char(s, c, 0) {
        Some(i) => Some(s.skip(i + 1)),
        None => None,
    }
}

/// The `n`-th tab-separated field of a line (what the `n`-th call of `next` on
/// `split('\t')` gives).
pub open spec fn tab_field(line: Seq<char>, n: nat) -> Option<Seq<char>>
    decreases n,
{
    if n == 0 {
        Some(before_char(line, '\t'))
    } else {
        match after_char(line, '\t') {
            Some(rest) => tab_field(rest, (n - 1) as nat),
            None => None,
        }
    }
}

fn after_char_of(s: &Vec<char>, c: char) -> (r: Option<Vec<char>>)
    ensures
        r.deep_view() == after_char(s@, c),
{
    proof {
        lemma_first_char_bounds(s@, c, 0);
    }
    match find_char(s, c, 0) {
        Some(i) => {
            let rest = copy_range(s, i + 1, s.len());
            assert(rest@ =~= s@.skip(i + 1));
            proof {
                lemma_chars_deep_view(&rest);
            }
            Some(rest)
        },
        None => None,
    }
}

/// The `n`-th tab-separated field of a line.
pub fn tab_field_of(line: &Vec<char>, n: usize) -> (r: Option<Vec<char>>)
    ensures
        r.deep_view() == tab_field(line@, n as nat),
{
    let mut rest = copy_range(line, 0, line.len());
    assert(rest@ =~= line@);
    let mut k: usize = 0;
    while k < n
        invariant
            k <= n,
            tab_field(line@, n as nat) == tab_field(rest@, (n - k) as nat),
        decreases n - k,
    {
        match after_char_of(&rest, '\t') {
            Some(next) => {
                proof {
                    lemma_chars_deep_view(&next);
                }
                rest = next;
            },
            None => return None,
        }
        k = k + 1;
    }
    let field = before_char_of(&rest, '\t');
    proof {
        lemma_chars_deep_view(&field);
    }
    Some(field)
}

/// A field when it is present and not empty, else `fallback`.
pub open spec fn nonempty_or(field: Option<Seq<char>>, fallback: Seq<char>) -> Seq<char> {
    match field {
        Some(f) => if f.len() > 0 {
            f
        } else {
            fallback
        },
        None => fallback,
    }
}

// ---------------------------------------------------------------------------
// Package manager listings
// ---------------------------------------------------------------------------

/// Which listing a line comes from.
#[derive(Clone, Copy, Debug, PartialEq, Eq, Structural)]
pub enum Listing {
    /// `dpkg-query -W -f='${binary:Package}\t${Version}\n'`
    Dpkg,
    /// `flatpak list --app --columns=application,name`
    FlatpakInstalled,
    /// `flatpak search --columns=application,name,description`
    FlatpakSearch,
}

/// The application a listing line names, when its first field is not empty. A package
/// from dpkg is listed under its own name; a Flatpak application under its name, or its
/// ID when the name is missing; a search result keeps its description where the source
/// would go.
pub open spec fn listed_app(listing: Listing, line: Seq<char>) -> Option<SpecListedApp> {
    let id = before_char(line, '\t');
    if id.len() == 0 {
        None
    } else {
        match listing {
            Listing::Dpkg => Some(SpecListedApp { source: "deb"@, name: id, id }),
            Listing::FlatpakInstalled => Some(
                SpecListedApp {
                    source: "flatpak"@,
                    name: nonempty_or(tab_field(line, 1), id),
                    id,
                },
            ),
            Listing::FlatpakSearch => Some(
                SpecListedApp {
                    source: match tab_field(line, 2) {
                        Some(d) => d,
                        None => Seq::empty(),
                    },
                    name: nonempty_or(tab_field(line, 1), id),
                    id,
                },
            ),
        }
    }
}

/// The applications the lines name, in order.
pub open spec fn listed_apps(listing: Listing, lines: Seq<Seq<char>>) -> Seq<SpecListedApp>
    decreases lines.len(),
{
    if lines.len() == 0 {
        Seq::empty()
    } else {
        let prev = listed_apps(listing, lines.drop_last());
        match listed_app(listing, lines.last()) {
            Some(a) => prev.push(a),
            None => prev,
        }
    }
}

/// The first `n` items (all of them when there are fewer).
pub open spec fn at_most<T>(s: Seq<T>, n: nat) -> Seq<T> {
    if s.len() > n {
        s.take(n as int)
    } else {
        s
    }
}

/// How many lines of a listing are read.
pub open spec fn line_limit(listing: Listing) -> Option<nat> {
    match listing {
        Listing::Dpkg => Some(500),
        Listing::FlatpakInstalled => None,
        Listing::FlatpakSearch => Some(100),
    }
}

/// The applications of a listing's output: those of its first lines, up to the limit.
pub open spec fn spec_listing_apps(listing: Listing, output: Seq<char>) -> Seq<SpecListedApp> {
    let lines = split_lines(output);
    match line_limit(listing) {
        Some(n) => listed_apps(listing, at_most(lines, n)),
        None => listed_apps(listing, lines),
    }
}

fn nonempty_or_of(field: Option<Vec<char>>, fallback: &Vec<char>) -> (r: Vec<char>)
    ensures
        r@ == nonempty_or(field.deep_view(), fallback@),
{
    match field {
        Some(f) => {
            proof {
                lemma_chars_deep_view(&f);
            }
            if f.len() > 0 {
                f
            } else {
                let r = copy_range(fallback, 0, fallback.len());
                assert(r@ =~= fallback@);
                r
            }
        },
        None => {
            let r = copy_range(fallback, 0, fallback.len());
            assert(r@ =~= fallback@);
            r
        },
    }
}

fn listed_app_of(listing: Listing, line: &Vec<char>) -> (r: Option<App>)
    ensures
        r.deep_view() == listed_app(listing, line@),
{
    let id = before_char_of(line, '\t');
    if id.len() == 0 {
        return None;
    }
    match listing {
        Listing::Dpkg => Some(new_app("deb", &id, &id)),
        Listing::FlatpakInstalled => {
            let name = nonempty_or_of(tab_field_of(line, 1), &id);
            Some(new_app("flatpak", &name, &id))
        },
        Listing::FlatpakSearch => {
            let name = nonempty_or_of(tab_field_of(line, 1), &id);
            let description = match tab_field_of(line, 2) {
                Some(d) => {
                    proof {
                        lemma_chars_deep_view(&d);
                    }
                    d
                },
                None => Vec::new(),
            };
            assert(description@ == match tab_field(line@, 2) {
                Some(d) => d,
                None => Seq::<char>::empty(),
            });
            Some(
                App {
                    source: string_from_chars(description.as_slice()),
                    name: string_from_chars(name.as_slice()),
                    id: string_from_chars(id.as_slice()),
                },
            )
        },
    }
}

/// The applications of a package manager's listing.
pub fn listing_apps(listing: Listing, output: &str) -> (apps: Vec<App>)
    ensures
        apps.deep_view() == spec_listing_apps(listing, output@),
{
    let text = chars_of(output);
    let lines = lines_of(&text);
    let ghost all = lines.deep_view();
    let limit: usize = match listing {
        Listing::Dpkg => if lines.len() > 500 {
            500
        } else {
            lines.len()
        },
        Listing::FlatpakInstalled => lines.len(),
        Listing::FlatpakSearch => if lines.len() > 100 {
            100
        } else {
            lines.len()
        },
    };
    let ghost ls = all.take(limit as int);
    proof {
        assert(all.take(all.len() as int) =~= all);
    }
    assert(spec_listing_apps(listing, output@) == listed_apps(listing, ls));
    let mut apps: Vec<App> = Vec::new();
    let mut i: usize = 0;
    assert(apps.deep_view() =~= Seq::<SpecListedApp>::empty());
    while i < limit
        invariant
            i <= limit <= lines.len(),
            all == lines.deep_view(),
            ls == all.take(limit as int),
            apps.deep_view() == listed_apps(listing, ls.take(i as int)),
        decreases limit - i,
    {
        proof {
            lemma_chars_deep_view(&lines@[i as int]);
        }
        assert(ls.take(i + 1).drop_last() =~= ls.take(i as int));
        assert(ls.take(i + 1).last() == lines@[i as int]@);
        match listed_app_of(listing, &lines[i]) {
            Some(a) => {
                let ghost before = apps.deep_view();
                let ghost av = a.deep_view();
                apps.push(a);
                assert(apps.deep_view() =~= before.push(av));
            },
            None => {},
        }
        i = i + 1;
    }
    assert(ls.take(limit as int) =~= ls);
    apps
}

// ---------------------------------------------------------------------------
// apt-cache search
// ---------------------------------------------------------------------------

/// The package and description of an `apt-cache search` line (split at the first ` - `),
/// when the package part is not empty.
pub open spec fn apt_search_result(line: Seq<char>) -> Option<(Seq<char>, Seq<char>)> {
    let (package, description) = match first_match(line, " - "@, 0) {
        Some(i) => (line.take(i), line.skip(i + 3)),
        None => (line, Seq::<char>::empty()),
    };
    if package.len() == 0 {
        None
    } else {
        Some((package, description))
    }
}

/// The results the lines hold, in order.
pub open spec fn apt_search_results(lines: Seq<Seq<char>>) -> Seq<(Seq<char>, Seq<char>)>
    decreases lines.len(),
{
    if lines.len() == 0 {
        Seq::empty()
    } else {
        let prev = apt_search_results(lines.drop_last());
        match apt_search_result(lines.last()) {
            Some(r) => prev.push(r),
            None => prev,
        }
    }
}

/// The packages an `apt-cache search` output offers: from its first 200 lines.
pub open spec fn spec_apt_search(output: Seq<char>) -> Seq<(Seq<char>, Seq<char>)> {
    apt_search_results(at_most(split_lines(output), 200))
}

fn apt_search_result_of(line: &Vec<char>) -> (r: Option<(String, String)>)
    ensures
        match r {
            Some((p, d)) => apt_search_result(line@) == Some((p@, d@)),
            None => apt_search_result(line@) is None,
        },
{
    let separator = chars_of(" - ");
    proof {
        reveal_strlit(" - ");
    }
    let (package, description) = match find_from(line, &separator, 0) {
        Some(i) => {
            let p = copy_range(line, 0, i);
            let d = copy_range(line, i + 3, line.len());
            assert(p@ =~= line@.take(i as int));
            assert(d@ =~= line@.skip(i + 3));
            (p, d)
        },
        None => {
            let p = copy_range(line, 0, line.len());
            assert(p@ =~= line@);
            (p, Vec::new())
        },
    };
    if package.len() == 0 {
        return None;
    }
    Some((string_from_chars(package.as_slice()), string_from_chars(description.as_slice())))
}

/// The packages and descriptions of an `apt-cache search` output.
pub fn apt_search_from_output(output: &str) -> (results: Vec<(String, String)>)
    ensures
        results@.len() == spec_apt_search(output@).len(),
        forall|i: int|
            0 <= i < results@.len() ==> (#[trigger] results@[i]).0@ == spec_apt_search(output@)[i].0
                && results@[i].1@ == spec_apt_search(output@)[i].1,
{
    let text = chars_of(output);
    let lines = lines_of(&text);
    let ghost all = lines.deep_view();
    let limit: usize = if lines.len() > 200 {
        200
    } else {
        lines.len()
    };
    let ghost ls = all.take(limit as int);
    proof {
        assert(all.take(all.len() as int) =~= all);
    }
    let mut results: Vec<(String, String)> = Vec::new();
    let ghost mut found: Seq<(Seq<char>, Seq<char>)> = Seq::empty();
    let mut i: usize = 0;
    while i < limit
        invariant
            i <= limit <= lines.len(),
            all == lines.deep_view(),
            ls == all.take(limit as int),
            found == apt_search_results(ls.take(i as int)),
            results@.len() == found.len(),
            forall|j: int|
                0 <= j < results@.len() ==> (#[trigger] results@[j]).0@ == found[j].0
                    && results@[j].1@ == found[j].1,
        decreases limit - i,
    {
        proof {
            lemma_chars_deep_view(&lines@[i as int]);
        }
        assert(ls.take(i + 1).drop_last() =~= ls.take(i as int));
        assert(ls.take(i + 1).last() == lines@[i as int]@);
        match apt_search_result_of(&lines[i]) {
            Some((p, d)) => {
                proof {
                    found = found.push((p@, d@));
                }
                results.push((p, d));
            },
            None => {},
        }
        i = i + 1;
    }
    assert(ls.take(limit as int) =~= ls);
    results
}

// ---------------------------------------------------------------------------
// Android applications from the registry
// ---------------------------------------------------------------------------

/// The application a registry object describes, when it names a package: listed under
/// its name, or its package when it has none.
pub open spec fn registry_app(object: Seq<char>) -> Option<SpecListedApp> {
    match spec_string_field(object, "package"@) {
        Some(package) => Some(
            SpecListedApp {
                source: "apk"@,
                name: match spec_string_field(object, "name"@) {
                    Some(n) => n,
                    None => package,
                },
                id: package,
            },
        ),
        None => None,
    }
}

/// The applications the objects describe, in order.
pub open spec fn registry_apps_of(objects: Seq<Seq<char>>) -> Seq<SpecListedApp>
    decreases objects.len(),
{
    if objects.len() == 0 {
        Seq::empty()
    } else {
        let rest = registry_apps_of(objects.drop_first());
        match registry_app(objects[0]) {
            Some(a) => seq![a] + rest,
            None => rest,
        }
    }
}

/// The Android applications of a registry document.
pub fn android_apps_from_registry(registry: &str) -> (apps: Vec<App>)
    ensures
        apps.deep_view() == registry_apps_of(objects_from(registry@, 0)),
{
    let text = chars_of(registry);
    let mut apps: Vec<App> = Vec::new();
    let mut k: usize = 0;
    assert(apps.deep_view() =~= Seq::<SpecListedApp>::empty());
    loop
        invariant
            text@ == registry@,
            registry_apps_of(objects_from(registry@, 0)) == apps.deep_view() + registry_apps_of(
                objects_from(text@, k as int),
            ),
        decreases text.len() + 1 - k,
    {
        let (lo, hi) = match next_object(&text, k) {
            Some(bounds) => bounds,
            None => {
                assert(apps.deep_view() + Seq::<SpecListedApp>::empty() =~= apps.deep_view());
                return apps;
            },
        };
        let object = chars_between(&text, lo, hi);
        let ghost rest = objects_from(text@, hi + 1);
        assert((seq![object@] + rest).drop_first() =~= rest);
        match string_field_in(&object, "package") {
            Some(package) => {
                let name = match string_field_in(&object, "name") {
                    Some(n) => n,
                    None => package.clone(),
                };
                let a = App { source: "apk".to_owned(), name, id: package };
                let ghost before = apps.deep_view();
                let ghost av = a.deep_view();
                apps.push(a);
                assert(apps.deep_view() =~= before.push(av));
                assert(before + (seq![av] + registry_apps_of(rest)) =~= before.push(av)
                    + registry_apps_of(rest));
            },
            None => {},
        }
        k = hi + 1;
    }
}

// ---------------------------------------------------------------------------
// Choosing and removing
// ---------------------------------------------------------------------------

/// The first application with this source and ID.
pub open spec fn first_with(apps: Seq<SpecListedApp>, source: Seq<char>, id: Seq<char>) -> Option<
    SpecListedApp,
>
    decreases apps.len(),
{
    if apps.len() == 0 {
        None
    } else if apps[0].source == source && apps[0].id == id {
        Some(apps[0])
    } else {
        first_with(apps.drop_first(), source, id)
    }
}

/// The application a list selection (`source\tname\tid`) designates: the first with that
/// source and ID, when the selection has three fields.
pub open spec fn spec_selected_app(apps: Seq<SpecListedApp>, selected: Seq<char>) -> Option<
    SpecListedApp,
> {
    match tab_field(selected, 2) {
        Some(id) => first_with(apps, before_char(selected, '\t'), id),
        None => None,
    }
}

/// The application a list selection designates.
pub fn selected_app(apps: &Vec<App>, selected: &str) -> (r: Option<App>)
    ensures
        r.deep_view() == spec_selected_app(apps.deep_view(), selected@),
{
    let sel = chars_of(selected);
    let id = match tab_field_of(&sel, 2) {
        Some(id) => {
            proof {
                lemma_chars_deep_view(&id);
            }
            id
        },
        None => return None,
    };
    let source = before_char_of(&sel, '\t');
    let source = string_from_chars(source.as_slice());
    let id = string_from_chars(id.as_slice());
    let ghost all = apps.deep_view();
    assert(all.skip(0) =~= all);
    let mut i: usize = 0;
    while i < apps.len()
        invariant
            i <= apps.len(),
            all == apps.deep_view(),
            spec_selected_app(all, selected@) == first_with(all.skip(i as int), source@, id@),
        decreases apps.len() - i,
    {
        assert(all.skip(i as int)[0] == apps@[i as int].deep_view());
        assert(all.skip(i as int).drop_first() =~= all.skip(i + 1));
        if text_eq(apps[i].source.as_str(), source.as_str()) && text_eq(
            apps[i].id.as_str(),
            id.as_str(),
        ) {
            return Some(clone_app(&apps[i]));
        }
        i = i + 1;
    }
    assert(all.skip(i as int) =~= Seq::<SpecListedApp>::empty());
    None
}

/// The command that removes an application: Android applications through Waydroid,
/// Flatpak applications through Flatpak, anything else through apt under pkexec.
pub open spec fn spec_removal_command(app: SpecListedApp) -> Seq<Seq<char>> {
    if app.source == "apk"@ {
        seq!["waydroid"@, "app"@, "remove"@, app.id]
    } else if app.source == "flatpak"@ {
        seq!["flatpak"@, "uninstall"@, "-y"@, app.id]
    } else {
        seq!["pkexec"@, "apt-get"@, "remove"@, "-y"@, app.id]
    }
}

/// The command line that removes the application.
pub fn removal_command(app: &App) -> (command: Vec<String>)
    ensures
        command.deep_view() == spec_removal_command(app.deep_view()),
{
    let mut command: Vec<String> = Vec::new();
    if text_eq(app.source.as_str(), "apk") {
        command.push("waydroid".to_owned());
        command.push("app".to_owned());
        command.push("remove".to_owned());
    } else if text_eq(app.source.as_str(), "flatpak") {
        command.push("flatpak".to_owned());
        command.push("uninstall".to_owned());
        command.push("-y".to_owned());
    } else {
        command.push("pkexec".to_owned());
        command.push("apt-get".to_owned());
        command.push("remove".to_owned());
        command.push("-y".to_owned());
    }
    command.push(app.id.clone());
    assert(command.deep_view() =~= spec_removal_command(app.deep_view()));
    command
}

/// Whether removing the application calls for a refresh of the Android registry.
pub fn refresh_after_removal(app: &App) -> (r: bool)
    ensures
        r == (app.source@ == "apk"@),
{
    text_eq(app.source.as_str(), "apk")
}

/// An entry of the software center's main menu.
#[derive(Clone, Copy, Debug, PartialEq, Eq, Structural)]
pub enum SoftwareAction {
    InstalledApps,
    SearchPackages,
    SearchFlatpak,
    UpdateFlatpak,
    InstallApk,
    Quit,
    Stay,
}

/// The action a choice of the main menu starts: no choice quits, an unknown one shows the
/// menu again.
pub open spec fn spec_software_action(choice: Option<Seq<char>>) -> SoftwareAction {
    match choice {
        None => SoftwareAction::Quit,
        Some(c) => if c == "Installed applications"@ {
            SoftwareAction::InstalledApps
        } else if c == "Search system packages"@ {
            SoftwareAction::SearchPackages
        } else if c == "Search Flatpak applications"@ {
            SoftwareAction::SearchFlatpak
        } else if c == "Update Flatpak applications"@ {
            SoftwareAction::UpdateFlatpak
        } else if c == "Install APK file"@ {
            SoftwareAction::InstallApk
        } else if c == "Quit"@ {
            SoftwareAction::Quit
        } else {
            SoftwareAction::Stay
        },
    }
}

/// The action a choice of the main menu starts.
pub fn software_action(choice: Option<&str>) -> (action: SoftwareAction)
    ensures
        action == spec_software_action(
            match choice {
                Some(c) => Some(c@),
                None => None,
            },
        ),
{
    match choice {
        None => SoftwareAction::Quit,
        Some(c) => if text_eq(c, "Installed applications") {
            SoftwareAction::InstalledApps
        } else if text_eq(c, "Search system packages") {
            SoftwareAction::SearchPackages
        } else if text_eq(c, "Search Flatpak applications") {
            SoftwareAction::SearchFlatpak
        } else if text_eq(c, "Update Flatpak applications") {
            SoftwareAction::UpdateFlatpak
        } else if text_eq(c, "Install APK file") {
            SoftwareAction::InstallApk
        } else if text_eq(c, "Quit") {
            SoftwareAction::Quit
        } else {
            SoftwareAction::Stay
        },
    }
}

// ---------------------------------------------------------------------------
// The combined list, ordered by name
// ---------------------------------------------------------------------------

/// What `str::to_lowercase` gives for a text.
pub uninterp spec fn lowercase(s: Seq<char>) -> Seq<char>;

/// Calls `str::to_lowercase`, which replaces each character by its Unicode lowercase
/// mapping (a capital sigma at the end of a word becoming a final sigma). Only that the
/// result is `lowercase` of the argument is stated; the mapping itself is not.
#[verifier::external_body]
fn to_lowercase(s: &str) -> (r: String)
    ensures
        r@ == lowercase(s@),
{
    s.to_lowercase()
}

/// The order of the combined list: names compared without regard to case.
pub open spec fn sort_key(a: SpecListedApp) -> Seq<char> {
    lowercase(a.name)
}

/// `output[i]` is `input[perm[i]]`, each item of `input` used once; the keys do not
/// descend; items with equal keys keep their order in `input`.
pub open spec fn stable_arrangement(
    input: Seq<SpecListedApp>,
    output: Seq<SpecListedApp>,
    perm: Seq<int>,
) -> bool {
    &&& perm.len() == input.len()
    &&& output.len() == input.len()
    &&& forall|i: int|
        0 <= i < perm.len() ==> 0 <= #[trigger] perm[i] < input.len() && output[i] == input[perm[i]]
    &&& forall|i: int, j: int| 0 <= i < j < perm.len() ==> perm[i] != perm[j]
    &&& forall|i: int, j: int|
        0 <= i < j < output.len() ==> !lex_lt(sort_key(output[j]), sort_key(output[i]))
    &&& forall|i: int, j: int|
        0 <= i < j < output.len() && sort_key(output[i]) == sort_key(output[j]) ==> perm[i]
            < perm[j]
}

/// `output` is `input` stably sorted by key.
pub open spec fn stably_sorted(input: Seq<SpecListedApp>, output: Seq<SpecListedApp>) -> bool {
    exists|perm: Seq<int>| #[trigger] stable_arrangement(input, output, perm)
}

proof fn lemma_insert_arrangement(
    input: Seq<SpecListedApp>,
    out: Seq<SpecListedApp>,
    perm: Seq<int>,
    i: int,
    p: int,
)
    requires
        0 <= i < input.len(),
        0 <= p <= out.len(),
        stable_arrangement(input.take(i), out, perm),
        forall|j: int| 0 <= j < p ==> !lex_lt(sort_key(input[i]), #[trigger] sort_key(out[j])),
        p < out.len() ==> lex_lt(sort_key(input[i]), sort_key(out[p])),
    ensures
        stable_arrangement(input.take(i + 1), out.insert(p, input[i]), perm.insert(p, i)),
{
    let x = input[i];
    let k = sort_key(x);
    let n = out.insert(p, x);
    let q = perm.insert(p, i);
    let before = input.take(i);
    let after = input.take(i + 1);
    assert forall|j: int| 0 <= j < q.len() implies 0 <= #[trigger] q[j] < after.len() && n[j]
        == after[q[j]] by {
        if j < p {
            assert(q[j] == perm[j]);
            assert(before[perm[j]] == after[perm[j]]);
        } else if j > p {
            assert(q[j] == perm[j - 1]);
            assert(before[perm[j - 1]] == after[perm[j - 1]]);
        }
    }
    assert forall|a: int, b: int| 0 <= a < b < q.len() implies q[a] != q[b] by {
        if a != p && b != p {
            let a0 = if a < p { a } else { a - 1 };
            let b0 = if b < p { b } else { b - 1 };
            assert(perm[a0] != perm[b0]);
        } else if a == p {
            assert(perm[b - 1] < i);
        } else {
            assert(perm[a] < i);
        }
    }
    // Every item from `p` on sorts strictly after `x`.
    assert forall|j: int| p <= j < out.len() implies lex_lt(k, #[trigger] sort_key(out[j])) by {
        if j > p {
            lemma_lex_trichotomy(sort_key(out[p]), sort_key(out[j]));
            if sort_key(out[p]) != sort_key(out[j]) {
                lemma_lex_transitive(k, sort_key(out[p]), sort_key(out[j]));
            }
        }
    }
    assert forall|a: int, b: int| 0 <= a < b < n.len() implies !lex_lt(
        sort_key(n[b]),
        sort_key(n[a]),
    ) by {
        if a == p {
            lemma_lex_trichotomy(k, sort_key(out[b - 1]));
        } else if b == p {
        } else {
            let a0 = if a < p { a } else { a - 1 };
            let b0 = if b < p { b } else { b - 1 };
            assert(n[a] == out[a0] && n[b] == out[b0]);
        }
    }
    assert forall|a: int, b: int|
        0 <= a < b < n.len() && sort_key(n[a]) == sort_key(n[b]) implies q[a] < q[b] by {
        if a == p {
            lemma_lex_trichotomy(k, sort_key(out[b - 1]));
        } else if b == p {
            assert(perm[a] < i);
        } else {
            let a0 = if a < p { a } else { a - 1 };
            let b0 = if b < p { b } else { b - 1 };
            assert(n[a] == out[a0] && n[b] == out[b0]);
            assert(q[a] == perm[a0] && q[b] == perm[b0]);
        }
    }
}

/// The applications ordered by name without regard to case; applications whose names
/// compare equal keep their order.
pub fn sort_by_name(apps: &Vec<App>) -> (sorted: Vec<App>)
    ensures
        stably_sorted(apps.deep_view(), sorted.deep_view()),
{
    let ghost input = apps.deep_view();
    let mut out: Vec<App> = Vec::new();
    let mut keys: Vec<String> = Vec::new();
    let ghost mut perm: Seq<int> = Seq::empty();
    let mut i: usize = 0;
    assert(out.deep_view() =~= input.take(0));
    while i < apps.len()
        invariant
            i <= apps.len(),
            input == apps.deep_view(),
            out@.len() == i,
            keys@.len() == i,
            forall|j: int| 0 <= j < i ==> (#[trigger] keys@[j])@ == sort_key(out.deep_view()[j]),
            stable_arrangement(input.take(i as int), out.deep_view(), perm),
        decreases apps.len() - i,
    {
        let key = to_lowercase(apps[i].name.as_str());
        let ghost x = input[i as int];
        assert(key@ == sort_key(x));
        let mut p: usize = 0;
        while p < keys.len() && !lex_less(key.as_str(), keys[p].as_str())
            invariant
                p <= keys@.len(),
                forall|j: int| 0 <= j < p ==> !lex_lt(key@, (#[trigger] keys@[j])@),
            decreases keys@.len() - p,
        {
            p = p + 1;
        }
        let ghost old_out = out.deep_view();
        let ghost old_keys = keys@;
        proof {
            assert forall|j: int| 0 <= j < p implies !lex_lt(sort_key(x), #[trigger] sort_key(
                old_out[j],
            )) by {
                assert(old_keys[j]@ == sort_key(old_out[j]));
            }
            if p < old_out.len() {
                assert(old_keys[p as int]@ == sort_key(old_out[p as int]));
            }
            lemma_insert_arrangement(input, old_out, perm, i as int, p as int);
        }
        let a = clone_app(&apps[i]);
        out.insert(p, a);
        keys.insert(p, key);
        proof {
            perm = perm.insert(p as int, i as int);
            assert(out.deep_view() =~= old_out.insert(p as int, x));
            assert forall|j: int| 0 <= j < i + 1 implies (#[trigger] keys@[j])@ == sort_key(
                out.deep_view()[j],
            ) by {
                if j < p {
                    assert(keys@[j] == old_keys[j]);
                } else if j > p {
                    assert(keys@[j] == old_keys[j - 1]);
                }
            }
        }
        i = i + 1;
    }
    assert(input.take(input.len() as int) =~= input);
    assert(stable_arrangement(input, out.deep_view(), perm));
    out
}

/// The combined list of installed applications: the system packages, then the Flatpak
/// applications, then the Android applications, ordered by name without regard to case.
pub fn installed_apps(apt: Vec<App>, flatpak: Vec<App>, android: Vec<App>) -> (apps: Vec<App>)
    ensures
        stably_sorted(apt.deep_view() + flatpak.deep_view() + android.deep_view(), apps.deep_view()),
{
    let ghost whole = apt.deep_view() + flatpak.deep_view() + android.deep_view();
    let mut all = apt;
    let mut f = flatpak;
    let mut d = android;
    let ghost a0 = all.deep_view();
    let ghost f0 = f.deep_view();
    let ghost d0 = d.deep_view();
    all.append(&mut f);
    assert(all.deep_view() =~= a0 + f0);
    let ghost af = all.deep_view();
    all.append(&mut d);
    assert(all.deep_view() =~= af + d0);
    sort_by_name(&all)
}

} // verus!
