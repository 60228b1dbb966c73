//! Desktop integration of Android applications: the application registry,
//! desktop entries and fallback icons generated for each installed package.

use vstd::prelude::*;
use crate::json::{escape_json, join_comma, lemma_join_push, spec_escape};
use crate::sorted::{has_key, insert_unique, keys_ascending, Keyed};
use crate::text::{
    chars_of, lemma_chars_deep_view, lines_of, push_char, push_str, split_lines, trim,
    trim_chars, words, words_of,
};

verus! {

/// An Android application known to the desktop.
#[derive(Debug)]
pub struct App {
    pub package: String,
    pub name: String,
    pub desktop_id: String,
    pub icon_name: String,
}

pub struct SpecApp {
    pub package: Seq<char>,
    pub name: Seq<char>,
    pub desktop_id: Seq<char>,
    pub icon_name: Seq<char>,
}

impl DeepView for App {
    type V = SpecApp;

    open spec fn deep_view(&self) -> SpecApp {
        SpecApp {
            package: self.package@,
            name: self.name@,
            desktop_id: self.desktop_id@,
            icon_name: self.icon_name@,
        }
    }
}

impl Keyed for App {
    open spec fn key_view(&self) -> Seq<char> {
        self.package@
    }

    fn key(&self) -> (k: &str) {
        self.package.as_str()
    }
}

// ---------------------------------------------------------------------------
// Names, identifiers and initials
// ---------------------------------------------------------------------------

pub open spec fn last_index_of(s: Seq<char>, c: char) -> Option<int>
    decreases s.len(),
{
    if s.len() == 0 {
        None
    } else if s.last() == c {
        Some(s.len() - 1)
    } else {
        last_index_of(s.drop_last(), c)
    }
}

/// What follows the last `.` (all of `s` when there is none).
pub open spec fn after_last_dot(s: Seq<char>) -> Seq<char> {
    match last_index_of(s, '.') {
        Some(i) => s.skip(i + 1),
        None => s,
    }
}

pub open spec fn underscore_to_space(c: char) -> char {
    if c == '_' {
        ' '
    } else {
        c
    }
}

/// The display name used for a package until a real label is known: its last
/// dot-separated component (the whole name when that is empty), underscores as spaces.
pub open spec fn spec_fallback_name(package: Seq<char>) -> Seq<char> {
    let base = if after_last_dot(package).len() > 0 {
        after_last_dot(package)
    } else {
        package
    };
    base.map_values(|c: char| underscore_to_space(c))
}

proof fn lemma_last_index_of(s: Seq<char>, c: char)
    ensures
        last_index_of(s, c) matches Some(i) ==> 0 <= i < s.len() && s[i] == c && forall|j: int|
            i < j < s.len() ==> s[j] != c,
        last_index_of(s, c) is None ==> forall|j: int| 0 <= j < s.len() ==> s[j] != c,
    decreases s.len(),
{
    if s.len() > 0 && s.last() != c {
        lemma_last_index_of(s.drop_last(), c);
        assert forall|j: int| 0 <= j < s.len() - 1 implies s[j] == s.drop_last()[j] by {}
    }
}

/// The display name of a package without a label.
pub fn fallback_name(package: &str) -> (name: String)
    ensures
        name@ == spec_fallback_name(package@),
{
    let chars = chars_of(package);
    let mut i = chars.len();
    while i > 0 && chars[i - 1] != '.'
        invariant
            i <= chars.len(),
            chars@ == package@,
            forall|j: int| i <= j < chars@.len() ==> chars@[j] != '.',
        decreases i,
    {
        i = i - 1;
    }
    proof {
        lemma_last_index_of(package@, '.');
        if i > 0 {
            assert(chars@[i - 1] == '.');
            assert(last_index_of(package@, '.') == Some((i - 1) as int));
            assert(after_last_dot(package@) =~= chars@.subrange(i as int, chars@.len() as int));
        } else {
            assert(last_index_of(package@, '.') is None);
            assert(after_last_dot(package@) =~= chars@.subrange(0, chars@.len() as int));
        }
    }
    let start = if i < chars.len() {
        i
    } else {
        0
    };
    let ghost base = chars@.subrange(start as int, chars@.len() as int);
    let mut name = String::new();
    let mut k = start;
    while k < chars.len()
        invariant
            start <= k <= chars.len(),
            base == chars@.subrange(start as int, chars@.len() as int),
            name@ == base.take(k - start).map_values(|c: char| underscore_to_space(c)),
        decreases chars.len() - k,
    {
        let c = chars[k];
        push_char(&mut name, if c == '_' { ' ' } else { c });
        assert(base.take(k + 1 - start) =~= base.take(k - start).push(c));
        assert(base.take(k + 1 - start).map_values(|c: char| underscore_to_space(c)) =~= base.take(
            k - start,
        ).map_values(|c: char| underscore_to_space(c)).push(underscore_to_space(c)));
        k = k + 1;
    }
    assert(base.take(chars@.len() - start) =~= base);
    assert(chars@.subrange(0, chars@.len() as int) =~= package@);
    name
}

pub open spec fn is_ascii_alphanumeric(c: char) -> bool {
    ('a' <= c && c <= 'z') || ('A' <= c && c <= 'Z') || ('0' <= c && c <= '9')
}

pub open spec fn id_char(c: char) -> char {
    if is_ascii_alphanumeric(c) || c == '-' || c == '_' {
        c
    } else {
        '-'
    }
}

/// `droidianos-` followed by the package name with every character other than ASCII
/// letters, digits, `-` and `_` replaced by `-`.
pub open spec fn spec_desktop_id(package: Seq<char>) -> Seq<char> {
    "droidianos-"@ + package.map_values(|c: char| id_char(c))
}

/// The desktop-entry identifier of a package.
pub fn desktop_id(package: &str) -> (id: String)
    ensures
        id@ == spec_desktop_id(package@),
{
    let chars = chars_of(package);
    let mut id = String::new();
    push_str(&mut id, "droidianos-");
    let ghost head = id@;
    let mut k: usize = 0;
    while k < chars.len()
        invariant
            k <= chars.len(),
            chars@ == package@,
            id@ == head + chars@.take(k as int).map_values(|c: char| id_char(c)),
        decreases chars.len() - k,
    {
        let c = chars[k];
        if ('a' <= c && c <= 'z') || ('A' <= c && c <= 'Z') || ('0' <= c && c <= '9') || c == '-'
            || c == '_' {
            push_char(&mut id, c);
        } else {
            push_char(&mut id, '-');
        }
        assert(chars@.take(k + 1).map_values(|c: char| id_char(c)) =~= chars@.take(
            k as int,
        ).map_values(|c: char| id_char(c)).push(id_char(c)));
        k = k + 1;
    }
    assert(chars@.take(chars@.len() as int) =~= chars@);
    id
}

pub open spec fn ascii_upper(c: char) -> char {
    if 'a' <= c && c <= 'z' {
        ((c as u32 - 32) as u8) as char
    } else {
        c
    }
}

/// The first letters of the first two words, upper-cased; `A` when there are no words.
pub open spec fn spec_app_initials(name: Seq<char>) -> Seq<char> {
    let ws = words(name);
    if ws.len() == 0 {
        seq!['A']
    } else if ws.len() == 1 {
        seq![ascii_upper(ws[0][0])]
    } else {
        seq![ascii_upper(ws[0][0]), ascii_upper(ws[1][0])]
    }
}

pub proof fn lemma_words_nonempty(s: Seq<char>)
    ensures
        forall|i: int| 0 <= i < words(s).len() ==> #[trigger] words(s)[i].len() > 0,
    decreases s.len(),
{
    let t = crate::text::trim_start(s);
    crate::text::lemma_trim_start_len(s);
    if t.len() > 0 {
        crate::text::lemma_first_ws(t, 0);
        match crate::text::first_ws(t, 0) {
            None => {},
            Some(i) => {
                lemma_words_nonempty(t.skip(i));
                let w = words(s);
                assert forall|j: int| 0 <= j < w.len() implies #[trigger] w[j].len() > 0 by {
                    if j > 0 {
                        assert(w[j] == words(t.skip(i))[j - 1]);
                    }
                }
            },
        }
    }
}

fn ascii_upper_char(c: char) -> (r: char)
    ensures
        r == ascii_upper(c),
{
    if 'a' <= c && c <= 'z' {
        ((c as u32 - 32) as u8) as char
    } else {
        c
    }
}

/// Initials for a generated icon.
pub fn app_initials(name: &str) -> (initials: String)
    ensures
        initials@ == spec_app_initials(name@),
{
    let chars = chars_of(name);
    let ws = words_of(&chars);
    proof {
        lemma_words_nonempty(name@);
    }
    let mut initials = String::new();
    if ws.len() == 0 {
        push_char(&mut initials, 'A');
        return initials;
    }
    proof {
        lemma_chars_deep_view(&ws@[0]);
    }
    assert(ws@[0]@ == words(name@)[0]);
    push_char(&mut initials, ascii_upper_char(ws[0][0]));
    if ws.len() > 1 {
        proof {
            lemma_chars_deep_view(&ws@[1]);
        }
        assert(ws@[1]@ == words(name@)[1]);
        push_char(&mut initials, ascii_upper_char(ws[1][0]));
    }
    initials
}

// ---------------------------------------------------------------------------
// Escaping for desktop entries and SVG
// ---------------------------------------------------------------------------

pub open spec fn desktop_char(c: char) -> Seq<char> {
    if c == '\\' {
        seq!['\\', '\\']
    } else if c == '\n' || c == '\r' {
        seq![' ']
    } else {
        seq![c]
    }
}

/// A desktop-entry value: backslashes doubled, line breaks as spaces.
pub open spec fn spec_escape_desktop(s: Seq<char>) -> Seq<char>
    decreases s.len(),
{
    if s.len() == 0 {
        Seq::empty()
    } else {
        spec_escape_desktop(s.drop_last()) + desktop_char(s.last())
    }
}

/// Escapes a value for a desktop entry line.
pub fn escape_desktop_value(value: &str) -> (escaped: String)
    ensures
        escaped@ == spec_escape_desktop(value@),
{
    let chars = chars_of(value);
    let mut escaped = String::new();
    let mut i: usize = 0;
    while i < chars.len()
        invariant
            i <= chars.len(),
            chars@ == value@,
            escaped@ == spec_escape_desktop(chars@.take(i as int)),
        decreases chars.len() - i,
    {
        let c = chars[i];
        assert(chars@.take(i + 1).drop_last() =~= chars@.take(i as int));
        if c == '\\' {
            push_char(&mut escaped, '\\');
            push_char(&mut escaped, '\\');
        } else if c == '\n' || c == '\r' {
            push_char(&mut escaped, ' ');
        } else {
            push_char(&mut escaped, c);
        }
        i = i + 1;
    }
    assert(chars@.take(chars@.len() as int) =~= chars@);
    escaped
}

pub open spec fn xml_char(c: char) -> Seq<char> {
    if c == '&' {
        "&amp;"@
    } else if c == '<' {
        "&lt;"@
    } else if c == '>' {
        "&gt;"@
    } else if c == '"' {
        "&quot;"@
    } else if c == '\'' {
        "&apos;"@
    } else {
        seq![c]
    }
}

/// Text with the five XML special characters replaced by entities.
pub open spec fn spec_escape_xml(s: Seq<char>) -> Seq<char>
    decreases s.len(),
{
    if s.len() == 0 {
        Seq::empty()
    } else {
        spec_escape_xml(s.drop_last()) + xml_char(s.last())
    }
}

/// Escapes text for XML content.
pub fn escape_xml(value: &str) -> (escaped: String)
    ensures
        escaped@ == spec_escape_xml(value@),
{
    let chars = chars_of(value);
    let mut escaped = String::new();
    let mut i: usize = 0;
    while i < chars.len()
        invariant
            i <= chars.len(),
            chars@ == value@,
            escaped@ == spec_escape_xml(chars@.take(i as int)),
        decreases chars.len() - i,
    {
        let c = chars[i];
        assert(chars@.take(i + 1).drop_last() =~= chars@.take(i as int));
        if c == '&' {
            push_str(&mut escaped, "&amp;");
        } else if c == '<' {
            push_str(&mut escaped, "&lt;");
        } else if c == '>' {
            push_str(&mut escaped, "&gt;");
        } else if c == '"' {
            push_str(&mut escaped, "&quot;");
        } else if c == '\'' {
            push_str(&mut escaped, "&apos;");
        } else {
            push_char(&mut escaped, c);
        }
        i = i + 1;
    }
    assert(chars@.take(chars@.len() as int) =~= chars@);
    escaped
}

// ---------------------------------------------------------------------------
// Generated files
// ---------------------------------------------------------------------------

/// The desktop entry written for an application.
pub open spec fn spec_desktop_entry(app: SpecApp) -> Seq<char> {
    "[Desktop Entry]\nType=Application\nName="@ + spec_escape_desktop(app.name)
        + "\nExec=droidianos-launch "@ + app.package + "\nIcon="@ + app.icon_name
        + "\nCategories=Network;Utility;\nStartupNotify=true\nX-DroidianOS-Package="@
        + app.package + "\n"@
}

/// The contents of an application's desktop entry.
pub fn desktop_entry_contents(app: &App) -> (contents: String)
    ensures
        contents@ == spec_desktop_entry(app.deep_view()),
{
    let mut contents = String::new();
    push_str(&mut contents, "[Desktop Entry]\nType=Application\nName=");
    let name = escape_desktop_value(app.name.as_str());
    push_str(&mut contents, name.as_str());
    push_str(&mut contents, "\nExec=droidianos-launch ");
    push_str(&mut contents, app.package.as_str());
    push_str(&mut contents, "\nIcon=");
    push_str(&mut contents, app.icon_name.as_str());
    push_str(&mut contents, "\nCategories=Network;Utility;\nStartupNotify=true\nX-DroidianOS-Package=");
    push_str(&mut contents, app.package.as_str());
    push_str(&mut contents, "\n");
    contents
}

/// The generated SVG icon showing an application's initials.
pub open spec fn spec_fallback_icon(name: Seq<char>) -> Seq<char> {
    "<svg xmlns=\"http://www.w3.org/2000/svg\" width=\"128\" height=\"128\" viewBox=\"0 0 128 128\"><rect width=\"128\" height=\"128\" rx=\"24\" fill=\"#3b4252\"/><text x=\"64\" y=\"76\" text-anchor=\"middle\" font-family=\"sans-serif\" font-size=\"42\" font-weight=\"700\" fill=\"#ffffff\">"@
        + spec_escape_xml(spec_app_initials(name)) + "</text></svg>\n"@
}

/// The contents of an application's fallback icon.
pub fn fallback_icon_svg(name: &str) -> (svg: String)
    ensures
        svg@ == spec_fallback_icon(name@),
{
    let initials = app_initials(name);
    let escaped = escape_xml(initials.as_str());
    let mut svg = String::new();
    push_str(&mut svg, "<svg xmlns=\"http://www.w3.org/2000/svg\" width=\"128\" height=\"128\" viewBox=\"0 0 128 128\"><rect width=\"128\" height=\"128\" rx=\"24\" fill=\"#3b4252\"/><text x=\"64\" y=\"76\" text-anchor=\"middle\" font-family=\"sans-serif\" font-size=\"42\" font-weight=\"700\" fill=\"#ffffff\">");
    push_str(&mut svg, escaped.as_str());
    push_str(&mut svg, "</text></svg>\n");
    svg
}

// ---------------------------------------------------------------------------
// The registry
// ---------------------------------------------------------------------------

/// One application in the registry document.
pub open spec fn app_json(a: SpecApp) -> Seq<char> {
    "{\"package\":\""@ + spec_escape(a.package) + "\",\"name\":\""@ + spec_escape(a.name)
        + "\",\"version\":null,\"activities\":[],\"icon\":\""@ + spec_escape(a.icon_name)
        + "\",\"source\":\"apk\",\"permissions\":[]}"@
}

pub open spec fn app_json_parts(apps: Seq<SpecApp>) -> Seq<Seq<char>> {
    apps.map_values(|a: SpecApp| app_json(a))
}

/// The registry document listing the given applications.
pub open spec fn spec_registry_json(apps: Seq<SpecApp>) -> Seq<char> {
    "{\"apps\":["@ + join_comma(app_json_parts(apps)) + "]}\n"@
}

fn push_app_json(json: &mut String, app: &App)
    ensures
        final(json)@ == old(json)@ + app_json(app.deep_view()),
{
    push_str(json, "{\"package\":\"");
    let a = escape_json(app.package.as_str());
    push_str(json, a.as_str());
    push_str(json, "\",\"name\":\"");
    let b = escape_json(app.name.as_str());
    push_str(json, b.as_str());
    push_str(json, "\",\"version\":null,\"activities\":[],\"icon\":\"");
    let c = escape_json(app.icon_name.as_str());
    push_str(json, c.as_str());
    push_str(json, "\",\"source\":\"apk\",\"permissions\":[]}");
}

/// The registry document (`apps.json`) for the given applications.
pub fn registry_json(apps: &Vec<App>) -> (json: String)
    ensures
        json@ == spec_registry_json(apps.deep_view()),
{
    let ghost xs = apps.deep_view();
    let mut json = String::new();
    push_str(&mut json, "{\"apps\":[");
    let ghost head = json@;
    let mut i: usize = 0;
    assert(app_json_parts(xs.take(0)) =~= Seq::<Seq<char>>::empty());
    while i < apps.len()
        invariant
            i <= apps.len(),
            xs == apps.deep_view(),
            xs.len() == apps.len(),
            json@ == head + join_comma(app_json_parts(xs.take(i as int))),
        decreases apps.len() - i,
    {
        let app = &apps[i];
        assert(xs[i as int] == app.deep_view());
        let ghost before = app_json_parts(xs.take(i as int));
        if i > 0 {
            push_char(&mut json, ',');
        }
        push_app_json(&mut json, app);
        proof {
            lemma_join_push(before, app_json(xs[i as int]));
            assert(app_json_parts(xs.take(i + 1)) =~= before.push(app_json(xs[i as int])));
        }
        i = i + 1;
    }
    assert(xs.take(xs.len() as int) =~= xs);
    push_str(&mut json, "]}\n");
    json
}

/// The registry content when none has been written yet.
pub fn empty_registry() -> (json: String)
    ensures
        json@ == spec_registry_json(Seq::empty()),
{
    let apps: Vec<App> = Vec::new();
    assert(apps.deep_view() =~= Seq::<SpecApp>::empty());
    registry_json(&apps)
}

/// The application record made for an installed package.
pub open spec fn spec_app_for(package: Seq<char>) -> SpecApp {
    SpecApp {
        package,
        name: spec_fallback_name(package),
        desktop_id: spec_desktop_id(package),
        icon_name: spec_desktop_id(package),
    }
}

/// The record for an installed package.
pub fn app_for(package: &str) -> (app: App)
    ensures
        app.deep_view() == spec_app_for(package@),
{
    let id = desktop_id(package);
    App { package: package.to_owned(), name: fallback_name(package), icon_name: id.clone(), desktop_id: id }
}

pub open spec fn strip_package_prefix(line: Seq<char>) -> Option<Seq<char>> {
    let prefix = "package:"@;
    if prefix.len() <= line.len() && line.take(prefix.len() as int) == prefix {
        Some(line.skip(prefix.len() as int))
    } else {
        None
    }
}

/// The package named by one line of `pm list packages`, when it names one.
pub open spec fn listed_package(line: Seq<char>) -> Option<Seq<char>> {
    match strip_package_prefix(trim(line)) {
        Some(rest) => if trim(rest).len() > 0 {
            Some(trim(rest))
        } else {
            None
        },
        None => None,
    }
}

/// The packages named by the lines, in order.
pub open spec fn listed_packages(lines: Seq<Seq<char>>) -> Seq<Seq<char>>
    decreases lines.len(),
{
    if lines.len() == 0 {
        Seq::empty()
    } else {
        let prev = listed_packages(lines.drop_last());
        match listed_package(lines.last()) {
            Some(p) => prev.push(p),
            None => prev,
        }
    }
}

/// `apps` holds one record for each listed package, ascending by package name.
pub open spec fn registry_apps(apps: Seq<App>, packages: Seq<Seq<char>>) -> bool {
    &&& keys_ascending(apps)
    &&& forall|k: Seq<char>| #[trigger] has_key(apps, k) <==> packages.contains(k)
    &&& forall|i: int| 0 <= i < apps.len() ==> #[trigger] apps[i].deep_view() == spec_app_for(apps[i].package@)
}

fn listed_package_of(line: &Vec<char>) -> (r: Option<String>)
    ensures
        r.deep_view() == listed_package(line@),
{
    let t = trim_chars(line);
    let prefix = chars_of("package:");
    assert(prefix@ == "package:"@);
    if prefix.len() > t.len() {
        return None;
    }
    let mut i: usize = 0;
    while i < prefix.len()
        invariant
            i <= prefix.len() <= t.len(),
            prefix@ == "package:"@,
            t@ == trim(line@),
            forall|j: int| 0 <= j < i ==> t@[j] == prefix@[j],
        decreases prefix.len() - i,
    {
        if t[i] != prefix[i] {
            assert(t@.take(prefix@.len() as int)[i as int] != prefix@[i as int]);
            assert(t@.take(prefix@.len() as int) != prefix@);
            assert(strip_package_prefix(t@) is None);
            return None;
        }
        i = i + 1;
    }
    assert(t@.take(prefix@.len() as int) =~= prefix@);
    let rest = crate::text::copy_range(&t, prefix.len(), t.len());
    assert(rest@ =~= t@.skip(prefix@.len() as int));
    let package = trim_chars(&rest);
    if package.len() == 0 {
        return None;
    }
    Some(crate::text::string_from_chars(package.as_slice()))
}

/// The applications of a `pm list packages` listing: one per `package:` line, sorted by
/// package name, without repetitions.
pub fn apps_from_package_list(output: &str) -> (apps: Vec<App>)
    ensures
        registry_apps(apps@, listed_packages(split_lines(output@))),
{
    let text = chars_of(output);
    let lines = lines_of(&text);
    let ghost ls = lines.deep_view();
    let mut apps: Vec<App> = Vec::new();
    let mut i: usize = 0;
    while i < lines.len()
        invariant
            i <= lines.len(),
            ls == lines.deep_view(),
            ls.len() == lines.len(),
            registry_apps(apps@, listed_packages(ls.take(i as int))),
        decreases lines.len() - i,
    {
        proof {
            lemma_chars_deep_view(&lines@[i as int]);
        }
        assert(ls.take(i + 1).drop_last() =~= ls.take(i as int));
        let ghost prev_apps = apps@;
        let ghost prev = listed_packages(ls.take(i as int));
        match listed_package_of(&lines[i]) {
            Some(package) => {
                let app = app_for(package.as_str());
                let ghost a = app;
                insert_unique(&mut apps, app);
                proof {
                    let next = listed_packages(ls.take(i + 1));
                    assert(next == prev.push(package@));
                    assert forall|k: Seq<char>| #[trigger] has_key(apps@, k) <==> next.contains(k) by {
                        if next.contains(k) {
                            let j = choose|j: int| 0 <= j < next.len() && next[j] == k;
                            if j < prev.len() {
                                assert(prev.contains(k));
                            }
                        }
                        if prev.contains(k) {
                            let j = choose|j: int| 0 <= j < prev.len() && prev[j] == k;
                            assert(next[j] == k);
                        }
                        if k == package@ {
                            assert(next[prev.len() as int] == k);
                        }
                    }
                    assert forall|j: int| 0 <= j < apps@.len() implies #[trigger] apps@[j].deep_view()
                        == spec_app_for(apps@[j].package@) by {
                        if apps@[j] != a {
                            assert(prev_apps.contains(apps@[j]));
                            let m = choose|m: int| 0 <= m < prev_apps.len() && prev_apps[m] == apps@[j];
                            assert(prev_apps[m].deep_view() == spec_app_for(prev_apps[m].package@));
                        }
                    }
                }
            },
            None => {},
        }
        i = i + 1;
    }
    assert(ls.take(ls.len() as int) =~= ls);
    apps
}

// ---------------------------------------------------------------------------
// Leftover desktop entries and icons
// ---------------------------------------------------------------------------

/// `s` ends with `suffix`.
pub open spec fn ends_with(s: Seq<char>, suffix: Seq<char>) -> bool {
    suffix.len() <= s.len() && s.skip(s.len() - suffix.len()) == suffix
}

/// `s` with every trailing repetition of a non-empty `suffix` removed
/// (`str::trim_end_matches`).
pub open spec fn trim_end_matches(s: Seq<char>, suffix: Seq<char>) -> Seq<char>
    decreases s.len(),
{
    if suffix.len() > 0 && ends_with(s, suffix) {
        trim_end_matches(s.take(s.len() - suffix.len()), suffix)
    } else {
        s
    }
}

/// A generated file is left over when it is named `droidianos-…` with the given suffix and
/// its name, without the suffix, is no current desktop ID.
pub open spec fn spec_is_stale(file_name: Seq<char>, suffix: Seq<char>, current: Seq<Seq<char>>) -> bool {
    &&& ends_with(file_name, suffix)
    &&& "droidianos-"@.len() <= file_name.len()
    &&& file_name.take("droidianos-"@.len() as int) == "droidianos-"@
    &&& !current.contains(trim_end_matches(file_name, suffix))
}

fn ends_with_chars(s: &Vec<char>, len: usize, suffix: &Vec<char>) -> (r: bool)
    requires
        len <= s@.len(),
    ensures
        r == ends_with(s@.take(len as int), suffix@),
{
    if suffix.len() > len {
        return false;
    }
    let start = len - suffix.len();
    let mut i: usize = 0;
    while i < suffix.len()
        invariant
            i <= suffix.len(),
            start + suffix.len() == len <= s@.len(),
            forall|j: int| 0 <= j < i ==> s@[start + j] == suffix@[j],
        decreases suffix.len() - i,
    {
        if s[start + i] != suffix[i] {
            assert(s@.take(len as int).skip(start as int)[i as int] != suffix@[i as int]);
            return false;
        }
        i = i + 1;
    }
    assert(s@.take(len as int).skip(start as int) =~= suffix@);
    true
}

/// Whether a file in the applications or icons directory is left over.
pub fn is_stale_file(file_name: &str, suffix: &str, current: &Vec<String>) -> (r: bool)
    ensures
        r == spec_is_stale(file_name@, suffix@, current.deep_view()),
{
    if !crate::text::starts_with(file_name, "droidianos-") {
        return false;
    }
    let name = chars_of(file_name);
    let suf = chars_of(suffix);
    assert(name@.take(name@.len() as int) =~= name@);
    if !ends_with_chars(&name, name.len(), &suf) {
        return false;
    }
    let mut len = name.len();
    while suf.len() > 0 && ends_with_chars(&name, len, &suf)
        invariant
            len <= name@.len(),
            name@ == file_name@,
            suf@ == suffix@,
            trim_end_matches(file_name@, suffix@) == trim_end_matches(name@.take(len as int), suffix@),
        decreases len,
    {
        assert(name@.take(len as int).take(len - suf@.len()) =~= name@.take(len - suf@.len()));
        len = len - suf.len();
    }
    let stem = crate::text::copy_range(&name, 0, len);
    assert(stem@ =~= name@.take(len as int));
    let stem = crate::text::string_from_chars(stem.as_slice());
    assert(trim_end_matches(name@.take(len as int), suffix@) == name@.take(len as int));
    assert(trim_end_matches(file_name@, suffix@) == stem@);
    let ghost cur = current.deep_view();
    let mut i: usize = 0;
    while i < current.len()
        invariant
            i <= current.len(),
            cur == current.deep_view(),
            trim_end_matches(file_name@, suffix@) == stem@,
            forall|j: int| 0 <= j < i ==> cur[j] != stem@,
        decreases current.len() - i,
    {
        if crate::text::text_eq(current[i].as_str(), stem.as_str()) {
            assert(cur[i as int] == stem@);
            return false;
        }
        i = i + 1;
    }
    true
}

/// The files to delete among those listed: the left-over ones, given the applications that
/// are installed now.
pub fn stale_files(file_names: &Vec<String>, suffix: &str, apps: &Vec<App>) -> (stale: Vec<String>)
    ensures
        stale.deep_view() == file_names.deep_view().filter(
            |f: Seq<char>| spec_is_stale(f, suffix@, apps.deep_view().map_values(|a: SpecApp| a.desktop_id)),
        ),
{
    let ghost ids = apps.deep_view().map_values(|a: SpecApp| a.desktop_id);
    let mut current: Vec<String> = Vec::new();
    let mut i: usize = 0;
    while i < apps.len()
        invariant
            i <= apps.len(),
            ids == apps.deep_view().map_values(|a: SpecApp| a.desktop_id),
            current.deep_view() == ids.take(i as int),
        decreases apps.len() - i,
    {
        let ghost before = current.deep_view();
        assert(ids[i as int] == apps@[i as int].deep_view().desktop_id);
        let id = apps[i].desktop_id.clone();
        let ghost idv = id@;
        current.push(id);
        assert(current.deep_view() =~= before.push(idv));
        assert(current.deep_view() =~= ids.take(i + 1));
        i = i + 1;
    }
    assert(ids.take(ids.len() as int) =~= ids);
    let ghost names = file_names.deep_view();
    let ghost pred = |f: Seq<char>| spec_is_stale(f, suffix@, ids);
    let mut stale: Vec<String> = Vec::new();
    let mut k: usize = 0;
    while k < file_names.len()
        invariant
            k <= file_names.len(),
            names == file_names.deep_view(),
            current.deep_view() == ids,
            pred == (|f: Seq<char>| spec_is_stale(f, suffix@, ids)),
            stale.deep_view() == names.take(k as int).filter(pred),
        decreases file_names.len() - k,
    {
        assert(names.take(k + 1).drop_last() =~= names.take(k as int));
        let ghost before = stale.deep_view();
        if is_stale_file(file_names[k].as_str(), suffix, &current) {
            stale.push(file_names[k].clone());
            assert(stale.deep_view() =~= before.push(names[k as int]));
        }
        proof {
            names.take(k as int).lemma_filter_push(names[k as int], pred);
            assert(names.take(k as int).push(names[k as int]) =~= names.take(k + 1));
        }
        k = k + 1;
    }
    assert(names.take(names.len() as int) =~= names);
    stale
}

proof fn lemma_own_file_not_stale(ids: Seq<Seq<char>>, j: int, package: Seq<char>, suffix: Seq<char>)
    requires
        0 <= j < ids.len(),
        ids[j] == spec_desktop_id(package),
        suffix.len() > 0,
        suffix[0] == '.',
    ensures
        !spec_is_stale(ids[j] + suffix, suffix, ids),
{
    let id = ids[j];
    let f = id + suffix;
    reveal_strlit("droidianos-");
    assert(f.skip(f.len() - suffix.len()) =~= suffix);
    assert(f.take(f.len() - suffix.len()) =~= id);
    assert forall|k: int| 0 <= k < id.len() implies id[k] != '.' by {
        if k >= 11 {
            assert(id[k] == id_char(package[k - 11]));
        }
    }
    if ends_with(id, suffix) {
        assert(id.skip(id.len() - suffix.len())[0] == '.');
        assert(id[id.len() - suffix.len()] == '.');
    }
    assert(trim_end_matches(id, suffix) == id);
    assert(trim_end_matches(f, suffix) == id);
    assert(ids[j] == id);
}

/// A refresh never deletes the desktop entry (`<id>.desktop`) or the icon (`<id>.svg`) of
/// an application it lists.
pub proof fn law_refresh_keeps_listed_files(apps: Seq<SpecApp>, j: int)
    requires
        0 <= j < apps.len(),
        forall|k: int| 0 <= k < apps.len() ==> #[trigger] apps[k].desktop_id == spec_desktop_id(
            apps[k].package,
        ),
    ensures
        !spec_is_stale(
            apps[j].desktop_id + ".desktop"@,
            ".desktop"@,
            apps.map_values(|a: SpecApp| a.desktop_id),
        ),
        !spec_is_stale(
            apps[j].desktop_id + ".svg"@,
            ".svg"@,
            apps.map_values(|a: SpecApp| a.desktop_id),
        ),
{
    let ids = apps.map_values(|a: SpecApp| a.desktop_id);
    reveal_strlit(".desktop");
    reveal_strlit(".svg");
    assert(ids[j] == apps[j].desktop_id);
    lemma_own_file_not_stale(ids, j, apps[j].package, ".desktop"@);
    lemma_own_file_not_stale(ids, j, apps[j].package, ".svg"@);
}

} // verus!
