//! The settings application: which Android packages can be chosen, the shared-folder
//! policy document, and the choices offered on each page.

use vstd::prelude::*;
use crate::json::{
    array_pattern, array_scan, chars_between, escape_char, escape_json, first_match,
    lemma_array_scan_split, lemma_first_char_at, lemma_scan_concat, lemma_scan_escaped,
    matches_at, next_object, objects_from, scan_state, spec_array_strings, spec_escape,
    spec_string_field, string_field_in, ScanState,
};
use crate::sorted::{has_key, insert_unique, keys_ascending};
use crate::text::{push_char, push_str, spec_is_control};

verus! {

/// The packages named by the given registry objects, in order.
pub open spec fn packages_of(objects: Seq<Seq<char>>) -> Seq<Seq<char>>
    decreases objects.len(),
{
    if objects.len() == 0 {
        Seq::empty()
    } else {
        let rest = packages_of(objects.drop_first());
        match spec_string_field(objects[0], "package"@) {
            Some(p) => seq![p] + rest,
            None => rest,
        }
    }
}

/// The packages named in a registry document.
pub open spec fn registry_packages(registry: Seq<char>) -> Seq<Seq<char>> {
    packages_of(objects_from(registry, 0))
}

/// The Android packages of the registry, sorted, each once.
pub fn packages_from_registry(registry: &str) -> (packages: Vec<String>)
    ensures
        keys_ascending(packages@),
        forall|k: Seq<char>| #[trigger]
            has_key(packages@, k) <==> registry_packages(registry@).contains(k),
{
    let text = crate::text::chars_of(registry);
    let mut packages: Vec<String> = Vec::new();
    let mut k: usize = 0;
    let ghost mut seen: Seq<Seq<char>> = Seq::empty();
    assert(seen + packages_of(objects_from(text@, 0)) =~= packages_of(objects_from(text@, 0)));
    loop
        invariant
            text@ == registry@,
            registry_packages(registry@) == seen + packages_of(objects_from(text@, k as int)),
            keys_ascending(packages@),
            forall|s: Seq<char>| #[trigger] has_key(packages@, s) <==> seen.contains(s),
        decreases text.len() + 1 - k,
    {
        let (lo, hi) = match next_object(&text, k) {
            Some(bounds) => bounds,
            None => {
                assert(seen + Seq::<Seq<char>>::empty() =~= seen);
                return packages;
            },
        };
        let object = chars_between(&text, lo, hi);
        let ghost rest = objects_from(text@, hi + 1);
        assert((seq![object@] + rest).drop_first() =~= rest);
        match string_field_in(&object, "package") {
            Some(package) => {
                let ghost p = package@;
                let ghost before = seen;
                insert_unique(&mut packages, package);
                proof {
                    seen = before.push(p);
                    assert(before + (seq![p] + packages_of(rest)) =~= seen + packages_of(rest));
                    assert forall|s: Seq<char>| #[trigger] has_key(packages@, s) <==> seen.contains(s) by {
                        if seen.contains(s) && s != p {
                            let j = choose|j: int| 0 <= j < seen.len() && seen[j] == s;
                            assert(before[j] == s);
                        }
                        if before.contains(s) {
                            let j = choose|j: int| 0 <= j < before.len() && before[j] == s;
                            assert(seen[j] == s);
                        }
                        if s == p {
                            assert(seen[before.len() as int] == s);
                        }
                    }
                }
            },
            None => {},
        }
        k = hi + 1;
    }
}

/// The folder list with `folder` added at the end, unless it is listed already.
pub open spec fn with_folder(folders: Seq<Seq<char>>, folder: Seq<char>) -> Seq<Seq<char>> {
    if folders.contains(folder) {
        folders
    } else {
        folders.push(folder)
    }
}

/// Adds a folder to the shared-folder list unless it is listed already.
pub fn add_shared_folder(folders: &mut Vec<String>, folder: String)
    ensures
        final(folders).deep_view() == with_folder(old(folders).deep_view(), folder@),
{
    let ghost before = folders.deep_view();
    let mut i: usize = 0;
    while i < folders.len()
        invariant
            i <= folders.len(),
            before == folders.deep_view(),
            forall|j: int| 0 <= j < i ==> before[j] != folder@,
        decreases folders.len() - i,
    {
        if crate::text::text_eq(folders[i].as_str(), folder.as_str()) {
            assert(before[i as int] == folder@);
            return;
        }
        i = i + 1;
    }
    assert(!before.contains(folder@));
    let ghost fv = folder@;
    folders.push(folder);
    assert(folders.deep_view() =~= before.push(fv));
}

/// One folder as a JSON string.
pub open spec fn folder_json(folder: Seq<char>) -> Seq<char> {
    seq!['"'] + spec_escape(folder) + seq!['"']
}

/// The folders, comma-separated, as JSON strings.
pub open spec fn folders_list_json(folders: Seq<Seq<char>>) -> Seq<char>
    decreases folders.len(),
{
    if folders.len() == 0 {
        Seq::empty()
    } else if folders.len() == 1 {
        folder_json(folders[0])
    } else {
        folders_list_json(folders.drop_last()) + seq![','] + folder_json(folders.last())
    }
}

/// The shared-folder policy document.
pub open spec fn spec_shared_folders_json(folders: Seq<Seq<char>>) -> Seq<char> {
    "{\"folders\":["@ + folders_list_json(folders) + "]}\n"@
}

/// Writes the shared-folder policy document for the folders.
pub fn shared_folders_json(folders: &Vec<String>) -> (json: String)
    ensures
        json@ == spec_shared_folders_json(folders.deep_view()),
{
    let ghost fs = folders.deep_view();
    let mut json = String::new();
    push_str(&mut json, "{\"folders\":[");
    let ghost head = json@;
    let mut i: usize = 0;
    while i < folders.len()
        invariant
            i <= folders.len(),
            fs == folders.deep_view(),
            json@ == head + folders_list_json(fs.take(i as int)),
        decreases folders.len() - i,
    {
        assert(fs.take(i + 1).drop_last() =~= fs.take(i as int));
        if i > 0 {
            push_char(&mut json, ',');
        }
        push_char(&mut json, '"');
        let escaped = escape_json(folders[i].as_str());
        push_str(&mut json, escaped.as_str());
        push_char(&mut json, '"');
        proof {
            let prev = folders_list_json(fs.take(i as int));
            if i == 0 {
                assert(prev =~= Seq::<char>::empty());
                assert(json@ =~= head + folder_json(fs[0]));
            } else {
                assert(json@ =~= head + (prev + seq![','] + folder_json(fs[i as int])));
            }
        }
        i = i + 1;
    }
    assert(fs.take(fs.len() as int) =~= fs);
    push_str(&mut json, "]}\n");
    json
}

/// A page of the settings application.
#[derive(Clone, Copy, Debug, PartialEq, Eq, Structural)]
pub enum SettingsPage {
    Permissions,
    Storage,
    Diagnostics,
    Quit,
    Stay,
}

/// The page a choice of the main menu opens: no choice quits, an unknown one shows the menu
/// again.
pub open spec fn spec_settings_page(choice: Option<Seq<char>>) -> SettingsPage {
    match choice {
        None => SettingsPage::Quit,
        Some(c) => if c == "Application permissions"@ {
            SettingsPage::Permissions
        } else if c == "Storage and shared folders"@ {
            SettingsPage::Storage
        } else if c == "Diagnostics"@ {
            SettingsPage::Diagnostics
        } else if c == "Quit"@ {
            SettingsPage::Quit
        } else {
            SettingsPage::Stay
        },
    }
}

/// The page a choice of the main menu opens.
pub fn settings_page(choice: Option<&str>) -> (page: SettingsPage)
    ensures
        page == spec_settings_page(
            match choice {
                Some(c) => Some(c@),
                None => None,
            },
        ),
{
    match choice {
        None => SettingsPage::Quit,
        Some(c) => if crate::text::text_eq(c, "Application permissions") {
            SettingsPage::Permissions
        } else if crate::text::text_eq(c, "Storage and shared folders") {
            SettingsPage::Storage
        } else if crate::text::text_eq(c, "Diagnostics") {
            SettingsPage::Diagnostics
        } else if crate::text::text_eq(c, "Quit") {
            SettingsPage::Quit
        } else {
            SettingsPage::Stay
        },
    }
}

/// The section of the diagnostics report for one command: a heading with its label, then
/// what it printed on standard output and standard error, or why it could not be run.
pub open spec fn spec_diagnostics_section(
    label: Seq<char>,
    outcome: Result<(Seq<char>, Seq<char>), Seq<char>>,
) -> Seq<char> {
    "## "@ + label + "\n"@ + match outcome {
        Ok((stdout, stderr)) => stdout + stderr,
        Err(error) => error + "\n"@,
    } + "\n"@
}

/// The sections of the report, in order.
pub open spec fn diagnostics_sections(
    runs: Seq<(Seq<char>, Result<(Seq<char>, Seq<char>), Seq<char>>)>,
) -> Seq<char>
    decreases runs.len(),
{
    if runs.len() == 0 {
        Seq::empty()
    } else {
        diagnostics_sections(runs.drop_last()) + spec_diagnostics_section(
            runs.last().0,
            runs.last().1,
        )
    }
}

/// A command's outcome as text.
pub open spec fn outcome_view(outcome: Result<(String, String), String>) -> Result<
    (Seq<char>, Seq<char>),
    Seq<char>,
> {
    match outcome {
        Ok((stdout, stderr)) => Ok((stdout@, stderr@)),
        Err(error) => Err(error@),
    }
}

/// The labels and outcomes as text.
pub open spec fn runs_view(runs: Seq<(String, Result<(String, String), String>)>) -> Seq<
    (Seq<char>, Result<(Seq<char>, Seq<char>), Seq<char>>),
> {
    runs.map_values(|r: (String, Result<(String, String), String>)| (r.0@, outcome_view(r.1)))
}

/// The diagnostics report: a title, then one section per command run.
pub open spec fn spec_diagnostics_report(
    runs: Seq<(Seq<char>, Result<(Seq<char>, Seq<char>), Seq<char>>)>,
) -> Seq<char> {
    "droidianOS diagnostics\n\n"@ + diagnostics_sections(runs)
}

/// Writes the diagnostics report from the commands' labels and outcomes.
pub fn diagnostics_report(runs: &Vec<(String, Result<(String, String), String>)>) -> (report: String)
    ensures
        report@ == spec_diagnostics_report(runs_view(runs@)),
{
    let ghost rs = runs_view(runs@);
    let mut report = String::new();
    push_str(&mut report, "droidianOS diagnostics\n\n");
    let ghost head = report@;
    let mut i: usize = 0;
    while i < runs.len()
        invariant
            i <= runs.len(),
            rs == runs_view(runs@),
            report@ == head + diagnostics_sections(rs.take(i as int)),
        decreases runs.len() - i,
    {
        assert(rs.take(i + 1).drop_last() =~= rs.take(i as int));
        let ghost before = report@;
        let (label, outcome) = &runs[i];
        push_str(&mut report, "## ");
        push_str(&mut report, label.as_str());
        push_char(&mut report, '\n');
        match outcome {
            Ok((stdout, stderr)) => {
                push_str(&mut report, stdout.as_str());
                push_str(&mut report, stderr.as_str());
            },
            Err(error) => {
                push_str(&mut report, error.as_str());
                push_char(&mut report, '\n');
            },
        }
        push_char(&mut report, '\n');
        proof {
            reveal_strlit("\n");
        }
        assert(rs[i as int] == (label@, outcome_view(*outcome)));
        assert(report@ =~= before + spec_diagnostics_section(label@, outcome_view(*outcome)));
        i = i + 1;
    }
    assert(rs.take(rs.len() as int) =~= rs);
    report
}

/// A folder name the policy document gives back as written: no control character (which
/// would come back as the letter of its escape) and no `]` (which would end the list).
pub open spec fn plain_folder(f: Seq<char>) -> bool {
    forall|k: int| 0 <= k < f.len() ==> !spec_is_control(#[trigger] f[k]) && f[k] != ']'
}

proof fn lemma_scan_folder(f: Seq<char>, value: Seq<char>, values: Seq<Seq<char>>)
    requires
        plain_folder(f),
    ensures
        scan_state(folder_json(f), (false, false, value, values)) == (
            false,
            false,
            f,
            values.push(f),
        ),
{
    let st: ScanState = (false, false, value, values);
    let open_q = seq!['"'];
    lemma_scan_concat(open_q + spec_escape(f), seq!['"'], st);
    lemma_scan_concat(open_q, spec_escape(f), st);
    assert(open_q.drop_last() =~= Seq::<char>::empty());
    assert(scan_state(open_q.drop_last(), st) == st);
    assert(scan_state(open_q, st) == crate::json::scan_step(st, '"'));
    assert(scan_state(open_q, st) == (true, false, Seq::<char>::empty(), values));
    lemma_scan_escaped(f, Seq::<char>::empty(), values);
    assert(Seq::<char>::empty() + f =~= f);
    let inner: ScanState = (true, false, f, values);
    assert(seq!['"'].drop_last() =~= Seq::<char>::empty());
    assert(scan_state(seq!['"'].drop_last(), inner) == inner);
    assert(scan_state(seq!['"'], inner) == crate::json::scan_step(inner, '"'));
    assert(scan_state(seq!['"'], inner) == (false, false, f, values.push(f)));
}

proof fn lemma_scan_folders(fs: Seq<Seq<char>>, value: Seq<char>, values: Seq<Seq<char>>)
    requires
        forall|i: int| 0 <= i < fs.len() ==> plain_folder(#[trigger] fs[i]),
    ensures
        ({
            let r = scan_state(folders_list_json(fs), (false, false, value, values));
            !r.0 && !r.1 && r.3 == values + fs
        }),
    decreases fs.len(),
{
    if fs.len() == 0 {
        assert(values + fs =~= values);
    } else if fs.len() == 1 {
        assert(plain_folder(fs[0]));
        lemma_scan_folder(fs[0], value, values);
        assert(values.push(fs[0]) =~= values + fs);
    } else {
        let prev = fs.drop_last();
        assert forall|i: int| 0 <= i < prev.len() implies plain_folder(#[trigger] prev[i]) by {
            assert(prev[i] == fs[i]);
        }
        lemma_scan_folders(prev, value, values);
        let st: ScanState = (false, false, value, values);
        let a = folders_list_json(prev);
        let mid = scan_state(a, st);
        lemma_scan_concat(a + seq![','], folder_json(fs.last()), st);
        lemma_scan_concat(a, seq![','], st);
        assert(seq![','].drop_last() =~= Seq::<char>::empty());
        assert(scan_state(seq![','].drop_last(), mid) == mid);
        assert(scan_state(seq![','], mid) == crate::json::scan_step(mid, ','));
        assert(scan_state(seq![','], mid) == (false, false, mid.2, mid.3));
        assert(plain_folder(fs[fs.len() - 1]));
        lemma_scan_folder(fs.last(), mid.2, mid.3);
        assert((values + prev).push(fs.last()) =~= values + fs);
    }
}

proof fn lemma_escape_no_bracket(v: Seq<char>)
    requires
        forall|k: int| 0 <= k < v.len() ==> #[trigger] v[k] != ']',
    ensures
        forall|k: int| 0 <= k < spec_escape(v).len() ==> #[trigger] spec_escape(v)[k] != ']',
    decreases v.len(),
{
    if v.len() > 0 {
        let w = v.drop_last();
        assert forall|k: int| 0 <= k < w.len() implies #[trigger] w[k] != ']' by {
            assert(w[k] == v[k]);
        }
        lemma_escape_no_bracket(w);
        let e = escape_char(v.last());
        assert(v[v.len() - 1] != ']');
        assert forall|k: int| 0 <= k < e.len() implies #[trigger] e[k] != ']' by {
            let u = (v.last() as u32) as int;
            if 0 <= u / 16 < 16 {
                assert(crate::text::hex_digit(u / 16) != ']');
            }
            assert(crate::text::hex_digit(u % 16) != ']');
        }
        assert forall|k: int| 0 <= k < spec_escape(v).len() implies #[trigger] spec_escape(v)[k]
            != ']' by {
            let a = spec_escape(w);
            if k >= a.len() {
                assert(spec_escape(v)[k] == e[k - a.len()]);
            } else {
                assert(spec_escape(v)[k] == a[k]);
            }
        }
    }
}

proof fn lemma_list_no_bracket(fs: Seq<Seq<char>>)
    requires
        forall|i: int| 0 <= i < fs.len() ==> plain_folder(#[trigger] fs[i]),
    ensures
        forall|k: int| 0 <= k < folders_list_json(fs).len() ==> #[trigger] folders_list_json(fs)[k]
            != ']',
    decreases fs.len(),
{
    if fs.len() > 0 {
        let f = fs.last();
        assert(plain_folder(fs[fs.len() - 1]));
        assert forall|k: int| 0 <= k < f.len() implies #[trigger] f[k] != ']' by {}
        lemma_escape_no_bracket(f);
        let fj = folder_json(f);
        assert forall|k: int| 0 <= k < fj.len() implies #[trigger] fj[k] != ']' by {
            if 1 <= k < fj.len() - 1 {
                assert(fj[k] == spec_escape(f)[k - 1]);
            }
        }
        if fs.len() > 1 {
            let prev = fs.drop_last();
            assert forall|i: int| 0 <= i < prev.len() implies plain_folder(#[trigger] prev[i]) by {
                assert(prev[i] == fs[i]);
            }
            lemma_list_no_bracket(prev);
            let l = folders_list_json(fs);
            let a = folders_list_json(prev);
            assert forall|k: int| 0 <= k < l.len() implies #[trigger] l[k] != ']' by {
                if k < a.len() {
                    assert(l[k] == a[k]);
                } else if k > a.len() {
                    assert(l[k] == fj[k - a.len() - 1]);
                }
            }
        }
    }
}

/// Reading the shared-folder document back gives the folders that were written, for folder
/// names without control characters or `]`.
pub proof fn law_shared_folders_read_back(fs: Seq<Seq<char>>)
    requires
        forall|i: int| 0 <= i < fs.len() ==> plain_folder(#[trigger] fs[i]),
    ensures
        spec_array_strings(spec_shared_folders_json(fs), "folders"@) == fs,
{
    reveal_strlit("{\"folders\":[");
    reveal_strlit("]}\n");
    reveal_strlit("folders");
    let head = "{\"folders\":["@;
    let list = folders_list_json(fs);
    let doc = spec_shared_folders_json(fs);
    let pat = array_pattern("folders"@);
    assert(head.len() == 12);
    assert(pat.len() == 11);
    assert(doc.subrange(1, 12) =~= pat);
    assert(matches_at(doc, pat, 1));
    assert(!matches_at(doc, pat, 0)) by {
        assert(doc[0] == '{');
        assert(doc.subrange(0, 11)[0] == '{');
    }
    assert(first_match(doc, pat, 1) == Some(1int));
    assert(first_match(doc, pat, 0) == Some(1int));
    let end: int = 12 + list.len() as int;
    lemma_list_no_bracket(fs);
    assert(doc[end] == ']');
    assert forall|j: int| 12 <= j < end implies doc[j] != ']' by {
        assert(doc[j] == list[j - 12]);
    }
    lemma_first_char_at(doc, ']', 12, end);
    let st: ScanState = (false, false, Seq::empty(), Seq::empty());
    lemma_array_scan_split(doc, 12, end, end, st);
    assert(doc.subrange(12, end) =~= list);
    lemma_scan_folders(fs, Seq::empty(), Seq::empty());
    assert(Seq::<Seq<char>>::empty() + fs =~= fs);
}

/// Adding a folder that is listed already changes nothing: adding the same folder twice
/// gives the list that adding it once gives, and the folder is listed afterwards.
pub proof fn law_add_shared_folder_idempotent(folders: Seq<Seq<char>>, folder: Seq<char>)
    ensures
        with_folder(folders, folder).contains(folder),
        with_folder(with_folder(folders, folder), folder) == with_folder(folders, folder),
{
    if !folders.contains(folder) {
        assert(folders.push(folder)[folders.len() as int] == folder);
    }
}

} // verus!
