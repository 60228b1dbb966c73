//! Available updates: reading what APT and Flatpak report, and the JSON list
//! the update service answers with.

use vstd::prelude::*;
use crate::json::{
    escape_json, find_char, first_char, join_comma, lemma_first_char_bounds, lemma_join_push,
    spec_escape,
};
use crate::text::{
    chars_of, copy_range, lemma_chars_deep_view, lines_of, push_char, push_str, split_lines,
    starts_with, string_from_chars, words, words_of,
};

verus! {

/// One package or application with a newer version available.
#[derive(Debug)]
pub struct UpdateItem {
    pub id: String,
    pub name: String,
    pub source: String,
    pub current_version: String,
    pub new_version: String,
}

pub struct SpecUpdate {
    pub id: Seq<char>,
    pub name: Seq<char>,
    pub source: Seq<char>,
    pub current_version: Seq<char>,
    pub new_version: Seq<char>,
}

impl DeepView for UpdateItem {
    type V = SpecUpdate;

    open spec fn deep_view(&self) -> SpecUpdate {
        SpecUpdate {
            id: self.id@,
            name: self.name@,
            source: self.source@,
            current_version: self.current_version@,
            new_version: self.new_version@,
        }
    }
}

/// The part of `s` before the first `c` (all of `s` when there is none).
pub open spec fn before_char(s: Seq<char>, c: char) -> Seq<char> {
    match first_char(s, c, 0) {
        Some(i) => s.take(i),
        None => s,
    }
}

/// The characters before the first `c`.
pub fn before_char_of(s: &Vec<char>, c: char) -> (r: Vec<char>)
    ensures
        r@ == before_char(s@, c),
{
    proof {
        lemma_first_char_bounds(s@, c, 0);
    }
    match find_char(s, c, 0) {
        Some(i) => {
            let r = copy_range(s, 0, i);
            assert(r@ =~= s@.take(i as int));
            r
        },
        None => {
            let r = copy_range(s, 0, s.len());
            assert(r@ =~= s@);
            r
        },
    }
}

fn update_item(id_prefix: &str, name: &Vec<char>, source: &str, new_version: &Vec<char>) -> (u: UpdateItem)
    ensures
        u.deep_view() == (SpecUpdate {
            id: id_prefix@ + name@,
            name: name@,
            source: source@,
            current_version: Seq::empty(),
            new_version: new_version@,
        }),
{
    let mut id = String::new();
    push_str(&mut id, id_prefix);
    let n = string_from_chars(name.as_slice());
    push_str(&mut id, n.as_str());
    UpdateItem {
        id,
        name: n,
        source: source.to_owned(),
        current_version: String::new(),
        new_version: string_from_chars(new_version.as_slice()),
    }
}

/// The update an `apt list --upgradable` line announces, if any: the package before the
/// first `/` of the first word, the new version as the second word.
pub open spec fn apt_line_update(line: Seq<char>) -> Option<SpecUpdate> {
    let listing = "Listing"@;
    if (listing.len() <= line.len() && line.take(listing.len() as int) == listing) || first_char(
        line,
        '/',
        0,
    ) is None || words(line).len() == 0 {
        None
    } else {
        let package = before_char(words(line)[0], '/');
        Some(
            SpecUpdate {
                id: "apt:"@ + package,
                name: package,
                source: "apt"@,
                current_version: Seq::empty(),
                new_version: if words(line).len() > 1 {
                    words(line)[1]
                } else {
                    Seq::empty()
                },
            },
        )
    }
}

/// The update a `flatpak remote-ls --updates` line announces, if any: application and
/// version are its first two tab-separated fields.
pub open spec fn flatpak_line_update(line: Seq<char>) -> Option<SpecUpdate> {
    let app = before_char(line, '\t');
    if app.len() == 0 {
        None
    } else {
        Some(
            SpecUpdate {
                id: "flatpak:"@ + app,
                name: app,
                source: "flatpak"@,
                current_version: Seq::empty(),
                new_version: match first_char(line, '\t', 0) {
                    Some(i) => before_char(line.skip(i + 1), '\t'),
                    None => Seq::empty(),
                },
            },
        )
    }
}

/// The updates the lines announce, in order (`apt` when `apt` holds, else Flatpak).
pub open spec fn line_updates(lines: Seq<Seq<char>>, apt: bool) -> Seq<SpecUpdate>
    decreases lines.len(),
{
    if lines.len() == 0 {
        Seq::empty()
    } else {
        let prev = line_updates(lines.drop_last(), apt);
        match if apt {
            apt_line_update(lines.last())
        } else {
            flatpak_line_update(lines.last())
        } {
            Some(u) => prev.push(u),
            None => prev,
        }
    }
}

fn apt_line(line: &Vec<char>) -> (r: Option<UpdateItem>)
    ensures
        r.deep_view() == apt_line_update(line@),
{
    let s = string_from_chars(line.as_slice());
    proof {
        lemma_first_char_bounds(line@, '/', 0);
    }
    if starts_with(s.as_str(), "Listing") || find_char(line, '/', 0).is_none() {
        return None;
    }
    let ws = words_of(line);
    if ws.len() == 0 {
        return None;
    }
    proof {
        lemma_chars_deep_view(&ws@[0]);
    }
    let package = before_char_of(&ws[0], '/');
    let new_version = if ws.len() > 1 {
        proof {
            lemma_chars_deep_view(&ws@[1]);
        }
        copy_range(&ws[1], 0, ws[1].len())
    } else {
        Vec::new()
    };
    proof {
        if ws.len() > 1 {
            assert(new_version@ =~= words(line@)[1]);
        } else {
            assert(new_version@ =~= Seq::<char>::empty());
        }
    }
    Some(update_item("apt:", &package, "apt", &new_version))
}

fn flatpak_line(line: &Vec<char>) -> (r: Option<UpdateItem>)
    ensures
        r.deep_view() == flatpak_line_update(line@),
{
    let app = before_char_of(line, '\t');
    if app.len() == 0 {
        return None;
    }
    proof {
        lemma_first_char_bounds(line@, '\t', 0);
    }
    let version = match find_char(line, '\t', 0) {
        Some(i) => {
            let rest = copy_range(line, i + 1, line.len());
            assert(rest@ =~= line@.skip(i + 1));
            before_char_of(&rest, '\t')
        },
        None => Vec::new(),
    };
    proof {
        if first_char(line@, '\t', 0) is None {
            assert(version@ =~= Seq::<char>::empty());
        }
    }
    Some(update_item("flatpak:", &app, "flatpak", &version))
}

fn updates_from_lines(output: &str, apt: bool) -> (updates: Vec<UpdateItem>)
    ensures
        updates.deep_view() == line_updates(split_lines(output@), apt),
{
    let text = chars_of(output);
    let lines = lines_of(&text);
    let ghost ls = lines.deep_view();
    let mut updates: Vec<UpdateItem> = Vec::new();
    let mut i: usize = 0;
    assert(updates.deep_view() =~= Seq::<SpecUpdate>::empty());
    while i < lines.len()
        invariant
            i <= lines.len(),
            ls == lines.deep_view(),
            ls.len() == lines.len(),
            updates.deep_view() == line_updates(ls.take(i as int), apt),
        decreases lines.len() - i,
    {
        proof {
            lemma_chars_deep_view(&lines@[i as int]);
        }
        assert(ls.take(i + 1).drop_last() =~= ls.take(i as int));
        let item = if apt {
            apt_line(&lines[i])
        } else {
            flatpak_line(&lines[i])
        };
        if let Some(u) = item {
            let ghost before = updates.deep_view();
            updates.push(u);
            assert(updates.deep_view() =~= before.push(updates@.last().deep_view()));
        }
        i = i + 1;
    }
    assert(ls.take(ls.len() as int) =~= ls);
    updates
}

/// The APT updates listed by `apt list --upgradable`.
pub fn apt_updates_from_list(output: &str) -> (updates: Vec<UpdateItem>)
    ensures
        updates.deep_view() == line_updates(split_lines(output@), true),
{
    updates_from_lines(output, true)
}

/// The Flatpak updates listed by `flatpak remote-ls --updates --columns=application,version`.
pub fn flatpak_updates_from_list(output: &str) -> (updates: Vec<UpdateItem>)
    ensures
        updates.deep_view() == line_updates(split_lines(output@), false),
{
    updates_from_lines(output, false)
}

/// Updates of the Android system image; their discovery is not implemented, so none.
pub fn android_image_updates() -> (updates: Vec<UpdateItem>)
    ensures
        updates@.len() == 0,
{
    Vec::new()
}

/// All available updates: APT first, then Flatpak, then the Android image.
pub fn collect_updates(apt_output: &str, flatpak_output: &str) -> (updates: Vec<UpdateItem>)
    ensures
        updates.deep_view() == line_updates(split_lines(apt_output@), true) + line_updates(
            split_lines(flatpak_output@),
            false,
        ),
{
    let mut updates = apt_updates_from_list(apt_output);
    let mut flatpak = flatpak_updates_from_list(flatpak_output);
    let ghost a = updates.deep_view();
    let ghost b = flatpak.deep_view();
    updates.append(&mut flatpak);
    let mut android = android_image_updates();
    updates.append(&mut android);
    assert(updates.deep_view() =~= a + b);
    updates
}

/// One update in the service's list.
pub open spec fn update_json(u: SpecUpdate) -> Seq<char> {
    "{\"id\":\""@ + spec_escape(u.id) + "\",\"name\":\""@ + spec_escape(u.name)
        + "\",\"source\":\""@ + spec_escape(u.source) + "\",\"current_version\":\""@ + spec_escape(
        u.current_version,
    ) + "\",\"new_version\":\""@ + spec_escape(u.new_version) + "\"}"@
}

pub open spec fn update_json_parts(us: Seq<SpecUpdate>) -> Seq<Seq<char>> {
    us.map_values(|u: SpecUpdate| update_json(u))
}

/// The answer to `ListUpdates`.
pub open spec fn spec_updates_json(us: Seq<SpecUpdate>) -> Seq<char> {
    "{\"updates\":["@ + join_comma(update_json_parts(us)) + "]}"@
}

fn push_update_json(json: &mut String, u: &UpdateItem)
    ensures
        final(json)@ == old(json)@ + update_json(u.deep_view()),
{
    push_str(json, "{\"id\":\"");
    let a = escape_json(u.id.as_str());
    push_str(json, a.as_str());
    push_str(json, "\",\"name\":\"");
    let b = escape_json(u.name.as_str());
    push_str(json, b.as_str());
    push_str(json, "\",\"source\":\"");
    let c = escape_json(u.source.as_str());
    push_str(json, c.as_str());
    push_str(json, "\",\"current_version\":\"");
    let d = escape_json(u.current_version.as_str());
    push_str(json, d.as_str());
    push_str(json, "\",\"new_version\":\"");
    let e = escape_json(u.new_version.as_str());
    push_str(json, e.as_str());
    push_str(json, "\"}");
}

/// The list of available updates as JSON.
pub fn updates_json(updates: &Vec<UpdateItem>) -> (json: String)
    ensures
        json@ == spec_updates_json(updates.deep_view()),
{
    let ghost us = updates.deep_view();
    let mut json = String::new();
    push_str(&mut json, "{\"updates\":[");
    let ghost head = json@;
    let mut i: usize = 0;
    assert(update_json_parts(us.take(0)) =~= Seq::<Seq<char>>::empty());
    while i < updates.len()
        invariant
            i <= updates.len(),
            us == updates.deep_view(),
            us.len() == updates.len(),
            json@ == head + join_comma(update_json_parts(us.take(i as int))),
        decreases updates.len() - i,
    {
        let u = &updates[i];
        assert(us[i as int] == u.deep_view());
        let ghost before = update_json_parts(us.take(i as int));
        if i > 0 {
            push_char(&mut json, ',');
        }
        push_update_json(&mut json, u);
        proof {
            lemma_join_push(before, update_json(us[i as int]));
            assert(update_json_parts(us.take(i + 1)) =~= before.push(update_json(us[i as int])));
        }
        i = i + 1;
    }
    assert(us.take(us.len() as int) =~= us);
    push_str(&mut json, "]}");
    json
}

// ---------------------------------------------------------------------------
// Checking and applying updates
// ---------------------------------------------------------------------------

/// What happened at the last step of a check or of an update run.
#[derive(Clone, Copy, Debug, PartialEq, Eq, Structural)]
pub enum UpdateEvent {
    /// `CheckUpdates` arrived.
    CheckRequested,
    /// The available updates were collected.
    Checked,
    /// `ApplyUpdates` arrived.
    ApplyRequested,
    /// The run was announced; the system packages come first.
    ApplyBegun,
    /// The system package upgrade could not be started.
    AptFailedToRun,
    /// The system package upgrade ran; whether it succeeded.
    AptFinished { success: bool },
    /// The Flatpak update could not be started (which is not an error).
    FlatpakFailedToRun,
    /// The Flatpak update ran; whether it succeeded.
    FlatpakFinished { success: bool },
    /// The application support image upgrade ran (its outcome is not checked).
    ImageUpgraded,
}

/// What the update service does next.
#[derive(Clone, Copy, Debug, PartialEq, Eq, Structural)]
pub enum UpdateAction {
    CollectUpdates,
    /// Announce that the list changed and answer with the transaction.
    ReportChecked,
    /// Go on with the run (`ApplyBegun`).
    BeginApply,
    RunApt,
    RunFlatpak,
    RunImageUpgrade,
    /// Forget the listed updates, announce the change and answer with the transaction.
    ReportApplied,
    /// Answer with the error.
    Fail,
}

/// A progress record of the update service, the next action, and the error to answer with
/// when the service itself words it.
#[derive(Clone, Copy, Debug)]
pub struct UpdateStep {
    pub kind: &'static str,
    pub state: &'static str,
    pub percent: u32,
    pub message: &'static str,
    pub action: UpdateAction,
    pub error: Option<&'static str>,
}

pub open spec fn update_step_has(
    step: UpdateStep,
    kind: Seq<char>,
    state: Seq<char>,
    percent: u32,
    message: Seq<char>,
    action: UpdateAction,
) -> bool {
    step.kind@ == kind && step.state@ == state && step.percent == percent && step.message@ == message
        && step.action == action
}

/// The progression of a check or of an update run from one event to the next.
pub open spec fn update_step_is(event: UpdateEvent, step: UpdateStep) -> bool {
    match event {
        UpdateEvent::CheckRequested => update_step_has(step, "check"@, "running"@, 10, "Checking updates"@, UpdateAction::CollectUpdates) && step.error is None,
        UpdateEvent::Checked => update_step_has(step, "check"@, "complete"@, 100, "Update check complete"@, UpdateAction::ReportChecked) && step.error is None,
        UpdateEvent::ApplyRequested => update_step_has(step, "apply"@, "running"@, 5, "Applying updates"@, UpdateAction::BeginApply) && step.error is None,
        UpdateEvent::ApplyBegun => update_step_has(step, "apply"@, "running"@, 20, "Updating system packages"@, UpdateAction::RunApt) && step.error is None,
        UpdateEvent::AptFailedToRun => update_step_has(step, "apply"@, "failed"@, 100, "Update failed"@, UpdateAction::Fail) && step.error is None,
        UpdateEvent::AptFinished { success } => if success {
            update_step_has(step, "apply"@, "running"@, 60, "Updating Flatpak applications"@, UpdateAction::RunFlatpak) && step.error is None
        } else {
            update_step_has(step, "apply"@, "failed"@, 100, "Update failed"@, UpdateAction::Fail)
                && (step.error matches Some(e) && e@ == "APT update failed"@)
        },
        UpdateEvent::FlatpakFinished { success: false } => update_step_has(step, "apply"@, "failed"@, 100, "Update failed"@, UpdateAction::Fail)
            && (step.error matches Some(e) && e@ == "Flatpak update failed"@),
        UpdateEvent::FlatpakFinished { success: true } | UpdateEvent::FlatpakFailedToRun => update_step_has(step, "apply"@, "running"@, 85, "Updating application support image"@, UpdateAction::RunImageUpgrade) && step.error is None,
        UpdateEvent::ImageUpgraded => update_step_has(step, "apply"@, "complete"@, 100, "Updates applied"@, UpdateAction::ReportApplied) && step.error is None,
    }
}

fn update_step_of(
    kind: &'static str,
    state: &'static str,
    percent: u32,
    message: &'static str,
    action: UpdateAction,
) -> (step: UpdateStep)
    ensures
        update_step_has(step, kind@, state@, percent, message@, action),
        step.error is None,
{
    UpdateStep { kind, state, percent, message, action, error: None }
}

/// The next step of a check or of an update run after `event`.
pub fn update_step(event: UpdateEvent) -> (step: UpdateStep)
    ensures
        update_step_is(event, step),
{
    match event {
        UpdateEvent::CheckRequested => update_step_of("check", "running", 10, "Checking updates", UpdateAction::CollectUpdates),
        UpdateEvent::Checked => update_step_of("check", "complete", 100, "Update check complete", UpdateAction::ReportChecked),
        UpdateEvent::ApplyRequested => update_step_of("apply", "running", 5, "Applying updates", UpdateAction::BeginApply),
        UpdateEvent::ApplyBegun => update_step_of("apply", "running", 20, "Updating system packages", UpdateAction::RunApt),
        UpdateEvent::AptFailedToRun => update_step_of("apply", "failed", 100, "Update failed", UpdateAction::Fail),
        UpdateEvent::AptFinished { success } => if success {
            update_step_of("apply", "running", 60, "Updating Flatpak applications", UpdateAction::RunFlatpak)
        } else {
            let mut step = update_step_of("apply", "failed", 100, "Update failed", UpdateAction::Fail);
            step.error = Some("APT update failed");
            step
        },
        UpdateEvent::FlatpakFinished { success } => if success {
            update_step_of("apply", "running", 85, "Updating application support image", UpdateAction::RunImageUpgrade)
        } else {
            let mut step = update_step_of("apply", "failed", 100, "Update failed", UpdateAction::Fail);
            step.error = Some("Flatpak update failed");
            step
        },
        UpdateEvent::FlatpakFailedToRun => update_step_of("apply", "running", 85, "Updating application support image", UpdateAction::RunImageUpgrade),
        UpdateEvent::ImageUpgraded => update_step_of("apply", "complete", 100, "Updates applied", UpdateAction::ReportApplied),
    }
}

} // verus!
