//! Per-application permission policy: the stored list, its JSON file format,
//! the answer to `ListPermissions`, and what `SetPermission` changes.

use vstd::prelude::*;
use crate::error::{Error, ErrorKind};
use crate::json::{
    chars_between, escape_json, join_comma, lemma_join_push, next_object, objects_from,
    spec_escape, spec_string_field, string_field_in,
};
use crate::text::{chars_of, push_char, push_str, starts_with, text_eq};

verus! {

/// The state a user chose for one permission of one package.
#[derive(Debug)]
pub struct PermissionPolicy {
    pub package: String,
    pub permission: String,
    pub state: String,
}

pub struct SpecPolicy {
    pub package: Seq<char>,
    pub permission: Seq<char>,
    pub state: Seq<char>,
}

impl DeepView for PermissionPolicy {
    type V = SpecPolicy;

    open spec fn deep_view(&self) -> SpecPolicy {
        SpecPolicy { package: self.package@, permission: self.permission@, state: self.state@ }
    }
}

fn clone_policy(p: &PermissionPolicy) -> (r: PermissionPolicy)
    ensures
        r.deep_view() == p.deep_view(),
{
    PermissionPolicy {
        package: p.package.clone(),
        permission: p.permission.clone(),
        state: p.state.clone(),
    }
}

pub open spec fn is_valid_state(state: Seq<char>) -> bool {
    state == "allowed"@ || state == "denied"@ || state == "default"@
}

/// Accepts `allowed`, `denied` and `default`.
pub fn validate_state(state: &str) -> (r: Result<(), Error>)
    ensures
        r is Ok <==> is_valid_state(state@),
        r matches Err(e) ==> e.kind == ErrorKind::InvalidInput && e.message@
            == "permission state must be allowed, denied, or default"@,
{
    if text_eq(state, "allowed") || text_eq(state, "denied") || text_eq(state, "default") {
        Ok(())
    } else {
        Err(Error::new(ErrorKind::InvalidInput, "permission state must be allowed, denied, or default"))
    }
}

/// `ps` without the entries for `package`'s `permission`, in order.
pub open spec fn without_policy(ps: Seq<SpecPolicy>, package: Seq<char>, permission: Seq<char>) -> Seq<
    SpecPolicy,
>
    decreases ps.len(),
{
    if ps.len() == 0 {
        Seq::empty()
    } else {
        let prev = without_policy(ps.drop_last(), package, permission);
        if ps.last().package == package && ps.last().permission == permission {
            prev
        } else {
            prev.push(ps.last())
        }
    }
}

/// The policy list after recording `state` for `package`'s `permission`.
pub open spec fn updated_policies(
    ps: Seq<SpecPolicy>,
    package: Seq<char>,
    permission: Seq<char>,
    state: Seq<char>,
) -> Seq<SpecPolicy> {
    without_policy(ps, package, permission).push(
        SpecPolicy { package, permission, state },
    )
}

/// Records a permission state: an invalid state is refused and leaves the list as it was;
/// otherwise earlier entries for the same package and permission give way to the new one,
/// which goes last.
pub fn set_permission(
    policies: &mut Vec<PermissionPolicy>,
    package: &str,
    permission: &str,
    state: &str,
) -> (r: Result<(), Error>)
    ensures
        r is Ok <==> is_valid_state(state@),
        r matches Err(e) ==> e.kind == ErrorKind::InvalidInput && e.message@
            == "permission state must be allowed, denied, or default"@,
        r is Ok ==> final(policies).deep_view() == updated_policies(
            old(policies).deep_view(),
            package@,
            permission@,
            state@,
        ),
        r is Err ==> final(policies).deep_view() == old(policies).deep_view(),
{
    if let Err(e) = validate_state(state) {
        return Err(e);
    }
    let ghost old_ps = policies.deep_view();
    let mut kept: Vec<PermissionPolicy> = Vec::new();
    let mut i: usize = 0;
    assert(kept.deep_view() =~= Seq::<SpecPolicy>::empty());
    while i < policies.len()
        invariant
            i <= policies.len(),
            old_ps == policies.deep_view(),
            old_ps.len() == policies.len(),
            kept.deep_view() == without_policy(old_ps.take(i as int), package@, permission@),
        decreases policies.len() - i,
    {
        let policy = &policies[i];
        assert(old_ps[i as int] == policy.deep_view());
        assert(old_ps.take(i + 1).drop_last() =~= old_ps.take(i as int));
        if !(text_eq(policy.package.as_str(), package) && text_eq(policy.permission.as_str(), permission)) {
            let ghost before = kept.deep_view();
            kept.push(clone_policy(policy));
            assert(kept.deep_view() =~= before.push(old_ps[i as int]));
        }
        i = i + 1;
    }
    assert(old_ps.take(old_ps.len() as int) =~= old_ps);
    let ghost before = kept.deep_view();
    kept.push(
        PermissionPolicy {
            package: package.to_owned(),
            permission: permission.to_owned(),
            state: state.to_owned(),
        },
    );
    assert(kept.deep_view() =~= before.push(SpecPolicy { package: package@, permission: permission@, state: state@ }));
    *policies = kept;
    Ok(())
}

/// What the service runs in Android for a stored state: `grant` for `allowed`, `revoke` for
/// `denied`, nothing for `default` or for a permission outside `android.permission.`.
pub open spec fn spec_android_command(permission: Seq<char>, state: Seq<char>) -> Option<Seq<char>> {
    let prefix = "android.permission."@;
    if !(prefix.len() <= permission.len() && permission.subrange(0, prefix.len() as int) == prefix) {
        None
    } else if state == "default"@ {
        None
    } else if state == "allowed"@ {
        Some("grant"@)
    } else {
        Some("revoke"@)
    }
}

/// The `pm` sub-command that applies a stored state in Android, if any.
pub fn android_permission_command(permission: &str, state: &str) -> (r: Option<&'static str>)
    ensures
        match r {
            Some(c) => spec_android_command(permission@, state@) == Some(c@),
            None => spec_android_command(permission@, state@) is None,
        },
{
    if !starts_with(permission, "android.permission.") {
        return None;
    }
    if text_eq(state, "default") {
        return None;
    }
    if text_eq(state, "allowed") {
        Some("grant")
    } else {
        Some("revoke")
    }
}

// ---------------------------------------------------------------------------
// JSON
// ---------------------------------------------------------------------------

/// `{"id":"…","state":"…"}` for one entry of a package.
pub open spec fn permission_entry_json(p: SpecPolicy) -> Seq<char> {
    "{\"id\":\""@ + spec_escape(p.permission) + "\",\"state\":\""@ + spec_escape(p.state) + "\"}"@
}

/// The entries of `ps` for `package`, as JSON objects, in order.
pub open spec fn package_entries(ps: Seq<SpecPolicy>, package: Seq<char>) -> Seq<Seq<char>>
    decreases ps.len(),
{
    if ps.len() == 0 {
        Seq::empty()
    } else {
        let prev = package_entries(ps.drop_last(), package);
        if ps.last().package == package {
            prev.push(permission_entry_json(ps.last()))
        } else {
            prev
        }
    }
}

/// The answer to `ListPermissions` for a package.
pub open spec fn spec_list_permissions_json(package: Seq<char>, ps: Seq<SpecPolicy>) -> Seq<char> {
    "{\"package\":\""@ + spec_escape(package) + "\",\"permissions\":["@ + join_comma(
        package_entries(ps, package),
    ) + "]}"@
}

/// The stored entries of one package as a JSON document.
pub fn list_permissions_json(package: &str, policies: &Vec<PermissionPolicy>) -> (json: String)
    ensures
        json@ == spec_list_permissions_json(package@, policies.deep_view()),
{
    let ghost ps = policies.deep_view();
    let mut json = String::new();
    push_str(&mut json, "{\"package\":\"");
    let escaped = escape_json(package);
    push_str(&mut json, escaped.as_str());
    push_str(&mut json, "\",\"permissions\":[");
    let ghost head = json@;
    let mut first = true;
    let mut i: usize = 0;
    while i < policies.len()
        invariant
            i <= policies.len(),
            ps == policies.deep_view(),
            ps.len() == policies.len(),
            json@ == head + join_comma(package_entries(ps.take(i as int), package@)),
            first == (package_entries(ps.take(i as int), package@).len() == 0),
        decreases policies.len() - i,
    {
        let policy = &policies[i];
        assert(ps[i as int] == policy.deep_view());
        assert(ps.take(i + 1).drop_last() =~= ps.take(i as int));
        if text_eq(policy.package.as_str(), package) {
            proof {
                lemma_join_push(package_entries(ps.take(i as int), package@), permission_entry_json(ps[i as int]));
            }
            if !first {
                push_char(&mut json, ',');
            }
            first = false;
            push_str(&mut json, "{\"id\":\"");
            let id = escape_json(policy.permission.as_str());
            push_str(&mut json, id.as_str());
            push_str(&mut json, "\",\"state\":\"");
            let st = escape_json(policy.state.as_str());
            push_str(&mut json, st.as_str());
            push_str(&mut json, "\"}");
        }
        i = i + 1;
    }
    assert(ps.take(ps.len() as int) =~= ps);
    push_str(&mut json, "]}");
    json
}

/// `{"package":"…","permission":"…","state":"…"}` for one stored entry.
pub open spec fn policy_json(p: SpecPolicy) -> Seq<char> {
    "{\"package\":\""@ + spec_escape(p.package) + "\",\"permission\":\""@ + spec_escape(p.permission)
        + "\",\"state\":\""@ + spec_escape(p.state) + "\"}"@
}

pub open spec fn policy_json_parts(ps: Seq<SpecPolicy>) -> Seq<Seq<char>> {
    ps.map_values(|p: SpecPolicy| policy_json(p))
}

/// The policy file's contents.
pub open spec fn spec_policies_json(ps: Seq<SpecPolicy>) -> Seq<char> {
    "{\"permissions\":["@ + join_comma(policy_json_parts(ps)) + "]}\n"@
}

/// The text of the policy file for the given entries.
pub fn policies_json(policies: &Vec<PermissionPolicy>) -> (json: String)
    ensures
        json@ == spec_policies_json(policies.deep_view()),
{
    let ghost ps = policies.deep_view();
    let mut json = String::new();
    push_str(&mut json, "{\"permissions\":[");
    let ghost head = json@;
    let mut i: usize = 0;
    assert(policy_json_parts(ps.take(0)) =~= Seq::<Seq<char>>::empty());
    while i < policies.len()
        invariant
            i <= policies.len(),
            ps == policies.deep_view(),
            ps.len() == policies.len(),
            json@ == head + join_comma(policy_json_parts(ps.take(i as int))),
        decreases policies.len() - i,
    {
        let policy = &policies[i];
        assert(ps[i as int] == policy.deep_view());
        let ghost before = policy_json_parts(ps.take(i as int));
        if i > 0 {
            push_char(&mut json, ',');
        }
        push_str(&mut json, "{\"package\":\"");
        let a = escape_json(policy.package.as_str());
        push_str(&mut json, a.as_str());
        push_str(&mut json, "\",\"permission\":\"");
        let b = escape_json(policy.permission.as_str());
        push_str(&mut json, b.as_str());
        push_str(&mut json, "\",\"state\":\"");
        let c = escape_json(policy.state.as_str());
        push_str(&mut json, c.as_str());
        push_str(&mut json, "\"}");
        proof {
            lemma_join_push(before, policy_json(ps[i as int]));
            assert(policy_json_parts(ps.take(i + 1)) =~= before.push(policy_json(ps[i as int])));
        }
        i = i + 1;
    }
    assert(ps.take(ps.len() as int) =~= ps);
    push_str(&mut json, "]}\n");
    json
}

/// The entry an object's text describes, when it has all three members.
pub open spec fn policy_of(object: Seq<char>) -> Option<SpecPolicy> {
    match (
        spec_string_field(object, "package"@),
        spec_string_field(object, "permission"@),
        spec_string_field(object, "state"@),
    ) {
        (Some(package), Some(permission), Some(state)) => Some(SpecPolicy { package, permission, state }),
        _ => None,
    }
}

/// The entries of the given objects that have all three members, in order.
pub open spec fn policies_of(objects: Seq<Seq<char>>) -> Seq<SpecPolicy>
    decreases objects.len(),
{
    if objects.len() == 0 {
        Seq::empty()
    } else {
        let rest = policies_of(objects.drop_first());
        match policy_of(objects[0]) {
            Some(p) => seq![p] + rest,
            None => rest,
        }
    }
}

/// The entries stored in a policy file: each `{…}` that names a package, a permission and a
/// state.
pub open spec fn spec_parse_policies(contents: Seq<char>) -> Seq<SpecPolicy> {
    policies_of(objects_from(contents, 0))
}

/// Reads the entries of a policy file.
pub fn parse_policies(contents: &str) -> (policies: Vec<PermissionPolicy>)
    ensures
        policies.deep_view() == spec_parse_policies(contents@),
{
    let text = chars_of(contents);
    let mut policies: Vec<PermissionPolicy> = Vec::new();
    let mut k: usize = 0;
    assert(policies.deep_view() =~= Seq::<SpecPolicy>::empty());
    loop
        invariant
            text@ == contents@,
            spec_parse_policies(contents@) == policies.deep_view() + policies_of(objects_from(text@, k as int)),
        decreases text.len() + 1 - k,
    {
        let (lo, hi) = match next_object(&text, k) {
            Some(bounds) => bounds,
            None => {
                assert(policies.deep_view() + Seq::<SpecPolicy>::empty() =~= policies.deep_view());
                return policies;
            },
        };
        let object = chars_between(&text, lo, hi);
        let ghost rest = objects_from(text@, hi + 1);
        assert((seq![object@] + rest).drop_first() =~= rest);
        let package = string_field_in(&object, "package");
        let permission = string_field_in(&object, "permission");
        let state = string_field_in(&object, "state");
        match (package, permission, state) {
            (Some(package), Some(permission), Some(state)) => {
                let ghost before = policies.deep_view();
                let p = PermissionPolicy { package, permission, state };
                let ghost sp = p.deep_view();
                policies.push(p);
                assert(policies.deep_view() =~= before.push(sp));
                assert(before + (seq![sp] + policies_of(rest)) =~= before.push(sp) + policies_of(rest));
            },
            _ => {},
        }
        k = hi + 1;
    }
}

/// The entries that do not concern `package`'s `permission`.
pub open spec fn other_pair(package: Seq<char>, permission: Seq<char>) -> spec_fn(SpecPolicy) -> bool {
    |p: SpecPolicy| !(p.package == package && p.permission == permission)
}

proof fn lemma_without_is_filter(ps: Seq<SpecPolicy>, package: Seq<char>, permission: Seq<char>)
    ensures
        without_policy(ps, package, permission) == ps.filter(other_pair(package, permission)),
    decreases ps.len(),
{
    reveal_with_fuel(Seq::filter, 1);
    if ps.len() > 0 {
        lemma_without_is_filter(ps.drop_last(), package, permission);
    }
}

/// After a state is recorded for a package's permission, the list holds exactly one entry
/// for that pair, the last one, with the new state; the entries for every other pair are
/// those of before, in their order.
pub proof fn law_set_permission_records_once(
    ps: Seq<SpecPolicy>,
    package: Seq<char>,
    permission: Seq<char>,
    state: Seq<char>,
)
    ensures
        updated_policies(ps, package, permission, state).last() == (SpecPolicy {
            package,
            permission,
            state,
        }),
        forall|i: int|
            0 <= i < updated_policies(ps, package, permission, state).len() - 1 ==> !(
            #[trigger] updated_policies(ps, package, permission, state)[i].package == package
                && updated_policies(ps, package, permission, state)[i].permission == permission),
        updated_policies(ps, package, permission, state).drop_last() == ps.filter(
            other_pair(package, permission),
        ),
{
    lemma_without_is_filter(ps, package, permission);
    let u = updated_policies(ps, package, permission, state);
    let w = without_policy(ps, package, permission);
    assert(u.drop_last() =~= w);
    assert forall|i: int| 0 <= i < u.len() - 1 implies !(#[trigger] u[i].package == package
        && u[i].permission == permission) by {
        ps.lemma_filter_pred(other_pair(package, permission), i);
        assert(u[i] == w[i]);
    }
}

proof fn lemma_without_twice(ps: Seq<SpecPolicy>, package: Seq<char>, permission: Seq<char>)
    ensures
        without_policy(without_policy(ps, package, permission), package, permission)
            == without_policy(ps, package, permission),
    decreases ps.len(),
{
    if ps.len() > 0 {
        lemma_without_twice(ps.drop_last(), package, permission);
        let w = without_policy(ps.drop_last(), package, permission);
        if !(ps.last().package == package && ps.last().permission == permission) {
            assert(w.push(ps.last()).drop_last() =~= w);
        }
    }
}

/// Recording the same state twice leaves the list as recording it once.
pub proof fn law_set_permission_idempotent(
    ps: Seq<SpecPolicy>,
    package: Seq<char>,
    permission: Seq<char>,
    state: Seq<char>,
)
    ensures
        updated_policies(updated_policies(ps, package, permission, state), package, permission, state)
            == updated_policies(ps, package, permission, state),
{
    let w = without_policy(ps, package, permission);
    let once = updated_policies(ps, package, permission, state);
    lemma_without_twice(ps, package, permission);
    assert(once.drop_last() =~= w);
    assert(without_policy(once, package, permission) == without_policy(w, package, permission));
}

proof fn lemma_package_entries_filter(ps: Seq<SpecPolicy>, package: Seq<char>)
    ensures
        package_entries(ps, package) == ps.filter(|p: SpecPolicy| p.package == package).map_values(
            |p: SpecPolicy| permission_entry_json(p),
        ),
    decreases ps.len(),
{
    reveal_with_fuel(Seq::filter, 1);
    let pred = |p: SpecPolicy| p.package == package;
    if ps.len() == 0 {
        assert(ps.filter(pred) =~= Seq::<SpecPolicy>::empty());
        assert(ps.filter(pred).map_values(|p: SpecPolicy| permission_entry_json(p)) =~= Seq::<
            Seq<char>,
        >::empty());
    } else {
        lemma_package_entries_filter(ps.drop_last(), package);
        let f = ps.drop_last().filter(pred);
        if pred(ps.last()) {
            assert(ps.filter(pred) == f.push(ps.last()));
            assert(f.push(ps.last()).map_values(|p: SpecPolicy| permission_entry_json(p))
                =~= f.map_values(|p: SpecPolicy| permission_entry_json(p)).push(
                permission_entry_json(ps.last()),
            ));
        } else {
            assert(ps.filter(pred) == f);
        }
    }
}

/// The answer to `ListPermissions` names the package and lists, as `{"id":…,"state":…}`
/// objects in stored order, exactly the stored entries whose package is that package.
pub proof fn law_listed_entries_are_the_package_s(package: Seq<char>, ps: Seq<SpecPolicy>)
    ensures
        spec_list_permissions_json(package, ps) == "{\"package\":\""@ + spec_escape(package)
            + "\",\"permissions\":["@ + join_comma(
            ps.filter(|p: SpecPolicy| p.package == package).map_values(
                |p: SpecPolicy|
                    "{\"id\":\""@ + spec_escape(p.permission) + "\",\"state\":\""@ + spec_escape(
                        p.state,
                    ) + "\"}"@,
            ),
        ) + "]}"@,
{
    lemma_package_entries_filter(ps, package);
    let f = ps.filter(|p: SpecPolicy| p.package == package);
    assert(f.map_values(|p: SpecPolicy| permission_entry_json(p)) =~= f.map_values(
        |p: SpecPolicy|
            "{\"id\":\""@ + spec_escape(p.permission) + "\",\"state\":\""@ + spec_escape(p.state)
                + "\"}"@,
    ));
}

} // verus!
