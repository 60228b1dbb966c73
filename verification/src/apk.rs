//! APK metadata: what the manifest declares (package, versions, label,
//! requested permissions with their risk class) and its JSON form.

use vstd::prelude::*;
use crate::json::{escape_json, join_comma, json_opt_field, lemma_join_push, push_json_field, spec_escape};
use crate::manifest::{
    parse_manifest, spec_parse_manifest, Element, ManifestError, SpecAttribute, SpecElement,
};
use crate::text::{
    decimal, lemma_lex_transitive, lemma_lex_trichotomy, lex_less, lex_lt, push_char,
    push_decimal, push_str, starts_with, text_eq,
};

verus! {

/// A permission the package requests, with its risk class
/// (`sensitive`, `background`, `normal` or `unknown`).
#[derive(Debug)]
pub struct Permission {
    pub id: String,
    pub class_name: String,
}

/// What an APK's manifest declares.
#[derive(Debug)]
pub struct ApkMetadata {
    pub package_name: Option<String>,
    pub version_name: Option<String>,
    pub version_code: Option<String>,
    pub app_label: Option<String>,
    pub permissions: Vec<Permission>,
    pub apk_size_bytes: u64,
}

pub struct SpecPermission {
    pub id: Seq<char>,
    pub class_name: Seq<char>,
}

pub struct SpecApkMetadata {
    pub package_name: Option<Seq<char>>,
    pub version_name: Option<Seq<char>>,
    pub version_code: Option<Seq<char>>,
    pub app_label: Option<Seq<char>>,
    pub permissions: Seq<SpecPermission>,
    pub apk_size_bytes: u64,
}

impl DeepView for Permission {
    type V = SpecPermission;

    open spec fn deep_view(&self) -> SpecPermission {
        SpecPermission { id: self.id@, class_name: self.class_name@ }
    }
}

impl DeepView for ApkMetadata {
    type V = SpecApkMetadata;

    open spec fn deep_view(&self) -> SpecApkMetadata {
        SpecApkMetadata {
            package_name: self.package_name.deep_view(),
            version_name: self.version_name.deep_view(),
            version_code: self.version_code.deep_view(),
            app_label: self.app_label.deep_view(),
            permissions: self.permissions.deep_view(),
            apk_size_bytes: self.apk_size_bytes,
        }
    }
}

// ---------------------------------------------------------------------------
// Permission classes
// ---------------------------------------------------------------------------

pub open spec fn is_sensitive_permission(p: Seq<char>) -> bool {
    ||| p == "android.permission.CAMERA"@
    ||| p == "android.permission.RECORD_AUDIO"@
    ||| p == "android.permission.ACCESS_FINE_LOCATION"@
    ||| p == "android.permission.ACCESS_COARSE_LOCATION"@
    ||| p == "android.permission.READ_CONTACTS"@
    ||| p == "android.permission.WRITE_CONTACTS"@
    ||| p == "android.permission.READ_CALENDAR"@
    ||| p == "android.permission.WRITE_CALENDAR"@
    ||| p == "android.permission.READ_EXTERNAL_STORAGE"@
    ||| p == "android.permission.WRITE_EXTERNAL_STORAGE"@
    ||| p == "android.permission.READ_MEDIA_IMAGES"@
    ||| p == "android.permission.READ_MEDIA_VIDEO"@
    ||| p == "android.permission.READ_MEDIA_AUDIO"@
    ||| p == "android.permission.POST_NOTIFICATIONS"@
}

pub open spec fn is_background_permission(p: Seq<char>) -> bool {
    ||| p == "android.permission.RECEIVE_BOOT_COMPLETED"@
    ||| p == "android.permission.REQUEST_IGNORE_BATTERY_OPTIMIZATIONS"@
    ||| p == "android.permission.FOREGROUND_SERVICE"@
}

pub open spec fn has_android_prefix(p: Seq<char>) -> bool {
    let prefix = "android.permission."@;
    prefix.len() <= p.len() && p.subrange(0, prefix.len() as int) == prefix
}

/// The risk class of a permission name.
pub open spec fn spec_classify(p: Seq<char>) -> Seq<char> {
    if is_sensitive_permission(p) {
        "sensitive"@
    } else if is_background_permission(p) {
        "background"@
    } else if has_android_prefix(p) {
        "normal"@
    } else {
        "unknown"@
    }
}

fn is_sensitive(permission: &str) -> (r: bool)
    ensures
        r == is_sensitive_permission(permission@),
{
    text_eq(permission, "android.permission.CAMERA") || text_eq(
        permission,
        "android.permission.RECORD_AUDIO",
    ) || text_eq(permission, "android.permission.ACCESS_FINE_LOCATION") || text_eq(
        permission,
        "android.permission.ACCESS_COARSE_LOCATION",
    ) || text_eq(permission, "android.permission.READ_CONTACTS") || text_eq(
        permission,
        "android.permission.WRITE_CONTACTS",
    ) || text_eq(permission, "android.permission.READ_CALENDAR") || text_eq(
        permission,
        "android.permission.WRITE_CALENDAR",
    ) || text_eq(permission, "android.permission.READ_EXTERNAL_STORAGE") || text_eq(
        permission,
        "android.permission.WRITE_EXTERNAL_STORAGE",
    ) || text_eq(permission, "android.permission.READ_MEDIA_IMAGES") || text_eq(
        permission,
        "android.permission.READ_MEDIA_VIDEO",
    ) || text_eq(permission, "android.permission.READ_MEDIA_AUDIO") || text_eq(
        permission,
        "android.permission.POST_NOTIFICATIONS",
    )
}

fn is_background(permission: &str) -> (r: bool)
    ensures
        r == is_background_permission(permission@),
{
    text_eq(permission, "android.permission.RECEIVE_BOOT_COMPLETED") || text_eq(
        permission,
        "android.permission.REQUEST_IGNORE_BATTERY_OPTIMIZATIONS",
    ) || text_eq(permission, "android.permission.FOREGROUND_SERVICE")
}

/// The risk class of a requested permission.
pub fn classify_permission(permission: &str) -> (class: &'static str)
    ensures
        class@ == spec_classify(permission@),
{
    if is_sensitive(permission) {
        "sensitive"
    } else if is_background(permission) {
        "background"
    } else if text_eq(permission, "android.permission.INTERNET") || text_eq(
        permission,
        "android.permission.ACCESS_NETWORK_STATE",
    ) || text_eq(permission, "android.permission.VIBRATE") || text_eq(
        permission,
        "android.permission.WAKE_LOCK",
    ) {
        proof {
            reveal_strlit("android.permission.");
            reveal_strlit("android.permission.INTERNET");
            reveal_strlit("android.permission.ACCESS_NETWORK_STATE");
            reveal_strlit("android.permission.VIBRATE");
            reveal_strlit("android.permission.WAKE_LOCK");
            assert("android.permission.INTERNET"@.subrange(0, 19) =~= "android.permission."@);
            assert("android.permission.ACCESS_NETWORK_STATE"@.subrange(0, 19) =~= "android.permission."@);
            assert("android.permission.VIBRATE"@.subrange(0, 19) =~= "android.permission."@);
            assert("android.permission.WAKE_LOCK"@.subrange(0, 19) =~= "android.permission."@);
            assert(has_android_prefix(permission@));
        }
        "normal"
    } else if starts_with(permission, "android.permission.") {
        "normal"
    } else {
        "unknown"
    }
}

// ---------------------------------------------------------------------------
// From manifest elements to metadata
// ---------------------------------------------------------------------------

/// The value of the first attribute called `name` (`None` when there is none, or it has no value).
pub open spec fn spec_attr_value(attributes: Seq<SpecAttribute>, name: Seq<char>) -> Option<
    Seq<char>,
>
    decreases attributes.len(),
{
    if attributes.len() == 0 {
        None
    } else if attributes[0].name == name {
        attributes[0].value
    } else {
        spec_attr_value(attributes.drop_first(), name)
    }
}

/// The value of the first attribute of `element` called `name`.
pub fn attr_value(element: &Element, name: &str) -> (r: Option<String>)
    ensures
        r.deep_view() == spec_attr_value(element.deep_view().attributes, name@),
{
    let ghost attrs = element.deep_view().attributes;
    let mut i: usize = 0;
    assert(attrs.subrange(0, attrs.len() as int) =~= attrs);
    while i < element.attributes.len()
        invariant
            i <= element.attributes.len(),
            attrs == element.deep_view().attributes,
            attrs.len() == element.attributes.len(),
            spec_attr_value(attrs, name@) == spec_attr_value(
                attrs.subrange(i as int, attrs.len() as int),
                name@,
            ),
        decreases element.attributes.len() - i,
    {
        let ghost rest = attrs.subrange(i as int, attrs.len() as int);
        let attribute = &element.attributes[i];
        assert(rest[0] == attribute.deep_view());
        if text_eq(attribute.name.as_str(), name) {
            return match &attribute.value {
                Some(v) => Some(v.clone()),
                None => None,
            };
        }
        assert(rest.drop_first() =~= attrs.subrange(i + 1, attrs.len() as int));
        i = i + 1;
    }
    None
}

/// The attribute `name` of the last `manifest` element.
pub open spec fn spec_manifest_attr(elements: Seq<SpecElement>, name: Seq<char>) -> Option<
    Seq<char>,
>
    decreases elements.len(),
{
    if elements.len() == 0 {
        None
    } else if elements.last().name == "manifest"@ {
        spec_attr_value(elements.last().attributes, name)
    } else {
        spec_manifest_attr(elements.drop_last(), name)
    }
}

/// The label of the first `application` element that has one.
pub open spec fn spec_app_label(elements: Seq<SpecElement>) -> Option<Seq<char>>
    decreases elements.len(),
{
    if elements.len() == 0 {
        None
    } else {
        let prev = spec_app_label(elements.drop_last());
        if prev is Some {
            prev
        } else if elements.last().name == "application"@ {
            spec_attr_value(elements.last().attributes, "label"@)
        } else {
            None
        }
    }
}

pub open spec fn is_permission_element(name: Seq<char>) -> bool {
    name == "uses-permission"@ || name == "uses-permission-sdk-23"@
}

/// The permission names requested, in document order (with repetitions).
pub open spec fn spec_permission_ids(elements: Seq<SpecElement>) -> Seq<Seq<char>>
    decreases elements.len(),
{
    if elements.len() == 0 {
        Seq::empty()
    } else {
        let prev = spec_permission_ids(elements.drop_last());
        let e = elements.last();
        if is_permission_element(e.name) && spec_attr_value(e.attributes, "name"@) is Some {
            prev.push(spec_attr_value(e.attributes, "name"@)->0)
        } else {
            prev
        }
    }
}

/// Some permission in `perms` is called `x`.
pub open spec fn has_permission_id(perms: Seq<SpecPermission>, x: Seq<char>) -> bool {
    exists|i: int| 0 <= i < perms.len() && perms[i].id == x
}

/// `perms` lists each of `ids` once, in ascending order, each with its class.
pub open spec fn permissions_of(perms: Seq<SpecPermission>, ids: Seq<Seq<char>>) -> bool {
    &&& forall|i: int, j: int| 0 <= i < j < perms.len() ==> lex_lt(perms[i].id, perms[j].id)
    &&& forall|x: Seq<char>| ids.contains(x) <==> #[trigger] has_permission_id(perms, x)
    &&& forall|i: int| 0 <= i < perms.len() ==> perms[i].class_name == spec_classify(perms[i].id)
}

/// The metadata a list of manifest elements describes.
pub open spec fn metadata_describes(m: SpecApkMetadata, elements: Seq<SpecElement>, apk_size_bytes: u64) -> bool {
    &&& m.package_name == spec_manifest_attr(elements, "package"@)
    &&& m.version_name == spec_manifest_attr(elements, "versionName"@)
    &&& m.version_code == spec_manifest_attr(elements, "versionCode"@)
    &&& m.app_label == spec_app_label(elements)
    &&& permissions_of(m.permissions, spec_permission_ids(elements))
    &&& m.apk_size_bytes == apk_size_bytes
}

/// Adds a permission to a sorted list unless it is already there.
fn insert_permission(permissions: &mut Vec<Permission>, id: String)
    requires
        forall|i: int, j: int|
            0 <= i < j < old(permissions).deep_view().len() ==> lex_lt(
                old(permissions).deep_view()[i].id,
                old(permissions).deep_view()[j].id,
            ),
        forall|i: int|
            0 <= i < old(permissions).deep_view().len() ==> old(permissions).deep_view()[i].class_name
                == spec_classify(old(permissions).deep_view()[i].id),
    ensures
        forall|i: int, j: int|
            0 <= i < j < final(permissions).deep_view().len() ==> lex_lt(
                final(permissions).deep_view()[i].id,
                final(permissions).deep_view()[j].id,
            ),
        forall|i: int|
            0 <= i < final(permissions).deep_view().len() ==> final(permissions).deep_view()[i].class_name
                == spec_classify(final(permissions).deep_view()[i].id),
        forall|x: Seq<char>|
            #[trigger] has_permission_id(final(permissions).deep_view(), x) <==> (x == id@
                || has_permission_id(old(permissions).deep_view(), x)),
{
    let ghost old_p = permissions.deep_view();
    let mut pos: usize = 0;
    while pos < permissions.len() && lex_less(permissions[pos].id.as_str(), id.as_str())
        invariant
            pos <= permissions.len(),
            old_p == permissions.deep_view(),
            old_p.len() == permissions.len(),
            forall|k: int| 0 <= k < pos ==> lex_lt(old_p[k].id, id@),
        decreases permissions.len() - pos,
    {
        pos = pos + 1;
    }
    if pos < permissions.len() && text_eq(permissions[pos].id.as_str(), id.as_str()) {
        assert(old_p[pos as int].id == id@);
        assert(has_permission_id(old_p, id@));
        return;
    }
    proof {
        if pos < old_p.len() {
            lemma_lex_trichotomy(old_p[pos as int].id, id@);
            assert forall|k: int| pos <= k < old_p.len() implies lex_lt(id@, old_p[k].id) by {
                if k > pos {
                    lemma_lex_transitive(id@, old_p[pos as int].id, old_p[k].id);
                }
            }
        }
    }
    let class_name = classify_permission(id.as_str()).to_owned();
    let ghost new_p = SpecPermission { id: id@, class_name: class_name@ };
    permissions.insert(pos, Permission { id, class_name });
    assert(permissions.deep_view() =~= old_p.insert(pos as int, new_p));
    proof {
        let p = permissions.deep_view();
        assert forall|i: int, j: int| 0 <= i < j < p.len() implies lex_lt(p[i].id, p[j].id) by {
            if j < pos {
            } else if j == pos {
            } else if i < pos {
                lemma_lex_transitive(p[i].id, id@, p[j].id);
            } else if i == pos {
            } else {
            }
        }
        assert forall|x: Seq<char>| has_permission_id(p, x) implies (x == id@ || has_permission_id(old_p, x)) by {
            let i = choose|i: int| 0 <= i < p.len() && p[i].id == x;
            if i < pos {
                assert(old_p[i].id == x);
            } else if i > pos {
                assert(old_p[i - 1].id == x);
            }
        }
        assert forall|x: Seq<char>| (x == id@ || has_permission_id(old_p, x)) implies has_permission_id(p, x) by {
            if x == id@ {
                assert(p[pos as int].id == x);
            } else {
                let i = choose|i: int| 0 <= i < old_p.len() && old_p[i].id == x;
                if i < pos {
                    assert(p[i].id == x);
                } else {
                    assert(p[i + 1].id == x);
                }
            }
        }
    }
}

/// The metadata that a list of manifest elements declares, for an APK of the given size.
pub fn metadata_from_elements(elements: Vec<Element>, apk_size_bytes: u64) -> (metadata: ApkMetadata)
    ensures
        metadata_describes(metadata.deep_view(), elements.deep_view(), apk_size_bytes),
{
    let ghost es = elements.deep_view();
    let mut metadata = ApkMetadata {
        package_name: None,
        version_name: None,
        version_code: None,
        app_label: None,
        permissions: Vec::new(),
        apk_size_bytes,
    };
    let mut i: usize = 0;
    while i < elements.len()
        invariant
            i <= elements.len(),
            es == elements.deep_view(),
            es.len() == elements.len(),
            metadata.package_name.deep_view() == spec_manifest_attr(es.take(i as int), "package"@),
            metadata.version_name.deep_view() == spec_manifest_attr(es.take(i as int), "versionName"@),
            metadata.version_code.deep_view() == spec_manifest_attr(es.take(i as int), "versionCode"@),
            metadata.app_label.deep_view() == spec_app_label(es.take(i as int)),
            permissions_of(metadata.permissions.deep_view(), spec_permission_ids(es.take(i as int))),
            metadata.apk_size_bytes == apk_size_bytes,
        decreases elements.len() - i,
    {
        let element = &elements[i];
        let ghost e = element.deep_view();
        assert(es.take(i + 1).drop_last() =~= es.take(i as int));
        assert(es.take(i + 1).last() == e);
        let name = element.name.as_str();
        proof {
            reveal_strlit("manifest");
            reveal_strlit("application");
            reveal_strlit("uses-permission");
            reveal_strlit("uses-permission-sdk-23");
            assert("manifest"@.len() == 8);
            assert("application"@.len() == 11);
            assert("uses-permission"@.len() == 15);
            assert("uses-permission-sdk-23"@.len() == 22);
            assert(e.name == element.name@);
        }
        if text_eq(name, "manifest") {
            metadata.package_name = attr_value(element, "package");
            metadata.version_name = attr_value(element, "versionName");
            metadata.version_code = attr_value(element, "versionCode");
        } else if text_eq(name, "application") {
            if metadata.app_label.is_none() {
                metadata.app_label = attr_value(element, "label");
            }
        } else if text_eq(name, "uses-permission") || text_eq(name, "uses-permission-sdk-23") {
            if let Some(id) = attr_value(element, "name") {
                let ghost before = metadata.permissions.deep_view();
                let ghost ids = spec_permission_ids(es.take(i as int));
                insert_permission(&mut metadata.permissions, id);
                proof {
                    let after = metadata.permissions.deep_view();
                    let ids2 = spec_permission_ids(es.take(i + 1));
                    assert(ids2 == ids.push(id@));
                    assert forall|x: Seq<char>| ids2.contains(x) <==> #[trigger] has_permission_id(after, x) by {
                        if ids2.contains(x) {
                            let k = choose|k: int| 0 <= k < ids2.len() && ids2[k] == x;
                            if k < ids.len() {
                                assert(ids.contains(x));
                            }
                        }
                        if x != id@ && has_permission_id(before, x) {
                            assert(ids.contains(x));
                            let k = choose|k: int| 0 <= k < ids.len() && ids[k] == x;
                            assert(ids2[k] == x);
                        }
                        if x == id@ {
                            assert(ids2[ids.len() as int] == x);
                        }
                    }
                }
            }
        }
        i = i + 1;
    }
    assert(es.take(es.len() as int) =~= es);
    metadata
}

/// Decodes a binary manifest and reads the metadata it declares.
pub fn metadata_from_manifest(manifest: &[u8], apk_size_bytes: u64) -> (r: Result<
    ApkMetadata,
    ManifestError,
>)
    ensures
        r is Ok <==> spec_parse_manifest(manifest@) is Ok,
        r matches Ok(m) ==> metadata_describes(
            m.deep_view(),
            spec_parse_manifest(manifest@)->Ok_0,
            apk_size_bytes,
        ),
        r matches Err(e) ==> spec_parse_manifest(manifest@) == Err::<Seq<SpecElement>, ManifestError>(e),
{
    match parse_manifest(manifest) {
        Ok(elements) => Ok(metadata_from_elements(elements, apk_size_bytes)),
        Err(e) => Err(e),
    }
}

// ---------------------------------------------------------------------------
// JSON and the confirmation summary
// ---------------------------------------------------------------------------

/// `{"id":"…","class":"…"}` for one permission.
pub open spec fn permission_json(p: SpecPermission) -> Seq<char> {
    "{\"id\":\""@ + spec_escape(p.id) + "\",\"class\":\""@ + spec_escape(p.class_name) + "\"}"@
}

/// The JSON objects of the given permissions.
pub open spec fn permission_json_parts(ps: Seq<SpecPermission>) -> Seq<Seq<char>> {
    ps.map_values(|p: SpecPermission| permission_json(p))
}

/// The JSON document describing an APK.
pub open spec fn spec_metadata_json(m: SpecApkMetadata) -> Seq<char> {
    seq!['{'] + json_opt_field("package"@, m.package_name, false) + json_opt_field(
        "version_name"@,
        m.version_name,
        true,
    ) + json_opt_field("version_code"@, m.version_code, true) + json_opt_field(
        "app_label"@,
        m.app_label,
        true,
    ) + ",\"apk_size_bytes\":"@ + decimal(m.apk_size_bytes as nat) + ",\"permissions\":["@
        + join_comma(permission_json_parts(m.permissions)) + "]}"@
}

fn opt_str(value: &Option<String>) -> (r: Option<&str>)
    ensures
        r matches Some(v) ==> value.deep_view() == Some(v@),
        r is None ==> value.deep_view() is None,
{
    match value {
        Some(v) => Some(v.as_str()),
        None => None,
    }
}

impl ApkMetadata {
    /// The metadata as a JSON object.
    pub fn to_json(&self) -> (json: String)
        ensures
            json@ == spec_metadata_json(self.deep_view()),
    {
        let ghost m = self.deep_view();
        let mut json = String::new();
        push_char(&mut json, '{');
        push_json_field(&mut json, "package", opt_str(&self.package_name), false);
        push_json_field(&mut json, "version_name", opt_str(&self.version_name), true);
        push_json_field(&mut json, "version_code", opt_str(&self.version_code), true);
        push_json_field(&mut json, "app_label", opt_str(&self.app_label), true);
        push_str(&mut json, ",\"apk_size_bytes\":");
        push_decimal(&mut json, self.apk_size_bytes);
        push_str(&mut json, ",\"permissions\":[");
        let ghost head = json@;
        let ghost ps = m.permissions;
        let mut index: usize = 0;
        assert(permission_json_parts(ps.take(0)) =~= Seq::<Seq<char>>::empty());
        while index < self.permissions.len()
            invariant
                index <= self.permissions.len(),
                ps == self.deep_view().permissions,
                ps.len() == self.permissions.len(),
                json@ == head + join_comma(permission_json_parts(ps.take(index as int))),
            decreases self.permissions.len() - index,
        {
            let permission = &self.permissions[index];
            assert(ps[index as int] == permission.deep_view());
            let ghost before = permission_json_parts(ps.take(index as int));
            if index > 0 {
                push_char(&mut json, ',');
            }
            push_str(&mut json, "{\"id\":\"");
            let id = escape_json(permission.id.as_str());
            push_str(&mut json, id.as_str());
            push_str(&mut json, "\",\"class\":\"");
            let class_name = escape_json(permission.class_name.as_str());
            push_str(&mut json, class_name.as_str());
            push_str(&mut json, "\"}");
            proof {
                lemma_join_push(before, permission_json(ps[index as int]));
                assert(permission_json_parts(ps.take(index + 1)) =~= before.push(
                    permission_json(ps[index as int]),
                ));
            }
            index = index + 1;
        }
        assert(ps.take(ps.len() as int) =~= ps);
        push_str(&mut json, "]}");
        json
    }
}

/// `label: value` on a line of its own, when there is a value.
pub open spec fn optional_line(label: Seq<char>, value: Option<Seq<char>>) -> Seq<char> {
    match value {
        Some(v) => label + seq![':', ' '] + v + seq!['\n'],
        None => Seq::empty(),
    }
}

/// Appends `label: value` and a newline when there is a value.
pub fn push_optional(summary: &mut String, label: &str, value: Option<&str>)
    ensures
        final(summary)@ == old(summary)@ + optional_line(
            label@,
            match value {
                Some(v) => Some(v@),
                None => None,
            },
        ),
{
    if let Some(value) = value {
        push_str(summary, label);
        push_char(summary, ':');
        push_char(summary, ' ');
        push_str(summary, value);
        push_char(summary, '\n');
    }
}

/// `- id (class)` lines for the given permissions.
pub open spec fn permission_lines(ps: Seq<SpecPermission>) -> Seq<char>
    decreases ps.len(),
{
    if ps.len() == 0 {
        Seq::empty()
    } else {
        permission_lines(ps.drop_last()) + seq!['-', ' '] + ps.last().id + seq![' ', '(']
            + ps.last().class_name + seq![')', '\n']
    }
}

/// The installation question shown to the user, given the file path and the size as text.
pub open spec fn spec_metadata_summary(
    path: Seq<char>,
    m: SpecApkMetadata,
    size_text: Seq<char>,
) -> Seq<char> {
    "Install this application?\n\n"@ + "File: "@ + path + seq!['\n'] + optional_line(
        "Name"@,
        m.app_label,
    ) + optional_line("Package"@, m.package_name) + optional_line("Version"@, m.version_name)
        + optional_line("Version code"@, m.version_code) + "Size: "@ + size_text + seq!['\n'] + if m.permissions.len()
        == 0 {
        "\nPermissions: none declared\n"@
    } else {
        "\nPermissions:\n"@ + permission_lines(
            m.permissions.take(if m.permissions.len() < 20 {
                m.permissions.len() as int
            } else {
                20
            }),
        ) + if m.permissions.len() > 20 {
            "- ...\n"@
        } else {
            Seq::empty()
        }
    }
}

/// The text of the installation confirmation: file, names, versions, size and at most
/// twenty permissions.
pub fn metadata_summary(path: &str, metadata: &ApkMetadata, size_text: &str) -> (summary: String)
    ensures
        summary@ == spec_metadata_summary(path@, metadata.deep_view(), size_text@),
{
    let ghost m = metadata.deep_view();
    let mut summary = String::new();
    push_str(&mut summary, "Install this application?\n\n");
    push_str(&mut summary, "File: ");
    push_str(&mut summary, path);
    push_char(&mut summary, '\n');
    push_optional(&mut summary, "Name", opt_str(&metadata.app_label));
    push_optional(&mut summary, "Package", opt_str(&metadata.package_name));
    push_optional(&mut summary, "Version", opt_str(&metadata.version_name));
    push_optional(&mut summary, "Version code", opt_str(&metadata.version_code));
    push_str(&mut summary, "Size: ");
    push_str(&mut summary, size_text);
    push_char(&mut summary, '\n');

    if metadata.permissions.len() == 0 {
        push_str(&mut summary, "\nPermissions: none declared\n");
    } else {
        push_str(&mut summary, "\nPermissions:\n");
        let ghost head = summary@;
        let ghost ps = m.permissions;
        let shown: usize = if metadata.permissions.len() < 20 {
            metadata.permissions.len()
        } else {
            20
        };
        let mut index: usize = 0;
        assert(ps.take(0) =~= Seq::<SpecPermission>::empty());
        while index < shown
            invariant
                index <= shown <= metadata.permissions.len(),
                ps == metadata.deep_view().permissions,
                ps.len() == metadata.permissions.len(),
                summary@ == head + permission_lines(ps.take(index as int)),
            decreases shown - index,
        {
            let permission = &metadata.permissions[index];
            assert(ps[index as int] == permission.deep_view());
            assert(ps.take(index + 1).drop_last() =~= ps.take(index as int));
            push_char(&mut summary, '-');
            push_char(&mut summary, ' ');
            push_str(&mut summary, permission.id.as_str());
            push_char(&mut summary, ' ');
            push_char(&mut summary, '(');
            push_str(&mut summary, permission.class_name.as_str());
            push_char(&mut summary, ')');
            push_char(&mut summary, '\n');
            index = index + 1;
        }
        if metadata.permissions.len() > 20 {
            push_str(&mut summary, "- ...\n");
        }
    }
    summary
}

/// The permission classes: each permission of the sensitive list (camera, microphone,
/// location, contacts, calendar, storage, media, notifications) is `sensitive`; each of the
/// background list (boot, battery optimisation, foreground service) is `background`; any
/// other `android.permission.` name is `normal`; anything else is `unknown`.
pub proof fn law_permission_classes(p: Seq<char>)
    ensures
        (p == "android.permission.CAMERA"@ || p == "android.permission.RECORD_AUDIO"@ || p
            == "android.permission.ACCESS_FINE_LOCATION"@ || p
            == "android.permission.ACCESS_COARSE_LOCATION"@ || p
            == "android.permission.READ_CONTACTS"@ || p == "android.permission.WRITE_CONTACTS"@
            || p == "android.permission.READ_CALENDAR"@ || p
            == "android.permission.WRITE_CALENDAR"@ || p
            == "android.permission.READ_EXTERNAL_STORAGE"@ || p
            == "android.permission.WRITE_EXTERNAL_STORAGE"@ || p
            == "android.permission.READ_MEDIA_IMAGES"@ || p
            == "android.permission.READ_MEDIA_VIDEO"@ || p == "android.permission.READ_MEDIA_AUDIO"@
            || p == "android.permission.POST_NOTIFICATIONS"@) ==> spec_classify(p)
            == "sensitive"@,
        (p == "android.permission.RECEIVE_BOOT_COMPLETED"@ || p
            == "android.permission.REQUEST_IGNORE_BATTERY_OPTIMIZATIONS"@ || p
            == "android.permission.FOREGROUND_SERVICE"@) ==> spec_classify(p) == "background"@,
        !(p == "android.permission.CAMERA"@ || p == "android.permission.RECORD_AUDIO"@ || p
            == "android.permission.ACCESS_FINE_LOCATION"@ || p
            == "android.permission.ACCESS_COARSE_LOCATION"@ || p
            == "android.permission.READ_CONTACTS"@ || p == "android.permission.WRITE_CONTACTS"@
            || p == "android.permission.READ_CALENDAR"@ || p
            == "android.permission.WRITE_CALENDAR"@ || p
            == "android.permission.READ_EXTERNAL_STORAGE"@ || p
            == "android.permission.WRITE_EXTERNAL_STORAGE"@ || p
            == "android.permission.READ_MEDIA_IMAGES"@ || p
            == "android.permission.READ_MEDIA_VIDEO"@ || p == "android.permission.READ_MEDIA_AUDIO"@
            || p == "android.permission.POST_NOTIFICATIONS"@ || p
            == "android.permission.RECEIVE_BOOT_COMPLETED"@ || p
            == "android.permission.REQUEST_IGNORE_BATTERY_OPTIMIZATIONS"@ || p
            == "android.permission.FOREGROUND_SERVICE"@) ==> (spec_classify(p) == if 19 <= p.len()
            && p.subrange(0, 19) == "android.permission."@ {
            "normal"@
        } else {
            "unknown"@
        }),
{
    reveal_strlit("android.permission.");
    if p == "android.permission.RECEIVE_BOOT_COMPLETED"@ {
        reveal_strlit("android.permission.RECEIVE_BOOT_COMPLETED");
        assert(p.len() == 41);
        reveal_strlit("android.permission.CAMERA");
        assert("android.permission.CAMERA"@.len() == 25);
        reveal_strlit("android.permission.RECORD_AUDIO");
        assert("android.permission.RECORD_AUDIO"@.len() == 31);
        reveal_strlit("android.permission.ACCESS_FINE_LOCATION");
        assert("android.permission.ACCESS_FINE_LOCATION"@.len() == 39);
        reveal_strlit("android.permission.ACCESS_COARSE_LOCATION");
        assert("android.permission.ACCESS_COARSE_LOCATION"@[19] == 'A');
        assert(p[19] == 'R');
        reveal_strlit("android.permission.READ_CONTACTS");
        assert("android.permission.READ_CONTACTS"@.len() == 32);
        reveal_strlit("android.permission.WRITE_CONTACTS");
        assert("android.permission.WRITE_CONTACTS"@.len() == 33);
        reveal_strlit("android.permission.READ_CALENDAR");
        assert("android.permission.READ_CALENDAR"@.len() == 32);
        reveal_strlit("android.permission.WRITE_CALENDAR");
        assert("android.permission.WRITE_CALENDAR"@.len() == 33);
        reveal_strlit("android.permission.READ_EXTERNAL_STORAGE");
        assert("android.permission.READ_EXTERNAL_STORAGE"@.len() == 40);
        reveal_strlit("android.permission.WRITE_EXTERNAL_STORAGE");
        assert("android.permission.WRITE_EXTERNAL_STORAGE"@[19] == 'W');
        assert(p[19] == 'R');
        reveal_strlit("android.permission.READ_MEDIA_IMAGES");
        assert("android.permission.READ_MEDIA_IMAGES"@.len() == 36);
        reveal_strlit("android.permission.READ_MEDIA_VIDEO");
        assert("android.permission.READ_MEDIA_VIDEO"@.len() == 35);
        reveal_strlit("android.permission.READ_MEDIA_AUDIO");
        assert("android.permission.READ_MEDIA_AUDIO"@.len() == 35);
        reveal_strlit("android.permission.POST_NOTIFICATIONS");
        assert("android.permission.POST_NOTIFICATIONS"@.len() == 37);
        assert(!is_sensitive_permission(p));
    }
    if p == "android.permission.REQUEST_IGNORE_BATTERY_OPTIMIZATIONS"@ {
        reveal_strlit("android.permission.REQUEST_IGNORE_BATTERY_OPTIMIZATIONS");
        assert(p.len() == 55);
        reveal_strlit("android.permission.CAMERA");
        assert("android.permission.CAMERA"@.len() == 25);
        reveal_strlit("android.permission.RECORD_AUDIO");
        assert("android.permission.RECORD_AUDIO"@.len() == 31);
        reveal_strlit("android.permission.ACCESS_FINE_LOCATION");
        assert("android.permission.ACCESS_FINE_LOCATION"@.len() == 39);
        reveal_strlit("android.permission.ACCESS_COARSE_LOCATION");
        assert("android.permission.ACCESS_COARSE_LOCATION"@.len() == 41);
        reveal_strlit("android.permission.READ_CONTACTS");
        assert("android.permission.READ_CONTACTS"@.len() == 32);
        reveal_strlit("android.permission.WRITE_CONTACTS");
        assert("android.permission.WRITE_CONTACTS"@.len() == 33);
        reveal_strlit("android.permission.READ_CALENDAR");
        assert("android.permission.READ_CALENDAR"@.len() == 32);
        reveal_strlit("android.permission.WRITE_CALENDAR");
        assert("android.permission.WRITE_CALENDAR"@.len() == 33);
        reveal_strlit("android.permission.READ_EXTERNAL_STORAGE");
        assert("android.permission.READ_EXTERNAL_STORAGE"@.len() == 40);
        reveal_strlit("android.permission.WRITE_EXTERNAL_STORAGE");
        assert("android.permission.WRITE_EXTERNAL_STORAGE"@.len() == 41);
        reveal_strlit("android.permission.READ_MEDIA_IMAGES");
        assert("android.permission.READ_MEDIA_IMAGES"@.len() == 36);
        reveal_strlit("android.permission.READ_MEDIA_VIDEO");
        assert("android.permission.READ_MEDIA_VIDEO"@.len() == 35);
        reveal_strlit("android.permission.READ_MEDIA_AUDIO");
        assert("android.permission.READ_MEDIA_AUDIO"@.len() == 35);
        reveal_strlit("android.permission.POST_NOTIFICATIONS");
        assert("android.permission.POST_NOTIFICATIONS"@.len() == 37);
        assert(!is_sensitive_permission(p));
    }
    if p == "android.permission.FOREGROUND_SERVICE"@ {
        reveal_strlit("android.permission.FOREGROUND_SERVICE");
        assert(p.len() == 37);
        reveal_strlit("android.permission.CAMERA");
        assert("android.permission.CAMERA"@.len() == 25);
        reveal_strlit("android.permission.RECORD_AUDIO");
        assert("android.permission.RECORD_AUDIO"@.len() == 31);
        reveal_strlit("android.permission.ACCESS_FINE_LOCATION");
        assert("android.permission.ACCESS_FINE_LOCATION"@.len() == 39);
        reveal_strlit("android.permission.ACCESS_COARSE_LOCATION");
        assert("android.permission.ACCESS_COARSE_LOCATION"@.len() == 41);
        reveal_strlit("android.permission.READ_CONTACTS");
        assert("android.permission.READ_CONTACTS"@.len() == 32);
        reveal_strlit("android.permission.WRITE_CONTACTS");
        assert("android.permission.WRITE_CONTACTS"@.len() == 33);
        reveal_strlit("android.permission.READ_CALENDAR");
        assert("android.permission.READ_CALENDAR"@.len() == 32);
        reveal_strlit("android.permission.WRITE_CALENDAR");
        assert("android.permission.WRITE_CALENDAR"@.len() == 33);
        reveal_strlit("android.permission.READ_EXTERNAL_STORAGE");
        assert("android.permission.READ_EXTERNAL_STORAGE"@.len() == 40);
        reveal_strlit("android.permission.WRITE_EXTERNAL_STORAGE");
        assert("android.permission.WRITE_EXTERNAL_STORAGE"@.len() == 41);
        reveal_strlit("android.permission.READ_MEDIA_IMAGES");
        assert("android.permission.READ_MEDIA_IMAGES"@.len() == 36);
        reveal_strlit("android.permission.READ_MEDIA_VIDEO");
        assert("android.permission.READ_MEDIA_VIDEO"@.len() == 35);
        reveal_strlit("android.permission.READ_MEDIA_AUDIO");
        assert("android.permission.READ_MEDIA_AUDIO"@.len() == 35);
        reveal_strlit("android.permission.POST_NOTIFICATIONS");
        assert("android.permission.POST_NOTIFICATIONS"@[19] == 'P');
        assert(p[19] == 'F');
        assert(!is_sensitive_permission(p));
    }
}

/// A line of the confirmation text for each detail the metadata has, one after another
/// in this order: name, package, version, version code, then the size; none for a detail
/// it lacks.
pub proof fn law_summary_lines(path: Seq<char>, m: SpecApkMetadata, size_text: Seq<char>)
    ensures
        ({
            let t = spec_metadata_summary(path, m, size_text);
            let name = match m.app_label {
                Some(v) => "Name: "@ + v + "\n"@,
                None => Seq::empty(),
            };
            let package = match m.package_name {
                Some(v) => "Package: "@ + v + "\n"@,
                None => Seq::empty(),
            };
            let version = match m.version_name {
                Some(v) => "Version: "@ + v + "\n"@,
                None => Seq::empty(),
            };
            let code = match m.version_code {
                Some(v) => "Version code: "@ + v + "\n"@,
                None => Seq::empty(),
            };
            let details = "Install this application?\n\nFile: "@ + path + "\n"@ + name + package
                + version + code + "Size: "@ + size_text + "\n"@;
            details.len() <= t.len() && t.subrange(0, details.len() as int) == details
        }),
{
    reveal_strlit("Install this application?\n\nFile: ");
    reveal_strlit("Install this application?\n\n");
    reveal_strlit("File: ");
    reveal_strlit("Name: ");
    reveal_strlit("Name");
    reveal_strlit("Package: ");
    reveal_strlit("Package");
    reveal_strlit("Version: ");
    reveal_strlit("Version");
    reveal_strlit("Version code: ");
    reveal_strlit("Version code");
    reveal_strlit("\n");
    let t = spec_metadata_summary(path, m, size_text);
    let name = match m.app_label {
        Some(v) => "Name: "@ + v + "\n"@,
        None => Seq::empty(),
    };
    let package = match m.package_name {
        Some(v) => "Package: "@ + v + "\n"@,
        None => Seq::empty(),
    };
    let version = match m.version_name {
        Some(v) => "Version: "@ + v + "\n"@,
        None => Seq::empty(),
    };
    let code = match m.version_code {
        Some(v) => "Version code: "@ + v + "\n"@,
        None => Seq::empty(),
    };
    assert(optional_line("Name"@, m.app_label) =~= name);
    assert(optional_line("Package"@, m.package_name) =~= package);
    assert(optional_line("Version"@, m.version_name) =~= version);
    assert(optional_line("Version code"@, m.version_code) =~= code);
    let details = "Install this application?\n\nFile: "@ + path + "\n"@ + name + package + version
        + code + "Size: "@ + size_text + "\n"@;
    let head = "Install this application?\n\n"@ + "File: "@ + path + seq!['\n'] + optional_line(
        "Name"@,
        m.app_label,
    ) + optional_line("Package"@, m.package_name) + optional_line("Version"@, m.version_name)
        + optional_line("Version code"@, m.version_code) + "Size: "@ + size_text + seq!['\n'];
    assert(head =~= details);
    assert(t.subrange(0, head.len() as int) =~= head);
}

} // verus!
