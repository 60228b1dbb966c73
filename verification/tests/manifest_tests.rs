use droidianos::apk::metadata_from_manifest;
use droidianos::manifest::{parse_manifest, Element, ManifestError};

fn put_u16(out: &mut Vec<u8>, v: u16) {
    out.extend_from_slice(&v.to_le_bytes());
}

fn put_u32(out: &mut Vec<u8>, v: u32) {
    out.extend_from_slice(&v.to_le_bytes());
}

/// A string pool chunk holding the strings, UTF-8 or UTF-16 encoded.
fn string_pool(strings: &[&str], utf8: bool) -> Vec<u8> {
    let mut data: Vec<u8> = Vec::new();
    let mut offsets: Vec<u32> = Vec::new();
    for s in strings {
        offsets.push(data.len() as u32);
        if utf8 {
            data.push(s.chars().count() as u8);
            data.push(s.len() as u8);
            data.extend_from_slice(s.as_bytes());
            data.push(0);
        } else {
            let units: Vec<u16> = s.encode_utf16().collect();
            put_u16(&mut data, units.len() as u16);
            for u in &units {
                put_u16(&mut data, *u);
            }
            put_u16(&mut data, 0);
        }
    }
    while data.len() % 4 != 0 {
        data.push(0);
    }
    let header_size: u32 = 28;
    let strings_start = header_size + 4 * strings.len() as u32;
    let chunk_size = strings_start + data.len() as u32;
    let mut out = Vec::new();
    put_u16(&mut out, 0x0001);
    put_u16(&mut out, header_size as u16);
    put_u32(&mut out, chunk_size);
    put_u32(&mut out, strings.len() as u32);
    put_u32(&mut out, 0);
    put_u32(&mut out, if utf8 { 0x100 } else { 0 });
    put_u32(&mut out, strings_start);
    put_u32(&mut out, 0);
    for o in &offsets {
        put_u32(&mut out, *o);
    }
    out.extend_from_slice(&data);
    out
}

/// One attribute: name index, raw value index, data type and data.
struct Attr {
    name: u32,
    raw: u32,
    data_type: u8,
    data: u32,
}

fn start_element(name: u32, attrs: &[Attr]) -> Vec<u8> {
    let header_size: u16 = 16;
    let chunk_size = 16 + 20 + 20 * attrs.len() as u32;
    let mut out = Vec::new();
    put_u16(&mut out, 0x0102);
    put_u16(&mut out, header_size);
    put_u32(&mut out, chunk_size);
    put_u32(&mut out, 1);
    put_u32(&mut out, u32::MAX);
    put_u32(&mut out, u32::MAX);
    put_u32(&mut out, name);
    put_u16(&mut out, 20);
    put_u16(&mut out, 20);
    put_u16(&mut out, attrs.len() as u16);
    put_u16(&mut out, 0);
    put_u16(&mut out, 0);
    put_u16(&mut out, 0);
    for a in attrs {
        put_u32(&mut out, u32::MAX);
        put_u32(&mut out, a.name);
        put_u32(&mut out, a.raw);
        put_u16(&mut out, 8);
        out.push(0);
        out.push(a.data_type);
        put_u32(&mut out, a.data);
    }
    out
}

fn document(chunks: &[Vec<u8>]) -> Vec<u8> {
    let mut body = Vec::new();
    for c in chunks {
        body.extend_from_slice(c);
    }
    let mut out = Vec::new();
    put_u16(&mut out, 0x0003);
    put_u16(&mut out, 8);
    put_u32(&mut out, 8 + body.len() as u32);
    out.extend_from_slice(&body);
    out
}

const STRINGS: [&str; 10] = [
    "manifest",
    "package",
    "org.example.app",
    "versionName",
    "1.2",
    "versionCode",
    "application",
    "label",
    "uses-permission",
    "name",
];

fn sample_manifest(utf8: bool) -> Vec<u8> {
    let mut strings: Vec<&str> = STRINGS.to_vec();
    strings.push("android.permission.CAMERA");
    strings.push("Example");
    document(&[
        string_pool(&strings, utf8),
        start_element(
            0,
            &[
                Attr { name: 1, raw: 2, data_type: 3, data: 2 },
                Attr { name: 3, raw: 4, data_type: 3, data: 4 },
                Attr { name: 5, raw: u32::MAX, data_type: 0x10, data: 42 },
            ],
        ),
        start_element(6, &[Attr { name: 7, raw: u32::MAX, data_type: 0x03, data: 11 }]),
        start_element(8, &[Attr { name: 9, raw: 10, data_type: 3, data: 10 }]),
    ])
}

fn attr(e: &Element, name: &str) -> Option<String> {
    e.attributes.iter().find(|a| a.name == name).and_then(|a| a.value.clone())
}

#[test]
fn parse_manifest_reads_elements_and_attributes_utf8() {
    let elements = parse_manifest(&sample_manifest(true)).unwrap();
    assert_eq!(elements.len(), 3);
    assert_eq!(elements[0].name, "manifest");
    assert_eq!(attr(&elements[0], "package").as_deref(), Some("org.example.app"));
    assert_eq!(attr(&elements[0], "versionName").as_deref(), Some("1.2"));
    assert_eq!(attr(&elements[0], "versionCode").as_deref(), Some("42"));
    assert_eq!(elements[1].name, "application");
    assert_eq!(attr(&elements[1], "label").as_deref(), Some("Example"));
    assert_eq!(elements[2].name, "uses-permission");
    assert_eq!(attr(&elements[2], "name").as_deref(), Some("android.permission.CAMERA"));
}

#[test]
fn parse_manifest_reads_utf16_string_pool() {
    let elements = parse_manifest(&sample_manifest(false)).unwrap();
    assert_eq!(elements.len(), 3);
    assert_eq!(attr(&elements[0], "package").as_deref(), Some("org.example.app"));
    assert_eq!(attr(&elements[1], "label").as_deref(), Some("Example"));
}

#[test]
fn typed_values_are_rendered_by_type() {
    let strings = ["e", "dec", "hex", "ref", "other", "bad"];
    let bytes = document(&[
        string_pool(&strings, true),
        start_element(
            0,
            &[
                Attr { name: 1, raw: u32::MAX, data_type: 0x10, data: 7 },
                Attr { name: 2, raw: u32::MAX, data_type: 0x11, data: 255 },
                Attr { name: 3, raw: u32::MAX, data_type: 0x01, data: 0x7f01_0001 },
                Attr { name: 4, raw: u32::MAX, data_type: 0x12, data: 1 },
                Attr { name: 5, raw: u32::MAX, data_type: 0x03, data: 99 },
                Attr { name: 77, raw: u32::MAX, data_type: 0x10, data: 1 },
            ],
        ),
    ]);
    let elements = parse_manifest(&bytes).unwrap();
    let e = &elements[0];
    assert_eq!(e.attributes.len(), 5);
    assert_eq!(attr(e, "dec").as_deref(), Some("7"));
    assert_eq!(attr(e, "hex").as_deref(), Some("0xff"));
    assert_eq!(attr(e, "ref").as_deref(), Some("@0x7f010001"));
    assert_eq!(attr(e, "other"), None);
    assert_eq!(attr(e, "bad"), None);
}

#[test]
fn element_with_unknown_name_is_skipped() {
    let bytes = document(&[string_pool(&["a"], true), start_element(5, &[])]);
    assert_eq!(parse_manifest(&bytes).unwrap().len(), 0);
}

#[test]
fn too_small_manifest_is_refused() {
    assert_eq!(parse_manifest(&[0, 1, 2]).unwrap_err(), ManifestError::TooSmall);
    assert_eq!(ManifestError::TooSmall.message(), "manifest is too small");
}

#[test]
fn invalid_chunk_is_refused() {
    let mut bytes = document(&[string_pool(&["a"], true)]);
    bytes[12] = 4;
    bytes[13] = 0;
    bytes[14] = 0;
    bytes[15] = 0;
    assert_eq!(parse_manifest(&bytes).unwrap_err(), ManifestError::InvalidChunk);
    let mut too_long = document(&[string_pool(&["a"], true)]);
    too_long[12] = 0xff;
    assert_eq!(parse_manifest(&too_long).unwrap_err(), ManifestError::InvalidChunk);
    assert_eq!(ManifestError::InvalidChunk.message(), "manifest chunk is invalid");
}

#[test]
fn missing_string_pool_is_refused() {
    let bytes = document(&[start_element(0, &[])]);
    assert_eq!(parse_manifest(&bytes).unwrap_err(), ManifestError::StringPoolNotFound);
    let header_only = vec![3, 0, 8, 0, 8, 0, 0, 0];
    assert_eq!(parse_manifest(&header_only).unwrap_err(), ManifestError::StringPoolNotFound);
}

#[test]
fn invalid_utf8_string_is_refused() {
    let mut pool = string_pool(&["ab"], true);
    let data = 28 + 4;
    pool[data + 2] = 0xff;
    pool[data + 3] = 0xfe;
    let bytes = document(&[pool]);
    assert_eq!(parse_manifest(&bytes).unwrap_err(), ManifestError::Utf8Invalid);
    assert_eq!(ManifestError::Utf8Invalid.message(), "UTF-8 string is invalid");
}

#[test]
fn utf8_string_past_the_end_is_refused() {
    let mut pool = string_pool(&["ab"], true);
    let data = 28 + 4;
    pool[data + 1] = 100;
    let bytes = document(&[pool]);
    assert_eq!(parse_manifest(&bytes).unwrap_err(), ManifestError::Utf8OutOfBounds);
}

#[test]
fn invalid_utf16_string_is_refused() {
    let mut pool = string_pool(&["a"], false);
    let data = 28 + 4;
    pool[data + 2] = 0x00;
    pool[data + 3] = 0xd8;
    let bytes = document(&[pool]);
    assert_eq!(parse_manifest(&bytes).unwrap_err(), ManifestError::Utf16Invalid);
}

#[test]
fn utf16_string_past_the_end_is_refused() {
    let mut pool = string_pool(&["a"], false);
    let data = 28 + 4;
    pool[data] = 50;
    let bytes = document(&[pool]);
    assert_eq!(parse_manifest(&bytes).unwrap_err(), ManifestError::Utf16OutOfBounds);
}

#[test]
fn string_offset_past_the_end_is_refused() {
    let mut pool = string_pool(&["a"], true);
    pool[28] = 200;
    let bytes = document(&[pool]);
    assert_eq!(parse_manifest(&bytes).unwrap_err(), ManifestError::LengthOutOfBounds);
    assert_eq!(ManifestError::LengthOutOfBounds.message(), "length is out of bounds");
}

#[test]
fn attribute_past_the_end_is_refused() {
    let mut element = start_element(0, &[Attr { name: 0, raw: 0, data_type: 3, data: 0 }]);
    element[28] = 9;
    let bytes = document(&[string_pool(&["a"], true), element]);
    assert_eq!(parse_manifest(&bytes).unwrap_err(), ManifestError::ReadOutOfBounds);
    assert_eq!(ManifestError::ReadOutOfBounds.message(), "read is out of bounds");
}

#[test]
fn metadata_from_manifest_builds_the_metadata() {
    let metadata = metadata_from_manifest(&sample_manifest(true), 2048).unwrap();
    assert_eq!(metadata.package_name.as_deref(), Some("org.example.app"));
    assert_eq!(metadata.version_name.as_deref(), Some("1.2"));
    assert_eq!(metadata.version_code.as_deref(), Some("42"));
    assert_eq!(metadata.app_label.as_deref(), Some("Example"));
    assert_eq!(metadata.permissions.len(), 1);
    assert_eq!(metadata.permissions[0].id, "android.permission.CAMERA");
    assert_eq!(metadata.permissions[0].class_name, "sensitive");
    assert_eq!(metadata.apk_size_bytes, 2048);
    assert!(metadata_from_manifest(&[1, 2], 0).is_err());
}
