//! Android binary XML (`AndroidManifest.xml` inside an APK): string pool and
//! start-element chunks, decoded into elements with named, typed attributes.

use vstd::prelude::*;
use vstd::slice::slice_subrange;
use vstd::utf8::{decode_utf8, valid_utf8};
use crate::text::{decimal, hex, hex_fixed, push_char, push_decimal, push_hex, push_hex_fixed};

verus! {

pub const RES_STRING_POOL_TYPE: u16 = 0x0001;

pub const RES_XML_START_ELEMENT_TYPE: u16 = 0x0102;

pub const UTF8_FLAG: u32 = 0x0000_0100;

pub const TYPE_STRING: u8 = 0x03;

pub const TYPE_INT_DEC: u8 = 0x10;

pub const TYPE_INT_HEX: u8 = 0x11;

pub const TYPE_REFERENCE: u8 = 0x01;

/// Why a manifest could not be decoded.
#[derive(Clone, Copy, Debug, PartialEq, Eq, Structural)]
pub enum ManifestError {
    TooSmall,
    InvalidChunk,
    StringPoolNotFound,
    ReadOutOfBounds,
    LengthOutOfBounds,
    Utf8OutOfBounds,
    Utf8Invalid,
    Utf16OutOfBounds,
    Utf16Invalid,
}

pub open spec fn spec_error_message(e: ManifestError) -> Seq<char> {
    match e {
        ManifestError::TooSmall => "manifest is too small"@,
        ManifestError::InvalidChunk => "manifest chunk is invalid"@,
        ManifestError::StringPoolNotFound => "manifest string pool not found"@,
        ManifestError::ReadOutOfBounds => "read is out of bounds"@,
        ManifestError::LengthOutOfBounds => "length is out of bounds"@,
        ManifestError::Utf8OutOfBounds => "UTF-8 string is out of bounds"@,
        ManifestError::Utf8Invalid => "UTF-8 string is invalid"@,
        ManifestError::Utf16OutOfBounds => "UTF-16 string is out of bounds"@,
        ManifestError::Utf16Invalid => "UTF-16 string is invalid"@,
    }
}

impl ManifestError {
    /// The human-readable description of the error.
    pub fn message(&self) -> (m: &'static str)
        ensures
            m@ == spec_error_message(*self),
    {
        match self {
            ManifestError::TooSmall => "manifest is too small",
            ManifestError::InvalidChunk => "manifest chunk is invalid",
            ManifestError::StringPoolNotFound => "manifest string pool not found",
            ManifestError::ReadOutOfBounds => "read is out of bounds",
            ManifestError::LengthOutOfBounds => "length is out of bounds",
            ManifestError::Utf8OutOfBounds => "UTF-8 string is out of bounds",
            ManifestError::Utf8Invalid => "UTF-8 string is invalid",
            ManifestError::Utf16OutOfBounds => "UTF-16 string is out of bounds",
            ManifestError::Utf16Invalid => "UTF-16 string is invalid",
        }
    }
}

/// An attribute of a manifest element: its name and, when it has one, its value as text.
#[derive(Debug)]
pub struct Attribute {
    pub name: String,
    pub value: Option<String>,
}

/// A start element of the manifest with its attributes in document order.
#[derive(Debug)]
pub struct Element {
    pub name: String,
    pub attributes: Vec<Attribute>,
}

pub struct SpecAttribute {
    pub name: Seq<char>,
    pub value: Option<Seq<char>>,
}

pub struct SpecElement {
    pub name: Seq<char>,
    pub attributes: Seq<SpecAttribute>,
}

impl DeepView for Attribute {
    type V = SpecAttribute;

    open spec fn deep_view(&self) -> SpecAttribute {
        SpecAttribute { name: self.name@, value: self.value.deep_view() }
    }
}

impl DeepView for Element {
    type V = SpecElement;

    open spec fn deep_view(&self) -> SpecElement {
        SpecElement { name: self.name@, attributes: self.attributes.deep_view() }
    }
}

// ---------------------------------------------------------------------------
// Little-endian reads
// ---------------------------------------------------------------------------

pub open spec fn le16(b: Seq<u8>, off: int) -> int {
    b[off] as int + 256 * b[off + 1] as int
}

pub open spec fn le32(b: Seq<u8>, off: int) -> int {
    b[off] as int + 256 * b[off + 1] as int + 65536 * b[off + 2] as int + 16777216 * b[off
        + 3] as int
}

pub open spec fn spec_u8_at(b: Seq<u8>, off: int) -> Result<u8, ManifestError> {
    if 0 <= off < b.len() {
        Ok(b[off])
    } else {
        Err(ManifestError::ReadOutOfBounds)
    }
}

pub open spec fn spec_u16_at(b: Seq<u8>, off: int) -> Result<u16, ManifestError> {
    if off < 0 || off + 2 > b.len() {
        Err(ManifestError::ReadOutOfBounds)
    } else {
        Ok(le16(b, off) as u16)
    }
}

pub open spec fn spec_u32_at(b: Seq<u8>, off: int) -> Result<u32, ManifestError> {
    if off < 0 || off + 4 > b.len() {
        Err(ManifestError::ReadOutOfBounds)
    } else {
        Ok(le32(b, off) as u32)
    }
}

/// The machine offset `pos` stands for the offset `o`: equal to it, or saturated at
/// `usize::MAX` when `o` does not fit (every read there is out of bounds).
pub open spec fn clamped(pos: usize, o: int) -> bool {
    pos as int == o || (pos == usize::MAX && o >= usize::MAX)
}

/// Saturating addition of two offsets.
fn off_add(a: usize, b: usize, Ghost(oa): Ghost<int>, Ghost(ob): Ghost<int>) -> (r: usize)
    requires
        clamped(a, oa),
        clamped(b, ob),
        oa >= 0,
        ob >= 0,
    ensures
        clamped(r, oa + ob),
{
    a.saturating_add(b)
}

/// Saturating product of two offsets.
fn off_mul(a: usize, b: usize) -> (r: usize)
    ensures
        clamped(r, a * b),
{
    match a.checked_mul(b) {
        Some(p) => p,
        None => usize::MAX,
    }
}

/// Bounds-checked little-endian reads from a byte buffer.
struct Cursor<'a> {
    bytes: &'a [u8],
}

impl<'a> Cursor<'a> {
    fn u8(&self, pos: usize, Ghost(o): Ghost<int>) -> (r: Result<u8, ManifestError>)
        requires
            clamped(pos, o),
            o >= 0,
        ensures
            r == spec_u8_at(self.bytes@, o),
    {
        if pos < self.bytes.len() {
            Ok(self.bytes[pos])
        } else {
            Err(ManifestError::ReadOutOfBounds)
        }
    }

    fn u16(&self, pos: usize, Ghost(o): Ghost<int>) -> (r: Result<u16, ManifestError>)
        requires
            clamped(pos, o),
            o >= 0,
        ensures
            r == spec_u16_at(self.bytes@, o),
    {
        if pos > self.bytes.len() || self.bytes.len() - pos < 2 {
            return Err(ManifestError::ReadOutOfBounds);
        }
        Ok(self.bytes[pos] as u16 + (self.bytes[pos + 1] as u16) * 256)
    }

    fn u32(&self, pos: usize, Ghost(o): Ghost<int>) -> (r: Result<u32, ManifestError>)
        requires
            clamped(pos, o),
            o >= 0,
        ensures
            r == spec_u32_at(self.bytes@, o),
    {
        if pos > self.bytes.len() || self.bytes.len() - pos < 4 {
            return Err(ManifestError::ReadOutOfBounds);
        }
        Ok(self.bytes[pos] as u32 + (self.bytes[pos + 1] as u32) * 256 + (self.bytes[pos
            + 2] as u32) * 65536 + (self.bytes[pos + 3] as u32) * 16777216)
    }
}

// ---------------------------------------------------------------------------
// String lengths and strings
// ---------------------------------------------------------------------------

/// A UTF-8 pool length: one byte, or two when the high bit of the first is set.
#[verifier::opaque]
pub open spec fn spec_length8(b: Seq<u8>, off: int) -> Result<(int, int), ManifestError> {
    if off < 0 || off >= b.len() {
        Err(ManifestError::LengthOutOfBounds)
    } else if b[off] < 128 {
        Ok((b[off] as int, off + 1))
    } else if off + 1 >= b.len() {
        Err(ManifestError::LengthOutOfBounds)
    } else {
        Ok(((b[off] - 128) * 256 + b[off + 1] as int, off + 2))
    }
}

/// A UTF-16 pool length: one unit, or two when the high bit of the first is set.
#[verifier::opaque]
pub open spec fn spec_length16(b: Seq<u8>, off: int) -> Result<(int, int), ManifestError> {
    if off < 0 || off + 2 > b.len() {
        Err(ManifestError::LengthOutOfBounds)
    } else if le16(b, off) < 0x8000 {
        Ok((le16(b, off), off + 2))
    } else if off + 4 > b.len() {
        Err(ManifestError::LengthOutOfBounds)
    } else {
        Ok(((le16(b, off) - 0x8000) * 65536 + le16(b, off + 2), off + 4))
    }
}

/// Decoding of UTF-16 code units; `None` when a surrogate is unpaired.
pub open spec fn decode_utf16(units: Seq<u16>) -> Option<Seq<char>>
    decreases units.len(),
{
    if units.len() == 0 {
        Some(Seq::empty())
    } else if units[0] < 0xd800 || units[0] > 0xdfff {
        match decode_utf16(units.drop_first()) {
            Some(rest) => Some(seq![(units[0] as u32) as char] + rest),
            None => None,
        }
    } else if units[0] <= 0xdbff && units.len() >= 2 && 0xdc00 <= units[1] <= 0xdfff {
        let c = (0x10000 + (units[0] - 0xd800) * 0x400 + (units[1] - 0xdc00)) as u32;
        match decode_utf16(units.subrange(2, units.len() as int)) {
            Some(rest) => Some(seq![c as char] + rest),
            None => None,
        }
    } else {
        None
    }
}

#[verifier::opaque]
pub open spec fn spec_utf8_string(b: Seq<u8>, off: int) -> Result<Seq<char>, ManifestError> {
    match spec_length8(b, off) {
        Err(e) => Err(e),
        Ok((_, next)) => match spec_length8(b, next) {
            Err(e) => Err(e),
            Ok((n, data)) => if data + n > b.len() {
                Err(ManifestError::Utf8OutOfBounds)
            } else if valid_utf8(b.subrange(data, data + n)) {
                Ok(decode_utf8(b.subrange(data, data + n)))
            } else {
                Err(ManifestError::Utf8Invalid)
            },
        },
    }
}

pub open spec fn utf16_units(b: Seq<u8>, data: int, n: nat) -> Seq<u16> {
    Seq::new(n, |i: int| le16(b, data + 2 * i) as u16)
}

#[verifier::opaque]
pub open spec fn spec_utf16_string(b: Seq<u8>, off: int) -> Result<Seq<char>, ManifestError> {
    match spec_length16(b, off) {
        Err(e) => Err(e),
        Ok((n, data)) => if data + 2 * n > b.len() {
            Err(ManifestError::Utf16OutOfBounds)
        } else {
            match decode_utf16(utf16_units(b, data, n as nat)) {
                Some(s) => Ok(s),
                None => Err(ManifestError::Utf16Invalid),
            }
        },
    }
}

/// `String::from_utf8`: the text the bytes encode, or `None` when they are not valid UTF-8.
#[verifier::external_body]
fn utf8_to_string(bytes: &[u8]) -> (r: Option<String>)
    ensures
        r is Some <==> valid_utf8(bytes@),
        r matches Some(s) ==> s@ == decode_utf8(bytes@),
{
    String::from_utf8(bytes.to_vec()).ok()
}

/// `String::from_utf16`: the text the code units encode, or `None` when a surrogate is unpaired.
#[verifier::external_body]
fn utf16_to_string(units: &[u16]) -> (r: Option<String>)
    ensures
        r is Some <==> decode_utf16(units@) is Some,
        r matches Some(s) ==> decode_utf16(units@) == Some(s@),
{
    String::from_utf16(units).ok()
}

fn read_length8(bytes: &[u8], offset: usize, Ghost(o): Ghost<int>) -> (r: Result<(usize, usize), ManifestError>)
    requires
        clamped(offset, o),
        o >= 0,
    ensures
        r is Ok <==> spec_length8(bytes@, o) is Ok,
        r matches Ok((n, next)) ==> next <= bytes@.len(),
        r matches Ok((n, next)) ==> spec_length8(bytes@, o) == Ok::<
            (int, int),
            ManifestError,
        >((n as int, next as int)),
        r matches Err(e) ==> spec_length8(bytes@, o) == Err::<(int, int), ManifestError>(
            e,
        ),
{
    reveal(spec_length8);
    if offset >= bytes.len() {
        return Err(ManifestError::LengthOutOfBounds);
    }
    let first = bytes[offset] as usize;
    if first < 128 {
        Ok((first, offset + 1))
    } else {
        if offset + 1 >= bytes.len() {
            return Err(ManifestError::LengthOutOfBounds);
        }
        Ok(((first - 128) * 256 + bytes[offset + 1] as usize, offset + 2))
    }
}

fn read_length16(bytes: &[u8], offset: usize, Ghost(o): Ghost<int>) -> (r: Result<(usize, usize), ManifestError>)
    requires
        clamped(offset, o),
        o >= 0,
    ensures
        r is Ok <==> spec_length16(bytes@, o) is Ok,
        r matches Ok((n, next)) ==> next <= bytes@.len(),
        r matches Ok((n, next)) ==> spec_length16(bytes@, o) == Ok::<
            (int, int),
            ManifestError,
        >((n as int, next as int)),
        r matches Err(e) ==> spec_length16(bytes@, o) == Err::<(int, int), ManifestError>(
            e,
        ),
{
    reveal(spec_length16);
    if offset > bytes.len() || bytes.len() - offset < 2 {
        return Err(ManifestError::LengthOutOfBounds);
    }
    let first = bytes[offset] as usize + (bytes[offset + 1] as usize) * 256;
    if first < 0x8000 {
        Ok((first, offset + 2))
    } else {
        if bytes.len() - offset < 4 {
            return Err(ManifestError::LengthOutOfBounds);
        }
        let second = bytes[offset + 2] as usize + (bytes[offset + 3] as usize) * 256;
        Ok(((first - 0x8000) * 65536 + second, offset + 4))
    }
}

fn read_utf8_string(bytes: &[u8], offset: usize, Ghost(o): Ghost<int>) -> (r: Result<String, ManifestError>)
    requires
        clamped(offset, o),
        o >= 0,
    ensures
        r is Ok <==> spec_utf8_string(bytes@, o) is Ok,
        r matches Ok(s) ==> spec_utf8_string(bytes@, o) == Ok::<
            Seq<char>,
            ManifestError,
        >(s@),
        r matches Err(e) ==> spec_utf8_string(bytes@, o) == Err::<
            Seq<char>,
            ManifestError,
        >(e),
{
    reveal(spec_utf8_string);
    let (_, next_offset) = match read_length8(bytes, offset, Ghost(o)) {
        Ok(v) => v,
        Err(e) => return Err(e),
    };
    let (byte_length, data_offset) = match read_length8(bytes, next_offset, Ghost(next_offset as int)) {
        Ok(v) => v,
        Err(e) => return Err(e),
    };
    if byte_length > bytes.len() - data_offset {
        return Err(ManifestError::Utf8OutOfBounds);
    }
    let end = data_offset + byte_length;
    let slice = slice_subrange(bytes, data_offset, end);
    match utf8_to_string(slice) {
        Some(s) => Ok(s),
        None => Err(ManifestError::Utf8Invalid),
    }
}

fn read_utf16_string(bytes: &[u8], offset: usize, Ghost(o): Ghost<int>) -> (r: Result<String, ManifestError>)
    requires
        clamped(offset, o),
        o >= 0,
    ensures
        r is Ok <==> spec_utf16_string(bytes@, o) is Ok,
        r matches Ok(s) ==> spec_utf16_string(bytes@, o) == Ok::<
            Seq<char>,
            ManifestError,
        >(s@),
        r matches Err(e) ==> spec_utf16_string(bytes@, o) == Err::<
            Seq<char>,
            ManifestError,
        >(e),
{
    reveal(spec_utf16_string);
    let (char_length, data_offset) = match read_length16(bytes, offset, Ghost(o)) {
        Ok(v) => v,
        Err(e) => return Err(e),
    };
    if char_length > (bytes.len() - data_offset) / 2 {
        return Err(ManifestError::Utf16OutOfBounds);
    }
    let mut values: Vec<u16> = Vec::new();
    let mut index: usize = 0;
    while index < char_length
        invariant
            index <= char_length,
            data_offset + 2 * char_length <= bytes@.len(),
            bytes@.len() <= usize::MAX,
            values@ == utf16_units(bytes@, data_offset as int, index as nat),
        decreases char_length - index,
    {
        let value_offset = data_offset + index * 2;
        let value = bytes[value_offset] as u16 + (bytes[value_offset + 1] as u16) * 256;
        values.push(value);
        index = index + 1;
        assert(values@ =~= utf16_units(bytes@, data_offset as int, index as nat));
    }
    match utf16_to_string(values.as_slice()) {
        Some(s) => Ok(s),
        None => Err(ManifestError::Utf16Invalid),
    }
}

// ---------------------------------------------------------------------------
// String pool
// ---------------------------------------------------------------------------

pub open spec fn spec_pool_string(
    b: Seq<u8>,
    offsets_start: int,
    data_start: int,
    utf8: bool,
    index: int,
) -> Result<Seq<char>, ManifestError> {
    match spec_u32_at(b, offsets_start + 4 * index) {
        Err(e) => Err(e),
        Ok(string_offset) => if utf8 {
            spec_utf8_string(b, data_start + string_offset)
        } else {
            spec_utf16_string(b, data_start + string_offset)
        },
    }
}

/// The first `n` strings of a pool, or the error met while reading them in order.
pub open spec fn spec_pool_strings(
    b: Seq<u8>,
    offsets_start: int,
    data_start: int,
    utf8: bool,
    n: nat,
) -> Result<Seq<Seq<char>>, ManifestError>
    decreases n,
{
    if n == 0 {
        Ok(Seq::empty())
    } else {
        match spec_pool_strings(b, offsets_start, data_start, utf8, (n - 1) as nat) {
            Err(e) => Err(e),
            Ok(prev) => match spec_pool_string(b, offsets_start, data_start, utf8, n - 1) {
                Err(e) => Err(e),
                Ok(s) => Ok(prev.push(s)),
            },
        }
    }
}

/// The strings of the pool chunk that starts at `co`.
#[verifier::opaque]
pub open spec fn spec_string_pool(b: Seq<u8>, co: int) -> Result<Seq<Seq<char>>, ManifestError> {
    match spec_u16_at(b, co + 2) {
        Err(e) => Err(e),
        Ok(header_size) => match spec_u32_at(b, co + 8) {
            Err(e) => Err(e),
            Ok(count) => match spec_u32_at(b, co + 16) {
                Err(e) => Err(e),
                Ok(flags) => match spec_u32_at(b, co + 20) {
                    Err(e) => Err(e),
                    Ok(strings_start) => spec_pool_strings(
                        b,
                        co + header_size,
                        co + strings_start,
                        (flags / 256) % 2 == 1,
                        count as nat,
                    ),
                },
            },
        },
    }
}

fn parse_string_pool(bytes: &[u8], chunk_offset: usize) -> (r: Result<Vec<String>, ManifestError>)
    requires
        chunk_offset <= bytes@.len(),
    ensures
        r is Ok <==> spec_string_pool(bytes@, chunk_offset as int) is Ok,
        r matches Ok(v) ==> spec_string_pool(bytes@, chunk_offset as int) == Ok::<
            Seq<Seq<char>>,
            ManifestError,
        >(v.deep_view()),
        r matches Err(e) ==> spec_string_pool(bytes@, chunk_offset as int) == Err::<
            Seq<Seq<char>>,
            ManifestError,
        >(e),
{
    reveal(spec_string_pool);
    let ghost co = chunk_offset as int;
    let cursor = Cursor { bytes };
    let header_size = match cursor.u16(off_add(chunk_offset, 2, Ghost(co), Ghost(2)), Ghost(co + 2)) {
        Ok(v) => v as usize,
        Err(e) => return Err(e),
    };
    let string_count = match cursor.u32(off_add(chunk_offset, 8, Ghost(co), Ghost(8)), Ghost(co + 8)) {
        Ok(v) => v as usize,
        Err(e) => return Err(e),
    };
    let flags = match cursor.u32(off_add(chunk_offset, 16, Ghost(co), Ghost(16)), Ghost(co + 16)) {
        Ok(v) => v,
        Err(e) => return Err(e),
    };
    let strings_start = match cursor.u32(off_add(chunk_offset, 20, Ghost(co), Ghost(20)), Ghost(co + 20)) {
        Ok(v) => v as usize,
        Err(e) => return Err(e),
    };
    let ghost os = co + header_size;
    let ghost ds = co + strings_start;
    let offsets_start = off_add(chunk_offset, header_size, Ghost(co), Ghost(header_size as int));
    let string_data_start = off_add(chunk_offset, strings_start, Ghost(co), Ghost(strings_start as int));
    let utf8 = (flags / 256) % 2 == 1;
    let mut strings: Vec<String> = Vec::new();
    let mut index: usize = 0;
    assert(strings.deep_view() =~= Seq::<Seq<char>>::empty());
    while index < string_count
        invariant
            index <= string_count,
            os >= 0,
            ds >= 0,
            co == chunk_offset as int,
            clamped(offsets_start, os),
            clamped(string_data_start, ds),
            spec_string_pool(bytes@, co) == spec_pool_strings(bytes@, os, ds, utf8, string_count as nat),
            spec_pool_strings(bytes@, os, ds, utf8, index as nat) == Ok::<
                Seq<Seq<char>>,
                ManifestError,
            >(strings.deep_view()),
        decreases string_count - index,
    {
        let value = read_pool_string(bytes, offsets_start, Ghost(os), string_data_start, Ghost(ds), utf8, index);
        let ghost prev = strings.deep_view();
        proof {
            lemma_pool_step(bytes@, os, ds, utf8, index as nat);
        }
        let value = match value {
            Ok(v) => v,
            Err(e) => {
                proof {
                    lemma_pool_error_persists(bytes@, os, ds, utf8, (index + 1) as nat, string_count as nat);
                }
                return Err(e);
            },
        };
        strings.push(value);
        assert(strings.deep_view() =~= prev.push(value@));
        index = index + 1;
    }
    Ok(strings)
}

proof fn lemma_pool_step(b: Seq<u8>, os: int, ds: int, utf8: bool, n: nat)
    ensures
        spec_pool_strings(b, os, ds, utf8, n + 1) == match spec_pool_strings(b, os, ds, utf8, n) {
            Err(e) => Err(e),
            Ok(prev) => match spec_pool_string(b, os, ds, utf8, n as int) {
                Err(e) => Err(e),
                Ok(s) => Ok(prev.push(s)),
            },
        },
{
    assert((n + 1) as nat - 1 == n);
}

/// Reads the `index`-th string of a pool.
fn read_pool_string(
    bytes: &[u8],
    offsets_start: usize,
    Ghost(os): Ghost<int>,
    string_data_start: usize,
    Ghost(ds): Ghost<int>,
    utf8: bool,
    index: usize,
) -> (r: Result<String, ManifestError>)
    requires
        clamped(offsets_start, os),
        clamped(string_data_start, ds),
        os >= 0,
        ds >= 0,
    ensures
        r is Ok <==> spec_pool_string(bytes@, os, ds, utf8, index as int) is Ok,
        r matches Ok(s) ==> spec_pool_string(bytes@, os, ds, utf8, index as int) == Ok::<Seq<char>, ManifestError>(s@),
        r matches Err(e) ==> spec_pool_string(bytes@, os, ds, utf8, index as int) == Err::<Seq<char>, ManifestError>(e),
{
    let cursor = Cursor { bytes };
    let ghost p = index * 4;
    let entry = off_add(offsets_start, off_mul(index, 4), Ghost(os), Ghost(p));
    let string_offset = match cursor.u32(entry, Ghost(os + p)) {
        Ok(v) => v as usize,
        Err(e) => return Err(e),
    };
    let ghost vo = ds + string_offset;
    let value_offset = off_add(string_data_start, string_offset, Ghost(ds), Ghost(string_offset as int));
    if utf8 {
        read_utf8_string(bytes, value_offset, Ghost(vo))
    } else {
        read_utf16_string(bytes, value_offset, Ghost(vo))
    }
}

/// An error met among the first `n` pool strings is the error of any longer prefix.
proof fn lemma_pool_error_persists(b: Seq<u8>, os: int, ds: int, utf8: bool, n: nat, m: nat)
    requires
        n <= m,
        spec_pool_strings(b, os, ds, utf8, n) is Err,
    ensures
        spec_pool_strings(b, os, ds, utf8, m) == spec_pool_strings(b, os, ds, utf8, n),
    decreases m - n,
{
    if n < m {
        lemma_pool_error_persists(b, os, ds, utf8, n, (m - 1) as nat);
    }
}

// ---------------------------------------------------------------------------
// Start elements
// ---------------------------------------------------------------------------

pub open spec fn spec_string_at(strings: Seq<Seq<char>>, index: int) -> Option<Seq<char>> {
    if 0 <= index < strings.len() {
        Some(strings[index])
    } else {
        None
    }
}

/// The text of an attribute value: its raw string when it has one, else the typed datum.
#[verifier::opaque]
pub open spec fn spec_typed_value(
    strings: Seq<Seq<char>>,
    raw_value_index: u32,
    data_type: u8,
    data: u32,
) -> Option<Seq<char>> {
    if raw_value_index != u32::MAX {
        spec_string_at(strings, raw_value_index as int)
    } else if data_type == TYPE_STRING {
        spec_string_at(strings, data as int)
    } else if data_type == TYPE_INT_DEC {
        Some(decimal(data as nat))
    } else if data_type == TYPE_INT_HEX {
        Some(seq!['0', 'x'] + hex(data as nat))
    } else if data_type == TYPE_REFERENCE {
        Some(seq!['@', '0', 'x'] + hex_fixed(data as nat, 8))
    } else {
        None
    }
}

fn string_at(strings: &Vec<String>, index: usize) -> (r: Option<String>)
    ensures
        r.deep_view() == spec_string_at(strings.deep_view(), index as int),
{
    if index < strings.len() {
        Some(strings[index].clone())
    } else {
        None
    }
}

fn typed_value(strings: &Vec<String>, raw_value_index: u32, data_type: u8, data: u32) -> (r: Option<
    String,
>)
    ensures
        r.deep_view() == spec_typed_value(strings.deep_view(), raw_value_index, data_type, data),
{
    reveal(spec_typed_value);
    if raw_value_index != u32::MAX {
        return string_at(strings, raw_value_index as usize);
    }
    if data_type == TYPE_STRING {
        string_at(strings, data as usize)
    } else if data_type == TYPE_INT_DEC {
        let mut s = String::new();
        push_decimal(&mut s, data as u64);
        Some(s)
    } else if data_type == TYPE_INT_HEX {
        let mut s = String::new();
        push_char(&mut s, '0');
        push_char(&mut s, 'x');
        push_hex(&mut s, data);
        Some(s)
    } else if data_type == TYPE_REFERENCE {
        let mut s = String::new();
        push_char(&mut s, '@');
        push_char(&mut s, '0');
        push_char(&mut s, 'x');
        push_hex_fixed(&mut s, data, 8);
        Some(s)
    } else {
        None
    }
}

/// One attribute record at `off`; `None` when its name index is not in the pool.
pub open spec fn spec_attribute(b: Seq<u8>, off: int, strings: Seq<Seq<char>>) -> Result<
    Option<SpecAttribute>,
    ManifestError,
> {
    match spec_u32_at(b, off + 4) {
        Err(e) => Err(e),
        Ok(name_index) => match spec_u32_at(b, off + 8) {
            Err(e) => Err(e),
            Ok(raw_value_index) => match spec_u8_at(b, off + 15) {
                Err(e) => Err(e),
                Ok(data_type) => match spec_u32_at(b, off + 16) {
                    Err(e) => Err(e),
                    Ok(data) => match spec_string_at(strings, name_index as int) {
                        None => Ok(None),
                        Some(name) => Ok(
                            Some(
                                SpecAttribute {
                                    name,
                                    value: spec_typed_value(
                                        strings,
                                        raw_value_index,
                                        data_type,
                                        data,
                                    ),
                                },
                            ),
                        ),
                    },
                },
            },
        },
    }
}

/// The named attributes among the first `n` records.
pub open spec fn spec_attributes(
    b: Seq<u8>,
    start: int,
    size: int,
    strings: Seq<Seq<char>>,
    n: nat,
) -> Result<Seq<SpecAttribute>, ManifestError>
    decreases n,
{
    if n == 0 {
        Ok(Seq::empty())
    } else {
        match spec_attributes(b, start, size, strings, (n - 1) as nat) {
            Err(e) => Err(e),
            Ok(prev) => match spec_attribute(b, start + (n - 1) * size, strings) {
                Err(e) => Err(e),
                Ok(None) => Ok(prev),
                Ok(Some(a)) => Ok(prev.push(a)),
            },
        }
    }
}

/// The start-element chunk at `co`; `None` when its name index is not in the pool.
#[verifier::opaque]
pub open spec fn spec_start_element(
    b: Seq<u8>,
    co: int,
    header_size: int,
    strings: Seq<Seq<char>>,
) -> Result<Option<SpecElement>, ManifestError> {
    match spec_u32_at(b, co + 20) {
        Err(e) => Err(e),
        Ok(name_index) => match spec_u16_at(b, co + 24) {
            Err(e) => Err(e),
            Ok(attribute_start) => match spec_u16_at(b, co + 26) {
                Err(e) => Err(e),
                Ok(attribute_size) => match spec_u16_at(b, co + 28) {
                    Err(e) => Err(e),
                    Ok(attribute_count) => match spec_string_at(strings, name_index as int) {
                        None => Ok(None),
                        Some(name) => match spec_attributes(
                            b,
                            co + header_size + attribute_start,
                            attribute_size as int,
                            strings,
                            attribute_count as nat,
                        ) {
                            Err(e) => Err(e),
                            Ok(attributes) => Ok(Some(SpecElement { name, attributes })),
                        },
                    },
                },
            },
        },
    }
}

fn parse_start_element(
    bytes: &[u8],
    chunk_offset: usize,
    header_size: usize,
    strings: &Vec<String>,
) -> (r: Result<Option<Element>, ManifestError>)
    requires
        chunk_offset <= bytes@.len(),
    ensures
        r is Ok <==> spec_start_element(
            bytes@,
            chunk_offset as int,
            header_size as int,
            strings.deep_view(),
        ) is Ok,
        r matches Ok(e) ==> spec_start_element(
            bytes@,
            chunk_offset as int,
            header_size as int,
            strings.deep_view(),
        ) == Ok::<Option<SpecElement>, ManifestError>(e.deep_view()),
        r matches Err(e) ==> spec_start_element(
            bytes@,
            chunk_offset as int,
            header_size as int,
            strings.deep_view(),
        ) == Err::<Option<SpecElement>, ManifestError>(e),
{
    reveal(spec_start_element);
    let ghost co = chunk_offset as int;
    let cursor = Cursor { bytes };
    let name_index = match cursor.u32(off_add(chunk_offset, 20, Ghost(co), Ghost(20)), Ghost(co + 20)) {
        Ok(v) => v as usize,
        Err(e) => return Err(e),
    };
    let attribute_start = match cursor.u16(off_add(chunk_offset, 24, Ghost(co), Ghost(24)), Ghost(co + 24)) {
        Ok(v) => v as usize,
        Err(e) => return Err(e),
    };
    let attribute_size = match cursor.u16(off_add(chunk_offset, 26, Ghost(co), Ghost(26)), Ghost(co + 26)) {
        Ok(v) => v as usize,
        Err(e) => return Err(e),
    };
    let attribute_count = match cursor.u16(off_add(chunk_offset, 28, Ghost(co), Ghost(28)), Ghost(co + 28)) {
        Ok(v) => v as usize,
        Err(e) => return Err(e),
    };
    let name = match string_at(strings, name_index) {
        Some(name) => name,
        None => return Ok(None),
    };
    let ghost ao = co + header_size + attribute_start;
    let base = off_add(chunk_offset, header_size, Ghost(co), Ghost(header_size as int));
    let attributes_offset = off_add(base, attribute_start, Ghost(co + header_size), Ghost(attribute_start as int));
    let attributes = match parse_attributes(bytes, attributes_offset, Ghost(ao), attribute_size, attribute_count, strings) {
        Ok(v) => v,
        Err(e) => return Err(e),
    };
    Ok(Some(Element { name, attributes }))
}

/// An error met among the first `n` attribute records is the error of any longer prefix.
proof fn lemma_attributes_error_persists(
    b: Seq<u8>,
    start: int,
    size: int,
    strings: Seq<Seq<char>>,
    n: nat,
    m: nat,
)
    requires
        n <= m,
        spec_attributes(b, start, size, strings, n) is Err,
    ensures
        spec_attributes(b, start, size, strings, m) == spec_attributes(b, start, size, strings, n),
    decreases m - n,
{
    if n < m {
        lemma_attributes_error_persists(b, start, size, strings, n, (m - 1) as nat);
    }
}

proof fn lemma_attributes_step(b: Seq<u8>, start: int, size: int, strings: Seq<Seq<char>>, n: nat)
    ensures
        spec_attributes(b, start, size, strings, n + 1) == match spec_attributes(b, start, size, strings, n) {
            Err(e) => Err(e),
            Ok(prev) => match spec_attribute(b, start + n * size, strings) {
                Err(e) => Err(e),
                Ok(None) => Ok(prev),
                Ok(Some(a)) => Ok(prev.push(a)),
            },
        },
{
    assert((n + 1) as nat - 1 == n);
}

/// Reads one attribute record.
fn parse_attribute(bytes: &[u8], offset: usize, Ghost(off): Ghost<int>, strings: &Vec<String>) -> (r: Result<Option<Attribute>, ManifestError>)
    requires
        clamped(offset, off),
        off >= 0,
    ensures
        r is Ok <==> spec_attribute(bytes@, off, strings.deep_view()) is Ok,
        r matches Ok(a) ==> spec_attribute(bytes@, off, strings.deep_view()) == Ok::<Option<SpecAttribute>, ManifestError>(a.deep_view()),
        r matches Err(e) ==> spec_attribute(bytes@, off, strings.deep_view()) == Err::<Option<SpecAttribute>, ManifestError>(e),
{
    let cursor = Cursor { bytes };
    let name_index = match cursor.u32(off_add(offset, 4, Ghost(off), Ghost(4)), Ghost(off + 4)) {
        Ok(v) => v as usize,
        Err(e) => return Err(e),
    };
    let raw_value_index = match cursor.u32(off_add(offset, 8, Ghost(off), Ghost(8)), Ghost(off + 8)) {
        Ok(v) => v,
        Err(e) => return Err(e),
    };
    let data_type = match cursor.u8(off_add(offset, 15, Ghost(off), Ghost(15)), Ghost(off + 15)) {
        Ok(v) => v,
        Err(e) => return Err(e),
    };
    let data = match cursor.u32(off_add(offset, 16, Ghost(off), Ghost(16)), Ghost(off + 16)) {
        Ok(v) => v,
        Err(e) => return Err(e),
    };
    match string_at(strings, name_index) {
        Some(name) => {
            let value = typed_value(strings, raw_value_index, data_type, data);
            Ok(Some(Attribute { name, value }))
        },
        None => Ok(None),
    }
}

fn parse_attributes(
    bytes: &[u8],
    attributes_offset: usize,
    Ghost(ao): Ghost<int>,
    attribute_size: usize,
    attribute_count: usize,
    strings: &Vec<String>,
) -> (r: Result<Vec<Attribute>, ManifestError>)
    requires
        clamped(attributes_offset, ao),
        ao >= 0,
    ensures
        r is Ok <==> spec_attributes(bytes@, ao, attribute_size as int, strings.deep_view(), attribute_count as nat) is Ok,
        r matches Ok(v) ==> spec_attributes(bytes@, ao, attribute_size as int, strings.deep_view(), attribute_count as nat)
            == Ok::<Seq<SpecAttribute>, ManifestError>(v.deep_view()),
        r matches Err(e) ==> spec_attributes(bytes@, ao, attribute_size as int, strings.deep_view(), attribute_count as nat)
            == Err::<Seq<SpecAttribute>, ManifestError>(e),
{
    let cursor = Cursor { bytes };
    let ghost sv = strings.deep_view();
    let ghost size = attribute_size as int;
    let ghost count = attribute_count as nat;
    let mut attributes: Vec<Attribute> = Vec::new();
    let mut index: usize = 0;
    assert(attributes.deep_view() =~= Seq::<SpecAttribute>::empty());
    while index < attribute_count
        invariant
            index <= attribute_count,
            clamped(attributes_offset, ao),
            ao >= 0,
            sv == strings.deep_view(),
            size == attribute_size as int,
            count == attribute_count as nat,
            spec_attributes(bytes@, ao, size, sv, index as nat)
                == Ok::<Seq<SpecAttribute>, ManifestError>(attributes.deep_view()),
        decreases attribute_count - index,
    {
        let ghost p = index * attribute_size;
        let ghost off = ao + p;
        assert(p >= 0) by (nonlinear_arith)
            requires
                p == index * attribute_size,
        ;
        let offset = off_add(attributes_offset, off_mul(index, attribute_size), Ghost(ao), Ghost(p));
        let ghost prev = attributes.deep_view();
        proof {
            lemma_attributes_step(bytes@, ao, size, sv, index as nat);
        }
        match parse_attribute(bytes, offset, Ghost(off), strings) {
            Ok(Some(attribute)) => {
                attributes.push(attribute);
                assert(attributes.deep_view() =~= prev.push(attributes@.last().deep_view()));
            },
            Ok(None) => {},
            Err(e) => {
                proof { lemma_attributes_error_persists(bytes@, ao, size, sv, (index + 1) as nat, count); }
                return Err(e);
            },
        }
        index = index + 1;
    }
    Ok(attributes)
}

// ---------------------------------------------------------------------------
// Whole manifest
// ---------------------------------------------------------------------------

/// The chunks from `off` on, folded into the current string pool and the elements read so far.
pub open spec fn spec_chunks(
    b: Seq<u8>,
    off: int,
    strings: Seq<Seq<char>>,
    elements: Seq<SpecElement>,
) -> Result<(Seq<Seq<char>>, Seq<SpecElement>), ManifestError>
    decreases b.len() - off,
{
    if off < 0 || off + 8 > b.len() {
        Ok((strings, elements))
    } else {
        let chunk_type = le16(b, off);
        let header_size = le16(b, off + 2);
        let chunk_size = le32(b, off + 4);
        if chunk_size < 8 || off + chunk_size > b.len() {
            Err(ManifestError::InvalidChunk)
        } else if chunk_type == RES_STRING_POOL_TYPE as int {
            match spec_string_pool(b, off) {
                Err(e) => Err(e),
                Ok(pool) => spec_chunks(b, off + chunk_size, pool, elements),
            }
        } else if chunk_type == RES_XML_START_ELEMENT_TYPE as int {
            match spec_start_element(b, off, header_size, strings) {
                Err(e) => Err(e),
                Ok(None) => spec_chunks(b, off + chunk_size, strings, elements),
                Ok(Some(element)) => spec_chunks(
                    b,
                    off + chunk_size,
                    strings,
                    elements.push(element),
                ),
            }
        } else {
            spec_chunks(b, off + chunk_size, strings, elements)
        }
    }
}

/// The start elements of a binary manifest, in document order.
pub open spec fn spec_parse_manifest(b: Seq<u8>) -> Result<Seq<SpecElement>, ManifestError> {
    if b.len() < 8 {
        Err(ManifestError::TooSmall)
    } else {
        match spec_chunks(b, 8, Seq::empty(), Seq::empty()) {
            Err(e) => Err(e),
            Ok((strings, elements)) => if strings.len() == 0 {
                Err(ManifestError::StringPoolNotFound)
            } else {
                Ok(elements)
            },
        }
    }
}

/// Decodes the start elements of a binary `AndroidManifest.xml`.
pub fn parse_manifest(bytes: &[u8]) -> (r: Result<Vec<Element>, ManifestError>)
    ensures
        r is Ok <==> spec_parse_manifest(bytes@) is Ok,
        r matches Ok(v) ==> spec_parse_manifest(bytes@) == Ok::<
            Seq<SpecElement>,
            ManifestError,
        >(v.deep_view()),
        r matches Err(e) ==> spec_parse_manifest(bytes@) == Err::<Seq<SpecElement>, ManifestError>(
            e,
        ),
{
    let cursor = Cursor { bytes };
    let mut offset: usize = 8;
    let mut strings: Vec<String> = Vec::new();
    let mut elements: Vec<Element> = Vec::new();

    if bytes.len() < 8 {
        return Err(ManifestError::TooSmall);
    }
    assert(strings.deep_view() =~= Seq::<Seq<char>>::empty());
    assert(elements.deep_view() =~= Seq::<SpecElement>::empty());

    while bytes.len() - offset >= 8
        invariant
            8 <= offset <= bytes@.len(),
            cursor.bytes == bytes,
            spec_chunks(bytes@, 8, Seq::empty(), Seq::empty()) == spec_chunks(
                bytes@,
                offset as int,
                strings.deep_view(),
                elements.deep_view(),
            ),
        decreases bytes@.len() - offset,
    {
        let ghost o = offset as int;
        let chunk_type = match cursor.u16(offset, Ghost(o)) {
            Ok(v) => v,
            Err(e) => return Err(e),
        };
        let header_size = match cursor.u16(offset + 2, Ghost(o + 2)) {
            Ok(v) => v as usize,
            Err(e) => return Err(e),
        };
        let chunk_size = match cursor.u32(offset + 4, Ghost(o + 4)) {
            Ok(v) => v as usize,
            Err(e) => return Err(e),
        };
        let ghost before = spec_chunks(bytes@, o, strings.deep_view(), elements.deep_view());

        if chunk_size < 8 || chunk_size > bytes.len() - offset {
            return Err(ManifestError::InvalidChunk);
        }

        if chunk_type == RES_STRING_POOL_TYPE {
            strings = match parse_string_pool(bytes, offset) {
                Ok(v) => v,
                Err(e) => return Err(e),
            };
        } else if chunk_type == RES_XML_START_ELEMENT_TYPE {
            match parse_start_element(bytes, offset, header_size, &strings) {
                Ok(Some(element)) => {
                    let ghost prev = elements.deep_view();
                    elements.push(element);
                    assert(elements.deep_view() =~= prev.push(elements@.last().deep_view()));
                },
                Ok(None) => {},
                Err(e) => return Err(e),
            }
        }

        offset = offset + chunk_size;
        assert(before == spec_chunks(bytes@, offset as int, strings.deep_view(), elements.deep_view()));
    }

    if strings.len() == 0 {
        return Err(ManifestError::StringPoolNotFound);
    }

    Ok(elements)
}

/// How an attribute value reads: a raw string index that names a pool string gives that
/// string, whatever the typed data; without a raw string, a decimal integer reads as the
/// decimal text of its whole 32-bit word, a hexadecimal one as `0x` and its hexadecimal
/// digits, a reference as `@0x` and eight hexadecimal digits, and a string index as that
/// pool string.
pub proof fn law_typed_value_text(strings: Seq<Seq<char>>, raw: u32, data_type: u8, data: u32)
    ensures
        raw != u32::MAX && raw < strings.len() ==> spec_typed_value(strings, raw, data_type, data)
            == Some(strings[raw as int]),
        spec_typed_value(strings, u32::MAX, 0x10, data) == Some(decimal(data as nat)),
        spec_typed_value(strings, u32::MAX, 0x11, data) == Some(seq!['0', 'x'] + hex(data as nat)),
        spec_typed_value(strings, u32::MAX, 0x01, data) == Some(
            seq!['@', '0', 'x'] + hex_fixed(data as nat, 8),
        ),
        data < strings.len() ==> spec_typed_value(strings, u32::MAX, 0x03, data) == Some(
            strings[data as int],
        ),
        spec_typed_value(strings, u32::MAX, 0x10, data) matches Some(t) && crate::text::digits_value(t)
            == data,
{
    reveal(spec_typed_value);
    crate::text::law_decimal_denotes(data as nat);
}

} // verus!
