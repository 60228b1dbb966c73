//! The small JSON dialect the services write and read back.

use vstd::prelude::*;
use crate::text::{chars_of, hex_digit, hex_digit_char, is_control, push_char, push_str, spec_is_control};

verus! {

/// What `escape_json` writes for one character.
pub open spec fn escape_char(c: char) -> Seq<char> {
    if c == '"' {
        seq!['\\', '"']
    } else if c == '\\' {
        seq!['\\', '\\']
    } else if c == '\n' {
        seq!['\\', 'n']
    } else if c == '\r' {
        seq!['\\', 'r']
    } else if c == '\t' {
        seq!['\\', 't']
    } else if spec_is_control(c) {
        seq!['\\', 'u', '0', '0', hex_digit((c as u32) as int / 16), hex_digit((c as u32) as int % 16)]
    } else {
        seq![c]
    }
}

/// The escaped form of a whole character sequence.
pub open spec fn spec_escape(s: Seq<char>) -> Seq<char>
    decreases s.len(),
{
    if s.len() == 0 {
        Seq::empty()
    } else {
        spec_escape(s.drop_last()) + escape_char(s.last())
    }
}

/// Escapes a string for use between the quotes of a JSON string literal.
pub fn escape_json(value: &str) -> (escaped: String)
    ensures
        escaped@ == spec_escape(value@),
{
    let chars = chars_of(value);
    let mut escaped = String::new();
    let mut i: usize = 0;
    while i < chars.len()
        invariant
            i <= chars.len(),
            chars@ == value@,
            escaped@ == spec_escape(chars@.subrange(0, i as int)),
        decreases chars.len() - i,
    {
        let c = chars[i];
        assert(chars@.subrange(0, i + 1).drop_last() == chars@.subrange(0, i as int));
        if c == '"' {
            push_char(&mut escaped, '\\');
            push_char(&mut escaped, '"');
        } else if c == '\\' {
            push_char(&mut escaped, '\\');
            push_char(&mut escaped, '\\');
        } else if c == '\n' {
            push_char(&mut escaped, '\\');
            push_char(&mut escaped, 'n');
        } else if c == '\r' {
            push_char(&mut escaped, '\\');
            push_char(&mut escaped, 'r');
        } else if c == '\t' {
            push_char(&mut escaped, '\\');
            push_char(&mut escaped, 't');
        } else if is_control(c) {
            let u = c as u32;
            push_char(&mut escaped, '\\');
            push_char(&mut escaped, 'u');
            push_char(&mut escaped, '0');
            push_char(&mut escaped, '0');
            push_char(&mut escaped, hex_digit_char(u / 16));
            push_char(&mut escaped, hex_digit_char(u % 16));
        } else {
            push_char(&mut escaped, c);
        }
        i = i + 1;
    }
    assert(chars@.subrange(0, chars@.len() as int) == chars@);
    escaped
}

/// Parts joined with commas.
pub open spec fn join_comma(parts: Seq<Seq<char>>) -> Seq<char>
    decreases parts.len(),
{
    if parts.len() == 0 {
        Seq::empty()
    } else if parts.len() == 1 {
        parts[0]
    } else {
        join_comma(parts.drop_last()) + seq![','] + parts.last()
    }
}

/// Joining one more part appends a comma (unless it is the first part) and the part.
pub proof fn lemma_join_push(parts: Seq<Seq<char>>, p: Seq<char>)
    ensures
        join_comma(parts.push(p)) == if parts.len() == 0 {
            p
        } else {
            join_comma(parts) + seq![','] + p
        },
{
    assert(parts.push(p).drop_last() =~= parts);
}

/// `"name":` followed by the quoted, escaped value or `null`, after a comma when asked.
pub open spec fn json_opt_field(name: Seq<char>, value: Option<Seq<char>>, comma: bool) -> Seq<char> {
    (if comma {
        seq![',']
    } else {
        Seq::empty()
    }) + seq!['"'] + name + seq!['"', ':'] + match value {
        Some(v) => seq!['"'] + spec_escape(v) + seq!['"'],
        None => seq!['n', 'u', 'l', 'l'],
    }
}

/// Appends a JSON object member whose value is a string or `null`.
pub fn push_json_field(json: &mut String, name: &str, value: Option<&str>, comma: bool)
    ensures
        final(json)@ == old(json)@ + json_opt_field(
            name@,
            match value {
                Some(v) => Some(v@),
                None => None,
            },
            comma,
        ),
{
    if comma {
        push_char(json, ',');
    }
    push_char(json, '"');
    push_str(json, name);
    push_char(json, '"');
    push_char(json, ':');
    match value {
        Some(value) => {
            push_char(json, '"');
            let escaped = escape_json(value);
            push_str(json, escaped.as_str());
            push_char(json, '"');
        },
        None => {
            push_char(json, 'n');
            push_char(json, 'u');
            push_char(json, 'l');
            push_char(json, 'l');
        },
    }
}

// ---------------------------------------------------------------------------
// Reading the documents back
// ---------------------------------------------------------------------------

/// `p` occurs in `s` at `i`.
pub open spec fn matches_at(s: Seq<char>, p: Seq<char>, i: int) -> bool {
    0 <= i && i + p.len() <= s.len() && s.subrange(i, i + p.len()) == p
}

/// The first occurrence of `p` in `s` at or after `from`.
pub open spec fn first_match(s: Seq<char>, p: Seq<char>, from: int) -> Option<int>
    decreases s.len() + 1 - from,
{
    if from < 0 || from + p.len() > s.len() {
        None
    } else if matches_at(s, p, from) {
        Some(from)
    } else {
        first_match(s, p, from + 1)
    }
}

/// The first position at or after `from` where `s` holds `c`.
pub open spec fn first_char(s: Seq<char>, c: char, from: int) -> Option<int>
    decreases s.len() - from,
{
    if from < 0 || from >= s.len() {
        None
    } else if s[from] == c {
        Some(from)
    } else {
        first_char(s, c, from + 1)
    }
}

/// Position of the first occurrence of `pattern` in `text` at or after `from`.
pub fn find_from(text: &Vec<char>, pattern: &Vec<char>, from: usize) -> (r: Option<usize>)
    ensures
        r matches Some(i) ==> first_match(text@, pattern@, from as int) == Some(i as int) && i
            + pattern.len() <= text.len(),
        r is None ==> first_match(text@, pattern@, from as int) is None,
{
    let mut i = from;
    if pattern.len() > text.len() {
        proof {
            assert(first_match(text@, pattern@, from as int) is None);
        }
        return None;
    }
    while i <= text.len() - pattern.len()
        invariant
            from <= i,
            pattern.len() <= text.len(),
            first_match(text@, pattern@, from as int) == first_match(text@, pattern@, i as int),
        decreases text.len() - i,
    {
        let mut k: usize = 0;
        while k < pattern.len() && text[i + k] == pattern[k]
            invariant
                k <= pattern.len(),
                i + pattern.len() <= text.len(),
                forall|j: int| 0 <= j < k ==> text@[i + j] == pattern@[j],
            decreases pattern.len() - k,
        {
            k = k + 1;
        }
        if k == pattern.len() {
            assert(text@.subrange(i as int, i + pattern@.len()) =~= pattern@);
            return Some(i);
        }
        assert(text@.subrange(i as int, i + pattern@.len())[k as int] != pattern@[k as int]);
        i = i + 1;
    }
    None
}

/// Position of the first `c` in `text` at or after `from`.
pub fn find_char(text: &Vec<char>, c: char, from: usize) -> (r: Option<usize>)
    ensures
        r matches Some(i) ==> first_char(text@, c, from as int) == Some(i as int) && i < text.len(),
        r is None ==> first_char(text@, c, from as int) is None,
{
    let mut i = from;
    while i < text.len()
        invariant
            from <= i,
            first_char(text@, c, from as int) == first_char(text@, c, i as int),
        decreases text.len() - i,
    {
        if text[i] == c {
            return Some(i);
        }
        i = i + 1;
    }
    None
}

/// Reads a string body from `k` on: a backslash takes the next character literally, and an
/// unescaped quote ends it; `None` when the text ends first.
pub open spec fn unescape_from(s: Seq<char>, k: int, escaped: bool, acc: Seq<char>) -> Option<Seq<char>>
    decreases s.len() - k,
{
    if k < 0 || k >= s.len() {
        None
    } else if escaped {
        unescape_from(s, k + 1, false, acc.push(s[k]))
    } else if s[k] == '\\' {
        unescape_from(s, k + 1, true, acc)
    } else if s[k] == '"' {
        Some(acc)
    } else {
        unescape_from(s, k + 1, false, acc.push(s[k]))
    }
}

/// `"field":"` — how a string member starts.
pub open spec fn field_pattern(field: Seq<char>) -> Seq<char> {
    seq!['"'] + field + seq!['"', ':', '"']
}

/// The string value of the first `"field":"…"` member in an object's text.
pub open spec fn spec_string_field(object: Seq<char>, field: Seq<char>) -> Option<Seq<char>> {
    match first_match(object, field_pattern(field), 0) {
        None => None,
        Some(i) => unescape_from(object, i + field_pattern(field).len(), false, Seq::empty()),
    }
}

/// The characters of `"field":"`.
fn field_pattern_chars(field: &str) -> (p: Vec<char>)
    ensures
        p@ == field_pattern(field@),
{
    let mut p: Vec<char> = Vec::new();
    p.push('"');
    let f = chars_of(field);
    let mut i: usize = 0;
    while i < f.len()
        invariant
            i <= f.len(),
            f@ == field@,
            p@ == seq!['"'] + f@.take(i as int),
        decreases f.len() - i,
    {
        p.push(f[i]);
        assert(f@.take(i + 1) =~= f@.take(i as int).push(f@[i as int]));
        i = i + 1;
    }
    assert(f@.take(f@.len() as int) =~= f@);
    p.push('"');
    p.push(':');
    p.push('"');
    assert(p@ =~= field_pattern(field@));
    p
}

/// The string value of the member `field` in the characters of an object.
pub fn string_field_in(object: &Vec<char>, field: &str) -> (r: Option<String>)
    ensures
        r.deep_view() == spec_string_field(object@, field@),
{
    let pattern = field_pattern_chars(field);
    let start = match find_from(object, &pattern, 0) {
        Some(i) => i + pattern.len(),
        None => return None,
    };
    let mut value = String::new();
    let mut escaped = false;
    let mut k = start;
    while k < object.len()
        invariant
            start <= k,
            spec_string_field(object@, field@) == unescape_from(object@, k as int, escaped, value@),
        decreases object.len() - k,
    {
        let c = object[k];
        if escaped {
            push_char(&mut value, c);
            escaped = false;
        } else if c == '\\' {
            escaped = true;
        } else if c == '"' {
            return Some(value);
        } else {
            push_char(&mut value, c);
        }
        k = k + 1;
    }
    None
}

/// The string value of the first `"field":"…"` member of an object's text.
pub fn json_string_field(object: &str, field: &str) -> (r: Option<String>)
    ensures
        r.deep_view() == spec_string_field(object@, field@),
{
    let chars = chars_of(object);
    string_field_in(&chars, field)
}

/// The texts between each `{` and the next `}`, scanning from `k`.
pub open spec fn objects_from(t: Seq<char>, k: int) -> Seq<Seq<char>>
    decreases t.len() - k,
{
    match first_char(t, '{', k) {
        None => Seq::empty(),
        Some(s) => match first_char(t, '}', s + 1) {
            None => Seq::empty(),
            Some(e) => if s < k || e < s + 1 || e >= t.len() {
                Seq::empty()
            } else {
                seq![t.subrange(s + 1, e)] + objects_from(t, e + 1)
            },
        },
    }
}

pub proof fn lemma_first_char_bounds(s: Seq<char>, c: char, from: int)
    ensures
        first_char(s, c, from) matches Some(i) ==> from <= i < s.len() && s[i] == c,
    decreases s.len() - from,
{
    if 0 <= from < s.len() && s[from] != c {
        lemma_first_char_bounds(s, c, from + 1);
    }
}

/// The next brace-delimited object at or after `k`: the bounds of its inner text.
pub fn next_object(t: &Vec<char>, k: usize) -> (r: Option<(usize, usize)>)
    ensures
        r is None ==> objects_from(t@, k as int) == Seq::<Seq<char>>::empty(),
        r matches Some((lo, hi)) ==> k < lo <= hi < t@.len() && objects_from(t@, k as int) == seq![
            t@.subrange(lo as int, hi as int),
        ] + objects_from(t@, hi + 1),
{
    proof {
        lemma_first_char_bounds(t@, '{', k as int);
    }
    let s = match find_char(t, '{', k) {
        Some(s) => s,
        None => return None,
    };
    proof {
        lemma_first_char_bounds(t@, '}', s + 1);
    }
    let e = match find_char(t, '}', s + 1) {
        Some(e) => e,
        None => return None,
    };
    Some((s + 1, e))
}

/// Copies `t[lo..hi]`.
pub fn chars_between(t: &Vec<char>, lo: usize, hi: usize) -> (r: Vec<char>)
    requires
        lo <= hi <= t@.len(),
    ensures
        r@ == t@.subrange(lo as int, hi as int),
{
    let mut r: Vec<char> = Vec::new();
    let mut i = lo;
    while i < hi
        invariant
            lo <= i <= hi <= t@.len(),
            r@ == t@.subrange(lo as int, i as int),
        decreases hi - i,
    {
        r.push(t[i]);
        assert(t@.subrange(lo as int, i + 1) =~= t@.subrange(lo as int, i as int).push(t@[i as int]));
        i = i + 1;
    }
    r
}

/// `"field":[` — how an array member starts.
pub open spec fn array_pattern(field: Seq<char>) -> Seq<char> {
    seq!['"'] + field + seq!['"', ':', '[']
}

/// Collects the string literals of `s[k..end]`, given the scanner's state.
pub open spec fn array_scan(
    s: Seq<char>,
    k: int,
    end: int,
    in_string: bool,
    escaped: bool,
    value: Seq<char>,
    values: Seq<Seq<char>>,
) -> Seq<Seq<char>>
    decreases end - k,
{
    if k < 0 || k >= end || k >= s.len() {
        values
    } else if !in_string {
        if s[k] == '"' {
            array_scan(s, k + 1, end, true, escaped, Seq::empty(), values)
        } else {
            array_scan(s, k + 1, end, false, escaped, value, values)
        }
    } else if escaped {
        array_scan(s, k + 1, end, true, false, value.push(s[k]), values)
    } else if s[k] == '\\' {
        array_scan(s, k + 1, end, true, true, value, values)
    } else if s[k] == '"' {
        array_scan(s, k + 1, end, false, false, value, values.push(value))
    } else {
        array_scan(s, k + 1, end, true, false, value.push(s[k]), values)
    }
}

/// The string elements of the first array member `field`, up to the first `]` after it.
pub open spec fn spec_array_strings(contents: Seq<char>, field: Seq<char>) -> Seq<Seq<char>> {
    match first_match(contents, array_pattern(field), 0) {
        None => Seq::empty(),
        Some(i) => {
            let start = i + array_pattern(field).len();
            match first_char(contents, ']', start) {
                None => Seq::empty(),
                Some(end) => array_scan(
                    contents,
                    start,
                    end,
                    false,
                    false,
                    Seq::empty(),
                    Seq::empty(),
                ),
            }
        },
    }
}

/// The string elements of the array member `field` of a JSON document.
pub fn json_array_strings(contents: &str, field: &str) -> (values: Vec<String>)
    ensures
        values.deep_view() == spec_array_strings(contents@, field@),
{
    let text = chars_of(contents);
    let mut pattern: Vec<char> = field_pattern_chars(field);
    pattern.set(pattern.len() - 1, '[');
    assert(pattern@ =~= array_pattern(field@));
    let mut values: Vec<String> = Vec::new();
    let start = match find_from(&text, &pattern, 0) {
        Some(i) => i + pattern.len(),
        None => {
            assert(values.deep_view() =~= Seq::<Seq<char>>::empty());
            return values;
        },
    };
    let end = match find_char(&text, ']', start) {
        Some(end) => end,
        None => {
            assert(values.deep_view() =~= Seq::<Seq<char>>::empty());
            return values;
        },
    };
    let mut value = String::new();
    let mut in_string = false;
    let mut escaped = false;
    let mut k = start;
    assert(values.deep_view() =~= Seq::<Seq<char>>::empty());
    assert(value@ =~= Seq::<char>::empty());
    proof {
        lemma_first_char_bounds(text@, ']', start as int);
    }
    while k < end
        invariant
            start <= k <= end < text@.len(),
            text@ == contents@,
            spec_array_strings(contents@, field@) == array_scan(
                text@,
                k as int,
                end as int,
                in_string,
                escaped,
                value@,
                values.deep_view(),
            ),
        decreases end - k,
    {
        let c = text[k];
        if !in_string {
            if c == '"' {
                in_string = true;
                value = String::new();
            }
        } else if escaped {
            push_char(&mut value, c);
            escaped = false;
        } else if c == '\\' {
            escaped = true;
        } else if c == '"' {
            in_string = false;
            let ghost before = values.deep_view();
            values.push(value.clone());
            assert(values.deep_view() =~= before.push(value@));
        } else {
            push_char(&mut value, c);
        }
        k = k + 1;
    }
    values
}

// ---------------------------------------------------------------------------
// The array scanner, one character at a time
// ---------------------------------------------------------------------------

/// The scanner's state: inside a string, after a backslash, the string so far, the strings
/// collected.
pub type ScanState = (bool, bool, Seq<char>, Seq<Seq<char>>);

/// The scanner's state after one more character.
pub open spec fn scan_step(st: ScanState, c: char) -> ScanState {
    let (in_string, escaped, value, values) = st;
    if !in_string {
        if c == '"' {
            (true, escaped, Seq::empty(), values)
        } else {
            (false, escaped, value, values)
        }
    } else if escaped {
        (true, false, value.push(c), values)
    } else if c == '\\' {
        (true, true, value, values)
    } else if c == '"' {
        (false, false, value, values.push(value))
    } else {
        (true, false, value.push(c), values)
    }
}

/// The scanner's state after the characters of `x`.
pub open spec fn scan_state(x: Seq<char>, st: ScanState) -> ScanState
    decreases x.len(),
{
    if x.len() == 0 {
        st
    } else {
        scan_step(scan_state(x.drop_last(), st), x.last())
    }
}

/// Scanning `s[k..end]` is scanning `s[k..m]`, then `s[m..end]`.
pub proof fn lemma_array_scan_split(s: Seq<char>, k: int, m: int, end: int, st: ScanState)
    requires
        0 <= k <= m <= end <= s.len(),
    ensures
        array_scan(s, k, end, st.0, st.1, st.2, st.3) == ({
            let t = scan_state(s.subrange(k, m), st);
            array_scan(s, m, end, t.0, t.1, t.2, t.3)
        }),
    decreases m - k,
{
    if m == k {
        assert(s.subrange(k, m) =~= Seq::<char>::empty());
    } else {
        lemma_array_scan_split(s, k, m - 1, end, st);
        assert(s.subrange(k, m).drop_last() =~= s.subrange(k, m - 1));
    }
}

/// Scanning `a + b` is scanning `a`, then `b`.
pub proof fn lemma_scan_concat(a: Seq<char>, b: Seq<char>, st: ScanState)
    ensures
        scan_state(a + b, st) == scan_state(b, scan_state(a, st)),
    decreases b.len(),
{
    if b.len() == 0 {
        assert(a + b =~= a);
    } else {
        lemma_scan_concat(a, b.drop_last(), st);
        assert((a + b).drop_last() =~= a + b.drop_last());
        assert((a + b).last() == b.last());
    }
}

/// Inside a string, the escaped form of a text without control characters reads back as
/// the text.
pub proof fn lemma_scan_escaped(v: Seq<char>, value: Seq<char>, values: Seq<Seq<char>>)
    requires
        forall|i: int| 0 <= i < v.len() ==> !spec_is_control(#[trigger] v[i]),
    ensures
        scan_state(spec_escape(v), (true, false, value, values)) == (true, false, value + v, values),
    decreases v.len(),
{
    if v.len() == 0 {
        assert(value + v =~= value);
    } else {
        let w = v.drop_last();
        let c = v.last();
        assert forall|i: int| 0 <= i < w.len() implies !spec_is_control(#[trigger] w[i]) by {
            assert(w[i] == v[i]);
        }
        lemma_scan_escaped(w, value, values);
        let st: ScanState = (true, false, value, values);
        let mid: ScanState = (true, false, value + w, values);
        lemma_scan_concat(spec_escape(w), escape_char(c), st);
        assert(spec_escape(v) == spec_escape(w) + escape_char(c));
        assert(!spec_is_control(v[v.len() - 1]));
        let e = escape_char(c);
        if c == '"' || c == '\\' {
            let one = e.drop_last();
            assert(one =~= seq!['\\']);
            assert(one.drop_last() =~= Seq::<char>::empty());
            assert(scan_state(one.drop_last(), mid) == mid);
            assert(one.last() == '\\');
            assert(scan_state(one, mid) == scan_step(mid, '\\'));
            assert(scan_state(one, mid) == (true, true, value + w, values));
            assert(e.last() == c);
            assert(scan_state(e, mid) == scan_step(scan_state(one, mid), c));
        } else {
            assert(c != '\n' && c != '\r' && c != '\t');
            assert(e =~= seq![c]);
            assert(e.drop_last() =~= Seq::<char>::empty());
            assert(scan_state(e.drop_last(), mid) == mid);
            assert(scan_state(e, mid) == scan_step(mid, c));
        }
        assert((value + w).push(c) =~= value + v);
    }
}

/// The first `c` at or after `from` is at `m` when `s[m]` is `c` and nothing between is.
pub proof fn lemma_first_char_at(s: Seq<char>, c: char, from: int, m: int)
    requires
        0 <= from <= m < s.len(),
        s[m] == c,
        forall|j: int| from <= j < m ==> s[j] != c,
    ensures
        first_char(s, c, from) == Some(m),
    decreases m - from,
{
    if from < m {
        lemma_first_char_at(s, c, from + 1, m);
    }
}

} // verus!
