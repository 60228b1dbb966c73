//! Character-level helpers shared by the parsers and serialisers, with the
//! few standard-library string operations the library relies on.

use vstd::prelude::*;

verus! {

/// Unicode general category `Cc` (what `char::is_control` tests).
pub open spec fn spec_is_control(c: char) -> bool {
    (c as u32) <= 0x1f || (0x7f <= (c as u32) && (c as u32) <= 0x9f)
}

/// The Unicode `White_Space` property (what `char::is_whitespace` tests).
pub open spec fn spec_is_whitespace(c: char) -> bool {
    let u = c as u32;
    ||| 0x09 <= u <= 0x0d
    ||| u == 0x20
    ||| u == 0x85
    ||| u == 0xa0
    ||| u == 0x1680
    ||| 0x2000 <= u <= 0x200a
    ||| u == 0x2028
    ||| u == 0x2029
    ||| u == 0x202f
    ||| u == 0x205f
    ||| u == 0x3000
}

/// Control-code test on a character.
pub fn is_control(c: char) -> (r: bool)
    ensures
        r == spec_is_control(c),
{
    let u = c as u32;
    u <= 0x1f || (0x7f <= u && u <= 0x9f)
}

/// Unicode white-space test on a character.
pub fn is_whitespace(c: char) -> (r: bool)
    ensures
        r == spec_is_whitespace(c),
{
    let u = c as u32;
    (0x09 <= u && u <= 0x0d) || u == 0x20 || u == 0x85 || u == 0xa0 || u == 0x1680 || (0x2000 <= u
        && u <= 0x200a) || u == 0x2028 || u == 0x2029 || u == 0x202f || u == 0x205f || u == 0x3000
}

/// The ASCII digit for `d` (`0 <= d < 10`).
pub open spec fn digit_char(d: int) -> char {
    ((d + 48) as u8) as char
}

/// The lower-case hexadecimal digit for `n` (`0 <= n < 16`).
pub open spec fn hex_digit(n: int) -> char {
    if n < 10 {
        ((n + 48) as u8) as char
    } else {
        ((n + 87) as u8) as char
    }
}

/// Decimal notation of a natural number, without leading zeros.
pub open spec fn decimal(n: nat) -> Seq<char>
    decreases n,
{
    if n < 10 {
        seq![digit_char(n as int)]
    } else {
        decimal(n / 10).push(digit_char((n % 10) as int))
    }
}

/// Lower-case hexadecimal notation of a natural number, without leading zeros.
pub open spec fn hex(n: nat) -> Seq<char>
    decreases n,
{
    if n < 16 {
        seq![hex_digit(n as int)]
    } else {
        hex(n / 16).push(hex_digit((n % 16) as int))
    }
}

/// The lowest `width` hexadecimal digits of `n`, zero-padded.
pub open spec fn hex_fixed(n: nat, width: nat) -> Seq<char>
    decreases width,
{
    if width == 0 {
        Seq::empty()
    } else {
        hex_fixed(n / 16, (width - 1) as nat).push(hex_digit((n % 16) as int))
    }
}

/// The hexadecimal digit character for a value below 16.
pub fn hex_digit_char(n: u32) -> (c: char)
    requires
        n < 16,
    ensures
        c == hex_digit(n as int),
{
    let b = n as u8;
    if b < 10 {
        (b + 48) as char
    } else {
        (b + 87) as char
    }
}

/// Appends the decimal notation of `n`.
pub fn push_decimal(s: &mut String, n: u64)
    ensures
        final(s)@ == old(s)@ + decimal(n as nat),
    decreases n,
{
    if n >= 10 {
        push_decimal(s, n / 10);
    }
    let d = (n % 10) as u8;
    push_char(s, (d + 48) as char);
    assert(n < 10 ==> decimal(n as nat) == seq![digit_char(n as int)]);
}

/// Appends the lower-case hexadecimal notation of `n`.
pub fn push_hex(s: &mut String, n: u32)
    ensures
        final(s)@ == old(s)@ + hex(n as nat),
    decreases n,
{
    if n >= 16 {
        push_hex(s, n / 16);
    }
    push_char(s, hex_digit_char(n % 16));
}

/// Appends the lowest `width` hexadecimal digits of `n`, zero-padded.
pub fn push_hex_fixed(s: &mut String, n: u32, width: u32)
    ensures
        final(s)@ == old(s)@ + hex_fixed(n as nat, width as nat),
    decreases width,
{
    if width > 0 {
        push_hex_fixed(s, n / 16, width - 1);
        push_char(s, hex_digit_char(n % 16));
    }
}

/// Strict lexicographic order on character sequences, by code point (the order of `str`).
pub open spec fn lex_lt(a: Seq<char>, b: Seq<char>) -> bool
    decreases a.len(),
{
    if a.len() == 0 {
        b.len() > 0
    } else if b.len() == 0 {
        false
    } else if (a[0] as u32) < (b[0] as u32) {
        true
    } else if a[0] == b[0] {
        lex_lt(a.drop_first(), b.drop_first())
    } else {
        false
    }
}

/// Any two sequences are ordered one way, or equal.
pub proof fn lemma_lex_trichotomy(a: Seq<char>, b: Seq<char>)
    ensures
        lex_lt(a, b) || a == b || lex_lt(b, a),
        !(lex_lt(a, b) && lex_lt(b, a)),
        !lex_lt(a, a),
    decreases a.len(),
{
    if a.len() > 0 && b.len() > 0 {
        vstd::utf8::char_u32_cast(a[0], a[0] as u32);
        vstd::utf8::char_u32_cast(b[0], b[0] as u32);
        lemma_lex_trichotomy(a.drop_first(), b.drop_first());
        if a[0] == b[0] && a.drop_first() == b.drop_first() {
            assert(a =~= seq![a[0]] + a.drop_first());
            assert(b =~= seq![b[0]] + b.drop_first());
        }
    }
    if a.len() > 0 {
        lemma_lex_trichotomy(a.drop_first(), a.drop_first());
    }
    if a.len() == 0 && b.len() == 0 {
        assert(a =~= b);
    }
}

/// The order is transitive.
pub proof fn lemma_lex_transitive(a: Seq<char>, b: Seq<char>, c: Seq<char>)
    requires
        lex_lt(a, b),
        lex_lt(b, c),
    ensures
        lex_lt(a, c),
    decreases a.len(),
{
    if a.len() > 0 && b.len() > 0 && c.len() > 0 {
        if a[0] == b[0] && b[0] == c[0] {
            lemma_lex_transitive(a.drop_first(), b.drop_first(), c.drop_first());
        }
    }
}

/// Equality of two strings, character by character.
pub fn text_eq(a: &str, b: &str) -> (r: bool)
    ensures
        r == (a@ == b@),
{
    let x = chars_of(a);
    let y = chars_of(b);
    if x.len() != y.len() {
        return false;
    }
    let mut i: usize = 0;
    while i < x.len()
        invariant
            i <= x.len(),
            x.len() == y.len(),
            x@ == a@,
            y@ == b@,
            forall|j: int| 0 <= j < i ==> x@[j] == y@[j],
        decreases x.len() - i,
    {
        if x[i] != y[i] {
            return false;
        }
        i = i + 1;
    }
    assert(x@ =~= y@);
    true
}

/// Whether `s` begins with `prefix`.
pub fn starts_with(s: &str, prefix: &str) -> (r: bool)
    ensures
        r == (prefix@.len() <= s@.len() && s@.subrange(0, prefix@.len() as int) == prefix@),
{
    let x = chars_of(s);
    let y = chars_of(prefix);
    if y.len() > x.len() {
        return false;
    }
    let mut i: usize = 0;
    while i < y.len()
        invariant
            i <= y.len() <= x.len(),
            x@ == s@,
            y@ == prefix@,
            forall|j: int| 0 <= j < i ==> x@[j] == y@[j],
        decreases y.len() - i,
    {
        if x[i] != y[i] {
            assert(s@.subrange(0, prefix@.len() as int)[i as int] != prefix@[i as int]);
            return false;
        }
        i = i + 1;
    }
    assert(s@.subrange(0, prefix@.len() as int) =~= prefix@);
    true
}

/// Strict lexicographic comparison of two strings.
pub fn lex_less(a: &str, b: &str) -> (r: bool)
    ensures
        r == lex_lt(a@, b@),
{
    let x = chars_of(a);
    let y = chars_of(b);
    let mut i: usize = 0;
    assert(x@.subrange(0, x@.len() as int) =~= x@);
    assert(y@.subrange(0, y@.len() as int) =~= y@);
    while i < x.len() && i < y.len()
        invariant
            i <= x.len(),
            i <= y.len(),
            x@ == a@,
            y@ == b@,
            lex_lt(a@, b@) == lex_lt(x@.subrange(i as int, x@.len() as int), y@.subrange(i as int, y@.len() as int)),
        decreases x.len() - i,
    {
        let ghost xs = x@.subrange(i as int, x@.len() as int);
        let ghost ys = y@.subrange(i as int, y@.len() as int);
        if (x[i] as u32) < (y[i] as u32) {
            return true;
        }
        if x[i] != y[i] {
            return false;
        }
        assert(xs.drop_first() =~= x@.subrange(i + 1, x@.len() as int));
        assert(ys.drop_first() =~= y@.subrange(i + 1, y@.len() as int));
        i = i + 1;
    }
    i < y.len()
}

/// The characters of `s`, in order.
pub(crate) fn chars_of(s: &str) -> (v: Vec<char>)
    ensures
        v@ == s@,
{
    broadcast use vstd::string::axiom_spec_iter;
    let mut v: Vec<char> = Vec::new();
    for c in it: s.chars()
        invariant
            v@ == it.seq().take(it.index() as int),
            it.seq() == s@,
    {
        v.push(c);
    }
    v
}

/// A string made of the given characters.
pub(crate) fn string_from_chars(v: &[char]) -> (s: String)
    ensures
        s@ == v@,
{
    let mut s = String::new();
    let mut i: usize = 0;
    while i < v.len()
        invariant
            i <= v.len(),
            s@ == v@.take(i as int),
        decreases v.len() - i,
    {
        push_char(&mut s, v[i]);
        assert(v@.take(i + 1) =~= v@.take(i as int).push(v@[i as int]));
        i = i + 1;
    }
    assert(v@.take(v@.len() as int) =~= v@);
    s
}

/// `String::push`: appends one character.
#[verifier::external_body]
pub(crate) fn push_char(s: &mut String, c: char)
    ensures
        final(s)@ == old(s)@.push(c),
{
    s.push(c)
}

/// `String::push_str`: appends the characters of `t`.
#[verifier::external_body]
pub(crate) fn push_str(s: &mut String, t: &str)
    ensures
        final(s)@ == old(s)@ + t@,
{
    s.push_str(t)
}

// ---------------------------------------------------------------------------
// Lines, trimming and words over character vectors
// ---------------------------------------------------------------------------

/// `s` without white space at its start.
pub open spec fn trim_start(s: Seq<char>) -> Seq<char>
    decreases s.len(),
{
    if s.len() > 0 && spec_is_whitespace(s[0]) {
        trim_start(s.drop_first())
    } else {
        s
    }
}

/// `s` without white space at its end.
pub open spec fn trim_end(s: Seq<char>) -> Seq<char>
    decreases s.len(),
{
    if s.len() > 0 && spec_is_whitespace(s.last()) {
        trim_end(s.drop_last())
    } else {
        s
    }
}

/// `s` without white space at either end (`str::trim`).
pub open spec fn trim(s: Seq<char>) -> Seq<char> {
    trim_end(trim_start(s))
}

/// `s` with a final carriage return removed.
pub open spec fn strip_cr(s: Seq<char>) -> Seq<char> {
    if s.len() > 0 && s.last() == '\r' {
        s.drop_last()
    } else {
        s
    }
}

/// The lines of `s` (`str::lines`): split at `\n`, a `\r` before a `\n` dropped, no empty
/// line after a final `\n`.
pub open spec fn split_lines(s: Seq<char>) -> Seq<Seq<char>>
    decreases s.len(),
{
    if s.len() == 0 {
        Seq::empty()
    } else {
        match first_newline(s, 0) {
            None => seq![s],
            Some(i) => {
                proof {
                    lemma_first_newline(s, 0);
                }
                seq![strip_cr(s.take(i))] + split_lines(s.skip(i + 1))
            },
        }
    }
}

pub open spec fn first_newline(s: Seq<char>, from: int) -> Option<int>
    decreases s.len() - from,
{
    if from < 0 || from >= s.len() {
        None
    } else if s[from] == '\n' {
        Some(from)
    } else {
        first_newline(s, from + 1)
    }
}

pub proof fn lemma_first_newline(s: Seq<char>, from: int)
    requires
        from >= 0,
    ensures
        first_newline(s, from) matches Some(i) ==> from <= i < s.len() && s[i] == '\n' && forall|j: int| from <= j < i ==> s[j] != '\n',
        first_newline(s, from) is None ==> forall|j: int| from <= j < s.len() ==> s[j] != '\n',
    decreases s.len() - from,
{
    if 0 <= from < s.len() && s[from] != '\n' {
        lemma_first_newline(s, from + 1);
    }
}

/// A character vector's deep view is its view.
pub proof fn lemma_chars_deep_view(v: &Vec<char>)
    ensures
        v.deep_view() == v@,
{
    assert(v.deep_view() =~= v@);
}

/// Copies `t[lo..hi]`.
pub fn copy_range(t: &Vec<char>, lo: usize, hi: usize) -> (r: Vec<char>)
    requires
        lo <= hi <= t@.len(),
    ensures
        r@ == t@.subrange(lo as int, hi as int),
{
    let mut r: Vec<char> = Vec::new();
    let mut i = lo;
    while i < hi
        invariant
            lo <= i <= hi <= t@.len(),
            r@ == t@.subrange(lo as int, i as int),
        decreases hi - i,
    {
        r.push(t[i]);
        assert(t@.subrange(lo as int, i + 1) =~= t@.subrange(lo as int, i as int).push(t@[i as int]));
        i = i + 1;
    }
    r
}

/// The lines of a text.
pub fn lines_of(text: &Vec<char>) -> (lines: Vec<Vec<char>>)
    ensures
        lines.deep_view() == split_lines(text@),
{
    let mut lines: Vec<Vec<char>> = Vec::new();
    let mut start: usize = 0;
    assert(text@.skip(0) =~= text@);
    assert(lines.deep_view() =~= Seq::<Seq<char>>::empty());
    while start < text.len()
        invariant
            start <= text.len(),
            split_lines(text@) == lines.deep_view() + split_lines(text@.skip(start as int)),
        decreases text.len() - start,
    {
        let ghost rest = text@.skip(start as int);
        let mut i = start;
        while i < text.len() && text[i] != '\n'
            invariant
                start <= i <= text.len(),
                forall|j: int| start <= j < i ==> text@[j] != '\n',
            decreases text.len() - i,
        {
            i = i + 1;
        }
        proof {
            lemma_first_newline(rest, 0);
            if i < text.len() {
                assert(rest[i - start] == '\n');
                if first_newline(rest, 0) != Some((i - start) as int) {
                    let k = first_newline(rest, 0)->0;
                    assert(rest[k] == '\n');
                    assert(text@[start + k] == '\n');
                }
            } else {
                if first_newline(rest, 0) is Some {
                    let k = first_newline(rest, 0)->0;
                    assert(text@[start + k] == '\n');
                }
            }
        }
        let mut end = i;
        if i < text.len() && end > start && text[end - 1] == '\r' {
            end = end - 1;
        }
        let line = copy_range(text, start, end);
        proof {
            lemma_chars_deep_view(&line);
        }
        let ghost before = lines.deep_view();
        lines.push(line);
        assert(lines.deep_view() =~= before.push(lines@.last().deep_view()));
        if i < text.len() {
            assert(rest.take(i - start) =~= text@.subrange(start as int, i as int));
            assert(strip_cr(rest.take(i - start)) =~= line@);
            assert(rest.skip(i - start + 1) =~= text@.skip(i + 1));
            assert(first_newline(rest, 0) == Some((i - start) as int));
            assert(split_lines(rest) == seq![strip_cr(rest.take(i - start))] + split_lines(rest.skip(i - start + 1)));
            assert(before + split_lines(rest) =~= lines.deep_view() + split_lines(text@.skip(i + 1)));
            start = i + 1;
        } else {
            assert(rest =~= line@);
            assert(text@.skip(text@.len() as int) =~= Seq::<char>::empty());
            assert(before + split_lines(rest) =~= lines.deep_view() + split_lines(text@.skip(i as int)));
            start = i;
        }
    }
    assert(text@.skip(start as int) =~= Seq::<char>::empty());
    assert(lines.deep_view() + Seq::<Seq<char>>::empty() =~= lines.deep_view());
    lines
}

proof fn lemma_trim_start_skip(s: Seq<char>, i: int)
    requires
        0 <= i <= s.len(),
        forall|j: int| 0 <= j < i ==> spec_is_whitespace(s[j]),
    ensures
        trim_start(s) == trim_start(s.skip(i)),
    decreases i,
{
    if i > 0 {
        assert(s.drop_first().skip(i - 1) =~= s.skip(i));
        lemma_trim_start_skip(s.drop_first(), i - 1);
    } else {
        assert(s.skip(0) =~= s);
    }
}

proof fn lemma_trim_end_take(s: Seq<char>, i: int)
    requires
        0 <= i <= s.len(),
        forall|j: int| i <= j < s.len() ==> spec_is_whitespace(s[j]),
    ensures
        trim_end(s) == trim_end(s.take(i)),
    decreases s.len() - i,
{
    if i < s.len() {
        assert(s.drop_last().take(i) =~= s.take(i));
        lemma_trim_end_take(s.drop_last(), i);
    } else {
        assert(s.take(i) =~= s);
    }
}

/// The characters of a text without white space at either end.
pub fn trim_chars(text: &Vec<char>) -> (r: Vec<char>)
    ensures
        r@ == trim(text@),
{
    let mut lo: usize = 0;
    while lo < text.len() && is_whitespace(text[lo])
        invariant
            lo <= text.len(),
            forall|j: int| 0 <= j < lo ==> spec_is_whitespace(text@[j]),
        decreases text.len() - lo,
    {
        lo = lo + 1;
    }
    let mut hi: usize = text.len();
    while hi > lo && is_whitespace(text[hi - 1])
        invariant
            lo <= hi <= text.len(),
            forall|j: int| hi <= j < text@.len() ==> spec_is_whitespace(text@[j]),
        decreases hi,
    {
        hi = hi - 1;
    }
    proof {
        lemma_trim_start_skip(text@, lo as int);
        let t = text@.skip(lo as int);
        if lo < text@.len() {
            assert(!spec_is_whitespace(t[0]));
        } else {
            assert(t.len() == 0);
        }
        assert(trim_start(t) == t);
        lemma_trim_end_take(t, hi - lo);
        assert(t.take(hi - lo) =~= text@.subrange(lo as int, hi as int));
        let u = t.take(hi - lo);
        if hi > lo {
            assert(!spec_is_whitespace(u.last()));
        }
        assert(trim_end(u) == u);
    }
    copy_range(text, lo, hi)
}

pub open spec fn first_ws(s: Seq<char>, from: int) -> Option<int>
    decreases s.len() - from,
{
    if from < 0 || from >= s.len() {
        None
    } else if spec_is_whitespace(s[from]) {
        Some(from)
    } else {
        first_ws(s, from + 1)
    }
}

pub proof fn lemma_first_ws(s: Seq<char>, from: int)
    requires
        from >= 0,
    ensures
        first_ws(s, from) matches Some(i) ==> from <= i < s.len() && spec_is_whitespace(s[i])
            && forall|j: int| from <= j < i ==> !spec_is_whitespace(s[j]),
        first_ws(s, from) is None ==> forall|j: int| from <= j < s.len() ==> !spec_is_whitespace(s[j]),
    decreases s.len() - from,
{
    if from < s.len() && !spec_is_whitespace(s[from]) {
        lemma_first_ws(s, from + 1);
    }
}

pub proof fn lemma_trim_start_len(s: Seq<char>)
    ensures
        trim_start(s).len() <= s.len(),
        trim_start(s).len() > 0 ==> !spec_is_whitespace(trim_start(s)[0]),
    decreases s.len(),
{
    if s.len() > 0 && spec_is_whitespace(s[0]) {
        lemma_trim_start_len(s.drop_first());
    }
}

/// The white-space separated words of `s` (`str::split_whitespace`).
pub open spec fn words(s: Seq<char>) -> Seq<Seq<char>>
    decreases s.len(),
{
    let t = trim_start(s);
    if t.len() == 0 {
        Seq::empty()
    } else {
        match first_ws(t, 0) {
            None => seq![t],
            Some(i) => {
                proof {
                    lemma_trim_start_len(s);
                    lemma_first_ws(t, 0);
                }
                seq![t.take(i)] + words(t.skip(i))
            },
        }
    }
}

/// The white-space separated words of a text.
pub fn words_of(text: &Vec<char>) -> (ws: Vec<Vec<char>>)
    ensures
        ws.deep_view() == words(text@),
{
    let mut ws: Vec<Vec<char>> = Vec::new();
    let mut k: usize = 0;
    assert(text@.skip(0) =~= text@);
    assert(ws.deep_view() =~= Seq::<Seq<char>>::empty());
    loop
        invariant
            k <= text.len(),
            words(text@) == ws.deep_view() + words(text@.skip(k as int)),
        decreases text.len() - k,
    {
        let ghost rest = text@.skip(k as int);
        let mut lo = k;
        while lo < text.len() && is_whitespace(text[lo])
            invariant
                k <= lo <= text.len(),
                forall|j: int| k <= j < lo ==> spec_is_whitespace(text@[j]),
            decreases text.len() - lo,
        {
            lo = lo + 1;
        }
        proof {
            lemma_trim_start_skip(rest, lo - k);
            assert(rest.skip(lo - k) =~= text@.skip(lo as int));
            if lo < text.len() {
                assert(!spec_is_whitespace(text@.skip(lo as int)[0]));
            }
            assert(trim_start(text@.skip(lo as int)) == text@.skip(lo as int));
        }
        if lo == text.len() {
            assert(text@.skip(lo as int).len() == 0);
            assert(ws.deep_view() + Seq::<Seq<char>>::empty() =~= ws.deep_view());
            return ws;
        }
        let ghost t = text@.skip(lo as int);
        let mut hi = lo;
        while hi < text.len() && !is_whitespace(text[hi])
            invariant
                lo <= hi <= text.len(),
                forall|j: int| lo <= j < hi ==> !spec_is_whitespace(text@[j]),
            decreases text.len() - hi,
        {
            hi = hi + 1;
        }
        let word = copy_range(text, lo, hi);
        proof {
            lemma_chars_deep_view(&word);
            lemma_first_ws(t, 0);
            assert(word@ =~= t.take(hi - lo));
            if hi < text.len() {
                assert(spec_is_whitespace(t[hi - lo]));
                assert(first_ws(t, 0) == Some((hi - lo) as int));
                assert(t.skip(hi - lo) =~= text@.skip(hi as int));
            } else {
                assert(first_ws(t, 0) is None);
                assert(t.take(hi - lo) =~= t);
                assert(text@.skip(hi as int) =~= Seq::<char>::empty());
            }
        }
        let ghost before = ws.deep_view();
        ws.push(word);
        assert(ws.deep_view() =~= before.push(ws@.last().deep_view()));
        assert(before + words(rest) =~= ws.deep_view() + words(text@.skip(hi as int)));
        k = hi;
    }
}

/// Equality of two character vectors.
pub fn chars_eq(a: &Vec<char>, b: &Vec<char>) -> (r: bool)
    ensures
        r == (a@ == b@),
{
    if a.len() != b.len() {
        return false;
    }
    let mut i: usize = 0;
    while i < a.len()
        invariant
            i <= a.len(),
            a.len() == b.len(),
            forall|j: int| 0 <= j < i ==> a@[j] == b@[j],
        decreases a.len() - i,
    {
        if a[i] != b[i] {
            return false;
        }
        i = i + 1;
    }
    assert(a@ =~= b@);
    true
}

/// `s` after `prefix`, when it begins with it.
pub open spec fn strip_prefix(s: Seq<char>, prefix: Seq<char>) -> Option<Seq<char>> {
    if prefix.len() <= s.len() && s.take(prefix.len() as int) == prefix {
        Some(s.skip(prefix.len() as int))
    } else {
        None
    }
}

/// The characters after `prefix`, when the text begins with it.
pub fn strip_prefix_chars(s: &Vec<char>, prefix: &str) -> (r: Option<Vec<char>>)
    ensures
        match r {
            Some(rest) => strip_prefix(s@, prefix@) == Some(rest@),
            None => strip_prefix(s@, prefix@) is None,
        },
{
    let p = chars_of(prefix);
    if p.len() > s.len() {
        return None;
    }
    let mut i: usize = 0;
    while i < p.len()
        invariant
            i <= p.len() <= s.len(),
            p@ == prefix@,
            forall|j: int| 0 <= j < i ==> s@[j] == p@[j],
        decreases p.len() - i,
    {
        if s[i] != p[i] {
            assert(s@.take(p@.len() as int)[i as int] != p@[i as int]);
            return None;
        }
        i = i + 1;
    }
    assert(s@.take(p@.len() as int) =~= p@);
    let rest = copy_range(s, p.len(), s.len());
    assert(rest@ =~= s@.skip(p@.len() as int));
    Some(rest)
}

/// The number a string of decimal digits denotes.
pub open spec fn digits_value(s: Seq<char>) -> int
    decreases s.len(),
{
    if s.len() == 0 {
        0
    } else {
        digits_value(s.drop_last()) * 10 + ((s.last() as u32) as int - 48)
    }
}

/// Decimal notation is made of the digits `0`..`9`, starts with `0` only for zero, and
/// denotes the number it was made from.
pub proof fn law_decimal_denotes(n: nat)
    ensures
        decimal(n).len() > 0,
        forall|i: int| 0 <= i < decimal(n).len() ==> '0' <= #[trigger] decimal(n)[i] <= '9',
        decimal(n)[0] == '0' ==> n == 0,
        digits_value(decimal(n)) == n,
    decreases n,
{
    if n < 10 {
        assert(decimal(n) =~= seq![digit_char(n as int)]);
        assert(seq![digit_char(n as int)].drop_last() =~= Seq::<char>::empty());
        assert((digit_char(n as int) as u32) as int == n + 48) by {
            let d = n as int;
            assert(0 <= d < 10);
        }
        if decimal(n)[0] == '0' {
            assert(('0' as u32) == 48);
            assert((decimal(n)[0] as u32) as int == n + 48);
        }
        assert(decimal(n)[0] == '0' ==> n == 0);
        assert(digits_value(Seq::<char>::empty()) == 0);
        assert(digits_value(decimal(n)) == digits_value(decimal(n).drop_last()) * 10 + n);
    } else {
        law_decimal_denotes(n / 10);
        let prev = decimal(n / 10);
        let c = digit_char((n % 10) as int);
        assert(decimal(n) == prev.push(c));
        assert(decimal(n).drop_last() =~= prev);
        assert((c as u32) as int == (n % 10) + 48);
        assert forall|i: int| 0 <= i < decimal(n).len() implies '0' <= #[trigger] decimal(n)[i] <= '9' by {
            if i < prev.len() {
                assert(decimal(n)[i] == prev[i]);
            }
        }
        assert(decimal(n)[0] == prev[0]);
        assert(prev[0] == '0' ==> n / 10 == 0);
        assert(decimal(n)[0] == '0' ==> n == 0);
        assert(n / 10 * 10 + n % 10 == n);
        assert(digits_value(decimal(n)) == digits_value(prev) * 10 + (n % 10));
    }
}

} // verus!
