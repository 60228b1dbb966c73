//! Reading back what the services write: the policy file and the application registry
//! give back, member by member, the values they were written from.

use vstd::prelude::*;
use crate::json::{
    escape_char, field_pattern, first_char, first_match, join_comma, lemma_first_char_at,
    matches_at, objects_from, spec_escape, spec_string_field, unescape_from,
};
use crate::permissions::{policies_of, policy_json, policy_json_parts, policy_of, spec_parse_policies, spec_policies_json, SpecPolicy};
use crate::integration::{app_json, app_json_parts, spec_registry_json, SpecApp};
use crate::settings::{packages_of, registry_packages};
use crate::software::{registry_app, registry_apps_of, SpecListedApp};
use crate::text::{hex_digit, spec_is_control};

verus! {

// ---------------------------------------------------------------------------
// Escaped text
// ---------------------------------------------------------------------------

/// Every quote in `t` comes right after a backslash.
pub open spec fn guarded(t: Seq<char>) -> bool {
    forall|k: int| 0 <= k < t.len() && #[trigger] t[k] == '"' ==> k > 0 && t[k - 1] == '\\'
}

/// A character `escape_json` never writes except for itself.
pub open spec fn kept_out_by_escape(x: char) -> bool {
    &&& x != '\\'
    &&& x != '"'
    &&& x != 'u'
    &&& x != 'n'
    &&& x != 'r'
    &&& x != 't'
    &&& !('0' <= x <= '9')
    &&& !('a' <= x <= 'f')
}

proof fn lemma_hex_digit_range(n: int)
    requires
        0 <= n < 16,
    ensures
        ('0' <= hex_digit(n) <= '9') || ('a' <= hex_digit(n) <= 'f'),
{
}

proof fn lemma_escape_char_shape(c: char)
    ensures
        forall|k: int| 0 <= k < escape_char(c).len() && #[trigger] escape_char(c)[k] == '"' ==> k
            == 1 && escape_char(c)[0] == '\\',
        escape_char(c).len() > 0,
        escape_char(c)[0] != '"',
        forall|x: char|
            kept_out_by_escape(x) ==> forall|k: int|
                0 <= k < escape_char(c).len() && #[trigger] escape_char(c)[k] == x ==> c == x,
{
    let u = (c as u32) as int;
    if spec_is_control(c) && c != '\n' && c != '\r' && c != '\t' && c != '"' && c != '\\' {
        lemma_hex_digit_range(u / 16);
        lemma_hex_digit_range(u % 16);
    }
}

/// The escaped form of any text is guarded.
pub proof fn lemma_escape_guarded(v: Seq<char>)
    ensures
        guarded(spec_escape(v)),
    decreases v.len(),
{
    if v.len() > 0 {
        let w = v.drop_last();
        lemma_escape_guarded(w);
        let a = spec_escape(w);
        let e = escape_char(v.last());
        lemma_escape_char_shape(v.last());
        let t = spec_escape(v);
        assert(t == a + e);
        assert forall|k: int| 0 <= k < t.len() && #[trigger] t[k] == '"' implies k > 0 && t[k - 1]
            == '\\' by {
            if k < a.len() {
                assert(t[k] == a[k]);
                assert(t[k - 1] == a[k - 1]);
            } else {
                assert(t[k] == e[k - a.len()]);
                assert(e[k - a.len()] == '"');
                assert(t[k - 1] == e[0]);
            }
        }
    }
}

/// A character that `escape_json` never introduces appears in the escaped text only where
/// the text had it.
pub proof fn lemma_escape_avoids(v: Seq<char>, x: char)
    requires
        kept_out_by_escape(x),
        forall|k: int| 0 <= k < v.len() ==> #[trigger] v[k] != x,
    ensures
        forall|k: int| 0 <= k < spec_escape(v).len() ==> #[trigger] spec_escape(v)[k] != x,
    decreases v.len(),
{
    if v.len() > 0 {
        let w = v.drop_last();
        assert forall|k: int| 0 <= k < w.len() implies #[trigger] w[k] != x by {
            assert(w[k] == v[k]);
        }
        lemma_escape_avoids(w, x);
        let a = spec_escape(w);
        let e = escape_char(v.last());
        lemma_escape_char_shape(v.last());
        assert(v[v.len() - 1] != x);
        let t = spec_escape(v);
        assert forall|k: int| 0 <= k < t.len() implies #[trigger] t[k] != x by {
            if k < a.len() {
                assert(t[k] == a[k]);
            } else {
                assert(t[k] == e[k - a.len()]);
            }
        }
    }
}

/// Reading an escaped text without control characters gives the text back.
pub proof fn lemma_unescape_escaped(s: Seq<char>, k: int, v: Seq<char>, acc: Seq<char>)
    requires
        0 <= k,
        k + spec_escape(v).len() <= s.len(),
        s.subrange(k, k + spec_escape(v).len()) == spec_escape(v),
        forall|i: int| 0 <= i < v.len() ==> !spec_is_control(#[trigger] v[i]),
    ensures
        unescape_from(s, k, false, acc) == unescape_from(
            s,
            k + spec_escape(v).len(),
            false,
            acc + v,
        ),
    decreases v.len(),
{
    if v.len() == 0 {
        assert(acc + v =~= acc);
    } else {
        let w = v.drop_last();
        let c = v.last();
        let a = spec_escape(w);
        let e = escape_char(c);
        assert(spec_escape(v) == a + e);
        let full = s.subrange(k, k + spec_escape(v).len());
        assert forall|i: int| 0 <= i < a.len() implies s[k + i] == a[i] by {
            assert(full[i] == s[k + i]);
            assert((a + e)[i] == a[i]);
        }
        assert(s.subrange(k, k + a.len()) =~= a);
        assert forall|i: int| 0 <= i < e.len() implies s[k + a.len() + i] == e[i] by {
            assert(full[a.len() + i] == s[k + a.len() + i]);
            assert((a + e)[a.len() + i] == e[i]);
        }
        assert forall|i: int| 0 <= i < w.len() implies !spec_is_control(#[trigger] w[i]) by {
            assert(w[i] == v[i]);
        }
        lemma_unescape_escaped(s, k, w, acc);
        let m = k + a.len();
        assert(!spec_is_control(v[v.len() - 1]));
        assert(s[m] == e[0]);
        if c == '"' || c == '\\' {
            assert(s[m + 1] == e[1]);
            assert(unescape_from(s, m + 1, true, acc + w) == unescape_from(
                s,
                m + 2,
                false,
                (acc + w).push(c),
            ));
        } else {
            assert(c != '\n' && c != '\r' && c != '\t');
            assert(e =~= seq![c]);
        }
        assert((acc + w).push(c) =~= acc + v);
    }
}

// ---------------------------------------------------------------------------
// Where a member name can match
// ---------------------------------------------------------------------------

pub open spec fn is_lower(c: char) -> bool {
    'a' <= c <= 'z'
}

/// `t[j]` is the quote that closes a member name: after a lower-case letter, before a colon.
pub open spec fn key_end(t: Seq<char>, j: int) -> bool {
    1 <= j && j + 1 < t.len() && t[j] == '"' && t[j + 1] == ':' && is_lower(t[j - 1])
}

/// A member name: non-empty, lower-case at its end, without quotes.
pub open spec fn member_name(f: Seq<char>) -> bool {
    f.len() > 0 && is_lower(f.last())
}

/// A match of `"f":"` ends its name at a member-name quote.
pub proof fn lemma_match_key_end(t: Seq<char>, f: Seq<char>, i: int)
    requires
        member_name(f),
        matches_at(t, field_pattern(f), i),
    ensures
        key_end(t, i + f.len() + 1),
        t[i] == '"',
        forall|d: int| 0 <= d < f.len() ==> t[i + 1 + d] == #[trigger] f[d],
{
    let p = field_pattern(f);
    assert(t.subrange(i, i + p.len()) == p);
    assert(t[i + f.len() + 1] == p[f.len() as int + 1]);
    assert(t[i + f.len() + 2] == p[f.len() as int + 2]);
    assert(t[i + f.len()] == p[f.len() as int]);
    assert(t[i] == p[0]);
    assert forall|d: int| 0 <= d < f.len() implies t[i + 1 + d] == #[trigger] f[d] by {
        assert(t[i + 1 + d] == p[1 + d]);
    }
}

/// In a literal that ends with `:"`, followed by an escaped value and by text that starts with
/// a quote not followed by a colon, member names end only inside the literal or inside the
/// text after the value.
pub proof fn lemma_key_end_split(a: Seq<char>, e: Seq<char>, b: Seq<char>)
    requires
        a.len() >= 2,
        a.last() == '"',
        a[a.len() - 2] == ':',
        guarded(e),
        b.len() >= 1,
        b[0] == '"',
        b.len() >= 2 ==> b[1] != ':',
    ensures
        forall|j: int|
            #[trigger] key_end(a + e + b, j) ==> (j < a.len() - 1 && key_end(a, j)) || (j > a.len()
                + e.len() && key_end(b, j - a.len() - e.len())),
{
    let t = a + e + b;
    assert forall|j: int| #[trigger] key_end(t, j) implies (j < a.len() - 1 && key_end(a, j)) || (j
        > a.len() + e.len() && key_end(b, j - a.len() - e.len())) by {
        let n = a.len() + e.len();
        if j < a.len() - 1 {
            assert(t[j] == a[j] && t[j + 1] == a[j + 1] && t[j - 1] == a[j - 1]);
        } else if j == a.len() - 1 {
            assert(t[j - 1] == a[a.len() - 2]);
        } else if j < n {
            assert(t[j] == e[j - a.len()]);
            if j - a.len() > 0 {
                assert(t[j - 1] == e[j - a.len() - 1]);
            }
        } else if j == n {
            assert(t[j + 1] == b[1]);
        } else {
            assert(t[j] == b[j - n] && t[j + 1] == b[j - n + 1] && t[j - 1] == b[j - n - 1]);
        }
    }
}

/// The first match, when none comes before `p`.
pub proof fn lemma_first_match_at(t: Seq<char>, pat: Seq<char>, from: int, p: int)
    requires
        0 <= from <= p,
        matches_at(t, pat, p),
        forall|i: int| from <= i < p ==> !matches_at(t, pat, i),
    ensures
        first_match(t, pat, from) == Some(p),
    decreases p - from,
{
    if from < p {
        lemma_first_match_at(t, pat, from + 1, p);
    }
}

/// No match at all.
pub proof fn lemma_no_match(t: Seq<char>, pat: Seq<char>, from: int)
    requires
        0 <= from,
        forall|i: int| from <= i ==> !matches_at(t, pat, i),
    ensures
        first_match(t, pat, from) is None,
    decreases t.len() + 1 - from,
{
    if from + pat.len() <= t.len() {
        lemma_no_match(t, pat, from + 1);
    }
}

/// Looking up `f` finds the value written after its name at `p`, when no match of its name
/// comes earlier and the value is followed by a quote.
pub proof fn lemma_field_found(t: Seq<char>, f: Seq<char>, p: int, v: Seq<char>)
    requires
        0 <= p,
        matches_at(t, field_pattern(f), p),
        forall|i: int| 0 <= i < p ==> !matches_at(t, field_pattern(f), i),
        p + field_pattern(f).len() + spec_escape(v).len() < t.len(),
        t.subrange(
            p + field_pattern(f).len(),
            p + field_pattern(f).len() + spec_escape(v).len(),
        ) == spec_escape(v),
        t[p + field_pattern(f).len() + spec_escape(v).len()] == '"',
        forall|i: int| 0 <= i < v.len() ==> !spec_is_control(#[trigger] v[i]),
    ensures
        spec_string_field(t, f) == Some(v),
{
    lemma_first_match_at(t, field_pattern(f), 0, p);
    let k = p + field_pattern(f).len();
    lemma_unescape_escaped(t, k, v, Seq::empty());
    assert(Seq::<char>::empty() + v =~= v);
}

// ---------------------------------------------------------------------------
// One policy entry
// ---------------------------------------------------------------------------

/// What opens the text of the first object of the policy file.
pub open spec fn first_policy_head() -> Seq<char> {
    "\"permissions\":[{\"package\":\""@
}

/// What opens the text of any other object of the policy file.
pub open spec fn policy_head() -> Seq<char> {
    "\"package\":\""@
}

/// The text between the braces of one entry of the policy file, after `head`.
pub open spec fn policy_object(head: Seq<char>, v1: Seq<char>, v2: Seq<char>, v3: Seq<char>) -> Seq<
    char,
> {
    head + spec_escape(v1) + "\",\"permission\":\""@ + spec_escape(v2) + "\",\"state\":\""@
        + spec_escape(v3) + "\""@
}

/// No control character: the escaped form reads back as the text.
pub open spec fn no_control(v: Seq<char>) -> bool {
    forall|i: int| 0 <= i < v.len() ==> !spec_is_control(#[trigger] v[i])
}

proof fn lemma_policy_key_ends(head: Seq<char>, v1: Seq<char>, v2: Seq<char>, v3: Seq<char>)
    requires
        head == first_policy_head() || head == policy_head(),
    ensures
        ({
            let t = policy_object(head, v1, v2, v3);
            let n1 = head.len() + spec_escape(v1).len();
            let n2 = n1 + 16 + spec_escape(v2).len();
            forall|j: int| #[trigger]
                key_end(t, j) ==> (j == head.len() - 3 || (head == first_policy_head() && j == 12)
                    || j == n1 + 13 || j == n2 + 8)
        }),
{
    reveal_strlit("\"permissions\":[{\"package\":\"");
    reveal_strlit("\"package\":\"");
    reveal_strlit("\",\"permission\":\"");
    reveal_strlit("\",\"state\":\"");
    reveal_strlit("\"");
    let e1 = spec_escape(v1);
    let e2 = spec_escape(v2);
    let e3 = spec_escape(v3);
    let l2 = "\",\"permission\":\""@;
    let l3 = "\",\"state\":\""@;
    let q = "\""@;
    lemma_escape_guarded(v1);
    lemma_escape_guarded(v2);
    lemma_escape_guarded(v3);
    let b2 = l3 + e3 + q;
    let b1 = l2 + e2 + b2;
    let t = policy_object(head, v1, v2, v3);
    assert(t =~= head + e1 + b1);
    lemma_key_end_split(head, e1, b1);
    lemma_key_end_split(l2, e2, b2);
    lemma_key_end_split(l3, e3, q);
    assert(forall|o: int| #[trigger] key_end(l2, o) ==> o == 13);
    assert(forall|o: int| #[trigger] key_end(l3, o) ==> o == 8);
    assert(forall|o: int| !#[trigger] key_end(q, o));
    if head == first_policy_head() {
        assert(forall|o: int| #[trigger] key_end(head, o) ==> o == 12 || o == 24);
    } else {
        assert(forall|o: int| #[trigger] key_end(head, o) ==> o == 8);
    }
}

/// The members of an entry of the policy file read back as written.
proof fn lemma_policy_fields(head: Seq<char>, v1: Seq<char>, v2: Seq<char>, v3: Seq<char>)
    requires
        head == first_policy_head() || head == policy_head(),
        no_control(v1),
        no_control(v2),
        no_control(v3),
    ensures
        policy_of(policy_object(head, v1, v2, v3)) == Some(
            SpecPolicy { package: v1, permission: v2, state: v3 },
        ),
{
    reveal_strlit("\"permissions\":[{\"package\":\"");
    reveal_strlit("\"package\":\"");
    reveal_strlit("\",\"permission\":\"");
    reveal_strlit("\",\"state\":\"");
    reveal_strlit("\"");
    reveal_strlit("package");
    reveal_strlit("permission");
    reveal_strlit("state");
    let e1 = spec_escape(v1);
    let e2 = spec_escape(v2);
    let e3 = spec_escape(v3);
    let l2 = "\",\"permission\":\""@;
    let l3 = "\",\"state\":\""@;
    let t = policy_object(head, v1, v2, v3);
    let h = head.len() as int;
    let n1 = h + e1.len();
    let n2 = n1 + 16 + e2.len();
    lemma_policy_key_ends(head, v1, v2, v3);
    assert(t.len() == n2 + 11 + e3.len() + 1);
    // "package"
    let f1 = "package"@;
    let p1 = h - 11;
    assert(t.subrange(p1, p1 + 11) =~= field_pattern(f1)) by {
        assert forall|d: int| 0 <= d < 11 implies t[p1 + d] == field_pattern(f1)[d] by {
            assert(t[p1 + d] == head[p1 + d]);
        }
    }
    assert forall|i: int| 0 <= i < p1 implies !matches_at(t, field_pattern(f1), i) by {
        if matches_at(t, field_pattern(f1), i) {
            lemma_match_key_end(t, f1, i);
            assert(key_end(t, i + 8));
            assert(t[4] == 'm');
        }
    }
    assert(t.subrange(h, h + e1.len()) =~= e1);
    assert(t[h + e1.len()] == l2[0]);
    lemma_field_found(t, f1, p1, v1);
    // "permission"
    let f2 = "permission"@;
    let p2 = n1 + 2;
    assert(t.subrange(p2, p2 + 14) =~= field_pattern(f2)) by {
        assert forall|d: int| 0 <= d < 14 implies t[p2 + d] == field_pattern(f2)[d] by {
            assert(t[p2 + d] == l2[2 + d]);
        }
    }
    assert forall|i: int| 0 <= i < p2 implies !matches_at(t, field_pattern(f2), i) by {
        if matches_at(t, field_pattern(f2), i) {
            lemma_match_key_end(t, f2, i);
            assert(key_end(t, i + 11));
            if head == first_policy_head() {
                assert(t[13] == ':');
            }
            assert(t[1] == 'p');
        }
    }
    assert(t.subrange(n1 + 16, n1 + 16 + e2.len()) =~= e2);
    assert(t[n1 + 16 + e2.len()] == l3[0]);
    lemma_field_found(t, f2, p2, v2);
    // "state"
    let f3 = "state"@;
    let p3 = n2 + 2;
    assert(t.subrange(p3, p3 + 9) =~= field_pattern(f3)) by {
        assert forall|d: int| 0 <= d < 9 implies t[p3 + d] == field_pattern(f3)[d] by {
            assert(t[p3 + d] == l3[2 + d]);
        }
    }
    assert forall|i: int| 0 <= i < p3 implies !matches_at(t, field_pattern(f3), i) by {
        if matches_at(t, field_pattern(f3), i) {
            lemma_match_key_end(t, f3, i);
            assert(key_end(t, i + 6));
            assert(t[h - 9] == 'a');
            assert(t[6] == 's' || head == policy_head());
            assert(t[n1 + 7] == l2[7]);
        }
    }
    assert(t.subrange(n2 + 11, n2 + 11 + e3.len()) =~= e3);
    assert(t[n2 + 11 + e3.len()] == '"');
    lemma_field_found(t, f3, p3, v3);
}

// ---------------------------------------------------------------------------
// A document holding a list of objects
// ---------------------------------------------------------------------------

/// `,p` for each part, in order.
pub open spec fn comma_tail(parts: Seq<Seq<char>>) -> Seq<char>
    decreases parts.len(),
{
    if parts.len() == 0 {
        Seq::empty()
    } else {
        seq![','] + parts[0] + comma_tail(parts.drop_first())
    }
}

proof fn lemma_comma_tail_push(parts: Seq<Seq<char>>, p: Seq<char>)
    ensures
        comma_tail(parts.push(p)) == comma_tail(parts) + seq![','] + p,
    decreases parts.len(),
{
    if parts.len() == 0 {
        let q = parts.push(p);
        assert(q.drop_first() =~= Seq::<Seq<char>>::empty());
        assert(q[0] == p);
        assert(comma_tail(q.drop_first()) == Seq::<char>::empty());
        assert(comma_tail(q) =~= seq![','] + p + Seq::<char>::empty());
        assert(comma_tail(parts) + seq![','] + p =~= seq![','] + p);
    } else {
        lemma_comma_tail_push(parts.drop_first(), p);
        assert(parts.push(p).drop_first() =~= parts.drop_first().push(p));
        assert(comma_tail(parts.push(p)) =~= seq![','] + parts[0] + (comma_tail(parts.drop_first())
            + seq![','] + p));
    }
}

/// Joining with commas is the first part, then `,p` for each other part.
proof fn lemma_join_front(parts: Seq<Seq<char>>)
    requires
        parts.len() > 0,
    ensures
        join_comma(parts) == parts[0] + comma_tail(parts.drop_first()),
    decreases parts.len(),
{
    if parts.len() == 1 {
        assert(parts.drop_first() =~= Seq::<Seq<char>>::empty());
        assert(parts[0] + Seq::<char>::empty() =~= parts[0]);
    } else {
        let prev = parts.drop_last();
        lemma_join_front(prev);
        lemma_comma_tail_push(prev.drop_first(), parts.last());
        assert(prev.drop_first().push(parts.last()) =~= parts.drop_first());
        assert(prev[0] == parts[0]);
        assert(join_comma(parts) =~= parts[0] + comma_tail(parts.drop_first()));
    }
}

/// The part written for an object: its text between braces.
pub open spec fn braced(o: Seq<char>) -> Seq<char> {
    seq!['{'] + o + seq!['}']
}

pub open spec fn braced_all(objs: Seq<Seq<char>>) -> Seq<Seq<char>> {
    objs.map_values(|o: Seq<char>| braced(o))
}

/// No `}` in the text.
pub open spec fn no_close(t: Seq<char>) -> bool {
    forall|k: int| 0 <= k < t.len() ==> #[trigger] t[k] != '}'
}

proof fn lemma_first_char_none(s: Seq<char>, c: char, from: int)
    requires
        0 <= from,
        forall|j: int| from <= j < s.len() ==> s[j] != c,
    ensures
        first_char(s, c, from) is None,
    decreases s.len() - from,
{
    if from < s.len() {
        lemma_first_char_none(s, c, from + 1);
    }
}

/// After the first object, the objects of the document are those written, in order.
proof fn lemma_objects_tail(doc: Seq<char>, k: int, objs: Seq<Seq<char>>)
    requires
        0 <= k <= doc.len(),
        doc.subrange(k, doc.len() as int) == comma_tail(braced_all(objs)) + "]}\n"@,
        forall|i: int| 0 <= i < objs.len() ==> no_close(#[trigger] objs[i]),
    ensures
        objects_from(doc, k) == objs,
    decreases objs.len(),
{
    reveal_strlit("]}\n");
    let rest = doc.subrange(k, doc.len() as int);
    if objs.len() == 0 {
        assert(braced_all(objs) =~= Seq::<Seq<char>>::empty());
        assert forall|j: int| k <= j < doc.len() implies doc[j] != '{' by {
            assert(doc[j] == rest[j - k]);
        }
        lemma_first_char_none(doc, '{', k);
    } else {
        let o = objs[0];
        let parts = braced_all(objs);
        assert(parts[0] == braced(o));
        assert(parts.drop_first() =~= braced_all(objs.drop_first()));
        let tail = comma_tail(braced_all(objs.drop_first())) + "]}\n"@;
        assert(rest =~= seq![','] + braced(o) + tail);
        assert(doc[k] == rest[0]);
        assert(doc[k + 1] == rest[1]);
        assert(doc[k] == ',');
        assert(doc[k + 1] == '{');
        lemma_first_char_at(doc, '{', k, k + 1);
        let e: int = k + 2 + o.len();
        assert(no_close(objs[0]));
        assert forall|j: int| k + 2 <= j < e implies doc[j] != '}' by {
            assert(doc[j] == rest[j - k]);
            assert(rest[j - k] == o[j - k - 2]);
        }
        assert(doc[e] == rest[e - k]);
        assert(doc[e] == '}');
        lemma_first_char_at(doc, '}', k + 2, e);
        assert forall|d: int| 0 <= d < o.len() implies doc.subrange(k + 2, e)[d] == o[d] by {
            assert(doc[k + 2 + d] == rest[2 + d]);
        }
        assert(doc.subrange(k + 2, e) =~= o);
        assert forall|d: int| 0 <= d < tail.len() implies doc.subrange(
            e + 1,
            doc.len() as int,
        )[d] == tail[d] by {
            assert(doc[e + 1 + d] == rest[e + 1 - k + d]);
        }
        assert(doc.subrange(e + 1, doc.len() as int) =~= tail);
        assert forall|i: int| 0 <= i < objs.drop_first().len() implies no_close(
            #[trigger] objs.drop_first()[i],
        ) by {
            assert(objs.drop_first()[i] == objs[i + 1]);
        }
        lemma_objects_tail(doc, e + 1, objs.drop_first());
        assert(objs =~= seq![o] + objs.drop_first());
    }
}

/// The objects of a document `{` + head + the braced objects, comma-separated + `]}` and a
/// line end: the first carries the head before its brace; without objects, the head and
/// the closing bracket form the only one.
proof fn lemma_document_objects(head: Seq<char>, objs: Seq<Seq<char>>)
    requires
        no_close(head),
        forall|i: int| 0 <= i < objs.len() ==> no_close(#[trigger] objs[i]),
    ensures
        objects_from(seq!['{'] + head + join_comma(braced_all(objs)) + "]}\n"@, 0) == if objs.len()
            == 0 {
            seq![head + seq![']']]
        } else {
            seq![head + seq!['{'] + objs[0]] + objs.drop_first()
        },
{
    reveal_strlit("]}\n");
    let doc = seq!['{'] + head + join_comma(braced_all(objs)) + "]}\n"@;
    lemma_first_char_at(doc, '{', 0, 0);
    if objs.len() == 0 {
        assert(braced_all(objs) =~= Seq::<Seq<char>>::empty());
        let e: int = 1 + head.len() as int + 1;
        assert(doc =~= seq!['{'] + head + "]}\n"@);
        assert forall|j: int| 1 <= j < e implies doc[j] != '}' by {
            if j <= head.len() {
                assert(doc[j] == head[j - 1]);
            }
        }
        lemma_first_char_at(doc, '}', 1, e);
        assert(doc.subrange(1, e) =~= head + seq![']']);
        assert forall|j: int| e + 1 <= j < doc.len() implies doc[j] != '{' by {
            assert(j == e + 1);
        }
        lemma_first_char_none(doc, '{', e + 1);
        assert(objects_from(doc, e + 1) == Seq::<Seq<char>>::empty());
        assert(objects_from(doc, 0) == seq![doc.subrange(1, e)] + objects_from(doc, e + 1));
        assert(seq![head + seq![']']] + Seq::<Seq<char>>::empty() =~= seq![head + seq![']']]);
    } else {
        let parts = braced_all(objs);
        lemma_join_front(parts);
        assert(parts[0] == braced(objs[0]));
        assert(parts.drop_first() =~= braced_all(objs.drop_first()));
        let o = objs[0];
        let tail = comma_tail(braced_all(objs.drop_first())) + "]}\n"@;
        assert(doc =~= seq!['{'] + head + seq!['{'] + o + seq!['}'] + tail);
        let e: int = 1 + head.len() as int + 1 + o.len() as int;
        assert(no_close(objs[0]));
        assert forall|j: int| 1 <= j < e implies doc[j] != '}' by {
            if j <= head.len() {
                assert(doc[j] == head[j - 1]);
            } else if j > head.len() + 1 {
                assert(doc[j] == o[j - head.len() - 2]);
            }
        }
        assert(doc[e] == '}');
        lemma_first_char_at(doc, '}', 1, e);
        assert(doc.subrange(1, e) =~= head + seq!['{'] + o);
        assert(doc.subrange(e + 1, doc.len() as int) =~= tail);
        assert forall|i: int| 0 <= i < objs.drop_first().len() implies no_close(
            #[trigger] objs.drop_first()[i],
        ) by {
            assert(objs.drop_first()[i] == objs[i + 1]);
        }
        lemma_objects_tail(doc, e + 1, objs.drop_first());
        assert(objects_from(doc, 0) == seq![doc.subrange(1, e)] + objects_from(doc, e + 1));
    }
}

// ---------------------------------------------------------------------------
// The policy file
// ---------------------------------------------------------------------------

/// A value that reads back as written: no control character (it would come back as the
/// letter of its escape) and no `}` (it would end the entry early).
pub open spec fn plain_value(v: Seq<char>) -> bool {
    no_control(v) && no_close(v)
}

pub open spec fn plain_policy(p: SpecPolicy) -> bool {
    plain_value(p.package) && plain_value(p.permission) && plain_value(p.state)
}

pub open spec fn entry_object(p: SpecPolicy) -> Seq<char> {
    policy_object(policy_head(), p.package, p.permission, p.state)
}

proof fn lemma_policy_object_no_close(head: Seq<char>, p: SpecPolicy)
    requires
        head == first_policy_head() || head == policy_head(),
        plain_policy(p),
    ensures
        no_close(policy_object(head, p.package, p.permission, p.state)),
{
    reveal_strlit("\"permissions\":[{\"package\":\"");
    reveal_strlit("\"package\":\"");
    reveal_strlit("\",\"permission\":\"");
    reveal_strlit("\",\"state\":\"");
    reveal_strlit("\"");
    lemma_escape_avoids(p.package, '}');
    lemma_escape_avoids(p.permission, '}');
    lemma_escape_avoids(p.state, '}');
    let t = policy_object(head, p.package, p.permission, p.state);
    let e1 = spec_escape(p.package);
    let e2 = spec_escape(p.permission);
    let e3 = spec_escape(p.state);
    let l2 = "\",\"permission\":\""@;
    let l3 = "\",\"state\":\""@;
    assert forall|k: int| 0 <= k < t.len() implies #[trigger] t[k] != '}' by {
        let h = head.len() as int;
        let n1 = h + e1.len();
        let n2 = n1 + 16 + e2.len();
        if k < h {
            assert(t[k] == head[k]);
        } else if k < n1 {
            assert(t[k] == e1[k - h]);
        } else if k < n1 + 16 {
            assert(t[k] == l2[k - n1]);
        } else if k < n2 {
            assert(t[k] == e2[k - n1 - 16]);
        } else if k < n2 + 11 {
            assert(t[k] == l3[k - n2]);
        } else if k < n2 + 11 + e3.len() {
            assert(t[k] == e3[k - n2 - 11]);
        }
    }
}

proof fn lemma_policies_of_entries(ps: Seq<SpecPolicy>)
    requires
        forall|i: int| 0 <= i < ps.len() ==> plain_policy(#[trigger] ps[i]),
    ensures
        policies_of(ps.map_values(|p: SpecPolicy| entry_object(p))) == ps,
    decreases ps.len(),
{
    let objs = ps.map_values(|p: SpecPolicy| entry_object(p));
    if ps.len() > 0 {
        let rest = ps.drop_first();
        assert forall|i: int| 0 <= i < rest.len() implies plain_policy(#[trigger] rest[i]) by {
            assert(rest[i] == ps[i + 1]);
        }
        lemma_policies_of_entries(rest);
        assert(objs.drop_first() =~= rest.map_values(|p: SpecPolicy| entry_object(p)));
        assert(plain_policy(ps[0]));
        lemma_policy_fields(policy_head(), ps[0].package, ps[0].permission, ps[0].state);
        assert(objs[0] == entry_object(ps[0]));
        assert(ps =~= seq![ps[0]] + rest);
    } else {
        assert(objs =~= Seq::<Seq<char>>::empty());
    }
}

proof fn lemma_policies_document(ps: Seq<SpecPolicy>)
    ensures
        spec_policies_json(ps) == seq!['{'] + "\"permissions\":["@ + join_comma(
            braced_all(ps.map_values(|p: SpecPolicy| entry_object(p))),
        ) + "]}\n"@,
{
    reveal_strlit("{\"permissions\":[");
    reveal_strlit("\"permissions\":[");
    reveal_strlit("\"package\":\"");
    reveal_strlit("{\"package\":\"");
    reveal_strlit("\"}");
    reveal_strlit("\"");
    let objs = ps.map_values(|p: SpecPolicy| entry_object(p));
    assert forall|i: int| 0 <= i < ps.len() implies policy_json_parts(ps)[i] == braced_all(objs)[i] by {
        let p = ps[i];
        assert(policy_json(p) =~= braced(entry_object(p)));
    }
    assert(policy_json_parts(ps) =~= braced_all(objs));
    assert(seq!['{'] + "\"permissions\":["@ =~= "{\"permissions\":["@);
}

proof fn lemma_empty_policy_file_object()
    ensures
        policy_of("\"permissions\":["@ + seq![']']) is None,
{
    reveal_strlit("\"permissions\":[");
    reveal_strlit("package");
    let t = "\"permissions\":["@ + seq![']'];
    let f = "package"@;
    assert forall|i: int| 0 <= i implies !matches_at(t, field_pattern(f), i) by {
        if matches_at(t, field_pattern(f), i) {
            lemma_match_key_end(t, f, i);
            assert(forall|o: int| #[trigger] key_end(t, o) ==> o == 12);
            assert(t[4] == 'm');
        }
    }
    lemma_no_match(t, field_pattern(f), 0);
}

/// Reading the policy file back gives the entries it was written from, in order, when no
/// package, permission or state holds a control character or a `}`.
pub proof fn law_policies_read_back(ps: Seq<SpecPolicy>)
    requires
        forall|i: int| 0 <= i < ps.len() ==> plain_policy(#[trigger] ps[i]),
    ensures
        spec_parse_policies(spec_policies_json(ps)) == ps,
{
    reveal_strlit("\"permissions\":[");
    reveal_strlit("\"permissions\":[{\"package\":\"");
    reveal_strlit("\"package\":\"");
    let h = "\"permissions\":["@;
    let objs = ps.map_values(|p: SpecPolicy| entry_object(p));
    lemma_policies_document(ps);
    assert(no_close(h));
    assert forall|i: int| 0 <= i < objs.len() implies no_close(#[trigger] objs[i]) by {
        lemma_policy_object_no_close(policy_head(), ps[i]);
    }
    lemma_document_objects(h, objs);
    let found = objects_from(spec_policies_json(ps), 0);
    if ps.len() == 0 {
        lemma_empty_policy_file_object();
        assert(found[0] == h + seq![']']);
        assert(found.drop_first() =~= Seq::<Seq<char>>::empty());
        assert(policies_of(found.drop_first()) == Seq::<SpecPolicy>::empty());
        assert(policies_of(found) == policies_of(found.drop_first()));
        assert(ps =~= Seq::<SpecPolicy>::empty());
    } else {
        assert(h + seq!['{'] + objs[0] =~= policy_object(
            first_policy_head(),
            ps[0].package,
            ps[0].permission,
            ps[0].state,
        ));
        assert(plain_policy(ps[0]));
        lemma_policy_fields(first_policy_head(), ps[0].package, ps[0].permission, ps[0].state);
        let rest = ps.drop_first();
        assert forall|i: int| 0 <= i < rest.len() implies plain_policy(#[trigger] rest[i]) by {
            assert(rest[i] == ps[i + 1]);
        }
        lemma_policies_of_entries(rest);
        assert(found.drop_first() =~= rest.map_values(|p: SpecPolicy| entry_object(p)));
        assert(found[0] == h + seq!['{'] + objs[0]);
        assert(policy_of(found[0]) == Some(ps[0]));
        assert(policies_of(found) == seq![ps[0]] + policies_of(found.drop_first()));
        assert(ps =~= seq![ps[0]] + rest);
    }
}

// ---------------------------------------------------------------------------
// The application registry
// ---------------------------------------------------------------------------

/// What opens the text of the first object of the registry.
pub open spec fn first_app_head() -> Seq<char> {
    "\"apps\":[{\"package\":\""@
}

/// The text between the braces of one application of the registry, after `head`.
pub open spec fn app_object(head: Seq<char>, a: SpecApp) -> Seq<char> {
    head + spec_escape(a.package) + "\",\"name\":\""@ + spec_escape(a.name)
        + "\",\"version\":null,\"activities\":[],\"icon\":\""@ + spec_escape(a.icon_name)
        + "\",\"source\":\"apk\",\"permissions\":[]"@
}

proof fn lemma_app_key_ends(head: Seq<char>, a: SpecApp)
    requires
        head == first_app_head() || head == policy_head(),
    ensures
        ({
            let t = app_object(head, a);
            let n1 = head.len() + spec_escape(a.package).len();
            let n2 = n1 + 10 + spec_escape(a.name).len();
            let n3 = n2 + 41 + spec_escape(a.icon_name).len();
            forall|j: int| #[trigger]
                key_end(t, j) ==> (j == head.len() - 3 || (head == first_app_head() && j == 5) || j
                    == n1 + 7 || j == n2 + 10 || j == n2 + 28 || j == n2 + 38 || j == n3 + 9 || j
                    == n3 + 29)
        }),
{
    reveal_strlit("\"apps\":[{\"package\":\"");
    reveal_strlit("\"package\":\"");
    reveal_strlit("\",\"name\":\"");
    reveal_strlit("\",\"version\":null,\"activities\":[],\"icon\":\"");
    reveal_strlit("\",\"source\":\"apk\",\"permissions\":[]");
    let e1 = spec_escape(a.package);
    let e2 = spec_escape(a.name);
    let e3 = spec_escape(a.icon_name);
    let r2 = "\",\"name\":\""@;
    let r3 = "\",\"version\":null,\"activities\":[],\"icon\":\""@;
    let r4 = "\",\"source\":\"apk\",\"permissions\":[]"@;
    lemma_escape_guarded(a.package);
    lemma_escape_guarded(a.name);
    lemma_escape_guarded(a.icon_name);
    let b2 = r3 + e3 + r4;
    let b1 = r2 + e2 + b2;
    let t = app_object(head, a);
    assert(t =~= head + e1 + b1);
    lemma_key_end_split(head, e1, b1);
    lemma_key_end_split(r2, e2, b2);
    lemma_key_end_split(r3, e3, r4);
    assert(forall|o: int| #[trigger] key_end(r2, o) ==> o == 7);
    assert(forall|o: int| #[trigger] key_end(r3, o) ==> o == 10 || o == 28 || o == 38);
    assert(forall|o: int| #[trigger] key_end(r4, o) ==> o == 9 || o == 29);
    if head == first_app_head() {
        assert(forall|o: int| #[trigger] key_end(head, o) ==> o == 5 || o == 17);
    } else {
        assert(forall|o: int| #[trigger] key_end(head, o) ==> o == 8);
    }
}

/// The package and name of an application of the registry read back as written.
proof fn lemma_app_fields(head: Seq<char>, a: SpecApp)
    requires
        head == first_app_head() || head == policy_head(),
        no_control(a.package),
    ensures
        spec_string_field(app_object(head, a), "package"@) == Some(a.package),
        no_control(a.name) ==> spec_string_field(app_object(head, a), "name"@) == Some(a.name),
{
    reveal_strlit("\"apps\":[{\"package\":\"");
    reveal_strlit("\"package\":\"");
    reveal_strlit("\",\"name\":\"");
    reveal_strlit("\",\"version\":null,\"activities\":[],\"icon\":\"");
    reveal_strlit("package");
    reveal_strlit("name");
    let e1 = spec_escape(a.package);
    let e2 = spec_escape(a.name);
    let r2 = "\",\"name\":\""@;
    let r3 = "\",\"version\":null,\"activities\":[],\"icon\":\""@;
    let t = app_object(head, a);
    let h = head.len() as int;
    let n1 = h + e1.len();
    let n2 = n1 + 10 + e2.len();
    lemma_app_key_ends(head, a);
    // "package"
    let f1 = "package"@;
    let p1 = h - 11;
    assert(t.subrange(p1, p1 + 11) =~= field_pattern(f1)) by {
        assert forall|d: int| 0 <= d < 11 implies t[p1 + d] == field_pattern(f1)[d] by {
            assert(t[p1 + d] == head[p1 + d]);
        }
    }
    assert forall|i: int| 0 <= i < p1 implies !matches_at(t, field_pattern(f1), i) by {
        if matches_at(t, field_pattern(f1), i) {
            lemma_match_key_end(t, f1, i);
            assert(key_end(t, i + 8));
        }
    }
    assert(t.subrange(h, h + e1.len()) =~= e1);
    assert(t[h + e1.len()] == r2[0]);
    lemma_field_found(t, f1, p1, a.package);
    // "name"
    if no_control(a.name) {
        let f2 = "name"@;
        let p2 = n1 + 2;
        assert(t.subrange(p2, p2 + 8) =~= field_pattern(f2)) by {
            assert forall|d: int| 0 <= d < 8 implies t[p2 + d] == field_pattern(f2)[d] by {
                assert(t[p2 + d] == r2[2 + d]);
            }
        }
        assert forall|i: int| 0 <= i < p2 implies !matches_at(t, field_pattern(f2), i) by {
            if matches_at(t, field_pattern(f2), i) {
                lemma_match_key_end(t, f2, i);
                assert(key_end(t, i + 5));
                assert(t[1] == head[1]);
                assert(t[3] == head[3]);
                assert(t[12] == head[12] || head == policy_head());
                assert(f2[0] == 'n');
            }
        }
        assert(t.subrange(n1 + 10, n1 + 10 + e2.len()) =~= e2);
        assert(t[n1 + 10 + e2.len()] == r3[0]);
        lemma_field_found(t, f2, p2, a.name);
    }
}

proof fn lemma_app_object_no_close(head: Seq<char>, a: SpecApp)
    requires
        head == first_app_head() || head == policy_head(),
        no_close(a.package),
        no_close(a.name),
        no_close(a.icon_name),
    ensures
        no_close(app_object(head, a)),
{
    reveal_strlit("\"apps\":[{\"package\":\"");
    reveal_strlit("\"package\":\"");
    reveal_strlit("\",\"name\":\"");
    reveal_strlit("\",\"version\":null,\"activities\":[],\"icon\":\"");
    reveal_strlit("\",\"source\":\"apk\",\"permissions\":[]");
    lemma_escape_avoids(a.package, '}');
    lemma_escape_avoids(a.name, '}');
    lemma_escape_avoids(a.icon_name, '}');
    let t = app_object(head, a);
    let e1 = spec_escape(a.package);
    let e2 = spec_escape(a.name);
    let e3 = spec_escape(a.icon_name);
    let r2 = "\",\"name\":\""@;
    let r3 = "\",\"version\":null,\"activities\":[],\"icon\":\""@;
    let r4 = "\",\"source\":\"apk\",\"permissions\":[]"@;
    assert forall|k: int| 0 <= k < t.len() implies #[trigger] t[k] != '}' by {
        let h = head.len() as int;
        let n1 = h + e1.len();
        let n2 = n1 + 10 + e2.len();
        let n3 = n2 + 41 + e3.len();
        if k < h {
            assert(t[k] == head[k]);
        } else if k < n1 {
            assert(t[k] == e1[k - h]);
        } else if k < n1 + 10 {
            assert(t[k] == r2[k - n1]);
        } else if k < n2 {
            assert(t[k] == e2[k - n1 - 10]);
        } else if k < n2 + 41 {
            assert(t[k] == r3[k - n2]);
        } else if k < n3 {
            assert(t[k] == e3[k - n2 - 41]);
        } else {
            assert(t[k] == r4[k - n3]);
        }
    }
}

pub open spec fn app_entry(a: SpecApp) -> Seq<char> {
    app_object(policy_head(), a)
}

proof fn lemma_registry_document(apps: Seq<SpecApp>)
    ensures
        spec_registry_json(apps) == seq!['{'] + "\"apps\":["@ + join_comma(
            braced_all(apps.map_values(|a: SpecApp| app_entry(a))),
        ) + "]}\n"@,
{
    reveal_strlit("{\"apps\":[");
    reveal_strlit("\"apps\":[");
    reveal_strlit("\"package\":\"");
    reveal_strlit("{\"package\":\"");
    reveal_strlit("\",\"source\":\"apk\",\"permissions\":[]}");
    reveal_strlit("\",\"source\":\"apk\",\"permissions\":[]");
    let objs = apps.map_values(|a: SpecApp| app_entry(a));
    assert forall|i: int| 0 <= i < apps.len() implies app_json_parts(apps)[i] == braced_all(objs)[i] by {
        let a = apps[i];
        assert(app_json(a) =~= braced(app_entry(a)));
    }
    assert(app_json_parts(apps) =~= braced_all(objs));
    assert(seq!['{'] + "\"apps\":["@ =~= "{\"apps\":["@);
}

/// The package reads back; name and icon must only not end the entry early.
pub open spec fn package_readable(a: SpecApp) -> bool {
    plain_value(a.package) && no_close(a.name) && no_close(a.icon_name)
}

/// Package and name read back; the icon is not read, so only its braces matter.
pub open spec fn readable_app(a: SpecApp) -> bool {
    package_readable(a) && no_control(a.name)
}

/// What the software center lists for an application of the registry.
pub open spec fn listed_from_registry(a: SpecApp) -> SpecListedApp {
    SpecListedApp { source: "apk"@, name: a.name, id: a.package }
}

proof fn lemma_registry_apps_of_entries(apps: Seq<SpecApp>)
    requires
        forall|i: int| 0 <= i < apps.len() ==> package_readable(#[trigger] apps[i]),
    ensures
        packages_of(apps.map_values(|a: SpecApp| app_entry(a))) == apps.map_values(
            |a: SpecApp| a.package,
        ),
        (forall|i: int| 0 <= i < apps.len() ==> readable_app(#[trigger] apps[i])) ==> registry_apps_of(
            apps.map_values(|a: SpecApp| app_entry(a)),
        ) == apps.map_values(|a: SpecApp| listed_from_registry(a)),
    decreases apps.len(),
{
    let objs = apps.map_values(|a: SpecApp| app_entry(a));
    if apps.len() > 0 {
        let rest = apps.drop_first();
        assert forall|i: int| 0 <= i < rest.len() implies package_readable(#[trigger] rest[i]) by {
            assert(rest[i] == apps[i + 1]);
        }
        lemma_registry_apps_of_entries(rest);
        assert(objs.drop_first() =~= rest.map_values(|a: SpecApp| app_entry(a)));
        assert(package_readable(apps[0]));
        lemma_app_fields(policy_head(), apps[0]);
        assert(objs[0] == app_entry(apps[0]));
        assert(apps.map_values(|a: SpecApp| a.package) =~= seq![apps[0].package]
            + rest.map_values(|a: SpecApp| a.package));
        if forall|i: int| 0 <= i < apps.len() ==> readable_app(#[trigger] apps[i]) {
            assert forall|i: int| 0 <= i < rest.len() implies readable_app(#[trigger] rest[i]) by {
                assert(rest[i] == apps[i + 1]);
            }
            assert(readable_app(apps[0]));
            assert(registry_app(objs[0]) == Some(listed_from_registry(apps[0])));
            assert(apps.map_values(|a: SpecApp| listed_from_registry(a)) =~= seq![
                listed_from_registry(apps[0]),
            ] + rest.map_values(|a: SpecApp| listed_from_registry(a)));
        }
    } else {
        assert(objs =~= Seq::<Seq<char>>::empty());
        assert(apps.map_values(|a: SpecApp| listed_from_registry(a)) =~= Seq::<
            SpecListedApp,
        >::empty());
        assert(apps.map_values(|a: SpecApp| a.package) =~= Seq::<Seq<char>>::empty());
    }
}

proof fn lemma_empty_registry_object()
    ensures
        spec_string_field("\"apps\":["@ + seq![']'], "package"@) is None,
{
    reveal_strlit("\"apps\":[");
    reveal_strlit("package");
    let t = "\"apps\":["@ + seq![']'];
    let f = "package"@;
    assert forall|i: int| 0 <= i implies !matches_at(t, field_pattern(f), i) by {
        if matches_at(t, field_pattern(f), i) {
            lemma_match_key_end(t, f, i);
            assert(forall|o: int| #[trigger] key_end(t, o) ==> o == 5);
        }
    }
    lemma_no_match(t, field_pattern(f), 0);
}

proof fn lemma_registry_objects(apps: Seq<SpecApp>)
    requires
        forall|i: int| 0 <= i < apps.len() ==> package_readable(#[trigger] apps[i]),
    ensures
        packages_of(objects_from(spec_registry_json(apps), 0)) == apps.map_values(
            |a: SpecApp| a.package,
        ),
        (forall|i: int| 0 <= i < apps.len() ==> readable_app(#[trigger] apps[i])) ==> registry_apps_of(
            objects_from(spec_registry_json(apps), 0),
        ) == apps.map_values(|a: SpecApp| listed_from_registry(a)),
{
    reveal_strlit("\"apps\":[");
    reveal_strlit("\"apps\":[{\"package\":\"");
    reveal_strlit("\"package\":\"");
    let h = "\"apps\":["@;
    let objs = apps.map_values(|a: SpecApp| app_entry(a));
    lemma_registry_document(apps);
    assert(no_close(h));
    assert forall|i: int| 0 <= i < objs.len() implies no_close(#[trigger] objs[i]) by {
        lemma_app_object_no_close(policy_head(), apps[i]);
    }
    lemma_document_objects(h, objs);
    let found = objects_from(spec_registry_json(apps), 0);
    if apps.len() == 0 {
        lemma_empty_registry_object();
        assert(found[0] == h + seq![']']);
        assert(found.drop_first() =~= Seq::<Seq<char>>::empty());
        assert(registry_apps_of(found.drop_first()) == Seq::<SpecListedApp>::empty());
        assert(packages_of(found.drop_first()) == Seq::<Seq<char>>::empty());
        assert(registry_app(found[0]) is None);
        assert(apps.map_values(|a: SpecApp| listed_from_registry(a)) =~= Seq::<
            SpecListedApp,
        >::empty());
        assert(apps.map_values(|a: SpecApp| a.package) =~= Seq::<Seq<char>>::empty());
    } else {
        assert(h + seq!['{'] + objs[0] =~= app_object(first_app_head(), apps[0]));
        assert(package_readable(apps[0]));
        lemma_app_fields(first_app_head(), apps[0]);
        let rest = apps.drop_first();
        assert forall|i: int| 0 <= i < rest.len() implies package_readable(#[trigger] rest[i]) by {
            assert(rest[i] == apps[i + 1]);
        }
        lemma_registry_apps_of_entries(rest);
        assert(found.drop_first() =~= rest.map_values(|a: SpecApp| app_entry(a)));
        assert(found[0] == h + seq!['{'] + objs[0]);
        assert(packages_of(found) == seq![apps[0].package] + packages_of(found.drop_first()));
        assert(apps.map_values(|a: SpecApp| a.package) =~= seq![apps[0].package]
            + rest.map_values(|a: SpecApp| a.package));
        if forall|i: int| 0 <= i < apps.len() ==> readable_app(#[trigger] apps[i]) {
            assert forall|i: int| 0 <= i < rest.len() implies readable_app(#[trigger] rest[i]) by {
                assert(rest[i] == apps[i + 1]);
            }
            assert(readable_app(apps[0]));
            assert(registry_app(found[0]) == Some(listed_from_registry(apps[0])));
            assert(registry_apps_of(found) == seq![listed_from_registry(apps[0])]
                + registry_apps_of(found.drop_first()));
            assert(apps.map_values(|a: SpecApp| listed_from_registry(a)) =~= seq![
                listed_from_registry(apps[0]),
            ] + rest.map_values(|a: SpecApp| listed_from_registry(a)));
        }
    }
}

/// The software center lists each application of a registry the integration service wrote,
/// in order, under its name and package, when no package or name holds a control character
/// or a `}` and no icon name holds a `}`.
pub proof fn law_registry_lists_written_apps(apps: Seq<SpecApp>)
    requires
        forall|i: int| 0 <= i < apps.len() ==> readable_app(#[trigger] apps[i]),
    ensures
        registry_apps_of(objects_from(spec_registry_json(apps), 0)) == apps.map_values(
            |a: SpecApp| listed_from_registry(a),
        ),
{
    lemma_registry_objects(apps);
}

/// The settings application reads the packages of a registry the integration service
/// wrote, in order, when no package holds a control character and no package, name or icon
/// name holds a `}`.
pub proof fn law_registry_packages_read_back(apps: Seq<SpecApp>)
    requires
        forall|i: int| 0 <= i < apps.len() ==> package_readable(#[trigger] apps[i]),
    ensures
        registry_packages(spec_registry_json(apps)) == apps.map_values(|a: SpecApp| a.package),
{
    lemma_registry_objects(apps);
}

/// A string member written with `escape_json` reads back as the value it was written from,
/// when the value holds no control character.
pub proof fn law_escaped_member_reads_back(f: Seq<char>, v: Seq<char>)
    requires
        no_control(v),
    ensures
        spec_string_field(field_pattern(f) + spec_escape(v) + seq!['"'], f) == Some(v),
{
    let t = field_pattern(f) + spec_escape(v) + seq!['"'];
    let n = field_pattern(f).len() as int;
    let e = spec_escape(v);
    assert(t.subrange(0, n) =~= field_pattern(f));
    assert(t.subrange(n, n + e.len()) =~= e);
    assert(t[n + e.len()] == '"');
    lemma_field_found(t, f, 0, v);
}

} // verus!
