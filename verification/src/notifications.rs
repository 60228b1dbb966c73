//! Android notifications forwarded to the desktop: reading the
//! `cmd notification list` output and remembering which keys were shown.

use std::collections::VecDeque;
use vstd::prelude::*;
use crate::json::{find_char, find_from, first_char, first_match, lemma_first_char_bounds};
use crate::text::{
    chars_of, copy_range, lemma_chars_deep_view, lines_of, split_lines, string_from_chars, text_eq,
    trim, trim_chars,
};

verus! {

/// At most this many notification keys are remembered.
pub const MAX_SEEN: usize = 200;

/// A notification read from Android.
#[derive(Debug)]
pub struct Notification {
    pub key: String,
    pub title: String,
    pub body: String,
}

pub struct SpecNotification {
    pub key: Seq<char>,
    pub title: Seq<char>,
    pub body: Seq<char>,
}

impl DeepView for Notification {
    type V = SpecNotification;

    open spec fn deep_view(&self) -> SpecNotification {
        SpecNotification { key: self.key@, title: self.title@, body: self.body@ }
    }
}

/// The value after the first `key` in `line`: up to the next quote when it starts with one
/// (nothing when that quote is missing), else up to the next space or the end.
pub open spec fn spec_value_after(line: Seq<char>, key: Seq<char>) -> Option<Seq<char>> {
    match first_match(line, key, 0) {
        None => None,
        Some(i) => {
            let start = i + key.len();
            if start < line.len() && line[start] == '"' {
                match first_char(line, '"', start + 1) {
                    None => None,
                    Some(end) => Some(line.subrange(start + 1, end)),
                }
            } else {
                match first_char(line, ' ', start) {
                    Some(end) => Some(line.subrange(start, end)),
                    None => Some(line.subrange(start, line.len() as int)),
                }
            }
        },
    }
}

/// The value after `key` in the characters of a line.
pub fn value_after(line: &Vec<char>, key: &str) -> (r: Option<String>)
    ensures
        r.deep_view() == spec_value_after(line@, key@),
{
    let k = chars_of(key);
    let start = match find_from(line, &k, 0) {
        Some(i) => i + k.len(),
        None => return None,
    };
    if start < line.len() && line[start] == '"' {
        proof {
            lemma_first_char_bounds(line@, '"', start + 1);
        }
        let end = match find_char(line, '"', start + 1) {
            Some(end) => end,
            None => return None,
        };
        let v = copy_range(line, start + 1, end);
        return Some(string_from_chars(v.as_slice()));
    }
    proof {
        lemma_first_char_bounds(line@, ' ', start as int);
    }
    let end = match find_char(line, ' ', start) {
        Some(end) => end,
        None => line.len(),
    };
    let v = copy_range(line, start, end);
    Some(string_from_chars(v.as_slice()))
}

/// The value of the first of `keys` present in the line.
pub open spec fn spec_first_value(line: Seq<char>, keys: Seq<Seq<char>>) -> Option<Seq<char>>
    decreases keys.len(),
{
    if keys.len() == 0 {
        None
    } else {
        match spec_value_after(line, keys[0]) {
            Some(v) => Some(v),
            None => spec_first_value(line, keys.drop_first()),
        }
    }
}

pub open spec fn key_views(keys: Seq<&str>) -> Seq<Seq<char>> {
    keys.map_values(|k: &str| k@)
}

/// The value of the first of `keys` that occurs in the line.
pub fn first_value(line: &Vec<char>, keys: &[&str]) -> (r: Option<String>)
    ensures
        r.deep_view() == spec_first_value(line@, key_views(keys@)),
{
    let ghost kv = key_views(keys@);
    let mut i: usize = 0;
    assert(kv.skip(0) =~= kv);
    while i < keys.len()
        invariant
            i <= keys.len(),
            kv == key_views(keys@),
            kv.len() == keys@.len(),
            spec_first_value(line@, kv) == spec_first_value(line@, kv.skip(i as int)),
        decreases keys.len() - i,
    {
        assert(kv.skip(i as int)[0] == keys@[i as int]@);
        assert(kv.skip(i as int).drop_first() =~= kv.skip(i + 1));
        if let Some(v) = value_after(line, keys[i]) {
            return Some(v);
        }
        i = i + 1;
    }
    None
}

pub open spec fn or_else(v: Option<Seq<char>>, d: Seq<char>) -> Seq<char> {
    match v {
        Some(x) => x,
        None => d,
    }
}

/// The notification one non-blank, trimmed line describes.
pub open spec fn spec_notification(line: Seq<char>) -> SpecNotification {
    let package = or_else(
        spec_first_value(line, seq!["pkg="@, "package="@]),
        "Android application"@,
    );
    let title = or_else(spec_first_value(line, seq!["title="@, "tickerText="@, "text="@]), package);
    let body = or_else(spec_first_value(line, seq!["text="@, "content="@, "message="@]), line);
    let key = or_else(spec_first_value(line, seq!["key="@, "id="@]), line);
    SpecNotification { key, title, body }
}

/// One notification for each non-blank line, in order.
pub open spec fn spec_notifications(lines: Seq<Seq<char>>) -> Seq<SpecNotification>
    decreases lines.len(),
{
    if lines.len() == 0 {
        Seq::empty()
    } else {
        let prev = spec_notifications(lines.drop_last());
        let line = trim(lines.last());
        if line.len() == 0 {
            prev
        } else {
            prev.push(spec_notification(line))
        }
    }
}

fn value_or(v: Option<String>, default: &Vec<char>) -> (r: String)
    ensures
        r@ == or_else(v.deep_view(), default@),
{
    match v {
        Some(x) => x,
        None => string_from_chars(default.as_slice()),
    }
}

fn notification_of(line: &Vec<char>) -> (n: Notification)
    ensures
        n.deep_view() == spec_notification(line@),
{
    let pkg_keys: [&str; 2] = ["pkg=", "package="];
    let title_keys: [&str; 3] = ["title=", "tickerText=", "text="];
    let body_keys: [&str; 3] = ["text=", "content=", "message="];
    let key_keys: [&str; 2] = ["key=", "id="];
    assert(key_views(pkg_keys@) =~= seq!["pkg="@, "package="@]);
    assert(key_views(title_keys@) =~= seq!["title="@, "tickerText="@, "text="@]);
    assert(key_views(body_keys@) =~= seq!["text="@, "content="@, "message="@]);
    assert(key_views(key_keys@) =~= seq!["key="@, "id="@]);
    let default_package = chars_of("Android application");
    let package = value_or(first_value(line, pkg_keys.as_slice()), &default_package);
    let package_chars = chars_of(package.as_str());
    let title = value_or(first_value(line, title_keys.as_slice()), &package_chars);
    let body = value_or(first_value(line, body_keys.as_slice()), line);
    let key = value_or(first_value(line, key_keys.as_slice()), line);
    Notification { key, title, body }
}

/// The notifications listed in `cmd notification list` output.
pub fn parse_notifications(output: &str) -> (notifications: Vec<Notification>)
    ensures
        notifications.deep_view() == spec_notifications(split_lines(output@)),
{
    let text = chars_of(output);
    let lines = lines_of(&text);
    let ghost ls = lines.deep_view();
    let mut notifications: Vec<Notification> = Vec::new();
    let mut i: usize = 0;
    assert(notifications.deep_view() =~= Seq::<SpecNotification>::empty());
    while i < lines.len()
        invariant
            i <= lines.len(),
            ls == lines.deep_view(),
            ls.len() == lines.len(),
            notifications.deep_view() == spec_notifications(ls.take(i as int)),
        decreases lines.len() - i,
    {
        proof {
            lemma_chars_deep_view(&lines@[i as int]);
        }
        assert(ls.take(i + 1).drop_last() =~= ls.take(i as int));
        let line = trim_chars(&lines[i]);
        if line.len() > 0 {
            let n = notification_of(&line);
            let ghost before = notifications.deep_view();
            notifications.push(n);
            assert(notifications.deep_view() =~= before.push(notifications@.last().deep_view()));
        }
        i = i + 1;
    }
    assert(ls.take(ls.len() as int) =~= ls);
    notifications
}

/// Some remembered key equals `key`.
pub open spec fn spec_has_seen(seen: Seq<String>, key: Seq<char>) -> bool {
    exists|i: int| 0 <= i < seen.len() && #[trigger] seen[i]@ == key
}

/// Whether a notification key was already shown.
pub fn has_seen(seen: &VecDeque<String>, key: &str) -> (r: bool)
    ensures
        r == spec_has_seen(seen@, key@),
{
    let mut i: usize = 0;
    while i < seen.len()
        invariant
            i <= seen@.len(),
            forall|j: int| 0 <= j < i ==> seen@[j]@ != key@,
        decreases seen@.len() - i,
    {
        if text_eq(seen[i].as_str(), key) {
            return true;
        }
        i = i + 1;
    }
    false
}

/// The last `n` items of `s` (all of them when there are fewer).
pub open spec fn keep_last<T>(s: Seq<T>, n: nat) -> Seq<T> {
    if s.len() > n {
        s.skip(s.len() - n)
    } else {
        s
    }
}

/// Remembers a shown key, forgetting the oldest beyond `MAX_SEEN`.
pub fn remember(seen: &mut VecDeque<String>, key: String)
    ensures
        final(seen)@ == keep_last(old(seen)@.push(key), MAX_SEEN as nat),
{
    let ghost all = old(seen)@.push(key);
    seen.push_back(key);
    assert(all.skip(0) =~= all);
    while seen.len() > MAX_SEEN
        invariant
            exists|d: int| 0 <= d <= all.len() && seen@ == all.skip(d),
            all.len() > MAX_SEEN ==> seen@.len() >= MAX_SEEN,
            seen@.len() > MAX_SEEN ==> all.len() > MAX_SEEN,
            all.len() <= MAX_SEEN ==> seen@ == all,
        decreases seen@.len(),
    {
        let ghost d = choose|d: int| 0 <= d <= all.len() && seen@ == all.skip(d);
        let _ = seen.pop_front();
        assert(seen@ =~= all.skip(d + 1));
    }
    proof {
        let d = choose|d: int| 0 <= d <= all.len() && seen@ == all.skip(d);
        if all.len() > MAX_SEEN {
            assert(seen@.len() == MAX_SEEN);
            assert(d == all.len() - MAX_SEEN);
        }
    }
}

/// Once a key is remembered it counts as seen, the memory never holds more than
/// `MAX_SEEN` keys, and a key seen among the latest `MAX_SEEN - 1` stays seen.
pub proof fn law_remembered_key_is_seen(seen: Seq<String>, key: String)
    ensures
        spec_has_seen(keep_last(seen.push(key), MAX_SEEN as nat), key@),
        keep_last(seen.push(key), MAX_SEEN as nat).len() <= MAX_SEEN,
        forall|i: int|
            0 <= i < seen.len() && seen.len() - i < MAX_SEEN ==> spec_has_seen(
                keep_last(seen.push(key), MAX_SEEN as nat),
                (#[trigger] seen[i])@,
            ),
{
    let all = seen.push(key);
    let kept = keep_last(all, MAX_SEEN as nat);
    let d = if all.len() > MAX_SEEN {
        all.len() - MAX_SEEN
    } else {
        0
    };
    assert(kept =~= all.skip(d));
    assert(kept[kept.len() - 1] == key);
    assert forall|i: int| 0 <= i < seen.len() && seen.len() - i < MAX_SEEN implies spec_has_seen(
        kept,
        (#[trigger] seen[i])@,
    ) by {
        assert(kept[i - d] == seen[i]);
    }
}

// ---------------------------------------------------------------------------
// One poll of the bridge
// ---------------------------------------------------------------------------

/// The remembered keys as text.
pub open spec fn seen_keys(seen: Seq<String>) -> Seq<Seq<char>> {
    seen.map_values(|k: String| k@)
}

/// One poll, notification by notification: a notification whose key is not remembered at
/// that moment is shown and its key remembered (the oldest forgotten beyond `MAX_SEEN`);
/// one whose key is remembered is skipped. The remembered keys and the notifications shown.
pub open spec fn spec_poll(seen: Seq<Seq<char>>, polled: Seq<SpecNotification>) -> (
    Seq<Seq<char>>,
    Seq<SpecNotification>,
)
    decreases polled.len(),
{
    if polled.len() == 0 {
        (seen, Seq::empty())
    } else {
        let before = spec_poll(seen, polled.drop_last());
        let n = polled.last();
        if before.0.contains(n.key) {
            before
        } else {
            (keep_last(before.0.push(n.key), MAX_SEEN as nat), before.1.push(n))
        }
    }
}

proof fn lemma_has_seen_keys(seen: Seq<String>, key: Seq<char>)
    ensures
        spec_has_seen(seen, key) <==> seen_keys(seen).contains(key),
{
    if spec_has_seen(seen, key) {
        let i = choose|i: int| 0 <= i < seen.len() && #[trigger] seen[i]@ == key;
        assert(seen_keys(seen)[i] == key);
    }
    if seen_keys(seen).contains(key) {
        let i = choose|i: int| 0 <= i < seen_keys(seen).len() && seen_keys(seen)[i] == key;
        assert(seen[i]@ == key);
    }
}

proof fn lemma_keep_last_keys(seen: Seq<String>, key: String)
    ensures
        seen_keys(keep_last(seen.push(key), MAX_SEEN as nat)) == keep_last(
            seen_keys(seen).push(key@),
            MAX_SEEN as nat,
        ),
{
    let all = seen.push(key);
    assert(seen_keys(all) =~= seen_keys(seen).push(key@));
    if all.len() > MAX_SEEN {
        assert(seen_keys(all.skip(all.len() - MAX_SEEN)) =~= seen_keys(all).skip(
            all.len() - MAX_SEEN,
        ));
    }
}

/// Handles one poll: returns the notifications to show, in order, and remembers their keys.
pub fn fresh_notifications(seen: &mut VecDeque<String>, polled: Vec<Notification>) -> (shown: Vec<
    Notification,
>)
    ensures
        seen_keys(final(seen)@) == spec_poll(seen_keys(old(seen)@), polled.deep_view()).0,
        shown.deep_view() == spec_poll(seen_keys(old(seen)@), polled.deep_view()).1,
{
    let ghost s0 = seen_keys(seen@);
    let ghost ps = polled.deep_view();
    let count = polled.len();
    assert(ps.len() == count);
    let mut rest = polled;
    let mut shown: Vec<Notification> = Vec::new();
    let mut i: usize = 0;
    assert(rest.deep_view() =~= ps.skip(0));
    assert(rest.deep_view().len() == rest@.len());
    assert(shown.deep_view() =~= Seq::<SpecNotification>::empty());
    assert(ps.take(0) =~= Seq::<SpecNotification>::empty());
    assert(spec_poll(s0, ps.take(0)) == (s0, Seq::<SpecNotification>::empty()));
    while rest.len() > 0
        invariant
            i <= ps.len(),
            rest@.len() + i == ps.len(),
            ps.len() <= usize::MAX,
            rest.deep_view() == ps.skip(i as int),
            (seen_keys(seen@), shown.deep_view()) == spec_poll(s0, ps.take(i as int)),
        decreases rest.len(),
    {
        let ghost r0 = rest.deep_view();
        assert(r0.len() == rest@.len());
        assert(r0[0] == rest@[0].deep_view());
        let ghost rv0 = rest@;
        let n = rest.remove(0);
        assert forall|k: int| 0 <= k < rest@.len() implies rest.deep_view()[k] == ps.skip(i + 1)[k] by {
            assert(rest@[k] == rv0[k + 1]);
            assert(r0[k + 1] == rv0[k + 1].deep_view());
            assert(r0[k + 1] == ps[i + 1 + k]);
        }
        assert(rest.deep_view() =~= ps.skip(i + 1));
        assert(n.deep_view() == ps[i as int]) by {
            assert(r0[0] == ps[i as int]);
        }
        assert(ps.take(i + 1).drop_last() =~= ps.take(i as int));
        assert(ps.take(i + 1).last() == ps[i as int]);
        proof {
            lemma_has_seen_keys(seen@, n.key@);
        }
        if !has_seen(seen, n.key.as_str()) {
            let ghost before = seen@;
            let key = n.key.clone();
            let ghost sv = shown.deep_view();
            let ghost nv = n.deep_view();
            remember(seen, key);
            proof {
                lemma_keep_last_keys(before, key);
            }
            shown.push(n);
            assert(shown.deep_view() =~= sv.push(nv));
        }
        i = i + 1;
    }
    assert(ps.take(i as int) =~= ps);
    shown
}

/// The notifications of a poll whose key is neither remembered nor carried by an earlier
/// notification of the same poll, in order.
pub open spec fn fresh_in_poll(seen: Seq<Seq<char>>, polled: Seq<SpecNotification>) -> Seq<
    SpecNotification,
>
    decreases polled.len(),
{
    if polled.len() == 0 {
        Seq::empty()
    } else {
        let prev = fresh_in_poll(seen, polled.drop_last());
        let n = polled.last();
        if seen.contains(n.key) || notification_keys(polled.drop_last()).contains(n.key) {
            prev
        } else {
            prev.push(n)
        }
    }
}

/// The keys of the notifications.
pub open spec fn notification_keys(ns: Seq<SpecNotification>) -> Seq<Seq<char>> {
    ns.map_values(|n: SpecNotification| n.key)
}

/// When no key has to be forgotten (the remembered keys and the polled notifications
/// together number at most `MAX_SEEN`), a poll shows exactly the notifications whose key is
/// neither remembered nor carried by an earlier notification of the poll, each key at most
/// once and none remembered before, and remembers their keys after the others.
pub proof fn law_poll_shows_new_keys_once(seen: Seq<Seq<char>>, polled: Seq<SpecNotification>)
    requires
        seen.len() + polled.len() <= MAX_SEEN,
    ensures
        spec_poll(seen, polled).1 == fresh_in_poll(seen, polled),
        spec_poll(seen, polled).0 == seen + notification_keys(fresh_in_poll(seen, polled)),
        forall|i: int, j: int|
            0 <= i < j < fresh_in_poll(seen, polled).len() ==> fresh_in_poll(seen, polled)[i].key
                != fresh_in_poll(seen, polled)[j].key,
        forall|i: int|
            0 <= i < fresh_in_poll(seen, polled).len() ==> !seen.contains(
                #[trigger] fresh_in_poll(seen, polled)[i].key,
            ),
    decreases polled.len(),
{
    lemma_poll_without_eviction(seen, polled);
}

proof fn lemma_poll_without_eviction(seen: Seq<Seq<char>>, polled: Seq<SpecNotification>)
    requires
        seen.len() + polled.len() <= MAX_SEEN,
    ensures
        spec_poll(seen, polled).1 == fresh_in_poll(seen, polled),
        spec_poll(seen, polled).0 == seen + notification_keys(fresh_in_poll(seen, polled)),
        fresh_in_poll(seen, polled).len() <= polled.len(),
        forall|k: Seq<char>|
            #[trigger] spec_poll(seen, polled).0.contains(k) <==> (seen.contains(k)
                || notification_keys(polled).contains(k)),
        forall|i: int|
            0 <= i < fresh_in_poll(seen, polled).len() ==> notification_keys(polled).contains(
                #[trigger] fresh_in_poll(seen, polled)[i].key,
            ),
        forall|i: int, j: int|
            0 <= i < j < fresh_in_poll(seen, polled).len() ==> fresh_in_poll(seen, polled)[i].key
                != fresh_in_poll(seen, polled)[j].key,
        forall|i: int|
            0 <= i < fresh_in_poll(seen, polled).len() ==> !seen.contains(
                #[trigger] fresh_in_poll(seen, polled)[i].key,
            ),
    decreases polled.len(),
{
    if polled.len() == 0 {
        assert(notification_keys(Seq::<SpecNotification>::empty()) =~= Seq::<Seq<char>>::empty());
        assert(seen + Seq::<Seq<char>>::empty() =~= seen);
        assert(notification_keys(polled) =~= Seq::<Seq<char>>::empty());
    } else {
        let p = polled.drop_last();
        let n = polled.last();
        lemma_poll_without_eviction(seen, p);
        let f = fresh_in_poll(seen, p);
        let s = seen + notification_keys(f);
        assert(notification_keys(polled) =~= notification_keys(p).push(n.key));
        assert forall|k: Seq<char>| notification_keys(polled).contains(k) <==> (notification_keys(
            p,
        ).contains(k) || k == n.key) by {
            if notification_keys(polled).contains(k) {
                let j = choose|j: int| 0 <= j < notification_keys(polled).len() && notification_keys(polled)[j] == k;
                if j < p.len() {
                    assert(notification_keys(p)[j] == k);
                }
            }
            if notification_keys(p).contains(k) {
                let j = choose|j: int| 0 <= j < notification_keys(p).len() && notification_keys(p)[j] == k;
                assert(notification_keys(polled)[j] == k);
            }
            if k == n.key {
                assert(notification_keys(polled)[p.len() as int] == k);
            }
        }
        assert(spec_poll(seen, p).0.contains(n.key) <==> (seen.contains(n.key) || notification_keys(
            p,
        ).contains(n.key)));
        if !(seen.contains(n.key) || notification_keys(p).contains(n.key)) {
            let f2 = f.push(n);
            assert(notification_keys(f2) =~= notification_keys(f).push(n.key));
            assert(s.push(n.key) =~= seen + notification_keys(f2));
            assert(s.push(n.key).len() <= MAX_SEEN);
            assert(keep_last(s.push(n.key), MAX_SEEN as nat) == s.push(n.key));
            assert forall|k: Seq<char>| #[trigger] s.push(n.key).contains(k) <==> (seen.contains(k)
                || notification_keys(polled).contains(k)) by {
                if s.push(n.key).contains(k) {
                    let j = choose|j: int| 0 <= j < s.push(n.key).len() && s.push(n.key)[j] == k;
                    if j < s.len() {
                        assert(s.contains(k));
                    }
                }
                if s.contains(k) {
                    let j = choose|j: int| 0 <= j < s.len() && s[j] == k;
                    assert(s.push(n.key)[j] == k);
                }
                if k == n.key {
                    assert(s.push(n.key)[s.len() as int] == k);
                }
            }
            assert forall|i: int| 0 <= i < f2.len() implies notification_keys(polled).contains(
                #[trigger] f2[i].key,
            ) by {
                if i < f.len() {
                    assert(f2[i] == f[i]);
                }
            }
            assert forall|i: int, j: int| 0 <= i < j < f2.len() implies f2[i].key != f2[j].key by {
                if j == f.len() {
                    assert(f2[i] == f[i]);
                    assert(notification_keys(p).contains(f[i].key));
                } else {
                    assert(f2[i] == f[i] && f2[j] == f[j]);
                }
            }
            assert forall|i: int| 0 <= i < f2.len() implies !seen.contains(#[trigger] f2[i].key) by {
                if i < f.len() {
                    assert(f2[i] == f[i]);
                }
            }
        }
    }
}

/// Two polls in turn do what one poll of both batches does.
pub proof fn law_polls_compose(
    seen: Seq<Seq<char>>,
    first: Seq<SpecNotification>,
    second: Seq<SpecNotification>,
)
    ensures
        spec_poll(spec_poll(seen, first).0, second).0 == spec_poll(seen, first + second).0,
        spec_poll(seen, first).1 + spec_poll(spec_poll(seen, first).0, second).1 == spec_poll(
            seen,
            first + second,
        ).1,
    decreases second.len(),
{
    if second.len() == 0 {
        assert(first + second =~= first);
        assert(spec_poll(seen, first).1 + Seq::<SpecNotification>::empty() =~= spec_poll(
            seen,
            first,
        ).1);
    } else {
        law_polls_compose(seen, first, second.drop_last());
        assert((first + second).drop_last() =~= first + second.drop_last());
        assert((first + second).last() == second.last());
        let a = spec_poll(seen, first);
        let b = spec_poll(a.0, second.drop_last());
        let n = second.last();
        if !b.0.contains(n.key) {
            assert(a.1 + b.1.push(n) =~= (a.1 + b.1).push(n));
        }
    }
}

/// What a notification line gives: the key is the `key=` value when the line has one, else
/// the `id=` value, else the whole line; the package is the `pkg=` value, else the
/// `package=` value, else "Android application"; the title is the `title=` value, else the
/// `tickerText=` value, else the `text=` value, else the package; the body is the `text=`
/// value, else the `content=` value, else the `message=` value, else the whole line.
pub proof fn law_notification_fields(line: Seq<char>)
    ensures
        ({
            let n = spec_notification(line);
            let package = match spec_value_after(line, "pkg="@) {
                Some(v) => v,
                None => match spec_value_after(line, "package="@) {
                    Some(v) => v,
                    None => "Android application"@,
                },
            };
            &&& n.key == match spec_value_after(line, "key="@) {
                Some(v) => v,
                None => match spec_value_after(line, "id="@) {
                    Some(v) => v,
                    None => line,
                },
            }
            &&& n.title == match spec_value_after(line, "title="@) {
                Some(v) => v,
                None => match spec_value_after(line, "tickerText="@) {
                    Some(v) => v,
                    None => match spec_value_after(line, "text="@) {
                        Some(v) => v,
                        None => package,
                    },
                },
            }
            &&& n.body == match spec_value_after(line, "text="@) {
                Some(v) => v,
                None => match spec_value_after(line, "content="@) {
                    Some(v) => v,
                    None => match spec_value_after(line, "message="@) {
                        Some(v) => v,
                        None => line,
                    },
                },
            }
        }),
{
    let k = seq!["key="@, "id="@];
    assert(k.drop_first() =~= seq!["id="@]);
    assert(k.drop_first().drop_first() =~= Seq::<Seq<char>>::empty());
    let pk = seq!["pkg="@, "package="@];
    assert(pk.drop_first() =~= seq!["package="@]);
    assert(pk.drop_first().drop_first() =~= Seq::<Seq<char>>::empty());
    let t = seq!["title="@, "tickerText="@, "text="@];
    assert(t.drop_first() =~= seq!["tickerText="@, "text="@]);
    assert(t.drop_first().drop_first() =~= seq!["text="@]);
    assert(t.drop_first().drop_first().drop_first() =~= Seq::<Seq<char>>::empty());
    let b = seq!["text="@, "content="@, "message="@];
    assert(b.drop_first() =~= seq!["content="@, "message="@]);
    assert(b.drop_first().drop_first() =~= seq!["message="@]);
    assert(b.drop_first().drop_first().drop_first() =~= Seq::<Seq<char>>::empty());
    reveal_with_fuel(spec_first_value, 4);
}

} // verus!
