//! Sorted lists of items with unique text keys: what `sort` followed by `dedup` on the key
//! produces when items with equal keys are interchangeable.

use vstd::prelude::*;
use crate::text::{lemma_lex_transitive, lemma_lex_trichotomy, lex_less, lex_lt, text_eq};

verus! {

/// An item ordered and identified by a text key.
pub trait Keyed {
    spec fn key_view(&self) -> Seq<char>;

    fn key(&self) -> (k: &str)
        ensures
            k@ == self.key_view(),
    ;
}

impl Keyed for String {
    open spec fn key_view(&self) -> Seq<char> {
        self@
    }

    fn key(&self) -> (k: &str) {
        self.as_str()
    }
}

/// Keys strictly ascending.
pub open spec fn keys_ascending<T: Keyed>(s: Seq<T>) -> bool {
    forall|i: int, j: int| 0 <= i < j < s.len() ==> lex_lt(s[i].key_view(), s[j].key_view())
}

/// Some item has key `k`.
pub open spec fn has_key<T: Keyed>(s: Seq<T>, k: Seq<char>) -> bool {
    exists|i: int| 0 <= i < s.len() && s[i].key_view() == k
}

/// Inserts `x` at its place in an ascending list, unless an item with its key is there.
pub fn insert_unique<T: Keyed>(v: &mut Vec<T>, x: T)
    requires
        keys_ascending(old(v)@),
    ensures
        keys_ascending(final(v)@),
        forall|k: Seq<char>| #[trigger]
            has_key(final(v)@, k) <==> (k == x.key_view() || has_key(old(v)@, k)),
        forall|i: int|
            0 <= i < final(v)@.len() ==> final(v)@[i] == x || old(v)@.contains(
                #[trigger] final(v)@[i],
            ),
{
    let ghost old_v = v@;
    let mut pos: usize = 0;
    while pos < v.len() && lex_less(v[pos].key(), x.key())
        invariant
            pos <= v.len(),
            old_v == v@,
            forall|k: int| 0 <= k < pos ==> lex_lt(old_v[k].key_view(), x.key_view()),
        decreases v.len() - pos,
    {
        pos = pos + 1;
    }
    if pos < v.len() && text_eq(v[pos].key(), x.key()) {
        assert(has_key(old_v, x.key_view())) by {
            assert(old_v[pos as int].key_view() == x.key_view());
        }
        assert forall|i: int| 0 <= i < v@.len() implies v@[i] == x || old_v.contains(#[trigger] v@[i]) by {
            assert(old_v[i] == v@[i]);
        }
        return;
    }
    proof {
        if pos < old_v.len() {
            lemma_lex_trichotomy(old_v[pos as int].key_view(), x.key_view());
            assert forall|k: int| pos <= k < old_v.len() implies lex_lt(x.key_view(), old_v[k].key_view()) by {
                if k > pos {
                    lemma_lex_transitive(x.key_view(), old_v[pos as int].key_view(), old_v[k].key_view());
                }
            }
        }
    }
    let ghost xv = x;
    v.insert(pos, x);
    proof {
        let p = v@;
        assert(p == old_v.insert(pos as int, xv));
        assert forall|i: int, j: int| 0 <= i < j < p.len() implies lex_lt(p[i].key_view(), p[j].key_view()) by {
            if j < pos {
            } else if j == pos {
            } else if i < pos {
                lemma_lex_transitive(p[i].key_view(), xv.key_view(), p[j].key_view());
            } else if i == pos {
            } else {
            }
        }
        assert forall|k: Seq<char>| has_key(p, k) implies (k == xv.key_view() || has_key(old_v, k)) by {
            let i = choose|i: int| 0 <= i < p.len() && p[i].key_view() == k;
            if i < pos {
                assert(old_v[i].key_view() == k);
            } else if i > pos {
                assert(old_v[i - 1].key_view() == k);
            }
        }
        assert forall|k: Seq<char>| (k == xv.key_view() || has_key(old_v, k)) implies has_key(p, k) by {
            if k == xv.key_view() {
                assert(p[pos as int].key_view() == k);
            } else {
                let i = choose|i: int| 0 <= i < old_v.len() && old_v[i].key_view() == k;
                if i < pos {
                    assert(p[i].key_view() == k);
                } else {
                    assert(p[i + 1].key_view() == k);
                }
            }
        }
        assert forall|i: int| 0 <= i < p.len() implies p[i] == xv || old_v.contains(#[trigger] p[i]) by {
            if i < pos {
                assert(old_v[i] == p[i]);
            } else if i > pos {
                assert(old_v[i - 1] == p[i]);
            }
        }
    }
}

} // verus!
