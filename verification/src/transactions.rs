//! Progress records of long-running operations (installations, update checks),
//! kept for the lifetime of a service and reported as JSON.

use vstd::prelude::*;
use crate::json::{escape_json, spec_escape};
use crate::text::{decimal, push_char, push_decimal, push_str, text_eq};

verus! {

/// The progress of one operation.
#[derive(Debug)]
pub struct Transaction {
    pub id: String,
    pub kind: String,
    pub state: String,
    pub percent: u32,
    pub message: String,
}

pub struct SpecTransaction {
    pub id: Seq<char>,
    pub kind: Seq<char>,
    pub state: Seq<char>,
    pub percent: u32,
    pub message: Seq<char>,
}

impl DeepView for Transaction {
    type V = SpecTransaction;

    open spec fn deep_view(&self) -> SpecTransaction {
        SpecTransaction {
            id: self.id@,
            kind: self.kind@,
            state: self.state@,
            percent: self.percent,
            message: self.message@,
        }
    }
}

/// The entry with identifier `id` among `entries`, if any.
pub open spec fn lookup(entries: Seq<SpecTransaction>, id: Seq<char>) -> Option<SpecTransaction>
    decreases entries.len(),
{
    if entries.len() == 0 {
        None
    } else if entries.last().id == id {
        Some(entries.last())
    } else {
        lookup(entries.drop_last(), id)
    }
}

/// The position of the entry with identifier `id`, if any.
pub open spec fn index_of_id(entries: Seq<SpecTransaction>, id: Seq<char>) -> Option<int>
    decreases entries.len(),
{
    if entries.len() == 0 {
        None
    } else if entries.last().id == id {
        Some(entries.len() - 1)
    } else {
        index_of_id(entries.drop_last(), id)
    }
}

/// The entries after recording `t`: it replaces the entry with its identifier, or is added
/// at the end.
pub open spec fn with_record(entries: Seq<SpecTransaction>, t: SpecTransaction) -> Seq<SpecTransaction> {
    match index_of_id(entries, t.id) {
        Some(i) => entries.update(i, t),
        None => entries.push(t),
    }
}

/// No identifier occurs twice.
pub open spec fn unique_ids(entries: Seq<SpecTransaction>) -> bool {
    forall|i: int, j: int| 0 <= i < j < entries.len() ==> entries[i].id != entries[j].id
}

/// The operations a service has started, by identifier.
///
/// The records are kept in a `Vec`, at most one per identifier (the type invariant), rather
/// than in a `HashMap` keyed by the identifier: vstd's contracts for `HashMap::insert` and
/// `get` hold only for key types satisfying `obeys_key_model`, which vstd establishes for
/// integers (and boxes of them) but not for `String`, so lookups by identifier in such a map
/// could not be proved; the table here proves them (`get`, `set`, `law_lookup_after_record`).
pub struct TransactionTable {
    entries: Vec<Transaction>,
}

impl TransactionTable {
    /// The records, in the order they were first made.
    pub closed spec fn records(&self) -> Seq<SpecTransaction> {
        self.entries.deep_view()
    }

    #[verifier::type_invariant]
    spec fn well_formed(&self) -> bool {
        unique_ids(self.entries.deep_view())
    }

    /// The record for `id`, if any.
    pub open spec fn spec_get(&self, id: Seq<char>) -> Option<SpecTransaction> {
        lookup(self.records(), id)
    }

    /// An empty table.
    pub fn new() -> (t: TransactionTable)
        ensures
            t.records() == Seq::<SpecTransaction>::empty(),
            forall|id: Seq<char>| t.spec_get(id) is None,
    {
        let t = TransactionTable { entries: Vec::new() };
        assert(t.entries.deep_view() =~= Seq::<SpecTransaction>::empty());
        t
    }

    /// The record for `id`, if any.
    pub fn get(&self, id: &str) -> (r: Option<&Transaction>)
        ensures
            match r {
                Some(t) => self.spec_get(id@) == Some(t.deep_view()),
                None => self.spec_get(id@) is None,
            },
    {
        let ghost es = self.entries.deep_view();
        let mut i = self.entries.len();
        assert(es.take(es.len() as int) =~= es);
        while i > 0
            invariant
                i <= self.entries.len(),
                es == self.entries.deep_view(),
                es.len() == self.entries.len(),
                lookup(es, id@) == lookup(es.take(i as int), id@),
            decreases i,
        {
            let t = &self.entries[i - 1];
            assert(es[i - 1] == t.deep_view());
            assert(es.take(i as int).drop_last() =~= es.take(i - 1));
            if text_eq(t.id.as_str(), id) {
                return Some(t);
            }
            i = i - 1;
        }
        None
    }

    /// Records the current progress of operation `id`, replacing what was recorded for it.
    pub fn set(&mut self, id: &str, kind: &str, state: &str, percent: u32, message: &str)
        ensures
            final(self).records() == with_record(
                old(self).records(),
                SpecTransaction { id: id@, kind: kind@, state: state@, percent, message: message@ },
            ),
    {
        proof {
            use_type_invariant(&*self);
        }
        let ghost es = self.entries.deep_view();
        let t = Transaction {
            id: id.to_owned(),
            kind: kind.to_owned(),
            state: state.to_owned(),
            percent,
            message: message.to_owned(),
        };
        let ghost nt = t.deep_view();
        let mut i = self.entries.len();
        assert(es.take(es.len() as int) =~= es);
        while i > 0 && !text_eq(self.entries[i - 1].id.as_str(), id)
            invariant
                i <= self.entries.len(),
                es == self.entries.deep_view(),
                es.len() == self.entries.len(),
                index_of_id(es, id@) == index_of_id(es.take(i as int), id@),
            decreases i,
        {
            assert(es[i - 1] == self.entries[i - 1].deep_view());
            assert(es.take(i as int).drop_last() =~= es.take(i - 1));
            i = i - 1;
        }
        proof {
            if i > 0 {
                assert(es[i - 1] == self.entries[i - 1].deep_view());
                assert(es.take(i as int).last() == es[i - 1]);
                assert(index_of_id(es, id@) == Some((i - 1) as int));
            } else {
                assert(index_of_id(es.take(0), id@) is None);
            }
        }
        proof {
            lemma_index_of_id(es.take(i as int), id@);
            lemma_index_of_id(es, id@);
        }
        let mut entries = Vec::new();
        std::mem::swap(&mut entries, &mut self.entries);
        if i > 0 {
            entries.set(i - 1, t);
            proof {
                assert(entries.deep_view() =~= es.update(i - 1, nt));
                lemma_record_unique(es, nt);
            }
        } else {
            entries.push(t);
            proof {
                assert(entries.deep_view() =~= es.push(nt));
                lemma_record_unique(es, nt);
            }
        }
        self.entries = entries;
    }
}

proof fn lemma_index_of_id(es: Seq<SpecTransaction>, id: Seq<char>)
    ensures
        index_of_id(es, id) matches Some(i) ==> 0 <= i < es.len() && es[i].id == id,
        index_of_id(es, id) is None ==> forall|j: int| 0 <= j < es.len() ==> es[j].id != id,
    decreases es.len(),
{
    if es.len() > 0 && es.last().id != id {
        lemma_index_of_id(es.drop_last(), id);
        assert forall|j: int| 0 <= j < es.len() - 1 implies es[j] == es.drop_last()[j] by {}
    }
}

/// Recording keeps identifiers unique.
proof fn lemma_record_unique(es: Seq<SpecTransaction>, t: SpecTransaction)
    requires
        unique_ids(es),
    ensures
        unique_ids(with_record(es, t)),
{
    lemma_index_of_id(es, t.id);
}

/// Reading back: after recording `t`, its identifier finds `t`, and every other identifier
/// finds what it found before.
pub proof fn law_lookup_after_record(es: Seq<SpecTransaction>, t: SpecTransaction, other: Seq<char>)
    requires
        unique_ids(es),
    ensures
        lookup(with_record(es, t), t.id) == Some(t),
        other != t.id ==> lookup(with_record(es, t), other) == lookup(es, other),
    decreases es.len(),
{
    lemma_index_of_id(es, t.id);
    match index_of_id(es, t.id) {
        Some(i) => {
            lemma_lookup_update(es, i, t);
        },
        None => {
            assert(es.push(t).drop_last() =~= es);
        },
    }
}

/// Replacing the entry at `i` by one with the same identifier changes only what that
/// identifier finds.
proof fn lemma_lookup_update(es: Seq<SpecTransaction>, i: int, t: SpecTransaction)
    requires
        0 <= i < es.len(),
        es[i].id == t.id,
        unique_ids(es),
    ensures
        lookup(es.update(i, t), t.id) == Some(t),
        forall|other: Seq<char>| other != t.id ==> lookup(es.update(i, t), other) == lookup(es, other),
        unique_ids(es.update(i, t)),
    decreases es.len(),
{
    let ns = es.update(i, t);
    if i == es.len() - 1 {
        assert(ns.drop_last() =~= es.drop_last());
        assert forall|other: Seq<char>| other != t.id implies lookup(ns, other) == lookup(es, other) by {
            assert(ns.last() == t);
        }
    } else {
        assert(ns.drop_last() =~= es.drop_last().update(i, t));
        assert(unique_ids(es.drop_last()));
        lemma_lookup_update(es.drop_last(), i, t);
        assert(es.last().id != t.id);
        assert(ns.last() == es.last());
        assert forall|other: Seq<char>| other != t.id implies lookup(ns, other) == lookup(es, other) by {
            if es.last().id != other {
                assert(lookup(es.drop_last().update(i, t), other) == lookup(es.drop_last(), other));
            }
        }
    }
}

/// The JSON object describing a transaction.
pub open spec fn spec_transaction_json(t: SpecTransaction) -> Seq<char> {
    "{\"id\":\""@ + spec_escape(t.id) + "\",\"kind\":\""@ + spec_escape(t.kind)
        + "\",\"state\":\""@ + spec_escape(t.state) + "\",\"percent\":"@ + decimal(t.percent as nat)
        + ",\"message\":\""@ + spec_escape(t.message) + "\"}"@
}

/// A transaction as JSON.
pub fn transaction_json(transaction: &Transaction) -> (json: String)
    ensures
        json@ == spec_transaction_json(transaction.deep_view()),
{
    let mut json = String::new();
    push_str(&mut json, "{\"id\":\"");
    let a = escape_json(transaction.id.as_str());
    push_str(&mut json, a.as_str());
    push_str(&mut json, "\",\"kind\":\"");
    let b = escape_json(transaction.kind.as_str());
    push_str(&mut json, b.as_str());
    push_str(&mut json, "\",\"state\":\"");
    let c = escape_json(transaction.state.as_str());
    push_str(&mut json, c.as_str());
    push_str(&mut json, "\",\"percent\":");
    push_decimal(&mut json, transaction.percent as u64);
    push_str(&mut json, ",\"message\":\"");
    let d = escape_json(transaction.message.as_str());
    push_str(&mut json, d.as_str());
    push_str(&mut json, "\"}");
    json
}

/// The answer for an identifier no transaction has.
pub open spec fn spec_missing_transaction_json(id: Seq<char>) -> Seq<char> {
    "{\"id\":\""@ + spec_escape(id)
        + "\",\"kind\":\"unknown\",\"state\":\"missing\",\"percent\":0,\"message\":\"Transaction not found\"}"@
}

/// The JSON answer for an unknown transaction.
pub fn missing_transaction_json(transaction_id: &str) -> (json: String)
    ensures
        json@ == spec_missing_transaction_json(transaction_id@),
{
    let mut json = String::new();
    push_str(&mut json, "{\"id\":\"");
    let a = escape_json(transaction_id);
    push_str(&mut json, a.as_str());
    push_str(
        &mut json,
        "\",\"kind\":\"unknown\",\"state\":\"missing\",\"percent\":0,\"message\":\"Transaction not found\"}",
    );
    json
}

/// The answer to `GetTransaction`.
pub open spec fn spec_transaction_reply(table: TransactionTable, id: Seq<char>) -> Seq<char> {
    match table.spec_get(id) {
        Some(t) => spec_transaction_json(t),
        None => spec_missing_transaction_json(id),
    }
}

/// The JSON answer to a transaction query.
pub fn transaction_reply(table: &TransactionTable, transaction_id: &str) -> (json: String)
    ensures
        json@ == spec_transaction_reply(*table, transaction_id@),
{
    match table.get(transaction_id) {
        Some(t) => transaction_json(t),
        None => missing_transaction_json(transaction_id),
    }
}

/// `prefix-millis`, the identifier of an operation started at that time.
pub open spec fn spec_transaction_id(prefix: Seq<char>, millis: u64) -> Seq<char> {
    prefix + seq!['-'] + decimal(millis as nat)
}

/// The identifier of an operation started at `millis` milliseconds after the epoch.
pub fn transaction_id(prefix: &str, millis: u64) -> (id: String)
    ensures
        id@ == spec_transaction_id(prefix@, millis),
{
    let mut id = String::new();
    push_str(&mut id, prefix);
    push_char(&mut id, '-');
    push_decimal(&mut id, millis);
    id
}

} // verus!
