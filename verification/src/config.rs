//! The parts of the configuration that the routing logic reads.
use crate::keys::{key_id, spec_key_id};
use crate::sorting::{sort_unstable_by_id, sorted_by_id};
use vstd::multiset::Multiset;
use vstd::prelude::*;

verus! {

/// Prefix of the keys that name a message type, as in `msg_type_3`.
pub const MSG_TYPE_PREFIX: &'static str = "msg_type_";

/// Prefix of the keys that name a strategy, as in `strategy_1`.
pub const STRATEGY_PREFIX: &'static str = "strategy_";

/// The processors of the pipeline.
#[derive(Debug, Clone)]
pub struct Processors {
    pub count: u64,
    /// Processing time in nanoseconds per message-type key, one entry per key.
    pub processing_times_ns: Vec<(String, u64)>,
}

/// The strategies at the end of the pipeline.
#[derive(Debug, Clone)]
pub struct Strategies {
    pub count: u64,
    /// Processing time in nanoseconds per strategy key, one entry per key.
    pub processing_times_ns: Vec<(String, u64)>,
}

/// Which processors handle messages of one type.
#[derive(Debug, Clone)]
pub struct Stage1Rule {
    pub msg_type: u64,
    pub processors: Vec<u64>,
}

/// Which strategy receives messages of one type.
#[derive(Debug, Clone)]
pub struct Stage2Rule {
    pub msg_type: u64,
    pub strategy: u64,
    pub ordering_required: bool,
}

/// No key occurs twice among the entries, as in the map they stand for.
pub open spec fn keys_distinct(entries: Seq<(String, u64)>) -> bool {
    forall|i: int, j: int| 0 <= i < j < entries.len() ==> #[trigger] entries[i].0@ != #[trigger] entries[j].0@
}

impl Processors {
    /// The entries are those of a map: no key occurs twice.
    pub open spec fn wf(&self) -> bool {
        keys_distinct(self.processing_times_ns@)
    }
}

impl Strategies {
    /// The entries are those of a map: no key occurs twice.
    pub open spec fn wf(&self) -> bool {
        keys_distinct(self.processing_times_ns@)
    }
}

/// Pairs of the multiset that share an id are the same pair.
pub open spec fn ids_determine(m: Multiset<(u64, u64)>) -> bool {
    forall|x: (u64, u64), y: (u64, u64)|
        #[trigger] m.count(x) > 0 && #[trigger] m.count(y) > 0 && x.0 == y.0 ==> x == y
}

proof fn lemma_insert_removed<A>(m: Multiset<A>, v: A)
    requires
        m.count(v) > 0,
    ensures
        m.remove(v).insert(v) == m,
{
    broadcast use vstd::multiset::group_multiset_axioms;

    assert(m.remove(v).insert(v) =~= m);
}

/// Entries that are a reordering of each other give ids that are a
/// reordering of each other.
proof fn lemma_ids_keep_multiset(a: Seq<(String, u64)>, b: Seq<(String, u64)>, prefix: Seq<char>)
    requires
        a.to_multiset() == b.to_multiset(),
    ensures
        entries_by_id(a, prefix).to_multiset() == entries_by_id(b, prefix).to_multiset(),
    decreases a.len(),
{
    broadcast use vstd::multiset::group_multiset_axioms;

    vstd::seq_lib::to_multiset_len(a);
    vstd::seq_lib::to_multiset_len(b);
    if a.len() == 0 {
        assert(entries_by_id(a, prefix) =~= entries_by_id(b, prefix));
    } else {
        let x = a.last();
        let a1 = a.drop_last();
        vstd::seq_lib::to_multiset_contains(a, x);
        assert(a[a.len() - 1] == x);
        vstd::seq_lib::to_multiset_contains(b, x);
        let j = choose|j: int| 0 <= j < b.len() && b[j] == x;
        let b1 = b.remove(j);
        vstd::seq_lib::to_multiset_remove(b, j);
        assert(a =~= a1.push(x));
        vstd::seq_lib::to_multiset_build(a1, x);
        assert(a1.to_multiset() =~= a.to_multiset().remove(x));
        lemma_ids_keep_multiset(a1, b1, prefix);
        let ea = entries_by_id(a, prefix);
        let eb = entries_by_id(b, prefix);
        let fx = (spec_key_id(x.0@, prefix).unwrap(), x.1);
        assert(ea =~= entries_by_id(a1, prefix).push(fx));
        vstd::seq_lib::to_multiset_build(entries_by_id(a1, prefix), fx);
        assert(entries_by_id(b1, prefix) =~= eb.remove(j));
        assert(eb[j] == fx);
        vstd::seq_lib::to_multiset_remove(eb, j);
        vstd::seq_lib::to_multiset_contains(eb, fx);
        lemma_insert_removed(eb.to_multiset(), fx);
    }
}

/// Sorted sequences of the same pairs are equal where pairs that share an id
/// are the same pair.
proof fn lemma_sorted_pairs_equal(a: Seq<(u64, u64)>, b: Seq<(u64, u64)>)
    requires
        a.to_multiset() == b.to_multiset(),
        sorted_by_id(a),
        sorted_by_id(b),
        ids_determine(a.to_multiset()),
    ensures
        a == b,
    decreases a.len(),
{
    broadcast use vstd::multiset::group_multiset_axioms;

    vstd::seq_lib::to_multiset_len(a);
    vstd::seq_lib::to_multiset_len(b);
    if a.len() > 0 {
        let x = a[0];
        let y = b[0];
        vstd::seq_lib::to_multiset_contains(a, x);
        vstd::seq_lib::to_multiset_contains(b, x);
        vstd::seq_lib::to_multiset_contains(a, y);
        vstd::seq_lib::to_multiset_contains(b, y);
        let j = choose|j: int| 0 <= j < b.len() && b[j] == x;
        let i = choose|i: int| 0 <= i < a.len() && a[i] == y;
        assert(y.0 <= x.0);
        assert(x.0 <= y.0);
        assert(a.to_multiset().count(x) > 0 && a.to_multiset().count(y) > 0);
        assert(x == y);
        let a1 = a.drop_first();
        let b1 = b.drop_first();
        assert(a1 =~= a.remove(0));
        assert(b1 =~= b.remove(0));
        vstd::seq_lib::to_multiset_remove(a, 0);
        vstd::seq_lib::to_multiset_remove(b, 0);
        assert forall|u: (u64, u64), v: (u64, u64)|
            #[trigger] a1.to_multiset().count(u) > 0 && #[trigger] a1.to_multiset().count(v) > 0
                && u.0 == v.0 implies u == v by {
            assert(a.to_multiset().count(u) > 0 && a.to_multiset().count(v) > 0);
        }
        lemma_sorted_pairs_equal(a1, b1);
        assert forall|k: int| 0 <= k < a.len() implies a[k] == b[k] by {
            if k > 0 {
                assert(a[k] == a1[k - 1]);
                assert(b[k] == b1[k - 1]);
            }
        }
        assert(a =~= b);
    }
}

/// Law: parsing does not depend on the order of the entries. Sorted results
/// of the same entries in any two orders are equal, wherever entries whose
/// keys hold the same id carry the same time (as when the ids are distinct).
pub proof fn lemma_parse_ignores_entry_order(
    e1: Seq<(String, u64)>,
    e2: Seq<(String, u64)>,
    prefix: Seq<char>,
    r1: Seq<(u64, u64)>,
    r2: Seq<(u64, u64)>,
)
    requires
        e1.to_multiset() == e2.to_multiset(),
        ids_determine(entries_by_id(e1, prefix).to_multiset()),
        r1.to_multiset() == entries_by_id(e1, prefix).to_multiset(),
        sorted_by_id(r1),
        r2.to_multiset() == entries_by_id(e2, prefix).to_multiset(),
        sorted_by_id(r2),
    ensures
        r1 == r2,
{
    lemma_ids_keep_multiset(e1, e2, prefix);
    lemma_sorted_pairs_equal(r1, r2);
}

/// Every key of `entries` holds an id after `prefix`.
pub open spec fn keys_parse(entries: Seq<(String, u64)>, prefix: Seq<char>) -> bool {
    forall|i: int| 0 <= i < entries.len() ==> (#[trigger] spec_key_id(entries[i].0@, prefix)) is Some
}

/// Each entry with its key replaced by the id that the key holds after `prefix`.
pub open spec fn entries_by_id(entries: Seq<(String, u64)>, prefix: Seq<char>) -> Seq<(u64, u64)> {
    entries.map_values(|e: (String, u64)| (spec_key_id(e.0@, prefix).unwrap(), e.1))
}

/// The ids of the entries' keys, each with its value, in the entries' order.
fn ids_of(entries: &Vec<(String, u64)>, prefix: &str) -> (res: Vec<(u64, u64)>)
    requires
        keys_parse(entries@, prefix@),
    ensures
        res@ == entries_by_id(entries@, prefix@),
{
    let mut res: Vec<(u64, u64)> = Vec::new();
    let mut i: usize = 0;
    while i < entries.len()
        invariant
            i <= entries.len(),
            keys_parse(entries@, prefix@),
            res@ == entries_by_id(entries@, prefix@).take(i as int),
        decreases entries.len() - i,
    {
        let id = key_id(entries[i].0.as_str(), prefix);
        assert(spec_key_id(entries@[i as int].0@, prefix@) is Some);
        let id = match id {
            Some(id) => id,
            None => {
                return res;
            },
        };
        res.push((id, entries[i].1));
        assert(res@ =~= entries_by_id(entries@, prefix@).take(i as int + 1));
        i = i + 1;
    }
    assert(res@ =~= entries_by_id(entries@, prefix@));
    res
}

impl Processors {
    /// The processing time of each message type, in ascending order of type.
    pub fn parse(&self) -> (res: Vec<(u64, u64)>)
        requires
            self.wf(),
            keys_parse(self.processing_times_ns@, MSG_TYPE_PREFIX@),
        ensures
            res@.to_multiset() == entries_by_id(self.processing_times_ns@, MSG_TYPE_PREFIX@).to_multiset(),
            sorted_by_id(res@),
    {
        let ids = ids_of(&self.processing_times_ns, MSG_TYPE_PREFIX);
        sort_unstable_by_id(ids)
    }
}

/// The second components of an enumerated sequence.
pub open spec fn enumerated_items(s: Seq<(usize, (u64, u64))>) -> Seq<(u64, u64)> {
    s.map_values(|p: (usize, (u64, u64))| p.1)
}

impl Strategies {
    /// The processing time of each strategy in ascending order of strategy id,
    /// each paired with its position in that order.
    pub fn parse(&self) -> (res: Vec<(usize, (u64, u64))>)
        requires
            self.wf(),
            keys_parse(self.processing_times_ns@, STRATEGY_PREFIX@),
        ensures
            res@.len() == self.processing_times_ns@.len(),
            forall|i: int| 0 <= i < res@.len() ==> (#[trigger] res@[i]).0 == i,
            enumerated_items(res@).to_multiset() == entries_by_id(
                self.processing_times_ns@,
                STRATEGY_PREFIX@,
            ).to_multiset(),
            sorted_by_id(enumerated_items(res@)),
    {
        let ids = ids_of(&self.processing_times_ns, STRATEGY_PREFIX);
        let sorted = sort_unstable_by_id(ids);
        proof {
            vstd::seq_lib::to_multiset_len(sorted@);
            vstd::seq_lib::to_multiset_len(entries_by_id(self.processing_times_ns@, STRATEGY_PREFIX@));
            assert(self.processing_times_ns@.len() == entries_by_id(
                self.processing_times_ns@,
                STRATEGY_PREFIX@,
            ).to_multiset().len());
        }
        let mut res: Vec<(usize, (u64, u64))> = Vec::new();
        let mut i: usize = 0;
        while i < sorted.len()
            invariant
                i <= sorted.len(),
                res@.len() == i,
                forall|k: int| 0 <= k < i ==> (#[trigger] res@[k]) == (k as usize, sorted@[k]),
            decreases sorted.len() - i,
        {
            res.push((i, sorted[i]));
            i = i + 1;
        }
        assert(enumerated_items(res@) =~= sorted@);
        res
    }

    /// Whether the declared number of strategies equals the number of processing
    /// times given for them.
    pub fn count_matches(&self) -> (res: bool)
        ensures
            res == ((self.count as usize) as int == self.processing_times_ns@.len()),
    {
        self.count as usize == self.processing_times_ns.len()
    }
}

} // verus!
