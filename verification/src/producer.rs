//! What a producer decides: the pattern of message types it cycles through, the
//! pace of its messages, and the message it emits next.
use crate::types::Message;
use rand::seq::SliceRandom;
use vstd::prelude::*;

verus! {

/// Length of the distribution pattern.
pub const PATTERN_SIZE: usize = 100;

/// The types of the items that still have a copy left in round `r`, in item order.
pub open spec fn round_of(items: Seq<(u64, usize)>, r: nat) -> Seq<u64>
    decreases items.len(),
{
    if items.len() == 0 {
        Seq::empty()
    } else {
        round_of(items.drop_last(), r) + if items.last().1 > r {
            seq![items.last().0]
        } else {
            Seq::<u64>::empty()
        }
    }
}

/// Rounds `0..n` one after another.
pub open spec fn rounds(items: Seq<(u64, usize)>, n: nat) -> Seq<u64>
    decreases n,
{
    if n == 0 {
        Seq::empty()
    } else {
        rounds(items, (n - 1) as nat) + round_of(items, (n - 1) as nat)
    }
}

/// The largest count of the items.
pub open spec fn max_count(items: Seq<(u64, usize)>) -> nat
    decreases items.len(),
{
    if items.len() == 0 {
        0
    } else {
        let m = max_count(items.drop_last());
        if items.last().1 > m {
            items.last().1 as nat
        } else {
            m
        }
    }
}

/// Each item's type repeated as many times as its count, the copies dealt out
/// round by round: first one copy of every item, then a second copy of every
/// item that has one, and so on.
pub open spec fn interleaved(items: Seq<(u64, usize)>) -> Seq<u64> {
    rounds(items, max_count(items))
}

/// The interleaved types, cut to the pattern's length.
pub open spec fn pattern_of(items: Seq<(u64, usize)>) -> Seq<u64> {
    let all = interleaved(items);
    if all.len() <= PATTERN_SIZE {
        all
    } else {
        all.take(PATTERN_SIZE as int)
    }
}

/// The sum of the counts of the items of type `t`.
pub open spec fn share(items: Seq<(u64, usize)>, t: u64) -> nat
    decreases items.len(),
{
    if items.len() == 0 {
        0
    } else {
        share(items.drop_last(), t) + if items.last().0 == t {
            items.last().1 as nat
        } else {
            0nat
        }
    }
}

/// The sum over the items of type `t` of their counts, each capped at `n`.
pub open spec fn capped_share(items: Seq<(u64, usize)>, t: u64, n: nat) -> nat
    decreases items.len(),
{
    if items.len() == 0 {
        0
    } else {
        capped_share(items.drop_last(), t, n) + if items.last().0 == t {
            if (items.last().1 as nat) < n {
                items.last().1 as nat
            } else {
                n
            }
        } else {
            0nat
        }
    }
}

/// The number of items of type `t` whose count exceeds `r`.
pub open spec fn alive_count(items: Seq<(u64, usize)>, t: u64, r: nat) -> nat
    decreases items.len(),
{
    if items.len() == 0 {
        0
    } else {
        alive_count(items.drop_last(), t, r) + if items.last().0 == t && items.last().1 > r {
            1nat
        } else {
            0nat
        }
    }
}

proof fn lemma_round_occurrences(items: Seq<(u64, usize)>, t: u64, r: nat)
    ensures
        round_of(items, r).to_multiset().count(t) == alive_count(items, t, r),
    decreases items.len(),
{
    broadcast use vstd::multiset::group_multiset_axioms;

    if items.len() == 0 {
        vstd::seq_lib::to_multiset_contains(round_of(items, r), t);
    } else {
        let init = items.drop_last();
        lemma_round_occurrences(init, t, r);
        let tail = if items.last().1 > r {
            seq![items.last().0]
        } else {
            Seq::<u64>::empty()
        };
        vstd::seq_lib::lemma_multiset_commutative(round_of(init, r), tail);
        if items.last().1 > r {
            assert(tail =~= Seq::<u64>::empty().push(items.last().0));
            vstd::seq_lib::to_multiset_build(Seq::<u64>::empty(), items.last().0);
            vstd::seq_lib::to_multiset_contains(Seq::<u64>::empty(), t);
        } else {
            vstd::seq_lib::to_multiset_contains(tail, t);
        }
    }
}

proof fn lemma_capped_share_step(items: Seq<(u64, usize)>, t: u64, n: nat)
    ensures
        capped_share(items, t, n + 1) == capped_share(items, t, n) + alive_count(items, t, n),
    decreases items.len(),
{
    if items.len() > 0 {
        lemma_capped_share_step(items.drop_last(), t, n);
    }
}

proof fn lemma_rounds_occurrences(items: Seq<(u64, usize)>, t: u64, n: nat)
    ensures
        rounds(items, n).to_multiset().count(t) == capped_share(items, t, n),
    decreases n,
{
    broadcast use vstd::multiset::group_multiset_axioms;

    if n == 0 {
        vstd::seq_lib::to_multiset_contains(rounds(items, n), t);
        lemma_capped_share_zero(items, t);
    } else {
        let m = (n - 1) as nat;
        lemma_rounds_occurrences(items, t, m);
        lemma_round_occurrences(items, t, m);
        lemma_capped_share_step(items, t, m);
        vstd::seq_lib::lemma_multiset_commutative(rounds(items, m), round_of(items, m));
    }
}

proof fn lemma_capped_share_zero(items: Seq<(u64, usize)>, t: u64)
    ensures
        capped_share(items, t, 0) == 0,
    decreases items.len(),
{
    if items.len() > 0 {
        lemma_capped_share_zero(items.drop_last(), t);
    }
}

proof fn lemma_capped_share_full(items: Seq<(u64, usize)>, t: u64, n: nat)
    requires
        forall|i: int| 0 <= i < items.len() ==> (#[trigger] items[i]).1 <= n,
    ensures
        capped_share(items, t, n) == share(items, t),
    decreases items.len(),
{
    if items.len() > 0 {
        let init = items.drop_last();
        assert forall|i: int| 0 <= i < init.len() implies (#[trigger] init[i]).1 <= n by {
            assert(init[i] == items[i]);
        }
        lemma_capped_share_full(init, t, n);
        assert(items[items.len() - 1].1 <= n);
    }
}

/// Law: the interleaved sequence holds each type exactly as often as the
/// counts of the items of that type add up to.
pub proof fn lemma_interleaved_occurrences(items: Seq<(u64, usize)>, t: u64)
    ensures
        interleaved(items).to_multiset().count(t) == share(items, t),
{
    lemma_rounds_occurrences(items, t, max_count(items));
    lemma_max_count_bounds(items, 0);
    lemma_capped_share_full(items, t, max_count(items));
}

/// The sum of all the counts.
pub open spec fn total_count(items: Seq<(u64, usize)>) -> nat
    decreases items.len(),
{
    if items.len() == 0 {
        0
    } else {
        total_count(items.drop_last()) + items.last().1 as nat
    }
}

/// The sum of all the counts, each capped at `n`.
spec fn capped_total(items: Seq<(u64, usize)>, n: nat) -> nat
    decreases items.len(),
{
    if items.len() == 0 {
        0
    } else {
        capped_total(items.drop_last(), n) + if (items.last().1 as nat) < n {
            items.last().1 as nat
        } else {
            n
        }
    }
}

/// The number of items whose count exceeds `r`.
spec fn alive_total(items: Seq<(u64, usize)>, r: nat) -> nat
    decreases items.len(),
{
    if items.len() == 0 {
        0
    } else {
        alive_total(items.drop_last(), r) + if items.last().1 > r {
            1nat
        } else {
            0nat
        }
    }
}

proof fn lemma_round_len(items: Seq<(u64, usize)>, r: nat)
    ensures
        round_of(items, r).len() == alive_total(items, r),
    decreases items.len(),
{
    if items.len() > 0 {
        lemma_round_len(items.drop_last(), r);
    }
}

proof fn lemma_capped_total_step(items: Seq<(u64, usize)>, n: nat)
    ensures
        capped_total(items, n + 1) == capped_total(items, n) + alive_total(items, n),
        capped_total(items, 0) == 0,
    decreases items.len(),
{
    if items.len() > 0 {
        lemma_capped_total_step(items.drop_last(), n);
    }
}

proof fn lemma_rounds_len(items: Seq<(u64, usize)>, n: nat)
    ensures
        rounds(items, n).len() == capped_total(items, n),
    decreases n,
{
    lemma_capped_total_step(items, 0);
    if n > 0 {
        let m = (n - 1) as nat;
        lemma_rounds_len(items, m);
        lemma_round_len(items, m);
        lemma_capped_total_step(items, m);
    }
}

proof fn lemma_capped_total_full(items: Seq<(u64, usize)>, n: nat)
    requires
        forall|i: int| 0 <= i < items.len() ==> (#[trigger] items[i]).1 <= n,
    ensures
        capped_total(items, n) == total_count(items),
    decreases items.len(),
{
    if items.len() > 0 {
        let init = items.drop_last();
        assert forall|i: int| 0 <= i < init.len() implies (#[trigger] init[i]).1 <= n by {
            assert(init[i] == items[i]);
        }
        lemma_capped_total_full(init, n);
        assert(items[items.len() - 1].1 <= n);
    }
}

/// Law: the interleaved sequence is as long as the counts add up to, so the
/// pattern has `PATTERN_SIZE` types whenever the counts add up to at least that.
pub proof fn lemma_interleaved_len(items: Seq<(u64, usize)>)
    ensures
        interleaved(items).len() == total_count(items),
        pattern_of(items).len() == if total_count(items) <= PATTERN_SIZE {
            total_count(items)
        } else {
            PATTERN_SIZE as nat
        },
{
    lemma_rounds_len(items, max_count(items));
    lemma_max_count_bounds(items, 0);
    lemma_capped_total_full(items, max_count(items));
}

proof fn lemma_max_count_bounds(items: Seq<(u64, usize)>, r: nat)
    ensures
        (forall|i: int| 0 <= i < items.len() ==> (#[trigger] items[i]).1 <= max_count(items)),
        r < max_count(items) ==> exists|i: int| 0 <= i < items.len() && (#[trigger] items[i]).1 > r,
    decreases items.len(),
{
    if items.len() > 0 {
        let init = items.drop_last();
        lemma_max_count_bounds(init, r);
        assert forall|i: int| 0 <= i < items.len() implies (#[trigger] items[i]).1 <= max_count(items) by {
            if i < init.len() {
                assert(items[i] == init[i]);
            }
        }
        if r < max_count(items) {
            if items.last().1 > max_count(init) {
                assert(items[items.len() - 1].1 > r);
            } else {
                let i = choose|i: int| 0 <= i < init.len() && (#[trigger] init[i]).1 > r;
                assert(items[i] == init[i]);
            }
        }
    }
}

proof fn lemma_round_of_empty(items: Seq<(u64, usize)>, r: nat)
    requires
        forall|i: int| 0 <= i < items.len() ==> (#[trigger] items[i]).1 <= r,
    ensures
        round_of(items, r) == Seq::<u64>::empty(),
    decreases items.len(),
{
    if items.len() > 0 {
        let init = items.drop_last();
        assert forall|i: int| 0 <= i < init.len() implies (#[trigger] init[i]).1 <= r by {
            assert(init[i] == items[i]);
        }
        lemma_round_of_empty(init, r);
        assert(items[items.len() - 1].1 <= r);
        assert(round_of(items, r) =~= Seq::<u64>::empty());
    }
}

/// Deals out the items' types round by round until a round adds nothing, and
/// keeps the first `PATTERN_SIZE` of them.
fn interleave_pattern(items: &Vec<(u64, usize)>) -> (pattern: Vec<u64>)
    ensures
        pattern@ == pattern_of(items@),
{
    let mut pattern: Vec<u64> = Vec::new();
    let mut round: usize = 0;
    proof {
        lemma_max_count_bounds(items@, 0);
    }
    loop
        invariant
            pattern@ == rounds(items@, round as nat),
            round <= max_count(items@),
            forall|i: int| 0 <= i < items@.len() ==> (#[trigger] items@[i]).1 <= max_count(items@),
        ensures
            pattern@ == interleaved(items@),
        decreases max_count(items@) - round,
    {
        let mut added = false;
        let mut i: usize = 0;
        while i < items.len()
            invariant
                i <= items.len(),
                pattern@ == rounds(items@, round as nat) + round_of(items@.take(i as int), round as nat),
                added <==> exists|k: int| 0 <= k < i && (#[trigger] items@[k]).1 > round,
            decreases items.len() - i,
        {
            assert(items@.take(i as int + 1).drop_last() =~= items@.take(i as int));
            if items[i].1 > round {
                pattern.push(items[i].0);
                added = true;
            }
            assert(pattern@ =~= rounds(items@, round as nat) + round_of(items@.take(i as int + 1), round as nat));
            i = i + 1;
        }
        assert(items@.take(items@.len() as int) =~= items@);
        if !added {
            proof {
                lemma_max_count_bounds(items@, round as nat);
                assert forall|k: int| 0 <= k < items@.len() implies (#[trigger] items@[k]).1 <= round by {
                    if items@[k].1 > round {
                        assert(exists|k: int| 0 <= k < items@.len() && (#[trigger] items@[k]).1 > round);
                    }
                }
                lemma_round_of_empty(items@, round as nat);
                assert(pattern@ =~= rounds(items@, round as nat));
                assert(round == max_count(items@));
            }
            break;
        }
        proof {
            let k = choose|k: int| 0 <= k < items@.len() && (#[trigger] items@[k]).1 > round;
            assert(items@[k].1 <= max_count(items@));
        }
        assert(pattern@ =~= rounds(items@, (round + 1) as nat));
        round = round + 1;
    }
    pattern.truncate(PATTERN_SIZE);
    pattern
}

/// Calls `SliceRandom::shuffle` with the thread's random generator: the same
/// types in an order drawn at random, so only the multiset of types is claimed.
#[verifier::external_body]
fn shuffle_types(pattern: &mut Vec<u64>)
    ensures
        final(pattern)@.to_multiset() == old(pattern)@.to_multiset(),
{
    pattern.shuffle(&mut rand::rng());
}

/// The cycle of message types a producer draws from: each item's type as
/// many times as its count, dealt out round by round, cut to `PATTERN_SIZE`
/// and shuffled.
pub fn create_distribution_pattern(items: &Vec<(u64, usize)>) -> (pattern: Vec<u64>)
    ensures
        pattern@.to_multiset() == pattern_of(items@).to_multiset(),
        pattern@.len() == if total_count(items@) <= PATTERN_SIZE {
            total_count(items@)
        } else {
            PATTERN_SIZE as nat
        },
        total_count(items@) <= PATTERN_SIZE ==> forall|t: u64|
            #[trigger] pattern@.to_multiset().count(t) == share(items@, t),
{
    let mut pattern = interleave_pattern(items);
    let ghost before = pattern@;
    shuffle_types(&mut pattern);
    proof {
        vstd::seq_lib::to_multiset_len(before);
        vstd::seq_lib::to_multiset_len(pattern@);
        lemma_interleaved_len(items@);
        if total_count(items@) <= PATTERN_SIZE {
            assert forall|t: u64| #[trigger] pattern@.to_multiset().count(t) == share(items@, t) by {
                lemma_pattern_follows_distribution(items@, pattern@, t);
            }
        }
    }
    pattern
}

/// Law: when the counts add up to at most `PATTERN_SIZE`, the pattern holds
/// each type exactly as often as the counts of that type add up to.
pub proof fn lemma_pattern_follows_distribution(items: Seq<(u64, usize)>, pattern: Seq<u64>, t: u64)
    requires
        pattern.to_multiset() == pattern_of(items).to_multiset(),
        interleaved(items).len() <= PATTERN_SIZE,
    ensures
        pattern.to_multiset().count(t) == share(items, t),
{
    lemma_interleaved_occurrences(items, t);
}

/// Nanoseconds in a millisecond.
pub const MILLI_NS: u64 = 1_000_000;

/// A pace of (length in milliseconds, messages per millisecond, nanoseconds
/// from one message to the next) whose messages all fall within their millisecond.
pub open spec fn fits_millisecond(pace: (u64, u64, u64)) -> bool {
    pace.1 * pace.2 <= MILLI_NS
}

/// The pace without bursts, as (length of the run in milliseconds, messages in
/// every millisecond, milliseconds of each second that carry one message more):
/// `messages_per_sec` spread over the thousand milliseconds of each second.
/// A rate of zero is no pace: the spacing of its messages is undefined.
pub fn steady_pace(duration_secs: u64, messages_per_sec: u64) -> (pace: (u64, u64, u64))
    requires
        duration_secs * 1000 <= u64::MAX,
        messages_per_sec > 0,
    ensures
        pace == ((duration_secs * 1000) as u64, messages_per_sec / 1000, messages_per_sec % 1000),
{
    (duration_secs * 1000, messages_per_sec / 1000, messages_per_sec % 1000)
}

/// The messages of millisecond `ms` of a steady pace.
pub open spec fn steady_in_ms(pace: (u64, u64, u64), ms: int) -> nat {
    pace.1 as nat + if ms % 1000 < pace.2 {
        1nat
    } else {
        0nat
    }
}

/// The messages of the first `n` milliseconds of a steady pace.
pub open spec fn steady_sent(pace: (u64, u64, u64), n: nat) -> nat
    decreases n,
{
    if n == 0 {
        0
    } else {
        steady_sent(pace, (n - 1) as nat) + steady_in_ms(pace, n - 1)
    }
}

/// How many messages millisecond `ms` of a steady pace carries.
pub fn messages_in_ms(pace: (u64, u64, u64), ms: u64) -> (n: u64)
    requires
        pace.1 < u64::MAX,
    ensures
        n == steady_in_ms(pace, ms as int),
{
    if ms % 1000 < pace.2 {
        pace.1 + 1
    } else {
        pace.1
    }
}

proof fn lemma_steady_within_second(pace: (u64, u64, u64), s: nat, j: nat)
    requires
        pace.2 < 1000,
        j <= 1000,
    ensures
        steady_sent(pace, 1000 * s + j) == steady_sent(pace, 1000 * s) + j * pace.1 + if j < pace.2 {
            j
        } else {
            pace.2 as nat
        },
    decreases j,
{
    if j > 0 {
        let k = (j - 1) as nat;
        lemma_steady_within_second(pace, s, k);
        vstd::arithmetic::div_mod::lemma_fundamental_div_mod_converse(
            (1000 * s + k) as int,
            1000,
            s as int,
            k as int,
        );
        assert((1000 * s + k) as int % 1000 == k as int);
        let n: nat = 1000 * s + j;
        assert((n - 1) as nat == 1000 * s + k);
        assert(steady_sent(pace, n) == steady_sent(pace, (n - 1) as nat) + steady_in_ms(pace, n - 1));
        assert(steady_in_ms(pace, n - 1) == pace.1 + if k < pace.2 {
            1nat
        } else {
            0nat
        });
        assert(j * pace.1 == k * pace.1 + pace.1) by (nonlinear_arith)
            requires
                j == k + 1,
        ;
        assert(steady_sent(pace, (n - 1) as nat) == steady_sent(pace, 1000 * s) + k * pace.1 + if k
            < pace.2 {
            k
        } else {
            pace.2 as nat
        });
    } else {
        assert(1000 * s + j == 1000 * s);
        assert(j * pace.1 == 0) by (nonlinear_arith)
            requires
                j == 0,
        ;
    }
}

proof fn lemma_steady_seconds(pace: (u64, u64, u64), s: nat)
    requires
        pace.2 < 1000,
    ensures
        steady_sent(pace, 1000 * s) == s * (1000 * pace.1 + pace.2),
    decreases s,
{
    if s > 0 {
        let r = (s - 1) as nat;
        lemma_steady_seconds(pace, r);
        lemma_steady_within_second(pace, r, 1000);
        assert(1000 * r + 1000 == 1000 * s);
        assert(steady_sent(pace, 1000 * s) == steady_sent(pace, 1000 * r) + 1000 * pace.1 + pace.2);
        assert(s * (1000 * pace.1 + pace.2) == r * (1000 * pace.1 + pace.2) + (1000 * pace.1 + pace.2))
            by (nonlinear_arith)
            requires
                s == r + 1,
        ;
    } else {
        assert(s * (1000 * pace.1 + pace.2) == 0) by (nonlinear_arith)
            requires
                s == 0,
        ;
    }
}

/// Law: a steady run of `duration_secs` seconds at `messages_per_sec` sends
/// exactly `duration_secs * messages_per_sec` messages, `messages_per_sec` in
/// every second.
pub proof fn lemma_steady_pace_total(duration_secs: u64, messages_per_sec: u64)
    requires
        duration_secs * 1000 <= u64::MAX,
    ensures
        ({
            let pace = ((duration_secs * 1000) as u64, messages_per_sec / 1000, messages_per_sec % 1000);
            steady_sent(pace, pace.0 as nat) == duration_secs * messages_per_sec
        }),
{
    let pace = ((duration_secs * 1000) as u64, messages_per_sec / 1000, messages_per_sec % 1000);
    lemma_steady_seconds(pace, duration_secs as nat);
    vstd::arithmetic::div_mod::lemma_fundamental_div_mod(messages_per_sec as int, 1000);
    assert(1000 * pace.1 + pace.2 == messages_per_sec);
}

/// The spacing of `n` messages over a millisecond.
pub fn ms_spacing(n: u64) -> (nano_per_msg: u64)
    requires
        n > 0,
    ensures
        nano_per_msg == MILLI_NS / n,
        n * nano_per_msg <= MILLI_NS,
{
    let nano_per_msg = MILLI_NS / n;
    assert(n * nano_per_msg <= MILLI_NS) by (nonlinear_arith)
        requires
            n > 0,
            nano_per_msg == 1_000_000u64 / n,
    ;
    nano_per_msg
}

/// The pace of one burst phase of `duration_ms` at `msg_per_ms` messages per
/// millisecond.
pub fn burst_pace(duration_ms: u64, msg_per_ms: u64) -> (pace: (u64, u64, u64))
    requires
        msg_per_ms > 0,
    ensures
        pace == (duration_ms, msg_per_ms, MILLI_NS / msg_per_ms),
        fits_millisecond(pace),
{
    (duration_ms, msg_per_ms, ms_spacing(msg_per_ms))
}

/// How far into its millisecond message number `slot` is due, at
/// `nano_per_msg` nanoseconds from one message to the next.
pub fn message_deadline(nano_per_msg: u64, slot: u64) -> (deadline: u64)
    requires
        slot < u64::MAX,
        (slot + 1) * nano_per_msg <= u64::MAX,
    ensures
        deadline == (slot + 1) * nano_per_msg,
{
    (slot + 1) * nano_per_msg
}

/// Law: with `n` messages spaced evenly over a millisecond, every one of them
/// is due within that millisecond.
pub proof fn lemma_deadlines_within_ms(n: u64, slot: u64)
    requires
        slot < n,
    ensures
        (slot + 1) * (MILLI_NS / n) <= MILLI_NS,
{
    let nano = MILLI_NS / n;
    assert(n * nano <= 1_000_000) by (nonlinear_arith)
        requires
            n > 0,
            nano == 1_000_000u64 / n,
    ;
    assert((slot + 1) * nano <= n * nano) by (nonlinear_arith)
        requires
            slot + 1 <= n,
            nano >= 0,
    ;
}

/// The burst phases, run one after another over and over for as long as the
/// next one fits in the time that remains.
pub struct BurstSchedule {
    pub phases: Vec<(u64, u64, u64)>,
    /// The phase to run next.
    pub next: usize,
    /// Milliseconds of the whole run.
    pub duration_ms: u64,
    /// Milliseconds of the run not yet given to a phase.
    pub remaining_ms: u64,
}

impl BurstSchedule {
    /// `next` names a phase, and the phases handed out so far fit in the run:
    /// they took `duration_ms - remaining_ms` milliseconds.
    pub open spec fn wf(&self) -> bool {
        &&& self.next < self.phases@.len()
        &&& self.remaining_ms <= self.duration_ms
    }

    /// A schedule that starts with the first phase and has the whole run ahead.
    /// It needs at least one phase: with none, no phase would ever end the run.
    pub fn new(duration_secs: u64, phases: Vec<(u64, u64, u64)>) -> (res: Self)
        requires
            duration_secs * 1000 <= u64::MAX,
            phases@.len() > 0,
        ensures
            res.wf(),
            res.phases@ == phases@,
            res.next == 0,
            res.duration_ms == duration_secs * 1000,
            res.remaining_ms == duration_secs * 1000,
    {
        BurstSchedule {
            phases,
            next: 0,
            duration_ms: duration_secs * 1000,
            remaining_ms: duration_secs * 1000,
        }
    }

    /// The phase to run next, when it fits in the time that remains; it is
    /// then accounted for, and the schedule moves on to the following phase.
    /// `None` once the next phase no longer fits: the run is over.
    pub fn next_phase(&mut self) -> (phase: Option<(u64, u64, u64)>)
        requires
            old(self).wf(),
        ensures
            final(self).wf(),
            final(self).phases@ == old(self).phases@,
            final(self).duration_ms == old(self).duration_ms,
            ({
                let fits = old(self).phases@[old(self).next as int].0 <= old(self).remaining_ms;
                &&& fits ==> phase == Some(old(self).phases@[old(self).next as int])
                    && final(self).remaining_ms == old(self).remaining_ms - old(self).phases@[old(
                    self,
                ).next as int].0 && final(self).next == (old(self).next + 1) % (
                old(self).phases@.len() as int)
                &&& !fits ==> phase is None && final(self).remaining_ms == old(self).remaining_ms
                    && final(self).next == old(self).next
            }),
    {
        let phase = self.phases[self.next];
        if phase.0 > self.remaining_ms {
            return None;
        }
        self.remaining_ms = self.remaining_ms - phase.0;
        let last = self.phases.len() - 1;
        self.next = if self.next == last {
            0
        } else {
            self.next + 1
        };
        proof {
            let n = old(self).phases@.len() as int;
            let k = old(self).next as int;
            if k + 1 < n {
                vstd::arithmetic::div_mod::lemma_small_mod((k + 1) as nat, n as nat);
            } else {
                vstd::arithmetic::div_mod::lemma_mod_self_0(n);
            }
        }
        Some(phase)
    }
}

/// The `k`-th message (counting from 0) that producer `id` emits when it draws
/// types from `pattern`: its sequence number is `k + 1`.
pub open spec fn nth_message(id: u64, pattern: Seq<u64>, k: nat, timestamp: u64) -> Message {
    Message { ty: pattern[(k % pattern.len()) as int], producer_id: id, seq: (k + 1) as u64, timestamp }
}

/// The messages a producer emits and what became of them.
pub struct ProducerState {
    /// The message last emitted; its sequence number counts the messages so far.
    pub msg: Message,
    pub pattern: Vec<u64>,
    /// Position in the pattern of the next message's type.
    pub cursor: usize,
    /// Messages the first stage did not take, per message type.
    pub err_arr: [u64; 8],
    pub total_msg: usize,
    pub total_zero_msgs: u64,
    /// Every message emitted so far, in order.
    pub emitted: Ghost<Seq<Message>>,
}

/// `sent` is what producer `id` emits drawing types from `pattern`: message
/// number `k` (from 0) has sequence number `k + 1` and type `pattern[k mod len]`.
pub open spec fn emitted_by(id: u64, pattern: Seq<u64>, sent: Seq<Message>) -> bool {
    forall|k: int| 0 <= k < sent.len() ==> #[trigger] sent[k] == nth_message(id, pattern, k as nat, sent[k].timestamp)
}

/// Law: the messages a producer emits carry its id and the sequence numbers
/// 1, 2, 3, ... in order, and their types repeat with the pattern's length.
pub proof fn lemma_emitted_messages(id: u64, pattern: Seq<u64>, sent: Seq<Message>)
    requires
        pattern.len() > 0,
        sent.len() <= u64::MAX,
        emitted_by(id, pattern, sent),
    ensures
        forall|k: int| 0 <= k < sent.len() ==> (#[trigger] sent[k]).seq == k + 1 && sent[k].producer_id == id,
        forall|k: int|
            0 <= k && k + pattern.len() < sent.len() ==> (#[trigger] sent[k]).ty == sent[k
                + pattern.len()].ty,
{
    assert forall|k: int|
        0 <= k && k + pattern.len() < sent.len() implies (#[trigger] sent[k]).ty == sent[k
            + pattern.len()].ty by {
        let n = pattern.len() as int;
        assert(sent[k + n] == nth_message(id, pattern, (k + n) as nat, sent[k + n].timestamp));
        vstd::arithmetic::div_mod::lemma_mod_add_multiples_vanish(k, n);
    }
}

/// The types of a run of messages, in order.
pub open spec fn types_of(msgs: Seq<Message>) -> Seq<u64> {
    msgs.map_values(|m: Message| m.ty)
}

/// Law: a producer's types follow its pattern. Its first `pattern.len()`
/// messages carry the pattern's types in the pattern's order, and any
/// `pattern.len()` consecutive messages carry each type exactly as often as
/// the pattern holds it.
pub proof fn lemma_emitted_types_follow_pattern(id: u64, pattern: Seq<u64>, sent: Seq<Message>, start: int)
    requires
        pattern.len() > 0,
        emitted_by(id, pattern, sent),
        0 <= start,
        start + pattern.len() <= sent.len(),
    ensures
        types_of(sent.take(pattern.len() as int)) == pattern,
        types_of(sent.subrange(start, start + pattern.len())).to_multiset() == pattern.to_multiset(),
{
    let n = pattern.len() as int;
    assert forall|i: int| 0 <= i < n implies #[trigger] types_of(sent.take(n))[i] == pattern[i] by {
        assert(sent[i] == nth_message(id, pattern, i as nat, sent[i].timestamp));
        vstd::arithmetic::div_mod::lemma_small_mod(i as nat, n as nat);
    }
    assert(types_of(sent.take(n)) =~= pattern);
    vstd::arithmetic::div_mod::lemma_fundamental_div_mod(start, n);
    vstd::arithmetic::div_mod::lemma_mod_pos_bound(start, n);
    let q = start / n;
    let r = start % n;
    let window = types_of(sent.subrange(start, start + n));
    let rotated = pattern.skip(r) + pattern.take(r);
    assert forall|i: int| 0 <= i < n implies #[trigger] window[i] == rotated[i] by {
        assert(sent[start + i] == nth_message(id, pattern, (start + i) as nat, sent[start + i].timestamp));
        assert(start + i == q * n + (r + i));
        if r + i < n {
            vstd::arithmetic::div_mod::lemma_fundamental_div_mod_converse(start + i, n, q, r + i);
            assert(rotated[i] == pattern[r + i]);
        } else {
            assert(start + i == (q + 1) * n + (r + i - n)) by (nonlinear_arith)
                requires
                    start + i == q * n + (r + i),
            ;
            vstd::arithmetic::div_mod::lemma_fundamental_div_mod_converse(start + i, n, q + 1, r + i - n);
            assert(rotated[i] == pattern.take(r)[i - (n - r)]);
        }
    }
    assert(window =~= rotated);
    vstd::seq_lib::lemma_seq_union_to_multiset_commutative(pattern.skip(r), pattern.take(r));
    assert(pattern.take(r) + pattern.skip(r) =~= pattern);
}

impl ProducerState {
    /// The pattern is not empty, the cursor is at the position of the next
    /// message, counted round the pattern, and the messages emitted so far are
    /// the producer's first ones.
    pub open spec fn wf(&self) -> bool {
        &&& self.pattern@.len() > 0
        &&& self.cursor as int == (self.msg.seq as int) % (self.pattern@.len() as int)
        &&& self.emitted@.len() == self.msg.seq
        &&& emitted_by(self.msg.producer_id, self.pattern@, self.emitted@)
    }

    /// A producer that has emitted nothing yet.
    pub fn new(id: u64, pattern: Vec<u64>) -> (res: Self)
        requires
            pattern@.len() > 0,
        ensures
            res.wf(),
            res.msg == (Message { producer_id: id, ty: 0, seq: 0, timestamp: 0 }),
            res.pattern@ == pattern@,
            res.err_arr@ == Seq::new(8, |t: int| 0u64),
            res.total_msg == 0,
            res.total_zero_msgs == 0,
            res.emitted@ == Seq::<Message>::empty(),
    {
        let err_arr = [0u64; 8];
        assert(err_arr@ =~= Seq::new(8, |t: int| 0u64));
        proof {
            vstd::arithmetic::div_mod::lemma_small_mod(0, pattern@.len());
        }
        ProducerState {
            msg: Message { producer_id: id, ty: 0, seq: 0, timestamp: 0 },
            pattern,
            cursor: 0,
            err_arr,
            total_msg: 0,
            total_zero_msgs: 0,
            emitted: Ghost(Seq::empty()),
        }
    }

    /// The next message: the next sequence number, the next type of the
    /// pattern, and `timestamp`.
    pub fn next_message(&mut self, timestamp: u64) -> (m: Message)
        requires
            old(self).wf(),
            old(self).msg.seq < u64::MAX,
        ensures
            final(self).wf(),
            m == nth_message(old(self).msg.producer_id, old(self).pattern@, old(self).msg.seq as nat, timestamp),
            final(self).msg == m,
            final(self).emitted@ == old(self).emitted@.push(m),
            final(self).pattern@ == old(self).pattern@,
            final(self).err_arr == old(self).err_arr,
            final(self).total_msg == old(self).total_msg,
            final(self).total_zero_msgs == old(self).total_zero_msgs,
    {
        let ty = self.pattern[self.cursor];
        self.msg.seq = self.msg.seq + 1;
        self.msg.ty = ty;
        self.msg.timestamp = timestamp;
        let last = self.pattern.len() - 1;
        self.cursor = if self.cursor == last {
            0
        } else {
            self.cursor + 1
        };
        proof {
            let n = old(self).pattern@.len() as int;
            let s = old(self).msg.seq as int;
            let c = old(self).cursor as int;
            vstd::arithmetic::div_mod::lemma_fundamental_div_mod(s, n);
            let q = s / n;
            assert(s == q * n + c);
            assert(s + 1 == q * n + (c + 1));
            if c + 1 < n {
                vstd::arithmetic::div_mod::lemma_fundamental_div_mod_converse(s + 1, n, q, c + 1);
            } else {
                assert(s + 1 == (q + 1) * n + 0) by (nonlinear_arith)
                    requires
                        s + 1 == q * n + (c + 1),
                        c + 1 == n,
                ;
                vstd::arithmetic::div_mod::lemma_fundamental_div_mod_converse(s + 1, n, q + 1, 0);
            }
            let m = self.msg;
            let before = old(self).emitted@;
            self.emitted@ = before.push(m);
            assert(m == nth_message(m.producer_id, self.pattern@, s as nat, timestamp));
            assert forall|k: int| 0 <= k < self.emitted@.len() implies #[trigger] self.emitted@[k]
                == nth_message(m.producer_id, self.pattern@, k as nat, self.emitted@[k].timestamp) by {
                if k < before.len() {
                    assert(self.emitted@[k] == before[k]);
                }
            }
        }
        self.msg
    }

    /// Counts a message of type `ty` as taken by the first stage (`sent`) or not.
    pub fn record_send(&mut self, ty: u64, sent: bool)
        requires
            !sent ==> ty < 8 && old(self).err_arr@[ty as int] < u64::MAX,
            sent ==> old(self).total_msg < usize::MAX,
            sent && ty == 0 ==> old(self).total_zero_msgs < u64::MAX,
        ensures
            final(self).msg == old(self).msg,
            final(self).pattern@ == old(self).pattern@,
            final(self).cursor == old(self).cursor,
            final(self).emitted == old(self).emitted,
            final(self).err_arr@ == if sent {
                old(self).err_arr@
            } else {
                old(self).err_arr@.update(ty as int, (old(self).err_arr@[ty as int] + 1) as u64)
            },
            final(self).total_msg == old(self).total_msg + if sent {
                1int
            } else {
                0int
            },
            final(self).total_zero_msgs == old(self).total_zero_msgs + if sent && ty == 0 {
                1int
            } else {
                0int
            },
    {
        if !sent {
            let t = ty as usize;
            self.err_arr[t] = self.err_arr[t] + 1;
        } else {
            self.total_msg = self.total_msg + 1;
            if ty == 0 {
                self.total_zero_msgs = self.total_zero_msgs + 1;
            }
        }
    }
}

} // verus!
