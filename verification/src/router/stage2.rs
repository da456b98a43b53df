//! Second stage over ring buffers: the strategy of each message type.
use crate::config::Stage2Rule;
use crate::types::HandledMessage;
use vstd::prelude::*;

verus! {

/// The strategy that type `t` maps to: that of the last rule for `t`, or
/// strategy 0 where no rule names `t`.
pub open spec fn table_strategy(rules: Seq<Stage2Rule>, t: int) -> u64
    decreases rules.len(),
{
    if rules.len() == 0 {
        0
    } else if rules.last().msg_type == t {
        rules.last().strategy
    } else {
        table_strategy(rules.drop_last(), t)
    }
}

/// The lookup table from message type to strategy: each rule in turn sets the
/// entry of its type to its strategy.
pub fn msg_type_to_strategy(rules: &Vec<Stage2Rule>) -> (table: [u64; 8])
    requires
        forall|i: int| 0 <= i < rules@.len() ==> (#[trigger] rules@[i]).msg_type < 8,
    ensures
        forall|t: int| 0 <= t < 8 ==> #[trigger] table@[t] == table_strategy(rules@, t),
{
    let mut table = [0u64; 8];
    let mut i: usize = 0;
    while i < rules.len()
        invariant
            i <= rules.len(),
            forall|i: int| 0 <= i < rules@.len() ==> (#[trigger] rules@[i]).msg_type < 8,
            forall|t: int| 0 <= t < 8 ==> #[trigger] table@[t] == table_strategy(rules@.take(i as int), t),
        decreases rules.len() - i,
    {
        let rule = &rules[i];
        assert(rules@.take(i as int + 1).drop_last() =~= rules@.take(i as int));
        table[rule.msg_type as usize] = rule.strategy;
        i = i + 1;
    }
    assert(rules@.take(rules@.len() as int) =~= rules@);
    table
}

/// The strategy that the lookup table forwards `msg` to: the entry of the type
/// of the message it carries.
pub fn strategy_for(table: &[u64; 8], msg: &HandledMessage) -> (s: u64)
    requires
        msg.msg.ty < 8,
    ensures
        s == table@[msg.msg.ty as int],
{
    table[msg.msg.ty as usize]
}

} // verus!
