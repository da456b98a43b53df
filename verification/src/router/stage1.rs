//! First stage over ring buffers: the processor of each message type.
use crate::config::Stage1Rule;
use crate::types::Message;
use vstd::prelude::*;

verus! {

/// The processor that type `t` maps to: the first processor of the last rule
/// for `t`, or processor 0 where no rule names `t`.
pub open spec fn table_processor(rules: Seq<Stage1Rule>, t: int) -> u64
    decreases rules.len(),
{
    if rules.len() == 0 {
        0
    } else if rules.last().msg_type == t {
        rules.last().processors@[0]
    } else {
        table_processor(rules.drop_last(), t)
    }
}

/// Every rule names a type below 8 and at least one processor.
pub open spec fn rules_fit_table(rules: Seq<Stage1Rule>) -> bool {
    forall|i: int|
        0 <= i < rules.len() ==> (#[trigger] rules[i]).msg_type < 8 && rules[i].processors@.len() > 0
}

/// The lookup table from message type to processor: each rule in turn sets the
/// entry of its type to its first processor.
pub fn msg_type_to_processor(rules: &Vec<Stage1Rule>) -> (table: [u64; 8])
    requires
        rules_fit_table(rules@),
    ensures
        forall|t: int| 0 <= t < 8 ==> #[trigger] table@[t] == table_processor(rules@, t),
{
    let mut table = [0u64; 8];
    let mut i: usize = 0;
    while i < rules.len()
        invariant
            i <= rules.len(),
            rules_fit_table(rules@),
            forall|t: int| 0 <= t < 8 ==> #[trigger] table@[t] == table_processor(rules@.take(i as int), t),
        decreases rules.len() - i,
    {
        let rule = &rules[i];
        assert(rules@.take(i as int + 1).drop_last() =~= rules@.take(i as int));
        assert(rules@[i as int].processors@.len() > 0);
        table[rule.msg_type as usize] = rule.processors[0];
        i = i + 1;
    }
    assert(rules@.take(rules@.len() as int) =~= rules@);
    table
}

/// The processor that the lookup table forwards `msg` to: the entry of its type.
pub fn processor_for(table: &[u64; 8], msg: &Message) -> (p: u64)
    requires
        msg.ty < 8,
    ensures
        p == table@[msg.ty as int],
{
    table[msg.ty as usize]
}

} // verus!
