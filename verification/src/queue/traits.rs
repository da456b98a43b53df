//! Second stage over queues: processed messages go to strategies by type.
use crate::channel::try_send;
use crate::config::Stage2Rule;
use crate::types::HandledMessage;
use crossbeam_channel::Sender;
use vstd::prelude::*;

verus! {

/// The strategy of the first rule for message type `ty`, if a rule names that type.
pub open spec fn strategy_for(rules: Seq<Stage2Rule>, ty: u64) -> Option<u64>
    decreases rules.len(),
{
    if rules.len() == 0 {
        None
    } else if rules[0].msg_type == ty {
        Some(rules[0].strategy)
    } else {
        strategy_for(rules.drop_first(), ty)
    }
}

/// Hands processed messages to the strategy that the rules name for their type.
pub struct QueueProcessorSender {
    pub queues: Vec<Sender<HandledMessage>>,
    pub rules: Vec<Stage2Rule>,
}

/// The rules name a strategy for the message's type, and that strategy has a queue.
pub open spec fn strategy_known(
    queues: Seq<Sender<HandledMessage>>,
    rules: Seq<Stage2Rule>,
    msg: HandledMessage,
) -> bool {
    &&& strategy_for(rules, msg.msg.ty) is Some
    &&& (strategy_for(rules, msg.msg.ty).unwrap() as usize) < queues.len()
}

/// Law: processed messages of one type all go to the same strategy's queue,
/// whichever processor handled them.
pub proof fn lemma_type_fixes_the_strategy(
    queues: Seq<Sender<HandledMessage>>,
    rules: Seq<Stage2Rule>,
    a: HandledMessage,
    b: HandledMessage,
)
    requires
        strategy_known(queues, rules, a),
        a.msg.ty == b.msg.ty,
    ensures
        strategy_known(queues, rules, b),
        strategy_for(rules, a.msg.ty) == strategy_for(rules, b.msg.ty),
{
}

/// Finds the first rule for message type `ty`.
fn find_strategy(rules: &Vec<Stage2Rule>, ty: u64) -> (res: Option<u64>)
    ensures
        res == strategy_for(rules@, ty),
{
    let mut i: usize = 0;
    assert(rules@.skip(0) =~= rules@);
    while i < rules.len()
        invariant
            i <= rules.len(),
            strategy_for(rules@, ty) == strategy_for(rules@.skip(i as int), ty),
        decreases rules.len() - i,
    {
        assert(rules@.skip(i as int).drop_first() =~= rules@.skip(i as int + 1));
        if rules[i].msg_type == ty {
            return Some(rules[i].strategy);
        }
        i = i + 1;
    }
    None
}

impl QueueProcessorSender {
    /// Whether `send` can place `msg`: some rule names its type, and the first
    /// such rule names a strategy that has a queue.
    pub fn accepts(&self, msg: &HandledMessage) -> (res: bool)
        ensures
            res == strategy_known(self.queues@, self.rules@, *msg),
    {
        match find_strategy(&self.rules, msg.msg.ty) {
            Some(strategy) => (strategy as usize) < self.queues.len(),
            None => false,
        }
    }

    /// The queue of the strategy that the first rule for the message's type names.
    pub fn route(&self, msg: &HandledMessage) -> (res: &Sender<HandledMessage>)
        requires
            strategy_known(self.queues@, self.rules@, *msg),
        ensures
            *res == self.queues@[(strategy_for(self.rules@, msg.msg.ty).unwrap() as usize) as int],
    {
        let strategy = match find_strategy(&self.rules, msg.msg.ty) {
            Some(strategy) => strategy,
            None => 0,
        };
        &self.queues[strategy as usize]
    }

    /// Hands `msg` to the queue of its strategy without waiting; true when the
    /// queue took it.
    pub fn send(&self, msg: HandledMessage) -> bool
        requires
            strategy_known(self.queues@, self.rules@, msg),
    {
        try_send(self.route(&msg), msg)
    }
}

} // verus!
