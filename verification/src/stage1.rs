//! A first stage over queues without capacity limits on its routing table.
use crate::channel::try_send;
use crate::config::Stage1Rule;
use crate::queue::stage1::{
    build_type_routes, chosen_sender, routes_message, routes_view, rule_targets_valid, type_routes,
};
use crate::types::Message;
use crossbeam_channel::Sender;
use vstd::prelude::*;

verus! {

/// The senders of the processors that handle each message type.
#[derive(Clone)]
pub struct Stage1 {
    msg_routes: Vec<Vec<Sender<Message>>>,
}

impl Stage1 {
    /// The route of each message type, in order of type.
    pub closed spec fn routes(&self) -> Seq<Seq<Sender<Message>>> {
        routes_view(self.msg_routes@)
    }

    /// Gives each message type the senders of the processors that the last
    /// rule for it names. A rule for a type of `MSG_TYPES` or more sets no
    /// route.
    pub fn new(processors: Vec<Sender<Message>>, stage1_rules: Vec<Stage1Rule>) -> (res: Self)
        requires
            rule_targets_valid(stage1_rules@, processors@.len()),
        ensures
            res.routes() == type_routes(processors@, stage1_rules@),
    {
        let msg_routes = build_type_routes(&processors, &stage1_rules);
        Stage1 { msg_routes }
    }

    /// Whether `send` can route `msg`: some rule names its type, and the last
    /// such rule names at least one processor.
    pub fn accepts(&self, msg: &Message) -> (res: bool)
        ensures
            res == routes_message(self.routes(), *msg),
    {
        let ty = msg.ty as usize;
        ty < self.msg_routes.len() && self.msg_routes[ty].len() > 0
    }

    /// The sender that `msg` is handed to.
    pub fn route(&self, msg: &Message) -> (res: &Sender<Message>)
        requires
            routes_message(self.routes(), *msg),
        ensures
            *res == chosen_sender(self.routes(), *msg),
    {
        let rule = &self.msg_routes[msg.ty as usize];
        if rule.len() == 1 {
            return &rule[0];
        }
        let index = (msg.producer_id as usize) % rule.len();
        &rule[index]
    }

    /// Hands `msg` to the processor that its type and producer select, without
    /// waiting; true when that processor's queue took it.
    pub fn send(&self, msg: Message) -> bool
        requires
            routes_message(self.routes(), msg),
    {
        try_send(self.route(&msg), msg)
    }
}

} // verus!
