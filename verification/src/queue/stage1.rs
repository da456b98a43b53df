//! First stage over queues: messages go from producers to processors by type.
use crate::channel::{clone_sender, try_send};
use crate::config::Stage1Rule;
use crate::types::Message;
use crossbeam_channel::Sender;
use vstd::prelude::*;

verus! {

/// The number of message types, and of routes.
pub const MSG_TYPES: usize = 8;

/// Every processor that a rule names is one of `n` processors.
pub open spec fn rule_targets_valid(rules: Seq<Stage1Rule>, n: nat) -> bool {
    forall|i: int, j: int|
        0 <= i < rules.len() && 0 <= j < rules[i].processors@.len() ==> ((
        #[trigger] rules[i].processors@[j]) as usize) < n
}

/// The route of a rule: the senders of the processors that it names, in its order.
pub open spec fn route_of_rule(processors: Seq<Sender<Message>>, r: Stage1Rule) -> Seq<Sender<Message>> {
    r.processors@.map_values(|p: u64| processors[(p as usize) as int])
}

/// The last rule for message type `t`, if any rule names it.
pub open spec fn last_rule_of_type(rules: Seq<Stage1Rule>, t: int) -> Option<Stage1Rule>
    decreases rules.len(),
{
    if rules.len() == 0 {
        None
    } else if rules.last().msg_type == t {
        Some(rules.last())
    } else {
        last_rule_of_type(rules.drop_last(), t)
    }
}

/// The route of message type `t`: that of the last rule for `t`, or no
/// processor at all where no rule names `t`.
pub open spec fn type_route(processors: Seq<Sender<Message>>, rules: Seq<Stage1Rule>, t: int) -> Seq<
    Sender<Message>,
> {
    match last_rule_of_type(rules, t) {
        Some(r) => route_of_rule(processors, r),
        None => Seq::empty(),
    }
}

/// The routes of the message types `0..MSG_TYPES`, in order of type.
pub open spec fn type_routes(processors: Seq<Sender<Message>>, rules: Seq<Stage1Rule>) -> Seq<
    Seq<Sender<Message>>,
> {
    Seq::new(MSG_TYPES as nat, |t: int| type_route(processors, rules, t))
}

/// The routes held in a vector of vectors.
pub open spec fn routes_view(v: Seq<Vec<Sender<Message>>>) -> Seq<Seq<Sender<Message>>> {
    v.map_values(|r: Vec<Sender<Message>>| r@)
}

/// Which of the `n` senders of a route a message of this producer takes.
pub open spec fn route_slot(producer_id: u64, n: nat) -> int {
    if n == 1 {
        0
    } else {
        ((producer_id as usize) as int) % (n as int)
    }
}

/// There is a route for the message's type, and it is not empty.
pub open spec fn routes_message(routes: Seq<Seq<Sender<Message>>>, msg: Message) -> bool {
    &&& (msg.ty as usize) < routes.len()
    &&& routes[(msg.ty as usize) as int].len() > 0
}

/// The sender that a message is handed to: the route of its type, and in it
/// the slot that the producer's id selects.
pub open spec fn chosen_sender(routes: Seq<Seq<Sender<Message>>>, msg: Message) -> Sender<Message> {
    let route = routes[(msg.ty as usize) as int];
    route[route_slot(msg.producer_id, route.len())]
}

/// Law: messages of one producer and one type always take the same sender,
/// and that sender is one of their route's, so the first stage keeps each
/// producer's messages of a type in one queue, in the order they were sent.
pub proof fn lemma_producer_and_type_fix_the_sender(
    routes: Seq<Seq<Sender<Message>>>,
    a: Message,
    b: Message,
)
    requires
        routes_message(routes, a),
        a.ty == b.ty,
        a.producer_id == b.producer_id,
    ensures
        routes_message(routes, b),
        chosen_sender(routes, a) == chosen_sender(routes, b),
        0 <= route_slot(a.producer_id, routes[(a.ty as usize) as int].len()) < routes[(a.ty as usize) as int].len(),
{
}

/// Law: routing goes by message type. A message that the routes built from
/// `rules` take goes to one of the processors that the last rule for its type
/// names, the one at the slot its producer selects.
pub proof fn lemma_sender_serves_the_type(
    processors: Seq<Sender<Message>>,
    rules: Seq<Stage1Rule>,
    msg: Message,
)
    requires
        routes_message(type_routes(processors, rules), msg),
    ensures
        ({
            let routes = type_routes(processors, rules);
            let t = (msg.ty as usize) as int;
            &&& last_rule_of_type(rules, t) is Some
            &&& last_rule_of_type(rules, t).unwrap().msg_type == t
            &&& ({
                let r = last_rule_of_type(rules, t).unwrap();
                let slot = route_slot(msg.producer_id, r.processors@.len());
                &&& 0 <= slot < r.processors@.len()
                &&& chosen_sender(routes, msg) == processors[(r.processors@[slot] as usize) as int]
            })
        }),
{
    let t = (msg.ty as usize) as int;
    lemma_last_rule_has_type(rules, t);
}

proof fn lemma_last_rule_has_type(rules: Seq<Stage1Rule>, t: int)
    ensures
        last_rule_of_type(rules, t) matches Some(r) ==> r.msg_type == t && rules.contains(r),
    decreases rules.len(),
{
    if rules.len() > 0 && rules.last().msg_type != t {
        lemma_last_rule_has_type(rules.drop_last(), t);
        if let Some(r) = last_rule_of_type(rules.drop_last(), t) {
            let k = choose|k: int| 0 <= k < rules.drop_last().len() && rules.drop_last()[k] == r;
            assert(rules[k] == r);
        }
    } else if rules.len() > 0 {
        assert(rules[rules.len() - 1] == rules.last());
    }
}

/// Law: two first stages built from the same processors and rules hand every
/// message to the same sender.
pub proof fn lemma_first_stages_agree(
    processors: Seq<Sender<Message>>,
    rules: Seq<Stage1Rule>,
    a: Seq<Seq<Sender<Message>>>,
    b: Seq<Seq<Sender<Message>>>,
    msg: Message,
)
    requires
        a == type_routes(processors, rules),
        b == type_routes(processors, rules),
    ensures
        routes_message(a, msg) == routes_message(b, msg),
        chosen_sender(a, msg) == chosen_sender(b, msg),
{
}

/// The senders of one rule's processors.
fn rule_route(processors: &Vec<Sender<Message>>, rule: &Stage1Rule) -> (route: Vec<Sender<Message>>)
    requires
        forall|j: int|
            0 <= j < rule.processors@.len() ==> ((#[trigger] rule.processors@[j]) as usize)
                < processors@.len(),
    ensures
        route@ == route_of_rule(processors@, *rule),
{
    let mut route: Vec<Sender<Message>> = Vec::new();
    let mut j: usize = 0;
    while j < rule.processors.len()
        invariant
            j <= rule.processors.len(),
            forall|j: int|
                0 <= j < rule.processors@.len() ==> ((#[trigger] rule.processors@[j]) as usize)
                    < processors@.len(),
            route@ == rule.processors@.take(j as int).map_values(
                |p: u64| processors@[(p as usize) as int],
            ),
        decreases rule.processors.len() - j,
    {
        let target = rule.processors[j] as usize;
        route.push(clone_sender(&processors[target]));
        assert(route@ =~= rule.processors@.take(j as int + 1).map_values(
            |p: u64| processors@[(p as usize) as int],
        ));
        j = j + 1;
    }
    assert(rule.processors@.take(j as int) =~= rule.processors@);
    route
}

/// Builds the route of each message type: each rule in turn sets the route of
/// its type to the senders of the processors it names.
pub(crate) fn build_type_routes(processors: &Vec<Sender<Message>>, rules: &Vec<Stage1Rule>) -> (res: Vec<
    Vec<Sender<Message>>,
>)
    requires
        rule_targets_valid(rules@, processors@.len()),
    ensures
        routes_view(res@) == type_routes(processors@, rules@),
{
    let mut res: Vec<Vec<Sender<Message>>> = Vec::new();
    let mut t: usize = 0;
    while t < MSG_TYPES
        invariant
            t <= MSG_TYPES,
            routes_view(res@) == Seq::new(t as nat, |k: int| Seq::<Sender<Message>>::empty()),
            res@.len() == t,
        decreases MSG_TYPES - t,
    {
        let empty: Vec<Sender<Message>> = Vec::new();
        let ghost before = res@;
        res.push(empty);
        assert(routes_view(res@) =~= routes_view(before).push(Seq::<Sender<Message>>::empty()));
        assert(routes_view(res@) =~= Seq::new((t + 1) as nat, |k: int| Seq::<Sender<Message>>::empty()));
        t = t + 1;
    }
    assert(routes_view(res@) =~= type_routes(processors@, rules@.take(0)));
    let mut i: usize = 0;
    while i < rules.len()
        invariant
            i <= rules.len(),
            rule_targets_valid(rules@, processors@.len()),
            routes_view(res@) == type_routes(processors@, rules@.take(i as int)),
            res@.len() == MSG_TYPES,
        decreases rules.len() - i,
    {
        let rule = &rules[i];
        let prefix = Ghost(rules@.take(i as int + 1));
        assert(prefix@.drop_last() =~= rules@.take(i as int));
        assert(prefix@.last() == rules@[i as int]);
        if rule.msg_type < MSG_TYPES as u64 {
            assert forall|j: int| 0 <= j < rule.processors@.len() implies ((
            #[trigger] rule.processors@[j]) as usize) < processors@.len() by {
                assert(rules@[i as int].processors@[j] == rule.processors@[j]);
            }
            let route = rule_route(processors, rule);
            let ghost added = route@;
            let ghost before = res@;
            res.set(rule.msg_type as usize, route);
            assert(routes_view(res@) =~= type_routes(processors@, prefix@)) by {
                assert forall|k: int| 0 <= k < MSG_TYPES implies #[trigger] routes_view(res@)[k]
                    == type_route(processors@, prefix@, k) by {
                    assert(routes_view(res@)[k] == res@[k]@);
                    if k != rules@[i as int].msg_type {
                        assert(res@[k] == before[k]);
                        assert(routes_view(before)[k] == before[k]@);
                        assert(routes_view(before)[k] == type_routes(processors@, rules@.take(i as int))[k]);
                        assert(last_rule_of_type(prefix@, k) == last_rule_of_type(rules@.take(i as int), k));
                    } else {
                        assert(res@[k]@ == added);
                        assert(last_rule_of_type(prefix@, k) == Some(rules@[i as int]));
                    }
                }
            }
        } else {
            // A rule for a type of `MSG_TYPES` or more sets no route.
            assert(routes_view(res@) =~= type_routes(processors@, prefix@)) by {
                assert forall|k: int| 0 <= k < MSG_TYPES implies #[trigger] routes_view(res@)[k]
                    == type_route(processors@, prefix@, k) by {
                    assert(routes_view(res@)[k] == type_routes(processors@, rules@.take(i as int))[k]);
                    assert(last_rule_of_type(prefix@, k) == last_rule_of_type(rules@.take(i as int), k));
                }
            }
        }
        i = i + 1;
    }
    assert(rules@.take(rules@.len() as int) =~= rules@);
    res
}

/// The senders of the processors that handle each message type.
#[derive(Clone)]
pub struct Stage1Queue {
    msg_routes: Vec<Vec<Sender<Message>>>,
}

impl Stage1Queue {
    /// The route of each message type, in order of type.
    pub closed spec fn routes(&self) -> Seq<Seq<Sender<Message>>> {
        routes_view(self.msg_routes@)
    }

    /// Gives each message type the senders of the processors that the last
    /// rule for it names. The table holds at most eight rules, and a rule
    /// names at most eight processors. A rule for a type of `MSG_TYPES` or
    /// more sets no route: no message of this system carries such a type.
    pub fn new(processors: Vec<Sender<Message>>, stage1_rules: Vec<Stage1Rule>) -> (res: Self)
        requires
            stage1_rules@.len() <= 8,
            forall|i: int|
                0 <= i < stage1_rules@.len() ==> (#[trigger] stage1_rules@[i]).processors@.len()
                    <= 8,
            rule_targets_valid(stage1_rules@, processors@.len()),
        ensures
            res.routes() == type_routes(processors@, stage1_rules@),
    {
        let msg_routes = build_type_routes(&processors, &stage1_rules);
        Stage1Queue { msg_routes }
    }

    /// Whether `send` can route `msg`: some rule names its type, and the last
    /// such rule names at least one processor.
    pub fn accepts(&self, msg: &Message) -> (res: bool)
        ensures
            res == routes_message(self.routes(), *msg),
    {
        let ty = msg.ty as usize;
        ty < self.msg_routes.len() && self.msg_routes[ty].len() > 0
    }

    /// The sender that `msg` is handed to.
    pub fn route(&self, msg: &Message) -> (res: &Sender<Message>)
        requires
            routes_message(self.routes(), *msg),
        ensures
            *res == chosen_sender(self.routes(), *msg),
    {
        let rule = &self.msg_routes[msg.ty as usize];
        if rule.len() == 1 {
            return &rule[0];
        }
        let index = (msg.producer_id as usize) % rule.len();
        &rule[index]
    }

    /// Hands `msg` to the processor that its type and producer select, without
    /// waiting; true when that processor's queue took it.
    pub fn send(&self, msg: Message) -> bool
        requires
            routes_message(self.routes(), msg),
    {
        try_send(self.route(&msg), msg)
    }
}

} // verus!
