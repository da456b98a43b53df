//! Sending ends of `crossbeam_channel` channels.
use crossbeam_channel::Sender;
use vstd::prelude::*;

verus! {

/// The sending end of a channel, carried through the routing tables unopened.
#[verifier::external_type_specification]
#[verifier::external_body]
#[verifier::reject_recursive_types(T)]
pub struct ExSender<T>(Sender<T>);

/// Calls `Sender::clone`, which hands out another handle to the same channel.
/// The contract claims the new handle equals the original as a value: both
/// deliver to the same channel, and nothing else distinguishes them.
#[verifier::external_body]
pub(crate) fn clone_sender<T>(s: &Sender<T>) -> (res: Sender<T>)
    ensures
        res == *s,
{
    s.clone()
}

/// Calls `Sender::try_send` and reports whether the channel took the message.
/// Whether it does depends on how full the channel is and on whether its
/// receivers are alive, so nothing is claimed of the result.
#[verifier::external_body]
pub(crate) fn try_send<T>(s: &Sender<T>, msg: T) -> bool {
    s.try_send(msg).is_ok()
}

} // verus!
