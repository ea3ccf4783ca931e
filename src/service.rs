//! The node's answers to requests, and the decisions of its slot workers.
use vstd::prelude::*;
use crate::codec::{ResponseEvent, ResponseEventView};
use crate::decimal::{decimal, format_usize};
use crate::jobs::Inputs;
use crate::registry::{first_vacant, Registered, Registry};
use crate::template::{parse_template, substitute_template, Tokens};

verus! {

/// Relies on `num_cpus::get`: the number of logical CPUs available to this
/// process, which its documentation promises is at least 1.
#[verifier::external_body]
pub(crate) fn cpu_count() -> (r: usize)
    ensures
        r >= 1,
{
    num_cpus::get()
}

/// The answer to `get cores` on a node with `cores` cores.
pub fn cores_info(cores: usize) -> (r: ResponseEvent)
    ensures
        r@ == ResponseEventView::Info(decimal(cores as nat)),
{
    ResponseEvent::Info(format_usize(cores))
}

/// The answer to `get cores`: this node's core count, at least 1.
pub fn cores_response() -> (r: ResponseEvent)
    ensures
        exists|n: nat| n >= 1 && r@ == ResponseEventView::Info(decimal(n)),
{
    let n = cpu_count();
    cores_info(n)
}

/// The answer to `com`: the handle the command was registered under.
pub fn handle_response(handle: usize) -> (r: ResponseEvent)
    ensures
        r@ == ResponseEventView::Info(decimal(handle as nat)),
{
    ResponseEvent::Info(format_usize(handle))
}

/// The answer to `del`.
pub fn deleted_response() -> (r: ResponseEvent)
    ensures
        r@ == ResponseEventView::Info("deleted job"@),
{
    let mut s = String::new();
    s.append("deleted job");
    ResponseEvent::Info(s)
}

/// The answer to `inp` for a handle under which nothing is registered.
pub fn not_found_response() -> (r: ResponseEvent)
    ensures
        r@ == ResponseEventView::Info("not found"@),
{
    let mut s = String::new();
    s.append("not found");
    ResponseEvent::Info(s)
}

/// The answer to `inp` once job `jid` on `input` is over: its status and
/// captured output, or, where the process could not be started, an error
/// that carries the input.
pub fn input_response(jid: usize, input: String, result: Option<(u8, String, String)>) -> (r:
    ResponseEvent)
    ensures
        match result {
            Some((st, o, e)) => r@ == ResponseEventView::Output(jid as nat, st as nat, o@, e@),
            None => r@ == ResponseEventView::Error(jid as nat, input@),
        },
{
    match result {
        Some((st, o, e)) => ResponseEvent::Output(jid, st, o, e),
        None => ResponseEvent::Error(jid, input),
    }
}

impl<T> Registry<T> {
    /// Registers the command `template` with one slot per core of this node
    /// and the shared state `state`, and gives its handle.
    pub fn register_command(&mut self, template: &str, state: T) -> (r: usize)
        ensures
            r == first_vacant(old(self).commands@),
            r < final(self).commands@.len(),
            final(self).commands@.len() == old(self).commands@.len() || final(self).commands@.len()
                == old(self).commands@.len() + 1,
            final(self).commands@[r as int] matches Some(c) && c.command@ == parse_template(
                template@,
            ) && c.slots >= 1 && c.state == state,
            forall|i: int|
                0 <= i < old(self).commands@.len() && i != r ==> final(self).commands@[i] == old(
                    self,
                ).commands@[i],
    {
        let command = Tokens::new(template);
        let slots = cpu_count();
        self.register(Registered { command, slots, state })
    }
}

/// What a slot worker does next.
pub enum SlotAction {
    /// Stop: the command is being deleted.
    Park,
    /// Wait a moment: no input is queued.
    Idle,
    /// Run the job with this id and input as this command line.
    Run(usize, String, String),
}

/// The next step of slot `slot` of a command: park once `kill` is set, else
/// take the oldest queued job and give the command line that `command` makes
/// of it, or idle when the queue is empty.
pub fn slot_step(kill: bool, inputs: &mut Inputs, command: &Tokens, slot: usize) -> (r: SlotAction)
    ensures
        kill ==> r is Park && final(inputs)@ == old(inputs)@,
        !kill && old(inputs)@.len() == 0 ==> r is Idle && final(inputs)@ == old(inputs)@,
        !kill && old(inputs)@.len() > 0 ==> final(inputs)@ == old(inputs)@.drop_first() && (
        r matches SlotAction::Run(jid, input, line) && jid == old(inputs)@[0].0 && input@ == old(
            inputs,
        )@[0].1 && line@ == substitute_template(
            command@,
            slot as nat,
            jid as nat,
            old(inputs)@[0].1,
        )),
{
    if kill {
        return SlotAction::Park;
    }
    match inputs.pop() {
        Some((jid, input)) => {
            let line = command.substitute(slot, jid, input.as_str());
            SlotAction::Run(jid, input, line)
        },
        None => SlotAction::Idle,
    }
}

} // verus!
