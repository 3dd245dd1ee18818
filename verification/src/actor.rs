//! Decision logic of the transport swarm actor.
//!
//! The actor owns the network stack and loops forever, racing the inbound
//! command queue against the network's own event production; the shell
//! performs the transport work. What is verified here is the actor's
//! policy: which command carries a synchronous reply, and which publish
//! outcomes the actor survives. A publish that reaches too few peers is a
//! tolerated soft condition: the message is simply not delivered, no
//! error is surfaced, and the loop keeps servicing commands. Every other
//! publish failure is fatal to the actor.

use vstd::prelude::*;

use crate::manager::NetworkCommand;

verus! {

/// The outcome of one publish attempt on the overlay.
pub enum PublishOutcome {
    /// The message was broadcast.
    Delivered,
    /// No peer beyond the local node subscribes to the topic; the message
    /// was dropped. A tolerated soft condition.
    InsufficientPeers,
    /// Any other publish failure, with its description.
    Failed { reason: String },
}

/// Whether an outcome ends the actor.
pub open spec fn spec_outcome_is_fatal(outcome: PublishOutcome) -> bool {
    outcome matches PublishOutcome::Failed { .. }
}

/// The actor's loop state: whether it is still servicing its queues.
pub struct SwarmActor {
    alive: bool,
}

impl SwarmActor {
    /// Whether the actor is still servicing its queues.
    pub closed spec fn spec_alive(self) -> bool {
        self.alive
    }

    /// A freshly started actor.
    pub fn new() -> (r: SwarmActor)
        ensures
            r.spec_alive(),
    {
        SwarmActor { alive: true }
    }

    /// Whether the actor is still servicing its queues.
    pub fn is_alive(&self) -> (r: bool)
        ensures
            r == self.spec_alive(),
    {
        self.alive
    }

    /// Absorbs the outcome of a publish: delivery and the
    /// insufficient-peers condition leave the actor running; any other
    /// failure halts it.
    pub fn absorb_publish_outcome(&mut self, outcome: &PublishOutcome)
        ensures
            final(self).spec_alive() == (old(self).spec_alive() && !spec_outcome_is_fatal(
                *outcome,
            )),
    {
        match outcome {
            PublishOutcome::Delivered => (),
            PublishOutcome::InsufficientPeers => (),
            PublishOutcome::Failed { .. } => {
                self.alive = false;
            },
        }
    }
}

/// Whether a command carries a synchronous reply to its caller.
pub open spec fn spec_command_has_reply(command: CommandKind) -> bool {
    command is ListenOn
}

/// The kind of a command, for routing inside the actor loop.
#[derive(Clone, Copy, PartialEq, Eq, Structural, Debug)]
pub enum CommandKind {
    ListenOn,
    RemoveListener,
    DialAddr,
    DialPeer,
    Subscribe,
    Unsubscribe,
    Publish,
}

/// Classifies a command. `ListenOn` is the only command whose servicing
/// sends a synchronous reply; all others are fire-and-forget.
pub fn command_kind(command: &NetworkCommand) -> (r: CommandKind)
    ensures
        r == (match command@ {
            crate::manager::CommandView::ListenOn { .. } => CommandKind::ListenOn,
            crate::manager::CommandView::RemoveListener { .. } => CommandKind::RemoveListener,
            crate::manager::CommandView::DialAddr { .. } => CommandKind::DialAddr,
            crate::manager::CommandView::DialPeer { .. } => CommandKind::DialPeer,
            crate::manager::CommandView::Subscribe { .. } => CommandKind::Subscribe,
            crate::manager::CommandView::Unsubscribe { .. } => CommandKind::Unsubscribe,
            crate::manager::CommandView::Publish { .. } => CommandKind::Publish,
        }),
        spec_command_has_reply(r) <==> command@ matches crate::manager::CommandView::ListenOn {
            ..
        },
{
    match command {
        NetworkCommand::ListenOn { .. } => CommandKind::ListenOn,
        NetworkCommand::RemoveListener { .. } => CommandKind::RemoveListener,
        NetworkCommand::DialAddr { .. } => CommandKind::DialAddr,
        NetworkCommand::DialPeer { .. } => CommandKind::DialPeer,
        NetworkCommand::Subscribe { .. } => CommandKind::Subscribe,
        NetworkCommand::Unsubscribe { .. } => CommandKind::Unsubscribe,
        NetworkCommand::Publish { .. } => CommandKind::Publish,
    }
}

/// Law: a publish that found too few peers never halts the actor. An
/// actor that was servicing its queues and absorbed an insufficient-peers
/// outcome (as `absorb_publish_outcome` promises) is still servicing
/// them, so any subsequent command is still handled.
pub proof fn lemma_insufficient_peers_tolerated(pre: SwarmActor, post: SwarmActor)
    requires
        pre.spec_alive(),
        post.spec_alive() == (pre.spec_alive() && !spec_outcome_is_fatal(
            PublishOutcome::InsufficientPeers,
        )),
    ensures
        post.spec_alive(),
        !spec_outcome_is_fatal(PublishOutcome::InsufficientPeers),
{
}

} // verus!
