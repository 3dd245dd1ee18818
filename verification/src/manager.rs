//! The network manager.
//!
//! The manager is the facade between the frame loop and the background
//! transport actor. Mutating calls enqueue a command and return
//! immediately; the actor services the queue and pushes events back.
//! Once per frame, before any consumer runs, the queued inbound events
//! are drained into the frame's event stream in arrival order.
//!
//! `listen_on` is the sole command with a synchronous reply contract; the
//! blocking rendezvous itself is performed by the unverified shell that
//! owns the channels, as is the transport work for every other command.

use vstd::prelude::*;

use crate::topic::NetworkTopic;

verus! {

// ---------------------------------------------------------------------
// Addresses
// ---------------------------------------------------------------------

/// Whether a text is a well-formed multiaddress, as decided by the
/// transport layer's address grammar.
pub uninterp spec fn multiaddr_ok(s: Seq<char>) -> bool;

/// Relies on `Multiaddr`'s `FromStr` impl: whether a text parses as a
/// multiaddress is a function of the text alone (a fixed grammar).
#[verifier::external_body]
fn parse_multiaddr_ok(s: &str) -> (r: bool)
    ensures
        r == multiaddr_ok(s@),
{
    match s.parse::<libp2p::Multiaddr>() {
        Ok(_) => true,
        Err(_) => false,
    }
}

/// A validated listen or dial address. Values only exist for texts that
/// parse as multiaddresses: parse failures on user-supplied addresses are
/// caught here, before any command is dispatched.
pub struct NetworkAddress {
    text: String,
}

impl View for NetworkAddress {
    type V = Seq<char>;

    closed spec fn view(&self) -> Seq<char> {
        self.text@
    }
}

impl NetworkAddress {
    #[verifier::type_invariant]
    closed spec fn type_wf(self) -> bool {
        multiaddr_ok(self.text@)
    }

    /// Validates a text as a multiaddress.
    pub fn parse(s: &str) -> (r: Option<NetworkAddress>)
        ensures
            r matches Some(a) ==> a@ == s@,
            r is Some <==> multiaddr_ok(s@),
    {
        if parse_multiaddr_ok(s) {
            Some(NetworkAddress { text: s.to_owned() })
        } else {
            None
        }
    }

    /// The address text.
    pub fn as_str(&self) -> (r: &str)
        ensures
            r@ == self@,
    {
        self.text.as_str()
    }
}

// ---------------------------------------------------------------------
// Commands and events
// ---------------------------------------------------------------------

/// A command from the frame loop to the transport actor.
pub enum NetworkCommand {
    ListenOn { address: NetworkAddress },
    RemoveListener { listener: u64 },
    DialAddr { address: NetworkAddress },
    DialPeer { peer: libp2p::PeerId },
    Subscribe { topic: NetworkTopic },
    Unsubscribe { topic: NetworkTopic },
    Publish { topic: NetworkTopic, data: Vec<u8> },
}

/// The mathematical value of a command.
pub enum CommandView {
    ListenOn { address: Seq<char> },
    RemoveListener { listener: u64 },
    DialAddr { address: Seq<char> },
    DialPeer { peer: libp2p::PeerId },
    Subscribe { topic: Seq<char> },
    Unsubscribe { topic: Seq<char> },
    Publish { topic: Seq<char>, data: Seq<u8> },
}

impl View for NetworkCommand {
    type V = CommandView;

    open spec fn view(&self) -> CommandView {
        match self {
            NetworkCommand::ListenOn { address } => CommandView::ListenOn { address: address@ },
            NetworkCommand::RemoveListener { listener } => CommandView::RemoveListener {
                listener: *listener,
            },
            NetworkCommand::DialAddr { address } => CommandView::DialAddr { address: address@ },
            NetworkCommand::DialPeer { peer } => CommandView::DialPeer { peer: *peer },
            NetworkCommand::Subscribe { topic } => CommandView::Subscribe { topic: topic@ },
            NetworkCommand::Unsubscribe { topic } => CommandView::Unsubscribe { topic: topic@ },
            NetworkCommand::Publish { topic, data } => CommandView::Publish {
                topic: topic@,
                data: data@,
            },
        }
    }
}

/// An event produced by the transport actor, consumed once per frame.
pub enum NetworkEvent {
    /// An outbound or inbound connection completed.
    ConnectionEstablished { peer: libp2p::PeerId },
    /// A dial failed: the peer at the given address is unreachable.
    UnreachableAddr { address: String, error: String },
    /// An inbound published message.
    Message { topic: String, source: Option<libp2p::PeerId>, data: Vec<u8> },
    /// Any other swarm-level lifecycle event.
    Lifecycle,
}

/// The mathematical value of an event.
pub enum EventView {
    ConnectionEstablished { peer: libp2p::PeerId },
    UnreachableAddr { address: Seq<char>, error: Seq<char> },
    Message { topic: Seq<char>, source: Option<libp2p::PeerId>, data: Seq<u8> },
    Lifecycle,
}

impl View for NetworkEvent {
    type V = EventView;

    open spec fn view(&self) -> EventView {
        match self {
            NetworkEvent::ConnectionEstablished { peer } => EventView::ConnectionEstablished {
                peer: *peer,
            },
            NetworkEvent::UnreachableAddr { address, error } => EventView::UnreachableAddr {
                address: address@,
                error: error@,
            },
            NetworkEvent::Message { topic, source, data } => EventView::Message {
                topic: topic@,
                source: *source,
                data: data@,
            },
            NetworkEvent::Lifecycle => EventView::Lifecycle,
        }
    }
}

// ---------------------------------------------------------------------
// The manager
// ---------------------------------------------------------------------

/// The thread-safe facade over the transport actor: a local peer
/// identity, the queue of commands awaiting the actor, and the queue of
/// inbound events awaiting the next frame.
pub struct NetworkManager {
    local_peer_id: libp2p::PeerId,
    commands: Vec<NetworkCommand>,
    events: Vec<NetworkEvent>,
}

impl NetworkManager {
    /// The identity generated at actor construction time.
    pub closed spec fn spec_local_peer_id(self) -> libp2p::PeerId {
        self.local_peer_id
    }

    /// The commands enqueued and not yet handed to the actor, oldest first.
    pub closed spec fn pending(self) -> Seq<CommandView> {
        self.commands@.map_values(|c: NetworkCommand| c@)
    }

    /// The inbound events not yet drained, in arrival order.
    pub closed spec fn inbox(self) -> Seq<EventView> {
        self.events@.map_values(|e: NetworkEvent| e@)
    }

    /// A manager for a node with the given identity, with empty queues.
    pub fn new(local_peer_id: libp2p::PeerId) -> (r: NetworkManager)
        ensures
            r.spec_local_peer_id() == local_peer_id,
            r.pending() == Seq::<CommandView>::empty(),
            r.inbox() == Seq::<EventView>::empty(),
    {
        let r = NetworkManager { local_peer_id, commands: Vec::new(), events: Vec::new() };
        proof {
            assert(r.pending() =~= Seq::<CommandView>::empty());
            assert(r.inbox() =~= Seq::<EventView>::empty());
        }
        r
    }

    /// The local node's identity.
    pub fn local_peer_id(&self) -> (r: libp2p::PeerId)
        ensures
            r == self.spec_local_peer_id(),
    {
        self.local_peer_id
    }

    fn enqueue(&mut self, command: NetworkCommand)
        ensures
            final(self).pending() == old(self).pending().push(command@),
            final(self).inbox() == old(self).inbox(),
            final(self).spec_local_peer_id() == old(self).spec_local_peer_id(),
    {
        let ghost old_commands = self.commands@;
        let ghost cv = command@;
        self.commands.push(command);
        proof {
            assert(self.commands@ =~= old_commands.push(command));
            assert(self.pending() =~= old(self).pending().push(cv));
        }
    }

    /// Requests a new listener to be bound. The only command with a
    /// synchronous reply: the shell blocks for the bound handle or the
    /// transport error after enqueueing.
    pub fn listen_on(&mut self, address: NetworkAddress)
        ensures
            final(self).pending() == old(self).pending().push(
                CommandView::ListenOn { address: address@ },
            ),
            final(self).inbox() == old(self).inbox(),
            final(self).spec_local_peer_id() == old(self).spec_local_peer_id(),
    {
        self.enqueue(NetworkCommand::ListenOn { address });
    }

    /// Requests a previously bound listener to be unbound. Fire-and-forget.
    pub fn remove_listener(&mut self, listener: u64)
        ensures
            final(self).pending() == old(self).pending().push(
                CommandView::RemoveListener { listener },
            ),
            final(self).inbox() == old(self).inbox(),
            final(self).spec_local_peer_id() == old(self).spec_local_peer_id(),
    {
        self.enqueue(NetworkCommand::RemoveListener { listener });
    }

    /// Requests a dial to an address; the outcome surfaces later as an
    /// event. Fire-and-forget.
    pub fn dial_addr(&mut self, address: NetworkAddress)
        ensures
            final(self).pending() == old(self).pending().push(
                CommandView::DialAddr { address: address@ },
            ),
            final(self).inbox() == old(self).inbox(),
            final(self).spec_local_peer_id() == old(self).spec_local_peer_id(),
    {
        self.enqueue(NetworkCommand::DialAddr { address });
    }

    /// Requests a dial to a peer identity. Fire-and-forget.
    pub fn dial_peer(&mut self, peer_id: libp2p::PeerId)
        ensures
            final(self).pending() == old(self).pending().push(
                CommandView::DialPeer { peer: peer_id },
            ),
            final(self).inbox() == old(self).inbox(),
            final(self).spec_local_peer_id() == old(self).spec_local_peer_id(),
    {
        self.enqueue(NetworkCommand::DialPeer { peer: peer_id });
    }

    /// Adds the local node to a topic's delivery set. Fire-and-forget.
    pub fn subscribe(&mut self, topic: NetworkTopic)
        ensures
            final(self).pending() == old(self).pending().push(
                CommandView::Subscribe { topic: topic@ },
            ),
            final(self).inbox() == old(self).inbox(),
            final(self).spec_local_peer_id() == old(self).spec_local_peer_id(),
    {
        self.enqueue(NetworkCommand::Subscribe { topic });
    }

    /// Removes the local node from a topic's delivery set. Fire-and-forget.
    pub fn unsubscribe(&mut self, topic: NetworkTopic)
        ensures
            final(self).pending() == old(self).pending().push(
                CommandView::Unsubscribe { topic: topic@ },
            ),
            final(self).inbox() == old(self).inbox(),
            final(self).spec_local_peer_id() == old(self).spec_local_peer_id(),
    {
        self.enqueue(NetworkCommand::Unsubscribe { topic });
    }

    /// Broadcasts payload bytes on a topic. Fire-and-forget.
    pub fn publish(&mut self, topic: NetworkTopic, data: Vec<u8>)
        ensures
            final(self).pending() == old(self).pending().push(
                CommandView::Publish { topic: topic@, data: data@ },
            ),
            final(self).inbox() == old(self).inbox(),
            final(self).spec_local_peer_id() == old(self).spec_local_peer_id(),
    {
        self.enqueue(NetworkCommand::Publish { topic, data });
    }

    /// Hands the queued commands to the actor, oldest first, emptying the
    /// queue.
    pub fn take_commands(&mut self) -> (r: Vec<NetworkCommand>)
        ensures
            r@.map_values(|c: NetworkCommand| c@) == old(self).pending(),
            final(self).pending() == Seq::<CommandView>::empty(),
            final(self).inbox() == old(self).inbox(),
            final(self).spec_local_peer_id() == old(self).spec_local_peer_id(),
    {
        let mut r: Vec<NetworkCommand> = Vec::new();
        core::mem::swap(&mut r, &mut self.commands);
        proof {
            assert(self.pending() =~= Seq::<CommandView>::empty());
        }
        r
    }

    /// Records an event arriving from the actor at the back of the inbox.
    pub fn push_event(&mut self, event: NetworkEvent)
        ensures
            final(self).inbox() == old(self).inbox().push(event@),
            final(self).pending() == old(self).pending(),
            final(self).spec_local_peer_id() == old(self).spec_local_peer_id(),
    {
        let ghost old_events = self.events@;
        let ghost ev = event@;
        self.events.push(event);
        proof {
            assert(self.events@ =~= old_events.push(event));
            assert(self.inbox() =~= old(self).inbox().push(ev));
        }
    }

    /// Drains all currently queued inbound events into the frame's event
    /// stream, preserving arrival order, and empties the inbox.
    pub fn drain_events(&mut self) -> (r: Vec<NetworkEvent>)
        ensures
            r@.map_values(|e: NetworkEvent| e@) == old(self).inbox(),
            final(self).inbox() == Seq::<EventView>::empty(),
            final(self).pending() == old(self).pending(),
            final(self).spec_local_peer_id() == old(self).spec_local_peer_id(),
    {
        let mut r: Vec<NetworkEvent> = Vec::new();
        core::mem::swap(&mut r, &mut self.events);
        proof {
            assert(self.inbox() =~= Seq::<EventView>::empty());
        }
        r
    }
}

} // verus!
