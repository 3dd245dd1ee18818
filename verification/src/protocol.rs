//! The party replication protocol.
//!
//! Host-authoritative membership and chat over five publish/subscribe
//! topics. The host answers each join request by inserting the player and
//! broadcasting both the full party snapshot and the single joined
//! player; a joining client publishes its join request on connection,
//! adopts the accepted snapshot (re-seating its own entry verbatim), and
//! routes every failure through the cleanup path back to the main menu.
//! Handlers check the current state before acting, so events that arrive
//! after a state transition are tolerated as no-ops.

use vstd::prelude::*;

use vstd::pervasive::unreached;
use vstd::string::StrSliceExecFns;
use vstd::utf8::{decode_utf8, encode_utf8, valid_utf8};

use crate::flow::{begin_cleanup, AppState, CleanupConfig, GameState};
use crate::ident::{peer_text, Player, PlayerId};
use crate::manager::{CommandView, EventView, NetworkAddress, NetworkEvent, NetworkManager};
use crate::party::{members_map, seq_insert, Party};
use crate::topic::NetworkTopic;
use crate::wire::{
    decode_party, decode_player, encode_party, encode_player, host_text_among,
    member_texts_unique, spec_decode_player, spec_encode_party, spec_encode_player,
    spec_party_frame, texts_are_peers, WireError,
};

verus! {

// ---------------------------------------------------------------------
// Topics
// ---------------------------------------------------------------------

/// The chat fan-out topic.
pub fn chat_topic() -> (t: NetworkTopic)
    ensures
        t@ == "chat"@,
{
    NetworkTopic::new("chat")
}

/// The incremental membership broadcast topic.
pub fn joined_topic() -> (t: NetworkTopic)
    ensures
        t@ == "joined"@,
{
    NetworkTopic::new("joined")
}

/// The topic on which clients request to join.
pub fn join_request_topic() -> (t: NetworkTopic)
    ensures
        t@ == "join_request"@,
{
    NetworkTopic::new("join_request")
}

/// The topic carrying accepted-join party snapshots.
pub fn join_accepted_topic() -> (t: NetworkTopic)
    ensures
        t@ == "join_accepted"@,
{
    NetworkTopic::new("join_accepted")
}

/// The topic carrying plaintext join rejections.
pub fn join_rejected_topic() -> (t: NetworkTopic)
    ensures
        t@ == "join_rejected"@,
{
    NetworkTopic::new("join_rejected")
}

// ---------------------------------------------------------------------
// The protocol state, mathematically
// ---------------------------------------------------------------------

/// The state a protocol handler reads and writes: the party (host and
/// member entries in insertion order), the application state, the pending
/// cleanup destination, and the commands queued so far.
pub struct ProtoView {
    pub host: libp2p::PeerId,
    pub members: Seq<(libp2p::PeerId, Seq<char>)>,
    pub state: AppState,
    pub cleanup: Option<AppState>,
    pub pending: Seq<CommandView>,
}

/// The protocol state captured from the concrete resources.
pub open spec fn proto_view(
    party: Party,
    app_state: GameState,
    cleanup_config: CleanupConfig,
    network_manager: NetworkManager,
) -> ProtoView {
    ProtoView {
        host: party.spec_host(),
        members: party.players_seq(),
        state: app_state.spec_current(),
        cleanup: cleanup_config.next_state_after_cleanup,
        pending: network_manager.pending(),
    }
}

/// The display name at `k`'s entry.
pub open spec fn name_of(ms: Seq<(libp2p::PeerId, Seq<char>)>, k: libp2p::PeerId) -> Seq<char> {
    members_map(ms)[k]
}

/// The protocol state after requesting teardown back to the main menu.
pub open spec fn cleanup_to_menu(pre: ProtoView) -> ProtoView {
    ProtoView {
        host: pre.host,
        members: pre.members,
        state: AppState::Cleanup,
        cleanup: Some(AppState::MainMenu),
        pending: pre.pending,
    }
}

/// Whether a payload is exactly one player record whose identity parses.
pub open spec fn player_payload_ok(data: Seq<u8>) -> bool {
    spec_decode_player(data) matches Some(d) && d.1.len() == 0 && (exists|p: libp2p::PeerId|
        peer_text(p) == d.0.0)
}

/// Whether a payload is exactly one well-formed party snapshot.
pub open spec fn party_payload_ok(data: Seq<u8>) -> bool {
    spec_party_frame(data) matches Some(hm) && texts_are_peers(hm.0, hm.1) && member_texts_unique(
        hm.1,
    ) && host_text_among(hm.0, hm.1)
}

/// The reason published when a join request is rejected.
pub open spec fn player_reject_reason(data: Seq<u8>) -> Seq<char> {
    if !(spec_decode_player(data) matches Some(d) && d.1.len() == 0) {
        WireError::Malformed.spec_describe()
    } else {
        WireError::UnknownPeer.spec_describe()
    }
}

/// A decoded party snapshot (host and members) matching the frame of
/// `data` text for text.
pub open spec fn snapshot_matches_frame(
    snapshot: (libp2p::PeerId, Seq<(libp2p::PeerId, Seq<char>)>),
    data: Seq<u8>,
) -> bool {
    spec_party_frame(data) matches Some(hm) && {
        &&& peer_text(snapshot.0) == hm.0
        &&& snapshot.1.len() == hm.1.len()
        &&& forall|i: int|
            #![trigger snapshot.1[i]]
            0 <= i < hm.1.len() ==> peer_text(snapshot.1[i].0) == hm.1[i].0 && snapshot.1[i].1
                == hm.1[i].1
    }
}

// ---------------------------------------------------------------------
// The joining-client flow
// ---------------------------------------------------------------------

/// The accepted-join outcome: the local party is replaced by the decoded
/// snapshot with the client's own entry re-inserted verbatim, the join
/// handshake subscriptions are dropped in favour of the incremental
/// topic, and the client enters the lobby.
pub open spec fn join_accept_ok(pre: ProtoView, data: Seq<u8>, post: ProtoView) -> bool {
    exists|snapshot: (libp2p::PeerId, Seq<(libp2p::PeerId, Seq<char>)>)|
        #[trigger] snapshot_matches_frame(snapshot, data) && post == (ProtoView {
            host: snapshot.0,
            members: seq_insert(snapshot.1, pre.host, name_of(pre.members, pre.host)),
            state: AppState::InLobby,
            cleanup: pre.cleanup,
            pending: pre.pending.push(
                CommandView::Unsubscribe { topic: "join_accepted"@ },
            ).push(CommandView::Unsubscribe { topic: "join_rejected"@ }).push(
                CommandView::Subscribe { topic: "joined"@ },
            ),
        })
}

/// One step of the joining-client flow. Outside `JoiningLobby` every
/// event is a no-op. A completed connection triggers the join request
/// (the client's own entry, which is seated at the provisional host
/// slot). An unreachable address, a rejection, or a bad snapshot routes
/// to the main menu through cleanup. A good snapshot seats the party and
/// enters the lobby.
pub open spec fn join_flow_step(pre: ProtoView, ev: EventView, post: ProtoView) -> bool {
    if pre.state != AppState::JoiningLobby {
        post == pre
    } else {
        match ev {
            EventView::ConnectionEstablished { .. } => post == (ProtoView {
                host: pre.host,
                members: pre.members,
                state: pre.state,
                cleanup: pre.cleanup,
                pending: pre.pending.push(
                    CommandView::Publish {
                        topic: "join_request"@,
                        data: spec_encode_player(pre.host, name_of(pre.members, pre.host)),
                    },
                ),
            }),
            EventView::UnreachableAddr { .. } => post == cleanup_to_menu(pre),
            EventView::Message { topic, source, data } => {
                if topic == "join_accepted"@ {
                    if party_payload_ok(data) {
                        join_accept_ok(pre, data, post)
                    } else {
                        post == cleanup_to_menu(pre)
                    }
                } else if topic == "join_rejected"@ {
                    post == cleanup_to_menu(pre)
                } else {
                    post == pre
                }
            },
            EventView::Lifecycle => post == pre,
        }
    }
}

/// Reacts to one event while joining a lobby.
pub fn handle_join_lobby_event(
    party: &mut Party,
    cleanup_config: &mut CleanupConfig,
    app_state: &mut GameState,
    network_manager: &mut NetworkManager,
    event: &NetworkEvent,
)
    requires
        old(party).wf(),
    ensures
        final(party).wf(),
        join_flow_step(
            proto_view(*old(party), *old(app_state), *old(cleanup_config), *old(network_manager)),
            event@,
            proto_view(
                *final(party),
                *final(app_state),
                *final(cleanup_config),
                *final(network_manager),
            ),
        ),
        final(network_manager).inbox() == old(network_manager).inbox(),
        final(network_manager).spec_local_peer_id() == old(network_manager).spec_local_peer_id(),
{
    if app_state.current() != AppState::JoiningLobby {
        return ;
    }
    match event {
        NetworkEvent::ConnectionEstablished { .. } => {
            let host_id = party.host_id();
            let data = match party.get(&host_id) {
                Some(own) => encode_player(own),
                None => unreached(),
            };
            network_manager.publish(join_request_topic(), data);
        },
        NetworkEvent::UnreachableAddr { .. } => {
            begin_cleanup(cleanup_config, app_state, AppState::MainMenu);
        },
        NetworkEvent::Message { topic, source, data } => {
            if join_accepted_topic().routes(topic) {
                match decode_party(data.as_slice()) {
                    Ok(new_party) => {
                        let ghost snap_host = new_party.spec_host();
                        let ghost snap_seq = new_party.players_seq();
                        let host_id = party.host_id();
                        let own = match party.remove(&host_id) {
                            Some(own) => own,
                            None => unreached(),
                        };
                        *party = new_party;
                        party.insert(own);
                        network_manager.unsubscribe(join_accepted_topic());
                        network_manager.unsubscribe(join_rejected_topic());
                        network_manager.subscribe(joined_topic());
                        app_state.set(AppState::InLobby);
                        proof {
                            assert(snapshot_matches_frame((snap_host, snap_seq), data@));
                        }
                    },
                    Err(_) => {
                        begin_cleanup(cleanup_config, app_state, AppState::MainMenu);
                    },
                }
            } else if join_rejected_topic().routes(topic) {
                begin_cleanup(cleanup_config, app_state, AppState::MainMenu);
            }
        },
        NetworkEvent::Lifecycle => (),
    }
}

// ---------------------------------------------------------------------
// The host flow
// ---------------------------------------------------------------------

/// The accepted-request outcome: the player is inserted (overwriting any
/// entry under the same identity), the updated snapshot is published on
/// the accepted topic, and the single player's original payload is
/// re-published on the incremental topic.
pub open spec fn host_accept_ok(pre: ProtoView, data: Seq<u8>, post: ProtoView) -> bool {
    exists|p: libp2p::PeerId|
        #![trigger peer_text(p)]
        spec_decode_player(data) matches Some(d) && peer_text(p) == d.0.0 && post == (ProtoView {
            host: pre.host,
            members: seq_insert(pre.members, p, d.0.1),
            state: pre.state,
            cleanup: pre.cleanup,
            pending: pre.pending.push(
                CommandView::Publish {
                    topic: "join_accepted"@,
                    data: spec_encode_party(pre.host, seq_insert(pre.members, p, d.0.1)),
                },
            ).push(CommandView::Publish { topic: "joined"@, data: data }),
        })
}

/// One step of the host flow. Only the host acts, only in the lobby, and
/// only on join requests: a parseable player is admitted, anything else
/// is answered with a plaintext rejection and leaves the party untouched.
pub open spec fn host_step(
    pre: ProtoView,
    local: libp2p::PeerId,
    ev: EventView,
    post: ProtoView,
) -> bool {
    if pre.state != AppState::InLobby || pre.host != local {
        post == pre
    } else {
        match ev {
            EventView::Message { topic, source, data } => {
                if topic == "join_request"@ {
                    if player_payload_ok(data) {
                        host_accept_ok(pre, data, post)
                    } else {
                        post == (ProtoView {
                            host: pre.host,
                            members: pre.members,
                            state: pre.state,
                            cleanup: pre.cleanup,
                            pending: pre.pending.push(
                                CommandView::Publish {
                                    topic: "join_rejected"@,
                                    data: encode_utf8(player_reject_reason(data)),
                                },
                            ),
                        })
                    }
                } else {
                    post == pre
                }
            },
            _ => post == pre,
        }
    }
}

/// Reacts to one event as the party's host.
pub fn handle_host_event(
    party: &mut Party,
    app_state: &GameState,
    cleanup_config: &CleanupConfig,
    network_manager: &mut NetworkManager,
    event: &NetworkEvent,
)
    requires
        old(party).wf(),
    ensures
        final(party).wf(),
        host_step(
            proto_view(*old(party), *app_state, *cleanup_config, *old(network_manager)),
            old(network_manager).spec_local_peer_id(),
            event@,
            proto_view(*final(party), *app_state, *cleanup_config, *final(network_manager)),
        ),
        final(network_manager).inbox() == old(network_manager).inbox(),
        final(network_manager).spec_local_peer_id() == old(network_manager).spec_local_peer_id(),
{
    if app_state.current() != AppState::InLobby {
        return ;
    }
    let local = PlayerId::new(network_manager.local_peer_id());
    if !(party.host_id() == local) {
        return ;
    }
    match event {
        NetworkEvent::Message { topic, source, data } => {
            if join_request_topic().routes(topic) {
                match decode_player(data.as_slice()) {
                    Ok(player) => {
                        let ghost p = player.id@;
                        let ghost pname = player.name@;
                        party.insert(player);
                        let snapshot = encode_party(party);
                        network_manager.publish(join_accepted_topic(), snapshot);
                        let echo = vstd::slice::slice_to_vec(data.as_slice());
                        network_manager.publish(joined_topic(), echo);
                        proof {
                            assert(peer_text(p) == spec_decode_player(data@).unwrap().0.0);
                        }
                    },
                    Err(err) => {
                        let reason = err.describe();
                        let reason_bytes = reason.as_str().as_bytes_vec();
                        network_manager.publish(join_rejected_topic(), reason_bytes);
                    },
                }
            }
        },
        _ => (),
    }
}

// ---------------------------------------------------------------------
// The steady-state client flow
// ---------------------------------------------------------------------

/// One step of the steady-state client flow: a non-host in the lobby
/// inserts each player announced on the incremental topic; a payload that
/// does not parse is ignored. Membership only grows: no departure message
/// exists in the protocol.
pub open spec fn client_step(
    pre: ProtoView,
    local: libp2p::PeerId,
    ev: EventView,
    post: ProtoView,
) -> bool {
    if pre.state != AppState::InLobby || pre.host == local {
        post == pre
    } else {
        match ev {
            EventView::Message { topic, source, data } => {
                if topic == "joined"@ && player_payload_ok(data) {
                    exists|p: libp2p::PeerId|
                        #![trigger peer_text(p)]
                        spec_decode_player(data) matches Some(d) && peer_text(p) == d.0.0 && post
                            == (ProtoView {
                            host: pre.host,
                            members: seq_insert(pre.members, p, d.0.1),
                            state: pre.state,
                            cleanup: pre.cleanup,
                            pending: pre.pending,
                        })
                } else {
                    post == pre
                }
            },
            _ => post == pre,
        }
    }
}

/// Reacts to one event as a non-host lobby member.
pub fn handle_client_event(
    party: &mut Party,
    app_state: &GameState,
    cleanup_config: &CleanupConfig,
    network_manager: &NetworkManager,
    event: &NetworkEvent,
)
    requires
        old(party).wf(),
    ensures
        final(party).wf(),
        client_step(
            proto_view(*old(party), *app_state, *cleanup_config, *network_manager),
            network_manager.spec_local_peer_id(),
            event@,
            proto_view(*final(party), *app_state, *cleanup_config, *network_manager),
        ),
{
    if app_state.current() != AppState::InLobby {
        return ;
    }
    let local = PlayerId::new(network_manager.local_peer_id());
    if party.host_id() == local {
        return ;
    }
    match event {
        NetworkEvent::Message { topic, source, data } => {
            if joined_topic().routes(topic) {
                match decode_player(data.as_slice()) {
                    Ok(player) => {
                        let ghost p = player.id@;
                        proof {
                            assert(peer_text(p) == spec_decode_player(data@).unwrap().0.0);
                        }
                        party.insert(player);
                    },
                    Err(_) => (),
                }
            }
        },
        _ => (),
    }
}

// ---------------------------------------------------------------------
// Chat
// ---------------------------------------------------------------------

/// One chat message shown in the lobby: the sender's display name and the
/// text.
pub struct ChatMessage {
    pub player_name: String,
    pub text: String,
}

/// The chat history accumulated this lobby session.
pub struct ChatLog {
    entries: Vec<ChatMessage>,
}

impl ChatLog {
    /// The history: (sender name, text) in arrival order.
    pub closed spec fn log(self) -> Seq<(Seq<char>, Seq<char>)> {
        self.entries@.map_values(|m: ChatMessage| (m.player_name@, m.text@))
    }

    /// An empty history.
    pub fn new() -> (r: ChatLog)
        ensures
            r.log() == Seq::<(Seq<char>, Seq<char>)>::empty(),
    {
        let r = ChatLog { entries: Vec::new() };
        proof {
            assert(r.log() =~= Seq::<(Seq<char>, Seq<char>)>::empty());
        }
        r
    }

    /// The history entries.
    pub fn entries(&self) -> (r: &Vec<ChatMessage>)
        ensures
            r@.map_values(|m: ChatMessage| (m.player_name@, m.text@)) == self.log(),
    {
        &self.entries
    }

    fn push(&mut self, entry: ChatMessage)
        ensures
            final(self).log() == old(self).log().push((entry.player_name@, entry.text@)),
    {
        let ghost before = self.entries@;
        self.entries.push(entry);
        proof {
            assert(self.entries@ =~= before.push(entry));
            assert(self.log() =~= old(self).log().push((entry.player_name@, entry.text@)));
        }
    }
}

/// One step of chat reception: in the lobby, a sourced chat message from
/// a known party member with valid UTF-8 text is appended to the history
/// under the sender's display name; everything else is ignored.
pub open spec fn chat_step(
    pre_log: Seq<(Seq<char>, Seq<char>)>,
    members: Seq<(libp2p::PeerId, Seq<char>)>,
    state: AppState,
    ev: EventView,
    post_log: Seq<(Seq<char>, Seq<char>)>,
) -> bool {
    if state != AppState::InLobby {
        post_log == pre_log
    } else {
        match ev {
            EventView::Message { topic, source, data } => {
                if topic == "chat"@ && (source matches Some(p) && members_map(
                    members,
                ).contains_key(p) && valid_utf8(data)) {
                    post_log == pre_log.push(
                        (name_of(members, source.unwrap()), decode_utf8(data)),
                    )
                } else {
                    post_log == pre_log
                }
            },
            _ => post_log == pre_log,
        }
    }
}

/// Appends one inbound chat message to the history.
pub fn receive_chat_message(
    party: &Party,
    app_state: &GameState,
    chat_log: &mut ChatLog,
    event: &NetworkEvent,
)
    requires
        party.wf(),
    ensures
        chat_step(
            old(chat_log).log(),
            party.players_seq(),
            app_state.spec_current(),
            event@,
            final(chat_log).log(),
        ),
{
    if app_state.current() != AppState::InLobby {
        return ;
    }
    match event {
        NetworkEvent::Message { topic, source, data } => {
            if chat_topic().routes(topic) {
                match source {
                    Some(peer) => {
                        let sender = PlayerId::new(*peer);
                        match party.get(&sender) {
                            Some(player) => {
                                match crate::wire::bytes_to_str(data.as_slice()) {
                                    Some(text) => {
                                        proof {
                                            vstd::utf8::encode_utf8_decode_utf8(text@);
                                        }
                                        let entry = ChatMessage {
                                            player_name: player.name.clone(),
                                            text: text.to_owned(),
                                        };
                                        chat_log.push(entry);
                                    },
                                    None => (),
                                }
                            },
                            None => (),
                        }
                    },
                    None => (),
                }
            }
        },
        _ => (),
    }
}

// ---------------------------------------------------------------------
// Lobby UI intents
// ---------------------------------------------------------------------

/// What the lobby surface asks the protocol to do.
pub enum LobbyUIEvent {
    /// Leave the lobby and return to the main menu.
    Leave,
    /// Broadcast a chat message.
    SendChatMessage(String),
}

impl View for LobbyUIEvent {
    type V = LobbyUIEventView;

    open spec fn view(&self) -> LobbyUIEventView {
        match self {
            LobbyUIEvent::Leave => LobbyUIEventView::Leave,
            LobbyUIEvent::SendChatMessage(m) => LobbyUIEventView::SendChatMessage { text: m@ },
        }
    }
}

/// The mathematical value of a lobby UI intent.
pub enum LobbyUIEventView {
    Leave,
    SendChatMessage { text: Seq<char> },
}

/// One step of lobby intent handling: leaving routes to the main menu
/// through cleanup (a no-op if teardown already started); a chat message
/// is broadcast as its UTF-8 bytes.
pub open spec fn lobby_ui_step(pre: ProtoView, ev: LobbyUIEventView, post: ProtoView) -> bool {
    match ev {
        LobbyUIEventView::Leave => {
            if pre.state != AppState::Cleanup {
                post == cleanup_to_menu(pre)
            } else {
                post == pre
            }
        },
        LobbyUIEventView::SendChatMessage { text } => post == (ProtoView {
            host: pre.host,
            members: pre.members,
            state: pre.state,
            cleanup: pre.cleanup,
            pending: pre.pending.push(
                CommandView::Publish { topic: "chat"@, data: encode_utf8(text) },
            ),
        }),
    }
}

/// Carries out one lobby intent.
pub fn handle_lobby_ui_event(
    party: &Party,
    cleanup_config: &mut CleanupConfig,
    app_state: &mut GameState,
    network_manager: &mut NetworkManager,
    event: &LobbyUIEvent,
)
    ensures
        lobby_ui_step(
            proto_view(*party, *old(app_state), *old(cleanup_config), *old(network_manager)),
            event@,
            proto_view(*party, *final(app_state), *final(cleanup_config), *final(network_manager)),
        ),
        final(network_manager).inbox() == old(network_manager).inbox(),
        final(network_manager).spec_local_peer_id() == old(network_manager).spec_local_peer_id(),
{
    match event {
        LobbyUIEvent::Leave => {
            if app_state.current() != AppState::Cleanup {
                begin_cleanup(cleanup_config, app_state, AppState::MainMenu);
            }
        },
        LobbyUIEvent::SendChatMessage(message) => {
            let data = message.as_str().as_bytes_vec();
            network_manager.publish(chat_topic(), data);
        },
    }
}

// ---------------------------------------------------------------------
// Whole-frame handling: one step per drained event, in arrival order
// ---------------------------------------------------------------------

/// `post` is reachable from `pre` by stepping through `evs` in order.
pub open spec fn join_flow_steps(pre: ProtoView, evs: Seq<EventView>, post: ProtoView) -> bool
    decreases evs.len(),
{
    if evs.len() == 0 {
        post == pre
    } else {
        exists|mid: ProtoView|
            #[trigger] join_flow_step(pre, evs.first(), mid) && join_flow_steps(
                mid,
                evs.drop_first(),
                post,
            )
    }
}

proof fn lemma_join_flow_steps_snoc(
    pre: ProtoView,
    evs: Seq<EventView>,
    mid: ProtoView,
    ev: EventView,
    post: ProtoView,
)
    requires
        join_flow_steps(pre, evs, mid),
        join_flow_step(mid, ev, post),
    ensures
        join_flow_steps(pre, evs.push(ev), post),
    decreases evs.len(),
{
    if evs.len() == 0 {
        assert(evs.push(ev).drop_first() =~= Seq::<EventView>::empty());
        assert(join_flow_steps(post, Seq::<EventView>::empty(), post));
        assert(join_flow_step(pre, evs.push(ev).first(), post));
    } else {
        let m1 = choose|m: ProtoView|
            #[trigger] join_flow_step(pre, evs.first(), m) && join_flow_steps(
                m,
                evs.drop_first(),
                mid,
            );
        lemma_join_flow_steps_snoc(m1, evs.drop_first(), mid, ev, post);
        assert(evs.push(ev).drop_first() =~= evs.drop_first().push(ev));
        assert(join_flow_step(pre, evs.push(ev).first(), m1));
    }
}

/// Reacts to one frame's drained events while joining a lobby, in
/// arrival order.
pub fn handle_join_lobby_events(
    party: &mut Party,
    cleanup_config: &mut CleanupConfig,
    app_state: &mut GameState,
    network_manager: &mut NetworkManager,
    events: &Vec<NetworkEvent>,
)
    requires
        old(party).wf(),
    ensures
        final(party).wf(),
        join_flow_steps(
            proto_view(*old(party), *old(app_state), *old(cleanup_config), *old(network_manager)),
            events@.map_values(|e: NetworkEvent| e@),
            proto_view(
                *final(party),
                *final(app_state),
                *final(cleanup_config),
                *final(network_manager),
            ),
        ),
        final(network_manager).inbox() == old(network_manager).inbox(),
        final(network_manager).spec_local_peer_id() == old(network_manager).spec_local_peer_id(),
{
    let ghost pre = proto_view(
        *old(party),
        *old(app_state),
        *old(cleanup_config),
        *old(network_manager),
    );
    let ghost evs = events@.map_values(|e: NetworkEvent| e@);
    let n = events.len();
    let mut i: usize = 0;
    proof {
        assert(evs.take(0) =~= Seq::<EventView>::empty());
    }
    while i < n
        invariant
            0 <= i <= n,
            n == events@.len(),
            evs == events@.map_values(|e: NetworkEvent| e@),
            party.wf(),
            join_flow_steps(
                pre,
                evs.take(i as int),
                proto_view(*party, *app_state, *cleanup_config, *network_manager),
            ),
            network_manager.inbox() == old(network_manager).inbox(),
            network_manager.spec_local_peer_id() == old(network_manager).spec_local_peer_id(),
            pre == proto_view(
                *old(party),
                *old(app_state),
                *old(cleanup_config),
                *old(network_manager),
            ),
        decreases n - i,
    {
        let ghost mid = proto_view(*party, *app_state, *cleanup_config, *network_manager);
        handle_join_lobby_event(party, cleanup_config, app_state, network_manager, &events[i]);
        proof {
            lemma_join_flow_steps_snoc(
                pre,
                evs.take(i as int),
                mid,
                evs[i as int],
                proto_view(*party, *app_state, *cleanup_config, *network_manager),
            );
            assert(evs.take(i + 1 as int) =~= evs.take(i as int).push(evs[i as int]));
        }
        i = i + 1;
    }
    proof {
        assert(evs.take(n as int) =~= evs);
    }
}

/// `post` is reachable from `pre` by host steps through `evs` in order.
pub open spec fn host_steps(
    pre: ProtoView,
    local: libp2p::PeerId,
    evs: Seq<EventView>,
    post: ProtoView,
) -> bool
    decreases evs.len(),
{
    if evs.len() == 0 {
        post == pre
    } else {
        exists|mid: ProtoView|
            #[trigger] host_step(pre, local, evs.first(), mid) && host_steps(
                mid,
                local,
                evs.drop_first(),
                post,
            )
    }
}

proof fn lemma_host_steps_snoc(
    pre: ProtoView,
    local: libp2p::PeerId,
    evs: Seq<EventView>,
    mid: ProtoView,
    ev: EventView,
    post: ProtoView,
)
    requires
        host_steps(pre, local, evs, mid),
        host_step(mid, local, ev, post),
    ensures
        host_steps(pre, local, evs.push(ev), post),
    decreases evs.len(),
{
    if evs.len() == 0 {
        assert(evs.push(ev).drop_first() =~= Seq::<EventView>::empty());
        assert(host_steps(post, local, Seq::<EventView>::empty(), post));
        assert(host_step(pre, local, evs.push(ev).first(), post));
    } else {
        let m1 = choose|m: ProtoView|
            #[trigger] host_step(pre, local, evs.first(), m) && host_steps(
                m,
                local,
                evs.drop_first(),
                mid,
            );
        lemma_host_steps_snoc(m1, local, evs.drop_first(), mid, ev, post);
        assert(evs.push(ev).drop_first() =~= evs.drop_first().push(ev));
        assert(host_step(pre, local, evs.push(ev).first(), m1));
    }
}

/// Reacts to one frame's drained events as the party's host, in arrival
/// order.
pub fn handle_host_events(
    party: &mut Party,
    app_state: &GameState,
    cleanup_config: &CleanupConfig,
    network_manager: &mut NetworkManager,
    events: &Vec<NetworkEvent>,
)
    requires
        old(party).wf(),
    ensures
        final(party).wf(),
        host_steps(
            proto_view(*old(party), *app_state, *cleanup_config, *old(network_manager)),
            old(network_manager).spec_local_peer_id(),
            events@.map_values(|e: NetworkEvent| e@),
            proto_view(*final(party), *app_state, *cleanup_config, *final(network_manager)),
        ),
        final(network_manager).inbox() == old(network_manager).inbox(),
        final(network_manager).spec_local_peer_id() == old(network_manager).spec_local_peer_id(),
{
    let ghost pre = proto_view(*old(party), *app_state, *cleanup_config, *old(network_manager));
    let ghost local = old(network_manager).spec_local_peer_id();
    let ghost evs = events@.map_values(|e: NetworkEvent| e@);
    let n = events.len();
    let mut i: usize = 0;
    proof {
        assert(evs.take(0) =~= Seq::<EventView>::empty());
    }
    while i < n
        invariant
            0 <= i <= n,
            n == events@.len(),
            evs == events@.map_values(|e: NetworkEvent| e@),
            party.wf(),
            host_steps(
                pre,
                local,
                evs.take(i as int),
                proto_view(*party, *app_state, *cleanup_config, *network_manager),
            ),
            network_manager.inbox() == old(network_manager).inbox(),
            network_manager.spec_local_peer_id() == local,
            pre == proto_view(*old(party), *app_state, *cleanup_config, *old(network_manager)),
        decreases n - i,
    {
        let ghost mid = proto_view(*party, *app_state, *cleanup_config, *network_manager);
        handle_host_event(party, app_state, cleanup_config, network_manager, &events[i]);
        proof {
            lemma_host_steps_snoc(
                pre,
                local,
                evs.take(i as int),
                mid,
                evs[i as int],
                proto_view(*party, *app_state, *cleanup_config, *network_manager),
            );
            assert(evs.take(i + 1 as int) =~= evs.take(i as int).push(evs[i as int]));
        }
        i = i + 1;
    }
    proof {
        assert(evs.take(n as int) =~= evs);
    }
}

/// `post` is reachable from `pre` by client steps through `evs` in order.
pub open spec fn client_steps(
    pre: ProtoView,
    local: libp2p::PeerId,
    evs: Seq<EventView>,
    post: ProtoView,
) -> bool
    decreases evs.len(),
{
    if evs.len() == 0 {
        post == pre
    } else {
        exists|mid: ProtoView|
            #[trigger] client_step(pre, local, evs.first(), mid) && client_steps(
                mid,
                local,
                evs.drop_first(),
                post,
            )
    }
}

proof fn lemma_client_steps_snoc(
    pre: ProtoView,
    local: libp2p::PeerId,
    evs: Seq<EventView>,
    mid: ProtoView,
    ev: EventView,
    post: ProtoView,
)
    requires
        client_steps(pre, local, evs, mid),
        client_step(mid, local, ev, post),
    ensures
        client_steps(pre, local, evs.push(ev), post),
    decreases evs.len(),
{
    if evs.len() == 0 {
        assert(evs.push(ev).drop_first() =~= Seq::<EventView>::empty());
        assert(client_steps(post, local, Seq::<EventView>::empty(), post));
        assert(client_step(pre, local, evs.push(ev).first(), post));
    } else {
        let m1 = choose|m: ProtoView|
            #[trigger] client_step(pre, local, evs.first(), m) && client_steps(
                m,
                local,
                evs.drop_first(),
                mid,
            );
        lemma_client_steps_snoc(m1, local, evs.drop_first(), mid, ev, post);
        assert(evs.push(ev).drop_first() =~= evs.drop_first().push(ev));
        assert(client_step(pre, local, evs.push(ev).first(), m1));
    }
}

/// Reacts to one frame's drained events as a non-host member, in arrival
/// order.
pub fn handle_client_events(
    party: &mut Party,
    app_state: &GameState,
    cleanup_config: &CleanupConfig,
    network_manager: &NetworkManager,
    events: &Vec<NetworkEvent>,
)
    requires
        old(party).wf(),
    ensures
        final(party).wf(),
        client_steps(
            proto_view(*old(party), *app_state, *cleanup_config, *network_manager),
            network_manager.spec_local_peer_id(),
            events@.map_values(|e: NetworkEvent| e@),
            proto_view(*final(party), *app_state, *cleanup_config, *network_manager),
        ),
{
    let ghost pre = proto_view(*old(party), *app_state, *cleanup_config, *network_manager);
    let ghost local = network_manager.spec_local_peer_id();
    let ghost evs = events@.map_values(|e: NetworkEvent| e@);
    let n = events.len();
    let mut i: usize = 0;
    proof {
        assert(evs.take(0) =~= Seq::<EventView>::empty());
    }
    while i < n
        invariant
            0 <= i <= n,
            n == events@.len(),
            evs == events@.map_values(|e: NetworkEvent| e@),
            party.wf(),
            client_steps(
                pre,
                local,
                evs.take(i as int),
                proto_view(*party, *app_state, *cleanup_config, *network_manager),
            ),
            local == network_manager.spec_local_peer_id(),
            pre == proto_view(*old(party), *app_state, *cleanup_config, *network_manager),
        decreases n - i,
    {
        let ghost mid = proto_view(*party, *app_state, *cleanup_config, *network_manager);
        handle_client_event(party, app_state, cleanup_config, network_manager, &events[i]);
        proof {
            lemma_client_steps_snoc(
                pre,
                local,
                evs.take(i as int),
                mid,
                evs[i as int],
                proto_view(*party, *app_state, *cleanup_config, *network_manager),
            );
            assert(evs.take(i + 1 as int) =~= evs.take(i as int).push(evs[i as int]));
        }
        i = i + 1;
    }
    proof {
        assert(evs.take(n as int) =~= evs);
    }
}

/// `post_log` is reachable from `pre_log` by chat steps through `evs`.
pub open spec fn chat_steps(
    pre_log: Seq<(Seq<char>, Seq<char>)>,
    members: Seq<(libp2p::PeerId, Seq<char>)>,
    state: AppState,
    evs: Seq<EventView>,
    post_log: Seq<(Seq<char>, Seq<char>)>,
) -> bool
    decreases evs.len(),
{
    if evs.len() == 0 {
        post_log == pre_log
    } else {
        exists|mid: Seq<(Seq<char>, Seq<char>)>|
            #[trigger] chat_step(pre_log, members, state, evs.first(), mid) && chat_steps(
                mid,
                members,
                state,
                evs.drop_first(),
                post_log,
            )
    }
}

proof fn lemma_chat_steps_snoc(
    pre_log: Seq<(Seq<char>, Seq<char>)>,
    members: Seq<(libp2p::PeerId, Seq<char>)>,
    state: AppState,
    evs: Seq<EventView>,
    mid: Seq<(Seq<char>, Seq<char>)>,
    ev: EventView,
    post_log: Seq<(Seq<char>, Seq<char>)>,
)
    requires
        chat_steps(pre_log, members, state, evs, mid),
        chat_step(mid, members, state, ev, post_log),
    ensures
        chat_steps(pre_log, members, state, evs.push(ev), post_log),
    decreases evs.len(),
{
    if evs.len() == 0 {
        assert(evs.push(ev).drop_first() =~= Seq::<EventView>::empty());
        assert(chat_steps(post_log, members, state, Seq::<EventView>::empty(), post_log));
        assert(chat_step(pre_log, members, state, evs.push(ev).first(), post_log));
    } else {
        let m1 = choose|m: Seq<(Seq<char>, Seq<char>)>|
            #[trigger] chat_step(pre_log, members, state, evs.first(), m) && chat_steps(
                m,
                members,
                state,
                evs.drop_first(),
                mid,
            );
        lemma_chat_steps_snoc(m1, members, state, evs.drop_first(), mid, ev, post_log);
        assert(evs.push(ev).drop_first() =~= evs.drop_first().push(ev));
        assert(chat_step(pre_log, members, state, evs.push(ev).first(), m1));
    }
}

/// Appends one frame's inbound chat messages to the history, in arrival
/// order.
pub fn receive_chat_messages(
    party: &Party,
    app_state: &GameState,
    chat_log: &mut ChatLog,
    events: &Vec<NetworkEvent>,
)
    requires
        party.wf(),
    ensures
        chat_steps(
            old(chat_log).log(),
            party.players_seq(),
            app_state.spec_current(),
            events@.map_values(|e: NetworkEvent| e@),
            final(chat_log).log(),
        ),
{
    let ghost pre = old(chat_log).log();
    let ghost evs = events@.map_values(|e: NetworkEvent| e@);
    let n = events.len();
    let mut i: usize = 0;
    proof {
        assert(evs.take(0) =~= Seq::<EventView>::empty());
    }
    while i < n
        invariant
            0 <= i <= n,
            n == events@.len(),
            evs == events@.map_values(|e: NetworkEvent| e@),
            party.wf(),
            chat_steps(pre, party.players_seq(), app_state.spec_current(), evs.take(i as int), chat_log.log()),
            pre == old(chat_log).log(),
        decreases n - i,
    {
        let ghost mid = chat_log.log();
        receive_chat_message(party, app_state, chat_log, &events[i]);
        proof {
            lemma_chat_steps_snoc(
                pre,
                party.players_seq(),
                app_state.spec_current(),
                evs.take(i as int),
                mid,
                evs[i as int],
                chat_log.log(),
            );
            assert(evs.take(i + 1 as int) =~= evs.take(i as int).push(evs[i as int]));
        }
        i = i + 1;
    }
    proof {
        assert(evs.take(n as int) =~= evs);
    }
}

/// `post` is reachable from `pre` by lobby intents through `evs`.
pub open spec fn lobby_ui_steps(
    pre: ProtoView,
    evs: Seq<LobbyUIEventView>,
    post: ProtoView,
) -> bool
    decreases evs.len(),
{
    if evs.len() == 0 {
        post == pre
    } else {
        exists|mid: ProtoView|
            #[trigger] lobby_ui_step(pre, evs.first(), mid) && lobby_ui_steps(
                mid,
                evs.drop_first(),
                post,
            )
    }
}

proof fn lemma_lobby_ui_steps_snoc(
    pre: ProtoView,
    evs: Seq<LobbyUIEventView>,
    mid: ProtoView,
    ev: LobbyUIEventView,
    post: ProtoView,
)
    requires
        lobby_ui_steps(pre, evs, mid),
        lobby_ui_step(mid, ev, post),
    ensures
        lobby_ui_steps(pre, evs.push(ev), post),
    decreases evs.len(),
{
    if evs.len() == 0 {
        assert(evs.push(ev).drop_first() =~= Seq::<LobbyUIEventView>::empty());
        assert(lobby_ui_steps(post, Seq::<LobbyUIEventView>::empty(), post));
        assert(lobby_ui_step(pre, evs.push(ev).first(), post));
    } else {
        let m1 = choose|m: ProtoView|
            #[trigger] lobby_ui_step(pre, evs.first(), m) && lobby_ui_steps(
                m,
                evs.drop_first(),
                mid,
            );
        lemma_lobby_ui_steps_snoc(m1, evs.drop_first(), mid, ev, post);
        assert(evs.push(ev).drop_first() =~= evs.drop_first().push(ev));
        assert(lobby_ui_step(pre, evs.push(ev).first(), m1));
    }
}

/// Carries out one frame's lobby intents, in order.
pub fn handle_lobby_ui_events(
    party: &Party,
    cleanup_config: &mut CleanupConfig,
    app_state: &mut GameState,
    network_manager: &mut NetworkManager,
    events: &Vec<LobbyUIEvent>,
)
    ensures
        lobby_ui_steps(
            proto_view(*party, *old(app_state), *old(cleanup_config), *old(network_manager)),
            events@.map_values(|e: LobbyUIEvent| e@),
            proto_view(*party, *final(app_state), *final(cleanup_config), *final(network_manager)),
        ),
        final(network_manager).inbox() == old(network_manager).inbox(),
        final(network_manager).spec_local_peer_id() == old(network_manager).spec_local_peer_id(),
{
    let ghost pre = proto_view(*party, *old(app_state), *old(cleanup_config), *old(network_manager));
    let ghost evs = events@.map_values(|e: LobbyUIEvent| e@);
    let n = events.len();
    let mut i: usize = 0;
    proof {
        assert(evs.take(0) =~= Seq::<LobbyUIEventView>::empty());
    }
    while i < n
        invariant
            0 <= i <= n,
            n == events@.len(),
            evs == events@.map_values(|e: LobbyUIEvent| e@),
            lobby_ui_steps(
                pre,
                evs.take(i as int),
                proto_view(*party, *app_state, *cleanup_config, *network_manager),
            ),
            network_manager.inbox() == old(network_manager).inbox(),
            network_manager.spec_local_peer_id() == old(network_manager).spec_local_peer_id(),
            pre == proto_view(*party, *old(app_state), *old(cleanup_config), *old(network_manager)),
        decreases n - i,
    {
        let ghost mid = proto_view(*party, *app_state, *cleanup_config, *network_manager);
        handle_lobby_ui_event(party, cleanup_config, app_state, network_manager, &events[i]);
        proof {
            lemma_lobby_ui_steps_snoc(
                pre,
                evs.take(i as int),
                mid,
                evs[i as int],
                proto_view(*party, *app_state, *cleanup_config, *network_manager),
            );
            assert(evs.take(i + 1 as int) =~= evs.take(i as int).push(evs[i as int]));
        }
        i = i + 1;
    }
    proof {
        assert(evs.take(n as int) =~= evs);
    }
}

// ---------------------------------------------------------------------
// Laws
// ---------------------------------------------------------------------

/// Law: while joining, a snapshot payload that does not decode to a
/// well-formed party routes the client to the main menu through cleanup;
/// it never stays stuck in the joining state.
pub proof fn lemma_rejection_path(pre: ProtoView, ev: EventView, post: ProtoView)
    requires
        pre.state == AppState::JoiningLobby,
        ev matches EventView::Message { topic, source, data } && topic == "join_accepted"@
            && !party_payload_ok(data),
        join_flow_step(pre, ev, post),
    ensures
        post.state == AppState::Cleanup,
        post.cleanup == Some(AppState::MainMenu),
        post.state != AppState::JoiningLobby,
{
}

// ---------------------------------------------------------------------
// Entering and leaving the lobby flow
// ---------------------------------------------------------------------

/// Creates a lobby as host: a fresh party holding only the local player,
/// a listener bound on the given address, a subscription to join
/// requests, and teardown into the lobby.
pub fn create_lobby(
    cleanup_config: &mut CleanupConfig,
    app_state: &mut GameState,
    network_manager: &mut NetworkManager,
    player_name: String,
    listen_addr: NetworkAddress,
) -> (party: Party)
    requires
        old(app_state).spec_current() != AppState::Cleanup,
    ensures
        party.wf(),
        party.spec_host() == old(network_manager).spec_local_peer_id(),
        party.players_seq() == seq![
            (old(network_manager).spec_local_peer_id(), player_name@),
        ],
        final(network_manager).pending() == old(network_manager).pending().push(
            CommandView::ListenOn { address: listen_addr@ },
        ).push(CommandView::Subscribe { topic: "join_request"@ }),
        final(network_manager).inbox() == old(network_manager).inbox(),
        final(network_manager).spec_local_peer_id() == old(network_manager).spec_local_peer_id(),
        final(cleanup_config).next_state_after_cleanup == Some(AppState::InLobby),
        final(app_state).spec_current() == AppState::Cleanup,
{
    let player = Player {
        id: PlayerId::new(network_manager.local_peer_id()),
        name: player_name,
    };
    let party = Party::new(player);
    network_manager.listen_on(listen_addr);
    network_manager.subscribe(join_request_topic());
    begin_cleanup(cleanup_config, app_state, AppState::InLobby);
    party
}

/// Starts joining a lobby: a provisional party with the local player
/// tentatively seated as host, a listener, subscriptions to the join
/// handshake topics, a dial to the target address, and teardown into the
/// joining flow.
pub fn join_lobby(
    cleanup_config: &mut CleanupConfig,
    app_state: &mut GameState,
    network_manager: &mut NetworkManager,
    player_name: String,
    address: NetworkAddress,
    listen_addr: NetworkAddress,
) -> (party: Party)
    requires
        old(app_state).spec_current() != AppState::Cleanup,
    ensures
        party.wf(),
        party.spec_host() == old(network_manager).spec_local_peer_id(),
        party.players_seq() == seq![
            (old(network_manager).spec_local_peer_id(), player_name@),
        ],
        final(network_manager).pending() == old(network_manager).pending().push(
            CommandView::ListenOn { address: listen_addr@ },
        ).push(CommandView::Subscribe { topic: "join_accepted"@ }).push(
            CommandView::Subscribe { topic: "join_rejected"@ },
        ).push(CommandView::DialAddr { address: address@ }),
        final(network_manager).inbox() == old(network_manager).inbox(),
        final(network_manager).spec_local_peer_id() == old(network_manager).spec_local_peer_id(),
        final(cleanup_config).next_state_after_cleanup == Some(AppState::JoiningLobby),
        final(app_state).spec_current() == AppState::Cleanup,
{
    let player = Player {
        id: PlayerId::new(network_manager.local_peer_id()),
        name: player_name,
    };
    let party = Party::new(player);
    network_manager.listen_on(listen_addr);
    network_manager.subscribe(join_accepted_topic());
    network_manager.subscribe(join_rejected_topic());
    network_manager.dial_addr(address);
    begin_cleanup(cleanup_config, app_state, AppState::JoiningLobby);
    party
}

/// On entering the lobby, joins the chat fan-out.
pub fn setup_lobby(network_manager: &mut NetworkManager)
    ensures
        final(network_manager).pending() == old(network_manager).pending().push(
            CommandView::Subscribe { topic: "chat"@ },
        ),
        final(network_manager).inbox() == old(network_manager).inbox(),
        final(network_manager).spec_local_peer_id() == old(network_manager).spec_local_peer_id(),
{
    network_manager.subscribe(chat_topic());
}

/// On leaving the lobby, drops every protocol topic.
pub fn unsubscribe_all_topics(network_manager: &mut NetworkManager)
    ensures
        final(network_manager).pending() == old(network_manager).pending().push(
            CommandView::Unsubscribe { topic: "chat"@ },
        ).push(CommandView::Unsubscribe { topic: "joined"@ }).push(
            CommandView::Unsubscribe { topic: "join_accepted"@ },
        ).push(CommandView::Unsubscribe { topic: "join_rejected"@ }).push(
            CommandView::Unsubscribe { topic: "join_request"@ },
        ),
        final(network_manager).inbox() == old(network_manager).inbox(),
        final(network_manager).spec_local_peer_id() == old(network_manager).spec_local_peer_id(),
{
    network_manager.unsubscribe(chat_topic());
    network_manager.unsubscribe(joined_topic());
    network_manager.unsubscribe(join_accepted_topic());
    network_manager.unsubscribe(join_rejected_topic());
    network_manager.unsubscribe(join_request_topic());
}

} // verus!
