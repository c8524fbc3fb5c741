//! The per-connection dispatcher's decisions.  One dispatcher owns one
//! upgraded client stream; the surrounding runtime reads frames, timers and
//! mailbox readiness, hands each of them here as an event, performs the
//! returned actions on the stream or the bus, and tears the connection down
//! when a step says so or an action fails.
use crate::auth::{spec_validate, validate_token, AuthError, Claims};
use crate::chat_message::{spec_broadcast_json, spec_parse_chat, BroadcastMessage, ChatMessage, SenderInfo};
use crate::events::{build_egress_event, spec_egress_json, spec_egress_subject};
use crate::ids::{parse_uuid, spec_parse_uuid};
use crate::session_manager::{
    identity_of,
    spec_broadcast,
    spec_insert,
    spec_remove,
    Connection,
    ConnectionView,
    SessionManager,
};
use vstd::prelude::*;

verus! {

/// Seconds between two heartbeat pings on an idle connection.
pub const HEARTBEAT_INTERVAL_SECS: u64 = 5;

/// The query string of an upgrade request: the bearer token.
pub struct WsConnectQuery {
    pub token: String,
}

/// One frame read from the client's stream.
pub enum InboundFrame {
    Text(String),
    Ping(Vec<u8>),
    Pong,
    Close,
    Other,
}

/// One thing the dispatcher's select loop woke up on.
pub enum DispatcherEvent {
    Inbound(InboundFrame),
    MailboxReady,
    HeartbeatTick,
    StreamEnd,
}

/// One thing the runtime must do after a step: write a frame to the own
/// stream, or publish a payload on the external bus.
pub enum DispatcherAction {
    SendText(String),
    SendPong(Vec<u8>),
    SendPing,
    Publish { subject: String, payload: String },
}

/// What one dispatcher holds: which session it serves and its own
/// connection id.
pub struct DispatcherState {
    pub session_id: u128,
    pub conn_id: usize,
}

/// What one step decided: the actions to perform, in order, and whether the
/// event loop is over.
pub struct StepOutcome {
    pub actions: Vec<DispatcherAction>,
    pub disconnect: bool,
}

/// Why an upgrade request is refused before the handshake: an unreadable
/// session id in the path, or a refused bearer token.
pub enum UpgradeError {
    BadSessionId,
    Auth(AuthError),
}

/// Relies on `rand::random`: draws a connection id uniformly; nothing is
/// assumed of the value, and the registry's insert overwrites on the
/// (unlikely) collision exactly as its contract says.
#[verifier::external_body]
fn draw_conn_id() -> usize {
    rand::random::<u64>() as usize
}

/// The decisions made before the handshake: the path's session id must be
/// a textual 128-bit id, and the bearer token must verify under `secret` at
/// time `now`.  Yields the session id and the captured identity.
pub fn check_upgrade(session_id_path: &str, token: &str, secret: &[u8], now: usize) -> (r: Result<
    (u128, Claims),
    UpgradeError,
>)
    ensures
        match r {
            Ok(t) => spec_parse_uuid(session_id_path@) == Some(t.0) && spec_validate(
                token@,
                secret@,
                now,
            ) == Ok::<crate::auth::ClaimsView, AuthError>(t.1@),
            Err(e) => match e {
                UpgradeError::BadSessionId => spec_parse_uuid(session_id_path@) is None,
                UpgradeError::Auth(a) => spec_parse_uuid(session_id_path@) is Some
                    && spec_validate(token@, secret@, now) == Err::<
                    crate::auth::ClaimsView,
                    AuthError,
                >(a),
            },
        },
{
    let sid = match parse_uuid(session_id_path) {
        Some(u) => u,
        None => {
            return Err(UpgradeError::BadSessionId);
        },
    };
    match validate_token(token, secret, now) {
        Ok(claims) => Ok((sid, claims)),
        Err(e) => Err(UpgradeError::Auth(e)),
    }
}

/// Registers a fresh connection for the authenticated client: a connection
/// id is drawn, and a record with an empty mailbox and the captured
/// identity is stored under it.
pub fn dispatcher_init(manager: &mut SessionManager, session_id: u128, claims: Claims) -> (st:
    DispatcherState)
    requires
        old(manager).wf(),
    ensures
        final(manager).wf(),
        st.session_id == session_id,
        final(manager)@ == spec_insert(
            old(manager)@,
            session_id,
            st.conn_id,
            ConnectionView { mailbox: Seq::empty(), user_info: claims@ },
        ),
{
    let conn_id = draw_conn_id();
    let conn = Connection::new(claims);
    manager.insert(session_id, conn_id, conn);
    DispatcherState { session_id, conn_id }
}

/// What a step does to the registry and which actions it yields, for every
/// event:
/// - a text frame that parses as a chat message from a registered sender is
///   fanned out to the session as the outbound envelope, skipping the
///   sender, and one bus publish is requested; a frame that does not parse,
///   or a sender no longer registered, changes nothing;
/// - a ping is answered with a pong carrying the same payload; a pong and
///   any other frame are ignored; a close ends the loop;
/// - mailbox readiness takes the oldest queued payload and writes it out;
/// - a heartbeat tick emits a ping;
/// - stream end ends the loop.
pub fn dispatcher_step(manager: &mut SessionManager, st: &DispatcherState, event: DispatcherEvent)
    -> (out: StepOutcome)
    requires
        old(manager).wf(),
    ensures
        final(manager).wf(),
        match event {
            DispatcherEvent::Inbound(frame) => match frame {
                InboundFrame::Text(t) => {
                    &&& !out.disconnect
                    &&& match spec_parse_chat(t@) {
                        Some(content) => {
                            if old(manager)@.contains_key(st.session_id) && old(manager)@[st.session_id].contains_key(st.conn_id) {
                                let who = identity_of(old(manager)@, st.session_id, st.conn_id);
                                let envelope = spec_broadcast_json(
                                    "chat_message"@,
                                    who.sub,
                                    who.name,
                                    content,
                                );
                                &&& final(manager)@ == spec_broadcast(
                                    old(manager)@,
                                    st.session_id,
                                    envelope,
                                    Some(st.conn_id),
                                )
                                &&& out.actions@.len() == 1
                                &&& (out.actions@[0] matches DispatcherAction::Publish {
                                    subject,
                                    payload,
                                } && subject@ == spec_egress_subject(st.session_id) && payload@
                                    == spec_egress_json(st.session_id, who.sub, who.name, content))
                            } else {
                                final(manager)@ == old(manager)@ && out.actions@.len() == 0
                            }
                        },
                        None => final(manager)@ == old(manager)@ && out.actions@.len() == 0,
                    }
                },
                InboundFrame::Ping(b) => {
                    &&& !out.disconnect
                    &&& final(manager)@ == old(manager)@
                    &&& out.actions@.len() == 1
                    &&& (out.actions@[0] matches DispatcherAction::SendPong(p) && p@ == b@)
                },
                InboundFrame::Pong => !out.disconnect && final(manager)@ == old(manager)@
                    && out.actions@.len() == 0,
                InboundFrame::Close => out.disconnect && final(manager)@ == old(manager)@
                    && out.actions@.len() == 0,
                InboundFrame::Other => !out.disconnect && final(manager)@ == old(manager)@
                    && out.actions@.len() == 0,
            },
            DispatcherEvent::MailboxReady => {
                &&& !out.disconnect
                &&& if old(manager)@.contains_key(st.session_id) && old(manager)@[st.session_id].contains_key(st.conn_id) && old(manager)@[st.session_id][st.conn_id].mailbox.len() > 0 {
                    let c = old(manager)@[st.session_id][st.conn_id];
                    &&& out.actions@.len() == 1
                    &&& (out.actions@[0] matches DispatcherAction::SendText(m) && m@
                        == c.mailbox[0])
                    &&& final(manager)@ == old(manager)@.insert(
                        st.session_id,
                        old(manager)@[st.session_id].insert(
                            st.conn_id,
                            ConnectionView {
                                mailbox: c.mailbox.subrange(1, c.mailbox.len() as int),
                                user_info: c.user_info,
                            },
                        ),
                    )
                } else {
                    final(manager)@ == old(manager)@ && out.actions@.len() == 0
                }
            },
            DispatcherEvent::HeartbeatTick => {
                &&& !out.disconnect
                &&& final(manager)@ == old(manager)@
                &&& out.actions@.len() == 1
                &&& out.actions@[0] == DispatcherAction::SendPing
            },
            DispatcherEvent::StreamEnd => out.disconnect && final(manager)@ == old(manager)@
                && out.actions@.len() == 0,
        },
{
    match event {
        DispatcherEvent::Inbound(frame) => match frame {
            InboundFrame::Text(t) => {
                match ChatMessage::from_json(t.as_str()) {
                    Ok(chat) => {
                        match manager.get_user_info(st.session_id, st.conn_id) {
                            Some(who) => {
                                let envelope = BroadcastMessage {
                                    kind: chat_message_tag(),
                                    sender: SenderInfo { id: who.sub, name: who.name.clone() },
                                    content: chat.content.clone(),
                                };
                                let payload = envelope.to_json();
                                manager.broadcast_message(
                                    st.session_id,
                                    payload.as_str(),
                                    Some(st.conn_id),
                                );
                                let subject = crate::events::egress_subject(st.session_id);
                                let egress = build_egress_event(
                                    st.session_id,
                                    who.sub,
                                    who.name.as_str(),
                                    chat.content.as_str(),
                                );
                                let mut actions: Vec<DispatcherAction> = Vec::new();
                                actions.push(
                                    DispatcherAction::Publish { subject, payload: egress },
                                );
                                StepOutcome { actions, disconnect: false }
                            },
                            None => StepOutcome { actions: Vec::new(), disconnect: false },
                        }
                    },
                    Err(_) => StepOutcome { actions: Vec::new(), disconnect: false },
                }
            },
            InboundFrame::Ping(b) => {
                let mut actions: Vec<DispatcherAction> = Vec::new();
                actions.push(DispatcherAction::SendPong(b));
                StepOutcome { actions, disconnect: false }
            },
            InboundFrame::Pong => StepOutcome { actions: Vec::new(), disconnect: false },
            InboundFrame::Close => StepOutcome { actions: Vec::new(), disconnect: true },
            InboundFrame::Other => StepOutcome { actions: Vec::new(), disconnect: false },
        },
        DispatcherEvent::MailboxReady => {
            match manager.pop_message(st.session_id, st.conn_id) {
                Some(m) => {
                    let mut actions: Vec<DispatcherAction> = Vec::new();
                    actions.push(DispatcherAction::SendText(m));
                    StepOutcome { actions, disconnect: false }
                },
                None => StepOutcome { actions: Vec::new(), disconnect: false },
            }
        },
        DispatcherEvent::HeartbeatTick => {
            let mut actions: Vec<DispatcherAction> = Vec::new();
            actions.push(DispatcherAction::SendPing);
            StepOutcome { actions, disconnect: false }
        },
        DispatcherEvent::StreamEnd => StepOutcome { actions: Vec::new(), disconnect: true },
    }
}

/// The wire type tag of the outbound chat envelope.
fn chat_message_tag() -> (r: String)
    ensures
        r@ == "chat_message"@,
{
    let v = crate::json::str_to_chars("chat_message");
    crate::json::chars_to_string(&v)
}

/// The guaranteed teardown: whatever path ended the loop, the dispatcher's
/// record leaves the registry, and the session with it when it was the
/// last.
pub fn dispatcher_finish(manager: &mut SessionManager, st: &DispatcherState)
    requires
        old(manager).wf(),
    ensures
        final(manager).wf(),
        final(manager)@ == spec_remove(old(manager)@, st.session_id, st.conn_id),
        final(manager)@.contains_key(st.session_id) ==> !final(manager)@[st.session_id].contains_key(st.conn_id),
{
    manager.remove(st.session_id, st.conn_id);
}

} // verus!