//! The event ingress bridge and the egress payloads: external bus events are
//! parsed and fanned out to the named session, and each accepted chat frame
//! is rendered once more as an event for the external bus.
use crate::ids::{format_uuid, spec_parse_uuid, spec_uuid_str};
use crate::json::{
    chars_to_string,
    push_lit,
    push_quoted,
    spec_parse_doc,
    spec_quoted,
    str_to_chars,
};
use crate::session_manager::{spec_broadcast, SessionManager};
use vstd::prelude::*;

verus! {

/// An external bus event naming a session: `{"event_type": ...,
/// "session_id": ...}`, any other member ignored.
pub struct EventPayload {
    pub event_type: String,
    pub session_id: u128,
}

/// What the bus-event reader accepts: a JSON object document whose
/// `event_type` member holds a string and whose `session_id` member holds a
/// textual 128-bit id, each given once.
pub open spec fn spec_parse_event(s: Seq<char>) -> Option<(Seq<char>, u128)> {
    match spec_parse_doc(s, set!["event_type"@, "session_id"@]) {
        Some(m) => if m.contains_key("event_type"@) && m.contains_key("session_id"@) {
            match spec_parse_uuid(m["session_id"@]) {
                Some(u) => Some((m["event_type"@], u)),
                None => None,
            }
        } else {
            None
        },
        None => None,
    }
}

/// The accumulator the bus-event reader carries.
pub open spec fn event_acc(et: Option<Seq<char>>, sid: Option<Seq<char>>) -> Map<
    Seq<char>,
    Seq<char>,
> {
    let m = Map::<Seq<char>, Seq<char>>::empty();
    let m1 = match et {
        Some(v) => m.insert("event_type"@, v),
        None => m,
    };
    match sid {
        Some(v) => m1.insert("session_id"@, v),
        None => m1,
    }
}

fn event_doc(s: &Vec<char>) -> (r: Option<(Vec<char>, u128)>)
    ensures
        match r {
            Some(t) => spec_parse_event(s@) == Some((t.0@, t.1)),
            None => spec_parse_event(s@) is None,
        },
{
    let ghost w = set!["event_type"@, "session_id"@];
    let n = s.len();
    let j = crate::json::skip_ws(s, 0);
    if !(j < n && s[j] == '{') {
        return None;
    }
    let key_et = str_to_chars("event_type");
    let key_sid = str_to_chars("session_id");
    let mut p = j + 1;
    let mut fst = true;
    let mut fu = n;
    let mut et: Option<Vec<char>> = None;
    let mut sid: Option<Vec<char>> = None;
    proof {
        broadcast use vstd::string::group_string_axioms;

        reveal_strlit("event_type");
        reveal_strlit("session_id");
        assert(("event_type"@)[0] == 'e');
        assert(("session_id"@)[0] == 's');
        assert(event_acc(None, None) =~= Map::<Seq<char>, Seq<char>>::empty());
    }
    loop
        invariant
            n == s@.len(),
            p <= n,
            fu <= n,
            j < n,
            s@[j as int] == '{',
            j == crate::json::spec_skip_ws(s@, 0),
            key_et@ == "event_type"@,
            key_sid@ == "session_id"@,
            "event_type"@ != "session_id"@,
            w == set!["event_type"@, "session_id"@],
            crate::json::spec_scan_fields(s@, j + 1, w, Map::empty(), true, n as nat)
                == crate::json::spec_scan_fields(
                s@,
                p as int,
                w,
                event_acc(crate::chat_message::opt_view(et), crate::chat_message::opt_view(sid)),
                fst,
                fu as nat,
            ),
        decreases fu,
    {
        if fu == 0 {
            return None;
        }
        let jj = crate::json::skip_ws(s, p);
        let mut after: usize;
        if fst && jj < n && s[jj] == '}' {
            let t = crate::json::skip_ws(s, jj + 1);
            if t != n {
                return None;
            }
            match (et, sid) {
                (Some(ev), Some(sv)) => {
                    match crate::ids::parse_uuid_chars(&sv) {
                        Some(u) => {
                            return Some((ev, u));
                        },
                        None => {
                            return None;
                        },
                    }
                },
                _ => {
                    return None;
                },
            }
        }
        match crate::json::parse_string_at(s, jj) {
            Some(kv) => {
                let j3 = crate::json::skip_ws(s, kv.1);
                if !(j3 < n && s[j3] == ':') {
                    return None;
                }
                let jv = crate::json::skip_ws(s, j3 + 1);
                if crate::json::chars_eq(&kv.0, &key_et) {
                    if et.is_some() {
                        return None;
                    }
                    match crate::json::parse_string_at(s, jv) {
                        Some(vv) => {
                            proof {
                                assert(event_acc(
                                    Some(vv.0@),
                                    crate::chat_message::opt_view(sid),
                                ) =~= event_acc(None, crate::chat_message::opt_view(sid)).insert(
                                    "event_type"@,
                                    vv.0@,
                                ));
                            }
                            et = Some(vv.0);
                            after = vv.1;
                        },
                        None => {
                            return None;
                        },
                    }
                } else if crate::json::chars_eq(&kv.0, &key_sid) {
                    if sid.is_some() {
                        return None;
                    }
                    match crate::json::parse_string_at(s, jv) {
                        Some(vv) => {
                            proof {
                                assert(event_acc(
                                    crate::chat_message::opt_view(et),
                                    Some(vv.0@),
                                ) =~= event_acc(crate::chat_message::opt_view(et), None).insert(
                                    "session_id"@,
                                    vv.0@,
                                ));
                            }
                            sid = Some(vv.0);
                            after = vv.1;
                        },
                        None => {
                            return None;
                        },
                    }
                } else {
                    match crate::json::skip_value(s, jv, fu) {
                        Some(j4) => {
                            after = j4;
                        },
                        None => {
                            return None;
                        },
                    }
                }
            },
            None => {
                return None;
            },
        }
        let j5 = crate::json::skip_ws(s, after);
        if j5 < n && s[j5] == ',' {
            p = j5 + 1;
            fst = false;
            fu = fu - 1;
        } else if j5 < n && s[j5] == '}' {
            let t = crate::json::skip_ws(s, j5 + 1);
            if t != n {
                return None;
            }
            match (et, sid) {
                (Some(ev), Some(sv)) => {
                    match crate::ids::parse_uuid_chars(&sv) {
                        Some(u) => {
                            return Some((ev, u));
                        },
                        None => {
                            return None;
                        },
                    }
                },
                _ => {
                    return None;
                },
            }
        } else {
            return None;
        }
    }
}

impl EventPayload {
    /// Reads one bus event.  Accepts exactly the documents
    /// [`spec_parse_event`] accepts.
    pub fn from_json(s: &str) -> (r: Result<EventPayload, crate::chat_message::ParseError>)
        ensures
            match r {
                Ok(m) => spec_parse_event(s@) == Some((m.event_type@, m.session_id)),
                Err(_) => spec_parse_event(s@) is None,
            },
    {
        let v = str_to_chars(s);
        match event_doc(&v) {
            Some(t) => Ok(EventPayload { event_type: chars_to_string(&t.0), session_id: t.1 }),
            None => Err(crate::chat_message::ParseError),
        }
    }
}

/// One delivered bus message: a payload that parses as an event is turned
/// into the system broadcast frame and fanned out to every member of the
/// named session, skipping none; any other payload is discarded and the
/// registry left untouched.  Yields broadcast's `(delivered, dropped)` when
/// the event was accepted.
pub fn handle_bus_event(manager: &mut SessionManager, payload: &str) -> (r: Option<(usize, usize)>)
    requires
        old(manager).wf(),
    ensures
        final(manager).wf(),
        match (r, spec_parse_event(payload@)) {
            (Some(c), Some(ev)) => {
                &&& final(manager)@ == spec_broadcast(
                    old(manager)@,
                    ev.1,
                    spec_system_json(ev.0, ev.1),
                    None,
                )
                &&& (old(manager)@.contains_key(ev.1) ==> c.0
                    == crate::session_manager::spare_ids(old(manager)@[ev.1], None).len() && c.0
                    + c.1 == crate::session_manager::eligible_ids(old(manager)@[ev.1], None).len())
                &&& (!old(manager)@.contains_key(ev.1) ==> c.0 == 0 && c.1 == 0)
            },
            (None, None) => final(manager)@ == old(manager)@,
            _ => false,
        },
{
    match EventPayload::from_json(payload) {
        Ok(ev) => {
            let msg = build_system_broadcast(ev.event_type.as_str(), ev.session_id);
            Some(manager.broadcast_message(ev.session_id, msg.as_str(), None))
        },
        Err(_) => None,
    }
}

/// The system broadcast frame sent to every member of the named session:
/// note the wire keys `type` and `sessionId`.
pub open spec fn spec_system_json(event_type: Seq<char>, session_id: u128) -> Seq<char> {
    "{\"type\":"@ + spec_quoted(event_type) + ",\"sessionId\":"@ + spec_quoted(
        spec_uuid_str(session_id),
    ) + "}"@
}

/// The payload published to the external bus for one accepted chat frame:
/// note the wire keys `event_type` and `session_id`.
pub open spec fn spec_egress_json(
    session_id: u128,
    user_id: u128,
    user_name: Seq<char>,
    content: Seq<char>,
) -> Seq<char> {
    "{\"event_type\":\"chat.message.received\",\"session_id\":"@ + spec_quoted(
        spec_uuid_str(session_id),
    ) + ",\"user_id\":"@ + spec_quoted(spec_uuid_str(user_id)) + ",\"user_name\":"@ + spec_quoted(
        user_name,
    ) + ",\"content\":"@ + spec_quoted(content) + "}"@
}

/// The bus subject one session's chat events are published under.
pub open spec fn spec_egress_subject(session_id: u128) -> Seq<char> {
    "chat.message.received."@ + spec_uuid_str(session_id)
}

/// Renders the bus subject one session's chat events are published under.
pub fn egress_subject(session_id: u128) -> (r: String)
    ensures
        r@ == spec_egress_subject(session_id),
{
    let mut out: Vec<char> = Vec::new();
    push_lit(&mut out, "chat.message.received.");
    let sid = str_to_chars(format_uuid(session_id).as_str());
    let mut sidv = sid;
    out.append(&mut sidv);
    proof {
        assert(out@ =~= spec_egress_subject(session_id));
    }
    chars_to_string(&out)
}

/// Renders the system broadcast frame for an event.
pub fn build_system_broadcast(event_type: &str, session_id: u128) -> (r: String)
    ensures
        r@ == spec_system_json(event_type@, session_id),
{
    let mut out: Vec<char> = Vec::new();
    push_lit(&mut out, "{\"type\":");
    let e = str_to_chars(event_type);
    push_quoted(&mut out, &e);
    push_lit(&mut out, ",\"sessionId\":");
    let sid = str_to_chars(format_uuid(session_id).as_str());
    push_quoted(&mut out, &sid);
    push_lit(&mut out, "}");
    proof {
        assert(out@ =~= spec_system_json(event_type@, session_id));
    }
    chars_to_string(&out)
}

/// Renders the egress payload for one accepted chat frame.
pub fn build_egress_event(session_id: u128, user_id: u128, user_name: &str, content: &str) -> (r:
    String)
    ensures
        r@ == spec_egress_json(session_id, user_id, user_name@, content@),
{
    let mut out: Vec<char> = Vec::new();
    push_lit(&mut out, "{\"event_type\":\"chat.message.received\",\"session_id\":");
    let sid = str_to_chars(format_uuid(session_id).as_str());
    push_quoted(&mut out, &sid);
    push_lit(&mut out, ",\"user_id\":");
    let uid = str_to_chars(format_uuid(user_id).as_str());
    push_quoted(&mut out, &uid);
    push_lit(&mut out, ",\"user_name\":");
    let un = str_to_chars(user_name);
    push_quoted(&mut out, &un);
    push_lit(&mut out, ",\"content\":");
    let c = str_to_chars(content);
    push_quoted(&mut out, &c);
    push_lit(&mut out, "}");
    proof {
        assert(out@ =~= spec_egress_json(session_id, user_id, user_name@, content@));
    }
    chars_to_string(&out)
}

} // verus!
