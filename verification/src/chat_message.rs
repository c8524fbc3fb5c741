//! The wire envelopes of the chat path: the inbound text frame a client
//! sends, and the outbound envelope fanned out to its session peers.
use crate::ids::{spec_uuid_str, format_uuid};
use crate::json::{
    chars_eq,
    chars_to_string,
    parse_string_at,
    push_lit,
    push_quoted,
    skip_value,
    skip_ws,
    spec_parse_doc,
    spec_parse_string,
    spec_quoted,
    spec_scan_after,
    spec_scan_fields,
    spec_skip_value,
    spec_skip_ws,
    str_to_chars,
};
use vstd::prelude::*;

verus! {

/// A document that one of the readers refused.
#[derive(Debug, PartialEq, Eq, Structural)]
pub struct ParseError;

/// The inbound chat frame: `{"content": "..."}`, any other member ignored.
pub struct ChatMessage {
    pub content: String,
}

/// What a reader of one string member accepts: a JSON object document
/// whose `k` member holds a string, given once; the member's value.
pub open spec fn spec_parse_single(s: Seq<char>, k: Seq<char>) -> Option<Seq<char>> {
    match spec_parse_doc(s, set![k]) {
        Some(m) => if m.contains_key(k) {
            Some(m[k])
        } else {
            None
        },
        None => None,
    }
}

/// What the inbound chat reader accepts: a JSON object document whose
/// `content` member holds a string, given once; the member's value.
pub open spec fn spec_parse_chat(s: Seq<char>) -> Option<Seq<char>> {
    spec_parse_single(s, "content"@)
}

/// The document the chat writer emits for a given content.
pub open spec fn spec_chat_json(content: Seq<char>) -> Seq<char> {
    "{\"content\":"@ + spec_quoted(content) + "}"@
}

/// The accumulator the one-member reader carries: nothing yet, or the
/// watched member's value.
pub open spec fn single_acc(k: Seq<char>, cur: Option<Seq<char>>) -> Map<Seq<char>, Seq<char>> {
    match cur {
        None => Map::empty(),
        Some(v) => Map::<Seq<char>, Seq<char>>::empty().insert(k, v),
    }
}

/// The view of an optionally captured member.
pub open spec fn opt_view(c: Option<Vec<char>>) -> Option<Seq<char>> {
    match c {
        Some(v) => Some(v@),
        None => None,
    }
}

/// Reads a document holding one object and keeps the string value of its
/// `key` member.
pub(crate) fn single_doc(s: &Vec<char>, key: &Vec<char>) -> (r: Option<Vec<char>>)
    ensures
        match r {
            Some(c) => spec_parse_single(s@, key@) == Some(c@),
            None => spec_parse_single(s@, key@) is None,
        },
{
    let ghost w = set![key@];
    let n = s.len();
    let j = skip_ws(s, 0);
    if !(j < n && s[j] == '{') {
        return None;
    }
    let mut p = j + 1;
    let mut fst = true;
    let mut fu = n;
    let mut cur: Option<Vec<char>> = None;
    let ghost acc0 = Map::<Seq<char>, Seq<char>>::empty();
    proof {
        assert(single_acc(key@, None) =~= acc0);
    }
    loop
        invariant
            n == s@.len(),
            p <= n,
            fu <= n,
            j < n,
            s@[j as int] == '{',
            j == spec_skip_ws(s@, 0),
            w == set![key@],
            acc0 == Map::<Seq<char>, Seq<char>>::empty(),
            spec_scan_fields(s@, j + 1, w, acc0, true, n as nat) == spec_scan_fields(
                s@,
                p as int,
                w,
                single_acc(key@, opt_view(cur)),
                fst,
                fu as nat,
            ),
        decreases fu,
    {
        if fu == 0 {
            return None;
        }
        let jj = skip_ws(s, p);
        let mut after: usize;
        if fst && jj < n && s[jj] == '}' {
            after = jj + 1;
            let t = skip_ws(s, after);
            if t != n {
                return None;
            }
            match cur {
                Some(c) => {
                    return Some(c);
                },
                None => {
                    return None;
                },
            }
        }
        match parse_string_at(s, jj) {
            Some(kv) => {
                let j3 = skip_ws(s, kv.1);
                if !(j3 < n && s[j3] == ':') {
                    return None;
                }
                let jv = skip_ws(s, j3 + 1);
                if chars_eq(&kv.0, key) {
                    if cur.is_some() {
                        return None;
                    }
                    match parse_string_at(s, jv) {
                        Some(vv) => {
                            proof {
                                assert(single_acc(key@, Some(vv.0@)) =~= single_acc(
                                    key@,
                                    None,
                                ).insert(key@, vv.0@));
                            }
                            cur = Some(vv.0);
                            after = vv.1;
                        },
                        None => {
                            return None;
                        },
                    }
                } else {
                    match skip_value(s, jv, fu) {
                        Some(j4) => {
                            after = j4;
                        },
                        None => {
                            return None;
                        },
                    }
                }
            },
            None => {
                return None;
            },
        }
        let j5 = skip_ws(s, after);
        if j5 < n && s[j5] == ',' {
            p = j5 + 1;
            fst = false;
            fu = fu - 1;
        } else if j5 < n && s[j5] == '}' {
            let t = skip_ws(s, j5 + 1);
            if t != n {
                return None;
            }
            match cur {
                Some(c) => {
                    return Some(c);
                },
                None => {
                    return None;
                },
            }
        } else {
            return None;
        }
    }
}

impl ChatMessage {
    /// Reads an inbound chat frame.  Accepts exactly the documents
    /// [`spec_parse_chat`] accepts and yields their content.
    pub fn from_json(s: &str) -> (r: Result<ChatMessage, ParseError>)
        ensures
            match r {
                Ok(m) => spec_parse_chat(s@) == Some(m.content@),
                Err(_) => spec_parse_chat(s@) is None,
            },
    {
        let v = str_to_chars(s);
        let key = str_to_chars("content");
        match single_doc(&v, &key) {
            Some(c) => Ok(ChatMessage { content: chars_to_string(&c) }),
            None => Err(ParseError),
        }
    }

    /// Writes the frame back out: exactly `{"content":<quoted content>}`.
    pub fn to_json(&self) -> (r: String)
        ensures
            r@ == spec_chat_json(self.content@),
    {
        let mut out: Vec<char> = Vec::new();
        push_lit(&mut out, "{\"content\":");
        let c = str_to_chars(self.content.as_str());
        push_quoted(&mut out, &c);
        push_lit(&mut out, "}");
        proof {
            assert(out@ =~= spec_chat_json(self.content@));
        }
        chars_to_string(&out)
    }
}

/// Law: reading back a written chat frame yields the content unchanged,
/// whatever the content.
#[verifier::rlimit(100)]
pub proof fn lemma_chat_roundtrip(content: Seq<char>)
    ensures
        spec_parse_chat(spec_chat_json(content)) == Some(content),
{
    reveal_strlit("{\"content\":");
    reveal_strlit("}");
    reveal_strlit("content");
    let lit = "{\"content\":"@;
    let q = spec_quoted(content);
    let doc = spec_chat_json(content);
    let key = "content"@;
    let w = set![key];
    assert(lit.len() == 11);
    assert(key.len() == 7);
    assert forall|x: int| 0 <= x < key.len() implies crate::json::is_plain_char(
        #[trigger] key[x],
    ) by {
    }
    crate::json::lemma_escape_plain(key);
    let qk = spec_quoted(key);
    assert(qk =~= seq!['"'] + key + seq!['"']);
    assert(qk.len() == 9);
    assert(lit =~= seq!['{'] + qk + seq![':']);
    assert(doc.len() == 14 + crate::json::spec_escape(content).len());
    assert(doc[0] == '{');
    assert(!crate::json::is_json_ws('{'));
    assert(spec_skip_ws(doc, 0) == 0);
    assert(doc[1] == '"');
    assert(!crate::json::is_json_ws('"'));
    assert(spec_skip_ws(doc, 1) == 1);
    assert(doc.subrange(1, 10) =~= qk);
    crate::json::lemma_parse_quoted(doc, 1, key);
    assert(spec_parse_string(doc, 1) == Some((key, 10int)));
    assert(doc[10] == ':');
    assert(!crate::json::is_json_ws(':'));
    assert(spec_skip_ws(doc, 10) == 10);
    assert(doc[11] == q[0]);
    assert(q[0] == '"');
    assert(spec_skip_ws(doc, 11) == 11);
    assert(doc.subrange(11, 11 + q.len() as int) =~= q);
    crate::json::lemma_parse_quoted(doc, 11, content);
    let end1 = 11 + q.len() as int;
    assert(spec_parse_string(doc, 11) == Some((content, end1)));
    assert(doc[end1] == '}');
    assert(!crate::json::is_json_ws('}'));
    assert(spec_skip_ws(doc, end1) == end1);
    let acc1 = Map::<Seq<char>, Seq<char>>::empty().insert(key, content);
    assert(w.contains(key));
    assert(!Map::<Seq<char>, Seq<char>>::empty().contains_key(key));
    let fuel = doc.len() as nat;
    assert(spec_scan_after(doc, end1, w, acc1, fuel) == Some((acc1, end1 + 1)));
    assert(spec_scan_fields(doc, 1, w, Map::empty(), true, fuel) == Some((acc1, end1 + 1)));
    assert(spec_skip_ws(doc, end1 + 1) == doc.len());
    assert(spec_parse_doc(doc, w) == Some(acc1));
    assert(acc1.contains_key(key));
    assert(acc1[key] == content);
}

/// The sender block of an outbound envelope: the peer's 128-bit id and
/// display name.
pub struct SenderInfo {
    pub id: u128,
    pub name: String,
}

/// The outbound chat envelope fanned out to session peers:
/// `{"type":...,"sender":{"id":...,"name":...},"content":...}`.  The wire
/// key of the first member is `type`.
pub struct BroadcastMessage {
    pub kind: String,
    pub sender: SenderInfo,
    pub content: String,
}

/// The document the envelope writer emits.
pub open spec fn spec_broadcast_json(
    kind: Seq<char>,
    id: u128,
    name: Seq<char>,
    content: Seq<char>,
) -> Seq<char> {
    "{\"type\":"@ + spec_quoted(kind) + ",\"sender\":{\"id\":"@ + spec_quoted(spec_uuid_str(id))
        + ",\"name\":"@ + spec_quoted(name) + "},\"content\":"@ + spec_quoted(content) + "}"@
}

/// Scans the members of an envelope object: `type` and `content` hold
/// strings, `sender` holds an object whose `id` (a textual 128-bit id) and
/// `name` members are strings; every other member is read past.  Each of
/// the three may come once and all three must be present at the closing
/// brace.
pub open spec fn spec_bm_fields(
    s: Seq<char>,
    i: int,
    k: Option<Seq<char>>,
    sn: Option<(u128, Seq<char>)>,
    c: Option<Seq<char>>,
    first: bool,
    fuel: nat,
) -> Option<((Seq<char>, (u128, Seq<char>), Seq<char>), int)>
    decreases fuel, 1int,
{
    if fuel == 0 {
        None
    } else {
        let j = spec_skip_ws(s, i);
        if first && 0 <= j < s.len() && s[j] == '}' {
            match (k, sn, c) {
                (Some(kv), Some(sv), Some(cv)) => Some(((kv, sv, cv), j + 1)),
                _ => None,
            }
        } else {
            match spec_parse_string(s, j) {
                Some((key, j2)) => {
                    let j3 = spec_skip_ws(s, j2);
                    if 0 <= j3 < s.len() && s[j3] == ':' {
                        let jv = spec_skip_ws(s, j3 + 1);
                        if key == "type"@ {
                            if k is Some {
                                None
                            } else {
                                match spec_parse_string(s, jv) {
                                    Some((v, j4)) => spec_bm_after(s, j4, Some(v), sn, c, fuel),
                                    None => None,
                                }
                            }
                        } else if key == "sender"@ {
                            if sn is Some {
                                None
                            } else if 0 <= jv < s.len() && s[jv] == '{' {
                                match spec_scan_fields(
                                    s,
                                    jv + 1,
                                    set!["id"@, "name"@],
                                    Map::empty(),
                                    true,
                                    fuel,
                                ) {
                                    Some((m, j4)) => if m.contains_key("id"@)
                                        && m.contains_key("name"@) {
                                        match crate::ids::spec_parse_uuid(m["id"@]) {
                                            Some(u) => spec_bm_after(
                                                s,
                                                j4,
                                                k,
                                                Some((u, m["name"@])),
                                                c,
                                                fuel,
                                            ),
                                            None => None,
                                        }
                                    } else {
                                        None
                                    },
                                    None => None,
                                }
                            } else {
                                None
                            }
                        } else if key == "content"@ {
                            if c is Some {
                                None
                            } else {
                                match spec_parse_string(s, jv) {
                                    Some((v, j4)) => spec_bm_after(s, j4, k, sn, Some(v), fuel),
                                    None => None,
                                }
                            }
                        } else {
                            match spec_skip_value(s, jv, fuel) {
                                Some(j4) => spec_bm_after(s, j4, k, sn, c, fuel),
                                None => None,
                            }
                        }
                    } else {
                        None
                    }
                },
                None => None,
            }
        }
    }
}

/// After one envelope member: a comma continues, a closing brace ends the
/// object and requires all three members.
pub open spec fn spec_bm_after(
    s: Seq<char>,
    i: int,
    k: Option<Seq<char>>,
    sn: Option<(u128, Seq<char>)>,
    c: Option<Seq<char>>,
    fuel: nat,
) -> Option<((Seq<char>, (u128, Seq<char>), Seq<char>), int)>
    decreases fuel, 0int,
{
    if fuel == 0 {
        None
    } else {
        let j = spec_skip_ws(s, i);
        if 0 <= j < s.len() && s[j] == ',' {
            spec_bm_fields(s, j + 1, k, sn, c, false, (fuel - 1) as nat)
        } else if 0 <= j < s.len() && s[j] == '}' {
            match (k, sn, c) {
                (Some(kv), Some(sv), Some(cv)) => Some(((kv, sv, cv), j + 1)),
                _ => None,
            }
        } else {
            None
        }
    }
}

/// The accumulator the sender-object reader carries.
pub open spec fn sender_acc(idv: Option<Seq<char>>, namev: Option<Seq<char>>) -> Map<
    Seq<char>,
    Seq<char>,
> {
    let m = Map::<Seq<char>, Seq<char>>::empty();
    let m1 = match idv {
        Some(v) => m.insert("id"@, v),
        None => m,
    };
    match namev {
        Some(v) => m1.insert("name"@, v),
        None => m1,
    }
}

fn sender_obj(s: &Vec<char>, i: usize, fuel: usize) -> (r: Option<(
    Option<Vec<char>>,
    Option<Vec<char>>,
    usize,
)>)
    requires
        i < s@.len(),
        s@[i as int] == '{',
    ensures
        match r {
            Some(t) => spec_scan_fields(
                s@,
                i as int + 1,
                set!["id"@, "name"@],
                Map::empty(),
                true,
                fuel as nat,
            ) == Some((sender_acc(opt_view(t.0), opt_view(t.1)), t.2 as int)) && t.2 <= s@.len(),
            None => spec_scan_fields(
                s@,
                i as int + 1,
                set!["id"@, "name"@],
                Map::empty(),
                true,
                fuel as nat,
            ) is None,
        },
{
    let ghost w = set!["id"@, "name"@];
    let n = s.len();
    let key_id = str_to_chars("id");
    let key_name = str_to_chars("name");
    let mut p = i + 1;
    let mut fst = true;
    let mut fu = fuel;
    let mut idr: Option<Vec<char>> = None;
    let mut nm: Option<Vec<char>> = None;
    proof {
        broadcast use vstd::string::group_string_axioms;

        reveal_strlit("id");
        reveal_strlit("name");
        assert("id"@.len() == 2);
        assert("name"@.len() == 4);
        assert(sender_acc(None, None) =~= Map::<Seq<char>, Seq<char>>::empty());
    }
    loop
        invariant
            n == s@.len(),
            p <= n,
            fu <= fuel,
            key_id@ == "id"@,
            key_name@ == "name"@,
            "id"@ != "name"@,
            w == set!["id"@, "name"@],
            spec_scan_fields(s@, i as int + 1, w, Map::empty(), true, fuel as nat)
                == spec_scan_fields(
                s@,
                p as int,
                w,
                sender_acc(opt_view(idr), opt_view(nm)),
                fst,
                fu as nat,
            ),
        decreases fu,
    {
        if fu == 0 {
            return None;
        }
        let jj = skip_ws(s, p);
        let mut after: usize;
        if fst && jj < n && s[jj] == '}' {
            return Some((idr, nm, jj + 1));
        }
        match parse_string_at(s, jj) {
            Some(kv) => {
                let j3 = skip_ws(s, kv.1);
                if !(j3 < n && s[j3] == ':') {
                    return None;
                }
                let jv = skip_ws(s, j3 + 1);
                if chars_eq(&kv.0, &key_id) {
                    if idr.is_some() {
                        return None;
                    }
                    match parse_string_at(s, jv) {
                        Some(vv) => {
                            proof {
                                assert(sender_acc(Some(vv.0@), opt_view(nm)) =~= sender_acc(
                                    None,
                                    opt_view(nm),
                                ).insert("id"@, vv.0@));
                            }
                            idr = Some(vv.0);
                            after = vv.1;
                        },
                        None => {
                            return None;
                        },
                    }
                } else if chars_eq(&kv.0, &key_name) {
                    if nm.is_some() {
                        return None;
                    }
                    match parse_string_at(s, jv) {
                        Some(vv) => {
                            proof {
                                assert(sender_acc(opt_view(idr), Some(vv.0@)) =~= sender_acc(
                                    opt_view(idr),
                                    None,
                                ).insert("name"@, vv.0@));
                            }
                            nm = Some(vv.0);
                            after = vv.1;
                        },
                        None => {
                            return None;
                        },
                    }
                } else {
                    match skip_value(s, jv, fu) {
                        Some(j4) => {
                            after = j4;
                        },
                        None => {
                            return None;
                        },
                    }
                }
            },
            None => {
                return None;
            },
        }
        let j5 = skip_ws(s, after);
        if j5 < n && s[j5] == ',' {
            p = j5 + 1;
            fst = false;
            fu = fu - 1;
        } else if j5 < n && s[j5] == '}' {
            return Some((idr, nm, j5 + 1));
        } else {
            return None;
        }
    }
}

/// What the envelope reader accepts: a document holding one envelope
/// object, and its type, sender id, sender name and content.
pub open spec fn spec_parse_broadcast(s: Seq<char>) -> Option<(Seq<char>, u128, Seq<char>, Seq<char>)> {
    let j = spec_skip_ws(s, 0);
    if 0 <= j < s.len() && s[j] == '{' {
        match spec_bm_fields(s, j + 1, None, None, None, true, s.len() as nat) {
            Some((t, end)) => if spec_skip_ws(s, end) == s.len() {
                Some((t.0, t.1.0, t.1.1, t.2))
            } else {
                None
            },
            None => None,
        }
    } else {
        None
    }
}

/// The layout facts of a written envelope: where each token stands and
/// which structural char separates it from the next.
#[verifier::rlimit(100)]
proof fn lemma_bm_layout(kind: Seq<char>, id: u128, name: Seq<char>, content: Seq<char>)
    ensures
        ({
            let doc = spec_broadcast_json(kind, id, name, content);
            let qk = spec_quoted(kind);
            let qid = spec_quoted(spec_uuid_str(id));
            let qn = spec_quoted(name);
            let qc = spec_quoted(content);
            let e1 = 8 + qk.len() as int;
            let e2 = e1 + 16 + qid.len() as int;
            let e3 = e2 + 8 + qn.len() as int;
            let e4 = e3 + 12 + qc.len() as int;
            &&& doc.len() == e4 + 1
            &&& doc.subrange(1, 7) == spec_quoted("type"@)
            &&& doc.subrange(8, e1) == qk
            &&& doc.subrange(e1 + 1, e1 + 9) == spec_quoted("sender"@)
            &&& doc.subrange(e1 + 11, e1 + 15) == spec_quoted("id"@)
            &&& doc.subrange(e1 + 16, e2) == qid
            &&& doc.subrange(e2 + 1, e2 + 7) == spec_quoted("name"@)
            &&& doc.subrange(e2 + 8, e3) == qn
            &&& doc.subrange(e3 + 2, e3 + 11) == spec_quoted("content"@)
            &&& doc.subrange(e3 + 12, e4) == qc
            &&& doc[0] == '{'
            &&& doc[7] == ':'
            &&& doc[e1] == ','
            &&& doc[e1 + 9] == ':'
            &&& doc[e1 + 10] == '{'
            &&& doc[e1 + 15] == ':'
            &&& doc[e2] == ','
            &&& doc[e2 + 7] == ':'
            &&& doc[e3] == '}'
            &&& doc[e3 + 1] == ','
            &&& doc[e3 + 11] == ':'
            &&& doc[e4] == '}'
        }),
{
    reveal_strlit("{\"type\":");
    reveal_strlit(",\"sender\":{\"id\":");
    reveal_strlit(",\"name\":");
    reveal_strlit("},\"content\":");
    reveal_strlit("}");
    reveal_strlit("type");
    reveal_strlit("sender");
    reveal_strlit("id");
    reveal_strlit("name");
    reveal_strlit("content");
    let l1 = "{\"type\":"@;
    let l2 = ",\"sender\":{\"id\":"@;
    let l3 = ",\"name\":"@;
    let l4 = "},\"content\":"@;
    let qk = spec_quoted(kind);
    let qid = spec_quoted(spec_uuid_str(id));
    let qn = spec_quoted(name);
    let qc = spec_quoted(content);
    let doc = spec_broadcast_json(kind, id, name, content);
    assert(l1.len() == 8);
    assert(l2.len() == 16);
    assert(l3.len() == 8);
    assert(l4.len() == 12);
    assert forall|x: int| 0 <= x < "type"@.len() implies crate::json::is_plain_char(
        #[trigger] "type"@[x],
    ) by {}
    assert forall|x: int| 0 <= x < "sender"@.len() implies crate::json::is_plain_char(
        #[trigger] "sender"@[x],
    ) by {}
    assert forall|x: int| 0 <= x < "id"@.len() implies crate::json::is_plain_char(
        #[trigger] "id"@[x],
    ) by {}
    assert forall|x: int| 0 <= x < "name"@.len() implies crate::json::is_plain_char(
        #[trigger] "name"@[x],
    ) by {}
    assert forall|x: int| 0 <= x < "content"@.len() implies crate::json::is_plain_char(
        #[trigger] "content"@[x],
    ) by {}
    crate::json::lemma_escape_plain("type"@);
    crate::json::lemma_escape_plain("sender"@);
    crate::json::lemma_escape_plain("id"@);
    crate::json::lemma_escape_plain("name"@);
    crate::json::lemma_escape_plain("content"@);
    assert(spec_quoted("type"@) =~= seq!['"'] + "type"@ + seq!['"']);
    assert(spec_quoted("sender"@) =~= seq!['"'] + "sender"@ + seq!['"']);
    assert(spec_quoted("id"@) =~= seq!['"'] + "id"@ + seq!['"']);
    assert(spec_quoted("name"@) =~= seq!['"'] + "name"@ + seq!['"']);
    assert(spec_quoted("content"@) =~= seq!['"'] + "content"@ + seq!['"']);
    let e1 = 8 + qk.len() as int;
    let e2 = e1 + 16 + qid.len() as int;
    let e3 = e2 + 8 + qn.len() as int;
    let e4 = e3 + 12 + qc.len() as int;
    assert(doc.len() == e4 + 1);
    assert(doc.subrange(1, 7) =~= spec_quoted("type"@));
    assert(doc.subrange(8, e1) =~= qk);
    assert(doc.subrange(e1 + 1, e1 + 9) =~= spec_quoted("sender"@));
    assert(doc.subrange(e1 + 11, e1 + 15) =~= spec_quoted("id"@));
    assert(doc.subrange(e1 + 16, e2) =~= qid);
    assert(doc.subrange(e2 + 1, e2 + 7) =~= spec_quoted("name"@));
    assert(doc.subrange(e2 + 8, e3) =~= qn);
    assert(doc.subrange(e3 + 2, e3 + 11) =~= spec_quoted("content"@));
    assert(doc.subrange(e3 + 12, e4) =~= qc);
}

/// Walks the sender object of a laid-out envelope text.
#[verifier::rlimit(100)]
proof fn lemma_bm_walk_inner(
    s: Seq<char>,
    id: u128,
    name: Seq<char>,
    e1: int,
    e2: int,
    e3: int,
    fuel: nat,
)
    requires
        fuel >= 3,
        0 <= e1,
        e1 + 16 <= e2 < e3 < s.len(),
        spec_parse_string(s, e1 + 11) == Some(("id"@, e1 + 15)),
        spec_parse_string(s, e1 + 16) == Some((spec_uuid_str(id), e2)),
        spec_parse_string(s, e2 + 1) == Some(("name"@, e2 + 7)),
        spec_parse_string(s, e2 + 8) == Some((name, e3)),
        s[e1 + 15] == ':',
        s[e2] == ',',
        s[e2 + 7] == ':',
        s[e3] == '}',
        "id"@ != "name"@,
    ensures
        spec_scan_fields(s, e1 + 11, set!["id"@, "name"@], Map::empty(), true, (fuel - 1) as nat)
            == Some(
            (
                Map::<Seq<char>, Seq<char>>::empty().insert("id"@, spec_uuid_str(id)).insert(
                    "name"@,
                    name,
                ),
                e3 + 1,
            ),
        ),
{
    let w2 = set!["id"@, "name"@];
    let m2a = Map::<Seq<char>, Seq<char>>::empty().insert("id"@, spec_uuid_str(id));
    let m2 = m2a.insert("name"@, name);
    assert(s[e1 + 11] == '"');
    assert(s[e1 + 16] == '"');
    assert(s[e2 + 1] == '"');
    assert(s[e2 + 8] == '"');
    assert(spec_skip_ws(s, e1 + 11) == e1 + 11);
    assert(spec_skip_ws(s, e1 + 15) == e1 + 15);
    assert(spec_skip_ws(s, e1 + 16) == e1 + 16);
    assert(spec_skip_ws(s, e2) == e2);
    assert(spec_skip_ws(s, e2 + 1) == e2 + 1);
    assert(spec_skip_ws(s, e2 + 7) == e2 + 7);
    assert(spec_skip_ws(s, e2 + 8) == e2 + 8);
    assert(spec_skip_ws(s, e3) == e3);
    assert(spec_scan_after(s, e3, w2, m2, (fuel - 2) as nat) == Some((m2, e3 + 1)));
    assert(spec_scan_fields(s, e2 + 1, w2, m2a, false, (fuel - 2) as nat) == Some((m2, e3 + 1)));
    assert(spec_scan_after(s, e2, w2, m2a, (fuel - 1) as nat) == Some((m2, e3 + 1)));
    assert(spec_scan_fields(s, e1 + 11, w2, Map::empty(), true, (fuel - 1) as nat) == Some(
        (m2, e3 + 1),
    ));
}

/// Walks the tail of a laid-out envelope text: from just after the sender
/// object, through the content member, to the closing brace.
#[verifier::rlimit(100)]
proof fn lemma_bm_walk_tail(
    s: Seq<char>,
    kind: Seq<char>,
    id: u128,
    name: Seq<char>,
    content: Seq<char>,
    e3: int,
    e4: int,
    fuel: nat,
)
    requires
        fuel >= 3,
        0 <= e3,
        e3 + 12 <= e4,
        s.len() == e4 + 1,
        spec_parse_string(s, e3 + 2) == Some(("content"@, e3 + 11)),
        spec_parse_string(s, e3 + 12) == Some((content, e4)),
        s[e3 + 1] == ',',
        s[e3 + 11] == ':',
        s[e4] == '}',
        "type"@ != "content"@,
        "sender"@ != "content"@,
    ensures
        spec_bm_after(s, e3 + 1, Some(kind), Some((id, name)), None, (fuel - 1) as nat) == Some(
            (((kind, (id, name), content)), e4 + 1),
        ),
{
    assert(s[e3 + 2] == '"');
    assert(s[e3 + 12] == '"');
    assert(spec_skip_ws(s, e3 + 1) == e3 + 1);
    assert(spec_skip_ws(s, e3 + 2) == e3 + 2);
    assert(spec_skip_ws(s, e3 + 11) == e3 + 11);
    assert(spec_skip_ws(s, e3 + 12) == e3 + 12);
    assert(spec_skip_ws(s, e4) == e4);
    assert(spec_bm_after(s, e4, Some(kind), Some((id, name)), Some(content), (fuel - 2) as nat)
        == Some((((kind, (id, name), content)), e4 + 1)));
    assert(spec_bm_fields(
        s,
        e3 + 2,
        Some(kind),
        Some((id, name)),
        None,
        false,
        (fuel - 2) as nat,
    ) == Some((((kind, (id, name), content)), e4 + 1)));
}

/// Walks a laid-out envelope text from the top.
#[verifier::rlimit(100)]
proof fn lemma_bm_walk(
    s: Seq<char>,
    kind: Seq<char>,
    id: u128,
    name: Seq<char>,
    content: Seq<char>,
    e1: int,
    e2: int,
    e3: int,
    e4: int,
)
    requires
        s.len() == e4 + 1,
        8 <= e1,
        e1 + 16 <= e2,
        e2 + 8 <= e3,
        e3 + 12 <= e4,
        s.len() >= 45,
        spec_parse_string(s, 1) == Some(("type"@, 7int)),
        spec_parse_string(s, 8) == Some((kind, e1)),
        spec_parse_string(s, e1 + 1) == Some(("sender"@, e1 + 9)),
        spec_parse_string(s, e1 + 11) == Some(("id"@, e1 + 15)),
        spec_parse_string(s, e1 + 16) == Some((spec_uuid_str(id), e2)),
        spec_parse_string(s, e2 + 1) == Some(("name"@, e2 + 7)),
        spec_parse_string(s, e2 + 8) == Some((name, e3)),
        spec_parse_string(s, e3 + 2) == Some(("content"@, e3 + 11)),
        spec_parse_string(s, e3 + 12) == Some((content, e4)),
        s[0] == '{',
        s[7] == ':',
        s[e1] == ',',
        s[e1 + 9] == ':',
        s[e1 + 10] == '{',
        s[e1 + 15] == ':',
        s[e2] == ',',
        s[e2 + 7] == ':',
        s[e3] == '}',
        s[e3 + 1] == ',',
        s[e3 + 11] == ':',
        s[e4] == '}',
        "type"@ != "sender"@,
        "type"@ != "content"@,
        "sender"@ != "content"@,
        "type"@ != "id"@,
        "id"@ != "name"@,
    ensures
        spec_parse_broadcast(s) == Some((kind, id, name, content)),
{
    let fuel = s.len() as nat;
    assert(s[1] == '"');
    assert(s[8] == '"');
    assert(s[e1 + 1] == '"');
    assert(spec_skip_ws(s, 0) == 0);
    assert(spec_skip_ws(s, 1) == 1);
    assert(spec_skip_ws(s, 7) == 7);
    assert(spec_skip_ws(s, 8) == 8);
    assert(spec_skip_ws(s, e1) == e1);
    assert(spec_skip_ws(s, e1 + 1) == e1 + 1);
    assert(spec_skip_ws(s, e1 + 9) == e1 + 9);
    assert(spec_skip_ws(s, e1 + 10) == e1 + 10);
    assert(spec_skip_ws(s, e4 + 1) == e4 + 1);
    lemma_bm_walk_inner(s, id, name, e1, e2, e3, fuel);
    crate::ids::lemma_uuid_roundtrip(id);
    let m2 = Map::<Seq<char>, Seq<char>>::empty().insert("id"@, spec_uuid_str(id)).insert(
        "name"@,
        name,
    );
    assert(m2.contains_key("id"@) && m2.contains_key("name"@));
    assert(m2["id"@] == spec_uuid_str(id));
    assert(m2["name"@] == name);
    lemma_bm_walk_tail(s, kind, id, name, content, e3, e4, fuel);
    assert(spec_bm_fields(s, e1 + 1, Some(kind), None, None, false, (fuel - 1) as nat) == Some(
        (((kind, (id, name), content)), e4 + 1),
    ));
    assert(spec_bm_after(s, e1, Some(kind), None, None, fuel) == Some(
        (((kind, (id, name), content)), e4 + 1),
    ));
    assert(spec_bm_fields(s, 1, None, None, None, true, fuel) == Some(
        (((kind, (id, name), content)), e4 + 1),
    ));
}

/// Turns the layout facts of an envelope text into the reader's view of
/// each token.
#[verifier::rlimit(100)]
proof fn lemma_bm_tokens(
    s: Seq<char>,
    kind: Seq<char>,
    id: u128,
    name: Seq<char>,
    content: Seq<char>,
    e1: int,
    e2: int,
    e3: int,
    e4: int,
)
    requires
        s.len() == e4 + 1,
        e1 == 8 + spec_quoted(kind).len(),
        e2 == e1 + 16 + spec_quoted(spec_uuid_str(id)).len(),
        e3 == e2 + 8 + spec_quoted(name).len(),
        e4 == e3 + 12 + spec_quoted(content).len(),
        s.subrange(1, 7) == spec_quoted("type"@),
        s.subrange(8, e1) == spec_quoted(kind),
        s.subrange(e1 + 1, e1 + 9) == spec_quoted("sender"@),
        s.subrange(e1 + 11, e1 + 15) == spec_quoted("id"@),
        s.subrange(e1 + 16, e2) == spec_quoted(spec_uuid_str(id)),
        s.subrange(e2 + 1, e2 + 7) == spec_quoted("name"@),
        s.subrange(e2 + 8, e3) == spec_quoted(name),
        s.subrange(e3 + 2, e3 + 11) == spec_quoted("content"@),
        s.subrange(e3 + 12, e4) == spec_quoted(content),
    ensures
        spec_parse_string(s, 1) == Some(("type"@, 7int)),
        spec_parse_string(s, 8) == Some((kind, e1)),
        spec_parse_string(s, e1 + 1) == Some(("sender"@, e1 + 9)),
        spec_parse_string(s, e1 + 11) == Some(("id"@, e1 + 15)),
        spec_parse_string(s, e1 + 16) == Some((spec_uuid_str(id), e2)),
        spec_parse_string(s, e2 + 1) == Some(("name"@, e2 + 7)),
        spec_parse_string(s, e2 + 8) == Some((name, e3)),
        spec_parse_string(s, e3 + 2) == Some(("content"@, e3 + 11)),
        spec_parse_string(s, e3 + 12) == Some((content, e4)),
{
    reveal_strlit("type");
    reveal_strlit("sender");
    reveal_strlit("id");
    reveal_strlit("name");
    reveal_strlit("content");
    assert forall|x: int| 0 <= x < "type"@.len() implies crate::json::is_plain_char(
        #[trigger] "type"@[x],
    ) by {}
    assert forall|x: int| 0 <= x < "sender"@.len() implies crate::json::is_plain_char(
        #[trigger] "sender"@[x],
    ) by {}
    assert forall|x: int| 0 <= x < "id"@.len() implies crate::json::is_plain_char(
        #[trigger] "id"@[x],
    ) by {}
    assert forall|x: int| 0 <= x < "name"@.len() implies crate::json::is_plain_char(
        #[trigger] "name"@[x],
    ) by {}
    assert forall|x: int| 0 <= x < "content"@.len() implies crate::json::is_plain_char(
        #[trigger] "content"@[x],
    ) by {}
    crate::json::lemma_escape_plain("type"@);
    crate::json::lemma_escape_plain("sender"@);
    crate::json::lemma_escape_plain("id"@);
    crate::json::lemma_escape_plain("name"@);
    crate::json::lemma_escape_plain("content"@);
    assert(spec_quoted("type"@).len() == 6);
    assert(spec_quoted("sender"@).len() == 8);
    assert(spec_quoted("id"@).len() == 4);
    assert(spec_quoted("name"@).len() == 6);
    assert(spec_quoted("content"@).len() == 9);
    crate::json::lemma_parse_quoted(s, 1, "type"@);
    crate::json::lemma_parse_quoted(s, 8, kind);
    crate::json::lemma_parse_quoted(s, e1 + 1, "sender"@);
    crate::json::lemma_parse_quoted(s, e1 + 11, "id"@);
    crate::json::lemma_parse_quoted(s, e1 + 16, spec_uuid_str(id));
    crate::json::lemma_parse_quoted(s, e2 + 1, "name"@);
    crate::json::lemma_parse_quoted(s, e2 + 8, name);
    crate::json::lemma_parse_quoted(s, e3 + 2, "content"@);
    crate::json::lemma_parse_quoted(s, e3 + 12, content);
}

/// Law: reading back a written envelope yields its type, sender id, sender
/// name and content unchanged, whatever they are.
#[verifier::rlimit(100)]
pub proof fn lemma_broadcast_roundtrip(kind: Seq<char>, id: u128, name: Seq<char>, content: Seq<
    char,
>)
    ensures
        spec_parse_broadcast(spec_broadcast_json(kind, id, name, content)) == Some(
            (kind, id, name, content),
        ),
{
    reveal_strlit("type");
    reveal_strlit("sender");
    reveal_strlit("id");
    reveal_strlit("name");
    reveal_strlit("content");
    let doc = spec_broadcast_json(kind, id, name, content);
    let e1 = 8 + spec_quoted(kind).len() as int;
    let e2 = e1 + 16 + spec_quoted(spec_uuid_str(id)).len() as int;
    let e3 = e2 + 8 + spec_quoted(name).len() as int;
    let e4 = e3 + 12 + spec_quoted(content).len() as int;
    lemma_bm_layout(kind, id, name, content);
    lemma_bm_tokens(doc, kind, id, name, content, e1, e2, e3, e4);
    assert("type"@.len() == 4 && "sender"@.len() == 6 && "id"@.len() == 2 && "name"@.len() == 4
        && "content"@.len() == 7);
    assert("type"@ != "sender"@ && "type"@ != "content"@ && "sender"@ != "content"@ && "type"@
        != "id"@ && "id"@ != "name"@);
    lemma_bm_walk(doc, kind, id, name, content, e1, e2, e3, e4);
}

/// Law: the chat path round-trips end to end: a frame written for content
/// `c`, read back by the service, fanned out as the envelope for a sender,
/// and decoded by the peer yields exactly that content and that sender.
pub proof fn lemma_chat_path_roundtrip(c: Seq<char>, sender_id: u128, sender_name: Seq<char>)
    ensures
        spec_parse_chat(spec_chat_json(c)) == Some(c),
        spec_parse_broadcast(spec_broadcast_json("chat_message"@, sender_id, sender_name, c))
            == Some(("chat_message"@, sender_id, sender_name, c)),
{
    lemma_chat_roundtrip(c);
    lemma_broadcast_roundtrip("chat_message"@, sender_id, sender_name, c);
}

/// The view of an optionally captured sender.
pub open spec fn sn_view(x: Option<(u128, Vec<char>)>) -> Option<(u128, Seq<char>)> {
    match x {
        Some(t) => Some((t.0, t.1@)),
        None => None,
    }
}

fn bm_doc(s: &Vec<char>) -> (r: Option<(Vec<char>, u128, Vec<char>, Vec<char>)>)
    ensures
        match r {
            Some(t) => spec_parse_broadcast(s@) == Some((t.0@, t.1, t.2@, t.3@)),
            None => spec_parse_broadcast(s@) is None,
        },
{
    let n = s.len();
    let j = skip_ws(s, 0);
    if !(j < n && s[j] == '{') {
        return None;
    }
    let key_type = str_to_chars("type");
    let key_sender = str_to_chars("sender");
    let key_content = str_to_chars("content");
    let mut p = j + 1;
    let mut fst = true;
    let mut fu = n;
    let mut k: Option<Vec<char>> = None;
    let mut sn: Option<(u128, Vec<char>)> = None;
    let mut c: Option<Vec<char>> = None;
    proof {
        broadcast use vstd::string::group_string_axioms;

        reveal_strlit("type");
        reveal_strlit("sender");
        reveal_strlit("content");
        reveal_strlit("id");
        reveal_strlit("name");
        assert("type"@.len() == 4);
        assert("sender"@.len() == 6);
        assert("content"@.len() == 7);
        assert("id"@.len() == 2);
        assert("name"@.len() == 4);
    }
    loop
        invariant
            n == s@.len(),
            p <= n,
            fu <= n,
            j < n,
            s@[j as int] == '{',
            j == spec_skip_ws(s@, 0),
            key_type@ == "type"@,
            key_sender@ == "sender"@,
            key_content@ == "content"@,
            "type"@ != "sender"@,
            "type"@ != "content"@,
            "sender"@ != "content"@,
            "id"@ != "name"@,
            spec_bm_fields(s@, j + 1, None, None, None, true, n as nat) == spec_bm_fields(
                s@,
                p as int,
                opt_view(k),
                sn_view(sn),
                opt_view(c),
                fst,
                fu as nat,
            ),
        decreases fu,
    {
        if fu == 0 {
            return None;
        }
        let jj = skip_ws(s, p);
        let mut after: usize;
        if fst && jj < n && s[jj] == '}' {
            let t = skip_ws(s, jj + 1);
            if t != n {
                return None;
            }
            match (k, sn, c) {
                (Some(kv), Some(sv), Some(cv)) => {
                    return Some((kv, sv.0, sv.1, cv));
                },
                _ => {
                    return None;
                },
            }
        }
        match parse_string_at(s, jj) {
            Some(kv) => {
                let j3 = skip_ws(s, kv.1);
                if !(j3 < n && s[j3] == ':') {
                    return None;
                }
                let jv = skip_ws(s, j3 + 1);
                if chars_eq(&kv.0, &key_type) {
                    if k.is_some() {
                        return None;
                    }
                    match parse_string_at(s, jv) {
                        Some(vv) => {
                            k = Some(vv.0);
                            after = vv.1;
                        },
                        None => {
                            return None;
                        },
                    }
                } else if chars_eq(&kv.0, &key_sender) {
                    if sn.is_some() {
                        return None;
                    }
                    if !(jv < n && s[jv] == '{') {
                        return None;
                    }
                    match sender_obj(s, jv, fu) {
                        Some(t) => {
                            match (t.0, t.1) {
                                (Some(idv), Some(nmv)) => {
                                    match crate::ids::parse_uuid_chars(&idv) {
                                        Some(u) => {
                                            sn = Some((u, nmv));
                                            after = t.2;
                                        },
                                        None => {
                                            return None;
                                        },
                                    }
                                },
                                _ => {
                                    return None;
                                },
                            }
                        },
                        None => {
                            return None;
                        },
                    }
                } else if chars_eq(&kv.0, &key_content) {
                    if c.is_some() {
                        return None;
                    }
                    match parse_string_at(s, jv) {
                        Some(vv) => {
                            c = Some(vv.0);
                            after = vv.1;
                        },
                        None => {
                            return None;
                        },
                    }
                } else {
                    match skip_value(s, jv, fu) {
                        Some(j4) => {
                            after = j4;
                        },
                        None => {
                            return None;
                        },
                    }
                }
            },
            None => {
                return None;
            },
        }
        let j5 = skip_ws(s, after);
        if j5 < n && s[j5] == ',' {
            p = j5 + 1;
            fst = false;
            fu = fu - 1;
        } else if j5 < n && s[j5] == '}' {
            let t = skip_ws(s, j5 + 1);
            if t != n {
                return None;
            }
            match (k, sn, c) {
                (Some(kv), Some(sv), Some(cv)) => {
                    return Some((kv, sv.0, sv.1, cv));
                },
                _ => {
                    return None;
                },
            }
        } else {
            return None;
        }
    }
}

impl BroadcastMessage {
    /// Reads an outbound envelope, as a peer's client would.  Accepts
    /// exactly the documents [`spec_parse_broadcast`] accepts.
    pub fn from_json(s: &str) -> (r: Result<BroadcastMessage, ParseError>)
        ensures
            match r {
                Ok(m) => spec_parse_broadcast(s@) == Some(
                    (m.kind@, m.sender.id, m.sender.name@, m.content@),
                ),
                Err(_) => spec_parse_broadcast(s@) is None,
            },
    {
        let v = str_to_chars(s);
        match bm_doc(&v) {
            Some(t) => Ok(
                BroadcastMessage {
                    kind: chars_to_string(&t.0),
                    sender: SenderInfo { id: t.1, name: chars_to_string(&t.2) },
                    content: chars_to_string(&t.3),
                },
            ),
            None => Err(ParseError),
        }
    }

    /// Writes the envelope: exactly
    /// `{"type":..,"sender":{"id":..,"name":..},"content":..}` with the
    /// sender id in its canonical textual form.
    pub fn to_json(&self) -> (r: String)
        ensures
            r@ == spec_broadcast_json(self.kind@, self.sender.id, self.sender.name@, self.content@),
    {
        let mut out: Vec<char> = Vec::new();
        push_lit(&mut out, "{\"type\":");
        let kv = str_to_chars(self.kind.as_str());
        push_quoted(&mut out, &kv);
        push_lit(&mut out, ",\"sender\":{\"id\":");
        let idv = str_to_chars(format_uuid(self.sender.id).as_str());
        push_quoted(&mut out, &idv);
        push_lit(&mut out, ",\"name\":");
        let nv = str_to_chars(self.sender.name.as_str());
        push_quoted(&mut out, &nv);
        push_lit(&mut out, "},\"content\":");
        let cv = str_to_chars(self.content.as_str());
        push_quoted(&mut out, &cv);
        push_lit(&mut out, "}");
        proof {
            assert(out@ =~= spec_broadcast_json(
                self.kind@,
                self.sender.id,
                self.sender.name@,
                self.content@,
            ));
        }
        chars_to_string(&out)
    }
}

} // verus!
