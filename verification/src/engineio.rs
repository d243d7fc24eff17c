//! The Engine.IO layer over long polling: packet types, ping and pong, the
//! handshake, and what a poll request is answered with.
use vstd::prelude::*;
use vstd::string::*;
use crate::json::{
    json_empty_object, json_from_array, json_from_string, json_from_u64, json_insert, json_text,
    json_to_string, json_trees, Json, JsonNumber,
};
use crate::packet::{decoded, PacketError};
use crate::socketio::{
    emitted, fetched, fresh, handled, is_connected_in, joined, marked, namespace_body, opt_call,
    plain_utf8, text_reply, EventCall, EventCallModel, Reply, ReplyModel, SocketIO, SocketModel,
};
use crate::text::{chars_of, range_texts, split_on, split_ranges};

verus! {

/// `application/json`.
pub open spec fn json_type() -> Seq<char> {
    "application/json"@
}

/// A reply of status 200 whose body is `text` and whose type is JSON.
pub open spec fn json_reply(text: Seq<char>) -> ReplyModel {
    ReplyModel { status: 200, body: Some(text), content_type: Some(json_type()) }
}

/// A reply of status 200 with no body, of JSON type.
pub open spec fn empty_json_reply() -> ReplyModel {
    ReplyModel { status: 200, body: None, content_type: Some(json_type()) }
}

/// Whether a session is connected and has joined a namespace.
pub open spec fn engine_connected(s: SocketModel, sid: Seq<char>) -> bool {
    is_connected_in(s, sid) && s.sid_namespace.contains_key(sid)
}

/// How an Engine.IO packet from `sid` is answered: ping (`2`) with a pong
/// (`3`), pong (`3`) with a ping (`2`), a message (`4`) by the Socket.IO
/// layer with the rest of the packet; every other type with an empty JSON
/// reply and no change.
pub open spec fn engine_handled(s: SocketModel, packet: Seq<char>, sid: Seq<char>) -> Result<
    (SocketModel, ReplyModel, Option<EventCallModel>),
    PacketError,
> {
    let t = packet[0];
    if t == '2' {
        Ok((s, json_reply("3"@), None))
    } else if t == '3' {
        Ok((s, json_reply("2"@), None))
    } else if t == '4' {
        match decoded(packet.skip(1)) {
            Ok(p) => Ok(handled(s, p, sid)),
            Err(e) => Err(e),
        }
    } else {
        Ok((s, empty_json_reply(), None))
    }
}

/// The handshake object of a new session.
pub open spec fn handshake_object(sid: Seq<char>) -> Json {
    Json::Object(
        Map::empty().insert("sid"@, Json::Str(sid)).insert(
            "upgrades"@,
            Json::Array(seq![Json::Str(""@)]),
        ).insert("pingInterval"@, Json::Number(JsonNumber::PosInt(25000))).insert(
            "pingTimeout"@,
            Json::Number(JsonNumber::PosInt(20000)),
        ).insert("maxPayload"@, Json::Number(JsonNumber::PosInt(1000000))),
    )
}

/// The first non-empty text of a list.
pub open spec fn first_nonempty(parts: Seq<Seq<char>>) -> Option<Seq<char>>
    decreases parts.len(),
{
    if parts.len() == 0 {
        None
    } else if parts[0].len() > 0 {
        Some(parts[0])
    } else {
        first_nonempty(parts.drop_first())
    }
}

/// Why a poll request cannot be answered at all (the server gives up on it).
#[derive(PartialEq, Eq, Structural, Clone, Copy, Debug)]
pub enum EngineFault {
    /// The Socket.IO packet of a message could not be decoded.
    Packet(PacketError),
    /// The type of an Engine.IO packet is not a single-byte character.
    BadPacketType,
}

/// What a poll request leads to.
#[derive(Debug)]
pub enum PollStep {
    /// Answer with this reply, after calling the listeners named, if any.
    Answer(Reply, Option<EventCall>),
    /// Wait for an event of this session (and answer with a ping when none
    /// comes in time).
    Wait(String),
}

pub enum PollStepModel {
    Answer(ReplyModel, Option<EventCallModel>),
    Wait(Seq<char>),
}

impl View for PollStep {
    type V = PollStepModel;

    open spec fn view(&self) -> PollStepModel {
        match self {
            PollStep::Answer(r, c) => PollStepModel::Answer(r@, opt_call(*c)),
            PollStep::Wait(sid) => PollStepModel::Wait(sid@),
        }
    }
}

/// The session id of a poll request: `sid` when given, else `t`.
pub open spec fn poll_sid(query_sid: Seq<char>, query_t: Seq<char>) -> Seq<char> {
    if query_sid.len() == 0 {
        query_t
    } else {
        query_sid
    }
}

/// How a poll request is answered, and the state after it.
///
/// The body holds Engine.IO packets separated by `\u{1e}` (record separator); only the first
/// non-empty one is handled. Without one, a request with no session id is
/// a handshake; a connected session waits for an event; any other session
/// is marked connected and joins the default namespace.
pub open spec fn polled(s: SocketModel, body: Seq<char>, query_sid: Seq<char>, query_t: Seq<char>) -> Result<
    (SocketModel, PollStepModel),
    EngineFault,
> {
    let sid = poll_sid(query_sid, query_t);
    match first_nonempty(split_on(body, '\u{1e}')) {
        Some(p) => if (p[0] as int) < 128 {
            match engine_handled(s, p, sid) {
                Ok((t, reply, call)) => Ok((t, PollStepModel::Answer(reply, call))),
                Err(e) => Err(EngineFault::Packet(e)),
            }
        } else {
            Err(EngineFault::BadPacketType)
        },
        None => if query_sid.len() == 0 {
            Ok(
                (
                    s,
                    PollStepModel::Answer(
                        ReplyModel {
                            status: 200,
                            body: Some("0"@ + json_text(handshake_object(sid))),
                            content_type: Some(plain_utf8()),
                        },
                        None,
                    ),
                ),
            )
        } else if engine_connected(s, sid) {
            Ok((s, PollStepModel::Wait(sid)))
        } else {
            Ok(
                (
                    joined(marked(s, sid, true), "/"@, sid),
                    PollStepModel::Answer(
                        ReplyModel {
                            status: 200,
                            body: Some(namespace_body("40"@, "/"@, sid)),
                            content_type: Some(plain_utf8()),
                        },
                        None,
                    ),
                ),
            )
        },
    }
}

/// The Engine.IO server over the Socket.IO sessions.
pub struct EngineIO {
    socketio: SocketIO,
}

impl View for EngineIO {
    type V = SocketModel;

    closed spec fn view(&self) -> SocketModel {
        self.socketio@
    }
}

impl EngineIO {
    /// No sessions, no listeners.
    pub fn new() -> (r: Self)
        ensures
            r@ == fresh(),
    {
        EngineIO { socketio: SocketIO::new() }
    }

    /// Records that `event` has a listener.
    pub fn on(&mut self, event: &str)
        ensures
            final(self)@ == (SocketModel { listeners: old(self)@.listeners.insert(event@), ..old(self)@ }),
    {
        self.socketio.on(event);
    }

    /// Emits `event` with `data` in `namespace` to `sid`.
    pub fn emit(&mut self, event: &str, data: Vec<serde_json::Value>, namespace: String, sid: String)
        ensures
            final(self)@ == emitted(
                old(self)@,
                event@,
                json_trees(data@),
                namespace@,
                sid@,
            ),
    {
        self.socketio.emit(event, data, namespace, sid);
    }

    /// Answers an open packet.
    pub fn handle_open(&self, payload: &str) -> (r: Reply)
        ensures
            r@ == text_reply("Messages processed"@),
    {
        Reply { status: 200, body: Some("Messages processed".to_owned()), content_type: None }
    }

    /// Hands a message to the Socket.IO layer.
    pub fn handle_message(&mut self, payload: &str, sid: &str) -> (r: Result<
        (Reply, Option<EventCall>),
        PacketError,
    >)
        ensures
            match decoded(payload@) {
                Ok(p) => r matches Ok(ok) && (final(self)@, ok.0@, opt_call(ok.1)) == handled(
                    old(self)@,
                    p,
                    sid@,
                ),
                Err(e) => r matches Err(f) && f == e && final(self)@ == old(self)@,
            },
    {
        self.socketio.handle(payload, sid)
    }

    /// A ping: `2`.
    pub fn ping(&self) -> (r: Reply)
        ensures
            r@ == json_reply("2"@),
    {
        Reply { status: 200, body: Some("2".to_owned()), content_type: Some("application/json".to_owned()) }
    }

    /// A pong: `3`.
    pub fn pong(&self) -> (r: Reply)
        ensures
            r@ == json_reply("3"@),
    {
        Reply { status: 200, body: Some("3".to_owned()), content_type: Some("application/json".to_owned()) }
    }

    /// Marks `sid` connected.
    pub fn set_connect(&mut self, sid: &str)
        ensures
            final(self)@ == marked(old(self)@, sid@, true),
    {
        self.socketio.set_connect(sid);
    }

    /// Marks `sid` disconnected.
    pub fn set_disconnect(&mut self, sid: &str)
        ensures
            final(self)@ == marked(old(self)@, sid@, false),
    {
        self.socketio.set_disconnect(sid);
    }

    /// Whether `sid` is connected and has joined a namespace.
    pub fn is_connected(&self, sid: &str) -> (r: bool)
        ensures
            r == engine_connected(self@, sid@),
    {
        self.socketio.is_connected(sid) && self.socketio.is_registered_namespace(sid)
    }

    /// Takes the oldest queued event of a connected `sid` and answers with it.
    pub fn poll_payload(&mut self, sid: &str) -> (r: Option<Reply>)
        ensures
            final(self)@ == fetched(old(self)@, sid@).0,
            match fetched(old(self)@, sid@).1 {
                Some(e) => r matches Some(reply) && reply@ == (ReplyModel {
                    status: 200,
                    body: Some(e.data),
                    content_type: Some(plain_utf8()),
                }),
                None => r is None,
            },
    {
        match self.socketio.get_payload(sid) {
            Some(item) => Some(
                Reply {
                    status: 200,
                    body: Some(item.data),
                    content_type: Some("text/plain; charset=UTF-8".to_owned()),
                },
            ),
            None => None,
        }
    }

    /// Answers one Engine.IO packet from `sid`.
    pub fn handle_packet(&mut self, packet: &str, sid: &str) -> (r: Result<
        (Reply, Option<EventCall>),
        PacketError,
    >)
        requires
            packet@.len() > 0,
            (packet@[0] as int) < 128,
        ensures
            match engine_handled(old(self)@, packet@, sid@) {
                Ok(t) => r matches Ok(ok) && (final(self)@, ok.0@, opt_call(ok.1)) == t,
                Err(e) => r matches Err(f) && f == e && final(self)@ == old(self)@,
            },
    {
        let t = packet.get_char(0);
        let n = packet.unicode_len();
        let payload = packet.substring_char(1, n);
        assert(payload@ =~= packet@.skip(1));
        if t == '2' {
            Ok((self.pong(), None))
        } else if t == '3' {
            Ok((self.ping(), None))
        } else if t == '4' {
            self.handle_message(payload, sid)
        } else {
            if t == '0' {
                self.handle_open(payload);
            }
            Ok((Reply { status: 200, body: None, content_type: Some("application/json".to_owned()) }, None))
        }
    }

    /// The handshake reply of a new session `sid`.
    fn handshake(sid: &str) -> (r: Reply)
        ensures
            r@ == (ReplyModel {
                status: 200,
                body: Some("0"@ + json_text(handshake_object(sid@))),
                content_type: Some(plain_utf8()),
            }),
    {
        let mut obj = json_empty_object();
        json_insert(&mut obj, "sid".to_owned(), json_from_string(sid.to_owned()));
        let mut upgrades: Vec<serde_json::Value> = Vec::new();
        upgrades.push(json_from_string("".to_owned()));
        assert(json_trees(upgrades@) =~= seq![Json::Str(""@)]);
        json_insert(&mut obj, "upgrades".to_owned(), json_from_array(upgrades));
        json_insert(&mut obj, "pingInterval".to_owned(), json_from_u64(25000));
        json_insert(&mut obj, "pingTimeout".to_owned(), json_from_u64(20000));
        json_insert(&mut obj, "maxPayload".to_owned(), json_from_u64(1000000));
        let mut body = "0".to_owned();
        let text = json_to_string(&obj);
        body.append(text.as_str());
        Reply {
            status: 200,
            body: Some(body),
            content_type: Some("text/plain; charset=UTF-8".to_owned()),
        }
    }

    /// Decides how a long-polling request is answered: `body` is the request
    /// body and `query_sid`, `query_t` the `sid` and `t` of its query.
    pub fn long_polling_step(&mut self, body: &str, query_sid: &str, query_t: &str) -> (r: Result<
        PollStep,
        EngineFault,
    >)
        ensures
            match polled(old(self)@, body@, query_sid@, query_t@) {
                Ok(t) => r matches Ok(step) && final(self)@ == t.0 && step@ == t.1,
                Err(e) => r matches Err(f) && f == e && final(self)@ == old(self)@,
            },
    {
        let no_sid = query_sid.unicode_len() == 0;
        let sid: String = if no_sid {
            query_t.to_owned()
        } else {
            query_sid.to_owned()
        };
        let v = chars_of(body);
        let n = v.len();
        let parts = split_ranges(&v, 0, n, '\u{1e}');
        let ghost texts = range_texts(v@, parts@);
        assert(v@.subrange(0, n as int) =~= body@);
        assert(texts.skip(0) =~= texts);
        let mut k: usize = 0;
        while k < parts.len()
            invariant
                k <= parts@.len(),
                n == v@.len(),
                v@ == body@,
                texts == range_texts(v@, parts@),
                texts == split_on(body@, '\u{1e}'),
                first_nonempty(texts) == first_nonempty(texts.skip(k as int)),
                forall|i: int| 0 <= i < parts@.len() ==> 0 <= #[trigger] parts@[i].0 <= parts@[i].1
                    <= n,
                self@ == old(self)@,
                sid@ == poll_sid(query_sid@, query_t@),
            decreases parts@.len() - k,
        {
            let (a, b) = parts[k];
            let ghost tail = texts.skip(k as int);
            assert(tail[0] == texts[k as int]);
            if a < b {
                let p = body.substring_char(a, b);
                assert(p@ == texts[k as int]);
                assert(first_nonempty(tail) == Some(p@));
                let first = v[a];
                if first <= '\x7f' {
                    assert(p@[0] == v@[a as int]);
                    return match self.handle_packet(p, sid.as_str()) {
                        Ok((reply, call)) => Ok(PollStep::Answer(reply, call)),
                        Err(e) => Err(EngineFault::Packet(e)),
                    };
                } else {
                    assert(p@[0] == v@[a as int]);
                    return Err(EngineFault::BadPacketType);
                }
            }
            assert(tail.drop_first() =~= texts.skip(k + 1));
            k += 1;
        }
        assert(texts.skip(parts@.len() as int) =~= Seq::<Seq<char>>::empty());
        if no_sid {
            Ok(PollStep::Answer(Self::handshake(sid.as_str()), None))
        } else if self.is_connected(sid.as_str()) {
            Ok(PollStep::Wait(sid))
        } else {
            self.set_connect(sid.as_str());
            proof {
                reveal_strlit("0");
                assert("0"@.skip(1) =~= Seq::<char>::empty());
            }
            match self.handle_message("0", sid.as_str()) {
                Ok((reply, call)) => Ok(PollStep::Answer(reply, call)),
                Err(e) => Err(EngineFault::Packet(e)),
            }
        }
    }
}

// ---------------------------------------------------------------------------
// Laws of the Engine.IO layer
// ---------------------------------------------------------------------------

/// A ping is answered with a pong and a pong with a ping; neither changes
/// the sessions.
pub proof fn law_ping_pong(s: SocketModel, packet: Seq<char>, sid: Seq<char>)
    requires
        packet.len() > 0,
    ensures
        packet[0] == '2' ==> engine_handled(s, packet, sid) == Ok::<
            (SocketModel, ReplyModel, Option<EventCallModel>),
            PacketError,
        >((s, json_reply("3"@), None)),
        packet[0] == '3' ==> engine_handled(s, packet, sid) == Ok::<
            (SocketModel, ReplyModel, Option<EventCallModel>),
            PacketError,
        >((s, json_reply("2"@), None)),
{
}

proof fn lemma_empty_body()
    ensures
        first_nonempty(split_on(Seq::<char>::empty(), '\u{1e}')) is None,
{
    let parts = split_on(Seq::<char>::empty(), '\u{1e}');
    assert(parts =~= seq![Seq::<char>::empty()]);
    assert(parts.drop_first() =~= Seq::<Seq<char>>::empty());
    assert(first_nonempty(parts.drop_first()) is None);
    assert(parts[0].len() == 0);
}

/// An empty poll without a session id is answered with the handshake of the
/// session named by `t`, and changes nothing.
pub proof fn law_handshake(s: SocketModel, query_t: Seq<char>)
    ensures
        polled(s, Seq::empty(), Seq::empty(), query_t) == Ok::<(SocketModel, PollStepModel), EngineFault>(
            (
                s,
                PollStepModel::Answer(
                    ReplyModel {
                        status: 200,
                        body: Some("0"@ + json_text(handshake_object(query_t))),
                        content_type: Some(plain_utf8()),
                    },
                    None,
                ),
            ),
        ),
{
    lemma_empty_body();
}

/// The first empty poll of a session that is not connected connects it to
/// the default namespace; from then on an empty poll waits for its events.
pub proof fn law_connect_then_wait(s: SocketModel, sid: Seq<char>, query_t: Seq<char>)
    requires
        sid.len() > 0,
        !engine_connected(s, sid),
    ensures
        ({
            let t = joined(marked(s, sid, true), "/"@, sid);
            &&& polled(s, Seq::empty(), sid, query_t) == Ok::<(SocketModel, PollStepModel), EngineFault>(
                (
                    t,
                    PollStepModel::Answer(
                        ReplyModel {
                            status: 200,
                            body: Some(namespace_body("40"@, "/"@, sid)),
                            content_type: Some(plain_utf8()),
                        },
                        None,
                    ),
                ),
            )
            &&& engine_connected(t, sid)
            &&& polled(t, Seq::empty(), sid, query_t) == Ok::<(SocketModel, PollStepModel), EngineFault>(
                (t, PollStepModel::Wait(sid)),
            )
        }),
{
    lemma_empty_body();
}

/// An empty poll with a session id always leaves that session marked
/// connected and in a namespace: a session that is not marked connected is
/// connected to the default namespace and told so; a poll is answered by
/// waiting only for a session that was already connected, and then changes
/// nothing.
pub proof fn law_empty_poll_connects(s: SocketModel, sid: Seq<char>, query_t: Seq<char>)
    requires
        sid.len() > 0,
    ensures
        polled(s, Seq::empty(), sid, query_t) matches Ok((s2, step)) && is_connected_in(s2, sid)
            && s2.sid_namespace.contains_key(sid) && (step is Wait ==> s2 == s && step
            == PollStepModel::Wait(sid)),
        !is_connected_in(s, sid) ==> (polled(s, Seq::empty(), sid, query_t) matches Ok((s2, step))
            && s2.sid_namespace[sid] == "/"@ && step == PollStepModel::Answer(
            ReplyModel {
                status: 200,
                body: Some(namespace_body("40"@, "/"@, sid)),
                content_type: Some(plain_utf8()),
            },
            None,
        )),
{
    lemma_empty_body();
}

/// Every Engine.IO packet that is not a message (`4`) is answered without
/// error and changes no session; one that is neither a ping (`2`) nor a
/// pong (`3`), such as a close (`1`), is only acknowledged with an empty
/// JSON reply.
pub proof fn law_non_message_acknowledged(s: SocketModel, packet: Seq<char>, sid: Seq<char>)
    requires
        packet.len() > 0,
        packet[0] != '4',
    ensures
        engine_handled(s, packet, sid) matches Ok((t, reply, call)) && t == s && call is None
            && reply.status == 200 && reply.content_type == Some(json_type()),
        packet[0] != '2' && packet[0] != '3' ==> engine_handled(s, packet, sid) == Ok::<
            (SocketModel, ReplyModel, Option<EventCallModel>),
            PacketError,
        >((s, ReplyModel { status: 200, body: None, content_type: Some("application/json"@) }, None)),
{
}

} // verus!
