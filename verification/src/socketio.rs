//! Socket.IO session state: per-session queues of outgoing events, event
//! listeners, namespace membership and connection flags, and the replies to
//! incoming packets.
use std::collections::VecDeque;
use vstd::hash_map::StringHashMap;
use vstd::prelude::*;
use vstd::pervasive::unreached;
use vstd::string::*;
use crate::json::{
    json_as_str, json_empty_object, json_from_string, json_insert, json_text, json_to_string,
    json_trees, Json,
};
use crate::packet::{
    decode_packet, decoded, encode_packet, encoded, Packet, PacketError, PacketKind, PacketModel,
};

verus! {

/// An encoded event waiting to be fetched by a long-polling client.
#[derive(Debug)]
pub struct QueuedEvent {
    pub event: String,
    pub data: String,
    pub sid: String,
}

pub struct QueuedEventModel {
    pub event: Seq<char>,
    pub data: Seq<char>,
    pub sid: Seq<char>,
}

impl View for QueuedEvent {
    type V = QueuedEventModel;

    open spec fn view(&self) -> QueuedEventModel {
        QueuedEventModel { event: self.event@, data: self.data@, sid: self.sid@ }
    }
}

impl QueuedEvent {
    /// A copy of the event.
    pub fn duplicate(&self) -> (r: QueuedEvent)
        ensures
            r@ == self@,
    {
        QueuedEvent { event: self.event.clone(), data: self.data.clone(), sid: self.sid.clone() }
    }
}

/// The events of a queue, as values.
pub open spec fn queue_model(q: Seq<QueuedEvent>) -> Seq<QueuedEventModel> {
    q.map_values(|e: QueuedEvent| e@)
}

fn copy_queue(q: &VecDeque<QueuedEvent>) -> (r: VecDeque<QueuedEvent>)
    ensures
        queue_model(r@) == queue_model(q@),
{
    let mut r: VecDeque<QueuedEvent> = VecDeque::new();
    let mut i: usize = 0;
    while i < q.len()
        invariant
            i <= q@.len(),
            queue_model(r@) == queue_model(q@.take(i as int)),
        decreases q@.len() - i,
    {
        let e = q[i].duplicate();
        let ghost r0 = r@;
        r.push_back(e);
        assert(queue_model(r@) =~= queue_model(r0).push(e@));
        assert(q@.take(i + 1) =~= q@.take(i as int).push(q@[i as int]));
        assert(queue_model(q@.take(i + 1)) =~= queue_model(q@.take(i as int)).push(q@[i as int]@));
        i += 1;
    }
    assert(q@.take(q@.len() as int) =~= q@);
    r
}

/// An HTTP reply: status, body (if one is set) and `Content-Type` header
/// (if one is set).
#[derive(Debug)]
pub struct Reply {
    pub status: u16,
    pub body: Option<String>,
    pub content_type: Option<String>,
}

pub struct ReplyModel {
    pub status: u16,
    pub body: Option<Seq<char>>,
    pub content_type: Option<Seq<char>>,
}

pub open spec fn opt_text(s: Option<String>) -> Option<Seq<char>> {
    match s {
        Some(t) => Some(t@),
        None => None,
    }
}

impl View for Reply {
    type V = ReplyModel;

    open spec fn view(&self) -> ReplyModel {
        ReplyModel {
            status: self.status,
            body: opt_text(self.body),
            content_type: opt_text(self.content_type),
        }
    }
}

/// The listeners of `event` are to be called with `data`, `namespace` and `sid`.
#[derive(Debug)]
pub struct EventCall {
    pub event: String,
    pub data: Vec<serde_json::Value>,
    pub namespace: String,
    pub sid: String,
}

pub struct EventCallModel {
    pub event: Seq<char>,
    pub data: Seq<Json>,
    pub namespace: Seq<char>,
    pub sid: Seq<char>,
}

impl View for EventCall {
    type V = EventCallModel;

    open spec fn view(&self) -> EventCallModel {
        EventCallModel {
            event: self.event@,
            data: json_trees(self.data@),
            namespace: self.namespace@,
            sid: self.sid@,
        }
    }
}

/// The reply with status 200 and a plain-text body, whose type is set by the body.
pub open spec fn text_reply(body: Seq<char>) -> ReplyModel {
    ReplyModel { status: 200, body: Some(body), content_type: None }
}

/// `text/plain; charset=UTF-8`.
pub open spec fn plain_utf8() -> Seq<char> {
    "text/plain; charset=UTF-8"@
}

/// The object `{"sid": sid}`.
pub open spec fn sid_object(sid: Seq<char>) -> Json {
    Json::Object(Map::empty().insert("sid"@, Json::Str(sid)))
}

/// The body answering a connect (`40`) or a disconnect (`41`): the code, the
/// namespace and a comma unless it is `/`, then `{"sid": sid}`.
pub open spec fn namespace_body(code: Seq<char>, namespace: Seq<char>, sid: Seq<char>) -> Seq<char> {
    code + (if namespace == "/"@ {
        ""@
    } else {
        namespace + ","@
    }) + json_text(sid_object(sid))
}

/// The Socket.IO session state as values.
#[verifier::ext_equal]
pub struct SocketModel {
    /// Events waiting for each session id, oldest first.
    pub queues: Map<Seq<char>, Seq<QueuedEventModel>>,
    /// The events that have listeners.
    pub listeners: Set<Seq<char>>,
    /// The session ids joined to each namespace, in the order they joined.
    pub namespaces: Map<Seq<char>, Seq<Seq<char>>>,
    /// The namespace each session id last joined.
    pub sid_namespace: Map<Seq<char>, Seq<char>>,
    /// Whether each session id is connected.
    pub connected: Map<Seq<char>, bool>,
}

/// The state with no sessions and no listeners.
pub open spec fn fresh() -> SocketModel {
    SocketModel {
        queues: Map::empty(),
        listeners: Set::empty(),
        namespaces: Map::empty(),
        sid_namespace: Map::empty(),
        connected: Map::empty(),
    }
}

/// Whether a session id is marked connected.
pub open spec fn is_connected_in(s: SocketModel, sid: Seq<char>) -> bool {
    s.connected.contains_key(sid) && s.connected[sid]
}

/// The queue of a session id (empty when it has none).
pub open spec fn queue_of(s: SocketModel, sid: Seq<char>) -> Seq<QueuedEventModel> {
    if s.queues.contains_key(sid) {
        s.queues[sid]
    } else {
        seq![]
    }
}

/// The text of an emitted event: an event packet in the namespace, with no
/// id, whose data is the event name followed by `data`.
pub open spec fn event_text(event: Seq<char>, data: Seq<Json>, namespace: Seq<char>) -> Seq<char> {
    encoded(
        PacketModel {
            kind: PacketKind::Event,
            id: ""@,
            namespace,
            data: Json::Array(seq![Json::Str(event)] + data),
        },
    )
}

/// The state after emitting: a connected session id gets the event at the
/// end of its queue; for any other nothing changes.
pub open spec fn emitted(
    s: SocketModel,
    event: Seq<char>,
    data: Seq<Json>,
    namespace: Seq<char>,
    sid: Seq<char>,
) -> SocketModel {
    if is_connected_in(s, sid) {
        SocketModel {
            queues: s.queues.insert(
                sid,
                queue_of(s, sid).push(
                    QueuedEventModel { event, data: event_text(event, data, namespace), sid },
                ),
            ),
            ..s
        }
    } else {
        s
    }
}

/// Fetching the next event of a session id: for a connected one with a
/// non-empty queue, the oldest event leaves its queue; otherwise nothing.
pub open spec fn fetched(s: SocketModel, sid: Seq<char>) -> (SocketModel, Option<QueuedEventModel>) {
    if is_connected_in(s, sid) && s.queues.contains_key(sid) && s.queues[sid].len() > 0 {
        (SocketModel { queues: s.queues.insert(sid, s.queues[sid].drop_first()), ..s }, Some(s.queues[sid][0]))
    } else {
        (s, None)
    }
}

/// `s` without the first occurrence of `x` (unchanged when there is none).
pub open spec fn remove_first(s: Seq<Seq<char>>, x: Seq<char>) -> Seq<Seq<char>>
    decreases s.len(),
{
    if s.len() == 0 {
        s
    } else if s[0] == x {
        s.drop_first()
    } else {
        seq![s[0]] + remove_first(s.drop_first(), x)
    }
}

/// The state after `sid` joins `namespace`.
pub open spec fn joined(s: SocketModel, namespace: Seq<char>, sid: Seq<char>) -> SocketModel {
    SocketModel {
        namespaces: s.namespaces.insert(
            namespace,
            (if s.namespaces.contains_key(namespace) {
                s.namespaces[namespace]
            } else {
                seq![]
            }).push(sid),
        ),
        sid_namespace: s.sid_namespace.insert(sid, namespace),
        ..s
    }
}

/// The state after `value` is taken out of the members of `namespace`.
pub open spec fn left_namespace(s: SocketModel, namespace: Seq<char>, value: Seq<char>) -> SocketModel {
    if s.namespaces.contains_key(namespace) {
        SocketModel {
            namespaces: s.namespaces.insert(namespace, remove_first(s.namespaces[namespace], value)),
            ..s
        }
    } else {
        s
    }
}

/// The state after `sid` leaves `namespace` and loses its namespace entry.
pub open spec fn unregistered(s: SocketModel, namespace: Seq<char>, sid: Seq<char>) -> SocketModel {
    let t = left_namespace(s, namespace, sid);
    SocketModel { sid_namespace: t.sid_namespace.remove(sid), ..t }
}

/// The state after marking `sid` connected or not.
pub open spec fn marked(s: SocketModel, sid: Seq<char>, on: bool) -> SocketModel {
    SocketModel { connected: s.connected.insert(sid, on), ..s }
}

/// The texts of a list of strings.
pub open spec fn texts(v: Seq<String>) -> Seq<Seq<char>> {
    v.map_values(|x: String| x@)
}

fn clone_strings(v: &Vec<String>) -> (r: Vec<String>)
    ensures
        texts(r@) == texts(v@),
{
    let mut r: Vec<String> = Vec::new();
    let mut i: usize = 0;
    while i < v.len()
        invariant
            i <= v@.len(),
            texts(r@) == texts(v@.take(i as int)),
        decreases v@.len() - i,
    {
        let ghost r0 = r@;
        r.push(v[i].clone());
        assert(texts(r@) =~= texts(r0).push(v@[i as int]@));
        assert(texts(v@.take(i + 1)) =~= texts(v@.take(i as int)).push(v@[i as int]@));
        i += 1;
    }
    assert(v@.take(v@.len() as int) =~= v@);
    r
}

/// `remove_first` takes out the element at the first index that holds `x`.
pub proof fn lemma_remove_first(s: Seq<Seq<char>>, x: Seq<char>, i: int)
    requires
        0 <= i < s.len(),
        s[i] == x,
        forall|j: int| 0 <= j < i ==> s[j] != x,
    ensures
        remove_first(s, x) == s.remove(i),
    decreases s.len(),
{
    if i > 0 {
        lemma_remove_first(s.drop_first(), x, i - 1);
        assert(seq![s[0]] + s.drop_first().remove(i - 1) =~= s.remove(i));
    }
}

/// Without `x`, `remove_first` changes nothing.
pub proof fn lemma_remove_first_absent(s: Seq<Seq<char>>, x: Seq<char>)
    requires
        forall|j: int| 0 <= j < s.len() ==> s[j] != x,
    ensures
        remove_first(s, x) == s,
    decreases s.len(),
{
    if s.len() > 0 {
        lemma_remove_first_absent(s.drop_first(), x);
        assert(seq![s[0]] + s.drop_first() =~= s);
    }
}

/// The event named by the first element of an event's data, when it is a string.
pub open spec fn event_name(data: Seq<Json>) -> Option<Seq<char>> {
    if data.len() > 0 && data[0] is Str {
        Some(data[0]->Str_0)
    } else {
        None
    }
}

/// The listener call that an event with `data` makes: one when its name has
/// listeners.
pub open spec fn event_call(
    s: SocketModel,
    namespace: Seq<char>,
    data: Seq<Json>,
    sid: Seq<char>,
) -> Option<EventCallModel> {
    match event_name(data) {
        Some(name) => if s.listeners.contains(name) {
            Some(EventCallModel { event: name, data, namespace, sid })
        } else {
            None
        },
        None => None,
    }
}

/// How the session state answers a decoded packet from `sid`: a connect joins
/// the namespace, a disconnect leaves it and marks `sid` disconnected, an
/// event calls the listeners of its name; other packets change nothing.
pub open spec fn handled(s: SocketModel, p: PacketModel, sid: Seq<char>) -> (
    SocketModel,
    ReplyModel,
    Option<EventCallModel>,
) {
    match p.kind {
        PacketKind::Connect => (
            joined(s, p.namespace, sid),
            ReplyModel {
                status: 200,
                body: Some(namespace_body("40"@, p.namespace, sid)),
                content_type: Some(plain_utf8()),
            },
            None,
        ),
        PacketKind::Disconnect => (
            marked(unregistered(s, p.namespace, sid), sid, false),
            ReplyModel {
                status: 200,
                body: Some(namespace_body("41"@, p.namespace, sid)),
                content_type: Some(plain_utf8()),
            },
            None,
        ),
        PacketKind::Event => (
            s,
            text_reply("Event processed"@),
            event_call(s, p.namespace, p.data->Array_0, sid),
        ),
        _ => (s, text_reply("Messages processed"@), None),
    }
}

pub open spec fn opt_event(e: Option<QueuedEvent>) -> Option<QueuedEventModel> {
    match e {
        Some(x) => Some(x@),
        None => None,
    }
}

pub open spec fn opt_call(c: Option<EventCall>) -> Option<EventCallModel> {
    match c {
        Some(x) => Some(x@),
        None => None,
    }
}

/// Socket.IO sessions.
pub struct SocketIO {
    event_queues: StringHashMap<VecDeque<QueuedEvent>>,
    listeners: StringHashMap<bool>,
    namespaces: StringHashMap<Vec<String>>,
    sid2namespaces: StringHashMap<String>,
    sid_connected: StringHashMap<bool>,
}

impl View for SocketIO {
    type V = SocketModel;

    closed spec fn view(&self) -> SocketModel {
        SocketModel {
            queues: self.event_queues@.map_values(|q: VecDeque<QueuedEvent>| queue_model(q@)),
            listeners: self.listeners@.dom(),
            namespaces: self.namespaces@.map_values(|v: Vec<String>| texts(v@)),
            sid_namespace: self.sid2namespaces@.map_values(|x: String| x@),
            connected: self.sid_connected@,
        }
    }
}

impl SocketIO {
    /// No sessions, no listeners.
    pub fn new() -> (r: Self)
        ensures
            r@ == fresh(),
    {
        let r = SocketIO {
            event_queues: StringHashMap::new(),
            listeners: StringHashMap::new(),
            namespaces: StringHashMap::new(),
            sid2namespaces: StringHashMap::new(),
            sid_connected: StringHashMap::new(),
        };
        assert(r@ =~= fresh());
        r
    }

    /// Records that `event` has a listener (the callback itself is kept by
    /// the caller, which calls it for each `EventCall` of that event).
    pub fn on(&mut self, event: &str)
        ensures
            final(self)@ == (SocketModel { listeners: old(self)@.listeners.insert(event@), ..old(self)@ }),
    {
        self.listeners.insert(event.to_owned(), true);
        assert(self@.listeners =~= old(self)@.listeners.insert(event@));
    }

    /// Whether `sid` is marked connected.
    pub fn is_connected(&self, sid: &str) -> (r: bool)
        ensures
            r == is_connected_in(self@, sid@),
    {
        match self.sid_connected.get(sid) {
            Some(b) => *b,
            None => false,
        }
    }

    /// Marks `sid` connected.
    pub fn set_connect(&mut self, sid: &str)
        ensures
            final(self)@ == marked(old(self)@, sid@, true),
    {
        self.sid_connected.insert(sid.to_owned(), true);
        assert(self@ == marked(old(self)@, sid@, true));
    }

    /// Marks `sid` disconnected.
    pub fn set_disconnect(&mut self, sid: &str)
        ensures
            final(self)@ == marked(old(self)@, sid@, false),
    {
        self.sid_connected.insert(sid.to_owned(), false);
        assert(self@ == marked(old(self)@, sid@, false));
    }

    /// Emits `event` with `data` in `namespace` to `sid`: when `sid` is
    /// connected, the encoded event joins the end of its queue.
    pub fn emit(&mut self, event: &str, data: Vec<serde_json::Value>, namespace: String, sid: String)
        ensures
            final(self)@ == emitted(old(self)@, event@, json_trees(data@), namespace@, sid@),
    {
        let ghost trees = json_trees(data@);
        let ghost ns = namespace@;
        let mut payload: Vec<serde_json::Value> = Vec::new();
        payload.push(json_from_string(event.to_owned()));
        let mut rest = data;
        let ghost first = payload@;
        payload.append(&mut rest);
        assert(json_trees(payload@) =~= seq![Json::Str(event@)] + trees) by {
            assert(payload@ =~= first + data@);
        }
        let packet = Packet::EVENT { id: "".to_owned(), namespace, data: payload };
        let text = match encode_packet(packet) {
            Ok(t) => t,
            Err(_) => unreached(),
        };
        assert(text@ == event_text(event@, trees, ns));
        let queued = QueuedEvent { event: event.to_owned(), data: text, sid: sid.clone() };
        if self.is_connected(sid.as_str()) {
            let mut q = match self.event_queues.get(sid.as_str()) {
                Some(q) => copy_queue(q),
                None => VecDeque::new(),
            };
            let ghost q0 = q@;
            q.push_back(queued);
            assert(queue_model(q@) =~= queue_model(q0).push(queued@));
            assert(queue_model(q0) == queue_of(old(self)@, sid@));
            self.event_queues.insert(sid, q);
            assert(self@ =~= emitted(old(self)@, event@, trees, ns, sid@));
        }
    }

    /// Takes the oldest queued event of a connected `sid`.
    pub fn get_payload(&mut self, sid: &str) -> (r: Option<QueuedEvent>)
        ensures
            final(self)@ == fetched(old(self)@, sid@).0,
            opt_event(r) == fetched(old(self)@, sid@).1,
    {
        if self.is_connected(sid) {
            let found = match self.event_queues.get(sid) {
                Some(q) => Some(copy_queue(q)),
                None => None,
            };
            if let Some(mut q) = found {
                let ghost q0 = q@;
                let front = q.pop_front();
                if front.is_some() {
                    assert(queue_model(q@) =~= queue_model(q0).drop_first());
                    self.event_queues.insert(sid.to_owned(), q);
                    assert(self@ =~= fetched(old(self)@, sid@).0);
                }
                return front;
            }
        }
        None
    }

    /// `value` joins `namespace`, and `namespace` becomes its namespace.
    pub fn insert_namespace(&mut self, namespace: String, value: String)
        ensures
            final(self)@ == joined(old(self)@, namespace@, value@),
    {
        let mut members = match self.namespaces.get(namespace.as_str()) {
            Some(v) => clone_strings(v),
            None => Vec::new(),
        };
        let ghost m0 = members@;
        assert(old(self)@.namespaces.contains_key(namespace@) ==> texts(m0) == old(
            self,
        )@.namespaces[namespace@]);
        assert(!old(self)@.namespaces.contains_key(namespace@) ==> texts(m0) =~= Seq::<
            Seq<char>,
        >::empty());
        members.push(value.clone());
        assert(texts(members@) =~= texts(m0).push(value@));
        self.namespaces.insert(namespace.clone(), members);
        let ghost value_text = value@;
        let ghost ns_text = namespace@;
        self.sid2namespaces.insert(value, namespace);
        let ghost j = joined(old(self)@, ns_text, value_text);
        assert(self@.namespaces =~= j.namespaces);
        assert(self@.sid_namespace =~= j.sid_namespace);
        assert(self@ =~= j);
    }

    /// Takes the first occurrence of `value` out of the members of `namespace`.
    pub fn remove_value_from_namespace(&mut self, namespace: &str, value: &str)
        ensures
            final(self)@ == left_namespace(old(self)@, namespace@, value@),
    {
        let found = match self.namespaces.get(namespace) {
            Some(v) => Some(clone_strings(v)),
            None => None,
        };
        if let Some(mut members) = found {
            let target = value.to_owned();
            let mut i: usize = 0;
            let ghost s = texts(members@);
            assert(s == old(self)@.namespaces[namespace@]);
            while i < members.len()
                invariant
                    i <= members@.len(),
                    s == texts(members@),
                    self@ == old(self)@,
                    old(self)@.namespaces.contains_key(namespace@),
                    s == old(self)@.namespaces[namespace@],
                    target@ == value@,
                    forall|j: int| 0 <= j < i ==> s[j] != value@,
                decreases members@.len() - i,
            {
                if members[i] == target {
                    proof {
                        lemma_remove_first(s, value@, i as int);
                    }
                    members.remove(i);
                    assert(texts(members@) =~= s.remove(i as int));
                    self.namespaces.insert(namespace.to_owned(), members);
                    assert(self@.namespaces =~= left_namespace(old(self)@, namespace@, value@).namespaces);
                    assert(self@ =~= left_namespace(old(self)@, namespace@, value@));
                    return;
                }
                i += 1;
            }
            proof {
                lemma_remove_first_absent(s, value@);
            }
            assert(self@.namespaces =~= left_namespace(old(self)@, namespace@, value@).namespaces);
            assert(self@ =~= left_namespace(old(self)@, namespace@, value@));
        }
    }

    /// `sid` leaves `namespace` and loses its namespace entry, which is returned.
    pub fn remove_namespace(&mut self, namespace: &str, sid: &str) -> (r: Option<String>)
        ensures
            final(self)@ == unregistered(old(self)@, namespace@, sid@),
            opt_text(r) == (if old(self)@.sid_namespace.contains_key(sid@) {
                Some(old(self)@.sid_namespace[sid@])
            } else {
                None
            }),
    {
        self.remove_value_from_namespace(namespace, sid);
        let previous = match self.sid2namespaces.get(sid) {
            Some(ns) => Some(ns.clone()),
            None => None,
        };
        self.sid2namespaces.remove(sid);
        assert(self@ =~= unregistered(old(self)@, namespace@, sid@));
        previous
    }

    /// The JSON text `{"sid": sid}`.
    fn sid_json(sid: &str) -> (r: String)
        ensures
            r@ == json_text(sid_object(sid@)),
    {
        let mut obj = json_empty_object();
        json_insert(&mut obj, "sid".to_owned(), json_from_string(sid.to_owned()));
        json_to_string(&obj)
    }

    /// The body answering a connect or a disconnect.
    fn namespace_reply(code: &str, namespace: &str, sid: &str) -> (r: Reply)
        ensures
            r@ == (ReplyModel {
                status: 200,
                body: Some(namespace_body(code@, namespace@, sid@)),
                content_type: Some(plain_utf8()),
            }),
    {
        let mut body = code.to_owned();
        let ns = namespace.to_owned();
        if !(ns == "/".to_owned()) {
            body.append(namespace);
            body.append(",");
        } else {
            body.append("");
        }
        let json = Self::sid_json(sid);
        body.append(json.as_str());
        assert(body@ =~= namespace_body(code@, namespace@, sid@));
        Reply {
            status: 200,
            body: Some(body),
            content_type: Some("text/plain; charset=UTF-8".to_owned()),
        }
    }

    /// Answers a connect: `sid` joins `namespace`.
    pub fn handle_connect(&mut self, namespace: &str, payload: serde_json::Value, sid: &str) -> (r: Reply)
        ensures
            final(self)@ == joined(old(self)@, namespace@, sid@),
            r@ == (ReplyModel {
                status: 200,
                body: Some(namespace_body("40"@, namespace@, sid@)),
                content_type: Some(plain_utf8()),
            }),
    {
        self.insert_namespace(namespace.to_owned(), sid.to_owned());
        Self::namespace_reply("40", namespace, sid)
    }

    /// Answers a disconnect: `sid` leaves `namespace` and is marked disconnected.
    pub fn handle_disconnect(&mut self, namespace: &str, payload: serde_json::Value, sid: &str) -> (r: Reply)
        ensures
            final(self)@ == marked(unregistered(old(self)@, namespace@, sid@), sid@, false),
            r@ == (ReplyModel {
                status: 200,
                body: Some(namespace_body("41"@, namespace@, sid@)),
                content_type: Some(plain_utf8()),
            }),
    {
        self.remove_namespace(namespace, sid);
        self.set_disconnect(sid);
        Self::namespace_reply("41", namespace, sid)
    }

    /// The call of the listeners of `event`, and the empty reply that goes with it.
    pub fn trigger_event(
        &self,
        event: &str,
        data: Vec<serde_json::Value>,
        namespace: &str,
        sid: &str,
    ) -> (r: (Reply, EventCall))
        ensures
            r.0@ == text_reply(""@),
            r.1@ == (EventCallModel {
                event: event@,
                data: json_trees(data@),
                namespace: namespace@,
                sid: sid@,
            }),
    {
        let call = EventCall {
            event: event.to_owned(),
            data,
            namespace: namespace.to_owned(),
            sid: sid.to_owned(),
        };
        (Reply { status: 200, body: Some("".to_owned()), content_type: None }, call)
    }

    /// Answers an event: when its first element is a string naming an event
    /// with listeners, those listeners are to be called.
    pub fn handle_event(&self, namespace: &str, data: Vec<serde_json::Value>, sid: &str) -> (r: (
        Reply,
        Option<EventCall>,
    ))
        ensures
            r.0@ == text_reply("Event processed"@),
            opt_call(r.1) == event_call(self@, namespace@, json_trees(data@), sid@),
    {
        let ghost trees = json_trees(data@);
        let key = if data.len() > 0 {
            match json_as_str(&data[0]) {
                Some(k) => Some(k.to_owned()),
                None => None,
            }
        } else {
            None
        };
        let reply = Reply {
            status: 200,
            body: Some("Event processed".to_owned()),
            content_type: None,
        };
        match key {
            Some(k) => {
                if self.listeners.contains_key(k.as_str()) {
                    let (_, call) = self.trigger_event(k.as_str(), data, namespace, sid);
                    (reply, Some(call))
                } else {
                    (reply, None)
                }
            },
            None => (reply, None),
        }
    }

    /// Answers a packet text from `sid`; an error where it cannot be decoded,
    /// with nothing changed.
    pub fn handle(&mut self, payload: &str, sid: &str) -> (r: Result<(Reply, Option<EventCall>), PacketError>)
        ensures
            match decoded(payload@) {
                Ok(p) => r matches Ok(ok) && (final(self)@, ok.0@, opt_call(ok.1)) == handled(
                    old(self)@,
                    p,
                    sid@,
                ),
                Err(e) => r matches Err(f) && f == e && final(self)@ == old(self)@,
            },
    {
        match decode_packet(payload) {
            Err(e) => Err(e),
            Ok(packet) => match packet {
                Packet::CONNECT { namespace, data, .. } => {
                    let reply = self.handle_connect(namespace.as_str(), data, sid);
                    Ok((reply, None))
                },
                Packet::DISCONNECT { namespace, data, .. } => {
                    let reply = self.handle_disconnect(namespace.as_str(), data, sid);
                    Ok((reply, None))
                },
                Packet::EVENT { namespace, data, .. } => Ok(
                    self.handle_event(namespace.as_str(), data, sid),
                ),
                _ => Ok(
                    (
                        Reply {
                            status: 200,
                            body: Some("Messages processed".to_owned()),
                            content_type: None,
                        },
                        None,
                    ),
                ),
            },
        }
    }

    /// Whether `sid` has joined a namespace.
    pub fn is_registered_namespace(&self, sid: &str) -> (r: bool)
        ensures
            r == self@.sid_namespace.contains_key(sid@),
    {
        self.sid2namespaces.contains_key(sid)
    }
}

// ---------------------------------------------------------------------------
// Laws of the session state
// ---------------------------------------------------------------------------

/// Emitting to a connected session puts the encoded event at the end of its
/// queue, and the session stays connected.
pub proof fn law_emit_appends(
    s: SocketModel,
    event: Seq<char>,
    data: Seq<Json>,
    namespace: Seq<char>,
    sid: Seq<char>,
)
    requires
        is_connected_in(s, sid),
    ensures
        queue_of(emitted(s, event, data, namespace, sid), sid) == queue_of(s, sid).push(
            QueuedEventModel { event, data: event_text(event, data, namespace), sid },
        ),
        is_connected_in(emitted(s, event, data, namespace, sid), sid),
{
}

/// Fetching from a connected session with queued events gives the oldest
/// one and leaves the others queued in order.
pub proof fn law_fetch_takes_oldest(s: SocketModel, sid: Seq<char>)
    requires
        is_connected_in(s, sid),
        queue_of(s, sid).len() > 0,
    ensures
        fetched(s, sid).1 == Some(queue_of(s, sid)[0]),
        queue_of(fetched(s, sid).0, sid) == queue_of(s, sid).drop_first(),
        is_connected_in(fetched(s, sid).0, sid),
{
}

/// An event emitted to a connected session with nothing queued is what the
/// next fetch gives back, and the queue is empty again after it.
pub proof fn law_emit_then_fetch(
    s: SocketModel,
    event: Seq<char>,
    data: Seq<Json>,
    namespace: Seq<char>,
    sid: Seq<char>,
)
    requires
        is_connected_in(s, sid),
        queue_of(s, sid).len() == 0,
    ensures
        fetched(emitted(s, event, data, namespace, sid), sid).1 == Some(
            QueuedEventModel { event, data: event_text(event, data, namespace), sid },
        ),
        queue_of(fetched(emitted(s, event, data, namespace, sid), sid).0, sid).len() == 0,
{
    law_emit_appends(s, event, data, namespace, sid);
    law_fetch_takes_oldest(emitted(s, event, data, namespace, sid), sid);
}

/// Emitting to one session leaves the queue and the connection of every
/// other session as they were.
pub proof fn law_emit_isolated(
    s: SocketModel,
    event: Seq<char>,
    data: Seq<Json>,
    namespace: Seq<char>,
    sid: Seq<char>,
    other: Seq<char>,
)
    requires
        other != sid,
    ensures
        queue_of(emitted(s, event, data, namespace, sid), other) == queue_of(s, other),
        is_connected_in(emitted(s, event, data, namespace, sid), other) == is_connected_in(s, other),
{
}

/// Emitting to a session that is not connected changes nothing, and a
/// disconnected session is given nothing.
pub proof fn law_disconnected_gets_nothing(
    s: SocketModel,
    event: Seq<char>,
    data: Seq<Json>,
    namespace: Seq<char>,
    sid: Seq<char>,
)
    ensures
        !is_connected_in(s, sid) ==> emitted(s, event, data, namespace, sid) == s,
        emitted(marked(s, sid, false), event, data, namespace, sid) == marked(s, sid, false),
        fetched(marked(s, sid, false), sid).1 is None,
{
}

/// Without `x`, pushing `x` and taking out its first occurrence gives back
/// the sequence.
proof fn lemma_remove_pushed(m: Seq<Seq<char>>, x: Seq<char>)
    requires
        !m.contains(x),
    ensures
        remove_first(m.push(x), x) == m,
{
    let p = m.push(x);
    assert forall|j: int| 0 <= j < m.len() implies p[j] != x by {
        assert(p[j] == m[j]);
    }
    lemma_remove_first(p, x, m.len() as int);
    assert(p.remove(m.len() as int) =~= m);
}

/// Joining a namespace and leaving it again restores the namespaces, for a
/// session that was in no namespace and not among its members.
pub proof fn law_join_then_leave(s: SocketModel, namespace: Seq<char>, sid: Seq<char>)
    requires
        s.namespaces.contains_key(namespace),
        !s.namespaces[namespace].contains(sid),
        !s.sid_namespace.contains_key(sid),
    ensures
        unregistered(joined(s, namespace, sid), namespace, sid) == s,
{
    lemma_remove_pushed(s.namespaces[namespace], sid);
    let t = unregistered(joined(s, namespace, sid), namespace, sid);
    assert(t.namespaces =~= s.namespaces);
    assert(t.sid_namespace =~= s.sid_namespace);
}

/// Once `event` has a listener, an event packet whose list starts with the
/// name `event` calls the listeners with its namespace, list and session.
pub proof fn law_listener_called(
    s: SocketModel,
    event: Seq<char>,
    namespace: Seq<char>,
    data: Seq<Json>,
    sid: Seq<char>,
)
    requires
        data.len() > 0,
        data[0] == Json::Str(event),
    ensures
        event_call(
            SocketModel { listeners: s.listeners.insert(event), ..s },
            namespace,
            data,
            sid,
        ) == Some(EventCallModel { event, data, namespace, sid }),
{
}

/// A connect joins the session to the packet's namespace; a disconnect takes
/// it out of every namespace entry and marks it disconnected, so that it is
/// given nothing more.
pub proof fn law_connect_disconnect(s: SocketModel, p: PacketModel, sid: Seq<char>)
    ensures
        p.kind == PacketKind::Connect ==> handled(s, p, sid).0.sid_namespace.contains_key(sid)
            && handled(s, p, sid).0.sid_namespace[sid] == p.namespace,
        p.kind == PacketKind::Disconnect ==> !handled(s, p, sid).0.sid_namespace.contains_key(sid)
            && !is_connected_in(handled(s, p, sid).0, sid) && fetched(handled(s, p, sid).0, sid).1 is None,
{
}

/// An event packet whose list starts with a name that has listeners is
/// answered "Event processed", changes no session state, and calls those
/// listeners with the event's name, its whole list, the namespace that the
/// packet came in on and the session that sent it. A name without listeners
/// calls nothing.
pub proof fn law_event_call_carries_packet(s: SocketModel, p: PacketModel, sid: Seq<char>, name: Seq<char>)
    requires
        p.kind == PacketKind::Event,
        p.data is Array,
        p.data->Array_0.len() > 0,
        p.data->Array_0[0] == Json::Str(name),
    ensures
        handled(s, p, sid).0 == s,
        handled(s, p, sid).1 == text_reply("Event processed"@),
        s.listeners.contains(name) ==> handled(s, p, sid).2 == Some(
            EventCallModel { event: name, data: p.data->Array_0, namespace: p.namespace, sid },
        ),
        !s.listeners.contains(name) ==> handled(s, p, sid).2 is None,
{
}

} // verus!
