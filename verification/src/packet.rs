//! The Socket.IO packet codec: text packets, binary attachments written as
//! `<Buffer <..>>`, and the placeholders that stand for them in the payload.
use vstd::prelude::*;
use vstd::slice::slice_subrange;
use vstd::string::*;
use crate::json::{
    json_as_bool, json_as_u64, json_empty_object, json_from_array, json_from_string, json_into_array,
    json_is_number, json_member, json_parse, json_text, json_to_string, json_tree, json_trees,
    parse_json, Json, JsonNumber,
};
use crate::text::{
    base64_encode, base64_standard, chars_of, find_char, find_in, hex_byte, lemma_find_char,
    parse_hex_byte, range_texts, split_on, split_ranges, trim, trim_range, word_ranges, words,
};

verus! {

/// A decoded Socket.IO packet.
#[allow(non_camel_case_types)]
#[allow(inconsistent_fields)]
#[derive(Debug)]
pub enum Packet {
    CONNECT { id: String, namespace: String, data: serde_json::Value },
    DISCONNECT { id: String, namespace: String, data: serde_json::Value },
    CONNECT_ERROR { id: String, namespace: String, data: serde_json::Value },
    EVENT { id: String, namespace: String, data: Vec<serde_json::Value> },
    ACK { id: String, namespace: String, data: serde_json::Value },
    BINARY_EVENT { id: String, namespace: String, data: Vec<serde_json::Value> },
    BINARY_ACK { id: String, namespace: String, data: Vec<serde_json::Value> },
}

/// The placeholder object that stands for a binary attachment in a payload.
#[derive(Debug)]
pub struct BinaryData {
    pub _placeholder: bool,
    pub num: u32,
}

/// The kind of a packet.
#[derive(PartialEq, Eq, Structural, Clone, Copy, Debug)]
pub enum PacketKind {
    Connect,
    Disconnect,
    ConnectError,
    Event,
    Ack,
    BinaryEvent,
    BinaryAck,
}

/// A packet as a value: its kind, id, namespace and payload. A packet whose
/// payload is a list has the array of that list as its `data`.
pub struct PacketModel {
    pub kind: PacketKind,
    pub id: Seq<char>,
    pub namespace: Seq<char>,
    pub data: Json,
}

impl View for Packet {
    type V = PacketModel;

    open spec fn view(&self) -> PacketModel {
        match self {
            Packet::CONNECT { id, namespace, data } => PacketModel {
                kind: PacketKind::Connect,
                id: id@,
                namespace: namespace@,
                data: json_tree(*data),
            },
            Packet::DISCONNECT { id, namespace, data } => PacketModel {
                kind: PacketKind::Disconnect,
                id: id@,
                namespace: namespace@,
                data: json_tree(*data),
            },
            Packet::CONNECT_ERROR { id, namespace, data } => PacketModel {
                kind: PacketKind::ConnectError,
                id: id@,
                namespace: namespace@,
                data: json_tree(*data),
            },
            Packet::EVENT { id, namespace, data } => PacketModel {
                kind: PacketKind::Event,
                id: id@,
                namespace: namespace@,
                data: Json::Array(json_trees(data@)),
            },
            Packet::ACK { id, namespace, data } => PacketModel {
                kind: PacketKind::Ack,
                id: id@,
                namespace: namespace@,
                data: json_tree(*data),
            },
            Packet::BINARY_EVENT { id, namespace, data } => PacketModel {
                kind: PacketKind::BinaryEvent,
                id: id@,
                namespace: namespace@,
                data: Json::Array(json_trees(data@)),
            },
            Packet::BINARY_ACK { id, namespace, data } => PacketModel {
                kind: PacketKind::BinaryAck,
                id: id@,
                namespace: namespace@,
                data: Json::Array(json_trees(data@)),
            },
        }
    }
}

/// Why a packet could not be decoded.
#[derive(PartialEq, Eq, Structural, Clone, Copy, Debug)]
pub enum PacketError {
    /// An attachment is not written as `<Buffer <..>>`.
    InvalidBufferFormat,
    /// An attachment holds something that is not a hexadecimal byte.
    InvalidBufferHexData,
    /// The payload of a binary packet is not JSON.
    InvalidJson,
    /// The payload of a binary packet is not a JSON array.
    NotAnArray,
    /// The packet type is not one of the known digits.
    WronglyJsonized,
}

impl PacketError {
    /// The HTTP status that the error is answered with.
    pub open spec fn spec_status(self) -> u16 {
        match self {
            PacketError::InvalidBufferFormat => 400,
            PacketError::InvalidBufferHexData => 400,
            PacketError::InvalidJson => 500,
            PacketError::NotAnArray => 404,
            PacketError::WronglyJsonized => 404,
        }
    }

    /// The HTTP status that the error is answered with.
    pub fn status(&self) -> (r: u16)
        ensures
            r == self.spec_status(),
    {
        match self {
            PacketError::InvalidBufferFormat => 400,
            PacketError::InvalidBufferHexData => 400,
            PacketError::InvalidJson => 500,
            PacketError::NotAnArray => 404,
            PacketError::WronglyJsonized => 404,
        }
    }
}

/// Why a placeholder could not be replaced by its attachment.
#[derive(PartialEq, Eq, Structural, Clone, Copy, Debug)]
pub enum PlaceholderError {
    /// `num` is a number but not a non-negative integer.
    InvalidBufferIndex,
    /// `num` names an attachment that is not there.
    BufferIndexOutOfRange,
}

// ---------------------------------------------------------------------------
// Attachments
// ---------------------------------------------------------------------------

/// `<Buffer <`, the opening of an attachment.
pub open spec fn buffer_start() -> Seq<char> {
    seq!['<', 'B', 'u', 'f', 'f', 'e', 'r', ' ', '<']
}

/// `>>`, the closing of an attachment.
pub open spec fn buffer_end() -> Seq<char> {
    seq!['>', '>']
}

/// The bytes that hexadecimal words stand for, `None` if one of them is no
/// hexadecimal byte.
pub open spec fn hex_bytes(words: Seq<Seq<char>>) -> Option<Seq<u8>>
    decreases words.len(),
{
    if words.len() == 0 {
        Some(seq![])
    } else {
        match (hex_bytes(words.drop_last()), hex_byte(words.last())) {
            (Some(bytes), Some(b)) => Some(bytes.push(b)),
            _ => None,
        }
    }
}

/// What an attachment text decodes to: after trimming it must read
/// `<Buffer <` hex bytes separated by white space `>>`.
pub open spec fn buffer_bytes(s: Seq<char>) -> Result<Seq<u8>, PacketError> {
    let t = trim(s);
    if t.len() >= 9 && t.take(9) == buffer_start() && t.len() >= 2 && t.skip(t.len() - 2)
        == buffer_end() {
        match hex_bytes(words(trim(t.subrange(9, t.len() - 2)))) {
            Some(bytes) => Ok(bytes),
            None => Err(PacketError::InvalidBufferHexData),
        }
    } else {
        Err(PacketError::InvalidBufferFormat)
    }
}

/// Whether `v[a..b]` starts with `pat`.
fn has_prefix(v: &Vec<char>, a: usize, b: usize, pat: &[char]) -> (r: bool)
    requires
        a <= b <= v@.len(),
    ensures
        r == (b - a >= pat@.len() && v@.subrange(a as int, a + pat@.len()) == pat@),
{
    if b - a < pat.len() {
        return false;
    }
    let mut k: usize = 0;
    while k < pat.len()
        invariant
            a + pat@.len() <= b <= v@.len(),
            k <= pat@.len(),
            forall|j: int| 0 <= j < k ==> v@[a + j] == pat@[j],
        decreases pat@.len() - k,
    {
        if v[a + k] != pat[k] {
            assert(v@.subrange(a as int, a + pat@.len())[k as int] != pat@[k as int]);
            return false;
        }
        k += 1;
    }
    assert(v@.subrange(a as int, a + pat@.len()) =~= pat@);
    true
}

/// Whether `v[a..b]` ends with `pat`.
fn has_suffix(v: &Vec<char>, a: usize, b: usize, pat: &[char]) -> (r: bool)
    requires
        a <= b <= v@.len(),
    ensures
        r == (b - a >= pat@.len() && v@.subrange(b - pat@.len(), b as int) == pat@),
{
    if b - a < pat.len() {
        return false;
    }
    let start = b - pat.len();
    let mut k: usize = 0;
    while k < pat.len()
        invariant
            a <= start <= b <= v@.len(),
            start + pat@.len() == b,
            k <= pat@.len(),
            forall|j: int| 0 <= j < k ==> v@[start + j] == pat@[j],
        decreases pat@.len() - k,
    {
        if v[start + k] != pat[k] {
            assert(v@.subrange(start as int, b as int)[k as int] != pat@[k as int]);
            return false;
        }
        k += 1;
    }
    assert(v@.subrange(start as int, b as int) =~= pat@);
    true
}

/// Decodes one attachment, `<Buffer <01 02 ..>>`, into its bytes.
pub fn parse_buffers(buffer_str: &str) -> (r: Result<Vec<u8>, PacketError>)
    ensures
        match buffer_bytes(buffer_str@) {
            Ok(bytes) => r matches Ok(b) && b@ == bytes,
            Err(e) => r == Err::<Vec<u8>, PacketError>(e),
        },
{
    let v = chars_of(buffer_str);
    let (a, b) = trim_range(&v, 0, v.len());
    let ghost t = v@.subrange(a as int, b as int);
    assert(v@.subrange(0, v@.len() as int) =~= buffer_str@);
    let start: [char; 9] = ['<', 'B', 'u', 'f', 'f', 'e', 'r', ' ', '<'];
    let end: [char; 2] = ['>', '>'];
    assert(start@ =~= buffer_start());
    assert(end@ =~= buffer_end());
    if b - a >= 9 {
        assert(t.take(9) =~= v@.subrange(a as int, a + 9));
    }
    if b - a >= 2 {
        assert(t.skip(t.len() - 2) =~= v@.subrange(b - 2, b as int));
    }
    if has_prefix(&v, a, b, &start) && has_suffix(&v, a, b, &end) {
        if b - a < 11 {
            // The closing `>` would fall inside the opening, which has none.
            assert(v@.subrange(b - 2, b as int)[0] == '>');
            assert(v@.subrange(a as int, a + 9)[b - 2 - a] == v@[b - 2]);
            assert(false);
        }
        let (ha, hb) = trim_range(&v, a + 9, b - 2);
        assert(v@.subrange(a + 9, b - 2) =~= t.subrange(9, t.len() - 2));
        let ranges = word_ranges(&v, ha, hb);
        let ghost ws = range_texts(v@, ranges@);
        let mut bytes: Vec<u8> = Vec::new();
        let mut k: usize = 0;
        assert(ws.take(0) =~= Seq::<Seq<char>>::empty());
        assert(hex_bytes(ws) is None ==> buffer_bytes(buffer_str@) == Err::<Seq<u8>, PacketError>(
            PacketError::InvalidBufferHexData,
        ));
        while k < ranges.len()
            invariant
                k <= ranges@.len(),
                ws == range_texts(v@, ranges@),
                v@ == buffer_str@,
                hb <= v@.len(),
                forall|i: int| 0 <= i < ranges@.len() ==> ha <= #[trigger] ranges@[i].0 <= ranges@[i].1
                    <= hb,
                hex_bytes(ws.take(k as int)) == Some(bytes@),
                hex_bytes(ws) is None ==> buffer_bytes(buffer_str@) == Err::<Seq<u8>, PacketError>(
                    PacketError::InvalidBufferHexData,
                ),
            decreases ranges@.len() - k,
        {
            let (wa, wb) = ranges[k];
            let word = slice_subrange(v.as_slice(), wa, wb);
            assert(ws[k as int] == word@);
            assert(ws.take(k + 1).drop_last() =~= ws.take(k as int));
            match parse_hex_byte(word) {
                Some(x) => {
                    bytes.push(x);
                },
                None => {
                    proof {
                        lemma_hex_bytes_fails(ws, k as int);
                    }
                    return Err(PacketError::InvalidBufferHexData);
                },
            }
            k += 1;
        }
        assert(ws.take(ranges@.len() as int) =~= ws);
        Ok(bytes)
    } else {
        Err(PacketError::InvalidBufferFormat)
    }
}

/// One word that is no hexadecimal byte makes the whole list fail.
proof fn lemma_hex_bytes_fails(ws: Seq<Seq<char>>, k: int)
    requires
        0 <= k < ws.len(),
        hex_byte(ws[k]) is None,
    ensures
        hex_bytes(ws) is None,
    decreases ws.len(),
{
    if k < ws.len() - 1 {
        lemma_hex_bytes_fails(ws.drop_last(), k);
    }
}

// ---------------------------------------------------------------------------
// Placeholders
// ---------------------------------------------------------------------------

/// The attachments as byte sequences.
pub open spec fn byte_seqs(buffers: Seq<Vec<u8>>) -> Seq<Seq<u8>> {
    buffers.map_values(|b: Vec<u8>| b@)
}

/// What becomes of a value that is no array: an object whose `_placeholder`
/// is `true` and whose `num` is a number is replaced by the Base64 text of
/// attachment `num`; every other value stays as it is.
pub open spec fn placeholder_replaced(j: Json, bufs: Seq<Seq<u8>>) -> (Json, Result<(), PlaceholderError>) {
    match j {
        Json::Object(m) => if m.contains_key("_placeholder"@) && m["_placeholder"@] == Json::Bool(true)
            && m.contains_key("num"@) && m["num"@] is Number {
            match m["num"@]->Number_0 {
                JsonNumber::PosInt(i) => if (i as usize) < bufs.len() {
                    (Json::Str(base64_standard(bufs[(i as usize) as int])), Ok(()))
                } else {
                    (j, Err(PlaceholderError::BufferIndexOutOfRange))
                },
                _ => (j, Err(PlaceholderError::InvalidBufferIndex)),
            }
        } else {
            (j, Ok(()))
        },
        _ => (j, Ok(())),
    }
}

/// Replaces the placeholders in a value: arrays are walked element by element
/// (nested arrays too), and the first error stops the walk, leaving the
/// elements after it untouched.
pub open spec fn replaced(j: Json, bufs: Seq<Seq<u8>>) -> (Json, Result<(), PlaceholderError>)
    decreases j,
{
    match j {
        Json::Array(items) => {
            let (out, r) = replaced_items(items, bufs);
            (Json::Array(out), r)
        },
        _ => placeholder_replaced(j, bufs),
    }
}

/// `replaced` on the elements of an array, from the first on.
pub open spec fn replaced_items(items: Seq<Json>, bufs: Seq<Seq<u8>>) -> (Seq<Json>, Result<(), PlaceholderError>)
    decreases items,
{
    if items.len() == 0 {
        (seq![], Ok(()))
    } else {
        let (first, r) = replaced(items[0], bufs);
        match r {
            Err(e) => (seq![first] + items.drop_first(), Err(e)),
            Ok(_) => {
                let (rest, r2) = replaced_items(items.drop_first(), bufs);
                (seq![first] + rest, r2)
            },
        }
    }
}

/// Replaces every placeholder object `{"_placeholder": true, "num": n}` in a
/// payload by the Base64 text of attachment `n`, and reports the first
/// placeholder that could not be replaced.
pub fn replace_placeholders(value: serde_json::Value, buffers: &Vec<Vec<u8>>) -> (r: (
    serde_json::Value,
    Result<(), PlaceholderError>,
))
    ensures
        (json_tree(r.0), r.1) == replaced(json_tree(value), byte_seqs(buffers@)),
    decreases json_tree(value),
{
    let ghost bufs = byte_seqs(buffers@);
    match json_into_array(value) {
        Ok(items) => {
            let ghost trees = json_trees(items@);
            let ghost target = replaced_items(trees, bufs);
            let n = items.len();
            let mut rest = items;
            let mut out: Vec<serde_json::Value> = Vec::new();
            let mut failed: Option<PlaceholderError> = None;
            let mut k: usize = 0;
            assert(trees.skip(0) =~= trees);
            assert(json_trees(out@) =~= Seq::<Json>::empty());
            while k < n
                invariant
                    k <= n == trees.len(),
                    json_tree(value) == Json::Array(trees),
                    bufs == byte_seqs(buffers@),
                    target == replaced_items(trees, bufs),
                    json_trees(rest@) == trees.skip(k as int),
                    failed is None ==> target == (
                        json_trees(out@) + replaced_items(trees.skip(k as int), bufs).0,
                        replaced_items(trees.skip(k as int), bufs).1,
                    ),
                    failed matches Some(e) ==> target == (
                        json_trees(out@) + trees.skip(k as int),
                        Err::<(), PlaceholderError>(e),
                    ),
                decreases n - k,
            {
                let ghost rest0 = rest@;
                let ghost out0 = out@;
                let ghost tail = trees.skip(k as int);
                assert(json_trees(rest0)[0] == tail[0]);
                let item = rest.remove(0);
                assert forall|i: int| 0 <= i < rest@.len() implies json_trees(rest@)[i]
                    == trees.skip(k + 1)[i] by {
                    assert(rest@[i] == rest0[i + 1]);
                    assert(json_trees(rest0)[i + 1] == trees.skip(k as int)[i + 1]);
                }
                assert(json_trees(rest@) =~= trees.skip(k + 1));
                assert(tail.drop_first() =~= trees.skip(k + 1));
                assert(tail[0] == trees[k as int]);
                if failed.is_none() {
                    assert(decreases_to!(json_tree(value) => json_tree(value)->Array_0));
                    assert(decreases_to!(trees => trees[k as int]));
                    assert(json_tree(item) == trees[k as int]);
                    let (new_item, res) = replace_placeholders(item, buffers);
                    out.push(new_item);
                    assert(json_trees(out@) =~= json_trees(out0).push(json_tree(new_item)));
                    match res {
                        Err(e) => {
                            failed = Some(e);
                            assert(json_trees(out@) + trees.skip(k + 1) =~= json_trees(out0) + (
                            seq![json_tree(new_item)] + tail.drop_first()));
                        },
                        Ok(_) => {
                            assert(json_trees(out@) + replaced_items(trees.skip(k + 1), bufs).0
                                =~= json_trees(out0) + (seq![json_tree(new_item)]
                                + replaced_items(tail.drop_first(), bufs).0));
                        },
                    }
                } else {
                    out.push(item);
                    assert(json_trees(out@) =~= json_trees(out0).push(tail[0]));
                    assert(json_trees(out@) + trees.skip(k + 1) =~= json_trees(out0) + tail);
                }
                k += 1;
            }
            assert(trees.skip(n as int) =~= Seq::<Json>::empty());
            assert(json_trees(out@) + Seq::<Json>::empty() =~= json_trees(out@));
            let res = match failed {
                Some(e) => Err(e),
                None => Ok(()),
            };
            (json_from_array(out), res)
        },
        Err(value) => {
            let is_placeholder = match json_member(&value, "_placeholder") {
                Some(flag) => match json_as_bool(flag) {
                    Some(b) => b,
                    None => false,
                },
                None => false,
            };
            let mut index: Option<Option<u64>> = None;
            if is_placeholder {
                match json_member(&value, "num") {
                    Some(num) => if json_is_number(num) {
                        index = Some(json_as_u64(num));
                    },
                    None => {},
                }
            }
            match index {
                Some(Some(i)) => {
                    let idx = #[verifier::truncate] (i as usize);
                    if idx < buffers.len() {
                        let text = base64_encode(&buffers[idx]);
                        (json_from_string(text), Ok(()))
                    } else {
                        (value, Err(PlaceholderError::BufferIndexOutOfRange))
                    }
                },
                Some(None) => (value, Err(PlaceholderError::InvalidBufferIndex)),
                None => (value, Ok(())),
            }
        },
    }
}

// ---------------------------------------------------------------------------
// Decoding
// ---------------------------------------------------------------------------

/// The namespace at the start of `sub` and how many characters it takes up
/// with its comma: the text before the first `,`, when that comma comes
/// before any `{` and any `[`; otherwise the default namespace `/`, taking
/// up nothing.
pub open spec fn namespace_split(sub: Seq<char>) -> (Seq<char>, int) {
    match find_char(sub, ',') {
        Some(comma) => {
            let brace_ok = match find_char(sub, '{') {
                Some(p) => comma < p,
                None => true,
            };
            let bracket_ok = match find_char(sub, '[') {
                Some(p) => comma < p,
                None => true,
            };
            if brace_ok && bracket_ok {
                (sub.take(comma), comma + 1)
            } else {
                ("/"@, 0)
            }
        },
        None => ("/"@, 0),
    }
}

/// The ack id at the start of `sub`: the text before the first `[`, or the
/// empty id when there is no `[`.
pub open spec fn id_split(sub: Seq<char>) -> (Seq<char>, int) {
    match find_char(sub, '[') {
        Some(b) => (sub.take(b), b),
        None => (""@, 0),
    }
}

/// Namespace, id, and the number of characters both take up at the start of `sub`.
pub open spec fn header(sub: Seq<char>) -> (Seq<char>, Seq<char>, int) {
    let (namespace, ns_end) = namespace_split(sub);
    let (id, id_end) = id_split(sub.skip(ns_end));
    (namespace, id, ns_end + id_end)
}

/// The kind that a text packet's type digit names.
pub open spec fn text_kind(c: char) -> PacketKind {
    if c == '0' {
        PacketKind::Connect
    } else if c == '1' {
        PacketKind::Disconnect
    } else if c == '2' {
        PacketKind::Event
    } else if c == '3' {
        PacketKind::Ack
    } else {
        PacketKind::ConnectError
    }
}

/// The attachments of a binary packet, each trimmed and decoded; the first
/// that fails to decode is the error.
pub open spec fn buffers_of(parts: Seq<Seq<char>>) -> Result<Seq<Seq<u8>>, PacketError>
    decreases parts.len(),
{
    if parts.len() == 0 {
        Ok(seq![])
    } else {
        match buffers_of(parts.drop_last()) {
            Err(e) => Err(e),
            Ok(bufs) => match buffer_bytes(trim(parts.last())) {
                Ok(b) => Ok(bufs.push(b)),
                Err(e) => Err(e),
            },
        }
    }
}

proof fn lemma_buffers_of_err(parts: Seq<Seq<char>>, m: int, e: PacketError)
    requires
        0 <= m <= parts.len(),
        buffers_of(parts.take(m)) == Err::<Seq<Seq<u8>>, PacketError>(e),
    ensures
        buffers_of(parts) == Err::<Seq<Seq<u8>>, PacketError>(e),
    decreases parts.len(),
{
    if m < parts.len() {
        assert(parts.drop_last().take(m) =~= parts.take(m));
        lemma_buffers_of_err(parts.drop_last(), m, e);
    } else {
        assert(parts.take(m) =~= parts);
    }
}

/// What a packet text decodes to.
///
/// A text packet (`0` connect, `1` disconnect, `2` event, `3` ack, `4`
/// connect error) is the type digit, a namespace, an id and a JSON payload;
/// a payload that is no JSON counts as an empty object, and the payload of
/// an event is the list of the elements of its array (none when it is no
/// array). A binary packet (`5`, `6`) has an attachment count up to a `-`,
/// a namespace, an id, the payload, and attachments that each follow a `+`;
/// its placeholders are replaced by the attachments (a failed replacement
/// leaves the rest of the payload as it is) and it decodes to a binary event.
pub open spec fn decoded(s: Seq<char>) -> Result<PacketModel, PacketError> {
    if s.len() > 0 && '0' <= s[0] && s[0] <= '4' {
        let (namespace, id, used) = header(s.skip(1));
        let json = match json_parse(s.skip(1 + used)) {
            Some(j) => j,
            None => Json::Object(Map::empty()),
        };
        let kind = text_kind(s[0]);
        let data = if kind == PacketKind::Event {
            Json::Array(
                match json {
                    Json::Array(items) => items,
                    _ => seq![],
                },
            )
        } else {
            json
        };
        Ok(PacketModel { kind, id, namespace, data })
    } else if s.len() > 0 && (s[0] == '5' || s[0] == '6') {
        let end = match find_char(s, '-') {
            Some(d) => d + 1,
            None => 1,
        };
        let (namespace, id, used) = header(s.skip(end));
        let parts = split_on(s.skip(end + used), '+');
        match buffers_of(parts.drop_first()) {
            Err(e) => Err(e),
            Ok(bufs) => match json_parse(parts[0]) {
                None => Err(PacketError::InvalidJson),
                Some(j) => match replaced(j, bufs).0 {
                    Json::Array(items) => Ok(
                        PacketModel {
                            kind: PacketKind::BinaryEvent,
                            id,
                            namespace,
                            data: Json::Array(items),
                        },
                    ),
                    _ => Err(PacketError::NotAnArray),
                },
            },
        }
    } else {
        Err(PacketError::WronglyJsonized)
    }
}

/// Reads the namespace and the id that start at `start`.
fn decode_header(encoded: &str, v: &Vec<char>, start: usize) -> (r: (String, String, usize))
    requires
        v@ == encoded@,
        start <= v@.len(),
    ensures
        header(v@.skip(start as int)) == (r.0@, r.1@, r.2 as int),
        start + r.2 <= v@.len(),
{
    let n = v.len();
    let ghost sub = v@.skip(start as int);
    assert(v@.subrange(start as int, n as int) =~= sub);
    let (namespace, ns_end) = match find_in(v, start, n, ',') {
        Some(comma) => {
            proof {
                lemma_find_char(sub, ',');
            }
            let brace_ok = match find_in(v, start, n, '{') {
                Some(p) => comma < p,
                None => true,
            };
            let bracket_ok = match find_in(v, start, n, '[') {
                Some(p) => comma < p,
                None => true,
            };
            if brace_ok && bracket_ok {
                let ns = encoded.substring_char(start, start + comma).to_owned();
                assert(ns@ =~= sub.take(comma as int));
                (ns, comma + 1)
            } else {
                ("/".to_owned(), 0)
            }
        },
        None => ("/".to_owned(), 0),
    };
    assert(namespace_split(sub) == (namespace@, ns_end as int));
    let ghost sub2 = sub.skip(ns_end as int);
    assert(v@.subrange(start + ns_end, n as int) =~= sub2);
    let (id, id_end) = match find_in(v, start + ns_end, n, '[') {
        Some(b) => {
            proof {
                lemma_find_char(sub2, '[');
            }
            let id = encoded.substring_char(start + ns_end, start + ns_end + b).to_owned();
            assert(id@ =~= sub2.take(b as int));
            (id, b)
        },
        None => ("".to_owned(), 0),
    };
    (namespace, id, ns_end + id_end)
}

/// Decodes a Socket.IO packet text.
pub fn decode_packet(encoded: &str) -> (r: Result<Packet, PacketError>)
    ensures
        match decoded(encoded@) {
            Ok(p) => r matches Ok(q) && q@ == p,
            Err(e) => r matches Err(f) && f == e,
        },
{
    let v = chars_of(encoded);
    let n = v.len();
    if n > 0 && '0' <= v[0] && v[0] <= '4' {
        let (namespace, id, used) = decode_header(encoded, &v, 1);
        let payload = encoded.substring_char(1 + used, n);
        assert(payload@ =~= encoded@.skip(1 + used));
        let json = match parse_json(payload) {
            Some(j) => j,
            None => json_empty_object(),
        };
        let c = v[0];
        if c == '0' {
            Ok(Packet::CONNECT { id, namespace, data: json })
        } else if c == '1' {
            Ok(Packet::DISCONNECT { id, namespace, data: json })
        } else if c == '2' {
            let data = match json_into_array(json) {
                Ok(items) => items,
                Err(_) => {
                    let none: Vec<serde_json::Value> = Vec::new();
                    assert(json_trees(none@) =~= Seq::<Json>::empty());
                    none
                },
            };
            Ok(Packet::EVENT { id, namespace, data })
        } else if c == '3' {
            Ok(Packet::ACK { id, namespace, data: json })
        } else {
            Ok(Packet::CONNECT_ERROR { id, namespace, data: json })
        }
    } else if n > 0 && (v[0] == '5' || v[0] == '6') {
        let end = match find_in(&v, 0, n, '-') {
            Some(d) => {
                proof {
                    lemma_find_char(v@.subrange(0, n as int), '-');
                }
                d + 1
            },
            None => 1,
        };
        assert(v@.subrange(0, n as int) =~= encoded@);
        let (namespace, id, used) = decode_header(encoded, &v, end);
        let raw_start = end + used;
        let parts = split_ranges(&v, raw_start, n, '+');
        assert(forall|i: int| 0 <= i < parts@.len() ==> raw_start <= #[trigger] parts@[i].0
            <= parts@[i].1 <= n);
        let ghost texts = range_texts(v@, parts@);
        assert(v@.subrange(raw_start as int, n as int) =~= encoded@.skip(raw_start as int));
        let ghost rest = texts.drop_first();
        let mut buffers: Vec<Vec<u8>> = Vec::new();
        let mut k: usize = 1;
        assert(rest.take(0) =~= Seq::<Seq<char>>::empty());
        assert(byte_seqs(buffers@) =~= Seq::<Seq<u8>>::empty());
        assert(buffers_of(rest) is Err ==> decoded(encoded@) == Err::<PacketModel, PacketError>(
            buffers_of(rest)->Err_0,
        ));
        while k < parts.len()
            invariant
                1 <= k <= parts@.len(),
                v@ == encoded@,
                texts == range_texts(v@, parts@),
                rest == texts.drop_first(),
                forall|i: int| 0 <= i < parts@.len() ==> raw_start <= #[trigger] parts@[i].0
                    <= parts@[i].1 <= n,
                n == v@.len(),
                buffers_of(rest.take(k - 1)) == Ok::<Seq<Seq<u8>>, PacketError>(
                    byte_seqs(buffers@),
                ),
                buffers_of(rest) is Err ==> decoded(encoded@) == Err::<PacketModel, PacketError>(
                    buffers_of(rest)->Err_0,
                ),
            decreases parts@.len() - k,
        {
            let (pa, pb) = parts[k];
            let (ta, tb) = trim_range(&v, pa, pb);
            let piece = encoded.substring_char(ta, tb);
            assert(piece@ == trim(texts[k as int]));
            assert(rest[k - 1] == texts[k as int]);
            assert(rest.take(k as int).drop_last() =~= rest.take(k - 1));
            assert(rest.take(k as int).last() == rest[k - 1]);
            match parse_buffers(piece) {
                Ok(b) => {
                    let ghost old_bufs = buffers@;
                    buffers.push(b);
                    assert(byte_seqs(buffers@) =~= byte_seqs(old_bufs).push(b@));
                },
                Err(e) => {
                    proof {
                        lemma_buffers_of_err(rest, k as int, e);
                    }
                    return Err(e);
                },
            }
            k += 1;
        }
        assert(rest.take(parts@.len() - 1) =~= rest);
        let (pa, pb) = parts[0];
        let first = encoded.substring_char(pa, pb);
        assert(first@ == texts[0]);
        let parsed = match parse_json(first) {
            Some(j) => j,
            None => {
                return Err(PacketError::InvalidJson);
            },
        };
        let (replaced_value, _) = replace_placeholders(parsed, &buffers);
        match json_into_array(replaced_value) {
            Ok(items) => Ok(Packet::BINARY_EVENT { id, namespace, data: items }),
            Err(_) => Err(PacketError::NotAnArray),
        }
    } else {
        Err(PacketError::WronglyJsonized)
    }
}

// ---------------------------------------------------------------------------
// Encoding
// ---------------------------------------------------------------------------

/// The text a packet encodes to. An event is `42`, then the namespace and a
/// comma unless it is the default namespace `/`, then the id, then the JSON
/// array of its data; the other kinds are not encoded and give the text
/// `Not Implemented Yet`.
pub open spec fn encoded(p: PacketModel) -> Seq<char> {
    if p.kind == PacketKind::Event {
        "42"@ + (if p.namespace != "/"@ {
            p.namespace + ","@
        } else {
            ""@
        }) + p.id + json_text(p.data)
    } else {
        "Not Implemented Yet"@
    }
}

/// A namespace or id with none of the characters that delimit them.
pub open spec fn plain_segment(x: Seq<char>) -> bool {
    forall|i: int| 0 <= i < x.len() ==> x[i] != ',' && x[i] != '{' && x[i] != '['
}

/// The list that an event payload text decodes to.
pub open spec fn event_items(j: Option<Json>) -> Seq<Json> {
    match j {
        Some(Json::Array(items)) => items,
        _ => seq![],
    }
}

proof fn lemma_find_char_concat(a: Seq<char>, b: Seq<char>, c: char)
    requires
        forall|i: int| 0 <= i < a.len() ==> a[i] != c,
    ensures
        find_char(a + b, c) == (match find_char(b, c) {
            Some(k) => Some(k + a.len()),
            None => None,
        }),
    decreases a.len(),
{
    if a.len() > 0 {
        assert((a + b).drop_first() =~= a.drop_first() + b);
        lemma_find_char_concat(a.drop_first(), b, c);
    } else {
        assert(a + b =~= b);
    }
}

/// The header of an encoded event: a plain namespace and id followed by a
/// JSON array text are read back as they were written.
proof fn lemma_event_header(ns: Seq<char>, id: Seq<char>, t: Seq<char>)
    requires
        plain_segment(ns),
        plain_segment(id),
        t.len() > 0,
        t[0] == '[',
    ensures
        ({
            let prefix = if ns != "/"@ {
                ns + ","@
            } else {
                ""@
            };
            header(prefix + id + t) == (ns, id, (prefix.len() + id.len()) as int)
        }),
{
    reveal_strlit(",");
    reveal_strlit("");
    let rest = id + t;
    lemma_find_char_concat(id, t, '[');
    lemma_find_char_concat(id, t, ',');
    if ns != "/"@ {
        let sub = ns + ","@ + id + t;
        assert(sub =~= ns + (","@ + rest));
        lemma_find_char_concat(ns, ","@ + rest, ',');
        lemma_find_char_concat(ns, ","@ + rest, '{');
        lemma_find_char_concat(ns, ","@ + rest, '[');
        let tail = ","@ + rest;
        assert(tail[0] == ',');
        assert(find_char(tail, ',') == Some(0int));
        if find_char(tail, '{') is Some {
            lemma_find_char(tail, '{');
        }
        if find_char(tail, '[') is Some {
            lemma_find_char(tail, '[');
        }
        assert(sub.take(ns.len() as int) =~= ns);
        assert(sub.skip(ns.len() + 1int) =~= rest);
    } else {
        let sub = ""@ + id + t;
        assert(sub =~= rest);
        assert(t[0] == '[');
        assert(find_char(t, '[') == Some(0int));
        if find_char(t, ',') is Some {
            lemma_find_char(t, ',');
        }
        assert(sub.skip(0) =~= rest);
    }
    assert(rest.take(id.len() as int) =~= id);
}

/// Encodes a packet as Socket.IO text.
///
/// An event encodes to the Engine.IO message `4` followed by a Socket.IO
/// event packet that decodes back to an event of the same namespace and id
/// (when they hold no `,`, `{` or `[`), whose list is what the JSON text of
/// the data parses to.
pub fn encode_packet(packet: Packet) -> (r: Result<String, PacketError>)
    ensures
        r matches Ok(s) && s@ == encoded(packet@),
        packet@.kind == PacketKind::Event && plain_segment(packet@.namespace) && plain_segment(
            packet@.id,
        ) ==> (r matches Ok(s) && decoded(s@.drop_first()) == Ok::<PacketModel, PacketError>(
            PacketModel {
                kind: PacketKind::Event,
                id: packet@.id,
                namespace: packet@.namespace,
                data: Json::Array(event_items(json_parse(json_text(packet@.data)))),
            },
        )),
{
    let ghost model = packet@;
    match packet {
        Packet::EVENT { id, namespace, data } => {
            let mut payload = "42".to_owned();
            let slash = "/".to_owned();
            if !(namespace == slash) {
                payload.append(namespace.as_str());
                payload.append(",");
            } else {
                payload.append("");
            }
            payload.append(id.as_str());
            let json_array = json_from_array(data);
            let json_string = json_to_string(&json_array);
            payload.append(json_string.as_str());
            proof {
                let ns = model.namespace;
                let prefix = if ns != "/"@ {
                    ns + ","@
                } else {
                    ""@
                };
                let t = json_string@;
                reveal_strlit("42");
                assert(payload@ =~= "42"@ + prefix + model.id + t);
                if plain_segment(ns) && plain_segment(model.id) {
                    lemma_event_header(ns, model.id, t);
                    let rest = payload@.drop_first();
                    assert(rest =~= seq!['2'] + (prefix + model.id + t));
                    assert(rest.skip(1) =~= prefix + model.id + t);
                    assert(rest.skip(1int + prefix.len() + model.id.len()) =~= t);
                }
            }
            Ok(payload)
        },
        _ => Ok("Not Implemented Yet".to_owned()),
    }
}

/// Every text packet (type `0` to `4`) decodes, whatever follows its type:
/// to a packet of the kind its type names, in the namespace and with the id
/// its header gives.
pub proof fn law_text_packets_decode(s: Seq<char>)
    requires
        s.len() > 0,
        '0' <= s[0] && s[0] <= '4',
    ensures
        decoded(s) matches Ok(p) && p.kind == text_kind(s[0]) && p.namespace == header(s.skip(1)).0
            && p.id == header(s.skip(1)).1,
{
}

/// A text packet whose payload is a JSON object right after the type digit
/// belongs to the default namespace `/`: a comma inside the object is part
/// of the payload. When the object holds no `[` (which would end an ack id),
/// the packet has the empty id and the whole object text is its payload.
pub proof fn law_object_payload_default_namespace(d: char, t: Seq<char>)
    requires
        '0' <= d && d <= '4',
        t.len() > 0,
        t[0] == '{',
    ensures
        decoded(seq![d] + t) matches Ok(p) && p.kind == text_kind(d) && p.namespace == "/"@,
        (forall|i: int| 0 <= i < t.len() ==> t[i] != '[') ==> (decoded(seq![d] + t) matches Ok(p)
            && p.id == ""@ && p.data == (if d == '2' {
            Json::Array(event_items(json_parse(t)))
        } else {
            match json_parse(t) {
                Some(j) => j,
                None => Json::Object(Map::empty()),
            }
        })),
{
    reveal_strlit("/");
    reveal_strlit("");
    let s = seq![d] + t;
    assert(s.skip(1) =~= t);
    assert(find_char(t, '{') == Some(0int));
    lemma_find_char(t, ',');
    assert(namespace_split(t).0 == "/"@ && namespace_split(t).1 == 0);
    assert(t.skip(0) =~= t);
    if forall|i: int| 0 <= i < t.len() ==> t[i] != '[' {
        lemma_find_char(t, '[');
        assert(find_char(t, '[') is None);
        assert(header(t) == ("/"@, ""@, 0int));
        assert(s.skip(1int + 0int) =~= t);
    }
}

/// A placeholder object (`_placeholder` is `true`, `num` is the integer `n`)
/// is replaced by the Base64 text of attachment `n` itself when there is
/// such an attachment, and is left as it is with an out-of-range error when
/// there is not.
pub proof fn law_placeholder_takes_its_attachment(m: Map<Seq<char>, Json>, bufs: Seq<Seq<u8>>, n: usize)
    requires
        m.contains_key("_placeholder"@),
        m["_placeholder"@] == Json::Bool(true),
        m.contains_key("num"@),
        m["num"@] == Json::Number(JsonNumber::PosInt(n as u64)),
    ensures
        n < bufs.len() ==> replaced(Json::Object(m), bufs) == (
            Json::Str(base64_standard(bufs[n as int])),
            Ok::<(), PlaceholderError>(()),
        ),
        n >= bufs.len() ==> replaced(Json::Object(m), bufs) == (
            Json::Object(m),
            Err::<(), PlaceholderError>(PlaceholderError::BufferIndexOutOfRange),
        ),
{
}

/// When every element of an array is replaced without error, the array is
/// replaced without error, element by element: each element of the result
/// is what its own element is replaced by, in the same place.
pub proof fn law_array_replaced_elementwise(items: Seq<Json>, bufs: Seq<Seq<u8>>)
    requires
        forall|i: int| 0 <= i < items.len() ==> (#[trigger] replaced(items[i], bufs)).1 is Ok,
    ensures
        replaced(Json::Array(items), bufs) == (
            Json::Array(Seq::new(items.len(), |i: int| replaced(items[i], bufs).0)),
            Ok::<(), PlaceholderError>(()),
        ),
{
    lemma_items_replaced(items, bufs);
}

proof fn lemma_items_replaced(items: Seq<Json>, bufs: Seq<Seq<u8>>)
    requires
        forall|i: int| 0 <= i < items.len() ==> (#[trigger] replaced(items[i], bufs)).1 is Ok,
    ensures
        replaced_items(items, bufs) == (
            Seq::new(items.len(), |i: int| replaced(items[i], bufs).0),
            Ok::<(), PlaceholderError>(()),
        ),
    decreases items.len(),
{
    if items.len() > 0 {
        let rest = items.drop_first();
        assert forall|i: int| 0 <= i < rest.len() implies (#[trigger] replaced(rest[i], bufs)).1 is Ok by {
            assert(rest[i] == items[i + 1]);
            assert(replaced(items[i + 1], bufs).1 is Ok);
        }
        lemma_items_replaced(rest, bufs);
        assert(replaced(items[0], bufs).1 is Ok);
        let out = Seq::new(items.len(), |i: int| replaced(items[i], bufs).0);
        let tail = Seq::new(rest.len(), |i: int| replaced(rest[i], bufs).0);
        assert(seq![replaced(items[0], bufs).0] + tail =~= out);
    } else {
        assert(Seq::new(items.len(), |i: int| replaced(items[i], bufs).0) =~= seq![]);
    }
}

} // verus!
