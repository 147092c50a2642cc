//! Photon packet parsing: commands, reliable messages and fragment reassembly.
use vstd::prelude::*;
use std::collections::HashMap;
use crate::cursor::{be_u32, Cursor};
use crate::deserializer::{
    deserialize, read_parameter_table, deserialize_parameter_table, params_model, zero_bytes,
    PhotonValue,
};
use crate::wire::{be32, is_scalar_code, le16, param_table_from, signed16, value_at, zeros, SpecValue};

verus! {

broadcast use vstd::std_specs::hash::group_hash_axioms;

pub const PHOTON_HEADER_LENGTH: usize = 12;
pub const COMMAND_HEADER_LENGTH: u32 = 12;
pub const FRAGMENT_HEADER_LENGTH: usize = 20;

pub const CMD_DISCONNECT: u8 = 4;
pub const CMD_SEND_RELIABLE: u8 = 6;
pub const CMD_SEND_UNRELIABLE: u8 = 7;
pub const CMD_SEND_FRAGMENT: u8 = 8;

pub const MSG_REQUEST: u8 = 2;
pub const MSG_RESPONSE: u8 = 3;
pub const MSG_EVENT: u8 = 4;
pub const MSG_RESPONSE_ALT: u8 = 7;
pub const MSG_ENCRYPTED: u8 = 131;

/// A parsed Photon message, in the order the packet carries it.
pub enum SpecMessage {
    Request { op_code: u8, params: Map<u8, SpecValue> },
    Response { op_code: u8, return_code: i16, debug_message: Seq<char>, params: Map<u8, SpecValue> },
    Event { code: u8, params: Map<u8, SpecValue> },
    Encrypted,
}

/// A message being reassembled from fragments.
pub struct SpecSegment {
    pub total_length: nat,
    pub bytes_written: nat,
    pub payload: Seq<u8>,
}

/// Whether `count` bytes are available at `offset`.
pub open spec fn available_spec(src: Seq<u8>, offset: int, count: int) -> bool {
    count == 0 || (offset <= src.len() && src.len() - offset >= count)
}

/// The messages of a request payload.
pub open spec fn request_messages(data: Seq<u8>) -> Seq<SpecMessage> {
    if data.len() == 0 {
        Seq::empty()
    } else {
        seq![SpecMessage::Request { op_code: data[0], params: param_table_from(data.subrange(1, data.len() as int), 0).0 }]
    }
}

/// The messages of an event payload.
pub open spec fn event_messages(data: Seq<u8>) -> Seq<SpecMessage> {
    if data.len() == 0 {
        Seq::empty()
    } else {
        seq![SpecMessage::Event { code: data[0], params: param_table_from(data.subrange(1, data.len() as int), 0).0 }]
    }
}

/// Whether every element is a string.
pub open spec fn all_strings(items: Seq<SpecValue>) -> bool {
    forall|i: int| 0 <= i < items.len() ==> items[i] is String
}

/// The messages of a response payload: operation code, return code, an
/// optional debug value, then parameters.  A debug value that is an array of
/// strings (market data) is delivered alone as parameter 0.
pub open spec fn response_messages(data: Seq<u8>) -> Seq<SpecMessage> {
    if data.len() < 3 {
        Seq::empty()
    } else {
        let op_code = data[0];
        let return_code = signed16(le16(data, 1)) as i16;
        let rest = data.subrange(3, data.len() as int);
        if rest.len() > 0 {
            let (v, q) = value_at(rest, 1, rest[0]);
            match v {
                SpecValue::String(s) => seq![SpecMessage::Response { op_code, return_code, debug_message: s, params: param_table_from(rest, q).0 }],
                SpecValue::Array(items) => if all_strings(items) {
                    seq![SpecMessage::Response { op_code, return_code, debug_message: Seq::empty(), params: Map::empty().insert(0u8, SpecValue::Array(items)) }]
                } else {
                    seq![SpecMessage::Response { op_code, return_code, debug_message: Seq::empty(), params: param_table_from(rest, q).0 }]
                },
                _ => seq![SpecMessage::Response { op_code, return_code, debug_message: Seq::empty(), params: param_table_from(rest, q).0 }],
            }
        } else {
            seq![SpecMessage::Response { op_code, return_code, debug_message: Seq::empty(), params: param_table_from(rest, 0).0 }]
        }
    }
}

/// The messages of a reliable command body of `cmd_len` bytes at `offset`:
/// a signal byte, a message type byte, then the message.
pub open spec fn reliable_messages(src: Seq<u8>, offset: int, cmd_len: int) -> Seq<SpecMessage> {
    if cmd_len < 2 || !available_spec(src, offset, cmd_len) {
        Seq::empty()
    } else {
        let msg_type = src[offset + 1];
        let data = src.subrange(offset + 2, offset + cmd_len);
        if msg_type == MSG_ENCRYPTED {
            seq![SpecMessage::Encrypted]
        } else if msg_type == MSG_REQUEST {
            request_messages(data)
        } else if msg_type == MSG_RESPONSE || msg_type == MSG_RESPONSE_ALT {
            response_messages(data)
        } else if msg_type == MSG_EVENT {
            event_messages(data)
        } else {
            Seq::empty()
        }
    }
}

/// `payload` with `frag` written at `at`, when it fits.
pub open spec fn write_fragment(payload: Seq<u8>, at: int, frag: Seq<u8>) -> Seq<u8> {
    if at + frag.len() <= payload.len() {
        payload.subrange(0, at) + frag + payload.subrange(at + frag.len(), payload.len() as int)
    } else {
        payload
    }
}

/// A fragment command body: start sequence number, fragment count, fragment
/// number, total length, fragment offset, then the fragment.  The first
/// fragment of a sequence fixes its total length; once as many bytes as that
/// have arrived, the assembled payload is handled as a reliable message.
pub open spec fn fragment_step(st: Map<u32, SpecSegment>, src: Seq<u8>, offset: int, cmd_len: int) -> (
    Map<u32, SpecSegment>,
    Seq<SpecMessage>,
) {
    if cmd_len < 20 || !available_spec(src, offset, 20) {
        (st, Seq::empty())
    } else {
        let start_seq = be32(src, offset) as u32;
        let total_len = be32(src, offset + 12) as nat;
        let frag_offset = be32(src, offset + 16);
        let off = offset + 20;
        let frag_len = cmd_len - 20;
        if !available_spec(src, off, frag_len) {
            (st, Seq::empty())
        } else {
            let seg = if st.contains_key(start_seq) {
                st[start_seq]
            } else {
                SpecSegment { total_length: total_len, bytes_written: 0, payload: zeros(total_len) }
            };
            let payload = write_fragment(seg.payload, frag_offset, src.subrange(off, off + frag_len));
            let written = seg.bytes_written + frag_len;
            if written >= seg.total_length {
                (st.remove(start_seq), reliable_messages(payload, 0, payload.len() as int))
            } else {
                (
                    st.insert(
                        start_seq,
                        SpecSegment { total_length: seg.total_length, bytes_written: written as nat, payload },
                    ),
                    Seq::empty(),
                )
            }
        }
    }
}

/// One command at `offset`: the new state, its messages, the offset after it,
/// and whether parsing goes on.
pub open spec fn command_step(st: Map<u32, SpecSegment>, src: Seq<u8>, offset: int) -> (
    Map<u32, SpecSegment>,
    Seq<SpecMessage>,
    int,
    bool,
) {
    if !available_spec(src, offset, 12) {
        (st, Seq::empty(), offset, false)
    } else {
        let cmd_type = src[offset];
        let off = offset + 12;
        let cmd_len = be32(src, offset + 4);
        if cmd_len < 12 {
            (st, Seq::empty(), off, false)
        } else {
            let data_len = cmd_len - 12;
            if !available_spec(src, off, data_len) {
                (st, Seq::empty(), off, false)
            } else if cmd_type == CMD_DISCONNECT {
                (st, Seq::empty(), off + data_len, true)
            } else if cmd_type == CMD_SEND_UNRELIABLE {
                if data_len < 4 {
                    (st, Seq::empty(), off + data_len, false)
                } else {
                    (st, reliable_messages(src, off + 4, data_len - 4), off + data_len, true)
                }
            } else if cmd_type == CMD_SEND_RELIABLE {
                (st, reliable_messages(src, off, data_len), off + data_len, true)
            } else if cmd_type == CMD_SEND_FRAGMENT {
                let (st2, msgs) = fragment_step(st, src, off, data_len);
                (st2, msgs, off + data_len, true)
            } else {
                (st, Seq::empty(), off + data_len, true)
            }
        }
    }
}

/// Up to `n` commands from `offset`, their messages appended to `acc`;
/// stops at the first command that cannot be read.
pub open spec fn commands_step(
    st: Map<u32, SpecSegment>,
    src: Seq<u8>,
    offset: int,
    n: nat,
    acc: Seq<SpecMessage>,
) -> (Map<u32, SpecSegment>, Seq<SpecMessage>)
    decreases n,
{
    if n == 0 {
        (st, acc)
    } else {
        let (st2, msgs, off2, ok) = command_step(st, src, offset);
        if !ok {
            (st2, acc + msgs)
        } else {
            commands_step(st2, src, off2, (n - 1) as nat, acc + msgs)
        }
    }
}

/// A whole packet: a 12-byte header (peer id, flags, command count,
/// timestamp, challenge) then the commands.  Flags 1 marks an encrypted packet.
pub open spec fn packet_step(st: Map<u32, SpecSegment>, payload: Seq<u8>) -> (
    Map<u32, SpecSegment>,
    Seq<SpecMessage>,
) {
    if payload.len() < 12 {
        (st, Seq::empty())
    } else if payload[2] == 1 {
        (st, seq![SpecMessage::Encrypted])
    } else {
        commands_step(st, payload, 12, payload[3] as nat, Seq::empty())
    }
}


/// A parsed Photon message, in the order the packet carries it.
#[derive(Debug)]
pub enum PhotonMessage {
    Request { op_code: u8, params: HashMap<u8, PhotonValue> },
    Response {
        op_code: u8,
        return_code: i16,
        debug_message: String,
        params: HashMap<u8, PhotonValue>,
    },
    Event { code: u8, params: HashMap<u8, PhotonValue> },
    Encrypted,
}

impl PhotonMessage {
    /// The message as a mathematical object.
    pub open spec fn model(self) -> SpecMessage {
        match self {
            PhotonMessage::Request { op_code, params } => SpecMessage::Request {
                op_code,
                params: params_model(params@),
            },
            PhotonMessage::Response { op_code, return_code, debug_message, params } =>
                SpecMessage::Response {
                op_code,
                return_code,
                debug_message: debug_message@,
                params: params_model(params@),
            },
            PhotonMessage::Event { code, params } => SpecMessage::Event {
                code,
                params: params_model(params@),
            },
            PhotonMessage::Encrypted => SpecMessage::Encrypted,
        }
    }
}

/// The models of a sequence of messages.
pub open spec fn messages_model(v: Seq<PhotonMessage>) -> Seq<SpecMessage> {
    Seq::new(v.len(), |i: int| v[i].model())
}

proof fn lemma_messages_push(v: Seq<PhotonMessage>, m: PhotonMessage)
    ensures
        messages_model(v.push(m)) == messages_model(v) + seq![m.model()],
{
    assert(messages_model(v.push(m)) =~= messages_model(v) + seq![m.model()]);
}

struct SegmentedPackage {
    total_length: usize,
    bytes_written: u64,
    payload: Vec<u8>,
}

impl SegmentedPackage {
    spec fn model(self) -> SpecSegment {
        SpecSegment {
            total_length: self.total_length as nat,
            bytes_written: self.bytes_written as nat,
            payload: self.payload@,
        }
    }
}

spec fn segments_model(m: Map<u32, SegmentedPackage>) -> Map<u32, SpecSegment> {
    Map::new(|k: u32| m.contains_key(k), |k: u32| m[k].model())
}

/// Parses raw Photon UDP/TCP payloads into messages, holding the fragments
/// of messages not yet complete.
pub struct PhotonParser {
    pending_segments: HashMap<u32, SegmentedPackage>,
}

/// Every pending segment has a buffer of its declared total length, at most
/// `u32::MAX`, and has received fewer bytes than that length.
pub open spec fn pending_ok(st: Map<u32, SpecSegment>) -> bool {
    forall|k: u32|
        #![trigger st[k]]
        st.contains_key(k) ==> {
            &&& st[k].payload.len() == st[k].total_length
            &&& st[k].total_length <= u32::MAX
            &&& st[k].bytes_written < st[k].total_length
        }
}

impl PhotonParser {
    #[verifier::type_invariant]
    spec fn segments_ok(self) -> bool {
        pending_ok(self.model())
    }

    /// The segments being reassembled, by start sequence number.
    pub closed spec fn model(self) -> Map<u32, SpecSegment> {
        segments_model(self.pending_segments@)
    }

    /// A parser with nothing pending.
    pub fn new() -> (p: Self)
        ensures
            p.model() == Map::<u32, SpecSegment>::empty(),
    {
        let p = PhotonParser { pending_segments: HashMap::new() };
        assert(p.model() =~= Map::<u32, SpecSegment>::empty());
        p
    }
}

/// Whether `count` bytes are available at `offset`.
fn available(src: &[u8], offset: usize, count: usize) -> (r: bool)
    ensures
        r == available_spec(src@, offset as int, count as int),
{
    count == 0 || (offset <= src.len() && src.len() - offset >= count)
}

/// Whether every value is a string.
pub(crate) fn all_string_values(items: &Vec<PhotonValue>) -> (r: bool)
    ensures
        r == all_strings(crate::deserializer::values_model(items@)),
{
    let mut i: usize = 0;
    while i < items.len()
        invariant
            i <= items@.len(),
            forall|j: int| 0 <= j < i ==> items@[j].model() is String,
        decreases items@.len() - i,
    {
        match &items[i] {
            PhotonValue::String(_) => {},
            _ => {
                assert(!(crate::deserializer::values_model(items@)[i as int] is String));
                return false;
            },
        }
        i = i + 1;
    }
    true
}

fn dispatch_request(data: &[u8], out: &mut Vec<PhotonMessage>)
    ensures
        messages_model(final(out)@) == messages_model(old(out)@) + request_messages(data@),
{
    if data.len() == 0 {
        assert(messages_model(out@) + Seq::<SpecMessage>::empty() =~= messages_model(out@));
        return;
    }
    let op_code = data[0];
    let params = deserialize_parameter_table(&data[1..data.len()]);
    let m = PhotonMessage::Request { op_code, params };
    proof { lemma_messages_push(out@, m); }
    out.push(m);
}

fn dispatch_event(data: &[u8], out: &mut Vec<PhotonMessage>)
    ensures
        messages_model(final(out)@) == messages_model(old(out)@) + event_messages(data@),
{
    if data.len() == 0 {
        assert(messages_model(out@) + Seq::<SpecMessage>::empty() =~= messages_model(out@));
        return;
    }
    let code = data[0];
    let params = deserialize_parameter_table(&data[1..data.len()]);
    let m = PhotonMessage::Event { code, params };
    proof { lemma_messages_push(out@, m); }
    out.push(m);
}

fn dispatch_response(data: &[u8], out: &mut Vec<PhotonMessage>)
    ensures
        messages_model(final(out)@) == messages_model(old(out)@) + response_messages(data@),
{
    if data.len() < 3 {
        assert(messages_model(out@) + Seq::<SpecMessage>::empty() =~= messages_model(out@));
        return;
    }
    let op_code = data[0];
    let return_code = {
        let mut rc_cursor = Cursor::new(&data[1..3]);
        rc_cursor.read_i16_or_zero()
    };
    let ghost rest = data@.subrange(3, data@.len() as int);
    let mut cursor = Cursor::new(&data[3..data.len()]);
    let mut debug_message = String::new();
    if cursor.remaining() > 0 {
        let tc = cursor.read_u8_or_zero();
        let val = deserialize(&mut cursor, tc);
        match val {
            PhotonValue::String(s) => {
                debug_message = s;
            },
            PhotonValue::Array(arr) => {
                proof { crate::deserializer::lemma_array_models(arr); }
                if all_string_values(&arr) {
                    let mut params: HashMap<u8, PhotonValue> = HashMap::new();
                    let ghost arr_model = PhotonValue::Array(arr).model();
                    params.insert(0, PhotonValue::Array(arr));
                    assert(params_model(params@) =~= Map::empty().insert(0u8, arr_model));
                    let m = PhotonMessage::Response {
                        op_code,
                        return_code,
                        debug_message: String::new(),
                        params,
                    };
                    proof { lemma_messages_push(out@, m); }
                    out.push(m);
                    return;
                }
            },
            _ => {},
        }
    }
    let params = read_parameter_table(&mut cursor);
    let m = PhotonMessage::Response { op_code, return_code, debug_message, params };
    proof { lemma_messages_push(out@, m); }
    out.push(m);
}


/// Handles a reliable command body of `cmd_len` bytes at `offset`; returns
/// the offset after it and whether the body was there to be read.
fn handle_send_reliable(src: &[u8], offset: usize, cmd_len: usize, out: &mut Vec<PhotonMessage>) -> (r: (
    usize,
    bool,
))
    requires
        offset + cmd_len <= usize::MAX,
    ensures
        messages_model(final(out)@) == messages_model(old(out)@) + reliable_messages(
            src@,
            offset as int,
            cmd_len as int,
        ),
        r.0 == offset + cmd_len,
        r.1 == (cmd_len >= 2 && available_spec(src@, offset as int, cmd_len as int)),
{
    if cmd_len < 2 || !available(src, offset, cmd_len) {
        assert(messages_model(out@) + Seq::<SpecMessage>::empty() =~= messages_model(out@));
        return (offset + cmd_len, false);
    }
    let msg_type = src[offset + 1];
    let off = offset + 2;
    let data_len = cmd_len - 2;
    if msg_type == MSG_ENCRYPTED {
        let m = PhotonMessage::Encrypted;
        proof { lemma_messages_push(out@, m); }
        out.push(m);
        return (offset + cmd_len, true);
    }
    let data = &src[off..off + data_len];
    if msg_type == MSG_REQUEST {
        dispatch_request(data, out);
    } else if msg_type == MSG_RESPONSE || msg_type == MSG_RESPONSE_ALT {
        dispatch_response(data, out);
    } else if msg_type == MSG_EVENT {
        dispatch_event(data, out);
    } else {
        assert(messages_model(out@) + Seq::<SpecMessage>::empty() =~= messages_model(out@));
    }
    (offset + cmd_len, true)
}

impl PhotonParser {
    /// Handles a fragment command body of `cmd_len` bytes at `offset`;
    /// returns the offset after it.
    fn handle_send_fragment(
        &mut self,
        src: &[u8],
        offset: usize,
        cmd_len: usize,
        out: &mut Vec<PhotonMessage>,
    ) -> (r: usize)
        requires
            offset + cmd_len <= usize::MAX,
            cmd_len <= u32::MAX,
        ensures
            r == offset + cmd_len,
            ({
                let (st, msgs) = fragment_step(old(self).model(), src@, offset as int, cmd_len as int);
                &&& final(self).model() == st
                &&& messages_model(final(out)@) == messages_model(old(out)@) + msgs
            }),
    {
        proof { use_type_invariant(&*self); }
        if cmd_len < FRAGMENT_HEADER_LENGTH || !available(src, offset, FRAGMENT_HEADER_LENGTH) {
            assert(messages_model(out@) + Seq::<SpecMessage>::empty() =~= messages_model(out@));
            return offset + cmd_len;
        }
        let start_seq = be_u32(src, offset);
        let total_len = be_u32(src, offset + 12) as usize;
        let frag_offset = be_u32(src, offset + 16);
        let off = offset + 20;
        let frag_len = cmd_len - FRAGMENT_HEADER_LENGTH;
        if !available(src, off, frag_len) {
            assert(messages_model(out@) + Seq::<SpecMessage>::empty() =~= messages_model(out@));
            return offset + cmd_len;
        }
        let ghost st = self.model();
        let mut pending: HashMap<u32, SegmentedPackage> = HashMap::new();
        std::mem::swap(&mut pending, &mut self.pending_segments);
        assert(segments_model(pending@) == st);
        let mut seg = match pending.remove(&start_seq) {
            Some(s) => s,
            None => SegmentedPackage { total_length: total_len, bytes_written: 0, payload: zero_bytes(total_len) },
        };
        let ghost seg0 = seg.model();
        assert(segments_model(pending@) =~= st.remove(start_seq));
        assert(seg0 == if st.contains_key(start_seq) {
            st[start_seq]
        } else {
            SpecSegment { total_length: total_len as nat, bytes_written: 0, payload: zeros(total_len as nat) }
        });
        let ghost frag = src@.subrange(off as int, off + frag_len);
        let end = frag_offset as u64 + frag_len as u64;
        if end <= seg.payload.len() as u64 {
            let mut i: usize = 0;
            while i < frag_len
                invariant
                    i <= frag_len,
                    off + frag_len <= src.len(),
                    frag == src@.subrange(off as int, off + frag_len),
                    frag_offset + frag_len <= seg.payload.len(),
                    seg.payload@.len() == seg0.payload.len(),
                    seg.total_length == seg0.total_length,
                    seg.bytes_written == seg0.bytes_written,
                    seg.payload@ == seg0.payload.subrange(0, frag_offset as int) + frag.subrange(0, i as int)
                        + seg0.payload.subrange(frag_offset + i, seg0.payload.len() as int),
                decreases frag_len - i,
            {
                let ghost before = seg.payload@;
                seg.payload.set(frag_offset as usize + i, src[off + i]);
                i = i + 1;
                assert(seg.payload@ =~= seg0.payload.subrange(0, frag_offset as int) + frag.subrange(0, i as int)
                    + seg0.payload.subrange(frag_offset + i, seg0.payload.len() as int));
            }
            assert(frag.subrange(0, frag_len as int) =~= frag);
        }
        assert(seg.payload@ == write_fragment(seg0.payload, frag_offset as int, frag));
        seg.bytes_written = seg.bytes_written + frag_len as u64;
        if seg.bytes_written >= seg.total_length as u64 {
            let len = seg.payload.len();
            let _ = handle_send_reliable(seg.payload.as_slice(), 0, len, out);
            assert(pending_ok(segments_model(pending@)));
            self.pending_segments = pending;
        } else {
            pending.insert(start_seq, seg);
            assert(segments_model(pending@) =~= st.remove(start_seq).insert(start_seq, seg.model()));
            assert(pending_ok(segments_model(pending@)));
            self.pending_segments = pending;
            assert(self.model() =~= st.insert(
                start_seq,
                SpecSegment {
                    total_length: seg0.total_length,
                    bytes_written: (seg0.bytes_written + frag_len) as nat,
                    payload: write_fragment(seg0.payload, frag_offset as int, frag),
                },
            ));
            assert(messages_model(out@) + Seq::<SpecMessage>::empty() =~= messages_model(out@));
        }
        offset + cmd_len
    }
}


impl PhotonParser {
    /// Handles the command at `offset`; returns the offset after it and
    /// whether parsing goes on.
    fn handle_command(&mut self, src: &[u8], offset: usize, out: &mut Vec<PhotonMessage>) -> (r: (usize, bool))
        requires
            offset <= src.len(),
        ensures
            ({
                let (st, msgs, off2, ok) = command_step(old(self).model(), src@, offset as int);
                &&& final(self).model() == st
                &&& messages_model(final(out)@) == messages_model(old(out)@) + msgs
                &&& r.0 == off2
                &&& r.1 == ok
            }),
            r.0 <= src.len(),
    {
        if !available(src, offset, COMMAND_HEADER_LENGTH as usize) {
            assert(messages_model(out@) + Seq::<SpecMessage>::empty() =~= messages_model(out@));
            return (offset, false);
        }
        let cmd_type = src[offset];
        let mut off = offset + 4;
        let cmd_len_raw = be_u32(src, off);
        off = off + 8;
        if cmd_len_raw < COMMAND_HEADER_LENGTH {
            assert(messages_model(out@) + Seq::<SpecMessage>::empty() =~= messages_model(out@));
            return (off, false);
        }
        let data_len = (cmd_len_raw - COMMAND_HEADER_LENGTH) as usize;
        if !available(src, off, data_len) {
            assert(messages_model(out@) + Seq::<SpecMessage>::empty() =~= messages_model(out@));
            return (off, false);
        }
        if cmd_type == CMD_DISCONNECT {
            assert(messages_model(out@) + Seq::<SpecMessage>::empty() =~= messages_model(out@));
            (off + data_len, true)
        } else if cmd_type == CMD_SEND_UNRELIABLE {
            if data_len < 4 {
                assert(messages_model(out@) + Seq::<SpecMessage>::empty() =~= messages_model(out@));
                return (off + data_len, false);
            }
            let (end, _) = handle_send_reliable(src, off + 4, data_len - 4, out);
            (end, true)
        } else if cmd_type == CMD_SEND_RELIABLE {
            let (end, _) = handle_send_reliable(src, off, data_len, out);
            (end, true)
        } else if cmd_type == CMD_SEND_FRAGMENT {
            let end = self.handle_send_fragment(src, off, data_len, out);
            (end, true)
        } else {
            assert(messages_model(out@) + Seq::<SpecMessage>::empty() =~= messages_model(out@));
            (off + data_len, true)
        }
    }

    /// Parses one raw Photon payload and returns its messages in order.
    /// Fragments of a message are held until the message is complete.
    pub fn receive_packet(&mut self, payload: &[u8]) -> (r: Vec<PhotonMessage>)
        ensures
            (final(self).model(), messages_model(r@)) == packet_step(old(self).model(), payload@),
            pending_ok(final(self).model()),
    {
        let mut out: Vec<PhotonMessage> = Vec::new();
        assert(messages_model(out@) =~= Seq::<SpecMessage>::empty());
        if payload.len() < PHOTON_HEADER_LENGTH {
            proof { use_type_invariant(&*self); }
            return out;
        }
        let mut offset: usize = 2;
        let flags = payload[offset];
        offset = offset + 1;
        let command_count = payload[offset];
        offset = offset + 1;
        offset = offset + 8;
        if flags == 1 {
            let m = PhotonMessage::Encrypted;
            proof {
                lemma_messages_push(out@, m);
                use_type_invariant(&*self);
            }
            out.push(m);
            return out;
        }
        let ghost st0 = self.model();
        let mut i: u8 = 0;
        while i < command_count
            invariant
                st0 == old(self).model(),
                payload@.len() >= 12,
                payload@[2] != 1,
                command_count == payload@[3],
                offset <= payload.len(),
                i <= command_count,
                commands_step(st0, payload@, 12, command_count as nat, Seq::empty()) == commands_step(
                    self.model(),
                    payload@,
                    offset as int,
                    (command_count - i) as nat,
                    messages_model(out@),
                ),
            decreases command_count - i,
        {
            let (new_offset, ok) = self.handle_command(payload, offset, &mut out);
            if !ok {
                proof { use_type_invariant(&*self); }
                return out;
            }
            offset = new_offset;
            i = i + 1;
        }
        proof { use_type_invariant(&*self); }
        out
    }
}

impl Default for PhotonParser {
    fn default() -> (p: Self)
        ensures
            p.model() == Map::<u32, SpecSegment>::empty(),
    {
        Self::new()
    }
}


/// Whether the `len` bytes at `off` are the body of a fragment command of
/// sequence `start_seq`, for a message of `total` bytes, placed at `at`.
pub open spec fn is_fragment(src: Seq<u8>, off: int, len: int, start_seq: u32, total: int, at: int) -> bool {
    &&& 20 <= len
    &&& 0 <= off
    &&& off + len <= src.len()
    &&& be32(src, off) == start_seq
    &&& be32(src, off + 12) == total
    &&& be32(src, off + 16) == at
}

/// The data a fragment command body carries.
pub open spec fn fragment_data(src: Seq<u8>, off: int, len: int) -> Seq<u8> {
    src.subrange(off + 20, off + len)
}

/// A response whose debug value is not a string (here `Null`, type code 8)
/// yields one response with its operation code, its little-endian return
/// code, an empty debug message, and the parameters of the table that
/// follows the debug value, exactly as that table reads on its own.
pub proof fn lemma_response_params_follow_debug_value(op: u8, lo: u8, hi: u8, tail: Seq<u8>)
    ensures
        response_messages(seq![op, lo, hi, 8u8] + tail) == seq![
            SpecMessage::Response {
                op_code: op,
                return_code: signed16(lo + 256 * hi) as i16,
                debug_message: Seq::empty(),
                params: param_table_from(tail, 0).0,
            },
        ],
{
    crate::framing::lemma_parameter_table_ignores_what_precedes(seq![8u8], tail);
    let data = seq![op, lo, hi, 8u8] + tail;
    let rest = data.subrange(3, data.len() as int);
    assert(rest =~= seq![8u8] + tail);
    assert(is_scalar_code(8));
    assert(value_at(rest, 1, rest[0]) == (SpecValue::Null, 1int));
    assert(le16(data, 1) == lo + 256 * hi);
}

/// A packet of one reliable command (type 6), or of one unreliable command
/// (type 7, whose body starts with 4 more bytes), carrying a signal byte, a
/// message type and a message: a request (type 2) yields one request with
/// its operation code and the parameter table that follows, an event
/// (type 4) one event likewise, a response (type 3 or 7) with a `Null`
/// debug value one response with the table after it, an encrypted message
/// (type 131) one `Encrypted`, and a message of an unknown type nothing.  The state is left
/// as it was.
pub proof fn lemma_single_message_packet(
    st: Map<u32, SpecSegment>,
    header: Seq<u8>,
    command: Seq<u8>,
    extra: Seq<u8>,
    signal: u8,
    msg_type: u8,
    code: u8,
    table: Seq<u8>,
)
    requires
        header.len() == 12,
        header[2] != 1,
        header[3] == 1,
        command.len() == 12,
        (command[0] == CMD_SEND_RELIABLE && extra.len() == 0) || (command[0] == CMD_SEND_UNRELIABLE
            && extra.len() == 4),
        be32(command, 4) == 12 + extra.len() + 3 + table.len(),
    ensures
        ({
            let p = header + command + extra + seq![signal, msg_type, code] + table;
            &&& msg_type == MSG_REQUEST ==> packet_step(st, p) == (
                st,
                seq![SpecMessage::Request { op_code: code, params: param_table_from(table, 0).0 }],
            )
            &&& msg_type == MSG_EVENT ==> packet_step(st, p) == (
                st,
                seq![SpecMessage::Event { code, params: param_table_from(table, 0).0 }],
            )
            &&& msg_type == MSG_ENCRYPTED ==> packet_step(st, p) == (st, seq![SpecMessage::Encrypted])
            &&& (msg_type == MSG_RESPONSE || msg_type == MSG_RESPONSE_ALT) && table.len() >= 3 && table[2] == 8
                ==> packet_step(st, p) == (
                st,
                seq![
                    SpecMessage::Response {
                        op_code: code,
                        return_code: signed16(table[0] + 256 * table[1]) as i16,
                        debug_message: Seq::empty(),
                        params: param_table_from(table.subrange(3, table.len() as int), 0).0,
                    },
                ],
            )
            &&& (msg_type != MSG_REQUEST && msg_type != MSG_RESPONSE && msg_type != MSG_EVENT && msg_type
                != MSG_RESPONSE_ALT && msg_type != MSG_ENCRYPTED) ==> packet_step(st, p) == (
                st,
                Seq::<SpecMessage>::empty(),
            )
        }),
{
    let body = seq![signal, msg_type, code] + table;
    let p = header + command + extra + seq![signal, msg_type, code] + table;
    assert(p =~= header + command + (extra + body));
    assert(p[2] == header[2] && p[3] == header[3]);
    assert(p[12] == command[0]);
    assert(be32(p, 16) == be32(command, 4));
    let e = extra.len() as int;
    let off = 24 + e;
    let len = body.len() as int;
    assert(p[off] == signal && p[off + 1] == msg_type);
    let data = p.subrange(off + 2, off + len);
    assert(data =~= seq![code] + table);
    assert(data.subrange(1, data.len() as int) =~= table);
    if table.len() >= 3 && table[2] == 8 {
        let t = table.subrange(3, table.len() as int);
        assert(data =~= seq![code, table[0], table[1], 8u8] + t);
        lemma_response_params_follow_debug_value(code, table[0], table[1], t);
    }
    let (st1, m1, o1, ok1) = command_step(st, p, 12);
    assert(reliable_messages(p, off, len) == (if msg_type == MSG_ENCRYPTED {
        seq![SpecMessage::Encrypted]
    } else if msg_type == MSG_REQUEST {
        request_messages(data)
    } else if msg_type == MSG_RESPONSE || msg_type == MSG_RESPONSE_ALT {
        response_messages(data)
    } else if msg_type == MSG_EVENT {
        event_messages(data)
    } else {
        Seq::empty()
    }));
    assert(st1 == st && m1 == reliable_messages(p, off, len));
    assert(commands_step(st, p, 12, 1, Seq::empty()) == (st1, Seq::<SpecMessage>::empty() + m1)) by {
        reveal_with_fuel(commands_step, 2);
    }
    assert(Seq::<SpecMessage>::empty() + m1 =~= m1);
}

/// A response whose debug value is an array of strings only (market data)
/// yields one response with an empty debug message whose only parameter is
/// that array, under key 0; one whose debug value is a string carries it as
/// its debug message, with the parameter table that follows.
pub proof fn lemma_response_debug_value(op: u8, lo: u8, hi: u8, rest: Seq<u8>, items: Seq<SpecValue>, text: Seq<char>)
    requires
        rest.len() > 0,
    ensures
        value_at(rest, 1, rest[0]).0 == SpecValue::Array(items) && (forall|i: int|
            0 <= i < items.len() ==> #[trigger] items[i] is String) ==> response_messages(seq![op, lo, hi] + rest)
            == seq![
            SpecMessage::Response {
                op_code: op,
                return_code: signed16(lo + 256 * hi) as i16,
                debug_message: Seq::empty(),
                params: Map::empty().insert(0u8, SpecValue::Array(items)),
            },
        ],
        value_at(rest, 1, rest[0]).0 == SpecValue::String(text) ==> response_messages(seq![op, lo, hi] + rest)
            == seq![
            SpecMessage::Response {
                op_code: op,
                return_code: signed16(lo + 256 * hi) as i16,
                debug_message: text,
                params: param_table_from(rest, value_at(rest, 1, rest[0]).1).0,
            },
        ],
{
    let data = seq![op, lo, hi] + rest;
    assert(data.subrange(3, data.len() as int) =~= rest);
    assert(le16(data, 1) == lo + 256 * hi);
}

/// A command of a type the parser does not handle (neither reliable,
/// unreliable nor fragment) is skipped whole and parsing goes on; a command
/// whose length is below its header stops the packet.
pub proof fn lemma_other_commands_are_skipped(st: Map<u32, SpecSegment>, src: Seq<u8>, offset: int)
    requires
        0 <= offset,
        offset + 12 <= src.len(),
    ensures
        be32(src, offset + 4) < 12 ==> command_step(st, src, offset) == (
            st,
            Seq::<SpecMessage>::empty(),
            offset + 12,
            false,
        ),
        (be32(src, offset + 4) >= 12 && offset + be32(src, offset + 4) <= src.len() && src[offset]
            != CMD_SEND_RELIABLE && src[offset] != CMD_SEND_UNRELIABLE && src[offset] != CMD_SEND_FRAGMENT)
            ==> command_step(st, src, offset) == (
            st,
            Seq::<SpecMessage>::empty(),
            offset + be32(src, offset + 4),
            true,
        ),
{
}

/// A fragment command as the parser receives it: the body of `len` bytes
/// at `off` in the packet `src`.
pub struct FragmentCommand {
    pub src: Seq<u8>,
    pub off: int,
    pub len: int,
}

/// Where in the message a fragment's data goes.
pub open spec fn fragment_offset(f: FragmentCommand) -> int {
    be32(f.src, f.off + 16)
}

/// How many data bytes a fragment carries.
pub open spec fn fragment_len(f: FragmentCommand) -> int {
    f.len - 20
}

/// The fragments handled one after another, from state `st`: the final
/// state and all the messages, in order.
pub open spec fn fragments_step(st: Map<u32, SpecSegment>, fs: Seq<FragmentCommand>) -> (
    Map<u32, SpecSegment>,
    Seq<SpecMessage>,
)
    decreases fs.len(),
{
    if fs.len() == 0 {
        (st, Seq::empty())
    } else {
        let (st1, m1) = fragments_step(st, fs.drop_last());
        let f = fs.last();
        let (st2, m2) = fragment_step(st1, f.src, f.off, f.len);
        (st2, m1 + m2)
    }
}

/// The data lengths of the first `k` fragments, added up.
pub open spec fn lengths_sum(fs: Seq<FragmentCommand>, k: int) -> int
    decreases k,
{
    if k <= 0 {
        0
    } else {
        lengths_sum(fs, k - 1) + fragment_len(fs[k - 1])
    }
}

/// Whether `fs` are fragment commands of sequence `start_seq`, each carrying
/// data, that together carry exactly the `total` bytes of `joined`, each
/// byte once.
pub open spec fn tiles(fs: Seq<FragmentCommand>, start_seq: u32, total: int, joined: Seq<u8>) -> bool {
    &&& forall|i: int|
        0 <= i < fs.len() ==> {
            &&& is_fragment(#[trigger] fs[i].src, fs[i].off, fs[i].len, start_seq, total, fragment_offset(fs[i]))
            &&& fs[i].len > 20
            &&& fragment_offset(fs[i]) + fragment_len(fs[i]) <= total
        }
    &&& lengths_sum(fs, fs.len() as int) == total
    &&& joined.len() == total
    &&& forall|i: int, y: int|
        0 <= i < fs.len() && 0 <= y < fragment_len(fs[i]) ==> joined[fragment_offset(fs[i]) + y]
            == #[trigger] fragment_data(fs[i].src, fs[i].off, fs[i].len)[y]
    &&& forall|x: int| 0 <= x < total ==> #[trigger] covered(fs, x)
}

/// Whether a fragment carries the byte at `x` of its message.
pub open spec fn covers(f: FragmentCommand, x: int) -> bool {
    fragment_offset(f) <= x < fragment_offset(f) + fragment_len(f)
}

/// Whether some fragment carries the byte at `x`.
pub open spec fn covered(fs: Seq<FragmentCommand>, x: int) -> bool {
    exists|i: int| 0 <= i < fs.len() && #[trigger] covers(fs[i], x)
}

proof fn lemma_lengths_grow(fs: Seq<FragmentCommand>, k: int, n: int)
    requires
        0 <= k < n <= fs.len(),
        forall|i: int| 0 <= i < fs.len() ==> (#[trigger] fs[i]).len > 20,
    ensures
        lengths_sum(fs, k) < lengths_sum(fs, n),
    decreases n - k,
{
    assert(fs[n - 1].len > 20);
    if k < n - 1 {
        lemma_lengths_grow(fs, k, n - 1);
    }
}

/// What handling the first `k` fragments of a tiling leaves: before the
/// last, the message is pending with the data so far and nothing is
/// yielded; after the last, it is gone and its messages are yielded.
proof fn lemma_fragments_prefix(
    st: Map<u32, SpecSegment>,
    fs: Seq<FragmentCommand>,
    start_seq: u32,
    total: int,
    joined: Seq<u8>,
    k: int,
)
    requires
        !st.contains_key(start_seq),
        tiles(fs, start_seq, total, joined),
        0 <= k <= fs.len(),
    ensures
        ({
            let (stk, mk) = fragments_step(st, fs.take(k));
            &&& k == 0 ==> stk == st && mk == Seq::<SpecMessage>::empty()
            &&& 0 < k < fs.len() ==> {
                &&& mk == Seq::<SpecMessage>::empty()
                &&& stk.contains_key(start_seq)
                &&& stk.remove(start_seq) == st
                &&& stk[start_seq].total_length == total
                &&& stk[start_seq].bytes_written == lengths_sum(fs, k)
                &&& stk[start_seq].payload.len() == total
                &&& forall|i: int, y: int|
                    0 <= i < k && 0 <= y < fragment_len(fs[i]) ==> #[trigger] stk[start_seq].payload[fragment_offset(fs[i]) + y]
                        == joined[fragment_offset(fs[i]) + y]
            }
            &&& k == fs.len() ==> stk == st && mk == reliable_messages(joined, 0, total)
        }),
    decreases k,
{
    if k == 0 {
        assert(fs.take(0).len() == 0);
        return;
    }
    lemma_fragments_prefix(st, fs, start_seq, total, joined, k - 1);
    let prefix = fs.take(k);
    assert(prefix.drop_last() =~= fs.take(k - 1));
    assert(prefix.last() == fs[k - 1]);
    let (st1, m1) = fragments_step(st, fs.take(k - 1));
    let f = fs[k - 1];
    assert(is_fragment(f.src, f.off, f.len, start_seq, total, fragment_offset(f)));
    assert(f.len > 20);
    let at = fragment_offset(f);
    let l = fragment_len(f);
    let data = fragment_data(f.src, f.off, f.len);
    let seg = if st1.contains_key(start_seq) {
        st1[start_seq]
    } else {
        SpecSegment { total_length: total as nat, bytes_written: 0, payload: zeros(total as nat) }
    };
    assert(seg.payload.len() == total);
    assert(seg.bytes_written == lengths_sum(fs, k - 1));
    let payload = write_fragment(seg.payload, at, data);
    assert(data.len() == l);
    assert(payload =~= seg.payload.subrange(0, at) + data + seg.payload.subrange(at + l, total));
    let (st2, m2) = fragment_step(st1, f.src, f.off, f.len);
    assert(fragments_step(st, prefix) == (st2, m1 + m2));
    let n = fs.len() as int;
    if k < n {
        assert forall|i: int| 0 <= i < fs.len() implies (#[trigger] fs[i]).len > 20 by {
            assert(is_fragment(fs[i].src, fs[i].off, fs[i].len, start_seq, total, fragment_offset(fs[i])));
        }
        lemma_lengths_grow(fs, k, n);
        assert(st2 == st1.insert(
            start_seq,
            SpecSegment { total_length: seg.total_length, bytes_written: (seg.bytes_written + l) as nat, payload },
        ));
        assert(m1 + m2 =~= Seq::<SpecMessage>::empty());
        assert(st2.remove(start_seq) =~= st1.remove(start_seq));
        if k - 1 == 0 {
            assert(st1.remove(start_seq) =~= st);
        }
        assert forall|i: int, y: int| 0 <= i < k && 0 <= y < fragment_len(fs[i]) implies #[trigger] st2[start_seq].payload[
            fragment_offset(fs[i]) + y] == joined[fragment_offset(fs[i]) + y] by {
            let z = fragment_offset(fs[i]) + y;
            assert(fs[i].len > 20 && fragment_offset(fs[i]) + fragment_len(fs[i]) <= total);
            if at <= z < at + l {
                assert(payload[z] == data[z - at]);
                assert(joined[at + (z - at)] == fragment_data(f.src, f.off, f.len)[z - at]);
            } else {
                assert(payload[z] == seg.payload[z]);
                if i < k - 1 {
                } else {
                    assert(i == k - 1);
                }
            }
        }
    } else {
        assert(k == n);
        assert(payload =~= joined) by {
            assert forall|x: int| 0 <= x < total implies payload[x] == joined[x] by {
                assert(covered(fs, x));
                let i = choose|i: int| 0 <= i < fs.len() && #[trigger] covers(fs[i], x);
                let y = x - fragment_offset(fs[i]);
                assert(joined[fragment_offset(fs[i]) + y] == fragment_data(fs[i].src, fs[i].off, fs[i].len)[y]);
                if at <= x < at + l {
                    assert(payload[x] == data[x - at]);
                    assert(joined[at + (x - at)] == fragment_data(f.src, f.off, f.len)[x - at]);
                } else {
                    assert(payload[x] == seg.payload[x]);
                    assert(i != k - 1);
                    if k - 1 == 0 {
                        assert(false);
                    }
                    assert(st1[start_seq].payload[fragment_offset(fs[i]) + y] == joined[fragment_offset(fs[i]) + y]);
                }
            }
        }
        if k - 1 == 0 {
            assert(st1 == st);
        }
        assert(st2 == st1.remove(start_seq));
        assert(m1 + m2 =~= reliable_messages(joined, 0, total));
    }
}

/// A message sent in fragments is reassembled whatever order they arrive
/// in: when the fragments carry every byte of it exactly once, nothing is
/// yielded and the message stays pending until the last fragment arrives;
/// that one removes it and yields what the joined data yields as a reliable
/// message.
pub proof fn lemma_fragments_reassemble(
    st: Map<u32, SpecSegment>,
    fs: Seq<FragmentCommand>,
    start_seq: u32,
    total: int,
    joined: Seq<u8>,
)
    requires
        !st.contains_key(start_seq),
        tiles(fs, start_seq, total, joined),
    ensures
        forall|k: int|
            0 < k < fs.len() ==> (#[trigger] fragments_step(st, fs.take(k))).1 == Seq::<SpecMessage>::empty()
                && fragments_step(st, fs.take(k)).0.contains_key(start_seq),
        fragments_step(st, fs) == (st, reliable_messages(joined, 0, total)),
{
    assert forall|k: int| 0 < k < fs.len() implies (#[trigger] fragments_step(st, fs.take(k))).1
        == Seq::<SpecMessage>::empty() && fragments_step(st, fs.take(k)).0.contains_key(start_seq) by {
        lemma_fragments_prefix(st, fs, start_seq, total, joined, k);
    }
    lemma_fragments_prefix(st, fs, start_seq, total, joined, fs.len() as int);
    assert(fs.take(fs.len() as int) =~= fs);
}

/// Only a fragment command changes what is pending: every other command,
/// and a command that cannot be read, leaves the state as it was.
pub proof fn lemma_only_fragments_change_state(st: Map<u32, SpecSegment>, src: Seq<u8>, offset: int)
    requires
        0 <= offset <= src.len(),
    ensures
        !(offset + 12 <= src.len() && src[offset] == CMD_SEND_FRAGMENT) ==> command_step(st, src, offset).0 == st,
{
}

/// A packet shorter than its header yields nothing and changes nothing; a
/// packet flagged as encrypted yields exactly one `Encrypted` message and
/// changes nothing.
pub proof fn lemma_packet_header(st: Map<u32, SpecSegment>, payload: Seq<u8>)
    ensures
        payload.len() < 12 ==> packet_step(st, payload) == (st, Seq::<SpecMessage>::empty()),
        payload.len() >= 12 && payload[2] == 1 ==> packet_step(st, payload) == (st, seq![SpecMessage::Encrypted]),
{
}

/// A message in two fragments is reassembled whichever fragment comes
/// first: the first leaves the message pending and yields nothing; the
/// second completes it, removes it, and yields what the joined data yields
/// as a reliable message.
pub proof fn lemma_two_fragments_any_order(
    st: Map<u32, SpecSegment>,
    src_a: Seq<u8>,
    off_a: int,
    len_a: int,
    src_b: Seq<u8>,
    off_b: int,
    len_b: int,
    start_seq: u32,
)
    requires
        !st.contains_key(start_seq),
        len_a > 20,
        len_b > 20,
        is_fragment(src_a, off_a, len_a, start_seq, (len_a - 20) + (len_b - 20), 0),
        is_fragment(src_b, off_b, len_b, start_seq, (len_a - 20) + (len_b - 20), len_a - 20),
    ensures
        ({
            let joined = fragment_data(src_a, off_a, len_a) + fragment_data(src_b, off_b, len_b);
            let (st1, m1) = fragment_step(st, src_a, off_a, len_a);
            let (st2, m2) = fragment_step(st1, src_b, off_b, len_b);
            let (st3, m3) = fragment_step(st, src_b, off_b, len_b);
            let (st4, m4) = fragment_step(st3, src_a, off_a, len_a);
            &&& st1.contains_key(start_seq) && m1 == Seq::<SpecMessage>::empty()
            &&& st3.contains_key(start_seq) && m3 == Seq::<SpecMessage>::empty()
            &&& st2 == st && st4 == st
            &&& m2 == reliable_messages(joined, 0, joined.len() as int)
            &&& m4 == m2
        }),
{
    let total = (len_a - 20) + (len_b - 20);
    let da = fragment_data(src_a, off_a, len_a);
    let db = fragment_data(src_b, off_b, len_b);
    let joined = da + db;
    let z = zeros(total as nat);
    assert(be32(src_a, off_a) as u32 == start_seq);
    assert(be32(src_b, off_b) as u32 == start_seq);
    // A first.
    let pa = write_fragment(z, 0, da);
    assert(pa =~= da + z.subrange(len_a - 20, total));
    let (st1, m1) = fragment_step(st, src_a, off_a, len_a);
    assert(st1 == st.insert(start_seq, SpecSegment { total_length: total as nat, bytes_written: (len_a - 20) as nat, payload: pa }));
    let pab = write_fragment(pa, len_a - 20, db);
    assert(pab =~= joined);
    assert(st1.remove(start_seq) =~= st);
    // B first.
    let pb = write_fragment(z, len_a - 20, db);
    assert(pb =~= z.subrange(0, len_a - 20) + db);
    let (st3, m3) = fragment_step(st, src_b, off_b, len_b);
    assert(st3 == st.insert(start_seq, SpecSegment { total_length: total as nat, bytes_written: (len_b - 20) as nat, payload: pb }));
    let pba = write_fragment(pb, 0, da);
    assert(pba =~= joined);
    assert(st3.remove(start_seq) =~= st);
}

} // verus!
