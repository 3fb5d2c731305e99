//! The request/response protocol: frames, their `Name=Value;` text encoding
//! and the binary envelope (marker, 4-byte big-endian length, payload).
//!
//! Requests and responses are encoded alike, both with a `Result` token, and
//! decoding upper-cases every name and value it reads.
use vstd::prelude::*;
use vstd::slice::slice_subrange;
use vstd::utf8::*;

pub mod laws;
pub mod results;

use crate::sdcp::results::{FrameError, FrameResult, RecvError, RecvResult, RequestError, RequestResult};
use crate::text::{
    chars_of, push_text, range_matches_ignoring_ascii_case, same_ignoring_ascii_case, to_upper,
    upper_of, utf8_text,
};

verus! {

/// Marker that opens every packet of this protocol.
pub const SDCP_PACKET_HEADER: &'static str = "SDCP 0.0.1";

/// The command names of the protocol.
#[allow(non_camel_case_types)]
pub struct SDCP_COMMANDS;

impl SDCP_COMMANDS {
    pub const SETP: &'static str = "SETP";
    pub const GETP: &'static str = "GETP";
    pub const BEAT: &'static str = "BEAT";
    pub const INFO: &'static str = "INFO";
    pub const NONE: &'static str = "NONE";
}

pub const SDCP_PARAM_STATUS: &'static str = "STATUS";

pub const SDCP_PARAM_PWRCON: &'static str = "PWRCON";

pub const SDCP_OK: &'static str = "OK";

pub const SDCP_FAILED: &'static str = "FAILED";

/// One named parameter of a frame.
pub struct ParamItem {
    pub name: String,
    pub value: String,
}

impl View for ParamItem {
    type V = (Seq<char>, Seq<char>);

    open spec fn view(&self) -> (Seq<char>, Seq<char>) {
        (self.name@, self.value@)
    }
}

impl ParamItem {
    pub fn new(name: String, value: String) -> (r: Self)
        ensures
            r.name == name,
            r.value == value,
    {
        Self { name, value }
    }
}

/// A message of the protocol.
pub struct SdcpFrame {
    pub protocol: String,
    pub command: String,
    pub parameters: Vec<ParamItem>,
    pub result: String,
}

/// The contents of a frame as texts.
pub struct FrameView {
    pub protocol: Seq<char>,
    pub command: Seq<char>,
    pub parameters: Seq<(Seq<char>, Seq<char>)>,
    pub result: Seq<char>,
}

pub open spec fn params_view(ps: Seq<ParamItem>) -> Seq<(Seq<char>, Seq<char>)> {
    ps.map_values(|p: ParamItem| p@)
}

impl View for SdcpFrame {
    type V = FrameView;

    open spec fn view(&self) -> FrameView {
        FrameView {
            protocol: self.protocol@,
            command: self.command@,
            parameters: params_view(self.parameters@),
            result: self.result@,
        }
    }
}

// ---------------------------------------------------------------------------
// Text encoding
// ---------------------------------------------------------------------------
/// The pieces of a text between `;` separators, in order.  There is always at
/// least one; a trailing separator leaves an empty last piece.
pub open spec fn pieces(s: Seq<char>) -> Seq<Seq<char>>
    decreases s.len(),
{
    if s.len() == 0 {
        seq![Seq::empty()]
    } else {
        let p = pieces(s.drop_last());
        if s.last() == ';' {
            p.push(Seq::empty())
        } else {
            p.update(p.len() - 1, p.last().push(s.last()))
        }
    }
}

/// Position of the first `=` of a text, or -1 when there is none.
pub open spec fn first_eq(s: Seq<char>) -> int
    decreases s.len(),
{
    if s.len() == 0 {
        -1
    } else {
        let p = first_eq(s.drop_last());
        if p >= 0 {
            p
        } else if s.last() == '=' {
            s.len() - 1
        } else {
            -1
        }
    }
}

/// What precedes the first `=` of a piece.
pub open spec fn key_of(piece: Seq<char>) -> Seq<char> {
    piece.take(first_eq(piece))
}

/// What follows the first `=` of a piece.
pub open spec fn value_of(piece: Seq<char>) -> Seq<char> {
    piece.skip(first_eq(piece) + 1)
}

/// A frame before any piece of its text has been read.
pub open spec fn initial_frame() -> FrameView {
    FrameView {
        protocol: SDCP_PACKET_HEADER@,
        command: SDCP_COMMANDS::NONE@,
        parameters: Seq::empty(),
        result: SDCP_OK@,
    }
}

/// Reads one piece into a frame: an empty piece is skipped, a piece without
/// `=` is malformed, `Command` and `Result` (in any ASCII case) set those
/// fields, and any other piece adds a parameter.  Everything read is
/// upper-cased.
pub open spec fn apply_piece(f: FrameView, piece: Seq<char>) -> Option<FrameView> {
    if piece.len() == 0 {
        Some(f)
    } else if first_eq(piece) < 0 {
        None
    } else if same_ignoring_ascii_case(key_of(piece), "Command"@) {
        Some(FrameView { command: upper_of(value_of(piece)), ..f })
    } else if same_ignoring_ascii_case(key_of(piece), "Result"@) {
        Some(FrameView { result: upper_of(value_of(piece)), ..f })
    } else {
        Some(
            FrameView {
                parameters: f.parameters.push((upper_of(key_of(piece)), upper_of(value_of(piece)))),
                ..f
            },
        )
    }
}

/// Reads pieces into a frame, in order; `None` once one is malformed.
pub open spec fn apply_pieces(ps: Seq<Seq<char>>) -> Option<FrameView>
    decreases ps.len(),
{
    if ps.len() == 0 {
        Some(initial_frame())
    } else {
        match apply_pieces(ps.drop_last()) {
            Some(f) => apply_piece(f, ps.last()),
            None => None,
        }
    }
}

/// The frame that a text denotes: `None` when a piece is malformed or when no
/// parameter is present.
pub open spec fn decode_frame(s: Seq<char>) -> Option<FrameView> {
    match apply_pieces(pieces(s)) {
        Some(f) => if f.parameters.len() > 0 {
            Some(f)
        } else {
            None
        },
        None => None,
    }
}

/// Reads the piece `cs[start..end]`, whose first `=` is at `eq` if any.
fn read_piece(
    frame: &mut SdcpFrame,
    data: &str,
    cs: &Vec<char>,
    start: usize,
    end: usize,
    eq: Option<usize>,
) -> (ok: bool)
    requires
        cs@ == data@,
        start <= end <= cs@.len(),
        match eq {
            Some(e) => start <= e < end && first_eq(cs@.subrange(start as int, end as int)) == e
                - start,
            None => first_eq(cs@.subrange(start as int, end as int)) < 0,
        },
    ensures
        ok == apply_piece(old(frame)@, cs@.subrange(start as int, end as int)) is Some,
        ok ==> final(frame)@ == apply_piece(old(frame)@, cs@.subrange(start as int, end as int))->0,
{
    let ghost piece = cs@.subrange(start as int, end as int);
    if start == end {
        return true;
    }
    let e = match eq {
        Some(e) => e,
        None => {
            return false;
        },
    };
    proof {
        lemma_first_eq_bound(piece);
    }
    let key = data.substring_char(start, e);
    let value = data.substring_char(e + 1, end);
    assert(key@ == key_of(piece));
    assert(value@ == value_of(piece));
    let command_word = chars_of("Command");
    let result_word = chars_of("Result");
    if range_matches_ignoring_ascii_case(cs, start, e, &command_word) {
        frame.command = to_upper(value);
    } else if range_matches_ignoring_ascii_case(cs, start, e, &result_word) {
        frame.result = to_upper(value);
    } else {
        let item = ParamItem::new(to_upper(key), to_upper(value));
        frame.parameters.push(item);
        assert(params_view(frame.parameters@) == params_view(old(frame).parameters@).push(
            (upper_of(key_of(piece)), upper_of(value_of(piece))),
        ));
    }
    true
}

proof fn lemma_first_eq_bound(s: Seq<char>)
    ensures
        -1 <= first_eq(s) < s.len(),
        first_eq(s) >= 0 ==> s[first_eq(s)] == '=',
    decreases s.len(),
{
    if s.len() > 0 {
        lemma_first_eq_bound(s.drop_last());
        if first_eq(s.drop_last()) >= 0 {
            assert(s[first_eq(s)] == s.drop_last()[first_eq(s)]);
        }
    }
}

/// Where a piece lies in a text: its start, its end, and its first `=`.
pub open spec fn bound_of(cs: Seq<char>, b: (usize, usize, Option<usize>), piece: Seq<char>) -> bool {
    &&& b.0 <= b.1 <= cs.len()
    &&& cs.subrange(b.0 as int, b.1 as int) == piece
    &&& match b.2 {
        Some(e) => b.0 <= e < b.1 && first_eq(piece) == e - b.0,
        None => first_eq(piece) < 0,
    }
}

/// Locates the pieces of a text between `;` separators, in order, each with
/// its first `=`.
pub fn piece_bounds(cs: &Vec<char>) -> (r: Vec<(usize, usize, Option<usize>)>)
    ensures
        r@.len() == pieces(cs@).len(),
        forall|j: int| 0 <= j < r@.len() ==> bound_of(cs@, #[trigger] r@[j], pieces(cs@)[j]),
{
    let mut r: Vec<(usize, usize, Option<usize>)> = Vec::new();
    let mut start: usize = 0;
    let mut eq: Option<usize> = None;
    let mut i: usize = 0;
    assert(cs@.take(0) =~= Seq::<char>::empty());
    assert(cs@.subrange(0, 0) =~= Seq::<char>::empty());
    while i < cs.len()
        invariant
            start <= i <= cs@.len(),
            pieces(cs@.take(i as int)).len() == r@.len() + 1,
            forall|j: int|
                0 <= j < r@.len() ==> bound_of(cs@, #[trigger] r@[j], pieces(cs@.take(i as int))[j]),
            pieces(cs@.take(i as int)).last() == cs@.subrange(start as int, i as int),
            bound_of(cs@, (start, i, eq), cs@.subrange(start as int, i as int)),
        decreases cs@.len() - i,
    {
        let ghost piece = cs@.subrange(start as int, i as int);
        let ghost before = pieces(cs@.take(i as int));
        assert(cs@.take(i + 1).drop_last() =~= cs@.take(i as int));
        assert(cs@.take(i + 1).last() == cs@[i as int]);
        if cs[i] == ';' {
            r.push((start, i, eq));
            start = i + 1;
            eq = None;
            assert(cs@.subrange(start as int, i + 1) =~= Seq::<char>::empty());
            assert(forall|j: int| 0 <= j < r@.len() ==> pieces(cs@.take(i + 1))[j] == before[j]);
        } else {
            assert(cs@.subrange(start as int, i + 1) =~= piece.push(cs@[i as int]));
            assert(cs@.subrange(start as int, i + 1).drop_last() =~= piece);
            assert(forall|j: int| 0 <= j < r@.len() ==> pieces(cs@.take(i + 1))[j] == before[j]);
            if eq.is_none() && cs[i] == '=' {
                eq = Some(i);
            }
        }
        i = i + 1;
    }
    assert(cs@.take(i as int) =~= cs@);
    r.push((start, i, eq));
    r
}

/// Once a prefix of the pieces is malformed, so is the whole sequence.
proof fn lemma_apply_pieces_failed(ps: Seq<Seq<char>>, n: int)
    requires
        0 <= n <= ps.len(),
        apply_pieces(ps.take(n)) is None,
    ensures
        apply_pieces(ps) is None,
    decreases ps.len() - n,
{
    if n < ps.len() {
        assert(ps.take(n + 1).drop_last() =~= ps.take(n));
        lemma_apply_pieces_failed(ps, n + 1);
    } else {
        assert(ps.take(n) =~= ps);
    }
}

/// Decodes the text of a frame.  Pieces are separated by `;` and empty ones
/// are skipped; each other piece is split at its first `=`.  A piece without
/// `=` makes the text invalid, and so does the absence of any parameter, even
/// when a command is present.
pub fn make_frame(data: String) -> (r: FrameResult)
    ensures
        match decode_frame(data@) {
            Some(f) => r matches Ok(fr) && fr@ == f,
            None => r matches Err(FrameError::InvalidPacket),
        },
{
    let cs = chars_of(data.as_str());
    let bounds = piece_bounds(&cs);
    let ghost ps = pieces(cs@);
    let mut frame = SdcpFrame {
        protocol: String::from_str(SDCP_PACKET_HEADER),
        command: String::from_str(SDCP_COMMANDS::NONE),
        parameters: Vec::new(),
        result: String::from_str(SDCP_OK),
    };
    assert(frame@ == initial_frame()) by {
        assert(params_view(frame.parameters@) =~= Seq::empty());
    }
    assert(ps.take(0) =~= Seq::<Seq<char>>::empty());
    let mut k: usize = 0;
    while k < bounds.len()
        invariant
            cs@ == data@,
            ps == pieces(cs@),
            bounds@.len() == ps.len(),
            forall|j: int| 0 <= j < bounds@.len() ==> bound_of(cs@, #[trigger] bounds@[j], ps[j]),
            k <= bounds@.len(),
            apply_pieces(ps.take(k as int)) == Some(frame@),
        decreases bounds@.len() - k,
    {
        let (start, end, eq) = bounds[k];
        assert(bound_of(cs@, bounds@[k as int], ps[k as int]));
        assert(ps.take(k + 1).drop_last() =~= ps.take(k as int));
        assert(ps.take(k + 1).last() == ps[k as int]);
        if !read_piece(&mut frame, data.as_str(), &cs, start, end, eq) {
            proof {
                lemma_apply_pieces_failed(ps, k + 1);
            }
            return Err(FrameError::InvalidPacket);
        }
        k = k + 1;
    }
    assert(ps.take(k as int) =~= ps);
    if frame.parameters.len() > 0 {
        Ok(frame)
    } else {
        Err(FrameError::InvalidPacket)
    }
}

/// The text of one parameter: `Name=Value;`.
pub open spec fn param_text(p: (Seq<char>, Seq<char>)) -> Seq<char> {
    p.0 + "="@ + p.1 + ";"@
}

/// The texts of parameters, in order.
pub open spec fn params_text(ps: Seq<(Seq<char>, Seq<char>)>) -> Seq<char>
    decreases ps.len(),
{
    if ps.len() == 0 {
        Seq::empty()
    } else {
        params_text(ps.drop_last()) + param_text(ps.last())
    }
}

/// The text of a frame: its command, its result, then its parameters.
pub open spec fn encode_frame(f: FrameView) -> Seq<char> {
    "Command="@ + f.command + ";"@ + "Result="@ + f.result + ";"@ + params_text(f.parameters)
}

/// Encodes a frame as `Command=<command>;Result=<result>;Name=Value;...`.
/// Nothing is escaped: a `;` or `=` inside a name or value goes out as it is.
pub fn make_packet(frame: SdcpFrame) -> (r: String)
    ensures
        r@ == encode_frame(frame@),
{
    let mut data = String::new();
    push_text(&mut data, "Command=");
    push_text(&mut data, frame.command.as_str());
    push_text(&mut data, ";");
    push_text(&mut data, "Result=");
    push_text(&mut data, frame.result.as_str());
    push_text(&mut data, ";");
    let ghost head = data@;
    let ghost ps = params_view(frame.parameters@);
    let mut i: usize = 0;
    assert(ps.take(0) =~= Seq::<(Seq<char>, Seq<char>)>::empty());
    assert(data@ =~= head + params_text(ps.take(0)));
    while i < frame.parameters.len()
        invariant
            i <= frame.parameters@.len(),
            ps == params_view(frame.parameters@),
            data@ == head + params_text(ps.take(i as int)),
        decreases frame.parameters@.len() - i,
    {
        let item = &frame.parameters[i];
        push_text(&mut data, item.name.as_str());
        push_text(&mut data, "=");
        push_text(&mut data, item.value.as_str());
        push_text(&mut data, ";");
        assert(ps.take(i + 1).drop_last() =~= ps.take(i as int));
        assert(data@ =~= head + params_text(ps.take(i + 1)));
        i = i + 1;
    }
    assert(ps.take(i as int) =~= ps);
    data
}

// ---------------------------------------------------------------------------
// Envelope
// ---------------------------------------------------------------------------
/// The bytes of the marker.
pub open spec fn marker_bytes() -> Seq<u8> {
    encode_utf8(SDCP_PACKET_HEADER@)
}

/// A length as four bytes, most significant first.
pub open spec fn be_bytes(n: u32) -> Seq<u8> {
    seq![
        (n / 0x1000000) as u8,
        ((n / 0x10000) % 0x100) as u8,
        ((n / 0x100) % 0x100) as u8,
        (n % 0x100) as u8,
    ]
}

/// The number that four bytes denote, most significant first.
pub open spec fn be_value(b: Seq<u8>) -> nat {
    b[0] as nat * 0x1000000 + b[1] as nat * 0x10000 + b[2] as nat * 0x100 + b[3] as nat
}

/// The packet that carries a payload: marker, payload length, payload.
pub open spec fn envelope_of(payload: Seq<char>) -> Seq<u8> {
    marker_bytes() + be_bytes(encode_utf8(payload).len() as u32) + encode_utf8(payload)
}

fn append_bytes(v: &mut Vec<u8>, b: &[u8])
    ensures
        final(v)@ == old(v)@ + b@,
{
    let mut i: usize = 0;
    while i < b.len()
        invariant
            i <= b@.len(),
            v@ == old(v)@ + b@.take(i as int),
        decreases b@.len() - i,
    {
        v.push(b[i]);
        assert(b@.take(i + 1) =~= b@.take(i as int).push(b@[i as int]));
        i = i + 1;
    }
    assert(b@.take(i as int) =~= b@);
}

/// Wraps a payload for sending: the marker, the payload's byte length as four
/// big-endian bytes, then the payload's bytes.
pub fn envelope(data: &str) -> (r: Vec<u8>)
    requires
        encode_utf8(data@).len() <= u32::MAX,
    ensures
        r@ == envelope_of(data@),
{
    let payload = data.as_bytes();
    let n = payload.len() as u32;
    let mut r: Vec<u8> = Vec::new();
    append_bytes(&mut r, SDCP_PACKET_HEADER.as_bytes());
    r.push((n / 0x1000000) as u8);
    r.push(((n / 0x10000) % 0x100) as u8);
    r.push(((n / 0x100) % 0x100) as u8);
    r.push((n % 0x100) as u8);
    append_bytes(&mut r, payload);
    assert(r@ =~= envelope_of(data@));
    r
}

/// Whether a received packet is long enough for the marker, the length and
/// the payload that the length announces.
pub open spec fn packet_complete(p: Seq<u8>) -> bool {
    let m = marker_bytes().len() as int;
    p.len() >= m + 4 && p.len() >= m + 4 + be_value(p.subrange(m, m + 4))
}

/// The payload bytes of a complete packet.
pub open spec fn payload_of(p: Seq<u8>) -> Seq<u8> {
    let m = marker_bytes().len() as int;
    p.subrange(m + 4, m + 4 + be_value(p.subrange(m, m + 4)))
}

/// Whether a received packet is well formed: complete, and opened by the
/// marker.
pub open spec fn packet_valid(p: Seq<u8>) -> bool {
    packet_complete(p) && p.subrange(0, marker_bytes().len() as int) == marker_bytes()
}

/// Checks a received packet and extracts its payload as text.  A packet
/// shorter than the marker, the length and the announced payload, or opened
/// by another marker, is an invalid packet; a payload that is not UTF-8 is a
/// bad encoding.  Bytes past the announced payload are ignored.
pub fn parse_packet(packet: &[u8]) -> (r: RecvResult)
    ensures
        !packet_valid(packet@) <==> r matches Err(RecvError::InvalidPacket),
        packet_valid(packet@) && valid_utf8(payload_of(packet@)) ==> (r matches Ok(s) && s@
            == decode_utf8(payload_of(packet@))),
        packet_valid(packet@) && !valid_utf8(payload_of(packet@)) ==> r matches Err(
            RecvError::BadEncoding,
        ),
{
    let marker = SDCP_PACKET_HEADER.as_bytes();
    let m = marker.len();
    if packet.len() < m || packet.len() - m < 4 {
        return Err(RecvError::InvalidPacket);
    }
    let mut i: usize = 0;
    while i < m
        invariant
            m == marker@.len() == marker_bytes().len(),
            marker@ == marker_bytes(),
            m + 4 <= packet@.len(),
            i <= m,
            forall|j: int| 0 <= j < i ==> packet@[j] == marker@[j],
        decreases m - i,
    {
        if packet[i] != marker[i] {
            assert(packet@.subrange(0, m as int)[i as int] != marker_bytes()[i as int]);
            return Err(RecvError::InvalidPacket);
        }
        i = i + 1;
    }
    assert(packet@.subrange(0, m as int) =~= marker_bytes());
    let len: u64 = packet[m] as u64 * 0x1000000 + packet[m + 1] as u64 * 0x10000
        + packet[m + 2] as u64 * 0x100 + packet[m + 3] as u64;
    assert(len == be_value(packet@.subrange(m as int, m + 4)));
    if ((packet.len() - m - 4) as u64) < len {
        return Err(RecvError::InvalidPacket);
    }
    let body = slice_subrange(packet, m + 4, m + 4 + len as usize);
    match utf8_text(body) {
        Ok(text) => Ok(text),
        Err(_) => Err(RecvError::BadEncoding),
    }
}

/// Checks the header of a packet read from a stream, the marker followed by
/// four length bytes, and gives the payload length that it announces.  A
/// header that is too short or opened by another marker is an invalid packet.
pub fn packet_header(header: &[u8]) -> (r: Result<u32, RecvError>)
    ensures
        header@.len() >= marker_bytes().len() + 4 && header@.subrange(
            0,
            marker_bytes().len() as int,
        ) == marker_bytes() ==> (r matches Ok(n) && n as nat == be_value(
            header@.subrange(marker_bytes().len() as int, marker_bytes().len() as int + 4),
        )),
        !(header@.len() >= marker_bytes().len() + 4 && header@.subrange(
            0,
            marker_bytes().len() as int,
        ) == marker_bytes()) ==> r matches Err(RecvError::InvalidPacket),
{
    let marker = SDCP_PACKET_HEADER.as_bytes();
    let m = marker.len();
    if header.len() < m || header.len() - m < 4 {
        return Err(RecvError::InvalidPacket);
    }
    let mut i: usize = 0;
    while i < m
        invariant
            m == marker@.len() == marker_bytes().len(),
            marker@ == marker_bytes(),
            m + 4 <= header@.len(),
            i <= m,
            forall|j: int| 0 <= j < i ==> header@[j] == marker@[j],
        decreases m - i,
    {
        if header[i] != marker[i] {
            assert(header@.subrange(0, m as int)[i as int] != marker_bytes()[i as int]);
            return Err(RecvError::InvalidPacket);
        }
        i = i + 1;
    }
    assert(header@.subrange(0, m as int) =~= marker_bytes());
    let n: u32 = header[m] as u32 * 0x1000000 + header[m + 1] as u32 * 0x10000
        + header[m + 2] as u32 * 0x100 + header[m + 3] as u32;
    assert(n as nat == be_value(header@.subrange(m as int, m + 4)));
    Ok(n)
}

/// The outcome of a request once its response has been received: the
/// decoded frame, `InvalidPacket` when the response does not decode, or the
/// receive error as it came.
pub fn finish_request(received: RecvResult) -> (r: RequestResult)
    ensures
        match received {
            Ok(data) => match decode_frame(data@) {
                Some(f) => r matches Ok(fr) && fr@ == f,
                None => r matches Err(RequestError::InvalidPacket),
            },
            Err(e) => r == Err::<SdcpFrame, RequestError>(RequestError::Recv(e)),
        },
{
    match received {
        Ok(data) => match make_frame(data) {
            Ok(frame) => Ok(frame),
            Err(_) => Err(RequestError::InvalidPacket),
        },
        Err(error) => Err(RequestError::Recv(error)),
    }
}

} // verus!
