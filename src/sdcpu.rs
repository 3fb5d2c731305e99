//! The telemetry protocol: one-way datagrams whose text is
//! `HEADER=<protocol>;Name=Value;...`, decoded leniently into the latest
//! reading of a sensor.
use vstd::prelude::*;
use vstd::slice::slice_subrange;
use vstd::utf8::*;

pub mod results;

use crate::sdcp::{bound_of, first_eq, key_of, params_text, piece_bounds, pieces, value_of};
use crate::sdcpu::results::{FrameError, FrameResult};
use crate::text::{chars_of, push_text, text_is, to_upper, upper_of, utf8_text};

verus! {

/// Protocol announced by a datagram that does not name one.
pub const SDCPU_PACKET_HEADER: &'static str = "SDCPU 0.0.1";

/// Name of the parameter that announces the sender's protocol.
pub const SDCPU_HEADER_PARAM: &'static str = "HEADER";

/// One named reading of a datagram.
pub struct ParamItem {
    pub name: String,
    pub value: String,
}

impl View for ParamItem {
    type V = (Seq<char>, Seq<char>);

    open spec fn view(&self) -> (Seq<char>, Seq<char>) {
        (self.name@, self.value@)
    }
}

impl ParamItem {
    pub fn new(name: String, value: String) -> (r: Self)
        ensures
            r.name == name,
            r.value == value,
    {
        Self { name, value }
    }
}

/// A telemetry datagram: the protocol its sender announced, and its readings.
pub struct SdcpuFrame {
    pub protocol: String,
    pub parameters: Vec<ParamItem>,
}

/// The contents of a telemetry frame as texts.
pub struct TelemetryView {
    pub protocol: Seq<char>,
    pub parameters: Seq<(Seq<char>, Seq<char>)>,
}

pub open spec fn params_view(ps: Seq<ParamItem>) -> Seq<(Seq<char>, Seq<char>)> {
    ps.map_values(|p: ParamItem| p@)
}

impl View for SdcpuFrame {
    type V = TelemetryView;

    open spec fn view(&self) -> TelemetryView {
        TelemetryView { protocol: self.protocol@, parameters: params_view(self.parameters@) }
    }
}

/// Handle of a running telemetry receiver.
pub struct SdcpuHandler;

/// The readings of a datagram's pieces: each piece that holds `=` gives its
/// key and value, upper-cased; the other pieces are skipped.
pub open spec fn readings(ps: Seq<Seq<char>>) -> Seq<(Seq<char>, Seq<char>)>
    decreases ps.len(),
{
    if ps.len() == 0 {
        Seq::empty()
    } else {
        let rest = readings(ps.drop_last());
        if first_eq(ps.last()) >= 0 {
            rest.push((upper_of(key_of(ps.last())), upper_of(value_of(ps.last()))))
        } else {
            rest
        }
    }
}

/// The value of the first reading named `HEADER`, if any.
pub open spec fn announced(ps: Seq<(Seq<char>, Seq<char>)>) -> Option<Seq<char>>
    decreases ps.len(),
{
    if ps.len() == 0 {
        None
    } else {
        match announced(ps.drop_last()) {
            Some(v) => Some(v),
            None => if ps.last().0 == SDCPU_HEADER_PARAM@ {
                Some(ps.last().1)
            } else {
                None
            },
        }
    }
}

/// The frame that a datagram's text denotes: its readings, and as protocol
/// the announced one, or the default marker when none is announced.
pub open spec fn decode_telemetry(text: Seq<char>) -> TelemetryView {
    let ps = readings(pieces(text));
    TelemetryView {
        protocol: match announced(ps) {
            Some(v) => v,
            None => SDCPU_PACKET_HEADER@,
        },
        parameters: ps,
    }
}

/// The frame with no reading, which stands for "nothing known".
pub open spec fn empty_telemetry() -> TelemetryView {
    TelemetryView { protocol: SDCPU_PACKET_HEADER@, parameters: Seq::empty() }
}

/// Decodes the first `length` bytes of a datagram.  They must be UTF-8; the
/// text is then split at `;`, pieces without `=` are skipped, and each other
/// piece is split at its first `=` into an upper-cased name and value.  The
/// `HEADER` reading, which stays among the readings, sets the protocol.
pub fn make_frame(datagram: &[u8], length: usize) -> (r: FrameResult)
    requires
        length <= datagram@.len(),
    ensures
        r is Ok <==> valid_utf8(datagram@.take(length as int)),
        r matches Ok(f) ==> f@ == decode_telemetry(decode_utf8(datagram@.take(length as int))),
        r is Err ==> r matches Err(FrameError::EncodingError(_)),
{
    let bytes = slice_subrange(datagram, 0, length);
    assert(bytes@ == datagram@.take(length as int));
    let text = match utf8_text(bytes) {
        Ok(text) => text,
        Err(e) => {
            return Err(FrameError::EncodingError(e));
        },
    };
    let cs = chars_of(text.as_str());
    let bounds = piece_bounds(&cs);
    let ghost ps = pieces(cs@);
    let mut parameters: Vec<ParamItem> = Vec::new();
    let mut k: usize = 0;
    assert(ps.take(0) =~= Seq::<Seq<char>>::empty());
    assert(params_view(parameters@) =~= Seq::empty());
    while k < bounds.len()
        invariant
            cs@ == text@,
            ps == pieces(cs@),
            bounds@.len() == ps.len(),
            forall|j: int| 0 <= j < bounds@.len() ==> bound_of(cs@, #[trigger] bounds@[j], ps[j]),
            k <= bounds@.len(),
            params_view(parameters@) == readings(ps.take(k as int)),
        decreases bounds@.len() - k,
    {
        let (start, end, eq) = bounds[k];
        assert(bound_of(cs@, bounds@[k as int], ps[k as int]));
        assert(ps.take(k + 1).drop_last() =~= ps.take(k as int));
        assert(ps.take(k + 1).last() == ps[k as int]);
        if let Some(e) = eq {
            let key = text.as_str().substring_char(start, e);
            let value = text.as_str().substring_char(e + 1, end);
            let ghost piece = ps[k as int];
            assert(key@ == key_of(piece));
            assert(value@ == value_of(piece));
            parameters.push(ParamItem::new(to_upper(key), to_upper(value)));
            assert(params_view(parameters@) =~= readings(ps.take(k + 1)));
        }
        k = k + 1;
    }
    assert(ps.take(k as int) =~= ps);
    let ghost rs = params_view(parameters@);
    let mut protocol = String::from_str(SDCPU_PACKET_HEADER);
    let mut found = false;
    let mut i: usize = 0;
    assert(rs.take(0) =~= Seq::<(Seq<char>, Seq<char>)>::empty());
    while i < parameters.len() && !found
        invariant
            rs == params_view(parameters@),
            i <= parameters@.len(),
            found ==> announced(rs) == Some(protocol@),
            !found ==> announced(rs.take(i as int)) is None && protocol@ == SDCPU_PACKET_HEADER@,
        decreases parameters@.len() - i,
    {
        assert(rs.take(i + 1).drop_last() =~= rs.take(i as int));
        if text_is(&parameters[i].name, SDCPU_HEADER_PARAM) {
            protocol = parameters[i].value.clone();
            found = true;
            proof {
                lemma_announced_prefix(rs, i as int + 1);
            }
        }
        i = i + 1;
    }
    if !found {
        assert(rs.take(i as int) =~= rs);
    }
    let frame = SdcpuFrame { protocol, parameters };
    Ok(frame)
}

/// A reading found in a prefix is the one announced by the whole.
proof fn lemma_announced_prefix(ps: Seq<(Seq<char>, Seq<char>)>, n: int)
    requires
        0 <= n <= ps.len(),
        announced(ps.take(n)) is Some,
    ensures
        announced(ps) == announced(ps.take(n)),
    decreases ps.len() - n,
{
    if n < ps.len() {
        assert(ps.take(n + 1).drop_last() =~= ps.take(n));
        lemma_announced_prefix(ps, n + 1);
    } else {
        assert(ps.take(n) =~= ps);
    }
}

/// What the shared slot holds after a datagram: the decoded frame, or the
/// empty frame when the datagram does not decode, so that stale readings are
/// never kept.
pub fn received_frame(datagram: &[u8], length: usize) -> (r: SdcpuFrame)
    requires
        length <= datagram@.len(),
    ensures
        valid_utf8(datagram@.take(length as int)) ==> r@ == decode_telemetry(
            decode_utf8(datagram@.take(length as int)),
        ),
        !valid_utf8(datagram@.take(length as int)) ==> r@ == empty_telemetry(),
{
    match make_frame(datagram, length) {
        Ok(frame) => frame,
        Err(_) => {
            let frame = SdcpuFrame {
                protocol: String::from_str(SDCPU_PACKET_HEADER),
                parameters: Vec::new(),
            };
            assert(params_view(frame.parameters@) =~= Seq::empty());
            frame
        },
    }
}

/// The text of a telemetry frame: its protocol, then its readings.
pub open spec fn encode_telemetry(f: TelemetryView) -> Seq<char> {
    "HEADER="@ + f.protocol + ";"@ + params_text(f.parameters)
}

/// Encodes a frame as `HEADER=<protocol>;Name=Value;...`.  Nothing is
/// escaped.
pub fn make_packet(frame: &SdcpuFrame) -> (r: String)
    ensures
        r@ == encode_telemetry(frame@),
{
    let mut data = String::new();
    push_text(&mut data, "HEADER=");
    push_text(&mut data, frame.protocol.as_str());
    push_text(&mut data, ";");
    let ghost head = data@;
    let ghost ps = params_view(frame.parameters@);
    let mut i: usize = 0;
    assert(ps.take(0) =~= Seq::<(Seq<char>, Seq<char>)>::empty());
    assert(data@ =~= head + params_text(ps.take(0)));
    while i < frame.parameters.len()
        invariant
            i <= frame.parameters@.len(),
            ps == params_view(frame.parameters@),
            data@ == head + params_text(ps.take(i as int)),
        decreases frame.parameters@.len() - i,
    {
        let item = &frame.parameters[i];
        push_text(&mut data, item.name.as_str());
        push_text(&mut data, "=");
        push_text(&mut data, item.value.as_str());
        push_text(&mut data, ";");
        assert(ps.take(i + 1).drop_last() =~= ps.take(i as int));
        assert(data@ =~= head + params_text(ps.take(i + 1)));
        i = i + 1;
    }
    assert(ps.take(i as int) =~= ps);
    data
}

/// The value of the first reading with the given name, if any.
pub open spec fn reading_of(ps: Seq<(Seq<char>, Seq<char>)>, name: Seq<char>) -> Option<Seq<char>>
    decreases ps.len(),
{
    if ps.len() == 0 {
        None
    } else {
        match reading_of(ps.drop_last(), name) {
            Some(v) => Some(v),
            None => if ps.last().0 == name {
                Some(ps.last().1)
            } else {
                None
            },
        }
    }
}

impl SdcpuFrame {
    /// The value of the first reading with the given name, if any.
    pub fn reading(&self, name: &str) -> (r: Option<String>)
        ensures
            match reading_of(self@.parameters, name@) {
                Some(v) => r matches Some(s) && s@ == v,
                None => r is None,
            },
    {
        let ghost rs = self@.parameters;
        let mut i: usize = 0;
        assert(rs.take(0) =~= Seq::<(Seq<char>, Seq<char>)>::empty());
        while i < self.parameters.len()
            invariant
                rs == params_view(self.parameters@),
                i <= self.parameters@.len(),
                reading_of(rs.take(i as int), name@) is None,
            decreases self.parameters@.len() - i,
        {
            assert(rs.take(i + 1).drop_last() =~= rs.take(i as int));
            if text_is(&self.parameters[i].name, name) {
                proof {
                    lemma_reading_prefix(rs, name@, i as int + 1);
                }
                return Some(self.parameters[i].value.clone());
            }
            i = i + 1;
        }
        assert(rs.take(i as int) =~= rs);
        None
    }
}

/// A reading found in a prefix is the first one of the whole.
proof fn lemma_reading_prefix(ps: Seq<(Seq<char>, Seq<char>)>, name: Seq<char>, n: int)
    requires
        0 <= n <= ps.len(),
        reading_of(ps.take(n), name) is Some,
    ensures
        reading_of(ps, name) == reading_of(ps.take(n), name),
    decreases ps.len() - n,
{
    if n < ps.len() {
        assert(ps.take(n + 1).drop_last() =~= ps.take(n));
        lemma_reading_prefix(ps, name, n + 1);
    } else {
        assert(ps.take(n) =~= ps);
    }
}

} // verus!
