//! Properties that relate the encoder, the decoder and the envelope.
use vstd::prelude::*;
use vstd::utf8::*;

use crate::sdcp::{
    apply_piece, apply_pieces, be_bytes, be_value, decode_frame, encode_frame, envelope_of,
    first_eq, initial_frame, key_of, marker_bytes, packet_valid, params_text, payload_of, pieces,
    value_of, FrameView, SDCP_PACKET_HEADER,
};
use crate::text::{same_ignoring_ascii_case, upper_of};

verus! {

/// A text that upper-casing leaves as it is.
pub open spec fn upper_case(s: Seq<char>) -> bool {
    upper_of(s) == s
}

/// A parameter that the text encoding carries unchanged: its name holds no
/// `;` or `=` and is neither `Command` nor `Result` in any ASCII case, its
/// value holds no `;`, and both are in upper case.
pub open spec fn transmissible(p: (Seq<char>, Seq<char>)) -> bool {
    &&& !p.0.contains(';')
    &&& !p.0.contains('=')
    &&& !p.1.contains(';')
    &&& !same_ignoring_ascii_case(p.0, "Command"@)
    &&& !same_ignoring_ascii_case(p.0, "Result"@)
    &&& upper_case(p.0)
    &&& upper_case(p.1)
}

/// The piece that a parameter's text leaves between separators.
pub open spec fn param_piece(p: (Seq<char>, Seq<char>)) -> Seq<char> {
    p.0 + "="@ + p.1
}

proof fn lemma_pieces_append_plain(x: Seq<char>, y: Seq<char>)
    requires
        !y.contains(';'),
    ensures
        pieces(x + y) == pieces(x).drop_last().push(pieces(x).last() + y),
    decreases y.len(),
{
    lemma_pieces_len(x);
    if y.len() == 0 {
        assert(x + y =~= x);
        assert(pieces(x).last() + y =~= pieces(x).last());
        assert(pieces(x).drop_last().push(pieces(x).last()) =~= pieces(x));
    } else {
        let z = y.drop_last();
        assert(!z.contains(';')) by {
            if z.contains(';') {
                let k = choose|k: int| 0 <= k < z.len() && z[k] == ';';
                assert(y[k] == ';');
            }
        }
        lemma_pieces_append_plain(x, z);
        assert((x + y).drop_last() =~= x + z);
        assert((x + y).last() == y.last());
        assert(y.last() != ';') by {
            assert(y[y.len() - 1] == y.last());
        }
        lemma_pieces_len(x + z);
        assert(pieces(x).last() + y =~= (pieces(x).last() + z).push(y.last()));
        assert(pieces(x + y) =~= pieces(x).drop_last().push(pieces(x).last() + y));
    }
}

proof fn lemma_pieces_len(s: Seq<char>)
    ensures
        pieces(s).len() >= 1,
    decreases s.len(),
{
    if s.len() > 0 {
        lemma_pieces_len(s.drop_last());
    }
}

/// Appending `t;` where `t` holds no `;` closes the open piece with `t` and
/// opens an empty one.
proof fn lemma_pieces_append_token(x: Seq<char>, t: Seq<char>)
    requires
        !t.contains(';'),
        pieces(x).last() == Seq::<char>::empty(),
    ensures
        pieces(x + t + ";"@) == pieces(x).drop_last().push(t).push(Seq::empty()),
{
    reveal_strlit(";");
    lemma_pieces_append_plain(x, t);
    lemma_pieces_len(x);
    assert(Seq::<char>::empty() + t =~= t);
    let xt = x + t;
    assert((xt + ";"@).drop_last() =~= xt);
    assert((xt + ";"@).last() == ';');
}

proof fn lemma_first_eq_plain(s: Seq<char>)
    requires
        !s.contains('='),
    ensures
        first_eq(s) == -1,
    decreases s.len(),
{
    if s.len() > 0 {
        assert(!s.drop_last().contains('=')) by {
            if s.drop_last().contains('=') {
                let k = choose|k: int| 0 <= k < s.drop_last().len() && s.drop_last()[k] == '=';
                assert(s[k] == '=');
            }
        }
        lemma_first_eq_plain(s.drop_last());
        assert(s[s.len() - 1] == s.last());
    }
}

proof fn lemma_first_eq_extend(x: Seq<char>, y: Seq<char>)
    requires
        first_eq(x) >= 0,
    ensures
        first_eq(x + y) == first_eq(x),
    decreases y.len(),
{
    if y.len() == 0 {
        assert(x + y =~= x);
    } else {
        lemma_first_eq_extend(x, y.drop_last());
        assert((x + y).drop_last() =~= x + y.drop_last());
    }
}

/// A piece `k=v` whose key holds no `=` splits into `k` and `v`.
proof fn lemma_split_piece(k: Seq<char>, v: Seq<char>)
    requires
        !k.contains('='),
    ensures
        key_of(k + "="@ + v) == k,
        value_of(k + "="@ + v) == v,
        (k + "="@ + v).len() > 0,
        first_eq(k + "="@ + v) >= 0,
{
    reveal_strlit("=");
    lemma_first_eq_plain(k);
    let ke = k + "="@;
    assert(ke.drop_last() =~= k);
    assert(ke.last() == '=');
    assert(first_eq(ke) == k.len());
    lemma_first_eq_extend(ke, v);
    assert((ke + v).take(k.len() as int) =~= k);
    assert((ke + v).skip(k.len() as int + 1) =~= v);
}

proof fn lemma_params_pieces(x: Seq<char>, ps: Seq<(Seq<char>, Seq<char>)>)
    requires
        pieces(x).last() == Seq::<char>::empty(),
        forall|i: int| 0 <= i < ps.len() ==> transmissible(#[trigger] ps[i]),
    ensures
        pieces(x + params_text(ps)) == pieces(x).drop_last() + ps.map_values(
            |p: (Seq<char>, Seq<char>)| param_piece(p),
        ).push(Seq::empty()),
    decreases ps.len(),
{
    reveal_strlit("=");
    reveal_strlit(";");
    lemma_pieces_len(x);
    if ps.len() == 0 {
        assert(x + params_text(ps) =~= x);
        assert(pieces(x).drop_last().push(Seq::empty()) =~= pieces(x));
        assert(pieces(x).drop_last() + ps.map_values(|p: (Seq<char>, Seq<char>)| param_piece(p)).push(
            Seq::empty(),
        ) =~= pieces(x));
    } else {
        let qs = ps.drop_last();
        let p = ps.last();
        assert(transmissible(ps[ps.len() - 1]));
        lemma_params_pieces(x, qs);
        let y = x + params_text(qs);
        lemma_pieces_len(y);
        assert(pieces(y).last() == Seq::<char>::empty()) by {
            assert(pieces(y) == pieces(x).drop_last() + qs.map_values(
                |p: (Seq<char>, Seq<char>)| param_piece(p),
            ).push(Seq::empty()));
        }
        let t = param_piece(p);
        assert(!t.contains(';')) by {
            if t.contains(';') {
                let k = choose|k: int| 0 <= k < t.len() && t[k] == ';';
                if k < p.0.len() {
                    assert(p.0[k] == ';');
                } else if k == p.0.len() {
                    assert(t[k] == '=');
                } else {
                    assert(p.1[k - p.0.len() - 1] == ';');
                }
            }
        }
        lemma_pieces_append_token(y, t);
        assert(x + params_text(ps) =~= y + t + ";"@);
        assert(pieces(x + params_text(ps)) =~= pieces(x).drop_last() + ps.map_values(
            |p: (Seq<char>, Seq<char>)| param_piece(p),
        ).push(Seq::empty()));
    }
}

proof fn lemma_apply_params(
    f: FrameView,
    head: Seq<Seq<char>>,
    ps: Seq<(Seq<char>, Seq<char>)>,
)
    requires
        apply_pieces(head) == Some(f),
        forall|i: int| 0 <= i < ps.len() ==> transmissible(#[trigger] ps[i]),
    ensures
        apply_pieces(head + ps.map_values(|p: (Seq<char>, Seq<char>)| param_piece(p))) == Some(
            FrameView { parameters: f.parameters + ps, ..f },
        ),
    decreases ps.len(),
{
    let all = head + ps.map_values(|p: (Seq<char>, Seq<char>)| param_piece(p));
    if ps.len() == 0 {
        assert(all =~= head);
        assert(f.parameters + ps =~= f.parameters);
    } else {
        let qs = ps.drop_last();
        let p = ps.last();
        assert(transmissible(ps[ps.len() - 1]));
        lemma_apply_params(f, head, qs);
        assert(all.drop_last() =~= head + qs.map_values(|p: (Seq<char>, Seq<char>)| param_piece(p)));
        assert(all.last() == param_piece(p));
        lemma_split_piece(p.0, p.1);
        assert(f.parameters + qs + seq![p] =~= f.parameters + ps);
        assert((f.parameters + qs).push((upper_of(p.0), upper_of(p.1))) =~= f.parameters + ps);
    }
}

/// Decoding the encoding of a frame gives back its command, its result and
/// its parameters in order, with the protocol marker as protocol.  This holds
/// for every frame with at least one parameter whose command and result hold
/// no `;` and are in upper case, and whose parameters all pass unchanged
/// through the text encoding (`transmissible`); the encoding has no escapes,
/// and decoding upper-cases what it reads.
pub proof fn law_decode_inverts_encode(f: FrameView)
    requires
        f.parameters.len() > 0,
        !f.command.contains(';'),
        !f.result.contains(';'),
        upper_case(f.command),
        upper_case(f.result),
        forall|i: int| 0 <= i < f.parameters.len() ==> transmissible(#[trigger] f.parameters[i]),
    ensures
        decode_frame(encode_frame(f)) == Some(FrameView { protocol: SDCP_PACKET_HEADER@, ..f }),
{
    reveal_strlit("Command=");
    reveal_strlit("Command");
    reveal_strlit("Result=");
    reveal_strlit("Result");
    reveal_strlit("=");
    reveal_strlit(";");
    let e: Seq<char> = Seq::empty();
    let c = "Command"@ + "="@ + f.command;
    let r = "Result"@ + "="@ + f.result;
    assert(!"Command"@.contains('=')) by {
        if "Command"@.contains('=') {
            let k = choose|k: int| 0 <= k < "Command"@.len() && "Command"@[k] == '=';
        }
    }
    assert(!"Result"@.contains('=')) by {
        if "Result"@.contains('=') {
            let k = choose|k: int| 0 <= k < "Result"@.len() && "Result"@[k] == '=';
        }
    }
    assert(!c.contains(';')) by {
        if c.contains(';') {
            let k = choose|k: int| 0 <= k < c.len() && c[k] == ';';
            if k >= 8 {
                assert(f.command[k - 8] == ';');
            }
        }
    }
    assert(!r.contains(';')) by {
        if r.contains(';') {
            let k = choose|k: int| 0 <= k < r.len() && r[k] == ';';
            if k >= 7 {
                assert(f.result[k - 7] == ';');
            }
        }
    }
    // The pieces: the command, the result, each parameter, and an empty tail.
    assert(pieces(e) == seq![e]);
    lemma_pieces_append_token(e, c);
    assert(e + c + ";"@ =~= c + ";"@);
    lemma_pieces_append_token(c + ";"@, r);
    let x = c + ";"@ + r + ";"@;
    assert(pieces(x) =~= seq![c, r, e]);
    lemma_params_pieces(x, f.parameters);
    assert(encode_frame(f) =~= x + params_text(f.parameters));
    let head = seq![c, r];
    let ps = f.parameters.map_values(|p: (Seq<char>, Seq<char>)| param_piece(p));
    assert(pieces(encode_frame(f)) =~= (head + ps).push(e));
    // Reading them.
    lemma_split_piece("Command"@, f.command);
    lemma_split_piece("Result"@, f.result);
    assert(same_ignoring_ascii_case("Command"@, "Command"@));
    assert(!same_ignoring_ascii_case("Result"@, "Command"@));
    assert(same_ignoring_ascii_case("Result"@, "Result"@));
    assert(seq![c].drop_last() =~= Seq::<Seq<char>>::empty());
    assert(head.drop_last() =~= seq![c]);
    let f1 = FrameView { command: f.command, ..initial_frame() };
    assert(apply_pieces(Seq::<Seq<char>>::empty()) == Some(initial_frame()));
    assert(key_of(c) == "Command"@ && value_of(c) == f.command);
    assert(apply_piece(initial_frame(), c) == Some(f1));
    assert(apply_pieces(seq![c]) == Some(f1));
    let f2 = FrameView { result: f.result, ..f1 };
    assert(apply_pieces(head) == Some(f2));
    lemma_apply_params(f2, head, f.parameters);
    assert(Seq::<(Seq<char>, Seq<char>)>::empty() + f.parameters =~= f.parameters);
    assert((head + ps).push(e).drop_last() =~= head + ps);
}

/// A text whose pieces are all well formed but carry no parameter is
/// rejected, even when a command is present.
pub proof fn law_no_parameters_rejected(s: Seq<char>)
    requires
        apply_pieces(pieces(s)) matches Some(f) && f.parameters.len() == 0,
    ensures
        decode_frame(s) is None,
{
}

/// A packet shorter than the marker, the four length bytes and the payload
/// length that they announce is rejected before its payload is looked at.
pub proof fn law_short_packet_rejected(p: Seq<u8>)
    requires
        p.len() < marker_bytes().len() + 4 || p.len() < marker_bytes().len() + 4 + be_value(
            p.subrange(marker_bytes().len() as int, marker_bytes().len() as int + 4),
        ),
    ensures
        !packet_valid(p),
{
}

/// A packet that does not open with the marker is rejected, whatever its
/// length prefix and payload.
pub proof fn law_foreign_marker_rejected(p: Seq<u8>)
    requires
        p.len() >= marker_bytes().len(),
        p.subrange(0, marker_bytes().len() as int) != marker_bytes(),
    ensures
        !packet_valid(p),
{
}

proof fn lemma_be_value(n: u32)
    ensures
        be_value(be_bytes(n)) == n,
{
    let a = n / 0x1000000;
    let b = (n / 0x10000) % 0x100;
    let c = (n / 0x100) % 0x100;
    let d = n % 0x100;
    assert(a < 0x100 && b < 0x100 && c < 0x100 && d < 0x100);
    assert(be_bytes(n)[0] as nat == a && be_bytes(n)[1] as nat == b);
    assert(be_bytes(n)[2] as nat == c && be_bytes(n)[3] as nat == d);
    assert(a * 0x1000000 + b * 0x10000 + c * 0x100 + d == n) by (nonlinear_arith)
        requires
            a == n / 0x1000000,
            b == (n / 0x10000) % 0x100,
            c == (n / 0x100) % 0x100,
            d == n % 0x100,
    {
    }
}

/// A packet built for a payload is accepted, and gives back that payload.
pub proof fn law_envelope_round_trip(s: Seq<char>)
    requires
        encode_utf8(s).len() <= u32::MAX,
    ensures
        packet_valid(envelope_of(s)),
        valid_utf8(payload_of(envelope_of(s))),
        decode_utf8(payload_of(envelope_of(s))) == s,
{
    let p = envelope_of(s);
    let m = marker_bytes();
    let body = encode_utf8(s);
    let n = body.len() as u32;
    assert(p.subrange(0, m.len() as int) =~= m);
    assert(p.subrange(m.len() as int, m.len() as int + 4) =~= be_bytes(n));
    lemma_be_value(n);
    assert(payload_of(p) =~= body);
    encode_utf8_valid_utf8(s);
    encode_utf8_decode_utf8(s);
}

} // verus!
