//! Requests typed at a console: `SET <name> <value>` and `GET <name>`.
use vstd::prelude::*;

use crate::sdcp::{params_view, FrameView, ParamItem, SdcpFrame, SDCP_COMMANDS, SDCP_OK, SDCP_PACKET_HEADER};
use crate::text::{chars_of, text_is, to_upper, upper_of};

verus! {

/// The words of a line between single spaces, in order; two spaces in a row
/// leave an empty word.
pub open spec fn words(s: Seq<char>) -> Seq<Seq<char>>
    decreases s.len(),
{
    if s.len() == 0 {
        seq![Seq::empty()]
    } else {
        let p = words(s.drop_last());
        if s.last() == ' ' {
            p.push(Seq::empty())
        } else {
            p.update(p.len() - 1, p.last().push(s.last()))
        }
    }
}

/// Splits a line at each space.
pub fn split_words(line: &str) -> (r: Vec<String>)
    ensures
        r@.map_values(|w: String| w@) == words(line@),
{
    let cs = chars_of(line);
    let mut r: Vec<String> = Vec::new();
    let mut start: usize = 0;
    let mut i: usize = 0;
    assert(cs@.take(0) =~= Seq::<char>::empty());
    assert(cs@.subrange(0, 0) =~= Seq::<char>::empty());
    while i < cs.len()
        invariant
            cs@ == line@,
            start <= i <= cs@.len(),
            words(cs@.take(i as int)) == r@.map_values(|w: String| w@).push(
                cs@.subrange(start as int, i as int),
            ),
        decreases cs@.len() - i,
    {
        let ghost piece = cs@.subrange(start as int, i as int);
        let ghost done = r@.map_values(|w: String| w@);
        assert(cs@.take(i + 1).drop_last() =~= cs@.take(i as int));
        assert(cs@.take(i + 1).last() == cs@[i as int]);
        if cs[i] == ' ' {
            let word = String::from_str(line.substring_char(start, i));
            r.push(word);
            assert(r@.map_values(|w: String| w@) =~= done.push(piece));
            start = i + 1;
            assert(cs@.subrange(start as int, i + 1) =~= Seq::<char>::empty());
        } else {
            assert(cs@.subrange(start as int, i + 1) =~= piece.push(cs@[i as int]));
            assert(words(cs@.take(i + 1)) =~= done.push(cs@.subrange(start as int, i + 1)));
        }
        i = i + 1;
    }
    assert(cs@.take(i as int) =~= cs@);
    let ghost done = r@.map_values(|w: String| w@);
    let word = String::from_str(line.substring_char(start, i));
    r.push(word);
    assert(r@.map_values(|w: String| w@) =~= done.push(cs@.subrange(start as int, i as int)));
    r
}

/// The request that a console line asks for: `SET <name> <value>` sets one
/// parameter, `GET <name>` reads one; the command word may be in any case.
/// Any other line asks for nothing.
pub open spec fn console_request(line: Seq<char>) -> Option<FrameView> {
    let w = words(line);
    if upper_of(w[0]) == "SET"@ && w.len() == 3 {
        Some(
            FrameView {
                protocol: SDCP_PACKET_HEADER@,
                command: SDCP_COMMANDS::SETP@,
                parameters: seq![(w[1], w[2])],
                result: SDCP_OK@,
            },
        )
    } else if upper_of(w[0]) == "GET"@ && w.len() == 2 {
        Some(
            FrameView {
                protocol: SDCP_PACKET_HEADER@,
                command: SDCP_COMMANDS::GETP@,
                parameters: seq![(w[1], Seq::empty())],
                result: SDCP_OK@,
            },
        )
    } else {
        None
    }
}

fn request(command: &str, name: String, value: String) -> (r: SdcpFrame)
    ensures
        r@ == (FrameView {
            protocol: SDCP_PACKET_HEADER@,
            command: command@,
            parameters: seq![(name@, value@)],
            result: SDCP_OK@,
        }),
{
    let mut parameters: Vec<ParamItem> = Vec::new();
    parameters.push(ParamItem::new(name, value));
    let r = SdcpFrame {
        protocol: String::from_str(SDCP_PACKET_HEADER),
        command: String::from_str(command),
        parameters,
        result: String::from_str(SDCP_OK),
    };
    assert(params_view(r.parameters@) =~= seq![(r.parameters@[0].name@, r.parameters@[0].value@)]);
    r
}

/// Builds the request that a console line asks for, if any.
pub fn command_frame(line: &str) -> (r: Option<SdcpFrame>)
    ensures
        match console_request(line@) {
            Some(f) => r matches Some(fr) && fr@ == f,
            None => r is None,
        },
{
    let w = split_words(line);
    let ghost ws = w@.map_values(|s: String| s@);
    proof {
        lemma_words_nonempty(line@);
    }
    assert(w@.len() == ws.len());
    let first = to_upper(w[0].as_str());
    assert(first@ == upper_of(ws[0]));
    if text_is(&first, "SET") && w.len() == 3 {
        assert(ws[1] == w@[1]@ && ws[2] == w@[2]@);
        Some(request(SDCP_COMMANDS::SETP, w[1].clone(), w[2].clone()))
    } else if text_is(&first, "GET") && w.len() == 2 {
        assert(ws[1] == w@[1]@);
        Some(request(SDCP_COMMANDS::GETP, w[1].clone(), String::new()))
    } else {
        None
    }
}

proof fn lemma_words_nonempty(s: Seq<char>)
    ensures
        words(s).len() >= 1,
    decreases s.len(),
{
    if s.len() > 0 {
        lemma_words_nonempty(s.drop_last());
    }
}

} // verus!
