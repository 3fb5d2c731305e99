//! A simulated electric socket that serves requests of the request/response
//! protocol: `GETP` reads its attributes, `SETP` writes them, and any other
//! command is acknowledged without effect.
use vstd::prelude::*;

use crate::sdcp::results::FrameResult;
use crate::sdcp::{
    params_view, FrameView, ParamItem, SdcpFrame, SDCP_COMMANDS, SDCP_FAILED, SDCP_OK,
    SDCP_PACKET_HEADER, SDCP_PARAM_PWRCON, SDCP_PARAM_STATUS,
};
use crate::text::{
    bool_of, decimal, lower_of, parse_bool, parse_u32, text_is, to_lower, u32_of, u32_text,
};

verus! {

/// Value reported for a parameter that the socket does not have.
pub const UNKNOWN_VALUE: &'static str = "UNKNOWN";

/// The attributes of the socket.
#[derive(Clone, Copy)]
pub struct SocketDevice {
    pub power_consumption: u32,
    pub status: bool,
}

/// The value that `GETP` reports for a parameter name.
pub open spec fn getp_value(d: SocketDevice, name: Seq<char>) -> Seq<char> {
    if name == SDCP_PARAM_STATUS@ {
        if d.status {
            "true"@
        } else {
            "false"@
        }
    } else if name == SDCP_PARAM_PWRCON@ {
        decimal(d.power_consumption as nat)
    } else {
        UNKNOWN_VALUE@
    }
}

/// The parameters of a `GETP` response: each requested name with its value.
pub open spec fn getp_params(d: SocketDevice, ps: Seq<(Seq<char>, Seq<char>)>) -> Seq<
    (Seq<char>, Seq<char>),
> {
    ps.map_values(|p: (Seq<char>, Seq<char>)| (p.0, getp_value(d, p.0)))
}

/// Applies one `SETP` parameter: `STATUS` takes `true` or `false` in any case,
/// `PWRCON` takes an unsigned 32-bit number, other names change nothing.
/// `None` when the value does not parse.
pub open spec fn set_param(d: SocketDevice, p: (Seq<char>, Seq<char>)) -> Option<SocketDevice> {
    if p.0 == SDCP_PARAM_STATUS@ {
        match bool_of(lower_of(p.1)) {
            Some(b) => Some(SocketDevice { status: b, ..d }),
            None => None,
        }
    } else if p.0 == SDCP_PARAM_PWRCON@ {
        match u32_of(p.1) {
            Some(v) => Some(SocketDevice { power_consumption: v, ..d }),
            None => None,
        }
    } else {
        Some(d)
    }
}

/// Applies `SETP` parameters in order; `None` as soon as one does not parse.
pub open spec fn set_params(d: SocketDevice, ps: Seq<(Seq<char>, Seq<char>)>) -> Option<
    SocketDevice,
>
    decreases ps.len(),
{
    if ps.len() == 0 {
        Some(d)
    } else {
        match set_params(d, ps.drop_last()) {
            Some(e) => set_param(e, ps.last()),
            None => None,
        }
    }
}

/// A response frame.
pub open spec fn reply(
    command: Seq<char>,
    parameters: Seq<(Seq<char>, Seq<char>)>,
    result: Seq<char>,
) -> FrameView {
    FrameView { protocol: SDCP_PACKET_HEADER@, command, parameters, result }
}

/// The response to a request (`None` for a request that failed to decode) and
/// the socket's attributes afterwards.  A `SETP` whose values do not all parse
/// fails as a whole: the response carries `FAILED` and no parameter, and no
/// attribute changes.
pub open spec fn serve(d: SocketDevice, request: Option<FrameView>) -> (FrameView, SocketDevice) {
    match request {
        None => (reply(SDCP_COMMANDS::NONE@, Seq::empty(), SDCP_FAILED@), d),
        Some(f) => if f.command == SDCP_COMMANDS::GETP@ {
            (reply(f.command, getp_params(d, f.parameters), SDCP_OK@), d)
        } else if f.command == SDCP_COMMANDS::SETP@ {
            match set_params(d, f.parameters) {
                Some(e) => (reply(f.command, f.parameters, SDCP_OK@), e),
                None => (reply(f.command, Seq::empty(), SDCP_FAILED@), d),
            }
        } else {
            (reply(f.command, Seq::empty(), SDCP_OK@), d)
        },
    }
}

/// The request as the dispatch sees it.
pub open spec fn request_view(request: FrameResult) -> Option<FrameView> {
    match request {
        Ok(f) => Some(f@),
        Err(_) => None,
    }
}

fn response(command: String, result: &str) -> (r: SdcpFrame)
    ensures
        r@ == reply(command@, Seq::empty(), result@),
{
    let r = SdcpFrame {
        protocol: String::from_str(SDCP_PACKET_HEADER),
        command,
        parameters: Vec::new(),
        result: String::from_str(result),
    };
    assert(params_view(r.parameters@) =~= Seq::empty());
    r
}

impl SocketDevice {
    /// A socket that is off and draws no power.
    pub fn new() -> (r: Self)
        ensures
            r.power_consumption == 0,
            !r.status,
    {
        SocketDevice { power_consumption: 0, status: false }
    }

    /// The value that `GETP` reports for a parameter name.
    fn get_value(&self, name: &String) -> (r: String)
        ensures
            r@ == getp_value(*self, name@),
    {
        if text_is(name, SDCP_PARAM_STATUS) {
            if self.status {
                String::from_str("true")
            } else {
                String::from_str("false")
            }
        } else if text_is(name, SDCP_PARAM_PWRCON) {
            u32_text(self.power_consumption)
        } else {
            String::from_str(UNKNOWN_VALUE)
        }
    }

    /// Applies one `SETP` parameter; `false` when its value does not parse.
    fn set_value(&mut self, item: &ParamItem) -> (ok: bool)
        ensures
            ok == set_param(*old(self), item@) is Some,
            ok ==> *final(self) == set_param(*old(self), item@)->0,
    {
        if text_is(&item.name, SDCP_PARAM_STATUS) {
            let lowered = to_lower(item.value.as_str());
            match parse_bool(lowered.as_str()) {
                Some(b) => {
                    self.status = b;
                    true
                },
                None => false,
            }
        } else if text_is(&item.name, SDCP_PARAM_PWRCON) {
            match parse_u32(item.value.as_str()) {
                Some(v) => {
                    self.power_consumption = v;
                    true
                },
                None => false,
            }
        } else {
            true
        }
    }

    /// Serves one request and returns the response to send back.  A request
    /// that failed to decode gets `NONE` / `FAILED`.  `GETP` answers each
    /// requested name with its current value, or `UNKNOWN` for a name the
    /// socket does not have.  `SETP` echoes its parameters with `OK` once all
    /// of them are applied; if one fails to parse, nothing is applied and the
    /// response is `FAILED` with no parameter.
    pub fn handler(&mut self, request: FrameResult) -> (r: SdcpFrame)
        ensures
            (r@, *final(self)) == serve(*old(self), request_view(request)),
    {
        let frame = match request {
            Ok(frame) => frame,
            Err(_) => {
                return response(String::from_str(SDCP_COMMANDS::NONE), SDCP_FAILED);
            },
        };
        let ghost ps = params_view(frame.parameters@);
        if text_is(&frame.command, SDCP_COMMANDS::GETP) {
            let mut answer = response(frame.command.clone(), SDCP_OK);
            let mut i: usize = 0;
            assert(ps.take(0) =~= Seq::<(Seq<char>, Seq<char>)>::empty());
            assert(getp_params(*self, ps.take(0)) =~= Seq::<(Seq<char>, Seq<char>)>::empty());
            while i < frame.parameters.len()
                invariant
                    i <= frame.parameters@.len(),
                    ps == params_view(frame.parameters@),
                    answer@ == reply(frame.command@, getp_params(*self, ps.take(i as int)), SDCP_OK@),
                    *self == *old(self),
                decreases frame.parameters@.len() - i,
            {
                let name = frame.parameters[i].name.clone();
                let value = self.get_value(&name);
                answer.parameters.push(ParamItem::new(name, value));
                assert(getp_params(*self, ps.take(i + 1)) =~= getp_params(*self, ps.take(i as int)).push(
                    (ps[i as int].0, getp_value(*self, ps[i as int].0)),
                ));
                assert(params_view(answer.parameters@) =~= getp_params(*self, ps.take(i + 1)));
                i = i + 1;
            }
            assert(ps.take(i as int) =~= ps);
            answer
        } else if text_is(&frame.command, SDCP_COMMANDS::SETP) {
            let mut next = *self;
            let mut answer = response(frame.command.clone(), SDCP_OK);
            let mut i: usize = 0;
            assert(ps.take(0) =~= Seq::<(Seq<char>, Seq<char>)>::empty());
            while i < frame.parameters.len()
                invariant
                    i <= frame.parameters@.len(),
                    ps == params_view(frame.parameters@),
                    set_params(*old(self), ps.take(i as int)) == Some(next),
                    frame.command@ == SDCP_COMMANDS::SETP@,
                    frame.command@ != SDCP_COMMANDS::GETP@,
                    request_view(request) == Some(frame@),
                    answer@ == reply(frame.command@, ps.take(i as int), SDCP_OK@),
                    *self == *old(self),
                decreases frame.parameters@.len() - i,
            {
                let item = &frame.parameters[i];
                assert(ps.take(i + 1).drop_last() =~= ps.take(i as int));
                assert(item@ == ps[i as int]);
                assert(ps.take(i + 1).last() == ps[i as int]);
                if !next.set_value(item) {
                    assert(set_params(*old(self), ps) is None) by {
                        lemma_set_params_failed(*old(self), ps, i as int + 1);
                    }
                    return response(frame.command, SDCP_FAILED);
                }
                answer.parameters.push(ParamItem::new(item.name.clone(), item.value.clone()));
                assert(params_view(answer.parameters@) =~= ps.take(i + 1));
                i = i + 1;
            }
            assert(ps.take(i as int) =~= ps);
            *self = next;
            answer
        } else {
            response(frame.command, SDCP_OK)
        }
    }
}

/// Once a prefix of the parameters fails to apply, all of them do.
proof fn lemma_set_params_failed(d: SocketDevice, ps: Seq<(Seq<char>, Seq<char>)>, n: int)
    requires
        0 <= n <= ps.len(),
        set_params(d, ps.take(n)) is None,
    ensures
        set_params(d, ps) is None,
    decreases ps.len() - n,
{
    if n < ps.len() {
        assert(ps.take(n + 1).drop_last() =~= ps.take(n));
        lemma_set_params_failed(d, ps, n + 1);
    } else {
        assert(ps.take(n) =~= ps);
    }
}

/// A `GETP` request succeeds as a whole: each requested name comes back in
/// its place, and a name the socket does not have gets `UNKNOWN` without
/// affecting the others.
pub proof fn law_getp_unknown_names(d: SocketDevice, f: FrameView)
    requires
        f.command == SDCP_COMMANDS::GETP@,
    ensures
        serve(d, Some(f)).0.result == SDCP_OK@,
        serve(d, Some(f)).1 == d,
        serve(d, Some(f)).0.parameters.len() == f.parameters.len(),
        forall|i: int|
            0 <= i < f.parameters.len() ==> (#[trigger] serve(d, Some(f)).0.parameters[i]).0
                == f.parameters[i].0,
        forall|i: int|
            0 <= i < f.parameters.len() && f.parameters[i].0 != SDCP_PARAM_STATUS@
                && f.parameters[i].0 != SDCP_PARAM_PWRCON@ ==> (#[trigger] serve(
                d,
                Some(f),
            ).0.parameters[i]).1 == UNKNOWN_VALUE@,
{
}

/// A `SETP` request in which some value fails to parse against its
/// attribute gets `FAILED` with no parameter, and leaves every attribute as
/// it was, including those of the parameters before it.
pub proof fn law_setp_all_or_nothing(d: SocketDevice, f: FrameView, i: int)
    requires
        f.command == SDCP_COMMANDS::SETP@,
        0 <= i < f.parameters.len(),
        set_params(d, f.parameters.take(i)) matches Some(e) && set_param(e, f.parameters[i]) is None,
    ensures
        serve(d, Some(f)).0.result == SDCP_FAILED@,
        serve(d, Some(f)).0.parameters.len() == 0,
        serve(d, Some(f)).1 == d,
{
    lemma_setp_is_not_getp();
    assert(f.parameters.take(i + 1).drop_last() =~= f.parameters.take(i));
    lemma_set_params_failed(d, f.parameters, i + 1);
}

/// Every response to a `SETP` request is either a full success, echoing all
/// parameters after applying them all, or a failure with no parameter and no
/// change: there is no partial success.
pub proof fn law_setp_no_partial_success(d: SocketDevice, f: FrameView)
    requires
        f.command == SDCP_COMMANDS::SETP@,
    ensures
        ({
            let (r, e) = serve(d, Some(f));
            (r.result == SDCP_OK@ && r.parameters == f.parameters && set_params(d, f.parameters)
                == Some(e)) || (r.result == SDCP_FAILED@ && r.parameters.len() == 0 && e == d)
        }),
{
    lemma_setp_is_not_getp();
}

proof fn lemma_setp_is_not_getp()
    ensures
        SDCP_COMMANDS::SETP@ != SDCP_COMMANDS::GETP@,
{
    reveal_strlit("GETP");
    reveal_strlit("SETP");
    assert(SDCP_COMMANDS::SETP@[0] != SDCP_COMMANDS::GETP@[0]);
}

} // verus!
