//! The protocol dispatcher: routes each decoded request to the token or
//! room-log operation it names, and encodes the response record. Every
//! error is turned into an error response on the same connection; no
//! request can bring the process down.

use vstd::prelude::*;
use crate::decode::{
    decode_unit, decode_unit_spec, feed_pending, feed_units, render_pair, render_pairs,
    render_record, DecodeError, Decoder, Request, RequestView,
};
use crate::registry::{reg_has, reg_idx, reg_log, reg_wf, Registry};
use crate::room::{entries_view, render_from};
use crate::text::{dec_digits, push_char, usize_to_dec};
use crate::token::{claims_of, issue, token_of, verify, AuthError};
use vstd::string::StringExecFns;

verus! {

/// Builds one record from its fields, exactly as `render_record` writes
/// it.
pub fn build_record(pairs: &Vec<(String, String)>) -> (r: String)
    ensures
        r@ == render_record(entries_view(pairs@)),
{
    let ghost ev = entries_view(pairs@);
    let mut out = String::new();
    push_char(&mut out, '{');
    let n = pairs.len();
    let mut i: usize = 0;
    proof {
        assert(out@ =~= seq!['{'] + render_pairs(ev.take(0)));
    }
    while i < n
        invariant
            n == pairs@.len(),
            ev == entries_view(pairs@),
            i <= n,
            out@ == seq!['{'] + render_pairs(ev.take(i as int)),
        decreases n - i,
    {
        if i > 0 {
            push_char(&mut out, ',');
        }
        push_char(&mut out, '"');
        out.append(pairs[i].0.as_str());
        push_char(&mut out, '"');
        push_char(&mut out, ':');
        push_char(&mut out, '"');
        out.append(pairs[i].1.as_str());
        push_char(&mut out, '"');
        proof {
            let t2 = ev.take(i + 1);
            assert(t2.last() == ev[i as int]);
            assert(ev[i as int] == (pairs@[i as int].0@, pairs@[i as int].1@));
            if i == 0 {
                assert(t2.len() == 1);
                assert(render_pairs(t2) == render_pair(t2[0]));
                assert(out@ =~= seq!['{'] + render_pairs(t2));
            } else {
                assert(t2.drop_last() =~= ev.take(i as int));
                assert(render_pairs(t2) == render_pairs(ev.take(i as int)) + seq![',']
                    + render_pair(ev[i as int]));
                assert(out@ =~= seq!['{'] + render_pairs(t2));
            }
        }
        i = i + 1;
    }
    push_char(&mut out, '}');
    proof {
        assert(ev.take(n as int) =~= ev);
        assert(out@ =~= render_record(ev));
    }
    out
}

/// The success response to `/auth`: the issued token.
pub open spec fn auth_ok_response(name: Seq<char>, room_id: Seq<char>) -> Seq<char> {
    render_record(seq![("jwt"@, token_of(name, room_id))])
}

/// An error response record carrying the error kind.
pub open spec fn error_response(kind: Seq<char>) -> Seq<char> {
    render_record(seq![("err"@, kind)])
}

/// The `/receive` response when no entry is at or past the cursor.
pub open spec fn empty_response() -> Seq<char> {
    error_response("empty"@)
}

/// The `/receive` response carrying new entries and the new cursor.
pub open spec fn recv_response(text: Seq<char>, n: nat) -> Seq<char> {
    "{\"message\":\""@ + text + "\", \"last_msg_i\":\""@ + dec_digits(n) + "\"}"@
}

/// The error kind a failed token verification reports.
pub open spec fn auth_error_kind(e: AuthError) -> Seq<char> {
    match e {
        AuthError::Malformed => "malformed_token"@,
        AuthError::InvalidSignature => "invalid_signature"@,
    }
}

/// The error kind a failed decode reports.
pub open spec fn decode_error_kind(e: DecodeError) -> Seq<char> {
    match e {
        DecodeError::Malformed => "malformed_request"@,
        DecodeError::UnknownPath => "unknown_path"@,
    }
}

fn error_response_exec(kind: &str) -> (r: String)
    ensures
        r@ == error_response(kind@),
{
    let mut v: Vec<(String, String)> = Vec::new();
    v.push((String::from_str("err"), kind.to_owned()));
    proof {
        assert(entries_view(v@) =~= seq![("err"@, kind@)]);
    }
    build_record(&v)
}

fn auth_error_response(e: AuthError) -> (r: String)
    ensures
        r@ == error_response(auth_error_kind(e)),
{
    match e {
        AuthError::Malformed => error_response_exec("malformed_token"),
        AuthError::InvalidSignature => error_response_exec("invalid_signature"),
    }
}

fn decode_error_response(e: DecodeError) -> (r: String)
    ensures
        r@ == error_response(decode_error_kind(e)),
{
    match e {
        DecodeError::Malformed => error_response_exec("malformed_request"),
        DecodeError::UnknownPath => error_response_exec("unknown_path"),
    }
}

/// The view of an optional response.
pub open spec fn opt_view(r: Option<String>) -> Option<Seq<char>> {
    match r {
        Some(s) => Some(s@),
        None => None,
    }
}

/// What one request does to the registry, and the response it earns.
/// `/auth` checks the room and issues a token; `/send` verifies the
/// token and appends to the token's room; `/receive` verifies the token
/// and reads the token's room from the cursor. Only a verified `/send`
/// into a provisioned room changes any state, and it changes only that
/// room's log. A successful `/send` earns no response.
pub open spec fn dispatch_spec(
    rv: Seq<(Seq<char>, Seq<(Seq<char>, Seq<char>)>)>,
    req: RequestView,
) -> (Seq<(Seq<char>, Seq<(Seq<char>, Seq<char>)>)>, Option<Seq<char>>) {
    match req {
        RequestView::Auth { name, room_id } => {
            if reg_has(rv, room_id) {
                (rv, Some(auth_ok_response(name, room_id)))
            } else {
                (rv, Some(error_response("room_not_found"@)))
            }
        },
        RequestView::Send { jwt, message } => match claims_of(jwt) {
            Ok(p) => {
                if reg_has(rv, p.1) {
                    (
                        rv.update(reg_idx(rv, p.1), (p.1, reg_log(rv, p.1).push((p.0, message)))),
                        None,
                    )
                } else {
                    (rv, Some(error_response("room_not_found"@)))
                }
            },
            Err(e) => (rv, Some(error_response(auth_error_kind(e)))),
        },
        RequestView::Receive { jwt, last_msg_i } => match claims_of(jwt) {
            Ok(p) => {
                if reg_has(rv, p.1) {
                    if last_msg_i < reg_log(rv, p.1).len() {
                        (
                            rv,
                            Some(
                                recv_response(
                                    render_from(reg_log(rv, p.1), last_msg_i as int),
                                    reg_log(rv, p.1).len(),
                                ),
                            ),
                        )
                    } else {
                        (rv, Some(empty_response()))
                    }
                } else {
                    (rv, Some(error_response("room_not_found"@)))
                }
            },
            Err(e) => (rv, Some(error_response(auth_error_kind(e)))),
        },
    }
}

/// Routes one decoded request: exactly the step `dispatch_spec` takes.
pub fn dispatch(reg: &mut Registry, req: Request) -> (r: Option<String>)
    requires
        old(reg).wf(),
    ensures
        final(reg).wf(),
        final(reg)@ == dispatch_spec(old(reg)@, req@).0,
        opt_view(r) == dispatch_spec(old(reg)@, req@).1,
{
    match req {
        Request::Auth { name, room_id } => {
            if reg.has_room(room_id.as_str()) {
                let token = issue(name.as_str(), room_id.as_str());
                let mut v: Vec<(String, String)> = Vec::new();
                v.push((String::from_str("jwt"), token));
                proof {
                    assert(entries_view(v@) =~= seq![("jwt"@, token_of(name@, room_id@))]);
                }
                Some(build_record(&v))
            } else {
                Some(error_response_exec("room_not_found"))
            }
        },
        Request::Send { jwt, message } => {
            match verify(jwt.as_str()) {
                Ok((name, room_id)) => {
                    match reg.append_to(room_id.as_str(), name, message) {
                        Ok(_) => None,
                        Err(_) => Some(error_response_exec("room_not_found")),
                    }
                },
                Err(e) => Some(auth_error_response(e)),
            }
        },
        Request::Receive { jwt, last_msg_i } => {
            match verify(jwt.as_str()) {
                Ok((_name, room_id)) => {
                    match reg.catch_up(room_id.as_str(), last_msg_i) {
                        Ok((text, len)) => {
                            if last_msg_i < len {
                                let mut out = String::from_str("{\"message\":\"");
                                out.append(text.as_str());
                                out.append("\", \"last_msg_i\":\"");
                                let num = usize_to_dec(len);
                                out.append(num.as_str());
                                out.append("\"}");
                                Some(out)
                            } else {
                                Some(error_response_exec("empty"))
                            }
                        },
                        Err(_) => Some(error_response_exec("room_not_found")),
                    }
                },
                Err(e) => Some(auth_error_response(e)),
            }
        },
    }
}

/// Room isolation: no request that acts on one room ever changes the log
/// of another. For `/send` under a token bound to a different room, and
/// for every other operation, a room's log after the dispatch step is
/// what it was before.
pub proof fn lemma_room_isolation(
    rv: Seq<(Seq<char>, Seq<(Seq<char>, Seq<char>)>)>,
    req: RequestView,
    other: Seq<char>,
)
    requires
        reg_wf(rv),
        reg_has(rv, other),
        req matches RequestView::Send { jwt, message } ==> (claims_of(jwt) matches Ok(p) ==> p.1
            != other),
    ensures
        reg_has(dispatch_spec(rv, req).0, other),
        reg_log(dispatch_spec(rv, req).0, other) == reg_log(rv, other),
{
    match req {
        RequestView::Send { jwt, message } => {
            match claims_of(jwt) {
                Ok(p) => {
                    if reg_has(rv, p.1) {
                        let rv2 = dispatch_spec(rv, req).0;
                        let i = reg_idx(rv, p.1);
                        crate::registry::lemma_reg_idx(rv, i);
                        let j = reg_idx(rv, other);
                        crate::registry::lemma_reg_idx(rv, j);
                        assert(j != i);
                        assert(rv2[j] == rv[j]);
                        assert(rv2[j].0 == other);
                        assert(reg_has(rv2, other));
                        assert(forall|a: int, b: int|
                            0 <= a < b < rv2.len() ==> rv2[a].0 == rv[a].0 && rv2[b].0
                                == rv[b].0);
                        crate::registry::lemma_reg_idx(rv2, j);
                    }
                },
                Err(_) => {},
            }
        },
        _ => {},
    }
}

/// What a run of units does: each unit handled in order against the
/// state the previous ones left, its response (if any) appended.
pub open spec fn handle_unit_spec(
    rv: Seq<(Seq<char>, Seq<(Seq<char>, Seq<char>)>)>,
    unit: Seq<char>,
) -> (Seq<(Seq<char>, Seq<(Seq<char>, Seq<char>)>)>, Option<Seq<char>>) {
    match decode_unit_spec(unit) {
        Err(e) => (rv, Some(error_response(decode_error_kind(e)))),
        Ok(req) => dispatch_spec(rv, req),
    }
}

/// Decodes and dispatches one unit; a decode error earns its error
/// response instead of closing anything.
pub fn handle_unit(reg: &mut Registry, unit: &str) -> (r: Option<String>)
    requires
        old(reg).wf(),
    ensures
        final(reg).wf(),
        final(reg)@ == handle_unit_spec(old(reg)@, unit@).0,
        opt_view(r) == handle_unit_spec(old(reg)@, unit@).1,
{
    match decode_unit(unit) {
        Ok(req) => dispatch(reg, req),
        Err(e) => Some(decode_error_response(e)),
    }
}

/// The registry and responses after handling a run of units in order.
pub open spec fn run_units(
    rv: Seq<(Seq<char>, Seq<(Seq<char>, Seq<char>)>)>,
    units: Seq<Seq<char>>,
) -> (Seq<(Seq<char>, Seq<(Seq<char>, Seq<char>)>)>, Seq<Seq<char>>)
    decreases units.len(),
{
    if units.len() == 0 {
        (rv, Seq::empty())
    } else {
        let prev = run_units(rv, units.drop_last());
        let step = handle_unit_spec(prev.0, units.last());
        match step.1 {
            Some(resp) => (step.0, prev.1.push(resp)),
            None => (step.0, prev.1),
        }
    }
}

/// One client connection: its stream decoder. It reads, decodes and
/// dispatches until the peer closes; a malformed request earns an error
/// response and the connection stays open.
pub struct Connection {
    dec: Decoder,
}

impl View for Connection {
    type V = Seq<char>;

    closed spec fn view(&self) -> Seq<char> {
        self.dec@
    }
}

impl Connection {
    /// The buffered remainder holds no delimiter.
    pub closed spec fn wf(&self) -> bool {
        self.dec.wf()
    }

    /// A fresh connection with nothing buffered.
    pub fn new() -> (r: Connection)
        ensures
            r.wf(),
            r@ == Seq::<char>::empty(),
    {
        Connection { dec: Decoder::new() }
    }

    /// Handles one read's worth of characters: every unit the chunk
    /// completes is decoded and dispatched in arrival order, and the
    /// responses come back in that order. Requests split across reads
    /// are finished by later chunks; errors never close the connection.
    pub fn on_chunk(&mut self, reg: &mut Registry, chunk: &str) -> (r: Vec<String>)
        requires
            old(self).wf(),
            old(reg).wf(),
        ensures
            final(self).wf(),
            final(reg).wf(),
            final(self)@ == feed_pending(old(self)@ + chunk@),
            final(reg)@ == run_units(old(reg)@, feed_units(old(self)@ + chunk@)).0,
            r.deep_view() == run_units(old(reg)@, feed_units(old(self)@ + chunk@)).1,
    {
        let units = self.dec.feed(chunk);
        let ghost us = units.deep_view();
        let ghost rv0 = reg@;
        let n = units.len();
        let mut out: Vec<String> = Vec::new();
        let mut i: usize = 0;
        proof {
            assert(us.take(0) =~= Seq::<Seq<char>>::empty());
            assert(out.deep_view() =~= run_units(rv0, us.take(0)).1);
        }
        while i < n
            invariant
                n == units@.len(),
                us == units.deep_view(),
                i <= n,
                reg.wf(),
                reg@ == run_units(rv0, us.take(i as int)).0,
                out.deep_view() == run_units(rv0, us.take(i as int)).1,
            decreases n - i,
        {
            proof {
                assert(us.take(i + 1).drop_last() =~= us.take(i as int));
                assert(us.take(i + 1).last() == us[i as int]);
                assert(us[i as int] == units@[i as int]@);
            }
            let resp = handle_unit(reg, units[i].as_str());
            let ghost preout = out.deep_view();
            match resp {
                Some(s) => {
                    let ghost sv = s@;
                    out.push(s);
                    proof {
                        assert(out.deep_view() =~= preout.push(sv));
                    }
                },
                None => {},
            }
            i = i + 1;
        }
        proof {
            assert(us.take(n as int) =~= us);
        }
        out
    }
}

} // verus!
