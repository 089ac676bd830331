//! The decisions of the call initiator and of the inbound dispatcher. The
//! socket, the threads and the channels that carry these decisions out live
//! outside the verified library; here each step is a function of plain values.
use crate::codec::{
    be64, encode, envelope_bytes, lemma_read64_be64, lemma_round_trip, node_bytes, parse_envelope, push_be64, push_node, EncodeError,
};
use crate::message::{
    Key, Message, MessageV, Node, NodeV, ReqWrapper, Request, RequestV, Response, ResponseV,
    RpcMessage, RpcMessageV,
};
use crate::pending::PendingCalls;
use crate::BUF_SIZE;
use vstd::prelude::*;

verus! {

/// The correlation token of a call from `own` to `dst` made at time `stamp`.
pub open spec fn token_bytes(own: NodeV, dst: NodeV, stamp: u64) -> Seq<u8> {
    node_bytes(own) + node_bytes(dst) + be64(stamp)
}

/// Builds the correlation token of a call from the caller, the callee and a
/// timestamp.
pub fn make_token(own: &Node, dst: &Node, stamp: u64) -> (r: Key)
    ensures
        r@ == token_bytes(own@, dst@, stamp),
{
    let mut out: Vec<u8> = Vec::new();
    push_node(&mut out, own);
    push_node(&mut out, dst);
    push_be64(&mut out, stamp);
    assert(out@ =~= token_bytes(own@, dst@, stamp));
    Key { bytes: out }
}

/// Two calls between the same nodes made at different times get different
/// tokens.
pub proof fn lemma_tokens_differ_by_stamp(own: NodeV, dst: NodeV, s1: u64, s2: u64)
    requires
        s1 != s2,
    ensures
        token_bytes(own, dst, s1) != token_bytes(own, dst, s2),
{
    let prefix = node_bytes(own) + node_bytes(dst);
    let t1 = token_bytes(own, dst, s1);
    let t2 = token_bytes(own, dst, s2);
    lemma_read64_be64(s1, Seq::empty());
    lemma_read64_be64(s2, Seq::empty());
    assert(be64(s1) + Seq::<u8>::empty() =~= be64(s1));
    assert(be64(s2) + Seq::<u8>::empty() =~= be64(s2));
    if t1 == t2 {
        assert(t1.subrange(prefix.len() as int, t1.len() as int) =~= be64(s1));
        assert(t2.subrange(prefix.len() as int, t2.len() as int) =~= be64(s2));
    }
}

/// The envelope that carries a request from `own` to `dst`.
pub open spec fn request_envelope(own: NodeV, dst: NodeV, stamp: u64, req: RequestV) -> RpcMessageV {
    RpcMessageV {
        token: token_bytes(own, dst, stamp),
        src: own.addr,
        dst: dst.addr,
        msg: MessageV::Request(req),
    }
}

/// Why a call could not be started.
#[derive(Clone, Copy, Debug, PartialEq, Eq)]
pub enum CallError {
    /// The request does not fit in one datagram.
    Encode(EncodeError),
    /// A call with the same token is still waiting; retry with a later stamp.
    TokenInUse,
}

/// Starts a call: builds its token and envelope, encodes it, and registers
/// `slot` as the place its outcome goes. Returns the token and the datagram
/// to send; on failure the table is left as it was.
pub fn begin_call<S>(
    table: &mut PendingCalls<S>,
    own: &Node,
    dst: &Node,
    stamp: u64,
    req: Request,
    slot: S,
) -> (r: Result<(Key, Vec<u8>), CallError>)
    requires
        old(table).wf(),
    ensures
        final(table).wf(),
        r is Ok <==> envelope_bytes(request_envelope(own@, dst@, stamp, req@)).len() <= BUF_SIZE
            && !old(table)@.contains_key(token_bytes(own@, dst@, stamp)),
        r matches Ok((k, b)) ==> k@ == token_bytes(own@, dst@, stamp) && b@ == envelope_bytes(
            request_envelope(own@, dst@, stamp, req@),
        ) && final(table)@ == old(table)@.insert(k@, slot),
        r is Err ==> final(table)@ == old(table)@,
        r matches Err(CallError::Encode(EncodeError::TooLarge { size })) ==> size
            == envelope_bytes(request_envelope(own@, dst@, stamp, req@)).len() && size > BUF_SIZE,
        r matches Err(CallError::TokenInUse) ==> old(table)@.contains_key(
            token_bytes(own@, dst@, stamp),
        ),
{
    let token = make_token(own, dst, stamp);
    let msg = RpcMessage {
        token: token.duplicate(),
        src: own.get_addr(),
        dst: dst.get_addr(),
        msg: Message::Request(req),
    };
    let bytes = match encode(&msg) {
        Ok(b) => b,
        Err(e) => return Err(CallError::Encode(e)),
    };
    let key = token.duplicate();
    match table.register(token, slot) {
        Ok(()) => Ok((key, bytes)),
        Err(_) => Err(CallError::TokenInUse),
    }
}

/// Why the dispatcher dropped a datagram.
#[derive(Clone, Copy, Debug, PartialEq, Eq)]
pub enum Dropped {
    /// It does not decode to an envelope.
    Malformed,
    /// It is addressed to another node.
    Misrouted,
}

/// What the dispatcher does with one datagram.
#[derive(Debug)]
pub enum Route {
    /// Log and go on with the next datagram.
    Drop(Dropped),
    /// Leave the receive loop.
    Stop,
    /// Hand the request to the node's request handler.
    Serve(ReqWrapper),
    /// Complete the call waiting under the token with the response.
    Complete(Key, Response),
}

pub enum RouteV {
    Drop(Dropped),
    Stop,
    Serve(Seq<u8>, Seq<char>, RequestV),
    Complete(Seq<u8>, ResponseV),
}

impl View for Route {
    type V = RouteV;

    open spec fn view(&self) -> RouteV {
        match self {
            Route::Drop(d) => RouteV::Drop(*d),
            Route::Stop => RouteV::Stop,
            Route::Serve(w) => RouteV::Serve(w.token@, w.src@, w.payload@),
            Route::Complete(k, res) => RouteV::Complete(k@, res@),
        }
    }
}

/// Where a datagram received from `origin` goes at the node bound to `own`.
/// The transport's origin replaces the source written in the envelope.
pub open spec fn route_of(own: Seq<char>, b: Seq<u8>, origin: Seq<char>) -> RouteV {
    match parse_envelope(b) {
        None => RouteV::Drop(Dropped::Malformed),
        Some(v) => if v.dst != own {
            RouteV::Drop(Dropped::Misrouted)
        } else {
            match v.msg {
                MessageV::Abort => RouteV::Stop,
                MessageV::Request(q) => RouteV::Serve(v.token, origin, q),
                MessageV::Response(p) => RouteV::Complete(v.token, p),
            }
        },
    }
}

/// Decides what the dispatcher of the node bound to `own` does with a
/// datagram that the transport received from `origin`.
pub fn route(own: &String, datagram: &[u8], origin: String) -> (r: Route)
    ensures
        r@ == route_of(own@, datagram@, origin@),
{
    let m = match crate::codec::decode(datagram) {
        Ok(m) => m,
        Err(_) => return Route::Drop(Dropped::Malformed),
    };
    if m.dst != *own {
        return Route::Drop(Dropped::Misrouted);
    }
    match m.msg {
        Message::Abort => Route::Stop,
        Message::Request(req) => Route::Serve(ReqWrapper { token: m.token, src: origin, payload: req }),
        Message::Response(res) => Route::Complete(m.token, res),
    }
}

/// The datagram that `begin_call` produces, received by the callee from any
/// origin, goes to the callee's request handler with the call's token; a reply
/// envelope that carries that token back to the caller completes the call.
pub proof fn lemma_call_reaches_callee(
    own: NodeV,
    dst: NodeV,
    stamp: u64,
    req: RequestV,
    origin: Seq<char>,
    res: ResponseV,
)
    requires
        envelope_bytes(request_envelope(own, dst, stamp, req)).len() <= BUF_SIZE,
    ensures
        route_of(dst.addr, envelope_bytes(request_envelope(own, dst, stamp, req)), origin)
            == RouteV::Serve(token_bytes(own, dst, stamp), origin, req),
        ({
            let answer = RpcMessageV {
                token: token_bytes(own, dst, stamp),
                src: dst.addr,
                dst: own.addr,
                msg: MessageV::Response(res),
            };
            envelope_bytes(answer).len() <= BUF_SIZE ==> route_of(
                own.addr,
                envelope_bytes(answer),
                origin,
            ) == RouteV::Complete(token_bytes(own, dst, stamp), res)
        }),
{
    lemma_round_trip(request_envelope(own, dst, stamp, req));
    let answer = RpcMessageV {
        token: token_bytes(own, dst, stamp),
        src: dst.addr,
        dst: own.addr,
        msg: MessageV::Response(res),
    };
    if envelope_bytes(answer).len() <= BUF_SIZE {
        lemma_round_trip(answer);
    }
}

} // verus!
