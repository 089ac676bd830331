//! Wire codec: one envelope per datagram, in a self-describing binary form.
//!
//! Every variable-length field is a big-endian 64-bit length followed by its
//! bytes (text as UTF-8); every variant is a one-byte tag; a list is its
//! 64-bit count followed by its items.
use crate::message::{nodes_view, Key, FindValueResult, Message, NodeAndDistance, Node, Request, Response, RpcMessage, FindValueResultV, MessageV, NodeAndDistanceV, NodeV, RequestV, ResponseV, RpcMessageV};
use crate::BUF_SIZE;
use vstd::prelude::*;
use vstd::utf8::*;
use vstd::string::*;

verus! {

broadcast use {encode_utf8_valid_utf8, encode_utf8_decode_utf8};

pub open spec fn be64(n: u64) -> Seq<u8> {
    seq![
        (n >> 56u64) as u8,
        (n >> 48u64) as u8,
        (n >> 40u64) as u8,
        (n >> 32u64) as u8,
        (n >> 24u64) as u8,
        (n >> 16u64) as u8,
        (n >> 8u64) as u8,
        n as u8,
    ]
}

pub open spec fn read64(b: Seq<u8>) -> u64 {
    ((b[0] as u64) << 56u64) | ((b[1] as u64) << 48u64) | ((b[2] as u64) << 40u64) | ((
    b[3] as u64) << 32u64) | ((b[4] as u64) << 24u64) | ((b[5] as u64) << 16u64) | ((
    b[6] as u64) << 8u64) | (b[7] as u64)
}

/// The bytes after position `p`.
pub open spec fn tail(b: Seq<u8>, p: int) -> Seq<u8> {
    b.subrange(p, b.len() as int)
}

pub open spec fn blob_bytes(x: Seq<u8>) -> Seq<u8> {
    be64(x.len() as u64) + x
}

pub open spec fn parse_blob(b: Seq<u8>) -> Option<(Seq<u8>, Seq<u8>)> {
    if b.len() < 8 {
        None
    } else {
        let n = read64(b) as int;
        if n > b.len() - 8 {
            None
        } else {
            Some((b.subrange(8, 8 + n), tail(b, 8 + n)))
        }
    }
}

pub open spec fn text_bytes(s: Seq<char>) -> Seq<u8> {
    blob_bytes(encode_utf8(s))
}

pub open spec fn parse_text(b: Seq<u8>) -> Option<(Seq<char>, Seq<u8>)> {
    match parse_blob(b) {
        Some((x, r)) => if valid_utf8(x) {
            Some((decode_utf8(x), r))
        } else {
            None
        },
        None => None,
    }
}

pub open spec fn node_bytes(n: NodeV) -> Seq<u8> {
    text_bytes(n.addr) + blob_bytes(n.id)
}

pub open spec fn parse_node(b: Seq<u8>) -> Option<(NodeV, Seq<u8>)> {
    match parse_text(b) {
        Some((a, r)) => match parse_blob(r) {
            Some((id, r2)) => Some((NodeV { addr: a, id }, r2)),
            None => None,
        },
        None => None,
    }
}

pub open spec fn entry_bytes(e: NodeAndDistanceV) -> Seq<u8> {
    node_bytes(e.0) + blob_bytes(e.1)
}

pub open spec fn parse_entry(b: Seq<u8>) -> Option<(NodeAndDistanceV, Seq<u8>)> {
    match parse_node(b) {
        Some((n, r)) => match parse_blob(r) {
            Some((d, r2)) => Some(((n, d), r2)),
            None => None,
        },
        None => None,
    }
}

pub open spec fn entries_bytes(s: Seq<NodeAndDistanceV>) -> Seq<u8>
    decreases s.len(),
{
    if s.len() == 0 {
        Seq::empty()
    } else {
        entries_bytes(s.drop_last()) + entry_bytes(s.last())
    }
}

/// Parses `n` entries in a row.
pub open spec fn parse_entries(b: Seq<u8>, n: nat) -> Option<(Seq<NodeAndDistanceV>, Seq<u8>)>
    decreases n,
{
    if n == 0 {
        Some((Seq::empty(), b))
    } else {
        match parse_entries(b, (n - 1) as nat) {
            Some((xs, r)) => match parse_entry(r) {
                Some((x, r2)) => Some((xs.push(x), r2)),
                None => None,
            },
            None => None,
        }
    }
}

pub open spec fn list_bytes(s: Seq<NodeAndDistanceV>) -> Seq<u8> {
    be64(s.len() as u64) + entries_bytes(s)
}

pub open spec fn parse_list(b: Seq<u8>) -> Option<(Seq<NodeAndDistanceV>, Seq<u8>)> {
    if b.len() < 8 {
        None
    } else {
        parse_entries(tail(b, 8), read64(b) as nat)
    }
}

pub open spec fn find_value_bytes(v: FindValueResultV) -> Seq<u8> {
    match v {
        FindValueResultV::Value(s) => seq![0u8] + text_bytes(s),
        FindValueResultV::Nodes(l) => seq![1u8] + list_bytes(l),
    }
}

pub open spec fn parse_find_value(b: Seq<u8>) -> Option<(FindValueResultV, Seq<u8>)> {
    if b.len() == 0 {
        None
    } else if b[0] == 0 {
        match parse_text(tail(b, 1)) {
            Some((s, r)) => Some((FindValueResultV::Value(s), r)),
            None => None,
        }
    } else if b[0] == 1 {
        match parse_list(tail(b, 1)) {
            Some((l, r)) => Some((FindValueResultV::Nodes(l), r)),
            None => None,
        }
    } else {
        None
    }
}

pub open spec fn request_bytes(v: RequestV) -> Seq<u8> {
    match v {
        RequestV::Ping => seq![0u8],
        RequestV::Store(k, x) => seq![1u8] + (text_bytes(k) + text_bytes(x)),
        RequestV::FindNode(id) => seq![2u8] + blob_bytes(id),
        RequestV::FindValue(k) => seq![3u8] + text_bytes(k),
    }
}

pub open spec fn parse_request(b: Seq<u8>) -> Option<(RequestV, Seq<u8>)> {
    if b.len() == 0 {
        None
    } else if b[0] == 0 {
        Some((RequestV::Ping, tail(b, 1)))
    } else if b[0] == 1 {
        match parse_text(tail(b, 1)) {
            Some((k, r)) => match parse_text(r) {
                Some((x, r2)) => Some((RequestV::Store(k, x), r2)),
                None => None,
            },
            None => None,
        }
    } else if b[0] == 2 {
        match parse_blob(tail(b, 1)) {
            Some((id, r)) => Some((RequestV::FindNode(id), r)),
            None => None,
        }
    } else if b[0] == 3 {
        match parse_text(tail(b, 1)) {
            Some((k, r)) => Some((RequestV::FindValue(k), r)),
            None => None,
        }
    } else {
        None
    }
}

pub open spec fn response_bytes(v: ResponseV) -> Seq<u8> {
    match v {
        ResponseV::Ping => seq![0u8],
        ResponseV::FindNode(l) => seq![1u8] + list_bytes(l),
        ResponseV::FindValue(f) => seq![2u8] + find_value_bytes(f),
    }
}

pub open spec fn parse_response(b: Seq<u8>) -> Option<(ResponseV, Seq<u8>)> {
    if b.len() == 0 {
        None
    } else if b[0] == 0 {
        Some((ResponseV::Ping, tail(b, 1)))
    } else if b[0] == 1 {
        match parse_list(tail(b, 1)) {
            Some((l, r)) => Some((ResponseV::FindNode(l), r)),
            None => None,
        }
    } else if b[0] == 2 {
        match parse_find_value(tail(b, 1)) {
            Some((f, r)) => Some((ResponseV::FindValue(f), r)),
            None => None,
        }
    } else {
        None
    }
}

pub open spec fn message_bytes(v: MessageV) -> Seq<u8> {
    match v {
        MessageV::Abort => seq![0u8],
        MessageV::Request(r) => seq![1u8] + request_bytes(r),
        MessageV::Response(r) => seq![2u8] + response_bytes(r),
    }
}

pub open spec fn parse_message(b: Seq<u8>) -> Option<(MessageV, Seq<u8>)> {
    if b.len() == 0 {
        None
    } else if b[0] == 0 {
        Some((MessageV::Abort, tail(b, 1)))
    } else if b[0] == 1 {
        match parse_request(tail(b, 1)) {
            Some((r, rest)) => Some((MessageV::Request(r), rest)),
            None => None,
        }
    } else if b[0] == 2 {
        match parse_response(tail(b, 1)) {
            Some((r, rest)) => Some((MessageV::Response(r), rest)),
            None => None,
        }
    } else {
        None
    }
}

/// The encoding of an envelope.
pub open spec fn envelope_bytes(v: RpcMessageV) -> Seq<u8> {
    blob_bytes(v.token) + (text_bytes(v.src) + (text_bytes(v.dst) + message_bytes(v.msg)))
}

/// The envelope that a datagram holds, if it holds exactly one.
pub open spec fn parse_envelope(b: Seq<u8>) -> Option<RpcMessageV> {
    match parse_blob(b) {
        Some((token, r1)) => match parse_text(r1) {
            Some((src, r2)) => match parse_text(r2) {
                Some((dst, r3)) => match parse_message(r3) {
                    Some((msg, r4)) => if r4.len() == 0 {
                        Some(RpcMessageV { token, src, dst, msg })
                    } else {
                        None
                    },
                    None => None,
                },
                None => None,
            },
            None => None,
        },
        None => None,
    }
}

// ---- round trip ----

pub proof fn lemma_read64_be64(n: u64, rest: Seq<u8>)
    ensures
        read64(be64(n) + rest) == n,
        (be64(n) + rest).len() == 8 + rest.len(),
        tail(be64(n) + rest, 8) == rest,
{
    let b = be64(n) + rest;
    assert(tail(b, 8) =~= rest);
    assert(((((n >> 56u64) as u8) as u64) << 56u64) | ((((n >> 48u64) as u8) as u64) << 48u64)
        | ((((n >> 40u64) as u8) as u64) << 40u64) | ((((n >> 32u64) as u8) as u64) << 32u64) | ((
    ((n >> 24u64) as u8) as u64) << 24u64) | ((((n >> 16u64) as u8) as u64) << 16u64) | ((((n
        >> 8u64) as u8) as u64) << 8u64) | ((n as u8) as u64) == n) by (bit_vector);
}

pub proof fn lemma_blob(x: Seq<u8>, rest: Seq<u8>)
    requires
        x.len() <= u64::MAX,
    ensures
        parse_blob(blob_bytes(x) + rest) == Some((x, rest)),
        blob_bytes(x).len() == 8 + x.len(),
{
    let b = blob_bytes(x) + rest;
    lemma_read64_be64(x.len() as u64, x + rest);
    assert(b =~= be64(x.len() as u64) + (x + rest));
    assert(b.subrange(8, 8 + x.len() as int) =~= x);
    assert(tail(b, 8 + x.len() as int) =~= rest);
}

pub proof fn lemma_text(s: Seq<char>, rest: Seq<u8>)
    requires
        text_bytes(s).len() <= u64::MAX,
    ensures
        parse_text(text_bytes(s) + rest) == Some((s, rest)),
        text_bytes(s).len() >= 8,
{
    lemma_blob(encode_utf8(s), rest);
}

pub proof fn lemma_node(n: NodeV, rest: Seq<u8>)
    requires
        node_bytes(n).len() <= u64::MAX,
    ensures
        parse_node(node_bytes(n) + rest) == Some((n, rest)),
        node_bytes(n).len() >= 16,
{
    lemma_text(n.addr, blob_bytes(n.id) + rest);
    lemma_blob(n.id, rest);
    assert(node_bytes(n) + rest =~= text_bytes(n.addr) + (blob_bytes(n.id) + rest));
}

pub proof fn lemma_entry(e: NodeAndDistanceV, rest: Seq<u8>)
    requires
        entry_bytes(e).len() <= u64::MAX,
    ensures
        parse_entry(entry_bytes(e) + rest) == Some((e, rest)),
        entry_bytes(e).len() >= 16,
{
    lemma_node(e.0, blob_bytes(e.1) + rest);
    lemma_blob(e.1, rest);
    assert(entry_bytes(e) + rest =~= node_bytes(e.0) + (blob_bytes(e.1) + rest));
}

pub proof fn lemma_entries(s: Seq<NodeAndDistanceV>, rest: Seq<u8>)
    requires
        entries_bytes(s).len() <= u64::MAX,
    ensures
        parse_entries(entries_bytes(s) + rest, s.len()) == Some((s, rest)),
        entries_bytes(s).len() >= s.len(),
    decreases s.len(),
{
    if s.len() == 0 {
        assert(entries_bytes(s) + rest =~= rest);
        assert(s =~= Seq::<NodeAndDistanceV>::empty());
    } else {
        let init = s.drop_last();
        let last = s.last();
        let r = entry_bytes(last) + rest;
        lemma_entries(init, r);
        lemma_entry(last, rest);
        assert(entries_bytes(s) + rest =~= entries_bytes(init) + r);
        assert(init.push(last) =~= s);
    }
}

pub proof fn lemma_list(s: Seq<NodeAndDistanceV>, rest: Seq<u8>)
    requires
        list_bytes(s).len() <= u64::MAX,
    ensures
        parse_list(list_bytes(s) + rest) == Some((s, rest)),
{
    lemma_entries(s, rest);
    lemma_read64_be64(s.len() as u64, entries_bytes(s) + rest);
    assert(list_bytes(s) + rest =~= be64(s.len() as u64) + (entries_bytes(s) + rest));
}

pub proof fn lemma_tagged(t: u8, x: Seq<u8>, rest: Seq<u8>)
    ensures
        (seq![t] + x + rest).len() > 0,
        (seq![t] + x + rest)[0] == t,
        tail(seq![t] + x + rest, 1) == x + rest,
{
    assert(tail(seq![t] + x + rest, 1) =~= x + rest);
}

pub proof fn lemma_find_value(v: FindValueResultV, rest: Seq<u8>)
    requires
        find_value_bytes(v).len() <= u64::MAX,
    ensures
        parse_find_value(find_value_bytes(v) + rest) == Some((v, rest)),
{
    match v {
        FindValueResultV::Value(s) => {
            lemma_tagged(0, text_bytes(s), rest);
            lemma_text(s, rest);
        },
        FindValueResultV::Nodes(l) => {
            lemma_tagged(1, list_bytes(l), rest);
            lemma_list(l, rest);
        },
    }
}

pub proof fn lemma_request(v: RequestV, rest: Seq<u8>)
    requires
        request_bytes(v).len() <= u64::MAX,
    ensures
        parse_request(request_bytes(v) + rest) == Some((v, rest)),
{
    match v {
        RequestV::Ping => {
            lemma_tagged(0, Seq::empty(), rest);
            assert(seq![0u8] + Seq::<u8>::empty() =~= seq![0u8]);
        },
        RequestV::Store(k, x) => {
            lemma_tagged(1, text_bytes(k) + text_bytes(x), rest);
            assert(text_bytes(k) + text_bytes(x) + rest =~= text_bytes(k) + (text_bytes(x)
                + rest));
            lemma_text(k, text_bytes(x) + rest);
            lemma_text(x, rest);
        },
        RequestV::FindNode(id) => {
            lemma_tagged(2, blob_bytes(id), rest);
            lemma_blob(id, rest);
        },
        RequestV::FindValue(k) => {
            lemma_tagged(3, text_bytes(k), rest);
            lemma_text(k, rest);
        },
    }
}

pub proof fn lemma_response(v: ResponseV, rest: Seq<u8>)
    requires
        response_bytes(v).len() <= u64::MAX,
    ensures
        parse_response(response_bytes(v) + rest) == Some((v, rest)),
{
    match v {
        ResponseV::Ping => {
            lemma_tagged(0, Seq::empty(), rest);
            assert(seq![0u8] + Seq::<u8>::empty() =~= seq![0u8]);
        },
        ResponseV::FindNode(l) => {
            lemma_tagged(1, list_bytes(l), rest);
            lemma_list(l, rest);
        },
        ResponseV::FindValue(f) => {
            lemma_tagged(2, find_value_bytes(f), rest);
            lemma_find_value(f, rest);
        },
    }
}

pub proof fn lemma_message(v: MessageV, rest: Seq<u8>)
    requires
        message_bytes(v).len() <= u64::MAX,
    ensures
        parse_message(message_bytes(v) + rest) == Some((v, rest)),
{
    match v {
        MessageV::Abort => {
            lemma_tagged(0, Seq::empty(), rest);
            assert(seq![0u8] + Seq::<u8>::empty() =~= seq![0u8]);
        },
        MessageV::Request(r) => {
            lemma_tagged(1, request_bytes(r), rest);
            lemma_request(r, rest);
        },
        MessageV::Response(r) => {
            lemma_tagged(2, response_bytes(r), rest);
            lemma_response(r, rest);
        },
    }
}

/// Decoding an encoded envelope gives back that envelope: whatever `encode`
/// accepts (its encoding fits in one datagram), `decode` restores exactly.
pub proof fn lemma_round_trip(v: RpcMessageV)
    requires
        envelope_bytes(v).len() <= BUF_SIZE,
    ensures
        parse_envelope(envelope_bytes(v)) == Some(v),
{
    let e: Seq<u8> = Seq::empty();
    let m = message_bytes(v.msg);
    let d = text_bytes(v.dst) + m;
    let s = text_bytes(v.src) + d;
    assert(envelope_bytes(v) =~= blob_bytes(v.token) + s);
    assert(m + e =~= m);
    lemma_blob(v.token, s);
    lemma_text(v.src, d);
    lemma_text(v.dst, m);
    lemma_message(v.msg, e);
}

// ---- encoding ----

/// Why an envelope could not be encoded.
#[derive(Clone, Copy, Debug, PartialEq, Eq)]
pub enum EncodeError {
    /// The encoding would take `size` bytes, more than one datagram holds.
    TooLarge { size: usize },
}

pub(crate) fn push_be64(out: &mut Vec<u8>, n: u64)
    ensures
        final(out)@ == old(out)@ + be64(n),
{
    out.push((n >> 56u64) as u8);
    out.push((n >> 48u64) as u8);
    out.push((n >> 40u64) as u8);
    out.push((n >> 32u64) as u8);
    out.push((n >> 24u64) as u8);
    out.push((n >> 16u64) as u8);
    out.push((n >> 8u64) as u8);
    out.push(n as u8);
    assert(final(out)@ =~= old(out)@ + be64(n));
}

fn push_blob(out: &mut Vec<u8>, x: &[u8])
    ensures
        final(out)@ == old(out)@ + blob_bytes(x@),
{
    push_be64(out, x.len() as u64);
    let ghost mid = out@;
    let mut i: usize = 0;
    while i < x.len()
        invariant
            i <= x@.len(),
            out@ == mid + x@.subrange(0, i as int),
        decreases x@.len() - i,
    {
        out.push(x[i]);
        i = i + 1;
        assert(out@ =~= mid + x@.subrange(0, i as int));
    }
    assert(x@.subrange(0, x@.len() as int) =~= x@);
    assert(out@ =~= old(out)@ + blob_bytes(x@));
}

fn push_text(out: &mut Vec<u8>, s: &String)
    ensures
        final(out)@ == old(out)@ + text_bytes(s@),
{
    let b = s.as_str().as_bytes();
    push_blob(out, b);
}

pub(crate) fn push_node(out: &mut Vec<u8>, n: &Node)
    ensures
        final(out)@ == old(out)@ + node_bytes(n@),
{
    push_text(out, &n.addr);
    push_blob(out, n.id.bytes.as_slice());
    assert(out@ =~= old(out)@ + node_bytes(n@));
}

fn push_entry(out: &mut Vec<u8>, e: &NodeAndDistance)
    ensures
        final(out)@ == old(out)@ + entry_bytes(e@),
{
    push_node(out, &e.0);
    push_blob(out, e.1.bytes.as_slice());
    assert(out@ =~= old(out)@ + entry_bytes(e@));
}

fn push_list(out: &mut Vec<u8>, v: &Vec<NodeAndDistance>)
    ensures
        final(out)@ == old(out)@ + list_bytes(nodes_view(v@)),
{
    push_be64(out, v.len() as u64);
    let ghost mid = out@;
    let ghost all = nodes_view(v@);
    let mut i: usize = 0;
    assert(all.subrange(0, 0) =~= Seq::<NodeAndDistanceV>::empty());
    assert(out@ =~= mid + entries_bytes(all.subrange(0, 0)));
    while i < v.len()
        invariant
            i <= v@.len(),
            all == nodes_view(v@),
            out@ == mid + entries_bytes(all.subrange(0, i as int)),
        decreases v@.len() - i,
    {
        push_entry(out, &v[i]);
        i = i + 1;
        assert(all.subrange(0, i as int).drop_last() =~= all.subrange(0, i - 1));
        assert(out@ =~= mid + entries_bytes(all.subrange(0, i as int)));
    }
    assert(all.subrange(0, v@.len() as int) =~= all);
    assert(out@ =~= old(out)@ + list_bytes(nodes_view(v@)));
}

fn push_find_value(out: &mut Vec<u8>, f: &FindValueResult)
    ensures
        final(out)@ == old(out)@ + find_value_bytes(f@),
{
    match f {
        FindValueResult::Value(s) => {
            out.push(0u8);
            push_text(out, s);
        },
        FindValueResult::Nodes(l) => {
            out.push(1u8);
            push_list(out, l);
        },
    }
    assert(out@ =~= old(out)@ + find_value_bytes(f@));
}

fn push_request(out: &mut Vec<u8>, r: &Request)
    ensures
        final(out)@ == old(out)@ + request_bytes(r@),
{
    match r {
        Request::Ping => {
            out.push(0u8);
        },
        Request::Store(k, x) => {
            out.push(1u8);
            push_text(out, k);
            push_text(out, x);
        },
        Request::FindNode(id) => {
            out.push(2u8);
            push_blob(out, id.bytes.as_slice());
        },
        Request::FindValue(k) => {
            out.push(3u8);
            push_text(out, k);
        },
    }
    assert(out@ =~= old(out)@ + request_bytes(r@));
}

fn push_response(out: &mut Vec<u8>, r: &Response)
    ensures
        final(out)@ == old(out)@ + response_bytes(r@),
{
    match r {
        Response::Ping => {
            out.push(0u8);
        },
        Response::FindNode(l) => {
            out.push(1u8);
            push_list(out, l);
        },
        Response::FindValue(f) => {
            out.push(2u8);
            push_find_value(out, f);
        },
    }
    assert(out@ =~= old(out)@ + response_bytes(r@));
}

fn push_message(out: &mut Vec<u8>, m: &Message)
    ensures
        final(out)@ == old(out)@ + message_bytes(m@),
{
    match m {
        Message::Abort => {
            out.push(0u8);
        },
        Message::Request(r) => {
            out.push(1u8);
            push_request(out, r);
        },
        Message::Response(r) => {
            out.push(2u8);
            push_response(out, r);
        },
    }
    assert(out@ =~= old(out)@ + message_bytes(m@));
}

/// Encodes an envelope into one datagram's payload; fails when the encoding
/// would not fit in `BUF_SIZE` bytes.
pub fn encode(msg: &RpcMessage) -> (r: Result<Vec<u8>, EncodeError>)
    ensures
        r is Ok <==> envelope_bytes(msg@).len() <= BUF_SIZE,
        r matches Ok(b) ==> b@ == envelope_bytes(msg@),
        r matches Err(EncodeError::TooLarge { size }) ==> size == envelope_bytes(msg@).len(),
{
    let mut out: Vec<u8> = Vec::new();
    push_blob(&mut out, msg.token.bytes.as_slice());
    push_text(&mut out, &msg.src);
    push_text(&mut out, &msg.dst);
    push_message(&mut out, &msg.msg);
    assert(out@ =~= envelope_bytes(msg@));
    if out.len() > BUF_SIZE {
        Err(EncodeError::TooLarge { size: out.len() })
    } else {
        Ok(out)
    }
}

// ---- decoding ----

/// Why a datagram could not be decoded: truncated, an unknown variant tag,
/// text that is not UTF-8, or bytes left over after the envelope.
#[derive(Clone, Copy, Debug, PartialEq, Eq)]
pub enum DecodeError {
    Malformed,
}

/// `r` is what a reader starting at `pos` returns where the specification
/// parser gives `expect` on the bytes from `pos` on.
pub open spec fn read_matches<T: View>(
    b: Seq<u8>,
    r: Option<(T, usize)>,
    expect: Option<(T::V, Seq<u8>)>,
) -> bool {
    match expect {
        None => r is None,
        Some((v, rest)) => match r {
            Some((x, p)) => x@ == v && p <= b.len() && tail(b, p as int) == rest,
            None => false,
        },
    }
}

/// Relies on `String::from_utf8`: it accepts exactly the well-formed UTF-8
/// byte strings and keeps the characters they encode.
#[verifier::external_body]
fn text_from_utf8(b: Vec<u8>) -> (r: Option<String>)
    ensures
        r is Some <==> valid_utf8(b@),
        r matches Some(s) ==> s@ == decode_utf8(b@),
{
    String::from_utf8(b).ok()
}

fn read_be64(b: &[u8], pos: usize) -> (r: u64)
    requires
        pos + 8 <= b@.len(),
    ensures
        r == read64(tail(b@, pos as int)),
{
    let ghost t = tail(b@, pos as int);
    assert(t[0] == b@[pos as int] && t[1] == b@[pos + 1] && t[2] == b@[pos + 2] && t[3]
        == b@[pos + 3] && t[4] == b@[pos + 4] && t[5] == b@[pos + 5] && t[6] == b@[pos + 6]
        && t[7] == b@[pos + 7]);
    ((b[pos] as u64) << 56u64) | ((b[pos + 1] as u64) << 48u64) | ((b[pos + 2] as u64)
        << 40u64) | ((b[pos + 3] as u64) << 32u64) | ((b[pos + 4] as u64) << 24u64) | ((b[pos
        + 5] as u64) << 16u64) | ((b[pos + 6] as u64) << 8u64) | (b[pos + 7] as u64)
}

fn read_blob(b: &[u8], pos: usize) -> (r: Option<(Vec<u8>, usize)>)
    requires
        pos <= b@.len(),
    ensures
        read_matches(b@, r, parse_blob(tail(b@, pos as int))),
{
    let ghost t = tail(b@, pos as int);
    if b.len() - pos < 8 {
        return None;
    }
    let n = read_be64(b, pos);
    if n > (b.len() - pos - 8) as u64 {
        return None;
    }
    let start = pos + 8;
    let end = start + n as usize;
    let mut out: Vec<u8> = Vec::new();
    let mut i = start;
    while i < end
        invariant
            start <= i <= end <= b@.len(),
            out@ == b@.subrange(start as int, i as int),
        decreases end - i,
    {
        out.push(b[i]);
        i = i + 1;
        assert(out@ =~= b@.subrange(start as int, i as int));
    }
    assert(out@ =~= t.subrange(8, 8 + n as int));
    assert(tail(b@, end as int) =~= tail(t, 8 + n as int));
    Some((out, end))
}

fn read_text(b: &[u8], pos: usize) -> (r: Option<(String, usize)>)
    requires
        pos <= b@.len(),
    ensures
        read_matches(b@, r, parse_text(tail(b@, pos as int))),
{
    match read_blob(b, pos) {
        None => None,
        Some((x, p)) => match text_from_utf8(x) {
            Some(s) => Some((s, p)),
            None => None,
        },
    }
}

fn read_key(b: &[u8], pos: usize) -> (r: Option<(Key, usize)>)
    requires
        pos <= b@.len(),
    ensures
        read_matches(b@, r, parse_blob(tail(b@, pos as int))),
{
    match read_blob(b, pos) {
        None => None,
        Some((x, p)) => Some((Key { bytes: x }, p)),
    }
}

fn read_node(b: &[u8], pos: usize) -> (r: Option<(Node, usize)>)
    requires
        pos <= b@.len(),
    ensures
        read_matches(b@, r, parse_node(tail(b@, pos as int))),
{
    let (addr, p) = match read_text(b, pos) {
        None => return None,
        Some(x) => x,
    };
    let (id, next2) = match read_key(b, p) {
        None => return None,
        Some(x) => x,
    };
    Some((Node { addr, id }, next2))
}

fn read_entry(b: &[u8], pos: usize) -> (r: Option<(NodeAndDistance, usize)>)
    requires
        pos <= b@.len(),
    ensures
        read_matches(b@, r, parse_entry(tail(b@, pos as int))),
{
    let (node, p) = match read_node(b, pos) {
        None => return None,
        Some(x) => x,
    };
    let (dist, next2) = match read_key(b, p) {
        None => return None,
        Some(x) => x,
    };
    Some((NodeAndDistance(node, dist), next2))
}

fn read_list(b: &[u8], pos: usize) -> (r: Option<(Vec<NodeAndDistance>, usize)>)
    requires
        pos <= b@.len(),
    ensures
        match parse_list(tail(b@, pos as int)) {
            None => r is None,
            Some((v, rest)) => match r {
                Some((x, p)) => nodes_view(x@) == v && p <= b@.len() && tail(b@, p as int)
                    == rest,
                None => false,
            },
        },
{
    if b.len() - pos < 8 {
        return None;
    }
    let n = read_be64(b, pos);
    let mut out: Vec<NodeAndDistance> = Vec::new();
    let mut p = pos + 8;
    let mut i: u64 = 0;
    assert(tail(tail(b@, pos as int), 8) =~= tail(b@, p as int));
    assert(nodes_view(out@) =~= Seq::<NodeAndDistanceV>::empty());
    while i < n
        invariant
            p <= b@.len(),
            i <= n,
            n == read64(tail(b@, pos as int)),
            parse_entries(tail(tail(b@, pos as int), 8), i as nat) == Some(
                (nodes_view(out@), tail(b@, p as int)),
            ),
        decreases n - i,
    {
        match read_entry(b, p) {
            None => {
                assert(parse_entries(tail(tail(b@, pos as int), 8), n as nat) is None) by {
                    lemma_entries_fail(tail(tail(b@, pos as int), 8), (i + 1) as nat, n as nat);
                }
                return None;
            },
            Some((e, next2)) => {
                out.push(e);
                p = next2;
                i = i + 1;
                assert(nodes_view(out@) =~= nodes_view(out@).drop_last().push(e@));
                assert(nodes_view(out@).drop_last() =~= nodes_view(out@.drop_last()));
            },
        }
    }
    Some((out, p))
}

/// Once parsing `i` entries fails, parsing more fails too.
proof fn lemma_entries_fail(b: Seq<u8>, i: nat, n: nat)
    requires
        i <= n,
        parse_entries(b, i) is None,
    ensures
        parse_entries(b, n) is None,
    decreases n - i,
{
    if i < n {
        lemma_entries_fail(b, i + 1, n);
    }
}

proof fn lemma_tail_tail(b: Seq<u8>, p: int)
    requires
        0 <= p < b.len(),
    ensures
        tail(tail(b, p), 1) == tail(b, p + 1),
        tail(b, p)[0] == b[p],
        tail(b, p).len() > 0,
{
    assert(tail(tail(b, p), 1) =~= tail(b, p + 1));
}

fn read_find_value(b: &[u8], pos: usize) -> (r: Option<(FindValueResult, usize)>)
    requires
        pos <= b@.len(),
    ensures
        read_matches(b@, r, parse_find_value(tail(b@, pos as int))),
{
    if pos >= b.len() {
        return None;
    }
    proof {
        lemma_tail_tail(b@, pos as int);
    }
    let tag = b[pos];
    if tag == 0 {
        match read_text(b, pos + 1) {
            Some((s, p)) => Some((FindValueResult::Value(s), p)),
            None => None,
        }
    } else if tag == 1 {
        match read_list(b, pos + 1) {
            Some((l, p)) => Some((FindValueResult::Nodes(l), p)),
            None => None,
        }
    } else {
        None
    }
}

fn read_request(b: &[u8], pos: usize) -> (r: Option<(Request, usize)>)
    requires
        pos <= b@.len(),
    ensures
        read_matches(b@, r, parse_request(tail(b@, pos as int))),
{
    if pos >= b.len() {
        return None;
    }
    proof {
        lemma_tail_tail(b@, pos as int);
    }
    let tag = b[pos];
    if tag == 0 {
        Some((Request::Ping, pos + 1))
    } else if tag == 1 {
        let (k, p) = match read_text(b, pos + 1) {
            None => return None,
            Some(x) => x,
        };
        match read_text(b, p) {
            Some((v, next2)) => Some((Request::Store(k, v), next2)),
            None => None,
        }
    } else if tag == 2 {
        match read_key(b, pos + 1) {
            Some((id, p)) => Some((Request::FindNode(id), p)),
            None => None,
        }
    } else if tag == 3 {
        match read_text(b, pos + 1) {
            Some((k, p)) => Some((Request::FindValue(k), p)),
            None => None,
        }
    } else {
        None
    }
}

fn read_response(b: &[u8], pos: usize) -> (r: Option<(Response, usize)>)
    requires
        pos <= b@.len(),
    ensures
        read_matches(b@, r, parse_response(tail(b@, pos as int))),
{
    if pos >= b.len() {
        return None;
    }
    proof {
        lemma_tail_tail(b@, pos as int);
    }
    let tag = b[pos];
    if tag == 0 {
        Some((Response::Ping, pos + 1))
    } else if tag == 1 {
        match read_list(b, pos + 1) {
            Some((l, p)) => Some((Response::FindNode(l), p)),
            None => None,
        }
    } else if tag == 2 {
        match read_find_value(b, pos + 1) {
            Some((f, p)) => Some((Response::FindValue(f), p)),
            None => None,
        }
    } else {
        None
    }
}

fn read_message(b: &[u8], pos: usize) -> (r: Option<(Message, usize)>)
    requires
        pos <= b@.len(),
    ensures
        read_matches(b@, r, parse_message(tail(b@, pos as int))),
{
    if pos >= b.len() {
        return None;
    }
    proof {
        lemma_tail_tail(b@, pos as int);
    }
    let tag = b[pos];
    if tag == 0 {
        Some((Message::Abort, pos + 1))
    } else if tag == 1 {
        match read_request(b, pos + 1) {
            Some((r, p)) => Some((Message::Request(r), p)),
            None => None,
        }
    } else if tag == 2 {
        match read_response(b, pos + 1) {
            Some((r, p)) => Some((Message::Response(r), p)),
            None => None,
        }
    } else {
        None
    }
}

/// Decodes one datagram's payload into an envelope; fails on truncated input,
/// an unknown variant, text that is not UTF-8, or trailing bytes.
pub fn decode(b: &[u8]) -> (r: Result<RpcMessage, DecodeError>)
    ensures
        r is Ok <==> parse_envelope(b@) is Some,
        r matches Ok(m) ==> parse_envelope(b@) == Some(m@),
{
    assert(tail(b@, 0) =~= b@);
    let (token, next1) = match read_key(b, 0) {
        None => return Err(DecodeError::Malformed),
        Some(x) => x,
    };
    let (src, next2) = match read_text(b, next1) {
        None => return Err(DecodeError::Malformed),
        Some(x) => x,
    };
    let (dst, next3) = match read_text(b, next2) {
        None => return Err(DecodeError::Malformed),
        Some(x) => x,
    };
    let (msg, next4) = match read_message(b, next3) {
        None => return Err(DecodeError::Malformed),
        Some(x) => x,
    };
    if next4 != b.len() {
        return Err(DecodeError::Malformed);
    }
    Ok(RpcMessage { token, src, dst, msg })
}

} // verus!
