//! The values carried between nodes, and their mathematical views.
use vstd::prelude::*;

verus! {

/// An opaque identifier: a node id, a distance, or a call's correlation token.
#[derive(Clone, Debug, PartialEq, Eq, Hash)]
pub struct Key {
    pub bytes: Vec<u8>,
}

impl View for Key {
    type V = Seq<u8>;

    open spec fn view(&self) -> Seq<u8> {
        self.bytes@
    }
}

impl Key {
    pub fn new(bytes: Vec<u8>) -> (r: Key)
        ensures
            r@ == bytes@,
    {
        Key { bytes }
    }

    /// Byte-wise equality of two identifiers.
    pub fn same(&self, other: &Key) -> (r: bool)
        ensures
            r == (self@ == other@),
    {
        if self.bytes.len() != other.bytes.len() {
            return false;
        }
        let mut i: usize = 0;
        while i < self.bytes.len()
            invariant
                self.bytes@.len() == other.bytes@.len(),
                i <= self.bytes@.len(),
                forall|j: int| 0 <= j < i ==> self.bytes@[j] == other.bytes@[j],
            decreases self.bytes@.len() - i,
        {
            if self.bytes[i] != other.bytes[i] {
                return false;
            }
            i = i + 1;
        }
        assert(self.bytes@ =~= other.bytes@);
        true
    }

    /// A copy of the identifier.
    pub fn duplicate(&self) -> (r: Key)
        ensures
            r@ == self@,
    {
        let mut out: Vec<u8> = Vec::new();
        let mut i: usize = 0;
        while i < self.bytes.len()
            invariant
                i <= self.bytes@.len(),
                out@ =~= self.bytes@.subrange(0, i as int),
            decreases self.bytes@.len() - i,
        {
            out.push(self.bytes[i]);
            i = i + 1;
        }
        assert(out@ =~= self.bytes@);
        Key { bytes: out }
    }
}

/// A peer: the address it is reached at and its identifier.
#[derive(Clone, Debug, PartialEq, Eq)]
pub struct Node {
    pub addr: String,
    pub id: Key,
}

pub struct NodeV {
    pub addr: Seq<char>,
    pub id: Seq<u8>,
}

impl View for Node {
    type V = NodeV;

    open spec fn view(&self) -> NodeV {
        NodeV { addr: self.addr@, id: self.id@ }
    }
}

impl Node {
    pub fn new(addr: String, id: Key) -> (r: Node)
        ensures
            r@ == (NodeV { addr: addr@, id: id@ }),
    {
        Node { addr, id }
    }

    /// The address the node is reached at.
    pub fn get_addr(&self) -> (r: String)
        ensures
            r@ == self.addr@,
    {
        self.addr.clone()
    }
}

/// A node and its distance from the looked-up identifier.
#[derive(Clone, Debug, PartialEq, Eq)]
pub struct NodeAndDistance(pub Node, pub Key);

pub type NodeAndDistanceV = (NodeV, Seq<u8>);

impl View for NodeAndDistance {
    type V = NodeAndDistanceV;

    open spec fn view(&self) -> NodeAndDistanceV {
        (self.0@, self.1@)
    }
}

pub open spec fn nodes_view(v: Seq<NodeAndDistance>) -> Seq<NodeAndDistanceV> {
    v.map_values(|n: NodeAndDistance| n@)
}

/// What a `FindValue` answers: the stored value, or closer nodes.
#[derive(Clone, Debug, PartialEq, Eq)]
pub enum FindValueResult {
    Value(String),
    Nodes(Vec<NodeAndDistance>),
}

pub enum FindValueResultV {
    Value(Seq<char>),
    Nodes(Seq<NodeAndDistanceV>),
}

impl View for FindValueResult {
    type V = FindValueResultV;

    open spec fn view(&self) -> FindValueResultV {
        match self {
            FindValueResult::Value(s) => FindValueResultV::Value(s@),
            FindValueResult::Nodes(v) => FindValueResultV::Nodes(nodes_view(v@)),
        }
    }
}

#[derive(Clone, Debug, PartialEq, Eq)]
pub enum Request {
    Ping,
    Store(String, String),
    FindNode(Key),
    FindValue(String),
}

pub enum RequestV {
    Ping,
    Store(Seq<char>, Seq<char>),
    FindNode(Seq<u8>),
    FindValue(Seq<char>),
}

impl View for Request {
    type V = RequestV;

    open spec fn view(&self) -> RequestV {
        match self {
            Request::Ping => RequestV::Ping,
            Request::Store(k, v) => RequestV::Store(k@, v@),
            Request::FindNode(id) => RequestV::FindNode(id@),
            Request::FindValue(k) => RequestV::FindValue(k@),
        }
    }
}

#[derive(Clone, Debug, PartialEq, Eq)]
pub enum Response {
    Ping,
    FindNode(Vec<NodeAndDistance>),
    FindValue(FindValueResult),
}

pub enum ResponseV {
    Ping,
    FindNode(Seq<NodeAndDistanceV>),
    FindValue(FindValueResultV),
}

impl View for Response {
    type V = ResponseV;

    open spec fn view(&self) -> ResponseV {
        match self {
            Response::Ping => ResponseV::Ping,
            Response::FindNode(v) => ResponseV::FindNode(nodes_view(v@)),
            Response::FindValue(r) => ResponseV::FindValue(r@),
        }
    }
}

/// The body of an envelope: stop the dispatcher, a request, or a reply.
#[derive(Clone, Debug, PartialEq, Eq)]
pub enum Message {
    Abort,
    Request(Request),
    Response(Response),
}

pub enum MessageV {
    Abort,
    Request(RequestV),
    Response(ResponseV),
}

impl View for Message {
    type V = MessageV;

    open spec fn view(&self) -> MessageV {
        match self {
            Message::Abort => MessageV::Abort,
            Message::Request(r) => MessageV::Request(r@),
            Message::Response(r) => MessageV::Response(r@),
        }
    }
}

/// The envelope: correlation token, source and destination addresses, body.
#[derive(Clone, Debug, PartialEq, Eq)]
pub struct RpcMessage {
    pub token: Key,
    pub src: String,
    pub dst: String,
    pub msg: Message,
}

pub struct RpcMessageV {
    pub token: Seq<u8>,
    pub src: Seq<char>,
    pub dst: Seq<char>,
    pub msg: MessageV,
}

impl View for RpcMessage {
    type V = RpcMessageV;

    open spec fn view(&self) -> RpcMessageV {
        RpcMessageV { token: self.token@, src: self.src@, dst: self.dst@, msg: self.msg@ }
    }
}

/// An inbound request as handed to the node's request handler.
#[derive(Debug)]
pub struct ReqWrapper {
    pub token: Key,
    pub src: String,
    pub payload: Request,
}

} // verus!
