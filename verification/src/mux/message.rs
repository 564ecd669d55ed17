//! The frames that the multiplexer reads and writes.

use vstd::prelude::*;

verus! {

/// The kind of a reliable frame.
#[derive(Clone, Copy, Debug, PartialEq, Eq, Structural)]
pub enum RelKind {
    Syn,
    SynAck,
    Data,
    DataAck,
    Fin,
    FinAck,
    Rst,
}

/// A frame on the wire.
#[derive(Clone, Debug, PartialEq, Eq)]
pub enum Message {
    /// An unreliable datagram.
    Urel(Vec<u8>),
    /// A frame of the reliable stream `stream_id`.
    Rel { kind: RelKind, stream_id: u16, seqno: u64, payload: Vec<u8> },
}

/// A frame as a mathematical value.
#[verifier::ext_equal]
pub enum Frame {
    Urel(Seq<u8>),
    Rel { kind: RelKind, stream_id: u16, seqno: u64, payload: Seq<u8> },
}

impl View for Message {
    type V = Frame;

    open spec fn view(&self) -> Frame {
        match *self {
            Message::Urel(bytes) => Frame::Urel(bytes@),
            Message::Rel { kind, stream_id, seqno, payload } => Frame::Rel {
                kind,
                stream_id,
                seqno,
                payload: payload@,
            },
        }
    }
}

/// The frame of `kind` for `stream_id` that carries nothing.
pub open spec fn bare(kind: RelKind, stream_id: u16) -> Frame {
    Frame::Rel { kind, stream_id, seqno: 0, payload: Seq::empty() }
}

impl Message {
    /// The frame of `kind` for `stream_id` with sequence number 0 and an
    /// empty payload.
    pub fn bare(kind: RelKind, stream_id: u16) -> (frame: Message)
        ensures
            frame@ == bare(kind, stream_id),
    {
        Message::Rel { kind, stream_id, seqno: 0, payload: Vec::new() }
    }
}

} // verus!
