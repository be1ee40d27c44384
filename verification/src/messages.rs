//! The closed vocabulary of wire messages and the frames that sit in a
//! connection's outbound queue.

use vstd::prelude::*;

verus! {

/// One decoded control message of the wire vocabulary.
///
/// `Location` carries its two coordinates as the raw bit patterns of the wire
/// numbers: the relay never interprets a coordinate, it only passes it
/// through, and the bit pattern preserves the number exactly.
pub enum Message {
    GenerateStream,
    StreamLink { url: String, session_id: String },
    Video(Vec<u8>),
    Chat(String),
    Location { latitude_bits: u64, longitude_bits: u64 },
}

/// The mathematical value of a `Message`.
#[verifier::ext_equal]
pub enum MsgView {
    GenerateStream,
    StreamLink { url: Seq<char>, session_id: Seq<char> },
    Video(Seq<u8>),
    Chat(Seq<char>),
    Location { latitude_bits: u64, longitude_bits: u64 },
}

impl View for Message {
    type V = MsgView;

    open spec fn view(&self) -> MsgView {
        match self {
            Message::GenerateStream => MsgView::GenerateStream,
            Message::StreamLink { url, session_id } => MsgView::StreamLink {
                url: url@,
                session_id: session_id@,
            },
            Message::Video(bytes) => MsgView::Video(bytes@),
            Message::Chat(text) => MsgView::Chat(text@),
            Message::Location { latitude_bits, longitude_bits } => MsgView::Location {
                latitude_bits: *latitude_bits,
                longitude_bits: *longitude_bits,
            },
        }
    }
}

/// One outbound wire frame: a control message still to be encoded as a text
/// frame, or an opaque binary payload forwarded verbatim.
pub enum Frame {
    Msg(Message),
    Binary(Vec<u8>),
}

/// The mathematical value of a `Frame`.
#[verifier::ext_equal]
pub enum FrameView {
    Msg(MsgView),
    Binary(Seq<u8>),
}

impl View for Frame {
    type V = FrameView;

    open spec fn view(&self) -> FrameView {
        match self {
            Frame::Msg(m) => FrameView::Msg(m@),
            Frame::Binary(bytes) => FrameView::Binary(bytes@),
        }
    }
}

fn clone_bytes(v: &Vec<u8>) -> (r: Vec<u8>)
    ensures
        r@ == v@,
{
    let r = v.clone();
    proof {
        assert forall|i: int| 0 <= i < v@.len() implies r@[i] == v@[i] by {
            assert(cloned::<u8>(v[i], r[i]));
        }
        assert(r@ =~= v@);
    }
    r
}

impl Clone for Message {
    fn clone(&self) -> (r: Self)
        ensures
            r@ == self@,
    {
        match self {
            Message::GenerateStream => Message::GenerateStream,
            Message::StreamLink { url, session_id } => Message::StreamLink {
                url: url.clone(),
                session_id: session_id.clone(),
            },
            Message::Video(bytes) => Message::Video(clone_bytes(bytes)),
            Message::Chat(text) => Message::Chat(text.clone()),
            Message::Location { latitude_bits, longitude_bits } => Message::Location {
                latitude_bits: *latitude_bits,
                longitude_bits: *longitude_bits,
            },
        }
    }
}

impl Clone for Frame {
    fn clone(&self) -> (r: Self)
        ensures
            r@ == self@,
    {
        match self {
            Frame::Msg(m) => Frame::Msg(m.clone()),
            Frame::Binary(bytes) => Frame::Binary(clone_bytes(bytes)),
        }
    }
}

} // verus!
