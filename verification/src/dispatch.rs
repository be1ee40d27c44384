//! The routing decision applied to each inbound frame, and the lifecycle
//! step that ends a connection: the per-connection loop around a network
//! stream feeds every inbound happening through `step`.

use vstd::prelude::*;
use vstd::string::StringExecFns;
use crate::messages::{Frame, FrameView, Message, MsgView};
use crate::registry::{fan_out_model, send_to_model, Registry};

verus! {

/// The link handed back for a stream request: a fixed application-relative
/// prefix with the session token appended.
pub open spec fn link_of(session_id: Seq<char>) -> Seq<char> {
    "/sender?session="@ + session_id
}

/// The reply to a stream request carrying the token `session_id`.
pub open spec fn stream_reply(session_id: Seq<char>) -> MsgView {
    MsgView::StreamLink { url: link_of(session_id), session_id }
}

/// Relies on `uuid::Uuid::new_v4` and its `Display` form: a freshly drawn
/// random version-4 UUID written as 36 hyphenated lowercase hex characters.
/// The draw is random, so no more than the length is stated.
#[verifier::external_body]
fn fresh_session_id() -> (r: String)
    ensures
        r@.len() == 36,
{
    uuid::Uuid::new_v4().to_string()
}

fn stream_link_url(session_id: &str) -> (r: String)
    ensures
        r@ == link_of(session_id@),
{
    let mut url = String::from_str("/sender?session=");
    url.append(session_id);
    url
}

/// Routes one decoded text message from `sender`, with `session_id` the
/// token to hand out if the message asks for a stream link.
///
/// A stream request is answered to the requester alone, never broadcast; a
/// stream link from a client is ignored entirely; video, chat and location
/// messages fan out unchanged to every other registered connection.
pub fn handle_message(reg: &mut Registry, sender: u64, msg: Message, session_id: String)
    requires
        old(reg).wf(),
    ensures
        final(reg).wf(),
        (match msg@ {
            MsgView::GenerateStream => final(reg)@ == send_to_model(
                old(reg)@,
                sender,
                FrameView::Msg(stream_reply(session_id@)),
            ),
            MsgView::StreamLink { .. } => final(reg)@ == old(reg)@,
            _ => final(reg)@ == fan_out_model(old(reg)@, sender, FrameView::Msg(msg@)),
        }),
{
    match msg {
        Message::GenerateStream => {
            let url = stream_link_url(session_id.as_str());
            let reply = Message::StreamLink { url, session_id };
            reg.send_to(sender, Frame::Msg(reply));
        },
        Message::StreamLink { .. } => {},
        Message::Video(payload) => {
            reg.fan_out(sender, Frame::Msg(Message::Video(payload)));
        },
        Message::Chat(text) => {
            reg.fan_out(sender, Frame::Msg(Message::Chat(text)));
        },
        Message::Location { latitude_bits, longitude_bits } => {
            reg.fan_out(sender, Frame::Msg(Message::Location { latitude_bits, longitude_bits }));
        },
    }
}

/// What an inbound text frame leaves behind: nothing for a frame whose
/// decode failed or for a client-sent stream link; a reply to the requester
/// alone, carrying some fresh token, for a stream request; a fan-out to
/// everyone else for the rest.
pub open spec fn text_outcome(
    pre: Map<u64, Seq<FrameView>>,
    post: Map<u64, Seq<FrameView>>,
    sender: u64,
    decoded: Option<MsgView>,
) -> bool {
    match decoded {
        None => post == pre,
        Some(m) => match m {
            MsgView::GenerateStream => exists|sid: Seq<char>|
                sid.len() == 36 && post == send_to_model(
                    pre,
                    sender,
                    FrameView::Msg(stream_reply(sid)),
                ),
            MsgView::StreamLink { .. } => post == pre,
            _ => post == fan_out_model(pre, sender, FrameView::Msg(m)),
        },
    }
}

/// The view of an inbound text frame once the edge has tried to decode it:
/// `None` where the bytes were not a well-formed message.
pub open spec fn decoded_view(decoded: Option<Message>) -> Option<MsgView> {
    match decoded {
        Option::None => None,
        Option::Some(m) => Some(m@),
    }
}

/// Routes one inbound text frame, already decoded at the edge.  A frame
/// whose decode failed (`None`) is dropped silently: nothing is forwarded
/// and the connection stays open.
pub fn dispatch_text(reg: &mut Registry, sender: u64, decoded: Option<Message>)
    requires
        old(reg).wf(),
    ensures
        final(reg).wf(),
        text_outcome(old(reg)@, final(reg)@, sender, decoded_view(decoded)),
{
    match decoded {
        None => {},
        Some(msg) => {
            let is_request = matches!(msg, Message::GenerateStream);
            let session_id = if is_request {
                fresh_session_id()
            } else {
                String::new()
            };
            let ghost sid = session_id@;
            handle_message(reg, sender, msg, session_id);
            proof {
                if decoded_view(decoded) == Some(MsgView::GenerateStream) {
                    assert(sid.len() == 36 && reg@ == send_to_model(
                        old(reg)@,
                        sender,
                        FrameView::Msg(stream_reply(sid)),
                    ));
                }
            }
        },
    }
}

/// Routes one inbound binary frame: the payload fans out byte-for-byte,
/// uninterpreted, to every registered connection except the sender.
pub fn dispatch_binary(reg: &mut Registry, sender: u64, payload: Vec<u8>)
    requires
        old(reg).wf(),
    ensures
        final(reg).wf(),
        final(reg)@ == fan_out_model(old(reg)@, sender, FrameView::Binary(payload@)),
{
    reg.fan_out(sender, Frame::Binary(payload));
}

/// One inbound happening on a connection, as the edge hands it to the core.
pub enum InboundEvent {
    /// A binary frame, to forward verbatim.
    Binary(Vec<u8>),
    /// A text frame, already decoded at the edge; `None` where the decode
    /// failed.
    Text(Option<Message>),
    /// The stream erred or the peer closed: the connection is over.
    Shutdown,
}

/// Whether the per-connection loop goes on receiving or ends.
pub enum Flow {
    Continue,
    Stop,
}

/// One step of a connection's dispatcher: routes the inbound happening and
/// says whether the loop goes on.  A shutdown tears the connection down --
/// its identity leaves the registry, so no later fan-out reaches it -- and
/// nothing else ever stops the loop: in particular a frame that failed to
/// decode does not.
pub fn step(reg: &mut Registry, sender: u64, event: InboundEvent) -> (flow: Flow)
    requires
        old(reg).wf(),
    ensures
        final(reg).wf(),
        (match event {
            InboundEvent::Binary(payload) => final(reg)@ == fan_out_model(
                old(reg)@,
                sender,
                FrameView::Binary(payload@),
            ),
            InboundEvent::Text(decoded) => text_outcome(
                old(reg)@,
                final(reg)@,
                sender,
                decoded_view(decoded),
            ),
            InboundEvent::Shutdown => final(reg)@ == old(reg)@.remove(sender),
        }),
        flow is Stop <==> event is Shutdown,
{
    match event {
        InboundEvent::Binary(payload) => {
            dispatch_binary(reg, sender, payload);
            Flow::Continue
        },
        InboundEvent::Text(decoded) => {
            dispatch_text(reg, sender, decoded);
            Flow::Continue
        },
        InboundEvent::Shutdown => {
            reg.remove(sender);
            Flow::Stop
        },
    }
}

} // verus!
