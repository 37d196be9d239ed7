//! Reading what clients send once the session has begun.
use vstd::prelude::*;

use crate::bytes;
use crate::config::{InputEventView, VncInputEvent};
use crate::pixel::VncPixelFormat;
use crate::rect::Rect;
use crate::update::UpdateRequest;

verus! {

/// How many bytes are skipped at a time.
pub const DISCARD_CHUNK: usize = 1024;

/// A message of a client's that asks for something.
#[derive(Clone, Debug)]
pub enum ClientMessage {
    SetPixelFormat(VncPixelFormat),
    UpdateRequest(UpdateRequest),
    Input(VncInputEvent),
}

/// The contents of a [`ClientMessage`].
#[verifier::ext_equal]
pub enum ClientMessageView {
    SetPixelFormat(VncPixelFormat),
    UpdateRequest(UpdateRequest),
    Input(InputEventView),
}

impl View for ClientMessage {
    type V = ClientMessageView;

    open spec fn view(&self) -> ClientMessageView {
        match self {
            ClientMessage::SetPixelFormat(format) => ClientMessageView::SetPixelFormat(*format),
            ClientMessage::UpdateRequest(request) => ClientMessageView::UpdateRequest(*request),
            ClientMessage::Input(event) => ClientMessageView::Input(event@),
        }
    }
}

/// A message that may be absent, by its contents.
pub open spec fn view_of(message: Option<ClientMessage>) -> Option<ClientMessageView> {
    match message {
        None => None,
        Some(message) => Some(message@),
    }
}

/// The reader of one client's messages, by what it awaits next. The host
/// program hands over as many bytes as are awaited, over and over, until the
/// reader is closed.
#[derive(Clone, Copy, Debug, PartialEq, Eq, Structural)]
pub enum MessageReader {
    /// The type of a message.
    Type,
    /// The body of SetPixelFormat.
    PixelFormat,
    /// The head of SetEncodings.
    Encodings,
    /// Encodings, which are skipped.
    Discard { remaining: usize },
    /// The body of FramebufferUpdateRequest.
    Request,
    /// The body of KeyEvent.
    Key,
    /// The body of PointerEvent.
    Pointer,
    /// The head of ClientCutText.
    CutHeader,
    /// The text of ClientCutText.
    CutText { len: usize },
    /// Nothing: the client sent a message that is not known.
    Closed,
}

/// The rectangle that is written as four numbers from `at` on.
pub open spec fn rect_at(b: Seq<u8>, at: int) -> Rect {
    Rect {
        x: bytes::be16_value(b[at], b[at + 1]) as u16,
        y: bytes::be16_value(b[at + 2], b[at + 3]) as u16,
        width: bytes::be16_value(b[at + 4], b[at + 5]) as u16,
        height: bytes::be16_value(b[at + 6], b[at + 7]) as u16,
    }
}

/// The 32-bit number that is written from `at` on.
pub open spec fn number_at(b: Seq<u8>, at: int) -> int {
    bytes::be32_value(b[at], b[at + 1], b[at + 2], b[at + 3])
}

impl MessageReader {
    /// How many bytes are awaited.
    pub open spec fn spec_needed(self) -> int {
        match self {
            MessageReader::Type => 1,
            MessageReader::PixelFormat => 19,
            MessageReader::Encodings => 3,
            MessageReader::Discard { remaining } => if remaining < DISCARD_CHUNK {
                remaining as int
            } else {
                DISCARD_CHUNK as int
            },
            MessageReader::Request => 9,
            MessageReader::Key => 7,
            MessageReader::Pointer => 5,
            MessageReader::CutHeader => 7,
            MessageReader::CutText { len } => len as int,
            MessageReader::Closed => 0,
        }
    }

    /// What is awaited after the type of a message.
    pub open spec fn body_of(kind: u8) -> MessageReader {
        if kind == 0 {
            MessageReader::PixelFormat
        } else if kind == 2 {
            MessageReader::Encodings
        } else if kind == 3 {
            MessageReader::Request
        } else if kind == 4 {
            MessageReader::Key
        } else if kind == 5 {
            MessageReader::Pointer
        } else if kind == 6 {
            MessageReader::CutHeader
        } else {
            MessageReader::Closed
        }
    }

    /// What is awaited when `remaining` bytes are to be skipped.
    pub open spec fn skipping(remaining: int) -> MessageReader {
        if remaining == 0 {
            MessageReader::Type
        } else {
            MessageReader::Discard { remaining: remaining as usize }
        }
    }

    /// What is awaited after the awaited bytes, and the message that they
    /// complete.
    pub open spec fn after(self, b: Seq<u8>) -> (MessageReader, Option<ClientMessageView>) {
        match self {
            MessageReader::Type => (MessageReader::body_of(b[0]), None),
            MessageReader::PixelFormat => (
                MessageReader::Type,
                Some(
                    ClientMessageView::SetPixelFormat(
                        VncPixelFormat::spec_parse(b.subrange(3, 19)),
                    ),
                ),
            ),
            MessageReader::Encodings => (
                MessageReader::skipping(bytes::be16_value(b[1], b[2]) * 4),
                None,
            ),
            MessageReader::Discard { remaining } => (
                MessageReader::skipping(remaining - self.spec_needed()),
                None,
            ),
            MessageReader::Request => (
                MessageReader::Type,
                Some(
                    ClientMessageView::UpdateRequest(
                        UpdateRequest { incremental: b[0] != 0, rect: rect_at(b, 1) },
                    ),
                ),
            ),
            MessageReader::Key => (
                MessageReader::Type,
                Some(
                    ClientMessageView::Input(
                        InputEventView::Key { down: b[0] != 0, key: number_at(b, 3) as u32 },
                    ),
                ),
            ),
            MessageReader::Pointer => (
                MessageReader::Type,
                Some(
                    ClientMessageView::Input(
                        InputEventView::Pointer {
                            button_mask: b[0],
                            x: bytes::be16_value(b[1], b[2]) as u16,
                            y: bytes::be16_value(b[3], b[4]) as u16,
                        },
                    ),
                ),
            ),
            MessageReader::CutHeader => (
                MessageReader::CutText { len: number_at(b, 3) as usize },
                None,
            ),
            MessageReader::CutText { .. } => (
                MessageReader::Type,
                Some(ClientMessageView::Input(InputEventView::ClientCutText(b))),
            ),
            MessageReader::Closed => (self, None),
        }
    }

    /// A reader that awaits a message.
    pub fn new() -> (r: Self)
        ensures
            r is Type,
    {
        MessageReader::Type
    }

    /// Whether the reader takes no more bytes.
    pub fn is_closed(&self) -> (r: bool)
        ensures
            r == (*self is Closed),
    {
        match self {
            MessageReader::Closed => true,
            _ => false,
        }
    }

    /// How many bytes are awaited.
    pub fn needed(&self) -> (r: usize)
        ensures
            r == self.spec_needed(),
    {
        match self {
            MessageReader::Type => 1,
            MessageReader::PixelFormat => 19,
            MessageReader::Encodings => 3,
            MessageReader::Discard { remaining } => if *remaining < DISCARD_CHUNK {
                *remaining
            } else {
                DISCARD_CHUNK
            },
            MessageReader::Request => 9,
            MessageReader::Key => 7,
            MessageReader::Pointer => 5,
            MessageReader::CutHeader => 7,
            MessageReader::CutText { len } => *len,
            MessageReader::Closed => 0,
        }
    }

    fn skip_rest(remaining: usize) -> (r: MessageReader)
        ensures
            r == MessageReader::skipping(remaining as int),
    {
        if remaining == 0 {
            MessageReader::Type
        } else {
            MessageReader::Discard { remaining }
        }
    }

    /// Takes the awaited bytes, and returns the message that they complete, if
    /// they complete one that asks for something.
    pub fn feed(&mut self, b: &[u8]) -> (message: Option<ClientMessage>)
        requires
            b@.len() == old(self).spec_needed(),
        ensures
            *final(self) == old(self).after(b@).0,
            view_of(message) == old(self).after(b@).1,
            *old(self) is Type ==> message is None && match b@[0] {
                0 => *final(self) is PixelFormat,
                2 => *final(self) is Encodings,
                3 => *final(self) is Request,
                4 => *final(self) is Key,
                5 => *final(self) is Pointer,
                6 => *final(self) is CutHeader,
                _ => *final(self) is Closed,
            },
            *old(self) is Encodings ==> message is None && if b@[1] == 0 && b@[2] == 0 {
                *final(self) is Type
            } else {
                *final(self) matches MessageReader::Discard { remaining } && remaining == (b@[1]
                    * 256 + b@[2]) * 4
            },
            *old(self) matches MessageReader::Discard { remaining } ==> message is None
                && if remaining <= 1024 {
                *final(self) is Type
            } else {
                *final(self) matches MessageReader::Discard { remaining: left } && left
                    == remaining - 1024
            },
            *old(self) is CutHeader ==> message is None && (*final(self) matches
                MessageReader::CutText { len } && len == ((b@[3] * 256 + b@[4]) * 256 + b@[5])
                * 256 + b@[6]),
            *old(self) is PixelFormat ==> *final(self) is Type && (message matches Some(
                ClientMessage::SetPixelFormat(_),
            )),
            *old(self) is Request ==> *final(self) is Type && (message matches Some(
                ClientMessage::UpdateRequest(request),
            ) && request.incremental == (b@[0] != 0) && request.rect.x == b@[1] * 256 + b@[2]
                && request.rect.y == b@[3] * 256 + b@[4] && request.rect.width == b@[5] * 256
                + b@[6] && request.rect.height == b@[7] * 256 + b@[8]),
            *old(self) is Key ==> *final(self) is Type && (message matches Some(
                ClientMessage::Input(VncInputEvent::Key { down, key }),
            ) && down == (b@[0] != 0) && key == ((b@[3] * 256 + b@[4]) * 256 + b@[5]) * 256
                + b@[6]),
            *old(self) is Pointer ==> *final(self) is Type && (message matches Some(
                ClientMessage::Input(VncInputEvent::Pointer { button_mask, x, y }),
            ) && button_mask == b@[0] && x == b@[1] * 256 + b@[2] && y == b@[3] * 256 + b@[4]),
            *old(self) is CutText ==> *final(self) is Type && (message matches Some(
                ClientMessage::Input(VncInputEvent::ClientCutText(text)),
            ) && text@ == b@),
            *old(self) is Closed ==> *final(self) is Closed && message is None,
    {
        let needed: usize = self.needed();
        match *self {
            MessageReader::Type => {
                *self = match b[0] {
                    0 => MessageReader::PixelFormat,
                    2 => MessageReader::Encodings,
                    3 => MessageReader::Request,
                    4 => MessageReader::Key,
                    5 => MessageReader::Pointer,
                    6 => MessageReader::CutHeader,
                    _ => MessageReader::Closed,
                };
                None
            },
            MessageReader::PixelFormat => {
                *self = MessageReader::Type;
                let structure: [u8; 16] = [
                    b[3], b[4], b[5], b[6], b[7], b[8], b[9], b[10], b[11], b[12], b[13], b[14],
                    b[15], b[16], b[17], b[18],
                ];
                assert(structure@ =~= b@.subrange(3, 19));
                Some(ClientMessage::SetPixelFormat(VncPixelFormat::parse(&structure)))
            },
            MessageReader::Encodings => {
                let n: usize = bytes::be16(b[1], b[2]) as usize;
                *self = MessageReader::skip_rest(n * 4);
                None
            },
            MessageReader::Discard { remaining } => {
                *self = MessageReader::skip_rest(remaining - needed);
                None
            },
            MessageReader::Request => {
                *self = MessageReader::Type;
                let rect: Rect = Rect {
                    x: bytes::be16(b[1], b[2]),
                    y: bytes::be16(b[3], b[4]),
                    width: bytes::be16(b[5], b[6]),
                    height: bytes::be16(b[7], b[8]),
                };
                Some(ClientMessage::UpdateRequest(UpdateRequest { incremental: b[0] != 0, rect }))
            },
            MessageReader::Key => {
                *self = MessageReader::Type;
                let key: u32 = bytes::be32(b[3], b[4], b[5], b[6]);
                Some(ClientMessage::Input(VncInputEvent::Key { down: b[0] != 0, key }))
            },
            MessageReader::Pointer => {
                *self = MessageReader::Type;
                let x: u16 = bytes::be16(b[1], b[2]);
                let y: u16 = bytes::be16(b[3], b[4]);
                Some(ClientMessage::Input(VncInputEvent::Pointer { button_mask: b[0], x, y }))
            },
            MessageReader::CutHeader => {
                let len: usize = bytes::be32(b[3], b[4], b[5], b[6]) as usize;
                *self = MessageReader::CutText { len };
                None
            },
            MessageReader::CutText { .. } => {
                *self = MessageReader::Type;
                let text: Vec<u8> = vstd::slice::slice_to_vec(b);
                Some(ClientMessage::Input(VncInputEvent::ClientCutText(text)))
            },
            MessageReader::Closed => None,
        }
    }
}

/// What a client has asked for: the update request that is still to be
/// answered, and the pixel format to answer in.
pub struct ClientState {
    pub pending: Option<UpdateRequest>,
    pub format: VncPixelFormat,
}

impl ClientState {
    /// A client that has asked for nothing yet, and is served the frame's own
    /// layout.
    pub fn new() -> (r: Self)
        ensures
            r.pending is None,
            r.format == VncPixelFormat::spec_native(),
    {
        ClientState { pending: None, format: VncPixelFormat::native() }
    }

    /// Takes note of a message, and returns the input event that it reports. A
    /// request takes the place of one that is still to be answered.
    pub fn apply(&mut self, message: ClientMessage) -> (event: Option<VncInputEvent>)
        ensures
            match message {
                ClientMessage::SetPixelFormat(format) => {
                    &&& *final(self) == (ClientState { format, pending: old(self).pending })
                    &&& event is None
                },
                ClientMessage::UpdateRequest(request) => {
                    &&& *final(self) == (ClientState {
                        format: old(self).format,
                        pending: Some(request),
                    })
                    &&& event is None
                },
                ClientMessage::Input(input) => {
                    &&& *final(self) == *old(self)
                    &&& event == Some(input)
                },
            },
    {
        match message {
            ClientMessage::SetPixelFormat(format) => {
                self.format = format;
                None
            },
            ClientMessage::UpdateRequest(request) => {
                self.pending = Some(request);
                None
            },
            ClientMessage::Input(input) => Some(input),
        }
    }

    /// Takes out the request that is to be answered, if there is one.
    pub fn take_request(&mut self) -> (request: Option<UpdateRequest>)
        ensures
            request == old(self).pending,
            *final(self) == (ClientState { format: old(self).format, pending: None }),
    {
        let request: Option<UpdateRequest> = self.pending;
        self.pending = None;
        request
    }
}

/// A message that may be absent, as a list.
pub open spec fn listed(message: Option<ClientMessageView>) -> Seq<ClientMessageView> {
    match message {
        None => Seq::empty(),
        Some(message) => seq![message],
    }
}

impl MessageReader {
    /// What a reader awaits once it has read as much of `stream` as it can, and
    /// the messages that it has read.
    pub open spec fn read_all(self, stream: Seq<u8>) -> (MessageReader, Seq<ClientMessageView>)
        decreases
                stream.len(),
                if self.spec_needed() == 0 {
                    1int
                } else {
                    0int
                },
    {
        let n = self.spec_needed();
        if self is Closed || stream.len() < n {
            (self, Seq::empty())
        } else {
            let (next, message) = self.after(stream.take(n));
            let (end, messages) = next.read_all(stream.skip(n));
            (end, listed(message) + messages)
        }
    }
}

/// How long the message is that starts with the bytes `m`, where they suffice
/// to tell and its type is known.
pub open spec fn message_len(m: Seq<u8>) -> Option<int> {
    if m.len() == 0 {
        None
    } else if m[0] == 0 {
        Some(20)
    } else if m[0] == 2 && m.len() >= 4 {
        Some(4 + 4 * bytes::be16_value(m[2], m[3]))
    } else if m[0] == 3 {
        Some(10)
    } else if m[0] == 4 {
        Some(8)
    } else if m[0] == 5 {
        Some(6)
    } else if m[0] == 6 && m.len() >= 8 {
        Some(8 + number_at(m, 4))
    } else {
        None
    }
}

/// What a whole message asks for. SetEncodings asks for nothing.
pub open spec fn meaning(m: Seq<u8>) -> Option<ClientMessageView> {
    if m[0] == 0 {
        Some(ClientMessageView::SetPixelFormat(VncPixelFormat::spec_parse(m.subrange(4, 20))))
    } else if m[0] == 3 {
        Some(
            ClientMessageView::UpdateRequest(
                UpdateRequest { incremental: m[1] != 0, rect: rect_at(m, 2) },
            ),
        )
    } else if m[0] == 4 {
        Some(
            ClientMessageView::Input(
                InputEventView::Key { down: m[1] != 0, key: number_at(m, 4) as u32 },
            ),
        )
    } else if m[0] == 5 {
        Some(
            ClientMessageView::Input(
                InputEventView::Pointer {
                    button_mask: m[1],
                    x: bytes::be16_value(m[2], m[3]) as u16,
                    y: bytes::be16_value(m[4], m[5]) as u16,
                },
            ),
        )
    } else if m[0] == 6 {
        Some(
            ClientMessageView::Input(
                InputEventView::ClientCutText(m.subrange(8, m.len() as int)),
            ),
        )
    } else {
        None
    }
}

/// Skipped bytes leave no trace.
proof fn lemma_discard(remaining: usize, stream: Seq<u8>)
    requires
        0 < remaining <= stream.len(),
    ensures
        (MessageReader::Discard { remaining }).read_all(stream) == MessageReader::Type.read_all(
            stream.skip(remaining as int),
        ),
    decreases remaining,
{
    let reader = MessageReader::Discard { remaining };
    let n = reader.spec_needed();
    let rest = stream.skip(n);
    let (next, message) = reader.after(stream.take(n));
    if remaining > n {
        lemma_discard((remaining - n) as usize, rest);
        assert(rest.skip(remaining - n) =~= stream.skip(remaining as int));
    }
    let (end, messages) = next.read_all(rest);
    assert(listed(message) + messages =~= messages);
}

/// The reader follows the message format: a whole message, whatever follows
/// it, is read for what it asks, and the reader goes on with what follows.
#[verifier::rlimit(40)]
pub proof fn law_reads_message(m: Seq<u8>, rest: Seq<u8>)
    requires
        message_len(m) == Some(m.len() as int),
    ensures
        ({
            let (end, messages) = MessageReader::Type.read_all(rest);
            MessageReader::Type.read_all(m + rest) == (end, listed(meaning(m)) + messages)
        }),
{
    let stream = m + rest;
    let (end, messages) = MessageReader::Type.read_all(rest);
    let body = MessageReader::body_of(m[0]);
    let n = body.spec_needed();
    let after_type = stream.skip(1);
    assert(stream.take(1)[0] == m[0]);
    let head = after_type.take(n);
    assert(head =~= m.subrange(1, 1 + n));
    let after_head = after_type.skip(n);
    let (next, message) = body.after(head);
    let (body_end, body_messages) = body.read_all(after_type);
    assert(MessageReader::Type.read_all(stream) == (
        body_end,
        Seq::<ClientMessageView>::empty() + body_messages,
    ));
    assert(Seq::<ClientMessageView>::empty() + body_messages =~= body_messages);
    let (next_end, next_messages) = next.read_all(after_head);
    assert(body.read_all(after_type) == (next_end, listed(message) + next_messages));
    assert forall|k: int| 0 <= k < n implies head[k] == m[k + 1] by {}
    if m[0] == 2 {
        assert(head[1] == m[2] && head[2] == m[3]);
        let skipped = 4 * bytes::be16_value(m[2], m[3]);
        assert(after_head.skip(skipped) =~= rest);
        assert(next == MessageReader::skipping(skipped));
        if skipped > 0 {
            lemma_discard(skipped as usize, after_head);
        } else {
            assert(after_head =~= rest);
        }
        assert(next_end == end);
        assert(next_messages == messages);
        assert(listed(message) + next_messages =~= listed(meaning(m)) + messages);
    } else if m[0] == 6 {
        let len = number_at(m, 4);
        assert(number_at(head, 3) == len);
        let text = after_head.take(len);
        assert(text =~= m.subrange(8, m.len() as int));
        assert(after_head.skip(len) =~= rest);
        assert(next == (MessageReader::CutText { len: len as usize }));
        assert(next.read_all(after_head) == (end, listed(meaning(m)) + messages));
        assert(listed(message) + next_messages =~= next_messages);
    } else {
        assert(after_head =~= rest);
        assert(next is Type);
        if m[0] == 0 {
            assert(head.subrange(3, 19) =~= m.subrange(4, 20));
        } else if m[0] == 3 {
            assert(rect_at(head, 1) == rect_at(m, 2));
        }
        assert(message == meaning(m));
    }
}

/// Messages one after the other.
pub open spec fn joined(messages: Seq<Seq<u8>>) -> Seq<u8>
    decreases messages.len(),
{
    if messages.len() == 0 {
        Seq::empty()
    } else {
        messages[0] + joined(messages.skip(1))
    }
}

/// What each of the messages asks for, in order.
pub open spec fn meanings(messages: Seq<Seq<u8>>) -> Seq<ClientMessageView>
    decreases messages.len(),
{
    if messages.len() == 0 {
        Seq::empty()
    } else {
        listed(meaning(messages[0])) + meanings(messages.skip(1))
    }
}

/// A stream of whole messages is read message by message, with none lost and
/// none out of order, and leaves the reader awaiting the next.
pub proof fn law_reads_stream(messages: Seq<Seq<u8>>)
    requires
        forall|i: int|
            0 <= i < messages.len() ==> message_len(#[trigger] messages[i]) == Some(
                messages[i].len() as int,
            ),
    ensures
        MessageReader::Type.read_all(joined(messages)) == (
            MessageReader::Type,
            meanings(messages),
        ),
    decreases messages.len(),
{
    if messages.len() > 0 {
        let rest = messages.skip(1);
        assert forall|i: int| 0 <= i < rest.len() implies message_len(#[trigger] rest[i]) == Some(
            rest[i].len() as int,
        ) by {
            assert(rest[i] == messages[i + 1]);
        }
        law_reads_stream(rest);
        law_reads_message(messages[0], joined(rest));
    }
}

/// A message that is not known ends the reading, whatever follows it.
pub proof fn law_unknown_message_closes(m: Seq<u8>)
    requires
        m.len() > 0,
        m[0] == 1 || m[0] > 6,
    ensures
        MessageReader::Type.read_all(m) == (
            MessageReader::Closed,
            Seq::<ClientMessageView>::empty(),
        ),
{
    assert(m.take(1)[0] == m[0]);
    assert(MessageReader::Closed.read_all(m.skip(1)) == (
        MessageReader::Closed,
        Seq::<ClientMessageView>::empty(),
    ));
    assert(MessageReader::Type.read_all(m).1 =~= Seq::<ClientMessageView>::empty());
}

/// How much is awaited at a time: the parts of a message have fixed lengths but
/// for a text, which is awaited whole, and for what is skipped, which is taken in
/// pieces of at most 1024 bytes.
pub proof fn law_awaited(remaining: usize, len: usize)
    ensures
        MessageReader::Type.spec_needed() == 1,
        MessageReader::PixelFormat.spec_needed() == 19,
        MessageReader::Encodings.spec_needed() == 3,
        MessageReader::Request.spec_needed() == 9,
        MessageReader::Key.spec_needed() == 7,
        MessageReader::Pointer.spec_needed() == 5,
        MessageReader::CutHeader.spec_needed() == 7,
        (MessageReader::CutText { len }).spec_needed() == len,
        (MessageReader::Discard { remaining }).spec_needed() <= 1024,
        remaining <= 1024 ==> (MessageReader::Discard { remaining }).spec_needed() == remaining,
        remaining > 1024 ==> (MessageReader::Discard { remaining }).spec_needed() == 1024,
        MessageReader::Closed.spec_needed() == 0,
{
}

/// A FramebufferUpdateRequest is read as it was written: its flag, and the
/// place and the size of its rectangle. Then the reader goes on with what
/// follows.
pub proof fn law_reads_request(
    flag: u8,
    x: u16,
    y: u16,
    width: u16,
    height: u16,
    rest: Seq<u8>,
)
    ensures
        MessageReader::Type.read_all(
            seq![3u8, flag] + bytes::be16_bytes(x) + bytes::be16_bytes(y) + bytes::be16_bytes(width)
                + bytes::be16_bytes(height) + rest,
        ) == ({
            let (end, messages) = MessageReader::Type.read_all(rest);
            let request = UpdateRequest {
                incremental: flag != 0,
                rect: Rect { x, y, width, height },
            };
            (end, seq![ClientMessageView::UpdateRequest(request)] + messages)
        }),
{
    let m = seq![3u8, flag] + bytes::be16_bytes(x) + bytes::be16_bytes(y) + bytes::be16_bytes(width)
        + bytes::be16_bytes(height);
    bytes::law_be16_round_trip(x, 0, 0);
    bytes::law_be16_round_trip(y, 0, 0);
    bytes::law_be16_round_trip(width, 0, 0);
    bytes::law_be16_round_trip(height, 0, 0);
    law_reads_message(m, rest);
}

/// A KeyEvent is read as it was written: whether the key went down, and which
/// key it is.
pub proof fn law_reads_key(flag: u8, padding: Seq<u8>, key: u32, rest: Seq<u8>)
    requires
        padding.len() == 2,
    ensures
        MessageReader::Type.read_all(
            seq![4u8, flag] + padding + bytes::be32_bytes(key) + rest,
        ) == ({
            let (end, messages) = MessageReader::Type.read_all(rest);
            let event = InputEventView::Key { down: flag != 0, key };
            (end, seq![ClientMessageView::Input(event)] + messages)
        }),
{
    let m = seq![4u8, flag] + padding + bytes::be32_bytes(key);
    bytes::law_be32_round_trip(key, 0, 0, 0, 0);
    law_reads_message(m, rest);
}

/// A PointerEvent is read as it was written: the buttons that are down, and
/// where the pointer is.
pub proof fn law_reads_pointer(button_mask: u8, x: u16, y: u16, rest: Seq<u8>)
    ensures
        MessageReader::Type.read_all(
            seq![5u8, button_mask] + bytes::be16_bytes(x) + bytes::be16_bytes(y) + rest,
        ) == ({
            let (end, messages) = MessageReader::Type.read_all(rest);
            let event = InputEventView::Pointer { button_mask, x, y };
            (end, seq![ClientMessageView::Input(event)] + messages)
        }),
{
    let m = seq![5u8, button_mask] + bytes::be16_bytes(x) + bytes::be16_bytes(y);
    bytes::law_be16_round_trip(x, 0, 0);
    bytes::law_be16_round_trip(y, 0, 0);
    law_reads_message(m, rest);
}

/// The text of a ClientCutText is read whole, whatever bytes it is made of, and
/// an empty one too.
pub proof fn law_reads_cut_text(padding: Seq<u8>, text: Seq<u8>, rest: Seq<u8>)
    requires
        padding.len() == 3,
        text.len() <= u32::MAX,
    ensures
        MessageReader::Type.read_all(
            seq![6u8] + padding + bytes::be32_bytes(text.len() as u32) + text + rest,
        ) == ({
            let (end, messages) = MessageReader::Type.read_all(rest);
            let event = InputEventView::ClientCutText(text);
            (end, seq![ClientMessageView::Input(event)] + messages)
        }),
{
    let m = seq![6u8] + padding + bytes::be32_bytes(text.len() as u32) + text;
    bytes::law_be32_round_trip(text.len() as u32, 0, 0, 0, 0);
    law_reads_message(m, rest);
    assert(m.subrange(8, m.len() as int) =~= text);
}

/// A SetPixelFormat is read as it was written: the size of a pixel, its byte
/// order, and the scale and the place of each colour.
pub proof fn law_reads_pixel_format(
    format: VncPixelFormat,
    before: Seq<u8>,
    depth: u8,
    order: u8,
    true_colour: u8,
    after: Seq<u8>,
    rest: Seq<u8>,
)
    requires
        before.len() == 3,
        after.len() == 3,
        format.big_endian == (order != 0),
    ensures
        MessageReader::Type.read_all(
            seq![0u8] + before + seq![format.bpp, depth, order, true_colour]
                + bytes::be16_bytes(format.r_max) + bytes::be16_bytes(format.g_max)
                + bytes::be16_bytes(format.b_max) + seq![
                format.r_shift,
                format.g_shift,
                format.b_shift,
            ] + after + rest,
        ) == ({
            let (end, messages) = MessageReader::Type.read_all(rest);
            (end, seq![ClientMessageView::SetPixelFormat(format)] + messages)
        }),
{
    let structure = seq![format.bpp, depth, order, true_colour] + bytes::be16_bytes(format.r_max)
        + bytes::be16_bytes(format.g_max) + bytes::be16_bytes(format.b_max) + seq![
        format.r_shift,
        format.g_shift,
        format.b_shift,
    ] + after;
    let m = seq![0u8] + before + seq![format.bpp, depth, order, true_colour]
        + bytes::be16_bytes(format.r_max) + bytes::be16_bytes(format.g_max)
        + bytes::be16_bytes(format.b_max) + seq![
        format.r_shift,
        format.g_shift,
        format.b_shift,
    ] + after;
    crate::pixel::law_format_round_trip(format, depth, order, true_colour, after);
    law_reads_message(m, rest);
    assert(m.subrange(4, 20) =~= structure);
}

/// A SetEncodings is skipped with all the encodings that it lists, however
/// many: the reader goes on with what follows as if it had not been sent.
pub proof fn law_skips_encodings(padding: u8, count: u16, encodings: Seq<u8>, rest: Seq<u8>)
    requires
        encodings.len() == 4 * count,
    ensures
        MessageReader::Type.read_all(
            seq![2u8, padding] + bytes::be16_bytes(count) + encodings + rest,
        ) == MessageReader::Type.read_all(rest),
{
    let m = seq![2u8, padding] + bytes::be16_bytes(count) + encodings;
    bytes::law_be16_round_trip(count, 0, 0);
    law_reads_message(m, rest);
    let (end, messages) = MessageReader::Type.read_all(rest);
    assert(listed(meaning(m)) + messages =~= messages);
}

/// The contents of a message are the message's own.
pub proof fn law_message_view(
    format: VncPixelFormat,
    request: UpdateRequest,
    event: VncInputEvent,
)
    ensures
        ClientMessage::SetPixelFormat(format)@ == ClientMessageView::SetPixelFormat(format),
        ClientMessage::UpdateRequest(request)@ == ClientMessageView::UpdateRequest(request),
        ClientMessage::Input(event)@ == ClientMessageView::Input(event@),
        event matches VncInputEvent::Key { down, key } ==> event@ == (InputEventView::Key {
            down,
            key,
        }),
        event matches VncInputEvent::Pointer { button_mask, x, y } ==> event@ == (
        InputEventView::Pointer { button_mask, x, y }),
        event matches VncInputEvent::ClientCutText(text) ==> event@
            == InputEventView::ClientCutText(text@),
{
}

} // verus!
