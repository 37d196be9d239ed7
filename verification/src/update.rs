//! Answering the clients' requests for updates of the screen.
use vstd::prelude::*;

use crate::bytes;
use crate::damage;
use crate::frame;
use crate::frame::{FrameState, SharedFrame};
use crate::pixel;
use crate::pixel::VncPixelFormat;
use crate::rect::Rect;

verus! {

/// A client's request for the contents of a rectangle: all of it, or what has
/// changed since the last update.
#[derive(Clone, Copy, Debug, PartialEq, Eq, Structural)]
pub struct UpdateRequest {
    pub incremental: bool,
    pub rect: Rect,
}

/// The head of a FramebufferUpdate message with one rectangle, in the raw
/// encoding.
pub open spec fn update_header(rect: Rect) -> Seq<u8> {
    seq![0u8, 0u8] + bytes::be16_bytes(1) + bytes::be16_bytes(rect.x) + bytes::be16_bytes(rect.y)
        + bytes::be16_bytes(rect.width) + bytes::be16_bytes(rect.height) + bytes::be32_bytes(0)
}

/// Whether a client that reads `m` learns of one raw rectangle, `rect`, the
/// pixels of which follow from byte 16 on.
pub open spec fn announces(m: Seq<u8>, rect: Rect) -> bool {
    &&& m.len() >= 16
    &&& m[0] == 0 && m[1] == 0
    &&& m[2] == 0 && m[3] == 1
    &&& m[4] * 256 + m[5] == rect.x
    &&& m[6] * 256 + m[7] == rect.y
    &&& m[8] * 256 + m[9] == rect.width
    &&& m[10] * 256 + m[11] == rect.height
    &&& m[12] == 0 && m[13] == 0 && m[14] == 0 && m[15] == 0
}

/// A FramebufferUpdate message without rectangles.
pub open spec fn empty_update() -> Seq<u8> {
    seq![0u8, 0u8] + bytes::be16_bytes(0)
}

/// A FramebufferUpdate message with one rectangle of a frame.
pub open spec fn update_message(
    bgra: Seq<u8>,
    width: int,
    rect: Rect,
    fmt: VncPixelFormat,
) -> Seq<u8> {
    update_header(rect) + fmt.encoded_rect(bgra, width, rect)
}

/// Appends the head of a FramebufferUpdate message with one rectangle.
pub fn write_update_header(out: &mut Vec<u8>, rect: Rect)
    ensures
        final(out)@ == old(out)@ + update_header(rect),
        final(out)@.len() == old(out)@.len() + 16,
        announces(final(out)@.skip(old(out)@.len() as int), rect),
{
    out.push(0);
    out.push(0);
    bytes::push_be16(out, 1);
    bytes::push_be16(out, rect.x);
    bytes::push_be16(out, rect.y);
    bytes::push_be16(out, rect.width);
    bytes::push_be16(out, rect.height);
    bytes::push_be32(out, 0);
    assert(out@ =~= old(out)@ + update_header(rect));
    assert(out@.skip(old(out)@.len() as int) =~= update_header(rect));
    proof {
        law_header_is_readable(rect, Seq::empty());
        assert(update_header(rect) + Seq::<u8>::empty() =~= update_header(rect));
    }
}

/// Appends a FramebufferUpdate message without rectangles.
pub fn write_empty_update(out: &mut Vec<u8>)
    ensures
        final(out)@ == old(out)@ + empty_update(),
        final(out)@ == old(out)@ + seq![0u8, 0u8, 0u8, 0u8],
{
    out.push(0);
    out.push(0);
    bytes::push_be16(out, 0);
    assert(out@ =~= old(out)@ + empty_update());
    assert(out@ =~= old(out)@ + seq![0u8, 0u8, 0u8, 0u8]);
}

/// The FramebufferUpdate message with one rectangle of a frame that is `width`
/// pixels wide, in the format `fmt`.
pub fn framebuffer_update(bgra: &[u8], width: usize, rect: Rect, fmt: &VncPixelFormat) -> (r: Vec<
    u8,
>)
    requires
        pixel::encodable(bgra@.len() as int, width as int, rect, *fmt),
    ensures
        r@ == update_message(bgra@, width as int, rect, *fmt),
        announces(r@, rect),
        r@.skip(16) == fmt.encoded_rect(bgra@, width as int, rect),
{
    let mut encoded: Vec<u8> = Vec::new();
    pixel::encode_rect(bgra, width, rect, fmt, &mut encoded);
    let mut message: Vec<u8> = Vec::new();
    write_update_header(&mut message, rect);
    bytes::push_bytes(&mut message, encoded.as_slice());
    assert(message@ =~= update_message(bgra@, width as int, rect, *fmt));
    proof {
        law_update_message(bgra@, width as int, rect, *fmt);
    }
    message
}

/// The answering of one client's update requests: the size of the screen, the
/// number of the publication that the client knows, and the request that is
/// being answered, cut down to the screen.
#[derive(Clone, Copy, Debug, PartialEq, Eq, Structural)]
pub struct UpdateSession {
    pub width: u16,
    pub height: u16,
    pub last_seq: u64,
    pub active: Option<UpdateRequest>,
}

impl UpdateSession {
    /// A request, cut down to the screen, if any of it is on the screen.
    pub open spec fn clipped(self, request: UpdateRequest) -> Option<UpdateRequest> {
        match request.rect.spec_intersect(Rect::spec_full(self.width, self.height)) {
            None => None,
            Some(rect) => Some(UpdateRequest { rect, ..request }),
        }
    }

    /// The session once the client knows publication `seq`, with the request
    /// answered if `answered` says so.
    pub open spec fn caught_up(self, seq: u64, answered: bool) -> UpdateSession {
        UpdateSession {
            last_seq: seq,
            active: if answered {
                None
            } else {
                self.active
            },
            ..self
        }
    }

    /// What the frame has for the request that is being answered: the session
    /// afterwards, and the rectangle to send, if there is one by now.
    pub open spec fn polled(self, frame: FrameState) -> (UpdateSession, Option<Rect>) {
        let request = self.active->0;
        if !request.incremental {
            (self.caught_up(frame.seq, true), Some(request.rect))
        } else {
            match frame.damage_since(self.last_seq) {
                None => (self, None),
                Some(None) => (self.caught_up(frame.seq, false), None),
                Some(Some(damaged)) => {
                    let rect = damaged.spec_intersect(request.rect);
                    (self.caught_up(frame.seq, rect is Some), rect)
                },
            }
        }
    }

    /// A session with a client that knows nothing of a `width` by `height`
    /// screen.
    pub fn new(width: u16, height: u16) -> (r: Self)
        ensures
            r == (UpdateSession { width, height, last_seq: 0, active: None }),
    {
        UpdateSession { width, height, last_seq: 0, active: None }
    }

    /// Takes up a request. One that is off the screen is answered at once,
    /// with the message that is returned; any other waits to be polled for.
    pub fn accept(&mut self, request: UpdateRequest) -> (reply: Option<Vec<u8>>)
        ensures
            *final(self) == (UpdateSession {
                active: old(self).clipped(request),
                ..*old(self)
            }),
            reply is None <==> old(self).clipped(request) is Some,
            reply matches Some(message) ==> message@ == empty_update(),
            reply matches Some(message) ==> message@ == seq![0u8, 0u8, 0u8, 0u8],
            final(self).active matches Some(taken) ==> taken.incremental == request.incremental,
    {
        match request.rect.intersect(Rect::full(self.width, self.height)) {
            None => {
                self.active = None;
                let mut message: Vec<u8> = Vec::new();
                write_empty_update(&mut message);
                assert(message@ =~= empty_update());
                assert(message@ =~= seq![0u8, 0u8, 0u8, 0u8]);
                Some(message)
            },
            Some(rect) => {
                self.active = Some(UpdateRequest { incremental: request.incremental, rect });
                None
            },
        }
    }

    /// Looks at the frame for the request that is being answered, and returns
    /// the rectangle to send. Where there is none, the next publication has to
    /// be waited for.
    pub fn poll(&mut self, frame: &SharedFrame) -> (rect: Option<Rect>)
        requires
            old(self).active is Some,
        ensures
            *final(self) == old(self).polled(frame@).0,
            rect == old(self).polled(frame@).1,
    {
        if let Some(request) = self.active {
            if !request.incremental {
                self.last_seq = frame.seq();
                self.active = None;
                return Some(request.rect);
            }
            match frame::damage_since(frame, self.last_seq) {
                None => None,
                Some(damage) => {
                    self.last_seq = frame.seq();
                    let rect: Option<Rect> = match damage {
                        None => None,
                        Some(damaged) => damaged.intersect(request.rect),
                    };
                    if rect.is_some() {
                        self.active = None;
                    }
                    rect
                },
            }
        } else {
            None
        }
    }
}

/// Whether two pictures show the same in a rectangle.
pub open spec fn agree(a: Seq<u8>, b: Seq<u8>, width: int, rect: Rect) -> bool {
    forall|x: int, y: int|
        rect.contains(x, y) ==> #[trigger] damage::pixel_at(a, width, x, y) == damage::pixel_at(
            b,
            width,
            x,
            y,
        )
}

/// A client's picture of a screen that is `width` pixels wide, with the
/// four-byte pixels of a rectangle put in place.
pub open spec fn painted(canvas: Seq<u8>, width: int, rect: Rect, pixels: Seq<u8>) -> Seq<u8> {
    Seq::new(
        canvas.len(),
        |k: int|
            {
                let x = (k / 4) % width;
                let y = (k / 4) / width;
                if rect.contains(x, y) {
                    pixels[((y - rect.y) * rect.width + (x - rect.x)) * 4 + k % 4]
                } else {
                    canvas[k]
                }
            },
    )
}

/// The rectangle that a client reads out of a FramebufferUpdate message with
/// one: four big-endian numbers after the count of rectangles.
pub open spec fn announced(m: Seq<u8>) -> Rect {
    Rect {
        x: (m[4] * 256 + m[5]) as u16,
        y: (m[6] * 256 + m[7]) as u16,
        width: (m[8] * 256 + m[9]) as u16,
        height: (m[10] * 256 + m[11]) as u16,
    }
}

/// What a client's picture becomes by a FramebufferUpdate message with
/// four-byte pixels: the pixels are put where the message says.
pub open spec fn received(canvas: Seq<u8>, width: int, m: Seq<u8>) -> Seq<u8> {
    painted(canvas, width, announced(m), m.skip(16))
}

/// What a client's picture becomes by what it is sent, if it is sent anything.
pub open spec fn shown(
    canvas: Seq<u8>,
    width: int,
    sent: Option<Rect>,
    frame: Seq<u8>,
) -> Seq<u8> {
    match sent {
        None => canvas,
        Some(rect) => received(
            canvas,
            width,
            update_message(frame, width, rect, VncPixelFormat::spec_native()),
        ),
    }
}

/// The head of an update tells the client what follows: one rectangle, where
/// it is, how large it is, and that it is raw.
pub proof fn law_header_is_readable(rect: Rect, rest: Seq<u8>)
    ensures
        ({
            let m = update_header(rect) + rest;
            &&& update_header(rect).len() == 16
            &&& m[0] == 0
            &&& bytes::be16_value(m[2], m[3]) == 1
            &&& bytes::be16_value(m[4], m[5]) == rect.x
            &&& bytes::be16_value(m[6], m[7]) == rect.y
            &&& bytes::be16_value(m[8], m[9]) == rect.width
            &&& bytes::be16_value(m[10], m[11]) == rect.height
            &&& bytes::be32_value(m[12], m[13], m[14], m[15]) == 0
            &&& m.subrange(16, m.len() as int) == rest
            &&& announces(m, rect)
            &&& m.skip(16) == rest
        }),
{
    let m = update_header(rect) + rest;
    bytes::law_be16_round_trip(rect.x, 0, 0);
    bytes::law_be16_round_trip(rect.y, 0, 0);
    bytes::law_be16_round_trip(rect.width, 0, 0);
    bytes::law_be16_round_trip(rect.height, 0, 0);
    assert(m.subrange(16, m.len() as int) =~= rest);
    assert(m.skip(16) =~= rest);
}

/// An update message, read by the protocol, has one raw rectangle: the one that
/// it was made for, followed by the bytes that encode it and nothing else.
pub proof fn law_update_message(bgra: Seq<u8>, width: int, rect: Rect, fmt: VncPixelFormat)
    ensures
        ({
            let m = update_message(bgra, width, rect, fmt);
            &&& m[0] == 0 && m[1] == 0
            &&& m[2] * 256 + m[3] == 1
            &&& m[4] * 256 + m[5] == rect.x
            &&& m[6] * 256 + m[7] == rect.y
            &&& m[8] * 256 + m[9] == rect.width
            &&& m[10] * 256 + m[11] == rect.height
            &&& ((m[12] * 256 + m[13]) * 256 + m[14]) * 256 + m[15] == 0
            &&& announces(m, rect)
            &&& announced(m) == rect
            &&& m.len() == 16 + fmt.encoded_rect(bgra, width, rect).len()
            &&& m.skip(16) == fmt.encoded_rect(bgra, width, rect)
        }),
{
    law_header_is_readable(rect, fmt.encoded_rect(bgra, width, rect));
}

/// An update message without rectangles is four zeros: its type, a byte that
/// counts for nothing, and how many rectangles follow.
pub proof fn law_empty_update()
    ensures
        empty_update() == seq![0u8, 0u8, 0u8, 0u8],
{
    assert(empty_update() =~= seq![0u8, 0u8, 0u8, 0u8]);
}

/// A client sees the frame's colours where an update message says: in every
/// format that separates colours, the bytes that follow for a pixel of the
/// rectangle that the message announces hold the red, the green and the blue of
/// that pixel of the frame.
pub proof fn law_message_colours(
    bgra: Seq<u8>,
    width: int,
    rect: Rect,
    fmt: VncPixelFormat,
    x: int,
    y: int,
)
    requires
        0 <= width,
        pixel::rect_in_frame(bgra.len() as int, width, rect),
        fmt.separates_colours(),
        rect.contains(x, y),
    ensures
        ({
            let m = update_message(bgra, width, rect, fmt);
            let seen = announced(m);
            let n = if fmt.bpp < 8 {
                1
            } else {
                fmt.bpp as int / 8
            };
            let at = 16 + ((y - seen.y) * seen.width + (x - seen.x)) * n;
            let from = (y * width + x) * 4;
            let v = fmt.read_value(m.subrange(at, at + n));
            &&& seen.contains(x, y)
            &&& m.len() == 16 + seen.width * seen.height * n
            &&& 0 <= v <= u32::MAX
            &&& ((v as u32) >> fmt.r_shift) & (fmt.r_max as u32) == (bgra[from + 2] * fmt.r_max)
                / 255
            &&& ((v as u32) >> fmt.g_shift) & (fmt.g_max as u32) == (bgra[from + 1] * fmt.g_max)
                / 255
            &&& ((v as u32) >> fmt.b_shift) & (fmt.b_max as u32) == (bgra[from] * fmt.b_max) / 255
        }),
{
    let m = update_message(bgra, width, rect, fmt);
    let encoded = fmt.encoded_rect(bgra, width, rect);
    let n = fmt.bytes_per_pixel();
    let i = x - rect.x;
    let j = y - rect.y;
    let p = (j * rect.width + i) * n;
    law_update_message(bgra, width, rect, fmt);
    pixel::law_encoded_len(fmt, bgra, width, rect);
    pixel::law_encoded_pixels(fmt, bgra, width, rect, i, j);
    pixel::law_colours_of_frame(fmt, bgra, width, rect, i, j);
    assert(m.subrange(16 + p, 16 + p + n) =~= encoded.subrange(p, p + n)) by {
        assert forall|k: int| 0 <= k < n implies #[trigger] m.subrange(16 + p, 16 + p + n)[k]
            == encoded.subrange(p, p + n)[k] by {
            assert(m.skip(16)[p + k] == m[16 + p + k]);
        }
    }
}

/// A request that is taken up asks for what the client asked for: it is
/// incremental exactly if the client's is, and its rectangle holds exactly the
/// pixels of the client's that are on the screen. One is taken up exactly if
/// there is such a pixel.
pub proof fn law_accept(session: UpdateSession, request: UpdateRequest, x: int, y: int)
    ensures
        match session.clipped(request) {
            None => !(request.rect.contains(x, y) && x < session.width && y < session.height),
            Some(taken) => {
                &&& taken.incremental == request.incremental
                &&& taken.rect.width > 0 && taken.rect.height > 0
                &&& taken.rect.within(session.width as int, session.height as int)
                &&& taken.rect.contains(x, y) <==> request.rect.contains(x, y) && x < session.width
                    && y < session.height
                &&& request.rect.contains(taken.rect.x as int, taken.rect.y as int)
            },
        },
{
    let full = Rect::spec_full(session.width, session.height);
    crate::rect::law_full_pixels(session.width, session.height, x, y);
    crate::rect::law_intersect_shape(
        request.rect,
        full,
        session.width as int,
        session.height as int,
    );
    if x < session.width && y < session.height {
        crate::rect::law_intersect_pixels(request.rect, full, x, y);
    }
}

/// What polling does. A full request is answered at once, with its rectangle.
/// An incremental one waits while the frame has nothing to tell, and is answered
/// with the pixels that are both damaged and asked for as soon as there are any.
/// The client's knowledge is then that of the frame, and the size of the screen
/// stays.
pub proof fn law_poll(session: UpdateSession, frame: FrameState, x: int, y: int)
    requires
        session.active is Some,
        x < u16::MAX,
        y < u16::MAX,
    ensures
        ({
            let asked = session.active->0;
            let (after, sent) = session.polled(frame);
            &&& after.width == session.width && after.height == session.height
            &&& after.active == if sent is Some {
                None
            } else {
                session.active
            }
            &&& !asked.incremental ==> sent == Some(asked.rect) && after.last_seq == frame.seq
            &&& asked.incremental ==> match frame.damage_since(session.last_seq) {
                None => sent is None && after.last_seq == session.last_seq,
                Some(None) => sent is None && after.last_seq == frame.seq,
                Some(Some(damaged)) => {
                    &&& after.last_seq == frame.seq
                    &&& damaged.contains(x, y) && asked.rect.contains(x, y) <==> (
                    sent matches Some(r) && r.contains(x, y))
                    &&& sent matches Some(r) ==> r.width > 0 && r.height > 0 && r.within(
                        u16::MAX as int,
                        u16::MAX as int,
                    )
                },
            }
        }),
{
    let asked = session.active->0;
    if let Some(Some(damaged)) = frame.damage_since(session.last_seq) {
        crate::rect::law_intersect_pixels(damaged, asked.rect, x, y);
        crate::rect::law_intersect_shape(damaged, asked.rect, 0, 0);
    }
}

/// A client that has seen the latest publication is not sent anything for an
/// incremental request, which stays to be answered.
pub proof fn law_nothing_new(session: UpdateSession, frame: FrameState)
    requires
        session.active matches Some(request) && request.incremental,
        frame.seq == session.last_seq,
    ensures
        session.polled(frame) == (session, None::<Rect>),
{
}

/// What is sent is part of what was asked for, and of the screen.
pub proof fn law_sent_is_asked_for(
    session: UpdateSession,
    request: UpdateRequest,
    frame: FrameState,
    x: int,
    y: int,
)
    requires
        session.clipped(request) is Some,
    ensures
        ({
            let active = UpdateSession { active: session.clipped(request), ..session };
            active.polled(frame).1 matches Some(r) ==> {
                &&& !r.spec_is_empty()
                &&& r.within(session.width as int, session.height as int)
                &&& r.contains(x, y) ==> request.rect.contains(x, y)
            }
        }),
{
    let full = Rect::spec_full(session.width, session.height);
    crate::rect::law_intersect_shape(
        request.rect,
        full,
        session.width as int,
        session.height as int,
    );
    let asked = session.clipped(request)->0.rect;
    if let Some(Some(damaged)) = frame.damage_since(session.last_seq) {
        crate::rect::law_intersect_shape(
            damaged,
            asked,
            session.width as int,
            session.height as int,
        );
    }
}

/// The column and the row of a byte of a picture.
proof fn lemma_byte_position(width: int, x: int, y: int, k: int)
    requires
        0 <= x < width,
        0 <= y,
        0 <= k < 4,
    ensures
        ({
            let at = damage::pixel_offset(width, x, y) + k;
            &&& at / 4 == y * width + x
            &&& at % 4 == k
            &&& (at / 4) % width == x
            &&& (at / 4) / width == y
        }),
{
    let at = damage::pixel_offset(width, x, y) + k;
    assert(at / 4 == y * width + x);
    vstd::arithmetic::div_mod::lemma_fundamental_div_mod_converse(y * width + x, width, y, x);
}

/// A client that paints what an update message holds, where the message says,
/// shows the frame in the rectangle that the message was made for, and what it
/// showed before everywhere else.
pub proof fn law_painting(
    canvas: Seq<u8>,
    frame: Seq<u8>,
    width: u16,
    height: u16,
    rect: Rect,
    x: int,
    y: int,
)
    requires
        canvas.len() == damage::frame_len(width as int, height as int),
        frame.len() == damage::frame_len(width as int, height as int),
        rect.within(width as int, height as int),
        0 <= x < width,
        0 <= y < height,
    ensures
        damage::pixel_at(shown(canvas, width as int, Some(rect), frame), width as int, x, y)
            == damage::pixel_at(
            if rect.contains(x, y) {
                frame
            } else {
                canvas
            },
            width as int,
            x,
            y,
        ),
{
    let w = width as int;
    let native = VncPixelFormat::spec_native();
    let pixels = native.encoded_rect(frame, w, rect);
    let result = painted(canvas, w, rect, pixels);
    law_update_message(frame, w, rect, native);
    let source = if rect.contains(x, y) {
        frame
    } else {
        canvas
    };
    let at = damage::pixel_offset(w, x, y);
    damage::lemma_pixel_offset(w, height as int, x, y);
    if rect.contains(x, y) {
        let i = x - rect.x;
        let j = y - rect.y;
        lemma_rect_in_frame(frame.len() as int, width, height, rect);
        pixel::law_encoded_pixels(native, frame, w, rect, i, j);
        let p = (j * rect.width + i) * 4;
        assert(pixels.subrange(p, p + 4) == frame.subrange(at, at + 4));
        assert forall|k: int| 0 <= k < 4 implies #[trigger] result[at + k] == frame[at + k] by {
            lemma_byte_position(w, x, y, k);
            assert(pixels[p + k] == pixels.subrange(p, p + 4)[k]);
            assert(frame[at + k] == frame.subrange(at, at + 4)[k]);
        }
    } else {
        assert forall|k: int| 0 <= k < 4 implies #[trigger] result[at + k] == canvas[at + k] by {
            lemma_byte_position(w, x, y, k);
        }
    }
    assert(result[at + 0] == source[at + 0]);
    assert(result[at + 1] == source[at + 1]);
    assert(result[at + 2] == source[at + 2]);
    assert(result[at + 3] == source[at + 3]);
    assert(result.subrange(at, at + 4) =~= source.subrange(at, at + 4));
}

/// A rectangle on the screen lies in a frame of the screen's size.
proof fn lemma_rect_in_frame(len: int, width: u16, height: u16, rect: Rect)
    requires
        len == damage::frame_len(width as int, height as int),
        rect.within(width as int, height as int),
    ensures
        pixel::rect_in_frame(len, width as int, rect),
{
    if rect.height > 0 {
        let last = rect.y + rect.height - 1;
        assert(last * width + width <= width * height) by (nonlinear_arith)
            requires
                0 <= last < height,
                0 <= width,
        ;
    }
}

/// A full update brings a client up to date: whatever it showed before, it is
/// sent something at once, and then shows the latest frame at every pixel of the
/// screen that it asked for.
pub proof fn law_full_update(
    canvas: Seq<u8>,
    session: UpdateSession,
    request: UpdateRequest,
    frame: FrameState,
    x: int,
    y: int,
)
    requires
        !request.incremental,
        request.rect.contains(x, y),
        x < session.width,
        y < session.height,
        canvas.len() == damage::frame_len(session.width as int, session.height as int),
        frame.data.len() == damage::frame_len(session.width as int, session.height as int),
    ensures
        ({
            let taken = UpdateSession { active: session.clipped(request), ..session };
            let (after, sent) = taken.polled(frame);
            let result = shown(canvas, session.width as int, sent, frame.data);
            &&& session.clipped(request) is Some
            &&& sent matches Some(r) && r.contains(x, y)
            &&& damage::pixel_at(result, session.width as int, x, y) == damage::pixel_at(
                frame.data,
                session.width as int,
                x,
                y,
            )
            &&& agree(
                result,
                frame.data,
                session.width as int,
                session.clipped(request)->0.rect,
            )
            &&& after == UpdateSession { last_seq: frame.seq, active: None, ..session }
        }),
{
    let w = session.width as int;
    let rect = session.clipped(request)->0.rect;
    let result = shown(canvas, w, Some(rect), frame.data);
    law_accept(session, request, x, y);
    assert forall|i: int, j: int| rect.contains(i, j) implies #[trigger] damage::pixel_at(
        result,
        w,
        i,
        j,
    ) == damage::pixel_at(frame.data, w, i, j) by {
        law_painting(canvas, frame.data, session.width, session.height, rect, i, j);
    }
}

/// A change where the client asked is not waited over: a pixel of the screen
/// that it asked for and that differs from the publication that it knows is part
/// of what is sent.
pub proof fn law_change_is_sent(
    session: UpdateSession,
    request: UpdateRequest,
    frames: Seq<Seq<u8>>,
    x: int,
    y: int,
)
    requires
        request.rect.contains(x, y),
        x < session.width,
        y < session.height,
        session.last_seq <= frames.len() <= u64::MAX,
        frame::frame_at(session.width, session.height, frames, session.last_seq as int).len()
            == damage::frame_len(session.width as int, session.height as int),
        damage::pixel_changed(
            frame::frame_at(session.width, session.height, frames, session.last_seq as int),
            frame::frame_at(session.width, session.height, frames, frames.len() as int),
            session.width as int,
            x,
            y,
        ),
    ensures
        ({
            let taken = UpdateSession { active: session.clipped(request), ..session };
            let state = frame::published(session.width, session.height, frames);
            let (after, sent) = taken.polled(state);
            &&& session.clipped(request) is Some
            &&& sent matches Some(r) && r.contains(x, y)
            &&& after == UpdateSession { last_seq: frames.len() as u64, active: None, ..session }
        }),
{
    let state = frame::published(session.width, session.height, frames);
    let taken = UpdateSession { active: session.clipped(request), ..session };
    law_accept(session, request, x, y);
    frame::law_history(session.width, session.height, frames);
    frame::law_damage_since_covers(
        session.width,
        session.height,
        frames,
        session.last_seq,
        x,
        y,
    );
    law_poll(taken, state, x, y);
}

/// Incremental updates keep a client up to date: at a pixel of the screen that
/// it asks for and where it shows the publication that it knows, it shows the
/// latest one once it has been sent the damage, or without being sent anything
/// where there is none.
pub proof fn law_incremental_update(
    canvas: Seq<u8>,
    session: UpdateSession,
    request: UpdateRequest,
    frames: Seq<Seq<u8>>,
    x: int,
    y: int,
)
    requires
        request.rect.contains(x, y),
        x < session.width,
        y < session.height,
        session.last_seq <= frames.len() <= u64::MAX,
        canvas.len() == damage::frame_len(session.width as int, session.height as int),
        frame::frame_at(session.width, session.height, frames, session.last_seq as int).len()
            == damage::frame_len(session.width as int, session.height as int),
        frame::frame_at(session.width, session.height, frames, frames.len() as int).len()
            == damage::frame_len(session.width as int, session.height as int),
        damage::pixel_at(canvas, session.width as int, x, y) == damage::pixel_at(
            frame::frame_at(session.width, session.height, frames, session.last_seq as int),
            session.width as int,
            x,
            y,
        ),
    ensures
        ({
            let taken = UpdateSession { active: session.clipped(request), ..session };
            let state = frame::published(session.width, session.height, frames);
            let (after, sent) = taken.polled(state);
            let result = shown(canvas, session.width as int, sent, state.data);
            &&& damage::pixel_at(result, session.width as int, x, y) == damage::pixel_at(
                frame::frame_at(session.width, session.height, frames, frames.len() as int),
                session.width as int,
                x,
                y,
            )
            &&& after.last_seq == frames.len()
            &&& sent is None ==> after.active == taken.active
        }),
{
    let width = session.width;
    let height = session.height;
    let w = width as int;
    let known = frame::frame_at(width, height, frames, session.last_seq as int);
    let state = frame::published(width, height, frames);
    let taken = UpdateSession { active: session.clipped(request), ..session };
    let (after, sent) = taken.polled(state);
    law_accept(session, request, x, y);
    let asked = taken.active->0.rect;
    frame::law_history(width, height, frames);
    frame::law_damage_since_shape(width, height, frames, session.last_seq);
    if let Some(Some(damaged)) = state.damage_since(session.last_seq) {
        crate::rect::law_intersect_shape(damaged, asked, w, height as int);
    }
    if damage::pixel_changed(known, state.data, w, x, y) {
        law_change_is_sent(session, request, frames, x, y);
    }
    if let Some(r) = sent {
        law_painting(canvas, state.data, width, height, r, x, y);
    }
}

} // verus!
