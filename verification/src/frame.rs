//! The frame that a renderer publishes and clients are served from, with the
//! history of what each publication changed.
use std::collections::VecDeque;
use vstd::prelude::*;

use crate::damage;
use crate::rect::Rect;

verus! {

/// How many publications the damage history goes back.
pub const DAMAGE_HISTORY_LIMIT: usize = 128;

/// What one publication changed: its number, and the rectangle that differs
/// from the frame before, if any pixel does.
#[derive(Clone, Copy, Debug, PartialEq, Eq)]
pub struct FrameDamage {
    pub seq: u64,
    pub rect: Option<Rect>,
}

/// The contents of a [`SharedFrame`].
#[verifier::ext_equal]
pub struct FrameState {
    pub width: u16,
    pub height: u16,
    pub data: Seq<u8>,
    pub seq: u64,
    pub damages: Seq<FrameDamage>,
}

/// The end of a sequence that is left when it is cut down to its last `limit`
/// elements.
pub open spec fn last_of<T>(s: Seq<T>, limit: int) -> Seq<T> {
    if s.len() > limit {
        s.subrange(s.len() - limit, s.len() as int)
    } else {
        s
    }
}

/// One more rectangle, if there is one, taken into a union of rectangles.
pub open spec fn joined(acc: Option<Rect>, rect: Option<Rect>) -> Option<Rect> {
    match (acc, rect) {
        (Some(a), Some(r)) => Some(a.spec_union(r)),
        (None, Some(r)) => Some(r),
        (_, None) => acc,
    }
}

/// The union, in order, of the rectangles of those publications that came
/// after number `last_seq`.
pub open spec fn merged_damage(damages: Seq<FrameDamage>, last_seq: u64) -> Option<Rect>
    decreases damages.len(),
{
    if damages.len() == 0 {
        None
    } else {
        let acc = merged_damage(damages.drop_last(), last_seq);
        if damages.last().seq > last_seq {
            joined(acc, damages.last().rect)
        } else {
            acc
        }
    }
}

impl FrameState {
    /// A black frame that nothing was published to.
    pub open spec fn blank(width: u16, height: u16) -> FrameState {
        FrameState {
            width,
            height,
            data: Seq::new(
                damage::frame_len(width as int, height as int) as nat,
                |i: int| 0u8,
            ),
            seq: 0,
            damages: Seq::empty(),
        }
    }

    /// The number that the next publication gets. After the last 64-bit number
    /// comes zero.
    pub open spec fn next_seq(self) -> u64 {
        if self.seq == u64::MAX {
            0
        } else {
            (self.seq + 1) as u64
        }
    }

    /// The state after `frame` is published.
    pub open spec fn publish(self, frame: Seq<u8>) -> FrameState {
        let rect = damage::damage_rect(
            self.data,
            frame,
            self.width as int,
            self.height as int,
        );
        FrameState {
            data: frame,
            seq: self.next_seq(),
            damages: last_of(
                self.damages.push(FrameDamage { seq: self.next_seq(), rect }),
                DAMAGE_HISTORY_LIMIT as int,
            ),
            ..self
        }
    }

    /// Whether a whole frame fits in memory, and the damage history in its
    /// limit.
    pub open spec fn wf(self) -> bool {
        &&& damage::frame_len(self.width as int, self.height as int) <= isize::MAX
        &&& self.damages.len() <= DAMAGE_HISTORY_LIMIT
    }

    /// What a client that knows publication `last_seq` has missed: the outer
    /// `None` where the history is empty although there was a newer
    /// publication, the inner `None` where nothing differs, the whole screen
    /// where the history does not go back far enough.
    pub open spec fn damage_since(self, last_seq: u64) -> Option<Option<Rect>> {
        if self.seq <= last_seq {
            Some(None)
        } else if self.damages.len() == 0 {
            None
        } else if last_seq < self.damages[0].seq - 1 {
            Some(Some(Rect::spec_full(self.width, self.height)))
        } else {
            Some(merged_damage(self.damages, last_seq))
        }
    }
}

/// The latest rendered frame. Its pixels are top-down rows of four bytes each:
/// blue, green, red and one that is not shown.
pub struct SharedFrame {
    width: u16,
    height: u16,
    data: Vec<u8>,
    seq: u64,
    damages: VecDeque<FrameDamage>,
}

impl View for SharedFrame {
    type V = FrameState;

    closed spec fn view(&self) -> FrameState {
        FrameState {
            width: self.width,
            height: self.height,
            data: self.data@,
            seq: self.seq,
            damages: self.damages@,
        }
    }
}

impl SharedFrame {
    /// A black frame of the given size, which has to fit in memory.
    pub fn new(width: u16, height: u16) -> (r: Self)
        requires
            damage::frame_len(width as int, height as int) <= isize::MAX,
        ensures
            r@ == FrameState::blank(width, height),
            r@.wf(),
    {
        assert(width * height <= width * height * 4);
        let data: Vec<u8> = vec![0u8; width as usize * height as usize * 4];
        let r = SharedFrame { width, height, data, seq: 0, damages: VecDeque::new() };
        assert(r@ =~= FrameState::blank(width, height));
        r
    }

    /// Makes `frame` the current one, numbers the publication and records what
    /// it changed. A frame of another size than the screen's is taken as it
    /// is, and damages the whole screen.
    pub fn publish(&mut self, frame: &[u8])
        requires
            old(self)@.wf(),
        ensures
            final(self)@ == old(self)@.publish(frame@),
            final(self)@.wf(),
    {
        let rect: Option<Rect> = damage::compute_damage_rect(
            self.data.as_slice(),
            frame,
            self.width as usize,
            self.height as usize,
        );
        self.data.clear();
        self.data.extend_from_slice(frame);
        assert(self.data@ =~= frame@);
        self.seq = self.seq.wrapping_add(1);
        let seq: u64 = self.seq;
        self.damages.push_back(FrameDamage { seq, rect });
        let ghost pushed = self.damages@;
        while self.damages.len() > DAMAGE_HISTORY_LIMIT
            invariant
                self.data@ == frame@,
                self.width == old(self).width,
                self.height == old(self).height,
                self.seq == seq,
                self.damages@.len() <= pushed.len(),
                self.damages@ == pushed.subrange(
                    pushed.len() - self.damages@.len(),
                    pushed.len() as int,
                ),
                pushed.len() >= DAMAGE_HISTORY_LIMIT ==> self.damages@.len()
                    >= DAMAGE_HISTORY_LIMIT,
                pushed.len() < DAMAGE_HISTORY_LIMIT ==> self.damages@.len() == pushed.len(),
            decreases self.damages@.len(),
        {
            self.damages.pop_front();
        }
        assert(self.damages@ =~= last_of(pushed, DAMAGE_HISTORY_LIMIT as int));
        assert(self@ =~= old(self)@.publish(frame@));
    }

    /// The number of columns of the screen.
    pub fn width(&self) -> (r: u16)
        ensures
            r == self@.width,
    {
        self.width
    }

    /// The number of rows of the screen.
    pub fn height(&self) -> (r: u16)
        ensures
            r == self@.height,
    {
        self.height
    }

    /// The number of the latest publication.
    pub fn seq(&self) -> (r: u64)
        ensures
            r == self@.seq,
    {
        self.seq
    }

    /// The bytes of the latest frame.
    pub fn data(&self) -> (r: &[u8])
        ensures
            r@ == self@.data,
    {
        self.data.as_slice()
    }
}

/// What a client that knows publication `last_seq` has missed.
pub fn damage_since(frame: &SharedFrame, last_seq: u64) -> (r: Option<Option<Rect>>)
    ensures
        r == frame@.damage_since(last_seq),
{
    if frame.seq <= last_seq {
        return Some(None);
    }
    let n: usize = frame.damages.len();
    if n == 0 {
        return None;
    }
    let first_seq: u64 = frame.damages[0].seq;
    if last_seq < first_seq.saturating_sub(1) {
        return Some(Some(Rect::full(frame.width, frame.height)));
    }
    let ghost damages = frame.damages@;
    let mut merged: Option<Rect> = None;
    let mut i: usize = 0;
    while i < n
        invariant
            i <= n,
            n == damages.len(),
            damages == frame.damages@,
            merged == merged_damage(damages.take(i as int), last_seq),
        decreases n - i,
    {
        assert(damages.take(i + 1).drop_last() =~= damages.take(i as int));
        let entry: FrameDamage = frame.damages[i];
        if entry.seq > last_seq {
            if let Some(rect) = entry.rect {
                merged = match merged {
                    Some(acc) => Some(acc.union(rect)),
                    None => Some(rect),
                };
            }
        }
        i = i + 1;
    }
    assert(damages.take(n as int) =~= damages);
    Some(merged)
}

/// The state of a new frame after each of `frames` was published in turn.
pub open spec fn published(width: u16, height: u16, frames: Seq<Seq<u8>>) -> FrameState
    decreases frames.len(),
{
    if frames.len() == 0 {
        FrameState::blank(width, height)
    } else {
        published(width, height, frames.drop_last()).publish(frames.last())
    }
}

/// The frame that was current once `k` of `frames` were published.
pub open spec fn frame_at(width: u16, height: u16, frames: Seq<Seq<u8>>, k: int) -> Seq<u8> {
    if k == 0 {
        FrameState::blank(width, height).data
    } else {
        frames[k - 1]
    }
}

/// What publication `k` changed.
pub open spec fn damage_of(width: u16, height: u16, frames: Seq<Seq<u8>>, k: int) -> Option<Rect> {
    damage::damage_rect(
        frame_at(width, height, frames, k - 1),
        frame_at(width, height, frames, k),
        width as int,
        height as int,
    )
}

/// As long as the numbers do not run out, publications are numbered from one
/// on, the frame holds the last one, and the history holds what each of the
/// latest publications changed, in order and with none left out.
pub proof fn law_history(width: u16, height: u16, frames: Seq<Seq<u8>>)
    requires
        frames.len() <= u64::MAX,
    ensures
        ({
            let state = published(width, height, frames);
            let kept = state.damages.len();
            &&& state.width == width && state.height == height
            &&& state.seq == frames.len()
            &&& state.data == frame_at(width, height, frames, frames.len() as int)
            &&& kept == if frames.len() < 128 {
                frames.len() as int
            } else {
                128
            }
            &&& forall|i: int|
                0 <= i < kept ==> (#[trigger] state.damages[i]).seq == frames.len() - kept + 1 + i
            &&& forall|i: int|
                0 <= i < kept ==> (#[trigger] state.damages[i]).rect == damage_of(
                    width,
                    height,
                    frames,
                    frames.len() - kept + 1 + i,
                )
        }),
    decreases frames.len(),
{
    if frames.len() > 0 {
        let earlier = frames.drop_last();
        law_history(width, height, earlier);
        let before = published(width, height, earlier);
        let state = published(width, height, frames);
        let n = frames.len() as int;
        assert forall|k: int| 0 <= k < n implies frame_at(width, height, frames, k) == frame_at(
            width,
            height,
            earlier,
            k,
        ) by {}
        assert(state.damages.len() > 0);
        assert(state.damages.last().seq == n);
        assert(state.damages.last().rect == damage_of(width, height, frames, n));
        let kept = state.damages.len() as int;
        assert forall|i: int| 0 <= i < kept - 1 implies {
            &&& (#[trigger] state.damages[i]).seq == n - kept + 1 + i
            &&& state.damages[i].rect == damage_of(width, height, frames, n - kept + 1 + i)
        } by {
            let j = i + before.damages.len() + 1 - kept;
            assert(state.damages[i] == before.damages[j]);
            let k = n - kept + 1 + i;
            assert(frame_at(width, height, frames, k) == frame_at(width, height, earlier, k));
            assert(frame_at(width, height, frames, k - 1) == frame_at(
                width,
                height,
                earlier,
                k - 1,
            ));
        }
    }
}

/// The union of the damage since a publication holds every pixel of each
/// rectangle in it.
proof fn lemma_merged_covers(damages: Seq<FrameDamage>, last_seq: u64, i: int, x: int, y: int)
    requires
        0 <= i < damages.len(),
        damages[i].seq > last_seq,
        damages[i].rect matches Some(r) && r.contains(x, y),
        x < u16::MAX,
        y < u16::MAX,
    ensures
        merged_damage(damages, last_seq) matches Some(r) && r.contains(x, y),
    decreases damages.len(),
{
    let acc = merged_damage(damages.drop_last(), last_seq);
    if i < damages.len() - 1 {
        lemma_merged_covers(damages.drop_last(), last_seq, i, x, y);
    }
    if let (Some(a), Some(r)) = (acc, damages.last().rect) {
        if a.contains(x, y) || r.contains(x, y) {
            crate::rect::law_union_covers(a, r, x, y);
        }
    }
}

/// The union of rectangles on the screen is on the screen.
proof fn lemma_merged_within(damages: Seq<FrameDamage>, last_seq: u64, width: u16, height: u16)
    requires
        forall|i: int|
            0 <= i < damages.len() ==> ((#[trigger] damages[i]).rect matches Some(r) ==> r.within(
                width as int,
                height as int,
            )),
    ensures
        merged_damage(damages, last_seq) matches Some(r) ==> r.within(width as int, height as int),
    decreases damages.len(),
{
    if damages.len() > 0 {
        lemma_merged_within(damages.drop_last(), last_seq, width, height);
        let acc = merged_damage(damages.drop_last(), last_seq);
        assert(damages[damages.len() - 1] == damages.last());
        if let (Some(a), Some(r)) = (acc, damages.last().rect) {
            crate::rect::law_union_within(a, r, width as int, height as int);
        }
    }
}

/// A pixel that differs between two publications was damaged by one in
/// between.
proof fn lemma_some_publication_damages(
    width: u16,
    height: u16,
    frames: Seq<Seq<u8>>,
    known: int,
    x: int,
    y: int,
) -> (k: int)
    requires
        0 <= known <= frames.len(),
        0 <= x < width,
        0 <= y < height,
        frame_at(width, height, frames, known).len() == damage::frame_len(
            width as int,
            height as int,
        ),
        damage::pixel_changed(
            frame_at(width, height, frames, known),
            frame_at(width, height, frames, frames.len() as int),
            width as int,
            x,
            y,
        ),
    ensures
        known < k <= frames.len(),
        damage_of(width, height, frames, k) matches Some(r) && r.contains(x, y),
    decreases frames.len() - known,
{
    let w = width as int;
    let now = frame_at(width, height, frames, known);
    let next = frame_at(width, height, frames, known + 1);
    if next.len() != damage::frame_len(w, height as int) || damage::pixel_changed(
        now,
        next,
        w,
        x,
        y,
    ) {
        damage::law_damage_covers(now, next, width, height, x, y);
        known + 1
    } else {
        lemma_some_publication_damages(width, height, frames, known + 1, x, y)
    }
}

/// Nothing that changed is missed: every pixel that differs between the frame
/// that a client knows and the latest one lies in the damage since then.
pub proof fn law_damage_since_covers(
    width: u16,
    height: u16,
    frames: Seq<Seq<u8>>,
    known: u64,
    x: int,
    y: int,
)
    requires
        known <= frames.len() <= u64::MAX,
        0 <= x < width,
        0 <= y < height,
        frame_at(width, height, frames, known as int).len() == damage::frame_len(
            width as int,
            height as int,
        ),
        damage::pixel_changed(
            frame_at(width, height, frames, known as int),
            frame_at(width, height, frames, frames.len() as int),
            width as int,
            x,
            y,
        ),
    ensures
        published(width, height, frames).damage_since(known) matches Some(Some(r)) && r.contains(
            x,
            y,
        ),
{
    law_history(width, height, frames);
    let state = published(width, height, frames);
    let n = frames.len() as int;
    let kept = state.damages.len() as int;
    let k = lemma_some_publication_damages(width, height, frames, known as int, x, y);
    assert(state.damages[0].seq == n - kept + 1);
    if known >= n - kept {
        let i = k - (n - kept + 1);
        assert(state.damages[i].seq == k);
        lemma_merged_covers(state.damages, known, i, x, y);
    }
}

/// The damage since a publication is always known, lies on the screen, and is
/// none where nothing was published since.
pub proof fn law_damage_since_shape(
    width: u16,
    height: u16,
    frames: Seq<Seq<u8>>,
    known: u64,
)
    requires
        frames.len() <= u64::MAX,
    ensures
        published(width, height, frames).damage_since(known) matches Some(d) && {
            &&& d matches Some(r) ==> r.within(width as int, height as int)
            &&& known >= frames.len() ==> d is None
        },
{
    law_history(width, height, frames);
    let state = published(width, height, frames);
    let n = frames.len() as int;
    let kept = state.damages.len() as int;
    assert forall|i: int| 0 <= i < kept implies ((#[trigger] state.damages[i]).rect matches Some(
        r,
    ) ==> r.within(width as int, height as int)) by {
        let k = n - kept + 1 + i;
        damage::law_damage_is_tight(
            frame_at(width, height, frames, k - 1),
            frame_at(width, height, frames, k),
            width,
            height,
        );
    }
    lemma_merged_within(state.damages, known, width, height);
}

/// Publications that a client knows do not count.
proof fn lemma_known_damage_is_left_out(damages: Seq<FrameDamage>, last_seq: u64)
    requires
        forall|i: int| 0 <= i < damages.len() ==> (#[trigger] damages[i]).seq <= last_seq,
    ensures
        merged_damage(damages, last_seq) is None,
    decreases damages.len(),
{
    if damages.len() > 0 {
        lemma_known_damage_is_left_out(damages.drop_last(), last_seq);
        assert(damages[damages.len() - 1] == damages.last());
    }
}

/// A client that missed one publication is owed what that one changed, and no
/// more.
pub proof fn law_latest_damage(width: u16, height: u16, frames: Seq<Seq<u8>>)
    requires
        0 < frames.len() <= u64::MAX,
    ensures
        published(width, height, frames).damage_since((frames.len() - 1) as u64) == Some(
            damage_of(width, height, frames, frames.len() as int),
        ),
{
    law_history(width, height, frames);
    let damages = published(width, height, frames).damages;
    let last_seq = (frames.len() - 1) as u64;
    assert(damages[0].seq == frames.len() - damages.len() + 1);
    assert(damages[damages.len() - 1] == damages.last());
    assert forall|i: int| 0 <= i < damages.len() - 1 implies (#[trigger] damages.drop_last()[i]).seq
        <= last_seq by {
        assert(damages.drop_last()[i] == damages[i]);
    }
    lemma_known_damage_is_left_out(damages.drop_last(), last_seq);
}

/// A new frame is black: as many zero bytes as its pixels take, numbered zero,
/// with nothing published to it.
pub proof fn law_new_frame(width: u16, height: u16)
    ensures
        ({
            let state = FrameState::blank(width, height);
            &&& state.width == width && state.height == height
            &&& state.data.len() == width * height * 4
            &&& forall|k: int| 0 <= k < state.data.len() ==> #[trigger] state.data[k] == 0
            &&& state.seq == 0
            &&& state.damages.len() == 0
        }),
{
    assert(0 <= width * height * 4) by (nonlinear_arith);
}

/// Publishing replaces the frame and nothing of the screen, takes the next
/// number, and adds one entry to the end of the history. The entries before it
/// stay as they are, but for the oldest where there were 128.
pub proof fn law_publish(state: FrameState, frame: Seq<u8>)
    requires
        state.damages.len() <= 128,
    ensures
        ({
            let next = state.publish(frame);
            let kept = next.damages.len();
            let dropped = state.damages.len() + 1 - kept;
            &&& next.width == state.width && next.height == state.height
            &&& next.data == frame
            &&& next.seq == if state.seq == u64::MAX {
                0
            } else {
                state.seq + 1
            }
            &&& dropped == if state.damages.len() == 128 {
                1int
            } else {
                0int
            }
            &&& next.damages[kept - 1].seq == next.seq
            &&& next.damages[kept - 1].rect == damage::damage_rect(
                state.data,
                frame,
                state.width as int,
                state.height as int,
            )
            &&& forall|i: int|
                0 <= i < kept - 1 ==> #[trigger] next.damages[i] == state.damages[i + dropped]
        }),
{
}

/// Whether a rectangle holds what every publication after number `known` in a
/// history damaged.
pub open spec fn holds_damage(damages: Seq<FrameDamage>, known: u64, c: Rect) -> bool {
    forall|i: int|
        0 <= i < damages.len() && (#[trigger] damages[i]).seq > known ==> (damages[i].rect matches Some(
            r,
        ) ==> c.holds(r))
}

/// The union of the damage since a publication lies in every rectangle that
/// holds each part of it, and there is one exactly if there is a part.
proof fn lemma_merged_least(damages: Seq<FrameDamage>, known: u64, c: Rect)
    ensures
        holds_damage(damages, known, c) ==> (merged_damage(damages, known) matches Some(r)
            ==> c.holds(r)),
        merged_damage(damages, known) is None <==> forall|i: int|
            0 <= i < damages.len() && (#[trigger] damages[i]).seq > known ==> damages[i].rect
                is None,
    decreases damages.len(),
{
    if damages.len() > 0 {
        let earlier = damages.drop_last();
        let last = damages[damages.len() - 1];
        lemma_merged_least(earlier, known, c);
        assert(last == damages.last());
        assert forall|i: int| 0 <= i < earlier.len() implies #[trigger] earlier[i]
            == damages[i] by {}
        assert forall|i: int| 0 <= i < damages.len() - 1 implies #[trigger] damages[i]
            == earlier[i] by {}
        if holds_damage(damages, known, c) {
            assert(holds_damage(earlier, known, c));
            if last.seq > known {
                if let (Some(a), Some(r)) = (merged_damage(earlier, known), last.rect) {
                    assert(c.holds(a) && c.holds(r));
                    if !a.spec_is_empty() && !r.spec_is_empty() {
                        assert forall|x: int, y: int| a.spec_union(r).contains(x, y) implies
                            c.contains(x, y) by {
                            crate::rect::law_union_least(a, r, c, x, y);
                        }
                    }
                }
            }
        }
    }
}

/// What a client has missed, for every state of a frame. Nothing where it knows
/// the latest publication; not known where there is no history; the whole
/// screen where a publication that it missed has left the history; and else the
/// smallest rectangle that holds what each publication after the one it knows
/// damaged, or nothing where none damaged anything.
pub proof fn law_damage_since(state: FrameState, known: u64, c: Rect)
    requires
        forall|i: int|
            0 <= i < state.damages.len() ==> ((#[trigger] state.damages[i]).rect matches Some(r)
                ==> r.within(u16::MAX as int, u16::MAX as int)),
    ensures
        state.seq <= known ==> state.damage_since(known) == Some(None::<Rect>),
        state.seq > known && state.damages.len() == 0 ==> state.damage_since(known) is None,
        state.seq > known && state.damages.len() > 0 && known + 1 < state.damages[0].seq
            ==> state.damage_since(known) == Some(
            Some(Rect { x: 0, y: 0, width: state.width, height: state.height }),
        ),
        state.seq > known && state.damages.len() > 0 && known + 1 >= state.damages[0].seq ==> {
            &&& state.damage_since(known) is Some
            &&& state.damage_since(known) == Some(None::<Rect>) <==> forall|i: int|
                0 <= i < state.damages.len() && (#[trigger] state.damages[i]).seq > known
                    ==> state.damages[i].rect is None
            &&& state.damage_since(known) matches Some(Some(r)) ==> {
                &&& holds_damage(state.damages, known, r)
                &&& holds_damage(state.damages, known, c) ==> c.holds(r)
            }
        },
{
    if state.seq > known && state.damages.len() > 0 && known + 1 >= state.damages[0].seq {
        lemma_merged_least(state.damages, known, c);
        if let Some(r) = merged_damage(state.damages, known) {
            assert forall|i: int|
                0 <= i < state.damages.len() && (#[trigger] state.damages[i]).seq > known implies (
            state.damages[i].rect matches Some(q) ==> r.holds(q)) by {
                if let Some(q) = state.damages[i].rect {
                    assert forall|x: int, y: int| q.contains(x, y) implies r.contains(x, y) by {
                        lemma_merged_covers(state.damages, known, i, x, y);
                    }
                }
            }
        }
    }
}

/// Whether a rectangle holds what each publication after number `known`
/// damaged.
pub open spec fn holds_missed(
    width: u16,
    height: u16,
    frames: Seq<Seq<u8>>,
    known: int,
    c: Rect,
) -> bool {
    forall|k: int|
        known < k <= frames.len() ==> (#[trigger] damage_of(width, height, frames, k) matches Some(
            r,
        ) ==> c.holds(r))
}

/// However many publications a client has missed, it is owed what they damaged
/// and no more. Up to 128 of them: nothing exactly if none of them changed a
/// pixel, and else the smallest rectangle that holds the damage of each. Beyond
/// that: the whole screen.
pub proof fn law_missed_damage(
    width: u16,
    height: u16,
    frames: Seq<Seq<u8>>,
    known: u64,
    c: Rect,
)
    requires
        known <= frames.len() <= u64::MAX,
    ensures
        ({
            let since = published(width, height, frames).damage_since(known);
            if frames.len() - known > 128 {
                since == Some(Some(Rect { x: 0, y: 0, width, height }))
            } else {
                &&& since is Some
                &&& since == Some(None::<Rect>) <==> forall|k: int|
                    known < k <= frames.len() ==> #[trigger] damage_of(width, height, frames, k)
                        is None
                &&& since matches Some(Some(r)) ==> {
                    &&& holds_missed(width, height, frames, known as int, r)
                    &&& holds_missed(width, height, frames, known as int, c) ==> c.holds(r)
                }
            }
        }),
{
    law_history(width, height, frames);
    let state = published(width, height, frames);
    let n = frames.len() as int;
    let kept = state.damages.len() as int;
    let first = n - kept + 1;
    assert forall|i: int| 0 <= i < kept implies ((#[trigger] state.damages[i]).rect matches Some(
        r,
    ) ==> r.within(u16::MAX as int, u16::MAX as int)) by {
        damage::law_damage_is_tight(
            frame_at(width, height, frames, first + i - 1),
            frame_at(width, height, frames, first + i),
            width,
            height,
        );
    }
    law_damage_since(state, known, c);
    if known < n {
        assert(state.damages[0].seq == first);
        if n - known <= 128 {
            let since = state.damage_since(known);
            assert forall|k: int| known < k <= n implies {
                let entry = #[trigger] state.damages[k - first];
                &&& 0 <= k - first < kept
                &&& entry.seq > known
                &&& entry.rect == damage_of(width, height, frames, k)
            } by {}
            if since == Some(None::<Rect>) {
                assert forall|k: int| known < k <= n implies #[trigger] damage_of(
                    width,
                    height,
                    frames,
                    k,
                ) is None by {
                    assert(state.damages[k - first].rect is None);
                }
            } else {
                let i = choose|i: int|
                    0 <= i < kept && (#[trigger] state.damages[i]).seq > known
                        && state.damages[i].rect is Some;
                assert(damage_of(width, height, frames, first + i) is Some);
            }
            if let Some(Some(r)) = since {
                assert forall|k: int| known < k <= n implies (#[trigger] damage_of(
                    width,
                    height,
                    frames,
                    k,
                ) matches Some(q) ==> r.holds(q)) by {
                    assert(state.damages[k - first].seq > known);
                }
                if holds_missed(width, height, frames, known as int, c) {
                    assert forall|i: int|
                        0 <= i < kept && (#[trigger] state.damages[i]).seq > known implies (
                    state.damages[i].rect matches Some(q) ==> c.holds(q)) by {
                        assert(damage_of(width, height, frames, first + i)
                            == state.damages[i].rect);
                    }
                }
            }
        }
    }
}

} // verus!
