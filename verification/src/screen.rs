//! Frames, the pixel transforms that redact them, and the capture pipeline's
//! decision logic.

use vstd::prelude::*;

verus! {

/// One captured display snapshot: a tightly packed RGBA pixel buffer
/// (8 bits per channel, row-major, no padding) plus its dimensions.
#[derive(Clone, Debug, PartialEq)]
pub struct Frame {
    pub data: Vec<u8>,
    pub width: u32,
    pub height: u32,
}

impl Frame {
    /// The buffer holds exactly four bytes for each of `width * height` pixels.
    pub open spec fn wf(self) -> bool {
        self.data@.len() == self.width as int * self.height as int * 4
    }
}

/// A buffer in which every byte is opaque white.
pub open spec fn all_white(s: Seq<u8>) -> bool {
    forall|i: int| 0 <= i < s.len() ==> s[i] == 255u8
}

/// The buffer `blank` produces from a buffer of the given length.
pub open spec fn blank_data(len: nat) -> Seq<u8> {
    Seq::new(len, |i: int| 255u8)
}

/// Percentage-based redaction bounds: whole percents of the frame's width
/// (`left`, `right`) and height (`top`, `bottom`) to paint white, measured
/// inward from each edge.
#[derive(Clone, Copy, PartialEq, Eq, Structural)]
pub struct CropValues {
    pub left: u32,
    pub right: u32,
    pub top: u32,
    pub bottom: u32,
}

impl CropValues {
    /// Each bound is a percentage.
    pub open spec fn wf(self) -> bool {
        self.left <= 100 && self.right <= 100 && self.top <= 100 && self.bottom <= 100
    }

    pub fn new(left: u32, right: u32, top: u32, bottom: u32) -> (r: Self)
        ensures
            r == (CropValues { left, right, top, bottom }),
    {
        Self { left, right, top, bottom }
    }
}

/// `round(pct/100 * dim)`: how many pixels from an edge a percentage covers.
pub open spec fn crop_bound(pct: int, dim: int) -> int {
    (pct * dim + 50) / 100
}

/// Whether the pixel at column `x`, row `y` falls in one of the four
/// redacted edge regions of a `w` by `h` frame.
pub open spec fn in_crop_region(x: int, y: int, w: int, h: int, cv: CropValues) -> bool {
    ||| x < crop_bound(cv.left as int, w)
    ||| x >= w - crop_bound(cv.right as int, w)
    ||| y < crop_bound(cv.top as int, h)
    ||| y >= h - crop_bound(cv.bottom as int, h)
}

/// The buffer `crop` produces: bytes of redacted pixels become opaque white,
/// all other bytes keep their value.
pub open spec fn crop_data(d: Seq<u8>, w: int, h: int, cv: CropValues) -> Seq<u8> {
    Seq::new(d.len(), |i: int| {
        let p = i / 4;
        if in_crop_region(p % w, p / w, w, h, cv) {
            255u8
        } else {
            d[i]
        }
    })
}

/// Crop bounds safety: however the four percentages fall in their range,
/// each pixel bound stays within its dimension, so the four regions can
/// never reach past the buffer, even where opposite bounds overlap.
pub proof fn lemma_crop_bound_le_dim(pct: int, dim: int)
    requires
        0 <= pct <= 100,
        0 <= dim,
    ensures
        0 <= crop_bound(pct, dim) <= dim,
{
    assert(0 <= (pct * dim + 50) / 100 <= dim) by (nonlinear_arith)
        requires
            0 <= pct <= 100,
            0 <= dim,
    ;
}

/// Computes `round(pct/100 * dim)` in integer arithmetic, clamped by
/// construction to `dim`.
fn crop_bound_px(pct: u32, dim: u32) -> (r: u32)
    requires
        pct <= 100,
    ensures
        r as int == crop_bound(pct as int, dim as int),
        r <= dim,
{
    proof {
        lemma_crop_bound_le_dim(pct as int, dim as int);
    }
    (((pct as u64) * (dim as u64) + 50) / 100) as u32
}

/// Overwrites every pixel of the four percentage-bounded edge regions with
/// opaque white `(255, 255, 255, 255)`, in place. Dimensions are unchanged,
/// and no byte outside the buffer is ever touched.
pub fn crop(frame: &mut Frame, crop: CropValues)
    requires
        old(frame).wf(),
        crop.wf(),
    ensures
        final(frame).wf(),
        final(frame).width == old(frame).width,
        final(frame).height == old(frame).height,
        final(frame).data@ == crop_data(
            old(frame).data@,
            old(frame).width as int,
            old(frame).height as int,
            crop,
        ),
{
    let w = frame.width;
    let h = frame.height;
    let lb = crop_bound_px(crop.left, w);
    let rb = crop_bound_px(crop.right, w);
    let tb = crop_bound_px(crop.top, h);
    let bb = crop_bound_px(crop.bottom, h);
    let len = frame.data.len();
    let ghost spec_out = crop_data(old(frame).data@, w as int, h as int, crop);

    let mut y: u32 = 0;
    while y < h
        invariant
            old(frame).wf(),
            crop.wf(),
            w == old(frame).width,
            h == old(frame).height,
            frame.width == w,
            frame.height == h,
            len == frame.data@.len(),
            len == old(frame).data@.len(),
            y <= h,
            lb as int == crop_bound(crop.left as int, w as int),
            rb as int == crop_bound(crop.right as int, w as int),
            tb as int == crop_bound(crop.top as int, h as int),
            bb as int == crop_bound(crop.bottom as int, h as int),
            rb <= w,
            bb <= h,
            spec_out == crop_data(old(frame).data@, w as int, h as int, crop),
            forall|i: int| 0 <= i < y as int * w as int * 4 ==> frame.data@[i] == spec_out[i],
            forall|i: int| y as int * w as int * 4 <= i < len ==> frame.data@[i] == old(frame).data@[i],
        decreases h - y,
    {
        let mut x: u32 = 0;
        proof {
            assert(y as int * w as int * 4 + w as int * 4 == (y + 1) as int * w as int * 4)
                by (nonlinear_arith);
            assert((y + 1) as int * w as int * 4 <= h as int * w as int * 4) by (nonlinear_arith)
                requires y as int + 1 <= h as int;
            assert(h as int * w as int * 4 == w as int * h as int * 4) by (nonlinear_arith);
        }
        while x < w
            invariant
                old(frame).wf(),
                crop.wf(),
                w == old(frame).width,
                h == old(frame).height,
                frame.width == w,
                frame.height == h,
                len == frame.data@.len(),
                len == old(frame).data@.len(),
                y < h,
                x <= w,
                lb as int == crop_bound(crop.left as int, w as int),
                rb as int == crop_bound(crop.right as int, w as int),
                tb as int == crop_bound(crop.top as int, h as int),
                bb as int == crop_bound(crop.bottom as int, h as int),
                rb <= w,
                bb <= h,
                y as int * w as int * 4 + w as int * 4 <= len,
                spec_out == crop_data(old(frame).data@, w as int, h as int, crop),
                forall|i: int| 0 <= i < y as int * w as int * 4 + x as int * 4
                    ==> frame.data@[i] == spec_out[i],
                forall|i: int| y as int * w as int * 4 + x as int * 4 <= i < len
                    ==> frame.data@[i] == old(frame).data@[i],
            decreases w - x,
        {
            let ghost p = y as int * w as int + x as int;
            let ghost base = p * 4;
            proof {
                assert(base == y as int * w as int * 4 + x as int * 4) by (nonlinear_arith)
                    requires
                        p == y as int * w as int + x as int,
                        base == p * 4,
                ;
                assert(p / w as int == y as int && p % w as int == x as int) by (nonlinear_arith)
                    requires
                        p == y as int * w as int + x as int,
                        0 <= x as int,
                        (x as int) < w as int,
                        0 <= y as int,
                ;
                assert((base + 0) / 4 == p && (base + 1) / 4 == p && (base + 2) / 4 == p
                    && (base + 3) / 4 == p) by (nonlinear_arith)
                    requires base == p * 4, 0 <= p;
            }
            let inside = x < lb || x >= w - rb || y < tb || y >= h - bb;
            assert(inside == in_crop_region(x as int, y as int, w as int, h as int, crop));
            if inside {
                let idx = (y as usize * w as usize + x as usize) * 4;
                assert(idx == base);
                frame.data.set(idx, 255);
                frame.data.set(idx + 1, 255);
                frame.data.set(idx + 2, 255);
                frame.data.set(idx + 3, 255);
            }
            assert forall|i: int| 0 <= i < y as int * w as int * 4 + x as int * 4 + 4
                implies frame.data@[i] == spec_out[i] by {
                if base <= i < base + 4 {
                    assert(i / 4 == p);
                    assert(spec_out[i] == if in_crop_region(
                        x as int, y as int, w as int, h as int, crop,
                    ) { 255u8 } else { old(frame).data@[i] });
                }
            }
            x = x + 1;
        }
        y = y + 1;
    }
    proof {
        assert(y as int * w as int * 4 == len) by (nonlinear_arith)
            requires y == h, len == w as int * h as int * 4;
        assert(frame.data@ =~= spec_out);
    }
}

/// Cropping is idempotent: cropping an already-cropped buffer with the same
/// bounds leaves it unchanged.
pub proof fn lemma_crop_idempotent(d: Seq<u8>, w: int, h: int, cv: CropValues)
    ensures
        crop_data(crop_data(d, w, h, cv), w, h, cv) == crop_data(d, w, h, cv),
{
    assert(crop_data(crop_data(d, w, h, cv), w, h, cv) =~= crop_data(d, w, h, cv));
}

/// Blanking takes precedence over cropping: blanking any cropped buffer
/// yields an all-white buffer, whatever the crop bounds were.
pub proof fn lemma_blank_precedence(d: Seq<u8>, w: int, h: int, cv: CropValues)
    ensures
        all_white(blank_data(crop_data(d, w, h, cv).len())),
        blank_data(crop_data(d, w, h, cv).len()) == blank_data(d.len()),
{
    assert(blank_data(crop_data(d, w, h, cv).len()) =~= blank_data(d.len()));
}

/// Paints the whole frame opaque white when `is_blank` is set; otherwise
/// leaves it untouched. Applied after `crop`, so blanking takes precedence.
pub fn blank(frame: &mut Frame, is_blank: bool)
    ensures
        final(frame).width == old(frame).width,
        final(frame).height == old(frame).height,
        is_blank ==> final(frame).data@ == blank_data(old(frame).data@.len()),
        !is_blank ==> final(frame).data@ == old(frame).data@,
{
    if is_blank {
        let len = frame.data.len();
        let mut i: usize = 0;
        while i < len
            invariant
                len == frame.data@.len(),
                i <= len,
                frame.width == old(frame).width,
                frame.height == old(frame).height,
                forall|j: int| 0 <= j < i ==> frame.data@[j] == 255u8,
            decreases len - i,
        {
            frame.data.set(i, 255);
            i = i + 1;
        }
        assert(frame.data@ =~= blank_data(old(frame).data@.len()));
    }
}

/// The tightly packed RGBA buffer obtained from a BGRA capture buffer whose
/// rows are `stride` bytes apart: channel 0 and 2 swapped, padding dropped.
pub open spec fn rgba_from_bgra(raw: Seq<u8>, w: int, h: int, stride: int) -> Seq<u8> {
    Seq::new((w * h * 4) as nat, |i: int| {
        let p = i / 4;
        let c = i % 4;
        let base = (p / w) * stride + (p % w) * 4;
        if c == 0 {
            raw[base + 2]
        } else if c == 1 {
            raw[base + 1]
        } else if c == 2 {
            raw[base]
        } else {
            raw[base + 3]
        }
    })
}

/// Converts a device-native BGRA buffer, whose row stride is its length
/// divided by the height and may exceed `width * 4`, into a tightly packed
/// RGBA buffer.
pub fn convert_bgra_to_rgba(frame: &[u8], width: u32, height: u32) -> (r: Vec<u8>)
    requires
        height >= 1,
        width as int * 4 <= frame@.len() as int / height as int,
    ensures
        r@ == rgba_from_bgra(
            frame@,
            width as int,
            height as int,
            frame@.len() as int / height as int,
        ),
{
    let len = frame.len();
    let stride = len / height as usize;
    let row_width = width as usize * 4;
    let ghost spec_out = rgba_from_bgra(frame@, width as int, height as int, stride as int);
    proof {
        vstd::arithmetic::div_mod::lemma_fundamental_div_mod(len as int, height as int);
        assert(height as int * stride as int <= len as int);
    }

    let mut out: Vec<u8> = Vec::new();
    let mut y: u32 = 0;
    while y < height
        invariant
            height >= 1,
            stride == frame@.len() as int / height as int,
            row_width == width as int * 4,
            row_width <= stride,
            height as int * stride as int <= frame@.len(),
            frame@.len() <= usize::MAX,
            y <= height,
            out@.len() == y as int * width as int * 4,
            spec_out == rgba_from_bgra(frame@, width as int, height as int, stride as int),
            forall|i: int| 0 <= i < out@.len() ==> out@[i] == spec_out[i],
        decreases height - y,
    {
        proof {
            assert(y as int * stride as int + stride as int == (y + 1) as int * stride as int)
                by (nonlinear_arith);
            assert((y + 1) as int * stride as int <= height as int * stride as int)
                by (nonlinear_arith)
                requires y as int + 1 <= height as int, 0 <= stride as int;
            assert(y as int * width as int * 4 + width as int * 4
                == (y + 1) as int * width as int * 4) by (nonlinear_arith);
            assert((y + 1) as int * width as int * 4 <= height as int * width as int * 4)
                by (nonlinear_arith)
                requires y as int + 1 <= height as int, 0 <= width as int;
            assert(height as int * width as int * 4 == width as int * height as int * 4)
                by (nonlinear_arith);
        }
        let row_start = y as usize * stride;
        let mut x: u32 = 0;
        while x < width
            invariant
                height >= 1,
                y < height,
                x <= width,
                stride == frame@.len() as int / height as int,
                row_width == width as int * 4,
                row_width <= stride,
                height as int * stride as int <= frame@.len(),
                frame@.len() <= usize::MAX,
                row_start == y as int * stride as int,
                row_start + stride <= frame@.len(),
                y as int * width as int * 4 + width as int * 4
                    <= width as int * height as int * 4,
                out@.len() == y as int * width as int * 4 + x as int * 4,
                spec_out == rgba_from_bgra(frame@, width as int, height as int, stride as int),
                forall|i: int| 0 <= i < out@.len() ==> out@[i] == spec_out[i],
            decreases width - x,
        {
            let ghost p = y as int * width as int + x as int;
            let ghost base = p * 4;
            proof {
                assert(base == y as int * width as int * 4 + x as int * 4) by (nonlinear_arith)
                    requires
                        p == y as int * width as int + x as int,
                        base == p * 4,
                ;
                assert(p / width as int == y as int && p % width as int == x as int)
                    by (nonlinear_arith)
                    requires
                        p == y as int * width as int + x as int,
                        0 <= x as int,
                        (x as int) < width as int,
                        0 <= y as int,
                ;
                assert((base + 0) / 4 == p && (base + 0) % 4 == 0 && (base + 1) / 4 == p
                    && (base + 1) % 4 == 1 && (base + 2) / 4 == p && (base + 2) % 4 == 2
                    && (base + 3) / 4 == p && (base + 3) % 4 == 3) by (nonlinear_arith)
                    requires base == p * 4, 0 <= p;
                assert(x as int * 4 + 4 <= row_width as int) by (nonlinear_arith)
                    requires (x as int) < width as int, row_width as int == width as int * 4;
            }
            let src = row_start + x as usize * 4;
            out.push(frame[src + 2]);
            out.push(frame[src + 1]);
            out.push(frame[src]);
            out.push(frame[src + 3]);
            assert forall|i: int| 0 <= i < out@.len() implies out@[i] == spec_out[i] by {
                if base <= i < base + 4 {
                    assert(i / 4 == p && (i % 4 == i - base));
                }
            }
            x = x + 1;
        }
        y = y + 1;
    }
    proof {
        assert(y as int * width as int * 4 == width as int * height as int * 4)
            by (nonlinear_arith)
            requires y == height;
        assert(out@ =~= spec_out);
    }
    out
}

#[verifier::external_type_specification]
#[verifier::external_body]
#[verifier::reject_recursive_types(T)]
pub struct ExWatchReceiver<T>(tokio::sync::watch::Receiver<T>);

/// Relies on tokio::sync::watch::Receiver::borrow: it yields a reference
/// to the most recently sent value on the channel (or the initial value if
/// nothing was sent yet); the result is a clone of that frame. Which frame
/// that is depends on the sampling thread's timing, so nothing is claimed
/// of it.
#[verifier::external_body]
fn latest_published(rx: &tokio::sync::watch::Receiver<Frame>) -> Frame {
    rx.borrow().clone()
}

/// The empty/nonempty decision on a fetched frame: the channel's empty
/// initial sentinel means nothing has been published yet and becomes
/// `None`; any published frame has pixel bytes and comes back unchanged as
/// `Some`.
pub fn sentinel_filter(f: Frame) -> (r: Option<Frame>)
    ensures
        f.data@.len() == 0 ==> r is None,
        f.data@.len() > 0 ==> r == Some(f),
{
    if f.data.is_empty() {
        None
    } else {
        Some(f)
    }
}

/// The consumer's end of the capture pipeline: a single-slot, overwrite-on-
/// write channel holding the most recently sampled frame. The sampling loop
/// publishes into the other end; publishing replaces any unread frame.
pub struct ScreenCapture {
    pub rx: tokio::sync::watch::Receiver<Frame>,
}

impl ScreenCapture {
    /// Non-blocking, non-consuming peek at the most recent published frame:
    /// `None` while only the empty initial sentinel has been published,
    /// `Some` of the latest frame otherwise. Repeated calls before a new
    /// publish see the same frame. What the channel holds depends on the
    /// sampling thread's timing, so this promises only what holds of every
    /// fetched frame; `sentinel_filter` fixes the result for each value.
    pub fn receive_frame(&mut self) -> (r: Option<Frame>)
        ensures
            r matches Some(f) ==> f.data@.len() > 0,
    {
        let frame = latest_published(&self.rx);
        sentinel_filter(frame)
    }
}

/// One attempt of the display device to produce a frame, as the sampling
/// loop sees it: a raw BGRA buffer, a not-ready condition, or a failure.
pub enum CaptureEvent {
    Captured(Vec<u8>),
    WouldBlock,
    DeviceFailed,
}

/// What the sampling loop does after one capture attempt: publish a
/// converted frame, silently retry at the next tick, or terminate.
pub enum CaptureAction {
    Publish(Frame),
    Retry,
    Stop,
}

/// The sampling loop's per-tick policy: a captured buffer is converted to a
/// tightly packed RGBA frame and published, a would-block condition is
/// retried on the next tick, and any other device failure ends the loop.
pub fn capture_step(event: CaptureEvent, width: u32, height: u32) -> (r: CaptureAction)
    requires
        event matches CaptureEvent::Captured(raw)
            ==> height >= 1 && width as int * 4 <= raw@.len() as int / height as int,
    ensures
        match event {
            CaptureEvent::Captured(raw) => r matches CaptureAction::Publish(f)
                && f.width == width
                && f.height == height
                && f.data@ == rgba_from_bgra(
                    raw@,
                    width as int,
                    height as int,
                    raw@.len() as int / height as int,
                )
                && f.wf(),
            CaptureEvent::WouldBlock => r == CaptureAction::Retry,
            CaptureEvent::DeviceFailed => r == CaptureAction::Stop,
        },
{
    match event {
        CaptureEvent::Captured(raw) => {
            let data = convert_bgra_to_rgba(raw.as_slice(), width, height);
            CaptureAction::Publish(Frame { data, width, height })
        }
        CaptureEvent::WouldBlock => CaptureAction::Retry,
        CaptureEvent::DeviceFailed => CaptureAction::Stop,
    }
}

} // verus!
