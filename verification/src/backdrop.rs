//! Geometry of the blurred backdrop: which patches of the screen around and
//! behind the widget's window are copied, and at what size.
use vstd::prelude::*;

verus! {

/// A window's rectangle on the screen, in pixels.
#[derive(Debug, Clone, Copy, PartialEq, Eq, Structural)]
pub struct Rect {
    pub left: i32,
    pub top: i32,
    pub right: i32,
    pub bottom: i32,
}

/// A patch of the screen (`x`, `y`, `width`, `height`) scaled to `out_width` x `out_height`.
#[derive(Debug, Clone, Copy, PartialEq, Eq, Structural)]
pub struct Sample {
    pub x: i32,
    pub y: i32,
    pub width: i32,
    pub height: i32,
    pub out_width: i32,
    pub out_height: i32,
}

/// Width of the backdrop image, in pixels.
pub const BACKDROP_WIDTH: i32 = 64;

/// Width of the ring around the window whose changes trigger a new backdrop.
pub const RING: i32 = 6;

/// Whether a window rectangle has an area, so that a backdrop can be taken.
pub fn rect_has_area(r: &Rect) -> (b: bool)
    ensures
        b == (r.right > r.left && r.bottom > r.top),
{
    r.right > r.left && r.bottom > r.top
}

/// The size of the backdrop image of a window: 64 pixels wide, and as high
/// as keeps the window's proportions (Rust's `/`), at least 1 pixel.
pub fn backdrop_size(r: &Rect) -> (s: (i32, i32))
    requires
        r.right > r.left,
        r.bottom > r.top,
        r.right - r.left <= i32::MAX,
        64 * (r.bottom - r.top) <= i32::MAX,
    ensures
        s.0 == BACKDROP_WIDTH,
        s.1 == (if 64 * (r.bottom - r.top) / (r.right - r.left) >= 1 {
            64 * (r.bottom - r.top) / (r.right - r.left)
        } else {
            1
        }),
{
    let sw = r.right - r.left;
    let sh = r.bottom - r.top;
    let h = BACKDROP_WIDTH * sh / sw;
    (BACKDROP_WIDTH, if h >= 1 { h } else { 1 })
}

/// Whether a window rectangle has an area and its width and height fit in an `i32`.
pub open spec fn ring_fits(r: Rect) -> bool {
    &&& r.right > r.left
    &&& r.bottom > r.top
    &&& r.right - r.left <= i32::MAX
    &&& r.bottom - r.top <= i32::MAX
}

/// The thickness of the ring's strips across a side of length `n`: 6 pixels,
/// or the whole side where it is shorter.
pub open spec fn strip(n: int) -> int {
    if n < RING {
        n
    } else {
        RING as int
    }
}

/// The four strips of the ring along the inside of a window's edges: at its
/// top and bottom (24 x 1 pixels each), at its left and right (1 x 24 pixels
/// each). Changes of what shows through them call for a new backdrop.
pub open spec fn ring_of(r: Rect) -> Seq<Sample> {
    let w = r.right - r.left;
    let h = r.bottom - r.top;
    let sh = strip(h);
    let sw = strip(w);
    seq![
        Sample { x: r.left, y: r.top, width: w as i32, height: sh as i32, out_width: 24, out_height: 1 },
        Sample { x: r.left, y: (r.bottom - sh) as i32, width: w as i32, height: sh as i32, out_width: 24, out_height: 1 },
        Sample { x: r.left, y: r.top, width: sw as i32, height: h as i32, out_width: 1, out_height: 24 },
        Sample { x: (r.right - sw) as i32, y: r.top, width: sw as i32, height: h as i32, out_width: 1, out_height: 24 },
    ]
}

/// Whether the patch of `s` lies inside the rectangle `r`.
pub open spec fn inside(s: Sample, r: Rect) -> bool {
    r.left <= s.x && s.x + s.width <= r.right && r.top <= s.y && s.y + s.height <= r.bottom
}

/// The strips of the ring along the inside of the window `r`; every one of
/// them lies inside the window, so nothing outside it is copied.
pub fn ring_samples(r: &Rect) -> (v: Vec<Sample>)
    requires
        ring_fits(*r),
    ensures
        v@ == ring_of(*r),
        forall|k: int| 0 <= k < v@.len() ==> inside(#[trigger] v@[k], *r),
{
    let w = r.right - r.left;
    let h = r.bottom - r.top;
    let sh = if h < RING {
        h
    } else {
        RING
    };
    let sw = if w < RING {
        w
    } else {
        RING
    };
    let bottom = r.bottom - sh;
    let right = r.right - sw;
    let v = vec![
        Sample { x: r.left, y: r.top, width: w, height: sh, out_width: 24, out_height: 1 },
        Sample { x: r.left, y: bottom, width: w, height: sh, out_width: 24, out_height: 1 },
        Sample { x: r.left, y: r.top, width: sw, height: h, out_width: 1, out_height: 24 },
        Sample { x: right, y: r.top, width: sw, height: h, out_width: 1, out_height: 24 },
    ];
    assert(v@ =~= ring_of(*r));
    v
}

/// What the backdrop loop remembers between its rounds.
#[derive(Debug, Clone, Copy, PartialEq, Eq, Structural)]
pub struct CaptureState {
    /// Hash of the last frame sent to the widget; `0` when none is to be kept.
    pub last_sent: u64,
    /// The window's rectangle at the last grab.
    pub last_rect: Rect,
    /// Hash of the ring at the last grab.
    pub last_ring: u64,
}

impl CaptureState {
    /// The state before the first round: nothing grabbed or sent.
    pub fn new() -> (st: CaptureState)
        ensures
            st.last_sent == 0,
            st.last_rect == (Rect { left: 0, top: 0, right: 0, bottom: 0 }),
            st.last_ring == 0,
    {
        CaptureState { last_sent: 0, last_rect: Rect { left: 0, top: 0, right: 0, bottom: 0 }, last_ring: 0 }
    }
}

/// The least time between two grabs, in milliseconds.
pub const MIN_GAP_MS: u64 = 200;

/// The time after which the backdrop is grabbed again though nothing moved, in milliseconds.
pub const EVERY_MS: u64 = 1000;

/// Whether the screen may be looked at this round: only while Real blur is
/// on and the widget is not minimized. Otherwise the last frame sent is
/// forgotten, so that the next one is sent whatever it shows.
pub fn capture_gate(st: &mut CaptureState, blur_on: bool, minimized: bool) -> (go: bool)
    ensures
        go == (blur_on && !minimized),
        !go ==> final(st).last_sent == 0 && final(st).last_rect == old(st).last_rect
            && final(st).last_ring == old(st).last_ring,
        go ==> *final(st) == *old(st),
{
    if !blur_on || minimized {
        st.last_sent = 0;
        return false;
    }
    true
}

/// Whether to grab the backdrop now, given the window's rectangle, the hash
/// of its ring and the milliseconds since the last grab (`None` before the
/// first): never within 200 ms of the last grab; otherwise when the window
/// moved, what shows through the ring changed, or a second has passed. A
/// grab records the rectangle and the ring.
pub fn capture_step(st: &mut CaptureState, r: Rect, ring_hash: u64, since_grab_ms: Option<u64>) -> (grab: bool)
    ensures
        grab == match since_grab_ms {
            None => true,
            Some(ms) => ms >= MIN_GAP_MS && (r != old(st).last_rect || ring_hash != old(st).last_ring
                || ms >= EVERY_MS),
        },
        grab ==> final(st).last_rect == r && final(st).last_ring == ring_hash && final(st).last_sent
            == old(st).last_sent,
        !grab ==> *final(st) == *old(st),
{
    let changed = r != st.last_rect || ring_hash != st.last_ring;
    let grab = match since_grab_ms {
        None => true,
        Some(ms) => !(ms < MIN_GAP_MS || (!changed && ms < EVERY_MS)),
    };
    if grab {
        st.last_rect = r;
        st.last_ring = ring_hash;
    }
    grab
}

/// Whether a grabbed frame is sent to the widget: only when its hash differs
/// from that of the last frame sent, which it then becomes.
pub fn frame_to_send(st: &mut CaptureState, frame_hash: u64) -> (send: bool)
    ensures
        send == (frame_hash != old(st).last_sent),
        final(st).last_sent == frame_hash,
        final(st).last_rect == old(st).last_rect,
        final(st).last_ring == old(st).last_ring,
{
    if frame_hash != st.last_sent {
        st.last_sent = frame_hash;
        true
    } else {
        false
    }
}

/// Byte `i` of a screen copy after turning its whole 4-byte pixels from
/// blue-green-red-alpha into red-green-blue-alpha with full alpha; bytes of a
/// last, partial pixel stay.
pub open spec fn rgba_byte(px: Seq<u8>, i: int) -> u8 {
    let base = i - i % 4;
    if base + 4 <= px.len() {
        if i % 4 == 0 {
            px[base + 2]
        } else if i % 4 == 2 {
            px[base]
        } else if i % 4 == 3 {
            255
        } else {
            px[i]
        }
    } else {
        px[i]
    }
}

/// Turns a screen copy's pixels from BGRA into RGBA with full alpha.
pub fn bgra_to_rgba(px: &mut Vec<u8>)
    ensures
        final(px)@ == Seq::new(old(px)@.len(), |i: int| rgba_byte(old(px)@, i)),
{
    let ghost orig = px@;
    let n = px.len();
    let mut i: usize = 0;
    while i < n && n - i >= 4
        invariant
            n == orig.len(),
            px@.len() == n,
            i % 4 == 0,
            i <= n,
            forall|k: int| 0 <= k < i ==> #[trigger] px@[k] == rgba_byte(orig, k),
            forall|k: int| i <= k < n ==> #[trigger] px@[k] == orig[k],
        decreases n - i,
    {
        let b = px[i];
        let r = px[i + 2];
        px.set(i, r);
        px.set(i + 2, b);
        px.set(i + 3, 255);
        proof {
            assert forall|k: int| i <= k < i + 4 implies #[trigger] px@[k] == rgba_byte(orig, k) by {
                assert(k - k % 4 == i);
            }
        }
        i = i + 4;
    }
    proof {
        assert forall|k: int| i <= k < n implies #[trigger] px@[k] == rgba_byte(orig, k) by {
            assert(k - k % 4 >= i - 3);
            assert(k - k % 4 + 4 > n);
        }
    }
    assert(px@ =~= Seq::new(orig.len(), |k: int| rgba_byte(orig, k)));
}

} // verus!
