//! The frame buffer and the depth buffer, and the depth test that settles
//! which triangle is seen in each pixel.
//!
//! Depths are held as keys: unsigned integers that order as the depths do.
//! [`depth_key`] makes the key of a floating-point depth from its bits.
use crate::raster::in_box;
use vstd::arithmetic::div_mod::lemma_fundamental_div_mod;
use vstd::arithmetic::div_mod::lemma_fundamental_div_mod_converse;
use vstd::prelude::*;

verus! {

/// The colour that an untouched pixel keeps.
pub open spec fn white() -> (u8, u8, u8) {
    (255u8, 255u8, 255u8)
}

/// The grey of brightness `c`.
pub open spec fn grey(c: u8) -> (u8, u8, u8) {
    (c, c, c)
}

/// The number that a sign bit over a 63-bit magnitude stands for.
pub open spec fn signed_rank(bits: u64) -> int {
    if bits >= 0x8000_0000_0000_0000 {
        -(bits - 0x8000_0000_0000_0000)
    } else {
        bits as int
    }
}

/// The key of a sign bit over a magnitude: the magnitude raised above all
/// keys of negative numbers where the sign bit is clear, and the magnitude
/// counted down from there where it is set.
pub open spec fn depth_key_spec(bits: u64) -> u64 {
    if bits >= 0x8000_0000_0000_0000 {
        (0xffff_ffff_ffff_ffff - bits) as u64
    } else {
        (bits + 0x8000_0000_0000_0000) as u64
    }
}

/// The key of a floating-point depth, given as its bits. The bits of a
/// floating-point number that is not a NaN are a sign bit over a magnitude,
/// and numbers of one sign lie as their magnitudes do, so the keys order as
/// the numbers do; the key of minus zero lies just below the key of zero.
pub fn depth_key(bits: u64) -> (key: u64)
    ensures
        key == depth_key_spec(bits),
{
    if bits >= 0x8000_0000_0000_0000 {
        0xffff_ffff_ffff_ffff - bits
    } else {
        bits + 0x8000_0000_0000_0000
    }
}

/// Keys order as the numbers do, and different bits have different keys.
pub proof fn lemma_depth_key_orders(a: u64, b: u64)
    ensures
        signed_rank(a) < signed_rank(b) ==> depth_key_spec(a) < depth_key_spec(b),
        depth_key_spec(a) < depth_key_spec(b) ==> signed_rank(a) <= signed_rank(b),
        depth_key_spec(a) == depth_key_spec(b) <==> a == b,
{
}

/// The depth `seen` if there is one and it is below the depth `held`, else
/// `held`.
pub open spec fn nearer(seen: Option<u64>, held: u64) -> u64 {
    match seen {
        Some(z) => if z < held {
            z
        } else {
            held
        },
        None => held,
    }
}

/// The least of `far` and the first `n` depths of `seen`, found by taking
/// them in order.
pub open spec fn nearest(seen: Seq<Option<u64>>, n: nat, far: u64) -> u64
    decreases n,
{
    if n == 0 {
        far
    } else {
        nearer(seen[n - 1], nearest(seen, (n - 1) as nat, far))
    }
}

/// What [`nearest`] finds is the least: it is `far` or one of the depths
/// taken, it is not above `far`, and none of the depths taken is below it.
pub proof fn lemma_nearest_is_least(seen: Seq<Option<u64>>, n: nat, far: u64)
    requires
        n <= seen.len(),
    ensures
        ({
            let d = nearest(seen, n, far);
            &&& d == far || exists|k: int| 0 <= k < n && #[trigger] seen[k] == Some(d)
            &&& d <= far
            &&& forall|k: int| 0 <= k < n ==> (#[trigger] seen[k] matches Some(z) ==> d <= z)
        }),
    decreases n,
{
    if n > 0 {
        let m = (n - 1) as nat;
        lemma_nearest_is_least(seen, m, far);
        let before = nearest(seen, m, far);
        let d = nearest(seen, n, far);
        if d != before {
            assert(seen[m as int] == Some(d));
        } else if d != far {
            let k = choose|k: int| 0 <= k < m && #[trigger] seen[k] == Some(d);
            assert(0 <= k < n && seen[k] == Some(d));
        }
    }
}

/// Where every depth of `a` occurs in `b`, the least of `b` is not above the
/// least of `a`.
proof fn lemma_nearest_not_above(a: Seq<Option<u64>>, b: Seq<Option<u64>>, far: u64)
    requires
        forall|k: int| 0 <= k < a.len() ==> b.contains(#[trigger] a[k]),
    ensures
        nearest(b, b.len(), far) <= nearest(a, a.len(), far),
{
    let d = nearest(a, a.len(), far);
    lemma_nearest_is_least(a, a.len(), far);
    lemma_nearest_is_least(b, b.len(), far);
    if d != far {
        let k = choose|k: int| 0 <= k < a.len() && #[trigger] a[k] == Some(d);
        assert(b.contains(a[k]));
        let j = choose|j: int| 0 <= j < b.len() && b[j] == a[k];
        assert(b[j] == Some(d));
    }
}

/// Closest wins, whatever the order: the depths that a pixel is offered
/// leave the same depth in it in whatever order they come.
pub proof fn lemma_nearest_order_independent(a: Seq<Option<u64>>, b: Seq<Option<u64>>, far: u64)
    requires
        a.to_multiset() == b.to_multiset(),
    ensures
        nearest(a, a.len(), far) == nearest(b, b.len(), far),
{
    a.to_multiset_ensures();
    b.to_multiset_ensures();
    assert forall|k: int| 0 <= k < a.len() implies b.contains(#[trigger] a[k]) by {
        assert(a.contains(a[k]));
        assert(a.to_multiset().count(a[k]) > 0);
        assert(b.to_multiset().count(a[k]) > 0);
    }
    assert forall|k: int| 0 <= k < b.len() implies a.contains(#[trigger] b[k]) by {
        assert(b.contains(b[k]));
        assert(b.to_multiset().count(b[k]) > 0);
        assert(a.to_multiset().count(b[k]) > 0);
    }
    lemma_nearest_not_above(a, b, far);
    lemma_nearest_not_above(b, a, far);
}

/// A frame buffer and a depth buffer of the same size, both row-major with
/// the top row first: pixel `(x, y)` is at index `y * width + x`.
#[derive(Debug)]
pub struct RenderTarget {
    pub width: usize,
    pub height: usize,
    pub frame_buffer: Vec<(u8, u8, u8)>,
    pub depth_buffer: Vec<u64>,
}

/// The pixel `(x, y)` of a raster `width` wide has an index of its own,
/// from which the division by `width` gives `x` and `y` back.
pub proof fn lemma_pixel_index(width: int, height: int, x: int, y: int)
    requires
        0 <= x < width,
        0 <= y < height,
    ensures
        0 <= y * width + x < width * height,
        (y * width + x) / width == y,
        (y * width + x) % width == x,
{
    assert(0 <= y * width && y * width + width <= width * height) by (nonlinear_arith)
        requires
            0 <= y < height,
            0 < width,
    ;
    lemma_fundamental_div_mod_converse(y * width + x, width, y, x);
}

/// What one triangle leaves in the pixel `(x, y)` that held `before`:
/// `cover` tells the depth at which the triangle covers the pixel's centre,
/// if it does; where that depth is below the depth held, the pixel takes it
/// together with the grey that `shade` gives for it; elsewhere the pixel
/// keeps what it held.
pub open spec fn pixel_step<C: Fn(usize, usize) -> Option<u64>, S: Fn(usize, usize, u64) -> u8>(
    cover: C,
    shade: S,
    x: usize,
    y: usize,
    before: (u64, (u8, u8, u8)),
    after: (u64, (u8, u8, u8)),
) -> bool {
    exists|seen: Option<u64>|
        {
            &&& #[trigger] call_ensures(cover, (x, y), seen)
            &&& after.0 == nearer(seen, before.0)
            &&& after.0 == before.0 ==> after == before
            &&& after.0 != before.0 ==> exists|c: u8| #[trigger]
                call_ensures(shade, (x, y, after.0), c) && after.1 == grey(c)
        }
}

/// The depth of a pixel never grows: a triangle leaves the depth that the
/// pixel held, or a depth below it.
pub proof fn lemma_depth_never_grows<
    C: Fn(usize, usize) -> Option<u64>,
    S: Fn(usize, usize, u64) -> u8,
>(cover: C, shade: S, x: usize, y: usize, before: (u64, (u8, u8, u8)), after: (u64, (u8, u8, u8)))
    requires
        pixel_step(cover, shade, x, y, before, after),
    ensures
        after.0 <= before.0,
{
}

/// A pixel that a triangle changes is one that the triangle covers at a
/// depth below the depth held, and that depth is what the pixel takes.
pub proof fn lemma_changed_pixel_was_covered<
    C: Fn(usize, usize) -> Option<u64>,
    S: Fn(usize, usize, u64) -> u8,
>(cover: C, shade: S, x: usize, y: usize, before: (u64, (u8, u8, u8)), after: (u64, (u8, u8, u8)))
    requires
        pixel_step(cover, shade, x, y, before, after),
        after != before,
    ensures
        call_ensures(cover, (x, y), Some(after.0)),
        after.0 < before.0,
{
}

/// A pixel that a triangle does not cover, or covers at no depth below the
/// depth held, keeps its depth and its colour.
pub proof fn lemma_uncovered_pixel_is_kept<
    C: Fn(usize, usize) -> Option<u64>,
    S: Fn(usize, usize, u64) -> u8,
>(cover: C, shade: S, x: usize, y: usize, before: (u64, (u8, u8, u8)), after: (u64, (u8, u8, u8)))
    requires
        pixel_step(cover, shade, x, y, before, after),
        forall|seen: Option<u64>| #[trigger]
            call_ensures(cover, (x, y), seen) ==> nearer(seen, before.0) == before.0,
    ensures
        after == before,
{
}

impl RenderTarget {
    /// Both buffers hold one entry for each pixel, and there is a pixel.
    pub open spec fn wf(&self) -> bool {
        &&& self.width >= 1
        &&& self.height >= 1
        &&& self.frame_buffer.len() == self.width * self.height
        &&& self.depth_buffer.len() == self.width * self.height
    }

    /// The depth and the colour held for the pixel at index `i`.
    pub open spec fn pixel(&self, i: int) -> (u64, (u8, u8, u8)) {
        (self.depth_buffer@[i], self.frame_buffer@[i])
    }

    /// A target of the given size with every pixel white and at depth `far`.
    /// There is none for an empty image, nor for one with more pixels than
    /// can be indexed.
    pub fn new(width: usize, height: usize, far: u64) -> (r: Option<RenderTarget>)
        ensures
            r is None <==> (width == 0 || height == 0 || width * height > usize::MAX),
            r matches Some(t) ==> {
                &&& t.wf()
                &&& t.width == width
                &&& t.height == height
                &&& forall|i: int| 0 <= i < width * height ==> #[trigger] t.pixel(i) == (far, white())
            },
    {
        if width == 0 || height == 0 {
            return None;
        }
        let count: usize = match width.checked_mul(height) {
            Some(n) => n,
            None => {
                return None;
            },
        };
        let mut frame_buffer: Vec<(u8, u8, u8)> = Vec::new();
        let mut depth_buffer: Vec<u64> = Vec::new();
        let mut i: usize = 0;
        while i < count
            invariant
                i <= count,
                frame_buffer.len() == i,
                depth_buffer.len() == i,
                forall|k: int| 0 <= k < i ==> frame_buffer@[k] == white(),
                forall|k: int| 0 <= k < i ==> depth_buffer@[k] == far,
            decreases count - i,
        {
            frame_buffer.push((255, 255, 255));
            depth_buffer.push(far);
            i += 1;
        }
        Some(RenderTarget { width, height, frame_buffer, depth_buffer })
    }

    /// Draws one triangle over the pixel range `bounds`. For each pixel of
    /// the range `cover` is asked for the depth at which the triangle covers
    /// the pixel's centre; where it does and that depth passes the depth
    /// test, the depth is written and `shade` is asked for the brightness
    /// there, which is written as a grey.
    pub fn rasterize<C: Fn(usize, usize) -> Option<u64>, S: Fn(usize, usize, u64) -> u8>(
        &mut self,
        bounds: (usize, usize, usize, usize),
        cover: C,
        shade: S,
    )
        requires
            old(self).wf(),
            bounds.1 <= old(self).width,
            bounds.3 <= old(self).height,
            forall|x: usize, y: usize|
                x < old(self).width && y < old(self).height ==> call_requires(cover, (x, y)),
            forall|x: usize, y: usize, z: u64|
                x < old(self).width && y < old(self).height ==> call_requires(shade, (x, y, z)),
        ensures
            final(self).wf(),
            final(self).width == old(self).width,
            final(self).height == old(self).height,
            forall|i: int|
                0 <= i < old(self).width * old(self).height ==> (if in_box(
                    (bounds.0 as int, bounds.1 as int, bounds.2 as int, bounds.3 as int),
                    i % (old(self).width as int),
                    i / (old(self).width as int),
                ) {
                    pixel_step(
                        cover,
                        shade,
                        (i % (old(self).width as int)) as usize,
                        (i / (old(self).width as int)) as usize,
                        old(self).pixel(i),
                        #[trigger] final(self).pixel(i),
                    )
                } else {
                    final(self).pixel(i) == old(self).pixel(i)
                }),
    {
        let width: usize = self.width;
        let height: usize = self.height;
        let (xmin, xmax, ymin, ymax) = bounds;
        let ghost before = *self;
        let ghost bbox = (xmin as int, xmax as int, ymin as int, ymax as int);

        let mut y: usize = ymin;
        while y < ymax
            invariant
                self.wf(),
                before.wf(),
                self.width == width,
                self.height == height,
                before.width == width,
                before.height == height,
                bbox == (xmin as int, xmax as int, ymin as int, ymax as int),
                xmax <= width,
                ymax <= height,
                ymin <= y,
                forall|x: usize, y: usize| x < width && y < height ==> call_requires(cover, (x, y)),
                forall|x: usize, y: usize, z: u64|
                    x < width && y < height ==> call_requires(shade, (x, y, z)),
                forall|i: int|
                    0 <= i < width * height ==> (if in_box(bbox, i % (width as int), i / (width as int))
                        && i / (width as int) < y {
                        pixel_step(
                            cover,
                            shade,
                            (i % (width as int)) as usize,
                            (i / (width as int)) as usize,
                            before.pixel(i),
                            #[trigger] self.pixel(i),
                        )
                    } else {
                        self.pixel(i) == before.pixel(i)
                    }),
            decreases ymax - y,
        {
            let mut x: usize = xmin;
            while x < xmax
                invariant
                    self.wf(),
                    before.wf(),
                    self.width == width,
                    self.height == height,
                    before.width == width,
                    before.height == height,
                    bbox == (xmin as int, xmax as int, ymin as int, ymax as int),
                    xmax <= width,
                    ymax <= height,
                    ymin <= y < ymax,
                    xmin <= x,
                    forall|x: usize, y: usize|
                        x < width && y < height ==> call_requires(cover, (x, y)),
                    forall|x: usize, y: usize, z: u64|
                        x < width && y < height ==> call_requires(shade, (x, y, z)),
                    forall|i: int|
                        0 <= i < width * height ==> (if in_box(
                            bbox,
                            i % (width as int),
                            i / (width as int),
                        ) && (i / (width as int) < y || (i / (width as int) == y && i % (
                        width as int) < x)) {
                            pixel_step(
                                cover,
                                shade,
                                (i % (width as int)) as usize,
                                (i / (width as int)) as usize,
                                before.pixel(i),
                                #[trigger] self.pixel(i),
                            )
                        } else {
                            self.pixel(i) == before.pixel(i)
                        }),
                decreases xmax - x,
            {
                proof {
                    lemma_pixel_index(width as int, height as int, x as int, y as int);
                }
                let dx: usize = y * width + x;
                let ghost prior = *self;
                assert(self.pixel(dx as int) == before.pixel(dx as int));
                let seen: Option<u64> = cover(x, y);
                assert(call_ensures(cover, (x, y), seen));
                match seen {
                    Some(z) => {
                        if z < self.depth_buffer[dx] {
                            self.depth_buffer.set(dx, z);
                            let color: u8 = shade(x, y, z);
                            assert(call_ensures(shade, (x, y, z), color));
                            self.frame_buffer.set(dx, (color, color, color));
                        }
                    },
                    None => {},
                }
                proof {
                    assert(pixel_step(
                        cover,
                        shade,
                        x,
                        y,
                        before.pixel(dx as int),
                        self.pixel(dx as int),
                    ));
                    assert forall|i: int| 0 <= i < width * height implies (if in_box(
                        bbox,
                        i % (width as int),
                        i / (width as int),
                    ) && (i / (width as int) < y || (i / (width as int) == y && i % (width as int)
                        < x + 1)) {
                        pixel_step(
                            cover,
                            shade,
                            (i % (width as int)) as usize,
                            (i / (width as int)) as usize,
                            before.pixel(i),
                            #[trigger] self.pixel(i),
                        )
                    } else {
                        self.pixel(i) == before.pixel(i)
                    }) by {
                        if i != dx {
                            assert(self.pixel(i) == prior.pixel(i));
                            if i / (width as int) == y && i % (width as int) == x {
                                lemma_fundamental_div_mod(i, width as int);
                                assert((width as int) * y == y * (width as int))
                                    by (nonlinear_arith);
                            }
                        }
                    }
                }
                x += 1;
            }
            y += 1;
        }
    }
}

} // verus!
