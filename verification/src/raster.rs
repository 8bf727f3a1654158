//! The range of pixels that a triangle is scanned over.
use vstd::prelude::*;

verus! {

/// The pixel nearest to `v` among the pixels `0` to `size - 1` of an axis.
pub open spec fn clamp_pixel(v: int, size: usize) -> int {
    if v < 0 {
        0
    } else if v > size - 1 {
        size - 1
    } else {
        v
    }
}

/// The pixel range `(x0, x1, y0, y1)` around a triangle: `x` runs over
/// `x0 <= x < x1`, `y` over `y0 <= y < y1`. The range starts at the pixels
/// that hold the triangle's least raster coordinates and ends one past the
/// pixels that hold its greatest, each pixel first brought into the image.
pub open spec fn bounding_box_spec(
    xmin: int,
    xmax: int,
    ymin: int,
    ymax: int,
    width: usize,
    height: usize,
) -> (int, int, int, int) {
    (
        clamp_pixel(xmin, width),
        clamp_pixel(xmax, width) + 1,
        clamp_pixel(ymin, height),
        clamp_pixel(ymax, height) + 1,
    )
}

/// Pixel `(x, y)` lies within the range `b`.
pub open spec fn in_box(b: (int, int, int, int), x: int, y: int) -> bool {
    b.0 <= x < b.1 && b.2 <= y < b.3
}

/// Brings a pixel coordinate into an axis of `size` pixels.
pub fn clamp_to_axis(v: i64, size: usize) -> (r: usize)
    requires
        size >= 1,
    ensures
        r == clamp_pixel(v as int, size),
        r < size,
{
    if v < 0 {
        0
    } else if v as u64 > (size - 1) as u64 {
        size - 1
    } else {
        v as usize
    }
}

/// The pixel range of a triangle on a raster of `width` by `height` pixels,
/// from the floors of its least and greatest raster coordinates.
pub fn bounding_box(xmin: i64, xmax: i64, ymin: i64, ymax: i64, width: usize, height: usize) -> (b:
    (usize, usize, usize, usize))
    requires
        width >= 1,
        height >= 1,
    ensures
        (b.0 as int, b.1 as int, b.2 as int, b.3 as int) == bounding_box_spec(
            xmin as int,
            xmax as int,
            ymin as int,
            ymax as int,
            width,
            height,
        ),
        b.0 < width,
        b.1 <= width,
        b.2 < height,
        b.3 <= height,
{
    let x0: usize = clamp_to_axis(xmin, width);
    let x1: usize = clamp_to_axis(xmax, width) + 1;
    let y0: usize = clamp_to_axis(ymin, height);
    let y1: usize = clamp_to_axis(ymax, height) + 1;

    (x0, x1, y0, y1)
}

/// The pixel range of a triangle whose least coordinates are not above its
/// greatest is not empty, and it holds every pixel of the image that lies
/// between the two.
pub proof fn lemma_box_holds_pixels_between(
    xmin: int,
    xmax: int,
    ymin: int,
    ymax: int,
    width: usize,
    height: usize,
    x: int,
    y: int,
)
    requires
        width >= 1,
        height >= 1,
        xmin <= xmax,
        ymin <= ymax,
    ensures
        bounding_box_spec(xmin, xmax, ymin, ymax, width, height).0 < bounding_box_spec(
            xmin,
            xmax,
            ymin,
            ymax,
            width,
            height,
        ).1,
        bounding_box_spec(xmin, xmax, ymin, ymax, width, height).2 < bounding_box_spec(
            xmin,
            xmax,
            ymin,
            ymax,
            width,
            height,
        ).3,
        (0 <= x < width && 0 <= y < height && xmin <= x <= xmax && ymin <= y <= ymax) ==> in_box(
            bounding_box_spec(xmin, xmax, ymin, ymax, width, height),
            x,
            y,
        ),
{
}

} // verus!
