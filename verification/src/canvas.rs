//! The mutable grayscale raster buffer and its single mutator, the
//! multiplicative darkening overlay blend.

use vstd::prelude::*;
use vstd::arithmetic::div_mod::lemma_multiply_divide_lt;
use vstd::arithmetic::div_mod::lemma_div_pos_is_pos;

verus! {

/// The stored value after blending a chord pass over a pixel:
/// `round(pixel * (1 - coverage * alpha))`, all three factors Q16.
pub open spec fn spec_overlay(pixel: u8, coverage: u32, alpha: u32) -> int
    recommends
        coverage <= 65536,
        alpha <= 65536,
{
    let factor = 0x1_0000_0000 - coverage * alpha;
    (pixel * factor + 0x8000_0000) / 0x1_0000_0000
}

/// The blend only darkens: the result stays in `[0, pixel]`.
pub proof fn lemma_overlay_monotonic(pixel: u8, coverage: u32, alpha: u32)
    requires
        coverage <= 65536,
        alpha <= 65536,
    ensures
        0 <= spec_overlay(pixel, coverage, alpha) <= pixel,
{
    let factor = 0x1_0000_0000 - coverage * alpha;
    assert(0 <= coverage * alpha <= 0x1_0000_0000) by (nonlinear_arith)
        requires
            coverage <= 65536,
            alpha <= 65536,
    ;
    let v = pixel * factor + 0x8000_0000;
    assert(pixel * factor <= pixel * 0x1_0000_0000) by (nonlinear_arith)
        requires
            0 <= factor <= 0x1_0000_0000,
            0 <= pixel,
    ;
    assert(pixel * factor >= 0) by (nonlinear_arith)
        requires
            0 <= factor,
            0 <= pixel,
    ;
    assert(v < (pixel + 1) * 0x1_0000_0000);
    lemma_multiply_divide_lt(v, 0x1_0000_0000, pixel + 1);
    lemma_div_pos_is_pos(v, 0x1_0000_0000);
}

/// A pass with zero coverage leaves the pixel unchanged.
pub proof fn lemma_overlay_zero_coverage(pixel: u8, alpha: u32)
    requires
        alpha <= 65536,
    ensures
        spec_overlay(pixel, 0, alpha) == pixel,
{
    let v = pixel * 0x1_0000_0000 + 0x8000_0000;
    assert(v == 0x1_0000_0000 * (pixel as int) + 0x8000_0000);
    vstd::arithmetic::div_mod::lemma_fundamental_div_mod_converse(
        v,
        0x1_0000_0000,
        pixel as int,
        0x8000_0000,
    );
}

/// Applies the overlay blend to one sample.
pub fn overlay_string(pixel: u8, coverage: u32, alpha: u32) -> (r: u8)
    requires
        coverage <= 65536,
        alpha <= 65536,
    ensures
        r == spec_overlay(pixel, coverage, alpha),
        r <= pixel,
{
    proof {
        assert(0 <= (coverage as int) * (alpha as int) <= 0x1_0000_0000) by (nonlinear_arith)
            requires
                coverage <= 65536,
                alpha <= 65536,
        ;
        lemma_overlay_monotonic(pixel, coverage, alpha);
    }
    let factor: u64 = 0x1_0000_0000u64 - (coverage as u64) * (alpha as u64);
    let v: u64 = (pixel as u64) * factor + 0x8000_0000;
    (v / 0x1_0000_0000) as u8
}

/// The row-major index of the pixel `(x, y)` in a square buffer of side
/// `diameter`.
pub open spec fn spec_pixel_index(diameter: u32, x: u32, y: u32) -> int
    recommends
        x < diameter,
        y < diameter,
{
    y * diameter + x
}

/// A square grayscale buffer; every write goes through the overlay blend,
/// so a pixel's stored value never increases over the life of the canvas.
pub struct Canvas {
    data: Vec<u8>,
    diameter: u32,
}

impl View for Canvas {
    type V = Seq<u8>;

    closed spec fn view(&self) -> Seq<u8> {
        self.data@
    }
}

impl Canvas {
    pub closed spec fn spec_diameter(self) -> u32 {
        self.diameter
    }

    pub open spec fn wf(self) -> bool {
        self@.len() == self.spec_diameter() * self.spec_diameter()
    }

    /// A canvas of side `diameter`, all white.
    pub fn new(diameter: u32) -> (r: Canvas)
        requires
            diameter <= 32768,
        ensures
            r.wf(),
            r.spec_diameter() == diameter,
            forall|k: int| 0 <= k < r@.len() ==> r@[k] == 255,
    {
        proof {
            assert((diameter as int) * (diameter as int) <= 32768 * 32768) by (nonlinear_arith)
                requires
                    diameter <= 32768,
            ;
        }
        let total: usize = diameter as usize * diameter as usize;
        let mut data: Vec<u8> = Vec::new();
        let mut i: usize = 0;
        while i < total
            invariant
                i <= total,
                data@.len() == i,
                forall|k: int| 0 <= k < i ==> data@[k] == 255,
            decreases total - i,
        {
            data.push(255);
            i = i + 1;
        }
        Canvas { data, diameter }
    }

    /// Reads one pixel.
    pub fn read(&self, x: u32, y: u32) -> (r: u8)
        requires
            self.wf(),
            self.spec_diameter() <= 32768,
            x < self.spec_diameter(),
            y < self.spec_diameter(),
        ensures
            r == self@[spec_pixel_index(self.spec_diameter(), x, y)],
    {
        let d = self.diameter;
        proof {
            assert((y as int) * (d as int) + (x as int) < (d as int) * (d as int) <= 32768
                * 32768) by (nonlinear_arith)
                requires
                    x < d,
                    y < d,
                    d <= 32768,
            ;
        }
        let index: usize = y as usize * d as usize + x as usize;
        self.data[index]
    }

    /// Darkens one pixel by one chord pass of the given coverage and
    /// opacity.  Every pixel of the new canvas is at most its old value.
    pub fn blend(&mut self, x: u32, y: u32, coverage: u32, alpha: u32)
        requires
            old(self).wf(),
            old(self).spec_diameter() <= 32768,
            x < old(self).spec_diameter(),
            y < old(self).spec_diameter(),
            coverage <= 65536,
            alpha <= 65536,
        ensures
            final(self).wf(),
            final(self).spec_diameter() == old(self).spec_diameter(),
            final(self)@ == old(self)@.update(
                spec_pixel_index(old(self).spec_diameter(), x, y),
                spec_overlay(
                    old(self)@[spec_pixel_index(old(self).spec_diameter(), x, y)],
                    coverage,
                    alpha,
                ) as u8,
            ),
            forall|k: int| 0 <= k < old(self)@.len() ==> final(self)@[k] <= old(self)@[k],
    {
        let d = self.diameter;
        proof {
            assert((y as int) * (d as int) + (x as int) < (d as int) * (d as int) <= 32768
                * 32768) by (nonlinear_arith)
                requires
                    x < d,
                    y < d,
                    d <= 32768,
            ;
        }
        let index: usize = y as usize * d as usize + x as usize;
        let pixel = self.data[index];
        let blended = overlay_string(pixel, coverage, alpha);
        self.data[index] = blended;
    }

    /// The raw pixel buffer, row major.
    pub fn pixels(&self) -> (r: &Vec<u8>)
        ensures
            r@ == self@,
    {
        &self.data
    }
}

/// Darkens every sample of a grayscale buffer by a constant, saturating
/// at black.
pub fn darken_pixels(data: &mut Vec<u8>, amount: u8)
    ensures
        final(data)@.len() == old(data)@.len(),
        forall|k: int|
            0 <= k < old(data)@.len() ==> final(data)@[k] == if old(data)@[k] >= amount {
                (old(data)@[k] - amount) as u8
            } else {
                0u8
            },
{
    let mut i: usize = 0;
    let n = data.len();
    while i < n
        invariant
            i <= n,
            n == data@.len(),
            data@.len() == old(data)@.len(),
            forall|k: int|
                0 <= k < i ==> data@[k] == if old(data)@[k] >= amount {
                    (old(data)@[k] - amount) as u8
                } else {
                    0u8
                },
            forall|k: int| i <= k < n ==> data@[k] == old(data)@[k],
        decreases n - i,
    {
        let p = data[i];
        let v: u8 = if p >= amount {
            p - amount
        } else {
            0
        };
        data[i] = v;
        i = i + 1;
    }
}

} // verus!
