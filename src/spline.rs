//! Quantised splines: parsing from the entropy-coded stream and
//! reconstruction of their integer control points.

use vstd::prelude::*;

use jxl_bitstream::Bitstream;
use jxl_coding::Decoder;

use crate::error::FrameError;
use crate::numeric::{log2_ceil_spec, log2_ceil_wide};

verus! {

/// jxl_bitstream::Bitstream, a bit reader over a byte slice, carried through
/// opaquely to the entropy decoder.
#[verifier::external_type_specification]
#[verifier::external_body]
pub struct ExBitstream<'buf>(jxl_bitstream::Bitstream<'buf>);

/// jxl_coding::Decoder, an entropy decoder with its contexts, carried through
/// opaquely.
#[verifier::external_type_specification]
#[verifier::external_body]
pub struct ExDecoder(jxl_coding::Decoder);

/// Relies on jxl_coding::Decoder::parse: reads the description of an entropy
/// code with `num_dist` contexts from the bitstream.
#[verifier::external_body]
fn parse_decoder(bitstream: &mut Bitstream, num_dist: u32) -> (r: Result<Decoder, jxl_coding::Error>) {
    Decoder::parse(bitstream, num_dist)
}

/// Relies on jxl_coding::Decoder::begin: starts the entropy-coded stream.
#[verifier::external_body]
fn begin_decoder(decoder: &mut Decoder, bitstream: &mut Bitstream) -> (r: Result<(), jxl_coding::Error>) {
    decoder.begin(bitstream)
}

/// The number of contexts of the spline entropy code.
pub const NUM_SPLINE_CONTEXTS: u32 = 6;

/// Relies on jxl_coding::Decoder::read_varint: reads one integer in context
/// `ctx`. The call indexes the decoder's context map by `ctx`, so `ctx` stays
/// below the count that the spline decoder is parsed with.
#[verifier::external_body]
fn read_varint(decoder: &mut Decoder, bitstream: &mut Bitstream, ctx: u32) -> (r: Result<u32, jxl_coding::Error>)
    requires
        ctx < NUM_SPLINE_CONTEXTS,
{
    decoder.read_varint(bitstream, ctx)
}

/// The largest number of splines in a frame.
pub const MAX_NUM_SPLINES: u64 = 0x100_0000;

/// The largest number of control-point deltas in one spline.
pub const MAX_NUM_CONTROL_POINTS: u64 = 0x10_0000;

/// The zig-zag map from unsigned to signed: even `u` to `u / 2`, odd `u` to
/// `-(u + 1) / 2`.
pub open spec fn unpack_signed_spec(u: u32) -> int {
    if u % 2 == 0 {
        (u / 2) as int
    } else {
        -((u + 1) / 2)
    }
}

/// The zig-zag decoding of the format, from unsigned to signed.
pub fn unpack_signed(u: u32) -> (r: i32)
    ensures
        r as int == unpack_signed_spec(u),
{
    if u % 2 == 0 {
        (u / 2) as i32
    } else {
        (-((u / 2) as i64) - 1) as i32
    }
}

/// The start point of the `i`-th spline, from the raw varint pairs: the first
/// is taken as it stands, each later one is a signed delta from the previous
/// start point (in 32-bit two's complement).
pub open spec fn start_point_at(raw: Seq<(u32, u32)>, i: int) -> (i32, i32)
    decreases i,
{
    if i <= 0 {
        (raw[0].0 as i32, raw[0].1 as i32)
    } else {
        let prev = start_point_at(raw, i - 1);
        (
            prev.0.wrapping_add(unpack_signed_spec(raw[i].0) as i32),
            prev.1.wrapping_add(unpack_signed_spec(raw[i].1) as i32),
        )
    }
}

/// Turns the raw start-point varints into absolute start points.
pub fn start_points_from_raw(raw: &Vec<(u32, u32)>) -> (r: Vec<(i32, i32)>)
    ensures
        r@.len() == raw@.len(),
        forall|i: int| 0 <= i < raw@.len() ==> #[trigger] r@[i] == start_point_at(raw@, i),
{
    let mut r: Vec<(i32, i32)> = Vec::new();
    let mut i: usize = 0;
    while i < raw.len()
        invariant
            i <= raw@.len(),
            r@.len() == i,
            forall|j: int| 0 <= j < i ==> #[trigger] r@[j] == start_point_at(raw@, j),
        decreases raw@.len() - i,
    {
        let (ux, uy) = raw[i];
        let p: (i32, i32) = if i == 0 {
            (ux as i32, uy as i32)
        } else {
            let prev = r[i - 1];
            (prev.0.wrapping_add(unpack_signed(ux)), prev.1.wrapping_add(unpack_signed(uy)))
        };
        r.push(p);
        i = i + 1;
    }
    r
}

/// A spline as coded: a start point, second-order deltas of its control
/// points, and quantised DCT32 coefficients of its X, Y, B colour and of its
/// width σ.
#[derive(Debug)]
pub struct QuantSpline {
    pub start_point: (i32, i32),
    pub points_deltas: Vec<(i32, i32)>,
    pub xyb_dct: [[i32; 32]; 3],
    pub sigma_dct: [i32; 32],
}

/// `cur_delta` after the first `k` deltas: their sum.
pub open spec fn delta_sum(deltas: Seq<(i32, i32)>, k: int) -> (int, int)
    decreases k,
{
    if k <= 0 {
        (0, 0)
    } else {
        let s = delta_sum(deltas, k - 1);
        (s.0 + deltas[k - 1].0, s.1 + deltas[k - 1].1)
    }
}

/// The `k`-th control point: the start plus the running sums of the deltas.
pub open spec fn control_point(start: (i32, i32), deltas: Seq<(i32, i32)>, k: int) -> (int, int)
    decreases k,
{
    if k <= 0 {
        (start.0 as int, start.1 as int)
    } else {
        let p = control_point(start, deltas, k - 1);
        let d = delta_sum(deltas, k);
        (p.0 + d.0, p.1 + d.1)
    }
}

pub open spec fn abs(v: int) -> int {
    if v < 0 {
        -v
    } else {
        v
    }
}

/// The Manhattan length of the first `k` running deltas.
pub open spec fn manhattan(deltas: Seq<(i32, i32)>, k: int) -> int
    decreases k,
{
    if k <= 0 {
        0
    } else {
        let d = delta_sum(deltas, k);
        manhattan(deltas, k - 1) + abs(d.0) + abs(d.1)
    }
}

pub open spec fn in_i32(v: (int, int)) -> bool {
    i32::MIN <= v.0 <= i32::MAX && i32::MIN <= v.1 <= i32::MAX
}

/// Every running delta and every control point of the first `k` fits in 32
/// bits.
pub open spec fn fits_i32(start: (i32, i32), deltas: Seq<(i32, i32)>, k: int) -> bool {
    forall|j: int| 0 <= j <= k ==> in_i32(#[trigger] delta_sum(deltas, j)) && in_i32(control_point(start, deltas, j))
}

proof fn lemma_manhattan_bound(deltas: Seq<(i32, i32)>, start: (i32, i32), k: int)
    requires
        0 <= k,
        fits_i32(start, deltas, k),
    ensures
        0 <= manhattan(deltas, k) <= k * 0x1_0000_0000,
    decreases k,
{
    if k > 0 {
        assert(in_i32(delta_sum(deltas, k)));
        lemma_manhattan_bound(deltas, start, k - 1);
    }
}

impl QuantSpline {
    /// A spline at `start_point` with no deltas and all coefficients zero.
    pub fn new(start_point: (i32, i32)) -> (r: Self)
        ensures
            r.start_point == start_point,
            r.points_deltas@.len() == 0,
            forall|c: int, i: int| 0 <= c < 3 && 0 <= i < 32 ==> #[trigger] r.xyb_dct[c][i] == 0,
            forall|i: int| 0 <= i < 32 ==> #[trigger] r.sigma_dct[i] == 0,
    {
        QuantSpline { start_point, points_deltas: Vec::new(), xyb_dct: [[0; 32]; 3], sigma_dct: [0; 32] }
    }

    pub open spec fn num_points(&self) -> int {
        self.points_deltas@.len() as int
    }

    /// The reconstructed control points fit in 32 bits.
    pub open spec fn points_fit(&self) -> bool {
        fits_i32(self.start_point, self.points_deltas@, self.num_points())
    }

    /// Rebuilds the control points from the start point and the second-order
    /// deltas, with the Manhattan length of the running deltas; `None` where a
    /// point or a running delta leaves the 32-bit range.
    pub fn control_points(&self) -> (r: Option<(Vec<(i32, i32)>, u64)>)
        requires
            self.points_deltas@.len() <= MAX_NUM_CONTROL_POINTS,
        ensures
            r is Some <==> self.points_fit(),
            r matches Some(v) ==> {
                &&& v.0@.len() == self.num_points() + 1
                &&& forall|k: int|
                    0 <= k <= self.num_points() ==> {
                        let p = #[trigger] control_point(self.start_point, self.points_deltas@, k);
                        v.0@[k].0 as int == p.0 && v.0@[k].1 as int == p.1
                    }
                &&& v.1 as int == manhattan(self.points_deltas@, self.num_points())
            },
    {
        let ghost deltas = self.points_deltas@;
        let ghost start = self.start_point;
        let n = self.points_deltas.len();
        let mut points: Vec<(i32, i32)> = Vec::new();
        points.push(self.start_point);
        let mut cur_delta: (i32, i32) = (0, 0);
        let mut cur_value: (i32, i32) = self.start_point;
        let mut dist: u64 = 0;
        let mut k: usize = 0;
        proof {
            assert(in_i32(delta_sum(deltas, 0)) && in_i32(control_point(start, deltas, 0)));
        }
        while k < n
            invariant
                n == deltas.len(),
                n <= MAX_NUM_CONTROL_POINTS,
                deltas == self.points_deltas@,
                start == self.start_point,
                k <= n,
                fits_i32(start, deltas, k as int),
                points@.len() == k + 1,
                forall|j: int|
                    0 <= j <= k ==> {
                        let p = #[trigger] control_point(start, deltas, j);
                        points@[j].0 as int == p.0 && points@[j].1 as int == p.1
                    },
                cur_delta.0 as int == delta_sum(deltas, k as int).0,
                cur_delta.1 as int == delta_sum(deltas, k as int).1,
                cur_value.0 as int == control_point(start, deltas, k as int).0,
                cur_value.1 as int == control_point(start, deltas, k as int).1,
                dist as int == manhattan(deltas, k as int),
            decreases n - k,
        {
            let d = self.points_deltas[k];
            let dx: i64 = cur_delta.0 as i64 + d.0 as i64;
            let dy: i64 = cur_delta.1 as i64 + d.1 as i64;
            let vx: i64 = cur_value.0 as i64 + dx;
            let vy: i64 = cur_value.1 as i64 + dy;
            proof {
                assert(delta_sum(deltas, k + 1) == (dx as int, dy as int));
                assert(control_point(start, deltas, k + 1) == (vx as int, vy as int));
            }
            if dx < i32::MIN as i64 || dx > i32::MAX as i64 || dy < i32::MIN as i64 || dy > i32::MAX as i64
                || vx < i32::MIN as i64 || vx > i32::MAX as i64 || vy < i32::MIN as i64 || vy > i32::MAX as i64 {
                proof {
                    assert(!in_i32(delta_sum(deltas, k + 1)) || !in_i32(control_point(start, deltas, k + 1)));
                    if fits_i32(start, deltas, n as int) {
                        assert(in_i32(delta_sum(deltas, k + 1)) && in_i32(control_point(start, deltas, k + 1)));
                    }
                }
                return None;
            }
            proof {
                lemma_manhattan_bound(deltas, start, k as int);
                assert(fits_i32(start, deltas, k + 1));
                assert(manhattan(deltas, k + 1) == manhattan(deltas, k as int) + abs(dx as int) + abs(dy as int));
            }
            let ax: u64 = if dx < 0 { (-dx) as u64 } else { dx as u64 };
            let ay: u64 = if dy < 0 { (-dy) as u64 } else { dy as u64 };
            dist = dist + ax + ay;
            cur_delta = (dx as i32, dy as i32);
            cur_value = (vx as i32, vy as i32);
            points.push(cur_value);
            k = k + 1;
        }
        Some((points, dist))
    }
}

/// Each control point after the first is the one before plus the running
/// delta, and each running delta is the one before plus the coded delta: the
/// points follow the second-order recurrence of the coding.
pub proof fn lemma_control_point_recurrence(start: (i32, i32), deltas: Seq<(i32, i32)>, k: int)
    requires
        0 <= k < deltas.len(),
    ensures
        control_point(start, deltas, k + 1).0 == control_point(start, deltas, k).0 + delta_sum(deltas, k + 1).0,
        control_point(start, deltas, k + 1).1 == control_point(start, deltas, k).1 + delta_sum(deltas, k + 1).1,
        delta_sum(deltas, k + 1).0 == delta_sum(deltas, k).0 + deltas[k].0,
        delta_sum(deltas, k + 1).1 == delta_sum(deltas, k).1 + deltas[k].1,
        k >= 1 ==> control_point(start, deltas, k + 1).0 - 2 * control_point(start, deltas, k).0
            + control_point(start, deltas, k - 1).0 == deltas[k].0,
        k >= 1 ==> control_point(start, deltas, k + 1).1 - 2 * control_point(start, deltas, k).1
            + control_point(start, deltas, k - 1).1 == deltas[k].1,
{
    if k >= 1 {
        assert(control_point(start, deltas, k).0 == control_point(start, deltas, k - 1).0 + delta_sum(deltas, k).0);
        assert(control_point(start, deltas, k).1 == control_point(start, deltas, k - 1).1 + delta_sum(deltas, k).1);
    }
}

pub open spec fn min(a: int, b: int) -> int {
    if a < b {
        a
    } else {
        b
    }
}

/// The cap on the number of splines of a frame of `num_pixels` pixels.
pub open spec fn max_num_splines(num_pixels: int) -> int {
    min(MAX_NUM_SPLINES as int, num_pixels / 4)
}

/// The cap on the number of control-point deltas of one spline.
pub open spec fn max_num_points(num_pixels: int) -> int {
    min(MAX_NUM_CONTROL_POINTS as int, num_pixels / 2)
}

/// The quantised splines of a frame.
#[derive(Debug)]
pub struct Splines {
    pub quant_splines: Vec<QuantSpline>,
    pub quant_adjust: i32,
}

impl Splines {
    /// Within the caps of a frame of `num_pixels` pixels.
    pub open spec fn wf(&self, num_pixels: int) -> bool {
        &&& 1 <= self.quant_splines@.len() <= max_num_splines(num_pixels)
        &&& forall|i: int|
            0 <= i < self.quant_splines@.len() ==> (#[trigger] self.quant_splines@[i]).num_points() <= max_num_points(
                num_pixels as int,
            )
    }

    /// Reads the splines of a `width` × `height` frame.
    pub fn parse(bitstream: &mut Bitstream, width: u32, height: u32) -> (r: Result<Splines, FrameError>)
        ensures
            match r {
                Ok(s) => s.wf(width * height),
                Err(FrameError::TooManySplines(n)) => n > max_num_splines(width * height),
                Err(FrameError::TooManySplinePoints(n)) => n > max_num_points(width * height),
                Err(FrameError::Coding(_)) => true,
                Err(_) => false,
            },
    {
        let mut decoder = match parse_decoder(bitstream, NUM_SPLINE_CONTEXTS) {
            Ok(d) => d,
            Err(e) => return Err(FrameError::Coding(e)),
        };
        match begin_decoder(&mut decoder, bitstream) {
            Ok(()) => {},
            Err(e) => return Err(FrameError::Coding(e)),
        }
        proof {
            assert(width * height <= u32::MAX * u32::MAX) by (nonlinear_arith)
                requires
                    width <= u32::MAX,
                    height <= u32::MAX,
            ;
        }
        let num_pixels: u64 = width as u64 * height as u64;

        let raw_count = match read_varint(&mut decoder, bitstream, 2) {
            Ok(v) => v,
            Err(e) => return Err(FrameError::Coding(e)),
        };
        let num_splines: u64 = match check_num_splines(raw_count, num_pixels) {
            Ok(n) => n,
            Err(e) => return Err(e),
        };

        let mut raw: Vec<(u32, u32)> = Vec::new();
        let mut i: u64 = 0;
        while i < num_splines
            invariant
                raw@.len() == i,
                i <= num_splines,
                num_splines <= MAX_NUM_SPLINES,
            decreases num_splines - i,
        {
            let x = match read_varint(&mut decoder, bitstream, 1) {
                Ok(v) => v,
                Err(e) => return Err(FrameError::Coding(e)),
            };
            let y = match read_varint(&mut decoder, bitstream, 1) {
                Ok(v) => v,
                Err(e) => return Err(FrameError::Coding(e)),
            };
            raw.push((x, y));
            i = i + 1;
        }
        let start_points = start_points_from_raw(&raw);

        let quant_adjust = match read_varint(&mut decoder, bitstream, 0) {
            Ok(v) => unpack_signed(v),
            Err(e) => return Err(FrameError::Coding(e)),
        };

        let mut splines: Vec<QuantSpline> = Vec::new();
        let mut j: usize = 0;
        while j < start_points.len()
            invariant
                j <= start_points@.len(),
                start_points@.len() == num_splines,
                num_pixels == width * height,
                splines@.len() == j,
                forall|k: int| 0 <= k < j ==> (#[trigger] splines@[k]).num_points() <= max_num_points(num_pixels as int),
            decreases start_points@.len() - j,
        {
            let mut spline = QuantSpline::new(start_points[j]);
            match spline.decode(&mut decoder, bitstream, num_pixels) {
                Ok(()) => {},
                Err(e) => return Err(e),
            }
            splines.push(spline);
            j = j + 1;
        }

        Ok(Splines { quant_splines: splines, quant_adjust })
    }
}

/// The count of splines that a raw count `raw` stands for, if within the cap
/// of a frame of `num_pixels` pixels.
pub fn check_num_splines(raw: u32, num_pixels: u64) -> (r: Result<u64, FrameError>)
    ensures
        r is Ok <==> raw + 1 <= max_num_splines(num_pixels as int),
        r matches Ok(n) ==> n == raw + 1,
        r is Err ==> (r matches Err(FrameError::TooManySplines(n)) && n == raw + 1),
{
    let n: u64 = raw as u64 + 1;
    let max: u64 = if MAX_NUM_SPLINES < num_pixels / 4 {
        MAX_NUM_SPLINES
    } else {
        num_pixels / 4
    };
    if n > max {
        Err(FrameError::TooManySplines(n))
    } else {
        Ok(n)
    }
}

/// The count of control-point deltas `raw`, if within the cap of a frame of
/// `num_pixels` pixels.
pub fn check_num_points(raw: u32, num_pixels: u64) -> (r: Result<u64, FrameError>)
    ensures
        r is Ok <==> raw <= max_num_points(num_pixels as int),
        r matches Ok(n) ==> n == raw,
        r is Err ==> (r matches Err(FrameError::TooManySplinePoints(n)) && n == raw),
{
    let n: u64 = raw as u64;
    let max: u64 = if MAX_NUM_CONTROL_POINTS < num_pixels / 2 {
        MAX_NUM_CONTROL_POINTS
    } else {
        num_pixels / 2
    };
    if n > max {
        Err(FrameError::TooManySplinePoints(n))
    } else {
        Ok(n)
    }
}

/// A spline at `start` from the raw varints of its deltas and coefficients,
/// each zig-zag decoded.
pub fn quant_spline_from_raw(start: (i32, i32), deltas: &Vec<(u32, u32)>, xyb: &[[u32; 32]; 3], sigma: &[u32; 32]) -> (r:
    QuantSpline)
    ensures
        r.start_point == start,
        r.points_deltas@.len() == deltas@.len(),
        forall|j: int|
            0 <= j < deltas@.len() ==> (#[trigger] r.points_deltas@[j]).0 as int == unpack_signed_spec(deltas@[j].0)
                && r.points_deltas@[j].1 as int == unpack_signed_spec(deltas@[j].1),
        forall|c: int, i: int|
            0 <= c < 3 && 0 <= i < 32 ==> #[trigger] r.xyb_dct[c][i] as int == unpack_signed_spec(xyb[c][i]),
        forall|i: int| 0 <= i < 32 ==> #[trigger] r.sigma_dct[i] as int == unpack_signed_spec(sigma[i]),
{
    let mut points_deltas: Vec<(i32, i32)> = Vec::new();
    let mut j: usize = 0;
    while j < deltas.len()
        invariant
            j <= deltas@.len(),
            points_deltas@.len() == j,
            forall|k: int|
                0 <= k < j ==> (#[trigger] points_deltas@[k]).0 as int == unpack_signed_spec(deltas@[k].0)
                    && points_deltas@[k].1 as int == unpack_signed_spec(deltas@[k].1),
        decreases deltas@.len() - j,
    {
        let (ux, uy) = deltas[j];
        points_deltas.push((unpack_signed(ux), unpack_signed(uy)));
        j = j + 1;
    }
    let mut xyb_dct: [[i32; 32]; 3] = [[0; 32]; 3];
    let mut c: usize = 0;
    while c < 3
        invariant
            c <= 3,
            forall|d: int, i: int|
                0 <= d < c && 0 <= i < 32 ==> #[trigger] xyb_dct[d][i] as int == unpack_signed_spec(xyb[d][i]),
        decreases 3 - c,
    {
        let mut row: [i32; 32] = [0; 32];
        let mut i: usize = 0;
        while i < 32
            invariant
                i <= 32,
                c < 3,
                forall|k: int| 0 <= k < i ==> #[trigger] row[k] as int == unpack_signed_spec(xyb[c as int][k]),
            decreases 32 - i,
        {
            row[i] = unpack_signed(xyb[c][i]);
            i = i + 1;
        }
        xyb_dct[c] = row;
        c = c + 1;
    }
    let mut sigma_dct: [i32; 32] = [0; 32];
    let mut i: usize = 0;
    while i < 32
        invariant
            i <= 32,
            forall|k: int| 0 <= k < i ==> #[trigger] sigma_dct[k] as int == unpack_signed_spec(sigma[k]),
        decreases 32 - i,
    {
        sigma_dct[i] = unpack_signed(sigma[i]);
        i = i + 1;
    }
    QuantSpline { start_point: start, points_deltas, xyb_dct, sigma_dct }
}

impl QuantSpline {
    /// Reads the deltas and coefficients of this spline; on an error the
    /// spline is left as it was.
    fn decode(&mut self, decoder: &mut Decoder, bitstream: &mut Bitstream, num_pixels: u64) -> (r: Result<
        (),
        FrameError,
    >)
        ensures
            final(self).start_point == old(self).start_point,
            r is Err ==> final(self).points_deltas@ == old(self).points_deltas@ && final(self).xyb_dct
                == old(self).xyb_dct && final(self).sigma_dct == old(self).sigma_dct,
            match r {
                Ok(()) => final(self).num_points() <= max_num_points(num_pixels as int),
                Err(FrameError::TooManySplinePoints(n)) => n > max_num_points(num_pixels as int),
                Err(FrameError::Coding(_)) => true,
                Err(_) => false,
            },
    {
        let raw_count = match read_varint(decoder, bitstream, 3) {
            Ok(v) => v,
            Err(e) => return Err(FrameError::Coding(e)),
        };
        let num_points = match check_num_points(raw_count, num_pixels) {
            Ok(n) => n,
            Err(e) => return Err(e),
        };

        let mut deltas: Vec<(u32, u32)> = Vec::new();
        let mut i: u64 = 0;
        while i < num_points
            invariant
                deltas@.len() == i,
                i <= num_points,
                num_points <= max_num_points(num_pixels as int),
            decreases num_points - i,
        {
            let dx = match read_varint(decoder, bitstream, 4) {
                Ok(v) => v,
                Err(e) => return Err(FrameError::Coding(e)),
            };
            let dy = match read_varint(decoder, bitstream, 4) {
                Ok(v) => v,
                Err(e) => return Err(FrameError::Coding(e)),
            };
            deltas.push((dx, dy));
            i = i + 1;
        }

        let mut xyb: [[u32; 32]; 3] = [[0; 32]; 3];
        let mut c: usize = 0;
        while c < 3
            invariant
                c <= 3,
            decreases 3 - c,
        {
            let mut row: [u32; 32] = [0; 32];
            let mut i: usize = 0;
            while i < 32
                invariant
                    i <= 32,
                decreases 32 - i,
            {
                row[i] = match read_varint(decoder, bitstream, 5) {
                    Ok(v) => v,
                    Err(e) => return Err(FrameError::Coding(e)),
                };
                i = i + 1;
            }
            xyb[c] = row;
            c = c + 1;
        }
        let mut sigma: [u32; 32] = [0; 32];
        let mut i: usize = 0;
        while i < 32
            invariant
                i <= 32,
            decreases 32 - i,
        {
            sigma[i] = match read_varint(decoder, bitstream, 5) {
                Ok(v) => v,
                Err(e) => return Err(FrameError::Coding(e)),
            };
            i = i + 1;
        }
        *self = quant_spline_from_raw(self.start_point, &deltas, &xyb, &sigma);
        Ok(())
    }
}

/// `⌈a / b⌉` for `b > 0`.
pub open spec fn ceil_div(a: int, b: int) -> int {
    (a + b - 1) / b
}

/// `⌈|r| · iqa⌉`, where the inverse quantisation adjustment `iqa` is
/// `1 / (1 + qa/8)` for `qa ≥ 0` and `1 − qa/8` below, computed exactly.
pub open spec fn scaled_ceil(r: i32, qa: i32) -> int {
    if qa >= 0 {
        ceil_div(abs(r as int) * 8, 8 + qa)
    } else {
        ceil_div(abs(r as int) * (8 - qa), 8)
    }
}

/// `Σ ⌈|row[i]| · iqa⌉` over the first `n` coefficients.
pub open spec fn color_sum(row: Seq<i32>, qa: i32, n: int) -> int
    decreases n,
{
    if n <= 0 {
        0
    } else {
        color_sum(row, qa, n - 1) + scaled_ceil(row[n - 1], qa)
    }
}

/// `max(1, ⌈|r| · iqa⌉)²`.
pub open spec fn width_weight_sq(r: i32, qa: i32) -> int {
    let w = if scaled_ceil(r, qa) < 1 {
        1
    } else {
        scaled_ceil(r, qa)
    };
    w * w
}

/// `Σ max(1, ⌈|sigma[i]| · iqa⌉)²` over the first `n` coefficients.
pub open spec fn width_weight_sum(sigma: Seq<i32>, qa: i32, n: int) -> int
    decreases n,
{
    if n <= 0 {
        0
    } else {
        width_weight_sum(sigma, qa, n - 1) + width_weight_sq(sigma[n - 1], qa)
    }
}

/// `max(1, ⌈log2 (1 + max(X, Y, B))⌉)` of the colour estimates, where the X
/// and B estimates take `corr_x` and `corr_b` times the Y estimate on top.
pub open spec fn log_color(s: QuantSpline, qa: i32, corr_x: u32, corr_b: u32) -> int {
    let y = color_sum(s.xyb_dct[1]@, qa, 32);
    let x = color_sum(s.xyb_dct[0]@, qa, 32) + corr_x * y;
    let b = color_sum(s.xyb_dct[2]@, qa, 32) + corr_b * y;
    let m = if x >= y && x >= b {
        x
    } else if y >= b {
        y
    } else {
        b
    };
    let l = log2_ceil_spec((1 + m) as nat) as int;
    if l < 1 {
        1
    } else {
        l
    }
}

/// The area that a spline adds to the conformance estimate: its width
/// estimate times the Manhattan length of its path.
pub open spec fn area_estimate(s: QuantSpline, qa: i32, corr_x: u32, corr_b: u32, manhattan: int) -> int {
    width_weight_sum(s.sigma_dct@, qa, 32) * log_color(s, qa, corr_x, corr_b) * manhattan
}

fn scaled_ceil_exec(r: i32, qa: i32) -> (v: u64)
    ensures
        v as int == scaled_ceil(r, qa),
        v <= 0x1000_0000_0000_0000,
{
    let a: u64 = if r < 0 {
        (-(r as i64)) as u64
    } else {
        r as u64
    };
    if qa >= 0 {
        let d: u64 = 8 + qa as u64;
        proof {
            assert(abs(r as int) * 8 + d - 1 <= 0x8000_0000 * 8 + 0x8000_0007) by (nonlinear_arith)
                requires
                    abs(r as int) <= 0x8000_0000,
                    d <= 0x8000_0007,
            ;
            let num: int = a * 8 + d - 1;
            assert(num / (d as int) <= num) by (nonlinear_arith)
                requires
                    d >= 8,
                    num >= 0,
            ;
        }
        (a * 8 + d - 1) / d
    } else {
        let m: u64 = (8 - qa as i64) as u64;
        proof {
            assert(a * m <= 0x8000_0000 * 0x8000_0008) by (nonlinear_arith)
                requires
                    a <= 0x8000_0000,
                    m <= 0x8000_0008,
            ;
        }
        (a * m + 7) / 8
    }
}

impl QuantSpline {
    /// Adds the spline's area estimate, for a path of Manhattan length
    /// `manhattan` and with `corr_x` and `corr_b` the ceilings of the absolute
    /// colour correlations, to `estimated_area`, saturating at `u64::MAX`.
    pub fn add_estimated_area(
        &self,
        quant_adjust: i32,
        corr_x: u32,
        corr_b: u32,
        manhattan: u64,
        estimated_area: &mut u64,
    )
        ensures
            *final(estimated_area) as int == min(
                u64::MAX as int,
                *old(estimated_area) + area_estimate(*self, quant_adjust, corr_x, corr_b, manhattan as int),
            ),
    {
        let mut colors: [u128; 3] = [0; 3];
        let mut c: usize = 0;
        while c < 3
            invariant
                c <= 3,
                forall|j: int| 0 <= j < c ==> colors[j] as int == color_sum(self.xyb_dct[j]@, quant_adjust, 32),
                forall|j: int| 0 <= j < c ==> colors[j] <= 0x2_0000_0000_0000_0000u128,
            decreases 3 - c,
        {
            let mut sum: u128 = 0;
            let mut i: usize = 0;
            while i < 32
                invariant
                    i <= 32,
                    c < 3,
                    sum as int == color_sum(self.xyb_dct[c as int]@, quant_adjust, i as int),
                    sum <= i * 0x1000_0000_0000_0000,
                decreases 32 - i,
            {
                let v = scaled_ceil_exec(self.xyb_dct[c][i], quant_adjust);
                sum = sum + v as u128;
                i = i + 1;
            }
            colors[c] = sum;
            c = c + 1;
        }
        let y = colors[1];
        proof {
            assert(corr_x * y <= 0xFFFF_FFFF * 0x2_0000_0000_0000_0000) by (nonlinear_arith)
                requires
                    corr_x <= 0xFFFF_FFFF,
                    y <= 0x2_0000_0000_0000_0000,
            ;
            assert(corr_b * y <= 0xFFFF_FFFF * 0x2_0000_0000_0000_0000) by (nonlinear_arith)
                requires
                    corr_b <= 0xFFFF_FFFF,
                    y <= 0x2_0000_0000_0000_0000,
            ;
        }
        let x = colors[0] + corr_x as u128 * y;
        let b = colors[2] + corr_b as u128 * y;
        let m = if x >= y && x >= b {
            x
        } else if y >= b {
            y
        } else {
            b
        };
        let l = log2_ceil_wide(1 + m);
        let lc: u128 = if l < 1 {
            1
        } else {
            l as u128
        };
        assert(lc as int == log_color(*self, quant_adjust, corr_x, corr_b));

        let mut weights: u128 = 0;
        let mut i: usize = 0;
        while i < 32
            invariant
                i <= 32,
                weights as int == width_weight_sum(self.sigma_dct@, quant_adjust, i as int),
                weights <= i * 0x100_0000_0000_0000_0000_0000_0000_0000,
            decreases 32 - i,
        {
            let v = scaled_ceil_exec(self.sigma_dct[i], quant_adjust);
            let w: u128 = if v < 1 {
                1
            } else {
                v as u128
            };
            proof {
                assert(w * w <= 0x1000_0000_0000_0000 * 0x1000_0000_0000_0000) by (nonlinear_arith)
                    requires
                        w <= 0x1000_0000_0000_0000,
                ;
            }
            weights = weights + w * w;
            i = i + 1;
        }
        let ghost exact = area_estimate(*self, quant_adjust, corr_x, corr_b, manhattan as int);
        assert(exact == weights * lc * manhattan);
        if manhattan == 0 {
            assert(exact == 0) by (nonlinear_arith)
                requires
                    exact == weights * lc * manhattan,
                    manhattan == 0,
            ;
            return;
        }
        if weights > u64::MAX as u128 {
            proof {
                assert(exact >= weights) by (nonlinear_arith)
                    requires
                        exact == weights * lc * manhattan,
                        lc >= 1,
                        manhattan >= 1,
                        weights >= 0,
                ;
            }
            *estimated_area = u64::MAX;
            return;
        }
        proof {
            assert(weights * lc <= 0xFFFF_FFFF_FFFF_FFFF * 128) by (nonlinear_arith)
                requires
                    weights <= 0xFFFF_FFFF_FFFF_FFFF,
                    lc <= 128,
            ;
        }
        let scaled: u128 = weights * lc;
        match scaled.checked_mul(manhattan as u128) {
            None => {
                *estimated_area = u64::MAX;
            },
            Some(area) => {
                let total: u128 = if area > u64::MAX as u128 {
                    u64::MAX as u128
                } else {
                    area + *estimated_area as u128
                };
                if total > u64::MAX as u128 {
                    *estimated_area = u64::MAX;
                } else {
                    *estimated_area = total as u64;
                }
            },
        }
    }
}

} // verus!
