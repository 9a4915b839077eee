use vstd::prelude::*;
use crate::color::{Rgb, rgb565_color, rgb_dist};

verus! {

/// Tuning knobs of the region localizer.
///
/// Only `filter_percent` is consulted. The other fields are reserved: they are carried
/// along unchanged and have no effect on any result. The aspect-ratio bounds are held in
/// hundredths.
#[derive(Debug, Clone, Copy, PartialEq, Eq, Structural)]
pub struct AnalysisConfig {
    pub edge_threshold: i32,
    pub min_dimension: usize,
    pub aspect_ratio_min_centi: u32,
    pub aspect_ratio_max_centi: u32,
    pub filter_percent: u8,
}

/// What the localizer reports for a frame that shows a bead.
#[derive(Debug, Clone, Copy, PartialEq, Eq, Structural)]
pub struct BeadAnalysis {
    pub average_color: Rgb,
    pub pixel_count: u32,
    pub variance: u32,
}

/// The share of ring pixels, in percent, that the refinement keeps by default.
pub const DEFAULT_FILTER_PERCENT: u8 = 60;

/// Scores below this reject the frame.
pub const SCORE_CUTOFF: i64 = -200000;

/// Running sums over a set of pixels: how many, the per-channel sums and the per-channel
/// sums of squares.
pub struct Tally {
    pub count: int,
    pub sum_r: int,
    pub sum_g: int,
    pub sum_b: int,
    pub sq_r: int,
    pub sq_g: int,
    pub sq_b: int,
}

/// The sums over no pixels.
pub open spec fn tally_zero() -> Tally {
    Tally { count: 0, sum_r: 0, sum_g: 0, sum_b: 0, sq_r: 0, sq_g: 0, sq_b: 0 }
}

/// The sums `t` with one more pixel of color `c`.
pub open spec fn tally_add(t: Tally, c: Rgb) -> Tally {
    Tally {
        count: t.count + 1,
        sum_r: t.sum_r + c.r,
        sum_g: t.sum_g + c.g,
        sum_b: t.sum_b + c.b,
        sq_r: t.sq_r + c.r * c.r,
        sq_g: t.sq_g + c.g * c.g,
        sq_b: t.sq_b + c.b * c.b,
    }
}

/// A frame is usable when it has at least one pixel and the buffer holds two bytes for
/// each of its `width * height` pixels.
pub open spec fn frame_fits(data: Seq<u8>, width: int, height: int) -> bool {
    width > 0 && height > 0 && data.len() >= width * height * 2
}

/// The color of pixel number `i` (row-major), stored as a big-endian 5/6/5 word.
pub open spec fn pixel(data: Seq<u8>, i: int) -> Rgb {
    rgb565_color((data[2 * i] as int * 256 + data[2 * i + 1] as int) as u16)
}

/// The sums over the pixels whose numbers are listed in `idxs`.
pub open spec fn tally(data: Seq<u8>, idxs: Seq<int>) -> Tally
    decreases idxs.len(),
{
    if idxs.len() == 0 {
        tally_zero()
    } else {
        tally_add(tally(data, idxs.drop_last()), pixel(data, idxs.last()))
    }
}

/// Per-channel mean of sums `t` taken over `n` samples, truncated.
pub open spec fn mean_color(t: Tally, n: int) -> Rgb {
    Rgb { r: (t.sum_r / n) as u8, g: (t.sum_g / n) as u8, b: (t.sum_b / n) as u8 }
}

/// Mean of the squares minus square of the truncated mean, never below zero.
pub open spec fn channel_variance(sum: int, sq: int, n: int) -> int {
    let m = sum / n;
    if sq / n >= m * m { sq / n - m * m } else { 0 }
}

/// Sum of the three per-channel variances of sums `t` taken over `n` samples.
pub open spec fn total_variance(t: Tally, n: int) -> int {
    channel_variance(t.sum_r, t.sq_r, n) + channel_variance(t.sum_g, t.sq_g, n)
        + channel_variance(t.sum_b, t.sq_b, n)
}

/// The pixels of the calibration rectangle, columns 10..=15 of rows 3..=6, that lie
/// inside the frame, among the first `k` cells of the rectangle in row-major order.
pub open spec fn background_cells(width: int, height: int, k: int) -> Seq<int>
    decreases k,
{
    if k <= 0 {
        Seq::empty()
    } else {
        let rest = background_cells(width, height, k - 1);
        let x = 10 + (k - 1) % 6;
        let y = 3 + (k - 1) / 6;
        if x < width && y < height {
            rest.push(y * width + x)
        } else {
            rest
        }
    }
}

/// The background estimate: mean color of the calibration rectangle, black when no
/// part of the rectangle lies inside the frame.
pub open spec fn background(data: Seq<u8>, width: int, height: int) -> Rgb {
    let cells = background_cells(width, height, 24);
    if cells.len() > 0 {
        mean_color(tally(data, cells), cells.len() as int)
    } else {
        Rgb { r: 0, g: 0, b: 0 }
    }
}

/// Whether an offset from the center lies in the annulus of inner radius 3 and outer
/// radius 7.
pub open spec fn in_ring(dx: int, dy: int) -> bool {
    9 <= dx * dx + dy * dy <= 49
}

/// The pixels of the annulus around `(cx, cy)` that lie inside the frame, among the
/// first `k` cells of its 15 by 15 bounding box in row-major order.
pub open spec fn ring_cells(width: int, height: int, cx: int, cy: int, k: int) -> Seq<int>
    decreases k,
{
    if k <= 0 {
        Seq::empty()
    } else {
        let rest = ring_cells(width, height, cx, cy, k - 1);
        let dx = (k - 1) % 15 - 7;
        let dy = (k - 1) / 15 - 7;
        if in_ring(dx, dy) && 0 <= cx + dx < width && 0 <= cy + dy < height {
            rest.push((cy + dy) * width + (cx + dx))
        } else {
            rest
        }
    }
}

/// The in-frame pixels of the annulus around `(cx, cy)`, in row-major order.
pub open spec fn ring(width: int, height: int, cx: int, cy: int) -> Seq<int> {
    ring_cells(width, height, cx, cy, 225)
}

/// Column of search candidate `j`: the window spans columns 16..=24.
pub open spec fn candidate_x(j: int) -> int {
    16 + j % 9
}

/// Row of search candidate `j`: the window spans rows 16..=18.
pub open spec fn candidate_y(j: int) -> int {
    16 + j / 9
}

/// The annulus of search candidate `j`.
pub open spec fn candidate_ring(width: int, height: int, j: int) -> Seq<int> {
    ring(width, height, candidate_x(j), candidate_y(j))
}

/// Contrast of the annulus mean against the background, less an eighth of the annulus
/// variance.
pub open spec fn score(data: Seq<u8>, width: int, height: int, j: int) -> int {
    let cells = candidate_ring(width, height, j);
    let t = tally(data, cells);
    let n = cells.len() as int;
    rgb_dist(mean_color(t, n), background(data, width, height)) - total_variance(t, n) / 8
}

/// The winner among the first `k` candidates in row-major order: the highest score among
/// those whose annulus holds a pixel, the earliest of them on a tie; `None` when none
/// holds a pixel.
pub open spec fn best_candidate(data: Seq<u8>, width: int, height: int, k: int) -> Option<int>
    decreases k,
{
    if k <= 0 {
        None
    } else {
        let prev = best_candidate(data, width, height, k - 1);
        if candidate_ring(width, height, k - 1).len() == 0 {
            prev
        } else if prev is Some && score(data, width, height, k - 1) <= score(
            data,
            width,
            height,
            prev->0,
        ) {
            prev
        } else {
            Some(k - 1)
        }
    }
}


/// Sums that every set of at most `n` pixels satisfies.
pub open spec fn tally_within(t: Tally, n: int) -> bool {
    &&& 0 <= t.count <= n
    &&& 0 <= t.sum_r <= 255 * t.count
    &&& 0 <= t.sum_g <= 255 * t.count
    &&& 0 <= t.sum_b <= 255 * t.count
    &&& 0 <= t.sq_r <= 65025 * t.count
    &&& 0 <= t.sq_g <= 65025 * t.count
    &&& 0 <= t.sq_b <= 65025 * t.count
}

proof fn lemma_tally_push(data: Seq<u8>, idxs: Seq<int>, i: int)
    ensures
        tally(data, idxs.push(i)) == tally_add(tally(data, idxs), pixel(data, i)),
{
    assert(idxs.push(i).drop_last() =~= idxs);
    assert(idxs.push(i).last() == i);
}

proof fn lemma_square_bound(c: u8)
    ensures
        0 <= c * c <= 65025,
{
    assert(0 <= c * c <= 65025) by (nonlinear_arith)
        requires 0 <= c <= 255;
}

proof fn lemma_tally_within(data: Seq<u8>, idxs: Seq<int>)
    ensures
        tally_within(tally(data, idxs), idxs.len() as int),
        tally(data, idxs).count == idxs.len(),
    decreases idxs.len(),
{
    if idxs.len() > 0 {
        lemma_tally_within(data, idxs.drop_last());
        let c = pixel(data, idxs.last());
        lemma_square_bound(c.r);
        lemma_square_bound(c.g);
        lemma_square_bound(c.b);
    }
}

/// Executable counterpart of `Tally`.
struct Sums {
    count: u32,
    sum_r: u32,
    sum_g: u32,
    sum_b: u32,
    sq_r: u32,
    sq_g: u32,
    sq_b: u32,
}

impl Sums {
    spec fn view(&self) -> Tally {
        Tally {
            count: self.count as int,
            sum_r: self.sum_r as int,
            sum_g: self.sum_g as int,
            sum_b: self.sum_b as int,
            sq_r: self.sq_r as int,
            sq_g: self.sq_g as int,
            sq_b: self.sq_b as int,
        }
    }

    fn zero() -> (s: Sums)
        ensures
            s@ == tally_zero(),
    {
        Sums { count: 0, sum_r: 0, sum_g: 0, sum_b: 0, sq_r: 0, sq_g: 0, sq_b: 0 }
    }

    fn take(&mut self, c: Rgb)
        requires
            tally_within(old(self)@, 1000),
        ensures
            final(self)@ == tally_add(old(self)@, c),
            tally_within(final(self)@, 1001),
    {
        let r: u32 = c.r as u32;
        let g: u32 = c.g as u32;
        let b: u32 = c.b as u32;
        proof {
            lemma_square_bound(c.r);
            lemma_square_bound(c.g);
            lemma_square_bound(c.b);
        }
        self.sum_r = self.sum_r + r;
        self.sum_g = self.sum_g + g;
        self.sum_b = self.sum_b + b;
        self.sq_r = self.sq_r + r * r;
        self.sq_g = self.sq_g + g * g;
        self.sq_b = self.sq_b + b * b;
        self.count = self.count + 1;
    }

    /// Mean color over `n` samples.
    fn mean(&self, n: u32) -> (c: Rgb)
        requires
            n > 0,
            tally_within(self@, n as int),
        ensures
            c == mean_color(self@, n as int),
            c.r == self.sum_r / n,
            c.g == self.sum_g / n,
            c.b == self.sum_b / n,
    {
        proof {
            lemma_mean_bound(self.sum_r as int, self.count as int, n as int);
            lemma_mean_bound(self.sum_g as int, self.count as int, n as int);
            lemma_mean_bound(self.sum_b as int, self.count as int, n as int);
        }
        Rgb { r: (self.sum_r / n) as u8, g: (self.sum_g / n) as u8, b: (self.sum_b / n) as u8 }
    }

    /// Summed per-channel variance over `n` samples.
    fn variance(&self, n: u32) -> (v: u32)
        requires
            n > 0,
            tally_within(self@, n as int),
        ensures
            v == total_variance(self@, n as int),
            v <= 195075,
    {
        let vr: u32 = spread(self.sum_r, self.sq_r, self.count, n);
        let vg: u32 = spread(self.sum_g, self.sq_g, self.count, n);
        let vb: u32 = spread(self.sum_b, self.sq_b, self.count, n);
        vr + vg + vb
    }
}

proof fn lemma_mean_bound(sum: int, count: int, n: int)
    requires
        0 <= sum <= 255 * count,
        0 <= count <= n,
        n > 0,
    ensures
        0 <= sum / n <= 255,
{
    assert(sum <= 255 * n) by (nonlinear_arith)
        requires sum <= 255 * count, count <= n;
    assert(0 <= sum / n <= 255) by (nonlinear_arith)
        requires 0 <= sum <= 255 * n, n > 0;
}

fn spread(sum: u32, sq: u32, count: u32, n: u32) -> (v: u32)
    requires
        n > 0,
        count <= n,
        sum <= 255 * count,
        sq <= 65025 * count,
    ensures
        v == channel_variance(sum as int, sq as int, n as int),
        v <= 65025,
{
    proof {
        lemma_mean_bound(sum as int, count as int, n as int);
        assert(sq / n <= 65025) by (nonlinear_arith)
            requires sq <= 65025 * count, count <= n, n > 0;
    }
    let m: u32 = sum / n;
    assert(m * m <= 65025) by (nonlinear_arith)
        requires m <= 255;
    let msq: u32 = m * m;
    let q: u32 = sq / n;
    if q >= msq { q - msq } else { 0 }
}

/// Reads pixel number `i` of the frame.
fn read_pixel(data: &[u8], i: usize) -> (c: Rgb)
    requires
        2 * i + 1 < data@.len(),
    ensures
        c == pixel(data@, i as int),
{
    let len: usize = data.len();
    let hi: u16 = data[2 * i] as u16;
    let lo: u16 = data[2 * i + 1] as u16;
    Rgb::from_rgb565(hi * 256 + lo)
}

proof fn lemma_cell_in_frame(width: int, height: int, x: int, y: int)
    requires
        0 <= x < width,
        0 <= y < height,
    ensures
        0 <= y * width <= y * width + x < width * height,
        2 * (y * width + x) + 1 < width * height * 2,
{
    assert(y * width + x < width * height && 0 <= y * width) by (nonlinear_arith)
        requires 0 <= x < width, 0 <= y < height;
}

fn background_color(data: &[u8], width: usize, height: usize) -> (c: Rgb)
    requires
        frame_fits(data@, width as int, height as int),
    ensures
        c == background(data@, width as int, height as int),
{
    let len: usize = data.len();
    let mut sums = Sums::zero();
    let mut k: usize = 0;
    while k < 24
        invariant
            k <= 24,
            len == data@.len(),
            frame_fits(data@, width as int, height as int),
            sums@ == tally(data@, background_cells(width as int, height as int, k as int)),
            sums.count == background_cells(width as int, height as int, k as int).len(),
            sums.count <= k,
        decreases 24 - k,
    {
        let x: usize = 10 + k % 6;
        let y: usize = 3 + k / 6;
        if x < width && y < height {
            proof {
                lemma_cell_in_frame(width as int, height as int, x as int, y as int);
                lemma_tally_within(data@, background_cells(width as int, height as int, k as int));
                lemma_tally_push(
                    data@,
                    background_cells(width as int, height as int, k as int),
                    y * width + x,
                );
            }
            let c = read_pixel(data, y * width + x);
            sums.take(c);
        }
        k = k + 1;
    }
    if sums.count > 0 {
        proof {
            lemma_tally_within(data@, background_cells(width as int, height as int, 24));
        }
        sums.mean(sums.count)
    } else {
        Rgb { r: 0, g: 0, b: 0 }
    }
}

/// Whether box cell `k` of the annulus around `(cx, cy)` is an in-frame annulus pixel.
fn ring_cell(width: usize, height: usize, cx: usize, cy: usize, k: usize) -> (cell: Option<usize>)
    requires
        k < 225,
        16 <= cx <= 24,
        16 <= cy <= 18,
        width * height <= usize::MAX,
    ensures
        ring_cells(width as int, height as int, cx as int, cy as int, k + 1) == match cell {
            Some(i) => ring_cells(width as int, height as int, cx as int, cy as int, k as int).push(
                i as int,
            ),
            None => ring_cells(width as int, height as int, cx as int, cy as int, k as int),
        },
        cell is Some ==> cell->0 < width * height,
{
    let ox: usize = k % 15;
    let oy: usize = k / 15;
    let ax: u32 = if ox >= 7 { (ox - 7) as u32 } else { (7 - ox) as u32 };
    let ay: u32 = if oy >= 7 { (oy - 7) as u32 } else { (7 - oy) as u32 };
    assert(ax * ax == (ox - 7) * (ox - 7) && ax * ax <= 49) by (nonlinear_arith)
        requires (ax == ox - 7 || ax == 7 - ox), ax <= 7;
    assert(ay * ay == (oy - 7) * (oy - 7) && ay * ay <= 49) by (nonlinear_arith)
        requires (ay == oy - 7 || ay == 7 - oy), ay <= 7;
    let d: u32 = ax * ax + ay * ay;
    let x: usize = cx + ox - 7;
    let y: usize = cy + oy - 7;
    if d >= 9 && d <= 49 && x < width && y < height {
        proof {
            lemma_cell_in_frame(width as int, height as int, x as int, y as int);
        }
        Some(y * width + x)
    } else {
        None
    }
}


proof fn lemma_ring_cells_len(width: int, height: int, cx: int, cy: int, k: int)
    requires
        0 <= k,
    ensures
        ring_cells(width, height, cx, cy, k).len() <= k,
    decreases k,
{
    if k > 0 {
        lemma_ring_cells_len(width, height, cx, cy, k - 1);
    }
}

/// Sums over the in-frame annulus around `(cx, cy)`.
fn ring_sums(data: &[u8], width: usize, height: usize, cx: usize, cy: usize) -> (sums: Sums)
    requires
        frame_fits(data@, width as int, height as int),
        16 <= cx <= 24,
        16 <= cy <= 18,
    ensures
        sums@ == tally(data@, ring(width as int, height as int, cx as int, cy as int)),
        sums.count == ring(width as int, height as int, cx as int, cy as int).len(),
        tally_within(sums@, 225),
{
    let len: usize = data.len();
    let mut sums = Sums::zero();
    let mut k: usize = 0;
    while k < 225
        invariant
            k <= 225,
            len == data@.len(),
            16 <= cx <= 24,
            16 <= cy <= 18,
            frame_fits(data@, width as int, height as int),
            sums@ == tally(
                data@,
                ring_cells(width as int, height as int, cx as int, cy as int, k as int),
            ),
            sums.count == ring_cells(
                width as int,
                height as int,
                cx as int,
                cy as int,
                k as int,
            ).len(),
        decreases 225 - k,
    {
        proof {
            lemma_ring_cells_len(width as int, height as int, cx as int, cy as int, k as int);
            lemma_tally_within(
                data@,
                ring_cells(width as int, height as int, cx as int, cy as int, k as int),
            );
        }
        match ring_cell(width, height, cx, cy, k) {
            Some(i) => {
                proof {
                    lemma_tally_push(
                        data@,
                        ring_cells(width as int, height as int, cx as int, cy as int, k as int),
                        i as int,
                    );
                }
                let c = read_pixel(data, i);
                sums.take(c);
            },
            None => {},
        }
        k = k + 1;
    }
    proof {
        lemma_ring_cells_len(width as int, height as int, cx as int, cy as int, 225);
        lemma_tally_within(data@, ring(width as int, height as int, cx as int, cy as int));
    }
    sums
}

/// The best-scoring search candidate and its score, if any annulus holds a pixel.
fn search(data: &[u8], width: usize, height: usize) -> (best: Option<(usize, i64)>)
    requires
        frame_fits(data@, width as int, height as int),
    ensures
        match best {
            Some((j, s)) => {
                &&& best_candidate(data@, width as int, height as int, 27) == Some(j as int)
                &&& j < 27
                &&& s == score(data@, width as int, height as int, j as int)
            },
            None => best_candidate(data@, width as int, height as int, 27) is None,
        },
{
    let bg = background_color(data, width, height);
    let mut best: Option<(usize, i64)> = None;
    let mut j: usize = 0;
    while j < 27
        invariant
            j <= 27,
            frame_fits(data@, width as int, height as int),
            bg == background(data@, width as int, height as int),
            match best {
                Some((b, s)) => {
                    &&& best_candidate(data@, width as int, height as int, j as int) == Some(
                        b as int,
                    )
                    &&& b < j
                    &&& s == score(data@, width as int, height as int, b as int)
                },
                None => best_candidate(data@, width as int, height as int, j as int) is None,
            },
        decreases 27 - j,
    {
        let cx: usize = 16 + j % 9;
        let cy: usize = 16 + j / 9;
        let sums = ring_sums(data, width, height, cx, cy);
        if sums.count > 0 {
            let avg = sums.mean(sums.count);
            let contrast: i64 = avg.dist(&bg) as i64;
            let penalty: i64 = (sums.variance(sums.count) / 8) as i64;
            let s: i64 = contrast - penalty;
            let better: bool = match best {
                Some((_, top)) => s > top,
                None => true,
            };
            if better {
                best = Some((j, s));
            }
        }
        j = j + 1;
    }
    best
}


/// How many pixels the refinement keeps of `n`: `percent` hundredths of them, at least
/// one.
pub open spec fn keep_count(n: int, percent: int) -> int {
    let k = n * percent / 100;
    if k >= 1 { k } else { 1 }
}

/// Squared RGB distance of each listed pixel to `mean`.
pub open spec fn distances(data: Seq<u8>, cells: Seq<int>, mean: Rgb) -> Seq<int> {
    Seq::new(cells.len(), |i: int| rgb_dist(pixel(data, cells[i]), mean))
}

/// Whether entry `j` precedes entry `i` when the entries are ordered by ascending
/// distance and entries of equal distance keep their order.
pub open spec fn comes_before(d: Seq<int>, j: int, i: int) -> bool {
    d[j] < d[i] || (d[j] == d[i] && j < i)
}

/// How many of the first `m` entries precede entry `i`.
pub open spec fn count_before(d: Seq<int>, i: int, m: int) -> int
    decreases m,
{
    if m <= 0 {
        0
    } else {
        count_before(d, i, m - 1) + if comes_before(d, m - 1, i) { 1int } else { 0int }
    }
}

/// The place of entry `i` after a stable sort by ascending distance, counted from zero.
pub open spec fn rank(d: Seq<int>, i: int) -> int {
    count_before(d, i, d.len() as int)
}

/// The pixels among the first `m` listed whose place after a stable sort by distance is
/// below `keep`.
pub open spec fn kept_cells(cells: Seq<int>, d: Seq<int>, keep: int, m: int) -> Seq<int>
    decreases m,
{
    if m <= 0 {
        Seq::empty()
    } else {
        let rest = kept_cells(cells, d, keep, m - 1);
        if rank(d, m - 1) < keep {
            rest.push(cells[m - 1])
        } else {
            rest
        }
    }
}

/// The pixels that the refinement of candidate `j` keeps: those of its annulus that are
/// nearest in color to the annulus mean.
pub open spec fn refined_cells(data: Seq<u8>, width: int, height: int, j: int, percent: int) -> Seq<
    int,
> {
    let cells = candidate_ring(width, height, j);
    let n = cells.len() as int;
    let d = distances(data, cells, mean_color(tally(data, cells), n));
    kept_cells(cells, d, keep_count(n, percent), n)
}

/// Mean color and variance of the kept pixels of candidate `j`. The sums run over the
/// kept pixels and are divided by the keep count, which is also the reported pixel
/// count.
pub open spec fn refined(data: Seq<u8>, width: int, height: int, j: int, percent: int) -> BeadAnalysis {
    let keep = keep_count(candidate_ring(width, height, j).len() as int, percent);
    let t = tally(data, refined_cells(data, width, height, j, percent));
    BeadAnalysis {
        average_color: mean_color(t, keep),
        pixel_count: keep as u32,
        variance: total_variance(t, keep) as u32,
    }
}

/// What the localizer reports: nothing for an unusable frame, for one in which no
/// candidate annulus holds a pixel, and for one whose best score is below the cutoff;
/// otherwise the refined statistics of the best candidate.
pub open spec fn bead_analysis(data: Seq<u8>, width: int, height: int, percent: int) -> Option<
    BeadAnalysis,
> {
    if !frame_fits(data, width, height) {
        None
    } else {
        match best_candidate(data, width, height, 27) {
            None => None,
            Some(j) => if score(data, width, height, j) < SCORE_CUTOFF {
                None
            } else {
                Some(refined(data, width, height, j, percent))
            },
        }
    }
}

proof fn lemma_count_before_range(d: Seq<int>, i: int, m: int)
    requires
        0 <= m,
    ensures
        0 <= count_before(d, i, m) <= m,
    decreases m,
{
    if m > 0 {
        lemma_count_before_range(d, i, m - 1);
    }
}

/// An entry that precedes another has the smaller rank.
proof fn lemma_count_before_order(d: Seq<int>, i: int, j: int, m: int)
    requires
        0 <= i < d.len(),
        0 <= j < d.len(),
        comes_before(d, i, j),
        0 <= m <= d.len(),
    ensures
        count_before(d, i, m) <= count_before(d, j, m),
        m > i ==> count_before(d, i, m) < count_before(d, j, m),
    decreases m,
{
    if m > 0 {
        lemma_count_before_order(d, i, j, m - 1);
    }
}

/// Distinct entries have distinct ranks.
proof fn lemma_rank_distinct(d: Seq<int>, i: int, j: int)
    requires
        0 <= i < d.len(),
        0 <= j < d.len(),
        i != j,
    ensures
        rank(d, i) != rank(d, j),
{
    if comes_before(d, i, j) {
        lemma_count_before_order(d, i, j, d.len() as int);
    } else {
        lemma_count_before_order(d, j, i, d.len() as int);
    }
}

/// Pairwise distinct numbers from `0..k` are at most `k` many.
proof fn lemma_pigeonhole(s: Seq<int>, k: int)
    requires
        0 <= k,
        forall|i: int| 0 <= i < s.len() ==> 0 <= #[trigger] s[i] < k,
        forall|i: int, j: int| 0 <= i < j < s.len() ==> s[i] != s[j],
    ensures
        s.len() <= k,
    decreases k,
{
    if s.len() > 0 {
        assert(0 <= s[0] < k);
        if exists|i: int| 0 <= i < s.len() && s[i] == k - 1 {
            let i = choose|i: int| 0 <= i < s.len() && s[i] == k - 1;
            let rest = s.remove(i);
            assert forall|a: int| 0 <= a < rest.len() implies 0 <= #[trigger] rest[a] < k - 1 by {
                if a < i {
                    assert(rest[a] == s[a]);
                } else {
                    assert(rest[a] == s[a + 1]);
                }
            }
            assert forall|a: int, b: int| 0 <= a < b < rest.len() implies rest[a] != rest[b] by {
                let a2 = if a < i { a } else { a + 1 };
                let b2 = if b < i { b } else { b + 1 };
                assert(rest[a] == s[a2]);
                assert(rest[b] == s[b2]);
            }
            lemma_pigeonhole(rest, k - 1);
            assert(rest.len() == s.len() - 1);
        } else {
            assert forall|a: int| 0 <= a < s.len() implies 0 <= #[trigger] s[a] < k - 1 by {
                if s[a] == k - 1 {
                    assert(0 <= a < s.len() && s[a] == k - 1);
                }
            }
            lemma_pigeonhole(s, k - 1);
        }
    }
}

/// The positions among the first `m` whose rank is below `keep`.
spec fn kept_positions(d: Seq<int>, keep: int, m: int) -> Seq<int>
    decreases m,
{
    if m <= 0 {
        Seq::empty()
    } else {
        let rest = kept_positions(d, keep, m - 1);
        if rank(d, m - 1) < keep {
            rest.push(m - 1)
        } else {
            rest
        }
    }
}

proof fn lemma_kept_positions(cells: Seq<int>, d: Seq<int>, keep: int, m: int)
    requires
        0 <= m <= d.len(),
        cells.len() == d.len(),
    ensures
        kept_positions(d, keep, m).len() == kept_cells(cells, d, keep, m).len(),
        kept_cells(cells, d, keep, m).len() <= m,
        forall|t: int|
            0 <= t < kept_positions(d, keep, m).len() ==> {
                &&& 0 <= #[trigger] kept_positions(d, keep, m)[t] < m
                &&& rank(d, kept_positions(d, keep, m)[t]) < keep
                &&& kept_cells(cells, d, keep, m)[t] == cells[kept_positions(d, keep, m)[t]]
            },
        forall|t: int, u: int|
            0 <= t < u < kept_positions(d, keep, m).len() ==> kept_positions(d, keep, m)[t]
                < kept_positions(d, keep, m)[u],
    decreases m,
{
    if m > 0 {
        lemma_kept_positions(cells, d, keep, m - 1);
    }
}

/// The refinement never keeps more pixels than the keep count.
proof fn lemma_kept_bound(cells: Seq<int>, d: Seq<int>, keep: int)
    requires
        cells.len() == d.len(),
    ensures
        kept_cells(cells, d, keep, d.len() as int).len() <= keep || kept_cells(
            cells,
            d,
            keep,
            d.len() as int,
        ).len() == 0,
{
    let n = d.len() as int;
    let pos = kept_positions(d, keep, n);
    lemma_kept_positions(cells, d, keep, n);
    let ranks = Seq::new(pos.len(), |t: int| rank(d, pos[t]));
    assert forall|t: int| 0 <= t < ranks.len() implies 0 <= #[trigger] ranks[t] < keep by {
        lemma_count_before_range(d, pos[t], n);
    }
    assert forall|t: int, u: int| 0 <= t < u < ranks.len() implies ranks[t] != ranks[u] by {
        lemma_rank_distinct(d, pos[t], pos[u]);
    }
    if ranks.len() > 0 {
        assert(0 <= ranks[0] < keep);
        lemma_pigeonhole(ranks, keep);
    }
}


/// Pixel numbers as mathematical integers.
pub open spec fn as_ints(v: Seq<usize>) -> Seq<int> {
    Seq::new(v.len(), |i: int| v[i] as int)
}

/// The in-frame annulus pixels around `(cx, cy)`, in row-major order.
fn collect_ring(width: usize, height: usize, cx: usize, cy: usize) -> (cells: Vec<usize>)
    requires
        16 <= cx <= 24,
        16 <= cy <= 18,
        width * height <= usize::MAX,
    ensures
        as_ints(cells@) == ring(width as int, height as int, cx as int, cy as int),
        cells@.len() <= 225,
        forall|t: int| 0 <= t < cells@.len() ==> #[trigger] cells@[t] < width * height,
{
    let mut cells: Vec<usize> = Vec::new();
    let mut k: usize = 0;
    while k < 225
        invariant
            k <= 225,
            16 <= cx <= 24,
            16 <= cy <= 18,
            width * height <= usize::MAX,
            as_ints(cells@) == ring_cells(
                width as int,
                height as int,
                cx as int,
                cy as int,
                k as int,
            ),
            cells@.len() <= k,
            forall|t: int| 0 <= t < cells@.len() ==> #[trigger] cells@[t] < width * height,
        decreases 225 - k,
    {
        match ring_cell(width, height, cx, cy, k) {
            Some(i) => {
                proof {
                    assert(as_ints(cells@.push(i)) =~= as_ints(cells@).push(i as int));
                }
                cells.push(i);
            },
            None => {},
        }
        k = k + 1;
    }
    cells
}

/// What the localizer found: the winning candidate, the refined statistics, the pixels
/// that the refinement kept, and whether the keep count exceeds the annulus.
struct Located {
    analysis: BeadAnalysis,
    candidate: usize,
    kept: Vec<usize>,
    padded: bool,
}

/// The refinement of search candidate `j`. A pixel is kept when fewer pixels than the
/// keep count come before it in the order by distance to the annulus mean, pixels at
/// the same distance in scan order: these are the pixels that a stable sort by
/// distance puts first.
fn refine(data: &[u8], width: usize, height: usize, j: usize, percent: u8) -> (found: Located)
    requires
        frame_fits(data@, width as int, height as int),
        j < 27,
        candidate_ring(width as int, height as int, j as int).len() > 0,
    ensures
        found.analysis == refined(data@, width as int, height as int, j as int, percent as int),
        found.candidate == j,
        as_ints(found.kept@) == refined_cells(
            data@,
            width as int,
            height as int,
            j as int,
            percent as int,
        ),
        found.padded == (keep_count(
            candidate_ring(width as int, height as int, j as int).len() as int,
            percent as int,
        ) > candidate_ring(width as int, height as int, j as int).len()),
{
    let len: usize = data.len();
    let cx: usize = 16 + j % 9;
    let cy: usize = 16 + j / 9;
    assert(width * height <= usize::MAX) by (nonlinear_arith)
        requires
            width * height * 2 <= len,
            width > 0,
            height > 0,
    ;
    let cells = collect_ring(width, height, cx, cy);
    let sums = ring_sums(data, width, height, cx, cy);
    let n: usize = cells.len();
    let mean = sums.mean(sums.count);
    let ghost ring = as_ints(cells@);
    let ghost dspec = distances(data@, ring, mean);

    let mut dists: Vec<u32> = Vec::new();
    let mut i: usize = 0;
    while i < n
        invariant
            i <= n,
            n == cells@.len(),
            n <= 225,
            len == data@.len(),
            width * height * 2 <= len,
            ring == as_ints(cells@),
            dspec == distances(data@, ring, mean),
            forall|t: int| 0 <= t < cells@.len() ==> #[trigger] cells@[t] < width * height,
            dists@.len() == i,
            forall|t: int| 0 <= t < i ==> #[trigger] dists@[t] == dspec[t],
        decreases n - i,
    {
        assert(cells@[i as int] < width * height);
        let c = read_pixel(data, cells[i]);
        let d: u32 = c.dist(&mean);
        assert(ring[i as int] == cells@[i as int]);
        dists.push(d);
        i = i + 1;
    }

    assert(n * percent <= 57375) by (nonlinear_arith)
        requires
            n <= 225,
            percent <= 255,
    ;
    let keep: u32 = if (n as u32) * (percent as u32) / 100 >= 1 {
        (n as u32) * (percent as u32) / 100
    } else {
        1
    };
    assert(keep == keep_count(n as int, percent as int));

    let mut kept: Vec<usize> = Vec::new();
    let mut kept_sums = Sums::zero();
    i = 0;
    while i < n
        invariant
            i <= n,
            n == cells@.len(),
            n <= 225,
            len == data@.len(),
            width * height * 2 <= len,
            ring == as_ints(cells@),
            dspec == distances(data@, ring, mean),
            forall|t: int| 0 <= t < cells@.len() ==> #[trigger] cells@[t] < width * height,
            dists@.len() == n,
            forall|t: int| 0 <= t < n ==> #[trigger] dists@[t] == dspec[t],
            as_ints(kept@) == kept_cells(ring, dspec, keep as int, i as int),
            kept_sums@ == tally(data@, kept_cells(ring, dspec, keep as int, i as int)),
            kept_sums.count == kept_cells(ring, dspec, keep as int, i as int).len(),
        decreases n - i,
    {
        let mut r: usize = 0;
        let mut q: usize = 0;
        while q < n
            invariant
                q <= n,
                i < n,
                dists@.len() == n,
                dspec.len() == n,
                forall|t: int| 0 <= t < n ==> #[trigger] dists@[t] == dspec[t],
                r == count_before(dspec, i as int, q as int),
                r <= q,
            decreases n - q,
        {
            if dists[q] < dists[i] || (dists[q] == dists[i] && q < i) {
                r = r + 1;
            }
            q = q + 1;
        }
        proof {
            lemma_kept_positions(ring, dspec, keep as int, i as int);
            lemma_tally_within(data@, kept_cells(ring, dspec, keep as int, i as int));
        }
        if r < keep as usize {
            assert(cells@[i as int] < width * height);
            assert(ring[i as int] == cells@[i as int]);
            proof {
                lemma_tally_push(
                    data@,
                    kept_cells(ring, dspec, keep as int, i as int),
                    cells@[i as int] as int,
                );
                assert(as_ints(kept@.push(cells@[i as int])) =~= as_ints(kept@).push(
                    cells@[i as int] as int,
                ));
            }
            let c = read_pixel(data, cells[i]);
            kept_sums.take(c);
            kept.push(cells[i]);
        }
        i = i + 1;
    }
    proof {
        lemma_kept_bound(ring, dspec, keep as int);
        lemma_tally_within(data@, kept_cells(ring, dspec, keep as int, n as int));
    }
    let average_color = kept_sums.mean(keep);
    let variance: u32 = kept_sums.variance(keep);
    Located {
        analysis: BeadAnalysis { average_color, pixel_count: keep, variance },
        candidate: j,
        kept,
        padded: keep as usize > n,
    }
}

/// The pixel number that the center of search candidate `j` has in a frame `width`
/// pixels wide.
pub open spec fn center_cell(width: int, j: int) -> int {
    candidate_y(j) * width + candidate_x(j)
}

/// The mark that the debug mask shows at pixel `i`: 1 on a kept pixel, 4 on the chosen
/// center, 0 elsewhere. When the keep count exceeds the annulus, pixel 0 is shown as
/// kept too.
pub open spec fn mask_mark(i: int, center: int, kept: Seq<int>, padded: bool) -> u8 {
    if kept.contains(i) || (padded && i == 0) {
        1
    } else if i == center {
        4
    } else {
        0
    }
}

/// The debug mask after a call that found it holding `before`. An unusable frame leaves
/// it as it was; a frame without a bead clears it; otherwise it shows the chosen center
/// and the kept pixels.
pub open spec fn debug_mask(
    data: Seq<u8>,
    width: int,
    height: int,
    percent: int,
    before: Seq<u8>,
) -> Seq<u8> {
    if !frame_fits(data, width, height) {
        before
    } else if bead_analysis(data, width, height, percent) is None {
        Seq::new(before.len(), |i: int| 0u8)
    } else {
        let j = best_candidate(data, width, height, 27)->0;
        let n = candidate_ring(width, height, j).len() as int;
        Seq::new(
            before.len(),
            |i: int|
                mask_mark(
                    i,
                    center_cell(width, j),
                    refined_cells(data, width, height, j, percent),
                    keep_count(n, percent) > n,
                ),
        )
    }
}

/// Whether the buffer holds a usable frame of the given size.
fn frame_ok(data: &[u8], width: usize, height: usize) -> (ok: bool)
    ensures
        ok == frame_fits(data@, width as int, height as int),
{
    if width == 0 || height == 0 {
        return false;
    }
    let len: usize = data.len();
    match width.checked_mul(height) {
        Some(pixels) => match pixels.checked_mul(2) {
            Some(bytes) => len >= bytes,
            None => false,
        },
        None => {
            assert(width * height * 2 > usize::MAX) by (nonlinear_arith)
                requires
                    width * height > usize::MAX,
            ;
            false
        },
    }
}

/// Runs search, rejection and refinement on a usable frame.
fn locate(data: &[u8], width: usize, height: usize, percent: u8) -> (found: Option<Located>)
    requires
        frame_fits(data@, width as int, height as int),
    ensures
        match found {
            Some(f) => {
                &&& bead_analysis(data@, width as int, height as int, percent as int) == Some(
                    f.analysis,
                )
                &&& best_candidate(data@, width as int, height as int, 27) == Some(
                    f.candidate as int,
                )
                &&& f.candidate < 27
                &&& as_ints(f.kept@) == refined_cells(
                    data@,
                    width as int,
                    height as int,
                    f.candidate as int,
                    percent as int,
                )
                &&& f.padded == (keep_count(
                    candidate_ring(width as int, height as int, f.candidate as int).len() as int,
                    percent as int,
                ) > candidate_ring(width as int, height as int, f.candidate as int).len())
            },
            None => bead_analysis(data@, width as int, height as int, percent as int) is None,
        },
{
    match search(data, width, height) {
        Some((j, s)) => {
            if s < SCORE_CUTOFF {
                None
            } else {
                proof {
                    lemma_winner_has_pixels(data@, width as int, height as int, 27);
                }
                Some(refine(data, width, height, j, percent))
            }
        },
        None => None,
    }
}

proof fn lemma_winner_has_pixels(data: Seq<u8>, width: int, height: int, k: int)
    requires
        0 <= k,
    ensures
        match best_candidate(data, width, height, k) {
            Some(j) => 0 <= j < k && candidate_ring(width, height, j).len() > 0,
            None => true,
        },
    decreases k,
{
    if k > 0 {
        lemma_winner_has_pixels(data, width, height, k - 1);
    }
}

/// Paints the debug mask.
fn paint(mask: &mut [u8], width: usize, found: &Option<Located>)
    requires
        match found {
            Some(f) => f.candidate < 27,
            None => true,
        },
    ensures
        final(mask)@.len() == old(mask)@.len(),
        forall|i: int|
            0 <= i < final(mask)@.len() ==> #[trigger] final(mask)@[i] == match found {
                Some(f) => mask_mark(
                    i,
                    center_cell(width as int, f.candidate as int),
                    as_ints(f.kept@),
                    f.padded,
                ),
                None => 0u8,
            },
{
    let len: usize = mask.len();
    let mut i: usize = 0;
    while i < len
        invariant
            i <= len,
            len == mask@.len(),
            mask@.len() == old(mask)@.len(),
            forall|t: int| 0 <= t < i ==> #[trigger] mask@[t] == 0,
        decreases len - i,
    {
        mask[i] = 0;
        i = i + 1;
    }
    match found {
        Some(f) => {
            let cx: usize = 16 + f.candidate % 9;
            let cy: usize = 16 + f.candidate / 9;
            let ghost center = center_cell(width as int, f.candidate as int);
            match cy.checked_mul(width) {
                Some(row) => match row.checked_add(cx) {
                    Some(c) => {
                        if c < len {
                            mask[c] = 4;
                        }
                    },
                    None => {},
                },
                None => {},
            }
            assert(forall|t: int|
                0 <= t < len ==> #[trigger] mask@[t] == mask_mark(
                    t,
                    center,
                    Seq::<int>::empty(),
                    false,
                ));
            let n: usize = f.kept.len();
            let ghost kept = as_ints(f.kept@);
            let mut k: usize = 0;
            while k < n
                invariant
                    k <= n,
                    n == f.kept@.len(),
                    kept == as_ints(f.kept@),
                    len == mask@.len(),
                    mask@.len() == old(mask)@.len(),
                    forall|t: int|
                        0 <= t < len ==> #[trigger] mask@[t] == mask_mark(
                            t,
                            center,
                            kept.take(k as int),
                            false,
                        ),
                decreases n - k,
            {
                let cell: usize = f.kept[k];
                proof {
                    assert(kept.take(k + 1) =~= kept.take(k as int).push(cell as int));
                    assert forall|t: int| kept.take(k + 1).contains(t) <==> (kept.take(
                        k as int,
                    ).contains(t) || t == cell) by {
                        if kept.take(k as int).contains(t) {
                            let u = choose|u: int|
                                0 <= u < kept.take(k as int).len() && kept.take(k as int)[u] == t;
                            assert(kept.take(k + 1)[u] == t);
                        }
                        if t == cell {
                            assert(kept.take(k + 1)[k as int] == t);
                        }
                    }
                }
                if cell < len {
                    mask[cell] = 1;
                }
                k = k + 1;
            }
            assert(kept.take(n as int) =~= kept);
            if f.padded && len > 0 {
                mask[0] = 1;
            }
        },
        None => {},
    }
}

impl Default for AnalysisConfig {
    /// The deployed settings: 60 percent of the annulus is kept.
    fn default() -> (config: AnalysisConfig)
        ensures
            config == (AnalysisConfig {
                edge_threshold: 40,
                min_dimension: 10,
                aspect_ratio_min_centi: 60,
                aspect_ratio_max_centi: 160,
                filter_percent: DEFAULT_FILTER_PERCENT,
            }),
    {
        AnalysisConfig {
            edge_threshold: 40,
            min_dimension: 10,
            aspect_ratio_min_centi: 60,
            aspect_ratio_max_centi: 160,
            filter_percent: DEFAULT_FILTER_PERCENT,
        }
    }
}

/// Locates the bead in a frame of big-endian 5/6/5 pixels and reports the mean color
/// and variance of the pixels nearest its annulus mean, keeping the default share.
pub fn analyze_image(data: &[u8], width: usize, height: usize) -> (out: Option<BeadAnalysis>)
    ensures
        out == bead_analysis(
            data@,
            width as int,
            height as int,
            DEFAULT_FILTER_PERCENT as int,
        ),
{
    analyze_image_debug(data, width, height, None, AnalysisConfig::default())
}

/// As `analyze_image`, with the share of kept pixels taken from `config`, and with an
/// optional mask of one byte per pixel that is painted for visualization. The mask has
/// no influence on the result.
pub fn analyze_image_debug(
    data: &[u8],
    width: usize,
    height: usize,
    mask: Option<&mut [u8]>,
    config: AnalysisConfig,
) -> (out: Option<BeadAnalysis>)
    ensures
        out == bead_analysis(data@, width as int, height as int, config.filter_percent as int),
        match mask {
            Some(m) => final(m)@ == debug_mask(
                data@,
                width as int,
                height as int,
                config.filter_percent as int,
                m@,
            ),
            None => true,
        },
{
    if !frame_ok(data, width, height) {
        return None;
    }
    let found = locate(data, width, height, config.filter_percent);
    match mask {
        Some(m) => {
            let ghost before = m@;
            paint(m, width, &found);
            assert(m@ =~= debug_mask(
                data@,
                width as int,
                height as int,
                config.filter_percent as int,
                before,
            ));
        },
        None => {},
    }
    match found {
        Some(f) => Some(f.analysis),
        None => None,
    }
}


proof fn lemma_variance_range(sum: int, sq: int, count: int, n: int)
    requires
        n > 0,
        0 <= count <= n,
        0 <= sq <= 65025 * count,
    ensures
        0 <= channel_variance(sum, sq, n) <= 65025,
{
    assert(sq / n <= 65025) by (nonlinear_arith)
        requires
            0 <= sq <= 65025 * count,
            count <= n,
            n > 0,
    ;
    let m = sum / n;
    assert(m * m >= 0) by (nonlinear_arith);
}

/// No candidate scores below minus an eighth of the largest variance.
proof fn lemma_score_floor(data: Seq<u8>, width: int, height: int, j: int)
    requires
        candidate_ring(width, height, j).len() > 0,
    ensures
        score(data, width, height, j) >= -24384,
{
    let cells = candidate_ring(width, height, j);
    let t = tally(data, cells);
    let n = cells.len() as int;
    lemma_tally_within(data, cells);
    lemma_variance_range(t.sum_r, t.sq_r, t.count, n);
    lemma_variance_range(t.sum_g, t.sq_g, t.count, n);
    lemma_variance_range(t.sum_b, t.sq_b, t.count, n);
    let m = mean_color(t, n);
    let bg = background(data, width, height);
    assert((m.r - bg.r) * (m.r - bg.r) >= 0) by (nonlinear_arith);
    assert((m.g - bg.g) * (m.g - bg.g) >= 0) by (nonlinear_arith);
    assert((m.b - bg.b) * (m.b - bg.b) >= 0) by (nonlinear_arith);
}

proof fn lemma_no_winner(data: Seq<u8>, width: int, height: int, k: int)
    requires
        0 <= k,
    ensures
        best_candidate(data, width, height, k) is None <==> forall|j: int|
            0 <= j < k ==> (#[trigger] candidate_ring(width, height, j)).len() == 0,
    decreases k,
{
    if k > 0 {
        lemma_no_winner(data, width, height, k - 1);
    }
}

/// The localizer reports no bead exactly for an unusable frame and for a frame in which
/// no candidate annulus holds a pixel. The score cutoff rejects nothing else: no score
/// falls below it. A frame of one flat color is therefore without a bead only when it
/// is too small to hold an annulus pixel.
pub proof fn lemma_no_bead_exactly_without_annulus_pixels(
    data: Seq<u8>,
    width: int,
    height: int,
    percent: int,
)
    ensures
        bead_analysis(data, width, height, percent) is None <==> (!frame_fits(data, width, height)
            || forall|j: int|
            0 <= j < 27 ==> (#[trigger] candidate_ring(width, height, j)).len() == 0),
{
    lemma_no_winner(data, width, height, 27);
    lemma_winner_has_pixels(data, width, height, 27);
    match best_candidate(data, width, height, 27) {
        Some(j) => {
            lemma_score_floor(data, width, height, j);
        },
        None => {},
    }
}


/// The winner of the search is a first maximum: its annulus holds a pixel, no candidate
/// whose annulus holds a pixel scores higher, and every such candidate before it scores
/// lower.
pub proof fn lemma_best_candidate_is_first_maximum(data: Seq<u8>, width: int, height: int, k: int)
    requires
        0 <= k,
        best_candidate(data, width, height, k) is Some,
    ensures
        0 <= best_candidate(data, width, height, k)->0 < k,
        candidate_ring(width, height, best_candidate(data, width, height, k)->0).len() > 0,
        forall|j: int|
            0 <= j < k && (#[trigger] candidate_ring(width, height, j)).len() > 0 ==> score(
                data,
                width,
                height,
                j,
            ) <= score(data, width, height, best_candidate(data, width, height, k)->0),
        forall|j: int|
            0 <= j < best_candidate(data, width, height, k)->0 && (#[trigger] candidate_ring(
                width,
                height,
                j,
            )).len() > 0 ==> score(data, width, height, j) < score(
                data,
                width,
                height,
                best_candidate(data, width, height, k)->0,
            ),
    decreases k,
{
    if k > 0 {
        lemma_no_winner(data, width, height, k - 1);
        if best_candidate(data, width, height, k - 1) is Some {
            lemma_best_candidate_is_first_maximum(data, width, height, k - 1);
        }
    }
}


/// The positions among the first `m` whose rank is `keep` or more.
spec fn dropped_positions(d: Seq<int>, keep: int, m: int) -> Seq<int>
    decreases m,
{
    if m <= 0 {
        Seq::empty()
    } else {
        let rest = dropped_positions(d, keep, m - 1);
        if rank(d, m - 1) < keep {
            rest
        } else {
            rest.push(m - 1)
        }
    }
}

proof fn lemma_dropped_positions(d: Seq<int>, keep: int, m: int)
    requires
        0 <= m <= d.len(),
    ensures
        kept_positions(d, keep, m).len() + dropped_positions(d, keep, m).len() == m,
        forall|t: int|
            0 <= t < dropped_positions(d, keep, m).len() ==> {
                &&& 0 <= #[trigger] dropped_positions(d, keep, m)[t] < m
                &&& rank(d, dropped_positions(d, keep, m)[t]) >= keep
            },
        forall|t: int, u: int|
            0 <= t < u < dropped_positions(d, keep, m).len() ==> dropped_positions(d, keep, m)[t]
                < dropped_positions(d, keep, m)[u],
    decreases m,
{
    if m > 0 {
        lemma_dropped_positions(d, keep, m - 1);
    }
}

/// An entry does not precede itself, so fewer entries precede it than there are.
proof fn lemma_rank_below_len(d: Seq<int>, i: int, m: int)
    requires
        0 <= i < m,
    ensures
        count_before(d, i, m) < m,
    decreases m,
{
    if m - 1 > i {
        lemma_rank_below_len(d, i, m - 1);
    } else {
        lemma_count_before_range(d, i, m - 1);
    }
}

/// The refinement keeps exactly the keep count of pixels, or all of them when there are
/// fewer: the ranks are the places `0..n`, each taken once.
pub proof fn lemma_kept_count(cells: Seq<int>, d: Seq<int>, keep: int)
    requires
        cells.len() == d.len(),
        0 <= keep,
    ensures
        kept_cells(cells, d, keep, d.len() as int).len() == if keep <= d.len() {
            keep
        } else {
            d.len() as int
        },
{
    let n = d.len() as int;
    lemma_kept_bound(cells, d, keep);
    lemma_kept_positions(cells, d, keep, n);
    lemma_dropped_positions(d, keep, n);
    let out = dropped_positions(d, keep, n);
    let shifted = Seq::new(out.len(), |t: int| rank(d, out[t]) - keep);
    assert forall|t: int| 0 <= t < shifted.len() implies 0 <= #[trigger] shifted[t] < n - keep by {
        lemma_rank_below_len(d, out[t], n);
    }
    assert forall|t: int, u: int| 0 <= t < u < shifted.len() implies shifted[t] != shifted[u] by {
        lemma_rank_distinct(d, out[t], out[u]);
    }
    if shifted.len() > 0 {
        assert(0 <= shifted[0] < n - keep);
        lemma_pigeonhole(shifted, n - keep);
    }
}


/// Whether every pixel of the frame has the color `c`.
pub open spec fn is_flat(data: Seq<u8>, width: int, height: int, c: Rgb) -> bool {
    forall|i: int| 0 <= i < width * height ==> #[trigger] pixel(data, i) == c
}

/// Whether every listed pixel has the color `c`.
spec fn all_of_color(data: Seq<u8>, idxs: Seq<int>, c: Rgb) -> bool {
    forall|t: int| 0 <= t < idxs.len() ==> pixel(data, #[trigger] idxs[t]) == c
}

proof fn lemma_ring_cells_in_frame(width: int, height: int, cx: int, cy: int, k: int)
    requires
        0 <= k,
        0 < width,
        0 < height,
    ensures
        forall|t: int|
            0 <= t < ring_cells(width, height, cx, cy, k).len() ==> 0 <= #[trigger] ring_cells(
                width,
                height,
                cx,
                cy,
                k,
            )[t] < width * height,
    decreases k,
{
    if k > 0 {
        lemma_ring_cells_in_frame(width, height, cx, cy, k - 1);
        let rest = ring_cells(width, height, cx, cy, k - 1);
        let all = ring_cells(width, height, cx, cy, k);
        let dx = (k - 1) % 15 - 7;
        let dy = (k - 1) / 15 - 7;
        if in_ring(dx, dy) && 0 <= cx + dx < width && 0 <= cy + dy < height {
            lemma_cell_in_frame(width, height, cx + dx, cy + dy);
            assert(all == rest.push((cy + dy) * width + (cx + dx)));
        } else {
            assert(all == rest);
        }
        assert forall|t: int| 0 <= t < all.len() implies 0 <= #[trigger] all[t] < width
            * height by {
            if t < rest.len() {
                assert(all[t] == rest[t]);
            }
        }
    }
}

/// Pixels of one color sum to multiples of that color.
proof fn lemma_tally_of_one_color(data: Seq<u8>, idxs: Seq<int>, c: Rgb)
    requires
        all_of_color(data, idxs, c),
    ensures
        tally(data, idxs) == (Tally {
            count: idxs.len() as int,
            sum_r: idxs.len() * c.r,
            sum_g: idxs.len() * c.g,
            sum_b: idxs.len() * c.b,
            sq_r: idxs.len() * (c.r * c.r),
            sq_g: idxs.len() * (c.g * c.g),
            sq_b: idxs.len() * (c.b * c.b),
        }),
    decreases idxs.len(),
{
    let n = idxs.len() as int;
    if n > 0 {
        let rest = idxs.drop_last();
        assert forall|t: int| 0 <= t < rest.len() implies pixel(data, #[trigger] rest[t]) == c by {
            assert(rest[t] == idxs[t]);
        }
        lemma_tally_of_one_color(data, rest, c);
        assert(pixel(data, idxs[n - 1]) == c);
        lemma_multiple_step(n, c.r as int);
        lemma_multiple_step(n, c.g as int);
        lemma_multiple_step(n, c.b as int);
        lemma_multiple_step(n, c.r * c.r);
        lemma_multiple_step(n, c.g * c.g);
        lemma_multiple_step(n, c.b * c.b);
    } else {
        lemma_multiple_of_zero(c.r as int);
        lemma_multiple_of_zero(c.g as int);
        lemma_multiple_of_zero(c.b as int);
        lemma_multiple_of_zero(c.r * c.r);
        lemma_multiple_of_zero(c.g * c.g);
        lemma_multiple_of_zero(c.b * c.b);
    }
}

proof fn lemma_multiple_step(n: int, x: int)
    ensures
        (n - 1) * x + x == n * x,
{
    assert((n - 1) * x + x == n * x) by (nonlinear_arith);
}

proof fn lemma_multiple_of_zero(x: int)
    ensures
        0 * x == 0,
{
}

proof fn lemma_multiple_divides(n: int, x: int)
    requires
        n > 0,
    ensures
        (n * x) / n == x,
{
    assert((n * x) / n == x) by (nonlinear_arith)
        requires
            n > 0,
    ;
}

/// Pixels of one color have that color as their mean and no variance.
proof fn lemma_statistics_of_one_color(data: Seq<u8>, idxs: Seq<int>, c: Rgb)
    requires
        all_of_color(data, idxs, c),
        idxs.len() > 0,
    ensures
        mean_color(tally(data, idxs), idxs.len() as int) == c,
        total_variance(tally(data, idxs), idxs.len() as int) == 0,
{
    let n = idxs.len() as int;
    lemma_tally_of_one_color(data, idxs, c);
    lemma_multiple_divides(n, c.r as int);
    lemma_multiple_divides(n, c.g as int);
    lemma_multiple_divides(n, c.b as int);
    lemma_multiple_divides(n, c.r * c.r);
    lemma_multiple_divides(n, c.g * c.g);
    lemma_multiple_divides(n, c.b * c.b);
}

/// A frame of one flat color in which some candidate annulus holds a pixel is reported
/// as a bead of exactly that color, without variance, when the share kept is at most
/// the whole: every candidate scores the same, none below the cutoff.
pub proof fn lemma_flat_frame_is_a_bead(
    data: Seq<u8>,
    width: int,
    height: int,
    percent: int,
    c: Rgb,
)
    requires
        frame_fits(data, width, height),
        is_flat(data, width, height, c),
        0 <= percent <= 100,
        best_candidate(data, width, height, 27) is Some,
    ensures
        bead_analysis(data, width, height, percent) == Some(
            BeadAnalysis {
                average_color: c,
                pixel_count: keep_count(
                    candidate_ring(
                        width,
                        height,
                        best_candidate(data, width, height, 27)->0,
                    ).len() as int,
                    percent,
                ) as u32,
                variance: 0,
            },
        ),
{
    let j = best_candidate(data, width, height, 27)->0;
    lemma_winner_has_pixels(data, width, height, 27);
    lemma_score_floor(data, width, height, j);
    let cells = candidate_ring(width, height, j);
    let n = cells.len() as int;
    lemma_ring_cells_in_frame(width, height, candidate_x(j), candidate_y(j), 225);
    lemma_ring_cells_len(width, height, candidate_x(j), candidate_y(j), 225);
    assert(all_of_color(data, cells, c));
    lemma_statistics_of_one_color(data, cells, c);
    let d = distances(data, cells, mean_color(tally(data, cells), n));
    let keep = keep_count(n, percent);
    assert(n * percent / 100 <= n) by (nonlinear_arith)
        requires
            0 <= percent <= 100,
            n >= 0,
    ;
    let kept = kept_cells(cells, d, keep, n);
    lemma_kept_count(cells, d, keep);
    lemma_kept_positions(cells, d, keep, n);
    assert(kept == refined_cells(data, width, height, j, percent));
    assert forall|t: int| 0 <= t < kept.len() implies pixel(data, #[trigger] kept[t]) == c by {
        let p = kept_positions(d, keep, n)[t];
        assert(kept[t] == cells[p]);
    }
    lemma_statistics_of_one_color(data, kept, c);
}

} // verus!
