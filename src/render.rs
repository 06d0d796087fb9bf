use vstd::prelude::*;

verus! {

/// A run of consecutive image rows, `start` included and `end` excluded,
/// rendered by one worker.
#[derive(Clone, Copy, Debug, PartialEq, Eq, Structural)]
pub struct Band {
    pub start: u32,
    pub end: u32,
}

/// Rows given to each worker when `height` rows are shared among `workers`:
/// the height divided by the worker count, rounded up.
pub open spec fn band_rows(height: nat, workers: nat) -> nat
    recommends
        workers > 0,
{
    (height + workers - 1) as nat / workers
}

/// `bands` cut the rows `0..height` into non-empty runs that follow one
/// another in order with neither gap nor overlap.
pub open spec fn tiles(bands: Seq<Band>, height: nat) -> bool {
    &&& (bands.len() == 0 <==> height == 0)
    &&& bands.len() > 0 ==> bands[0].start == 0 && bands.last().end == height
    &&& forall|i: int| 0 <= i < bands.len() ==> #[trigger] bands[i].start < bands[i].end
    &&& forall|i: int| 0 <= i < bands.len() - 1 ==> #[trigger] bands[i].end == bands[i + 1].start
}

/// Band `i` of the partition of `height` rows into runs of `rows` rows.
pub open spec fn band_at(i: nat, rows: nat, height: nat) -> Band {
    let end: nat = if (i + 1) * rows <= height { (i + 1) * rows } else { height };
    Band { start: (i * rows) as u32, end: end as u32 }
}

/// Shares the rows of an image among `workers` workers: runs of
/// `band_rows(height, workers)` rows from the top, the last one possibly
/// shorter, and never more runs than workers.
pub fn row_bands(height: u32, workers: usize) -> (r: Vec<Band>)
    requires
        workers >= 1,
    ensures
        tiles(r@, height as nat),
        r.len() <= workers,
        forall|i: int|
            0 <= i < r.len() ==> #[trigger] r@[i] == band_at(
                i as nat,
                band_rows(height as nat, workers as nat),
                height as nat,
            ),
{
    let w: u64 = workers as u64;
    let h: u64 = height as u64;
    let rows: u64 = if h % w == 0 { h / w } else { h / w + 1 };
    proof {
        let hi = h as int;
        let wi = w as int;
        vstd::arithmetic::div_mod::lemma_fundamental_div_mod(hi, wi);
        vstd::arithmetic::div_mod::lemma_fundamental_div_mod(hi + wi - 1, wi);
        assert(rows as int == (hi + wi - 1) / wi) by (nonlinear_arith)
            requires
                hi == wi * (hi / wi) + hi % wi,
                hi + wi - 1 == wi * ((hi + wi - 1) / wi) + (hi + wi - 1) % wi,
                0 <= hi % wi < wi,
                0 <= (hi + wi - 1) % wi < wi,
                rows as int == if hi % wi == 0 { hi / wi } else { hi / wi + 1 },
                wi >= 1,
                hi >= 0,
        ;
        let q = hi / wi;
        let rem = hi % wi;
        let ri = rows as int;
        assert(ri * wi >= hi) by (nonlinear_arith)
            requires
                hi == wi * q + rem,
                0 <= rem < wi,
                ri == if rem == 0 { q } else { q + 1 },
                wi >= 1,
        ;
        assert(ri <= hi) by (nonlinear_arith)
            requires
                hi == wi * q + rem,
                0 <= rem < wi,
                q >= 0,
                ri == if rem == 0 { q } else { q + 1 },
                wi >= 1,
        ;
        assert(hi > 0 ==> ri > 0) by (nonlinear_arith)
            requires
                hi == wi * q + rem,
                0 <= rem < wi,
                q >= 0,
                ri == if rem == 0 { q } else { q + 1 },
                wi >= 1,
        ;
    }
    let mut bands: Vec<Band> = Vec::new();
    let mut start: u64 = 0;
    while start < h
        invariant
            rows as int == band_rows(h as nat, w as nat),
            rows * w >= h,
            rows <= h,
            w == workers,
            h == height,
            h > 0 ==> rows > 0,
            start <= h,
            bands.len() > 0 ==> bands@.last().end == start,
            bands.len() == 0 ==> start == 0,
            start < h ==> start == bands.len() * rows,
            bands.len() > 0 ==> (bands.len() - 1) * rows < h,
            forall|i: int| 0 <= i < bands.len() ==> #[trigger] bands@[i].start < bands@[i].end,
            forall|i: int|
                0 <= i < bands.len() - 1 ==> #[trigger] bands@[i].end == bands@[i + 1].start,
            forall|i: int|
                0 <= i < bands.len() ==> #[trigger] bands@[i] == band_at(
                    i as nat,
                    rows as nat,
                    h as nat,
                ),
        decreases h - start,
    {
        let end: u64 = if h - start > rows { start + rows } else { h };
        proof {
            assert((bands.len() + 1) * rows == bands.len() * rows + rows) by (nonlinear_arith);
        }
        bands.push(Band { start: start as u32, end: end as u32 });
        start = end;
    }
    proof {
        if bands.len() > 0 {
            let n = bands.len() as int;
            let ri = rows as int;
            let wi = w as int;
            assert(n <= wi) by (nonlinear_arith)
                requires
                    (n - 1) * ri < h as int,
                    ri * wi >= h as int,
                    ri > 0,
            ;
        }
    }
    bands
}

/// Relies on num_cpus::get, documented to return at least one: the number
/// of logical cores this process may use.
#[verifier::external_body]
fn available_workers() -> (r: usize)
    ensures
        r >= 1,
{
    num_cpus::get()
}

/// Shares the rows of an image among as many workers as the machine has
/// logical cores.
pub fn worker_bands(height: u32) -> (r: Vec<Band>)
    ensures
        tiles(r@, height as nat),
{
    let workers = available_workers();
    row_bands(height, workers)
}

/// Row `row` lies in band `i`.
pub open spec fn holds_row(bands: Seq<Band>, i: int, row: nat) -> bool {
    0 <= i < bands.len() && bands[i].start <= row < bands[i].end
}

proof fn lemma_bands_ordered(bands: Seq<Band>, height: nat, i: int, j: int)
    requires
        tiles(bands, height),
        0 <= i < j < bands.len(),
    ensures
        bands[i].end <= bands[j].start,
    decreases j - i,
{
    if j > i + 1 {
        lemma_bands_ordered(bands, height, i, j - 1);
        assert(bands[j - 1].start < bands[j - 1].end);
        assert(bands[j - 1].end == bands[j].start);
    } else {
        assert(bands[i].end == bands[i + 1].start);
    }
}

proof fn lemma_row_covered(bands: Seq<Band>, height: nat, row: nat, n: int)
    requires
        tiles(bands, height),
        0 < n <= bands.len(),
        row < bands[n - 1].end,
    ensures
        exists|i: int| 0 <= i < n && #[trigger] holds_row(bands, i, row),
    decreases n,
{
    if bands[n - 1].start <= row {
        assert(holds_row(bands, n - 1, row));
    } else {
        assert(n - 1 > 0);
        assert(bands[n - 2].end == bands[n - 1].start);
        lemma_row_covered(bands, height, row, n - 1);
        let i = choose|i: int| 0 <= i < n - 1 && #[trigger] holds_row(bands, i, row);
        assert(holds_row(bands, i, row));
    }
}

/// Whenever bands tile the rows of an image, every row lies in exactly one
/// band: no row is left out and no two workers write the same pixel.
pub proof fn lemma_each_row_in_one_band(bands: Seq<Band>, height: nat, row: nat)
    requires
        tiles(bands, height),
        row < height,
    ensures
        exists|i: int| #[trigger] holds_row(bands, i, row),
        forall|i: int, j: int|
            holds_row(bands, i, row) && holds_row(bands, j, row) ==> i == j,
{
    lemma_row_covered(bands, height, row, bands.len() as int);
    assert forall|i: int, j: int|
        holds_row(bands, i, row) && holds_row(bands, j, row) implies i == j by {
        if i < j {
            lemma_bands_ordered(bands, height, i, j);
        } else if j < i {
            lemma_bands_ordered(bands, height, j, i);
        }
    }
}

/// Byte offset of pixel (x, y) in a row-major RGBA buffer `width` pixels wide.
pub open spec fn pixel_offset(width: nat, x: nat, y: nat) -> nat {
    4 * (y * width + x)
}

/// An image of `width` by `height` pixels, four bytes (red, green, blue,
/// alpha) per pixel, stored row by row from the top.
pub struct PixelBuffer {
    width: u32,
    height: u32,
    data: Vec<u8>,
}

impl PixelBuffer {
    pub closed spec fn spec_width(&self) -> nat {
        self.width as nat
    }

    pub closed spec fn spec_height(&self) -> nat {
        self.height as nat
    }

    /// The bytes of the image, row by row.
    pub closed spec fn bytes(&self) -> Seq<u8> {
        self.data@
    }

    /// Four bytes for each pixel.
    pub open spec fn wf(&self) -> bool {
        self.bytes().len() == 4 * self.spec_width() * self.spec_height()
    }

    /// The four bytes of pixel (x, y).
    pub open spec fn pixel(&self, x: nat, y: nat) -> Seq<u8> {
        let o = pixel_offset(self.spec_width(), x, y) as int;
        self.bytes().subrange(o, o + 4)
    }

    /// A black, fully transparent image, waiting for its pixels to be written.
    pub fn new(width: u32, height: u32) -> (r: PixelBuffer)
        requires
            4 * width * height <= usize::MAX,
        ensures
            r.wf(),
            r.spec_width() == width,
            r.spec_height() == height,
            forall|i: int| 0 <= i < r.bytes().len() ==> #[trigger] r.bytes()[i] == 0,
    {
        proof {
            let (w, h) = (width as int, height as int);
            assert(w * h <= 4 * w * h && 4 * w * h == 4 * (w * h)) by (nonlinear_arith)
                requires
                    w >= 0,
                    h >= 0,
            ;
        }
        let area: usize = (width as usize) * (height as usize);
        let n: usize = 4 * area;
        let data: Vec<u8> = vec![0u8; n];
        PixelBuffer { width, height, data }
    }

    pub fn width(&self) -> (r: u32)
        ensures
            r == self.spec_width(),
    {
        self.width
    }

    pub fn height(&self) -> (r: u32)
        ensures
            r == self.spec_height(),
    {
        self.height
    }

    /// Reads the four bytes of pixel (x, y).
    pub fn get_pixel(&self, x: u32, y: u32) -> (r: [u8; 4])
        requires
            self.wf(),
            x < self.spec_width(),
            y < self.spec_height(),
        ensures
            r@ == self.pixel(x as nat, y as nat),
    {
        proof {
            lemma_offset_in_bounds(self.width as nat, self.height as nat, x as nat, y as nat);
        }
        let n: usize = self.data.len();
        let o: usize = 4 * ((y as usize) * (self.width as usize) + (x as usize));
        let r = [self.data[o], self.data[o + 1], self.data[o + 2], self.data[o + 3]];
        assert(r@ =~= self.pixel(x as nat, y as nat));
        r
    }

    /// Writes the four bytes of pixel (x, y), leaving every other byte as it was.
    pub fn put_pixel(&mut self, x: u32, y: u32, px: [u8; 4])
        requires
            old(self).wf(),
            x < old(self).spec_width(),
            y < old(self).spec_height(),
        ensures
            final(self).wf(),
            final(self).spec_width() == old(self).spec_width(),
            final(self).spec_height() == old(self).spec_height(),
            final(self).bytes() == old(self).bytes().update_subrange_with(
                pixel_offset(old(self).spec_width(), x as nat, y as nat) as int,
                px@,
            ),
    {
        proof {
            lemma_offset_in_bounds(self.width as nat, self.height as nat, x as nat, y as nat);
        }
        let n: usize = self.data.len();
        let o: usize = 4 * ((y as usize) * (self.width as usize) + (x as usize));
        let ghost before = self.data@;
        self.data.set(o, px[0]);
        self.data.set(o + 1, px[1]);
        self.data.set(o + 2, px[2]);
        self.data.set(o + 3, px[3]);
        assert(self.data@ =~= before.update_subrange_with(o as int, px@));
    }

    /// Writes the rows of `band`, given as `rows` (four bytes per pixel, row
    /// by row), leaving every other row as it was.
    pub fn write_band(&mut self, band: Band, rows: &Vec<u8>)
        requires
            old(self).wf(),
            band.start <= band.end <= old(self).spec_height(),
            rows@.len() == 4 * old(self).spec_width() * (band.end - band.start),
        ensures
            final(self).wf(),
            final(self).spec_width() == old(self).spec_width(),
            final(self).spec_height() == old(self).spec_height(),
            final(self).bytes() == old(self).bytes().update_subrange_with(
                pixel_offset(old(self).spec_width(), 0, band.start as nat) as int,
                rows@,
            ),
    {
        let ghost w = self.width as int;
        let ghost (s, e, h) = (band.start as int, band.end as int, self.height as int);
        proof {
            assert(4 * w * s + 4 * w * (e - s) <= 4 * w * h) by (nonlinear_arith)
                requires
                    0 <= s <= e <= h,
                    w >= 0,
            ;
            assert(4 * (s * w + 0) == 4 * w * s && s * w <= 4 * w * s && 4 * w * s == 4 * (s * w))
                by (nonlinear_arith)
                requires
                    s >= 0,
                    w >= 0,
            ;
        }
        let n: usize = self.data.len();
        let start: usize = 4 * ((band.start as usize) * (self.width as usize));
        let ghost before = self.data@;
        let mut i: usize = 0;
        while i < rows.len()
            invariant
                self.wf(),
                self.width == w,
                self.height == h,
                start == pixel_offset(w as nat, 0, s as nat),
                start + rows@.len() <= self.data@.len(),
                i <= rows@.len(),
                self.data@.len() == before.len(),
                n == before.len(),
                forall|j: int|
                    0 <= j < before.len() ==> #[trigger] self.data@[j] == if start <= j < start
                        + i {
                        rows@[j - start]
                    } else {
                        before[j]
                    },
            decreases rows@.len() - i,
        {
            self.data.set(start + i, rows[i]);
            i = i + 1;
        }
        assert(self.data@ =~= before.update_subrange_with(start as int, rows@));
    }

    /// Hands out the bytes of the image, row by row.
    pub fn into_raw(self) -> (r: Vec<u8>)
        ensures
            r@ == self.bytes(),
    {
        self.data
    }
}

proof fn lemma_offset_in_bounds(width: nat, height: nat, x: nat, y: nat)
    requires
        x < width,
        y < height,
    ensures
        pixel_offset(width, x, y) + 4 <= 4 * width * height,
        y * width + x < width * height,
        4 * width * height == 4 * (width * height),
{
    assert(y * width + x + 1 <= width * height) by (nonlinear_arith)
        requires
            x < width,
            y < height,
    ;
    assert(4 * width * height == 4 * (width * height)) by (nonlinear_arith);
}

} // verus!
