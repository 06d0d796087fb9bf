use vstd::prelude::*;

verus! {

/// A texel coordinate brought into `0..bound`, repeating the texture in
/// both directions: `((coord mod bound) + bound) mod bound`.
pub open spec fn wrapped(coord: int, bound: int) -> int {
    ((coord % bound) + bound) % bound
}

/// Wraps a texel coordinate, already scaled by the texture size and
/// truncated toward zero, into `0..bound`.
pub fn wrap(coord: i32, bound: u32) -> (r: u32)
    requires
        bound > 0,
    ensures
        r as int == wrapped(coord as int, bound as int),
        r < bound,
        0 <= coord < bound ==> r == coord,
{
    let b: u64 = bound as u64;
    let r: u64 = if coord >= 0 {
        (coord as u64) % b
    } else {
        let k: u64 = ((-(coord as i64)) as u64) % b;
        if k == 0 { 0 } else { b - k }
    };
    proof {
        let (ci, bi) = (coord as int, bound as int);
        vstd::arithmetic::div_mod::lemma_fundamental_div_mod(ci, bi);
        vstd::arithmetic::div_mod::lemma_mod_bound(ci, bi);
        vstd::arithmetic::div_mod::lemma_add_mod_noop(ci % bi, bi, bi);
        vstd::arithmetic::div_mod::lemma_mod_self_0(bi);
        vstd::arithmetic::div_mod::lemma_small_mod((ci % bi) as nat, bi as nat);
        if 0 <= ci < bi {
            vstd::arithmetic::div_mod::lemma_small_mod(ci as nat, bi as nat);
        }
        if ci < 0 {
            let k = (-ci) % bi;
            vstd::arithmetic::div_mod::lemma_fundamental_div_mod(-ci, bi);
            vstd::arithmetic::div_mod::lemma_mod_bound(-ci, bi);
            let q1 = ci / bi;
            let q2 = (-ci) / bi;
            let want = if k == 0 { 0 } else { bi - k };
            assert(ci == bi * (-q2 - (if k == 0 { 0int } else { 1int })) + want) by (nonlinear_arith)
                requires
                    -ci == bi * q2 + k,
                    want == if k == 0 { 0 } else { bi - k },
            ;
            vstd::arithmetic::div_mod::lemma_fundamental_div_mod_converse(
                ci,
                bi,
                -q2 - (if k == 0 { 0int } else { 1int }),
                want,
            );
        }
    }
    r as u32
}

/// A decoded texture image: four bytes (red, green, blue, alpha) per texel,
/// stored row by row from the top.
pub struct Texture {
    width: u32,
    height: u32,
    pixels: Vec<u8>,
}

impl Texture {
    pub closed spec fn spec_width(&self) -> nat {
        self.width as nat
    }

    pub closed spec fn spec_height(&self) -> nat {
        self.height as nat
    }

    /// The bytes of the texture, row by row.
    pub closed spec fn bytes(&self) -> Seq<u8> {
        self.pixels@
    }

    /// Not empty, and four bytes for each texel.
    pub open spec fn wf(&self) -> bool {
        &&& self.spec_width() > 0
        &&& self.spec_height() > 0
        &&& self.bytes().len() == 4 * self.spec_width() * self.spec_height()
    }

    /// The four bytes of texel (x, y).
    pub open spec fn texel(&self, x: nat, y: nat) -> Seq<u8> {
        let o = 4 * (y * self.spec_width() + x);
        self.bytes().subrange(o as int, o + 4 as int)
    }

    /// Takes the texels of a `width` by `height` image; `None` when the image
    /// is empty or the bytes do not hold exactly four per texel.
    pub fn new(width: u32, height: u32, pixels: Vec<u8>) -> (r: Option<Texture>)
        ensures
            r is Some <==> (width > 0 && height > 0 && pixels@.len() == 4 * width * height),
            r matches Some(t) ==> t.wf() && t.spec_width() == width && t.spec_height()
                == height && t.bytes() == pixels@,
    {
        if width == 0 || height == 0 {
            return None;
        }
        let n: u128 = pixels.len() as u128;
        let w: u128 = width as u128;
        let h: u128 = height as u128;
        proof {
            assert(w * h <= 0xffff_ffff_ffff_ffff) by (nonlinear_arith)
                requires
                    w <= 0xffff_ffff,
                    h <= 0xffff_ffff,
            ;
        }
        proof {
            assert(4 * width * height == 4 * (width * height)) by (nonlinear_arith);
        }
        if n != 4 * (w * h) {
            return None;
        }
        Some(Texture { width, height, pixels })
    }

    pub fn width(&self) -> (r: u32)
        ensures
            r == self.spec_width(),
    {
        self.width
    }

    pub fn height(&self) -> (r: u32)
        ensures
            r == self.spec_height(),
    {
        self.height
    }

    /// The texel under a scaled, truncated texture coordinate, the texture
    /// repeating in both directions.
    pub fn texel_at(&self, x: i32, y: i32) -> (r: [u8; 4])
        requires
            self.wf(),
        ensures
            r@ == self.texel(
                wrapped(x as int, self.spec_width() as int) as nat,
                wrapped(y as int, self.spec_height() as int) as nat,
            ),
    {
        let tx = wrap(x, self.width);
        let ty = wrap(y, self.height);
        proof {
            let (w, h) = (self.width as int, self.height as int);
            let (a, b) = (tx as int, ty as int);
            assert(b * w + a + 1 <= w * h) by (nonlinear_arith)
                requires
                    0 <= a < w,
                    0 <= b < h,
            ;
            assert(4 * w * h == 4 * (w * h)) by (nonlinear_arith);
        }
        let n: usize = self.pixels.len();
        let o: usize = 4 * ((ty as usize) * (self.width as usize) + (tx as usize));
        let r = [self.pixels[o], self.pixels[o + 1], self.pixels[o + 2], self.pixels[o + 3]];
        assert(r@ =~= self.texel(tx as nat, ty as nat));
        r
    }
}

} // verus!
