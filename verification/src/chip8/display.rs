use vstd::prelude::*;

verus! {

/// Whether the pixel at column `x`, row `y` is on in the packed framebuffer
/// `fb` (32 rows of 8 bytes, one bit per pixel, bit k of a byte being column
/// 8 * byte + k of its row).
pub open spec fn spec_pixel(fb: Seq<u8>, x: int, y: int) -> bool
    recommends
        fb.len() == 256,
        0 <= x < 64,
        0 <= y < 32,
{
    fb[y * 8 + x / 8] & (1u8 << ((x % 8) as u8)) != 0
}

/// The all-off framebuffer.
pub open spec fn spec_blank_fb() -> Seq<u8> {
    Seq::new(256, |k: int| 0u8)
}

/// The 64x32 monochrome framebuffer. Every coordinate access wraps modulo the
/// width and height (toroidal addressing); how the pixels are packed into
/// bytes stays private to this type.
#[derive(Debug)]
pub struct Chip8Display {
    screen_buffer_array: Vec<u8>,
}

impl View for Chip8Display {
    type V = Seq<u8>;

    closed spec fn view(&self) -> Seq<u8> {
        self.screen_buffer_array@
    }
}

impl Chip8Display {
    pub open spec fn wf(&self) -> bool {
        self@.len() == 256
    }

    /// A display with every pixel off.
    pub fn new() -> (d: Chip8Display)
        ensures
            d.wf(),
            d@ == spec_blank_fb(),
    {
        let mut buf: Vec<u8> = Vec::new();
        let mut k: usize = 0;
        while k < 256
            invariant
                k <= 256,
                buf@.len() == k,
                forall|j: int| 0 <= j < k ==> buf@[j] == 0,
            decreases 256 - k,
        {
            buf.push(0);
            k = k + 1;
        }
        let d = Chip8Display { screen_buffer_array: buf };
        proof {
            assert(d@ =~= spec_blank_fb());
        }
        d
    }

    /// Turns the pixel at (`x` mod 64, `y` mod 32) on; every other pixel keeps
    /// its state.
    pub fn set_pixel(&mut self, x: usize, y: usize)
        requires
            old(self).wf(),
        ensures
            final(self).wf(),
            forall|i: int, j: int|
                0 <= i < 64 && 0 <= j < 32 ==> #[trigger] spec_pixel(final(self)@, i, j) == (
                if i == (x % 64) as int && j == (y % 32) as int {
                    true
                } else {
                    spec_pixel(old(self)@, i, j)
                }),
    {
        let wx = x % 64;
        let wy = y % 32;
        let idx = wy * 8 + wx / 8;
        let k: u8 = (wx % 8) as u8;
        let b = self.screen_buffer_array[idx];
        self.screen_buffer_array[idx] = b | (1u8 << k);
        proof {
            lemma_pixel_byte_update(old(self)@, self@, (wx % 8) as u8, b | (1u8 << k), wx as int, wy as int);
            assert((b | (1u8 << k)) & (1u8 << k) != 0) by (bit_vector)
                requires
                    k < 8,
            ;
            assert forall|k2: u8| k2 < 8 && k2 != k implies ((b | (1u8 << k)) & (1u8 << k2) != 0) == (
            b & (1u8 << k2) != 0) by {
                assert(((b | (1u8 << k)) & (1u8 << k2) != 0) == (b & (1u8 << k2) != 0))
                    by (bit_vector)
                    requires
                        k < 8,
                        k2 < 8,
                        k2 != k,
                ;
            }
        }
    }

    /// Reports the state of the pixel at (`x` mod 64, `y` mod 32).
    pub fn get_pixel(&self, x: usize, y: usize) -> (on: bool)
        requires
            self.wf(),
        ensures
            on == spec_pixel(self@, (x % 64) as int, (y % 32) as int),
    {
        let wx = x % 64;
        let wy = y % 32;
        let idx = wy * 8 + wx / 8;
        let k: u8 = (wx % 8) as u8;
        (self.screen_buffer_array[idx] & (1u8 << k)) != 0
    }

    /// Turns the pixel at (`x` mod 64, `y` mod 32) off; every other pixel
    /// keeps its state.
    pub fn unset_pixel(&mut self, x: usize, y: usize)
        requires
            old(self).wf(),
        ensures
            final(self).wf(),
            forall|i: int, j: int|
                0 <= i < 64 && 0 <= j < 32 ==> #[trigger] spec_pixel(final(self)@, i, j) == (
                if i == (x % 64) as int && j == (y % 32) as int {
                    false
                } else {
                    spec_pixel(old(self)@, i, j)
                }),
    {
        let wx = x % 64;
        let wy = y % 32;
        let idx = wy * 8 + wx / 8;
        let k: u8 = (wx % 8) as u8;
        let b = self.screen_buffer_array[idx];
        self.screen_buffer_array[idx] = b & !(1u8 << k);
        proof {
            lemma_pixel_byte_update(old(self)@, self@, (wx % 8) as u8, b & !(1u8 << k), wx as int, wy as int);
            assert((b & !(1u8 << k)) & (1u8 << k) == 0) by (bit_vector)
                requires
                    k < 8,
            ;
            assert forall|k2: u8| k2 < 8 && k2 != k implies ((b & !(1u8 << k)) & (1u8 << k2) != 0)
                == (b & (1u8 << k2) != 0) by {
                assert(((b & !(1u8 << k)) & (1u8 << k2) != 0) == (b & (1u8 << k2) != 0))
                    by (bit_vector)
                    requires
                        k < 8,
                        k2 < 8,
                        k2 != k,
                ;
            }
        }
    }

    /// Blits `sprite` (up to 15 rows of 8 pixels, most significant bit first)
    /// at (`x`, `y`) by XOR: a 1 bit toggles the screen pixel it lands on, a
    /// 0 bit changes nothing, and every coordinate wraps modulo the screen
    /// size. Returns true exactly when some previously set pixel was cleared.
    pub fn draw(&mut self, x: u8, y: u8, sprite: &Vec<u8>) -> (collision: bool)
        requires
            old(self).wf(),
            sprite@.len() <= 15,
        ensures
            final(self).wf(),
            spec_draw_rel(old(self)@, final(self)@, x, y, sprite@),
            collision == spec_draw_collision(old(self)@, x, y, sprite@),
    {
        let ghost s = sprite@;
        let mut collision = false;
        let mut row: usize = 0;
        while row < sprite.len()
            invariant
                self.wf(),
                s == sprite@,
                s.len() <= 15,
                row <= s.len(),
                forall|i: int, j: int|
                    0 <= i < 64 && 0 <= j < 32 ==> #[trigger] spec_pixel(self@, i, j) == (
                    spec_pixel(old(self)@, i, j) != spec_covered_upto(x, y, s, row as int, 0, i, j)),
                collision == spec_collision_upto(old(self)@, x, y, s, row as int, 0),
            decreases s.len() - row,
        {
            let sprite_row = sprite[row];
            let py = (y as usize + row) % 32;
            let mut col: usize = 0;
            while col < 8
                invariant
                    self.wf(),
                    s == sprite@,
                    s.len() <= 15,
                    row < s.len(),
                    col <= 8,
                    sprite_row == s[row as int],
                    py == (y + row) % 32,
                    forall|i: int, j: int|
                        0 <= i < 64 && 0 <= j < 32 ==> #[trigger] spec_pixel(self@, i, j) == (
                        spec_pixel(old(self)@, i, j) != spec_covered_upto(
                            x,
                            y,
                            s,
                            row as int,
                            col as int,
                            i,
                            j,
                        )),
                    collision == spec_collision_upto(old(self)@, x, y, s, row as int, col as int),
                decreases 8 - col,
            {
                let px = (x as usize + col) % 64;
                let bit = (sprite_row & (128u8 >> (col as u8))) != 0;
                let ghost r0 = row as int;
                let ghost c0 = col as int;
                proof {
                    assert(bit == spec_sprite_bit(s, r0, c0));
                    assert(spec_covers(x, y, r0, c0, px as int, py as int));
                    // no earlier sprite position lands on this pixel
                    assert(!spec_covered_upto(x, y, s, r0, c0, px as int, py as int)) by {
                        if spec_covered_upto(x, y, s, r0, c0, px as int, py as int) {
                            let (r, c) = choose|r: int, c: int|
                                0 <= r < s.len() && 0 <= c < 8 && (r < r0 || (r == r0 && c < c0))
                                    && #[trigger] spec_sprite_bit(s, r, c) && spec_covers(
                                    x,
                                    y,
                                    r,
                                    c,
                                    px as int,
                                    py as int,
                                );
                            if r < r0 {
                                lemma_mod_distinct(y + r, r0 - r, 32);
                            } else {
                                lemma_mod_distinct(x + c, c0 - c, 64);
                            }
                        }
                    }
                }
                if bit {
                    let cur = self.get_pixel(px, py);
                    proof {
                        assert(cur == spec_pixel(old(self)@, px as int, py as int));
                    }
                    let ghost fb_before = self@;
                    if cur {
                        self.unset_pixel(px, py);
                        collision = true;
                    } else {
                        self.set_pixel(px, py);
                    }
                    proof {
                        assert(spec_pixel(self@, px as int, py as int) == !cur);
                        assert(forall|i: int, j: int|
                            0 <= i < 64 && 0 <= j < 32 && (i != px as int || j != py as int)
                                ==> #[trigger] spec_pixel(self@, i, j) == spec_pixel(
                                fb_before,
                                i,
                                j,
                            ));
                    }
                } else {
                }
                proof {
                    lemma_upto_step(old(self)@, x, y, s, r0, c0, px as int, py as int);
                    if bit {
                        assert(spec_covered_upto(x, y, s, r0, c0 + 1, px as int, py as int));
                        if spec_pixel(old(self)@, px as int, py as int) {
                            assert(spec_collision_upto(old(self)@, x, y, s, r0, c0 + 1));
                        }
                    }
                }
                col = col + 1;
            }
            proof {
                lemma_upto_row_wrap(old(self)@, x, y, s, row as int);
            }
            row = row + 1;
        }
        proof {
            lemma_upto_complete(old(self)@, x, y, s);
        }
        collision
    }

    /// The coordinates of every pixel that is currently on, each exactly
    /// once, in row-major order (by row, then by column), for an external
    /// renderer; the internal packing stays hidden.
    pub fn get_set_pixel_coords(&self) -> (coords: Vec<(usize, usize)>)
        requires
            self.wf(),
        ensures
            forall|k: int|
                0 <= k < coords@.len() ==> #[trigger] coords@[k].0 < 64 && coords@[k].1 < 32
                    && spec_pixel(self@, coords@[k].0 as int, coords@[k].1 as int),
            forall|i: int, j: int|
                0 <= i < 64 && 0 <= j < 32 && #[trigger] spec_pixel(self@, i, j) ==> coords@.contains(
                    (i as usize, j as usize),
                ),
            forall|k1: int, k2: int|
                0 <= k1 < k2 < coords@.len() ==> #[trigger] coords@[k1] != #[trigger] coords@[k2],
    {
        let mut coords: Vec<(usize, usize)> = Vec::new();
        let mut y: usize = 0;
        while y < 32
            invariant
                self.wf(),
                y <= 32,
                forall|k: int|
                    0 <= k < coords@.len() ==> #[trigger] coords@[k].0 < 64 && coords@[k].1 < 32
                        && spec_pixel(self@, coords@[k].0 as int, coords@[k].1 as int),
                forall|i: int, j: int|
                    0 <= i < 64 && 0 <= j < y && #[trigger] spec_pixel(self@, i, j)
                        ==> coords@.contains((i as usize, j as usize)),
                forall|k1: int, k2: int|
                    0 <= k1 < k2 < coords@.len() ==> (coords@[k1].1 < coords@[k2].1 || (
                    coords@[k1].1 == coords@[k2].1 && coords@[k1].0 < coords@[k2].0)),
                forall|k: int| 0 <= k < coords@.len() ==> #[trigger] coords@[k].1 < y,
            decreases 32 - y,
        {
            let mut x: usize = 0;
            while x < 64
                invariant
                    self.wf(),
                    y < 32,
                    x <= 64,
                    forall|k: int|
                        0 <= k < coords@.len() ==> #[trigger] coords@[k].0 < 64 && coords@[k].1
                            < 32 && spec_pixel(self@, coords@[k].0 as int, coords@[k].1 as int),
                    forall|i: int, j: int|
                        0 <= i < 64 && 0 <= j < y && #[trigger] spec_pixel(self@, i, j)
                            ==> coords@.contains((i as usize, j as usize)),
                    forall|i: int|
                        0 <= i < x && #[trigger] spec_pixel(self@, i, y as int) ==> coords@.contains(
                            (i as usize, y),
                        ),
                    forall|k1: int, k2: int|
                        0 <= k1 < k2 < coords@.len() ==> (coords@[k1].1 < coords@[k2].1 || (
                        coords@[k1].1 == coords@[k2].1 && coords@[k1].0 < coords@[k2].0)),
                    forall|k: int|
                        0 <= k < coords@.len() ==> #[trigger] coords@[k].1 < y || (coords@[k].1
                            == y && coords@[k].0 < x),
                decreases 64 - x,
            {
                if self.get_pixel(x, y) {
                    let ghost before = coords@;
                    coords.push((x, y));
                    proof {
                        assert forall|i: int, j: int|
                            0 <= i < 64 && 0 <= j < y && #[trigger] spec_pixel(self@, i, j) implies coords@.contains(
                            (i as usize, j as usize),
                        ) by {
                            assert(before.contains((i as usize, j as usize)));
                            let k = choose|k: int|
                                0 <= k < before.len() && before[k] == (i as usize, j as usize);
                            assert(coords@[k] == (i as usize, j as usize));
                        }
                        assert forall|i: int|
                            0 <= i < x + 1 && #[trigger] spec_pixel(self@, i, y as int) implies coords@.contains(
                            (i as usize, y),
                        ) by {
                            if i < x {
                                assert(before.contains((i as usize, y)));
                                let k = choose|k: int|
                                    0 <= k < before.len() && before[k] == (i as usize, y);
                                assert(coords@[k] == (i as usize, y));
                            } else {
                                assert(coords@[before.len() as int] == (x, y));
                            }
                        }
                    }
                }
                x = x + 1;
            }
            y = y + 1;
        }
        proof {
            assert forall|k1: int, k2: int| 0 <= k1 < k2 < coords@.len() implies #[trigger] coords@[k1]
                != #[trigger] coords@[k2] by {
                assert(coords@[k1].1 < coords@[k2].1 || (coords@[k1].1 == coords@[k2].1
                    && coords@[k1].0 < coords@[k2].0));
            }
        }
        coords
    }

    /// Confirms at run time that the framebuffer has its full 256 bytes.
    pub fn check_wf(&self) -> (b: bool)
        ensures
            b == self.wf(),
    {
        self.screen_buffer_array.len() == 256
    }

    /// Turns every pixel off.
    pub fn clear(&mut self)
        requires
            old(self).wf(),
        ensures
            final(self).wf(),
            final(self)@ == spec_blank_fb(),
    {
        let mut k: usize = 0;
        while k < 256
            invariant
                k <= 256,
                self@.len() == 256,
                forall|j: int| 0 <= j < k ==> self@[j] == 0,
            decreases 256 - k,
        {
            self.screen_buffer_array[k] = 0;
            k = k + 1;
        }
        proof {
            assert(self@ =~= spec_blank_fb());
        }
    }
}

/// Whether row `r`, column `c` of a sprite is a 1 bit. Sprites are 8 pixels
/// wide, most significant bit first: column 0 is the top bit of the row byte.
pub open spec fn spec_sprite_bit(sprite: Seq<u8>, r: int, c: int) -> bool
    recommends
        0 <= r < sprite.len(),
        0 <= c < 8,
{
    sprite[r] & (128u8 >> (c as u8)) != 0
}

/// Whether sprite position (row `r`, column `c`) drawn at (`x`, `y`) lands on
/// screen pixel (`i`, `j`). Each coordinate wraps modulo the screen size.
pub open spec fn spec_covers(x: u8, y: u8, r: int, c: int, i: int, j: int) -> bool {
    (x + c) % 64 == i && (y + r) % 32 == j
}

/// Whether drawing `sprite` at (`x`, `y`) puts a 1 bit on screen pixel
/// (`i`, `j`).
pub open spec fn spec_covered_bit(x: u8, y: u8, sprite: Seq<u8>, i: int, j: int) -> bool {
    exists|r: int, c: int|
        0 <= r < sprite.len() && 0 <= c < 8 && #[trigger] spec_sprite_bit(sprite, r, c)
            && spec_covers(x, y, r, c, i, j)
}

/// The XOR blit contract: after drawing `sprite` at (`x`, `y`) on `pre`,
/// every pixel covered by a 1 bit of the sprite is toggled and every other
/// pixel keeps its state.
pub open spec fn spec_draw_rel(pre: Seq<u8>, post: Seq<u8>, x: u8, y: u8, sprite: Seq<u8>) -> bool {
    &&& post.len() == 256
    &&& forall|i: int, j: int|
        0 <= i < 64 && 0 <= j < 32 ==> #[trigger] spec_pixel(post, i, j) == (spec_pixel(pre, i, j)
            != spec_covered_bit(x, y, sprite, i, j))
}

/// Whether drawing `sprite` at (`x`, `y`) on `pre` clears at least one pixel
/// that was set: a 1 bit of the sprite lands on a set pixel.
pub open spec fn spec_draw_collision(pre: Seq<u8>, x: u8, y: u8, sprite: Seq<u8>) -> bool {
    exists|r: int, c: int|
        0 <= r < sprite.len() && 0 <= c < 8 && #[trigger] spec_sprite_bit(sprite, r, c)
            && spec_pixel(pre, (x + c) % 64, (y + r) % 32)
}

/// The part of `spec_covered_bit` contributed by the sprite positions that
/// precede row `row`, column `col` in drawing order.
spec fn spec_covered_upto(
    x: u8,
    y: u8,
    sprite: Seq<u8>,
    row: int,
    col: int,
    i: int,
    j: int,
) -> bool {
    exists|r: int, c: int|
        0 <= r < sprite.len() && 0 <= c < 8 && (r < row || (r == row && c < col))
            && #[trigger] spec_sprite_bit(sprite, r, c) && spec_covers(x, y, r, c, i, j)
}

/// The part of `spec_draw_collision` contributed by the sprite positions that
/// precede row `row`, column `col` in drawing order.
spec fn spec_collision_upto(
    pre: Seq<u8>,
    x: u8,
    y: u8,
    sprite: Seq<u8>,
    row: int,
    col: int,
) -> bool {
    exists|r: int, c: int|
        0 <= r < sprite.len() && 0 <= c < 8 && (r < row || (r == row && c < col))
            && #[trigger] spec_sprite_bit(sprite, r, c) && spec_pixel(
            pre,
            (x + c) % 64,
            (y + r) % 32,
        )
}

/// Adding a positive offset smaller than the modulus moves a value to a
/// different residue.
proof fn lemma_mod_distinct(a: int, d: int, m: int)
    requires
        m > 0,
        0 < d < m,
    ensures
        a % m != (a + d) % m,
{
    vstd::arithmetic::div_mod::lemma_fundamental_div_mod(a, m);
    vstd::arithmetic::div_mod::lemma_fundamental_div_mod(a + d, m);
    if a % m == (a + d) % m {
        let qa = a / m;
        let qb = (a + d) / m;
        assert(m * qb - m * qa == d);
        assert(false) by (nonlinear_arith)
            requires
                m * qb - m * qa == d,
                0 < d < m,
                m > 0,
        ;
    }
}

/// Relates a framebuffer update that rewrites the single byte holding pixel
/// (`wx`, `wy`) to the pixel grid: pixels in every other byte are untouched,
/// and within the rewritten byte each pixel follows its bit.
proof fn lemma_pixel_byte_update(fb0: Seq<u8>, fb1: Seq<u8>, k: u8, nb: u8, wx: int, wy: int)
    requires
        fb0.len() == 256,
        fb1.len() == 256,
        0 <= wx < 64,
        0 <= wy < 32,
        k == wx % 8,
        fb1 == fb0.update(wy * 8 + wx / 8, nb),
    ensures
        forall|i: int, j: int|
            0 <= i < 64 && 0 <= j < 32 && (i != wx || j != wy) && (j * 8 + i / 8 != wy * 8 + wx / 8)
                ==> #[trigger] spec_pixel(fb1, i, j) == spec_pixel(fb0, i, j),
        forall|i: int, j: int|
            0 <= i < 64 && 0 <= j < 32 && (i != wx || j != wy) && (j * 8 + i / 8 == wy * 8 + wx / 8)
                ==> i % 8 != k && #[trigger] spec_pixel(fb1, i, j) == (nb & (1u8 << ((i % 8) as u8))
                != 0),
        spec_pixel(fb1, wx, wy) == (nb & (1u8 << k) != 0),
{
    assert forall|i: int, j: int|
        0 <= i < 64 && 0 <= j < 32 && (i != wx || j != wy) && (j * 8 + i / 8 == wy * 8 + wx / 8)
        implies i % 8 != k && #[trigger] spec_pixel(fb1, i, j) == (nb & (1u8 << ((i % 8) as u8))
        != 0) by {
        assert(j == wy && i / 8 == wx / 8);
        assert(i != wx);
        assert(i == 8 * (i / 8) + i % 8);
        assert(wx == 8 * (wx / 8) + wx % 8);
        assert(i % 8 != wx % 8);
    }
}

/// Processing one more sprite position (row `r0`, column `c0`, which lands on
/// pixel (`px`, `py`)) extends the processed-so-far cover and collision by
/// exactly that position's contribution.
proof fn lemma_upto_step(
    pre: Seq<u8>,
    x: u8,
    y: u8,
    s: Seq<u8>,
    r0: int,
    c0: int,
    px: int,
    py: int,
)
    requires
        0 <= r0 < s.len(),
        0 <= c0 < 8,
        px == (x + c0) % 64,
        py == (y + r0) % 32,
    ensures
        forall|i: int, j: int|
            0 <= i < 64 && 0 <= j < 32 && (i != px || j != py) ==> (#[trigger] spec_covered_upto(
                x,
                y,
                s,
                r0,
                c0 + 1,
                i,
                j,
            ) == spec_covered_upto(x, y, s, r0, c0, i, j)),
        spec_covered_upto(x, y, s, r0, c0 + 1, px, py) == (spec_covered_upto(
            x,
            y,
            s,
            r0,
            c0,
            px,
            py,
        ) || spec_sprite_bit(s, r0, c0)),
        spec_collision_upto(pre, x, y, s, r0, c0 + 1) == (spec_collision_upto(
            pre,
            x,
            y,
            s,
            r0,
            c0,
        ) || (spec_sprite_bit(s, r0, c0) && spec_pixel(pre, px, py))),
{
    assert forall|i: int, j: int|
        0 <= i < 64 && 0 <= j < 32 && (i != px || j != py) implies (#[trigger] spec_covered_upto(
        x,
        y,
        s,
        r0,
        c0 + 1,
        i,
        j,
    ) == spec_covered_upto(x, y, s, r0, c0, i, j)) by {
        if spec_covered_upto(x, y, s, r0, c0 + 1, i, j) {
            let (r, c) = choose|r: int, c: int|
                0 <= r < s.len() && 0 <= c < 8 && (r < r0 || (r == r0 && c < c0 + 1))
                    && #[trigger] spec_sprite_bit(s, r, c) && spec_covers(x, y, r, c, i, j);
            if r == r0 && c == c0 {
                assert(i == px && j == py);
            } else {
                assert(spec_covered_upto(x, y, s, r0, c0, i, j));
            }
        }
        if spec_covered_upto(x, y, s, r0, c0, i, j) {
            let (r, c) = choose|r: int, c: int|
                0 <= r < s.len() && 0 <= c < 8 && (r < r0 || (r == r0 && c < c0))
                    && #[trigger] spec_sprite_bit(s, r, c) && spec_covers(x, y, r, c, i, j);
            assert(spec_covered_upto(x, y, s, r0, c0 + 1, i, j));
        }
    }
    if spec_covered_upto(x, y, s, r0, c0 + 1, px, py) {
        let (r, c) = choose|r: int, c: int|
            0 <= r < s.len() && 0 <= c < 8 && (r < r0 || (r == r0 && c < c0 + 1))
                && #[trigger] spec_sprite_bit(s, r, c) && spec_covers(x, y, r, c, px, py);
        if !(r == r0 && c == c0) {
            assert(spec_covered_upto(x, y, s, r0, c0, px, py));
        }
    }
    if spec_sprite_bit(s, r0, c0) {
        assert(spec_covers(x, y, r0, c0, px, py));
        assert(spec_covered_upto(x, y, s, r0, c0 + 1, px, py));
    }
    if spec_collision_upto(pre, x, y, s, r0, c0 + 1) {
        let (r, c) = choose|r: int, c: int|
            0 <= r < s.len() && 0 <= c < 8 && (r < r0 || (r == r0 && c < c0 + 1))
                && #[trigger] spec_sprite_bit(s, r, c) && spec_pixel(
                pre,
                (x + c) % 64,
                (y + r) % 32,
            );
        if !(r == r0 && c == c0) {
            assert(spec_collision_upto(pre, x, y, s, r0, c0));
        }
    }
    if spec_collision_upto(pre, x, y, s, r0, c0) {
        assert(spec_collision_upto(pre, x, y, s, r0, c0 + 1));
    }
    if spec_sprite_bit(s, r0, c0) && spec_pixel(pre, px, py) {
        assert(spec_collision_upto(pre, x, y, s, r0, c0 + 1));
    }
}

/// Finishing a sprite row: having processed its eight columns is the same as
/// standing at the start of the next row.
proof fn lemma_upto_row_wrap(pre: Seq<u8>, x: u8, y: u8, s: Seq<u8>, row: int)
    ensures
        forall|i: int, j: int|
            0 <= i < 64 && 0 <= j < 32 ==> (#[trigger] spec_covered_upto(x, y, s, row + 1, 0, i, j)
                == spec_covered_upto(x, y, s, row, 8, i, j)),
        spec_collision_upto(pre, x, y, s, row + 1, 0) == spec_collision_upto(pre, x, y, s, row, 8),
{
    assert forall|i: int, j: int|
        0 <= i < 64 && 0 <= j < 32 implies (#[trigger] spec_covered_upto(x, y, s, row + 1, 0, i, j)
        == spec_covered_upto(x, y, s, row, 8, i, j)) by {
        if spec_covered_upto(x, y, s, row + 1, 0, i, j) {
            let (r, c) = choose|r: int, c: int|
                0 <= r < s.len() && 0 <= c < 8 && (r < row + 1 || (r == row + 1 && c < 0))
                    && #[trigger] spec_sprite_bit(s, r, c) && spec_covers(x, y, r, c, i, j);
            assert(spec_covered_upto(x, y, s, row, 8, i, j));
        }
        if spec_covered_upto(x, y, s, row, 8, i, j) {
            let (r, c) = choose|r: int, c: int|
                0 <= r < s.len() && 0 <= c < 8 && (r < row || (r == row && c < 8))
                    && #[trigger] spec_sprite_bit(s, r, c) && spec_covers(x, y, r, c, i, j);
            assert(spec_covered_upto(x, y, s, row + 1, 0, i, j));
        }
    }
    if spec_collision_upto(pre, x, y, s, row + 1, 0) {
        let (r, c) = choose|r: int, c: int|
            0 <= r < s.len() && 0 <= c < 8 && (r < row + 1 || (r == row + 1 && c < 0))
                && #[trigger] spec_sprite_bit(s, r, c) && spec_pixel(
                pre,
                (x + c) % 64,
                (y + r) % 32,
            );
        assert(spec_collision_upto(pre, x, y, s, row, 8));
    }
    if spec_collision_upto(pre, x, y, s, row, 8) {
        let (r, c) = choose|r: int, c: int|
            0 <= r < s.len() && 0 <= c < 8 && (r < row || (r == row && c < 8))
                && #[trigger] spec_sprite_bit(s, r, c) && spec_pixel(
                pre,
                (x + c) % 64,
                (y + r) % 32,
            );
        assert(spec_collision_upto(pre, x, y, s, row + 1, 0));
    }
}

/// Having processed every sprite row is the full cover and the full collision
/// condition.
proof fn lemma_upto_complete(pre: Seq<u8>, x: u8, y: u8, s: Seq<u8>)
    ensures
        forall|i: int, j: int|
            0 <= i < 64 && 0 <= j < 32 ==> (#[trigger] spec_covered_upto(
                x,
                y,
                s,
                s.len() as int,
                0,
                i,
                j,
            ) == spec_covered_bit(x, y, s, i, j)),
        spec_collision_upto(pre, x, y, s, s.len() as int, 0) == spec_draw_collision(pre, x, y, s),
{
    assert forall|i: int, j: int|
        0 <= i < 64 && 0 <= j < 32 implies (#[trigger] spec_covered_upto(
        x,
        y,
        s,
        s.len() as int,
        0,
        i,
        j,
    ) == spec_covered_bit(x, y, s, i, j)) by {
        if spec_covered_upto(x, y, s, s.len() as int, 0, i, j) {
            let (r, c) = choose|r: int, c: int|
                0 <= r < s.len() && 0 <= c < 8 && (r < s.len() || (r == s.len() && c < 0))
                    && #[trigger] spec_sprite_bit(s, r, c) && spec_covers(x, y, r, c, i, j);
            assert(spec_covered_bit(x, y, s, i, j));
        }
        if spec_covered_bit(x, y, s, i, j) {
            let (r, c) = choose|r: int, c: int|
                0 <= r < s.len() && 0 <= c < 8 && #[trigger] spec_sprite_bit(s, r, c)
                    && spec_covers(x, y, r, c, i, j);
            assert(spec_covered_upto(x, y, s, s.len() as int, 0, i, j));
        }
    }
    if spec_collision_upto(pre, x, y, s, s.len() as int, 0) {
        let (r, c) = choose|r: int, c: int|
            0 <= r < s.len() && 0 <= c < 8 && (r < s.len() || (r == s.len() && c < 0))
                && #[trigger] spec_sprite_bit(s, r, c) && spec_pixel(
                pre,
                (x + c) % 64,
                (y + r) % 32,
            );
        assert(spec_draw_collision(pre, x, y, s));
    }
    if spec_draw_collision(pre, x, y, s) {
        let (r, c) = choose|r: int, c: int|
            0 <= r < s.len() && 0 <= c < 8 && #[trigger] spec_sprite_bit(s, r, c) && spec_pixel(
                pre,
                (x + c) % 64,
                (y + r) % 32,
            );
        assert(spec_collision_upto(pre, x, y, s, s.len() as int, 0));
    }
}

/// Clearing the display is idempotent: the state after clearing twice in a
/// row is the very state one clear produces, and in it every pixel is off.
pub proof fn lemma_clear_idempotent(once: Seq<u8>, twice: Seq<u8>)
    requires
        once == spec_blank_fb(),
        twice == spec_blank_fb(),
    ensures
        once == twice,
        forall|i: int, j: int| 0 <= i < 64 && 0 <= j < 32 ==> !spec_pixel(once, i, j),
{
    assert forall|i: int, j: int| 0 <= i < 64 && 0 <= j < 32 implies !spec_pixel(once, i, j) by {
        let k: u8 = (i % 8) as u8;
        assert(0u8 & (1u8 << k) == 0) by (bit_vector);
    }
}

/// Drawing an all-ones one-row sprite twice at the same spot, with no clear
/// in between and with the eight touched pixels initially off, turns every
/// touched pixel on and then off again, and the second draw reports a
/// collision. (If a touched pixel starts out on, the two XOR draws return it
/// to on, so the "all off afterwards" claim needs the initially-off premise.)
pub proof fn lemma_double_draw_toggles_off(
    fb0: Seq<u8>,
    fb1: Seq<u8>,
    fb2: Seq<u8>,
    x: u8,
    y: u8,
    sprite: Seq<u8>,
)
    requires
        fb0.len() == 256,
        sprite == seq![0xFFu8],
        spec_draw_rel(fb0, fb1, x, y, sprite),
        spec_draw_rel(fb1, fb2, x, y, sprite),
        forall|i: int, j: int|
            0 <= i < 64 && 0 <= j < 32 && #[trigger] spec_covered_bit(x, y, sprite, i, j)
                ==> !spec_pixel(fb0, i, j),
    ensures
        forall|i: int, j: int|
            0 <= i < 64 && 0 <= j < 32 && #[trigger] spec_covered_bit(x, y, sprite, i, j)
                ==> spec_pixel(fb1, i, j),
        spec_draw_collision(fb1, x, y, sprite),
        forall|i: int, j: int|
            0 <= i < 64 && 0 <= j < 32 && #[trigger] spec_covered_bit(x, y, sprite, i, j)
                ==> !spec_pixel(fb2, i, j),
{
    assert(spec_sprite_bit(sprite, 0, 0)) by {
        assert(0xFFu8 & (128u8 >> 0u8) != 0) by (bit_vector);
        assert(sprite[0] == 0xFFu8);
    }
    let pi = (x + 0) % 64;
    let pj = (y + 0) % 32;
    assert(spec_covers(x, y, 0, 0, pi, pj));
    assert(spec_covered_bit(x, y, sprite, pi, pj));
    assert(0 <= pi < 64 && 0 <= pj < 32);
    assert(spec_pixel(fb1, pi, pj));
    assert(spec_draw_collision(fb1, x, y, sprite)) by {
        assert(spec_sprite_bit(sprite, 0, 0) && spec_pixel(fb1, (x + 0) % 64, (y + 0) % 32));
    }
}

} // verus!
