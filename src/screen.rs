use vstd::prelude::*;

verus! {

/// Width of the pixel grid.
pub const SCREEN_WIDTH: usize = 64;

/// Height of the pixel grid.
pub const SCREEN_HEIGHT: usize = 32;

/// Number of pixels, stored row by row.
pub const PIXEL_COUNT: usize = SCREEN_WIDTH * SCREEN_HEIGHT;

/// A monochrome pixel grid. Coordinates wrap around the edges: a pixel at
/// `(x, y)` is the one at `(x mod 64, y mod 32)`.
pub struct Screen {
    pub pixels: [bool; PIXEL_COUNT],
}

impl View for Screen {
    type V = Seq<bool>;

    open spec fn view(&self) -> Seq<bool> {
        self.pixels@
    }
}

/// Row-major position of the pixel at `(x, y)`, coordinates taken modulo the grid size.
pub open spec fn pixel_index(x: int, y: int) -> int {
    (y % SCREEN_HEIGHT as int) * SCREEN_WIDTH as int + (x % SCREEN_WIDTH as int)
}

/// A grid with every pixel off.
pub open spec fn blank() -> Seq<bool> {
    Seq::new(PIXEL_COUNT as nat, |k: int| false)
}

/// Number of pixels that are on.
pub open spec fn count_on(pixels: Seq<bool>) -> nat
    decreases pixels.len(),
{
    if pixels.len() == 0 {
        0
    } else {
        count_on(pixels.drop_last()) + if pixels.last() {
            1nat
        } else {
            0nat
        }
    }
}

/// Whether bit `j` of a sprite row is set, counting from the most significant bit.
pub open spec fn sprite_bit(row: u8, j: int) -> bool {
    row & (0x80u8 >> (j as u8)) != 0
}

/// Whether one of the first `n` bits of `row`, drawn at `(x, y)`, lands on pixel `k`.
pub open spec fn touched(row: u8, x: u8, y: u8, n: int, k: int) -> bool {
    exists|j: int| 0 <= j < n && sprite_bit(row, j) && k == pixel_index(x + j, y as int)
}

/// The grid after `row` has been XOR-ed onto it at `(x, y)`.
pub open spec fn drawn(pixels: Seq<bool>, row: u8, x: u8, y: u8) -> Seq<bool> {
    Seq::new(pixels.len(), |k: int| pixels[k] != touched(row, x, y, 8, k))
}

/// Whether drawing `row` at `(x, y)` lands a set bit on a pixel that is already on.
pub open spec fn collides(pixels: Seq<bool>, row: u8, x: u8, y: u8) -> bool {
    exists|j: int|
        0 <= j < 8 && sprite_bit(row, j) && #[trigger] pixels[pixel_index(x + j, y as int)]
}

proof fn lemma_pixel_index_bounds(x: int, y: int)
    ensures
        0 <= pixel_index(x, y) < PIXEL_COUNT,
{
}

/// The eight pixels of one sprite row are distinct.
proof fn lemma_row_pixels_distinct(x: u8, y: u8, i: int, j: int)
    requires
        0 <= i < j < 8,
    ensures
        pixel_index(x + i, y as int) != pixel_index(x + j, y as int),
{
}

proof fn lemma_count_on_bound(pixels: Seq<bool>)
    ensures
        count_on(pixels) <= pixels.len(),
    decreases pixels.len(),
{
    if pixels.len() > 0 {
        lemma_count_on_bound(pixels.drop_last());
    }
}

/// A grid with no pixel on counts zero.
pub proof fn lemma_count_on_all_off(pixels: Seq<bool>)
    requires
        forall|k: int| 0 <= k < pixels.len() ==> !#[trigger] pixels[k],
    ensures
        count_on(pixels) == 0,
    decreases pixels.len(),
{
    if pixels.len() > 0 {
        lemma_count_on_all_off(pixels.drop_last());
    }
}

/// Drawing the same sprite row twice at the same place restores every pixel, and
/// the second draw collides exactly when the row has a set bit over a pixel that
/// was off before the first draw.
pub proof fn lemma_draw_twice(pixels: Seq<bool>, row: u8, x: u8, y: u8)
    requires
        pixels.len() == PIXEL_COUNT,
    ensures
        drawn(drawn(pixels, row, x, y), row, x, y) == pixels,
        collides(drawn(pixels, row, x, y), row, x, y) == exists|j: int|
            0 <= j < 8 && sprite_bit(row, j) && !#[trigger] pixels[pixel_index(x + j, y as int)],
{
    let once = drawn(pixels, row, x, y);
    assert(drawn(once, row, x, y) =~= pixels);
    assert forall|j: int| 0 <= j < 8 && sprite_bit(row, j) implies #[trigger] once[pixel_index(
        x + j,
        y as int,
    )] == !pixels[pixel_index(x + j, y as int)] by {
        lemma_pixel_index_bounds(x + j, y as int);
        assert(touched(row, x, y, 8, pixel_index(x + j, y as int)));
    }
    if collides(once, row, x, y) {
        let j = choose|j: int|
            0 <= j < 8 && sprite_bit(row, j) && #[trigger] once[pixel_index(x + j, y as int)];
        assert(!pixels[pixel_index(x + j, y as int)]);
    }
    if exists|j: int|
        0 <= j < 8 && sprite_bit(row, j) && !#[trigger] pixels[pixel_index(x + j, y as int)] {
        let j = choose|j: int|
            0 <= j < 8 && sprite_bit(row, j) && !#[trigger] pixels[pixel_index(x + j, y as int)];
        assert(once[pixel_index(x + j, y as int)]);
    }
}

impl Screen {
    /// A grid with every pixel off.
    pub fn default() -> (s: Self)
        ensures
            s@ == blank(),
    {
        let s = Screen { pixels: [false; PIXEL_COUNT] };
        assert(s@ =~= blank());
        s
    }

    /// Toggles the pixel at `(x, y)`.
    pub fn draw_pixel_at_location(&mut self, x: u8, y: u8)
        ensures
            final(self)@ == old(self)@.update(
                pixel_index(x as int, y as int),
                !old(self)@[pixel_index(x as int, y as int)],
            ),
    {
        let k = (y as usize % SCREEN_HEIGHT) * SCREEN_WIDTH + (x as usize % SCREEN_WIDTH);
        self.pixels[k] = !self.pixels[k];
    }

    /// XORs the eight bits of `pixel` onto the row at `(x_coord, y_coord)`, most
    /// significant bit leftmost, and reports whether a set bit met a pixel that was on.
    pub fn draw_sprite_at_location(&mut self, pixel: u8, x_coord: u8, y_coord: u8) -> (collision:
        bool)
        ensures
            final(self)@ == drawn(old(self)@, pixel, x_coord, y_coord),
            collision == collides(old(self)@, pixel, x_coord, y_coord),
    {
        let mut collision = false;
        let mut xline: u8 = 0;
        while xline < 8
            invariant
                xline <= 8,
                self@.len() == PIXEL_COUNT,
                forall|k: int|
                    0 <= k < PIXEL_COUNT ==> #[trigger] self@[k] == (old(self)@[k] != touched(
                        pixel,
                        x_coord,
                        y_coord,
                        xline as int,
                        k,
                    )),
                collision == exists|j: int|
                    0 <= j < xline && sprite_bit(pixel, j) && #[trigger] old(self)@[pixel_index(
                        x_coord + j,
                        y_coord as int,
                    )],
            decreases 8 - xline,
        {
            let mask: u8 = 0x80u8 >> xline;
            let k = (y_coord as usize % SCREEN_HEIGHT) * SCREEN_WIDTH + ((x_coord as usize
                + xline as usize) % SCREEN_WIDTH);
            let ghost kk = pixel_index(x_coord + xline, y_coord as int);
            assert(k == kk);
            if pixel & mask != 0 {
                proof {
                    if touched(pixel, x_coord, y_coord, xline as int, kk) {
                        let j = choose|j: int|
                            0 <= j < xline && sprite_bit(pixel, j) && kk == pixel_index(
                                x_coord + j,
                                y_coord as int,
                            );
                        lemma_row_pixels_distinct(x_coord, y_coord, j, xline as int);
                    }
                }
                if self.pixels[k] {
                    collision = true;
                }
                self.pixels[k] = !self.pixels[k];
            }
            proof {
                assert forall|m: int| 0 <= m < PIXEL_COUNT implies touched(
                    pixel,
                    x_coord,
                    y_coord,
                    xline + 1,
                    m,
                ) == (touched(pixel, x_coord, y_coord, xline as int, m) || (sprite_bit(
                    pixel,
                    xline as int,
                ) && m == kk)) by {
                    if touched(pixel, x_coord, y_coord, xline + 1, m) {
                        let j = choose|j: int|
                            0 <= j < xline + 1 && sprite_bit(pixel, j) && m == pixel_index(
                                x_coord + j,
                                y_coord as int,
                            );
                        if j < xline {
                            assert(touched(pixel, x_coord, y_coord, xline as int, m));
                        }
                    }
                    if touched(pixel, x_coord, y_coord, xline as int, m) {
                        let j = choose|j: int|
                            0 <= j < xline && sprite_bit(pixel, j) && m == pixel_index(
                                x_coord + j,
                                y_coord as int,
                            );
                        assert(0 <= j < xline + 1);
                    }
                    if sprite_bit(pixel, xline as int) && m == kk {
                        assert(0 <= xline < xline + 1);
                    }
                }
            }
            xline = xline + 1;
        }
        assert(self@ =~= drawn(old(self)@, pixel, x_coord, y_coord));
        collision
    }

    /// Whether the pixel at `(x, y)` is on.
    pub fn is_pixel_on(&self, x: u8, y: u8) -> (on: bool)
        ensures
            on == self@[pixel_index(x as int, y as int)],
    {
        self.pixels[(y as usize % SCREEN_HEIGHT) * SCREEN_WIDTH + (x as usize % SCREEN_WIDTH)]
    }

    /// Number of pixels that are on.
    pub fn how_many_ones(&self) -> (count: u16)
        ensures
            count == count_on(self@),
    {
        let mut count: u16 = 0;
        let mut k: usize = 0;
        while k < PIXEL_COUNT
            invariant
                k <= PIXEL_COUNT,
                self@.len() == PIXEL_COUNT,
                count == count_on(self@.subrange(0, k as int)),
            decreases PIXEL_COUNT - k,
        {
            proof {
                assert(self@.subrange(0, k + 1).drop_last() =~= self@.subrange(0, k as int));
                lemma_count_on_bound(self@.subrange(0, k as int));
            }
            if self.pixels[k] {
                count = count + 1;
            }
            k = k + 1;
        }
        assert(self@.subrange(0, PIXEL_COUNT as int) =~= self@);
        count
    }

    /// Turns every pixel off.
    pub fn clear_screen(&mut self)
        ensures
            final(self)@ == blank(),
            count_on(final(self)@) == 0,
    {
        let mut k: usize = 0;
        while k < PIXEL_COUNT
            invariant
                k <= PIXEL_COUNT,
                self@.len() == PIXEL_COUNT,
                forall|m: int| 0 <= m < k ==> !#[trigger] self@[m],
            decreases PIXEL_COUNT - k,
        {
            self.pixels[k] = false;
            k = k + 1;
        }
        assert(self@ =~= blank());
        proof {
            lemma_count_on_all_off(self@);
        }
    }
}

} // verus!
