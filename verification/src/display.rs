//! Monochrome framebuffer: a fixed 64x32 boolean pixel grid. Addressing wraps
//! modulo the grid size; mutation is XOR-only pixel toggling (plus full
//! clear), and a toggle reports a collision when it would turn an already-lit
//! pixel off. Painting the grid to a window is a backend concern and lives
//! outside this crate; the grid itself is exposed read-only for that.

use vstd::prelude::*;

verus! {

pub const DISPLAY_WIDTH: usize = 64;

pub const DISPLAY_HEIGHT: usize = 32;

/// The all-off pixel grid.
pub open spec fn blank_grid() -> Seq<bool> {
    Seq::new((DISPLAY_WIDTH * DISPLAY_HEIGHT) as nat, |i: int| false)
}

/// Index of the wrapped coordinate pair `(x, y)` in the row-major pixel grid.
pub open spec fn pixel_index(x: int, y: int) -> int {
    (y % (DISPLAY_HEIGHT as int)) * (DISPLAY_WIDTH as int) + x % (DISPLAY_WIDTH as int)
}

/// The grid after XOR-toggling `value` into the wrapped pixel `(x, y)`.
pub open spec fn toggled(g: Seq<bool>, x: int, y: int, value: bool) -> Seq<bool> {
    g.update(pixel_index(x, y), g[pixel_index(x, y)] != value)
}

/// A toggle collides exactly when the incoming value would turn an
/// already-lit pixel off.
pub open spec fn toggle_collides(g: Seq<bool>, x: int, y: int, value: bool) -> bool {
    g[pixel_index(x, y)] && value
}

pub proof fn lemma_pixel_index_bounds(x: int, y: int)
    ensures
        0 <= pixel_index(x, y) < DISPLAY_WIDTH * DISPLAY_HEIGHT,
{
    assert(0 <= x % (DISPLAY_WIDTH as int) < DISPLAY_WIDTH as int);
    assert(0 <= y % (DISPLAY_HEIGHT as int) < DISPLAY_HEIGHT as int);
}

pub struct Display {
    pub buffer: Vec<bool>,
}

impl Display {
    /// The grid always holds exactly 64 * 32 pixels.
    pub open spec fn wf(self) -> bool {
        self.buffer@.len() == DISPLAY_WIDTH * DISPLAY_HEIGHT
    }

    pub open spec fn grid(self) -> Seq<bool> {
        self.buffer@
    }

    pub fn new() -> (d: Display)
        ensures
            d.wf(),
            d.grid() == blank_grid(),
    {
        let mut buffer: Vec<bool> = Vec::new();
        while buffer.len() < DISPLAY_WIDTH * DISPLAY_HEIGHT
            invariant
                buffer@.len() <= DISPLAY_WIDTH * DISPLAY_HEIGHT,
                forall|i: int| 0 <= i < buffer@.len() ==> !buffer@[i],
            decreases DISPLAY_WIDTH * DISPLAY_HEIGHT - buffer@.len(),
        {
            buffer.push(false);
        }
        let d = Display { buffer };
        assert(d.grid() == blank_grid());
        d
    }

    /// Reset every pixel to off.
    pub fn clear(&mut self)
        requires
            old(self).wf(),
        ensures
            final(self).wf(),
            final(self).grid() == blank_grid(),
    {
        let mut i: usize = 0;
        while i < DISPLAY_WIDTH * DISPLAY_HEIGHT
            invariant
                old(self).wf(),
                self.wf(),
                i <= DISPLAY_WIDTH * DISPLAY_HEIGHT,
                forall|j: int| 0 <= j < i ==> !self.grid()[j],
            decreases DISPLAY_WIDTH * DISPLAY_HEIGHT - i,
        {
            let ghost g0 = self.grid();
            self.buffer.set(i, false);
            assert(self.grid() == g0.update(i as int, false));
            assert(forall|j: int| 0 <= j <= i ==> !self.grid()[j]);
            i = i + 1;
        }
        assert(self.grid() =~= blank_grid());
    }

    /// XOR-toggle `value` into the wrapped pixel `(x, y)`; report whether the
    /// toggle collided with an already-lit pixel.
    pub fn set(&mut self, x: usize, y: usize, value: bool) -> (flag: bool)
        requires
            old(self).wf(),
        ensures
            final(self).wf(),
            final(self).grid() == toggled(old(self).grid(), x as int, y as int, value),
            flag == toggle_collides(old(self).grid(), x as int, y as int, value),
    {
        let idx = ((y % DISPLAY_HEIGHT) * DISPLAY_WIDTH) + (x % DISPLAY_WIDTH);
        let cur = self.buffer[idx];
        let flag = cur && value;
        self.buffer.set(idx, cur != value);
        flag
    }

    /// Read the wrapped pixel `(x, y)`.
    pub fn get(&self, x: usize, y: usize) -> (v: bool)
        requires
            self.wf(),
        ensures
            v == self.grid()[pixel_index(x as int, y as int)],
    {
        let idx = ((y % DISPLAY_HEIGHT) * DISPLAY_WIDTH) + (x % DISPLAY_WIDTH);
        self.buffer[idx]
    }
}

} // verus!
