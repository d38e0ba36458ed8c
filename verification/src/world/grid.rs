//! A dense, fixed-size two-dimensional array of optional cells.

use vstd::prelude::*;

verus! {

/// The mathematical model of a [`Grid`]: its dimensions and its slots in
/// row-major order, the slot of `(x, y)` standing at `width * y + x`.
pub struct GridView<T> {
    pub width: nat,
    pub height: nat,
    pub cells: Seq<Option<T>>,
}

impl<T> GridView<T> {
    /// There is exactly one slot per coordinate pair.
    pub open spec fn wf(self) -> bool {
        self.cells.len() == self.width * self.height
    }

    pub open spec fn in_bounds(self, x: int, y: int) -> bool {
        0 <= x < self.width && 0 <= y < self.height
    }

    pub open spec fn index(self, x: int, y: int) -> int {
        self.width * y + x
    }

    /// What is stored at `(x, y)`; nothing outside the grid.
    pub open spec fn get(self, x: int, y: int) -> Option<T> {
        if self.in_bounds(x, y) {
            self.cells[self.index(x, y)]
        } else {
            None
        }
    }

    /// The grid with `value` stored at `(x, y)`; the same grid when
    /// `(x, y)` lies outside.
    pub open spec fn set(self, x: int, y: int, value: T) -> GridView<T> {
        if self.in_bounds(x, y) {
            GridView { cells: self.cells.update(self.index(x, y), Some(value)), ..self }
        } else {
            self
        }
    }
}

/// Every coordinate pair inside a grid has a slot of its own.
pub proof fn lemma_index_in_range(width: nat, height: nat, x: int, y: int)
    requires
        0 <= x < width,
        0 <= y < height,
    ensures
        0 <= width * y + x < width * height,
{
    assert(width * y + x < width * height) by (nonlinear_arith)
        requires
            0 <= x < width,
            0 <= y < height,
    ;
    assert(0 <= width * y) by (nonlinear_arith)
        requires
            0 <= y,
    ;
}

/// Two coordinate pairs inside a grid share a slot only if they are equal.
pub proof fn lemma_index_injective(width: nat, x1: int, y1: int, x2: int, y2: int)
    requires
        0 <= x1 < width,
        0 <= x2 < width,
        width * y1 + x1 == width * y2 + x2,
    ensures
        x1 == x2,
        y1 == y2,
{
    if y1 < y2 {
        assert(width * y2 >= width * y1 + width) by (nonlinear_arith)
            requires
                y1 < y2,
        ;
    } else if y2 < y1 {
        assert(width * y1 >= width * y2 + width) by (nonlinear_arith)
            requires
                y2 < y1,
        ;
    }
}

/// Every slot of a well-formed grid belongs to a coordinate pair inside it.
pub proof fn lemma_slot_has_coordinates(width: nat, height: nat, i: int)
    requires
        0 <= i < width * height,
    ensures
        0 <= i % (width as int) < width,
        0 <= i / (width as int) < height,
        width * (i / (width as int)) + i % (width as int) == i,
{
    assert(width > 0) by (nonlinear_arith)
        requires
            0 <= i < width * height,
    ;
    let w = width as int;
    let q = i / w;
    let r = i % w;
    assert(i == w * q + r && 0 <= r < w) by (nonlinear_arith)
        requires
            w > 0,
            q == i / w,
            r == i % w,
    ;
    assert(0 <= q < height) by (nonlinear_arith)
        requires
            w > 0,
            0 <= r < w,
            0 <= w * q + r < w * height,
    ;
}

/// Whether `(cx, cy)` lies in the rectangle of `w` by `h` cells whose
/// least corner is `(x, y)`.
pub open spec fn in_rect(x: int, y: int, w: int, h: int, cx: int, cy: int) -> bool {
    x <= cx < x + w && y <= cy < y + h
}

impl<T> GridView<T> {
    /// Reading after writing: the written slot holds the new value, every
    /// other coordinate pair what it held before.
    pub proof fn lemma_get_set(self, x: int, y: int, value: T, cx: int, cy: int)
        requires
            self.wf(),
        ensures
            self.set(x, y, value).wf(),
            self.set(x, y, value).width == self.width,
            self.set(x, y, value).height == self.height,
            self.set(x, y, value).get(cx, cy) == if cx == x && cy == y && self.in_bounds(x, y) {
                Some(value)
            } else {
                self.get(cx, cy)
            },
    {
        if self.in_bounds(x, y) {
            lemma_index_in_range(self.width, self.height, x, y);
            if self.in_bounds(cx, cy) {
                lemma_index_in_range(self.width, self.height, cx, cy);
                if self.index(cx, cy) == self.index(x, y) {
                    lemma_index_injective(self.width, cx, cy, x, y);
                }
            }
        }
    }

    /// Two well-formed grids of the same dimensions that agree at every
    /// coordinate pair are the same grid.
    pub proof fn lemma_extensional(self, other: GridView<T>)
        requires
            self.wf(),
            other.wf(),
            self.width == other.width,
            self.height == other.height,
            forall|x: int, y: int| self.in_bounds(x, y) ==> self.get(x, y) == other.get(x, y),
        ensures
            self == other,
    {
        assert forall|i: int| 0 <= i < self.cells.len() implies self.cells[i] == other.cells[i] by {
            lemma_slot_has_coordinates(self.width, self.height, i);
            let x = i % (self.width as int);
            let y = i / (self.width as int);
            assert(self.in_bounds(x, y));
            assert(self.get(x, y) == other.get(x, y));
        }
        assert(self.cells =~= other.cells);
    }
}

/// A grid of `width` by `height` slots, each of which is empty or holds a
/// value. The dimensions are fixed when the grid is made.
pub struct Grid<T> {
    width: u32,
    height: u32,
    cells: Vec<Option<T>>,
}

impl<T> View for Grid<T> {
    type V = GridView<T>;

    closed spec fn view(&self) -> GridView<T> {
        GridView { width: self.width as nat, height: self.height as nat, cells: self.cells@ }
    }
}

impl<T> Grid<T> {
    #[verifier::type_invariant]
    pub open spec fn inv(&self) -> bool {
        self@.wf()
    }

    /// A grid of `width` by `height` slots, all of them empty.
    pub fn new(width: u32, height: u32) -> (grid: Grid<T>)
        requires
            width * height <= usize::MAX,
        ensures
            grid@.wf(),
            grid@.width == width,
            grid@.height == height,
            forall|i: int| 0 <= i < grid@.cells.len() ==> grid@.cells[i] is None,
            forall|x: int, y: int| (#[trigger] grid@.get(x, y)) is None,
    {
        let mut cells: Vec<Option<T>> = Vec::new();
        assert(width * height <= usize::MAX);
        let w: usize = width as usize;
        let h: usize = height as usize;
        assert(w * h == width * height) by (nonlinear_arith)
            requires
                w == width,
                h == height,
        ;
        let size: usize = w * h;
        let mut i: usize = 0;
        while i < size
            invariant
                i <= size,
                cells@.len() == i,
                forall|k: int| 0 <= k < i ==> cells@[k] is None,
            decreases size - i,
        {
            cells.push(None);
            i += 1;
        }
        let grid = Grid { width, height, cells };
        proof {
            assert forall|x: int, y: int| (#[trigger] grid@.get(x, y)) is None by {
                if grid@.in_bounds(x, y) {
                    lemma_index_in_range(width as nat, height as nat, x, y);
                }
            }
        }
        grid
    }

    /// The slot of a coordinate pair that lies inside the grid.
    fn slot(&self, x: u32, y: u32) -> (index: usize)
        requires
            self@.in_bounds(x as int, y as int),
        ensures
            index == self@.index(x as int, y as int),
            index < self@.cells.len(),
            self@.wf(),
    {
        let w: usize = self.width as usize;
        let row: usize = y as usize;
        let len: usize = self.cells.len();
        proof {
            use_type_invariant(self);
            lemma_index_in_range(self.width as nat, self.height as nat, x as int, y as int);
            assert(self.cells@.len() == self.width as nat * self.height as nat);
            assert(w * row == self.width as nat * y as int);
            assert(0 <= w * row <= w * row + x) by (nonlinear_arith)
                requires
                    0 <= w,
                    0 <= row,
                    0 <= x,
            ;
            assert(w * row + x < len);
        }
        w * row + x as usize
    }

    /// The number of columns.
    pub fn width(&self) -> (w: u32)
        ensures
            w == self@.width,
    {
        self.width
    }

    /// The number of rows.
    pub fn height(&self) -> (h: u32)
        ensures
            h == self@.height,
    {
        self.height
    }

    /// The value stored at `(x, y)`, if the pair lies inside the grid and
    /// its slot is occupied.
    pub fn get(&self, x: u32, y: u32) -> (r: Option<&T>)
        ensures
            self@.wf(),
            match r {
                Some(v) => self@.get(x as int, y as int) == Some(*v),
                None => self@.get(x as int, y as int) is None,
            },
            x >= self@.width || y >= self@.height ==> r is None,
    {
        proof {
            use_type_invariant(self);
        }
        if x < self.width && y < self.height {
            let index: usize = self.slot(x, y);
            self.cells[index].as_ref()
        } else {
            None
        }
    }

    /// The value stored at `(x, y)`, to be changed in place, if the pair
    /// lies inside the grid and its slot is occupied.
    pub fn get_mut(&mut self, x: u32, y: u32) -> (r: Option<&mut T>)
        ensures
            old(self)@.wf(),
            r is Some ==> old(self)@.get(x as int, y as int) == Some(*r->0),
            r is Some ==> final(self)@ =~= old(self)@.set(x as int, y as int, *final(r->0)),
            r is None ==> old(self)@.get(x as int, y as int) is None,
            r is None ==> final(self)@ =~= old(self)@,
            x >= old(self)@.width || y >= old(self)@.height ==> r is None,
    {
        proof {
            use_type_invariant(&*self);
        }
        if x < self.width && y < self.height {
            let index: usize = self.slot(x, y);
            if self.cells[index].is_some() {
                match &mut self.cells[index] {
                    Some(v) => Some(v),
                    None => None,
                }
            } else {
                None
            }
        } else {
            None
        }
    }

    /// Stores `element` at `(x, y)`; does nothing when the pair lies outside
    /// the grid.
    pub fn set(&mut self, x: u32, y: u32, element: T)
        ensures
            final(self)@ == old(self)@.set(x as int, y as int, element),
            final(self)@.wf(),
    {
        proof {
            use_type_invariant(&*self);
        }
        if x < self.width && y < self.height {
            let index: usize = self.slot(x, y);
            self.cells[index] = Some(element);
        }
    }
    /// Stores one value made by `f` in every slot of the rectangle of `w` by
    /// `h` cells whose least corner is `(x, y)`, as far as it lies inside
    /// the grid; `f` is called once per slot, row by row.
    pub fn fill<F: Fn() -> T>(&mut self, x: u32, y: u32, w: u32, h: u32, f: F)
        requires
            call_requires(f, ()),
        ensures
            final(self)@.wf(),
            final(self)@.width == old(self)@.width,
            final(self)@.height == old(self)@.height,
            forall|cx: int, cy: int|
                in_rect(x as int, y as int, w as int, h as int, cx, cy) && old(self)@.in_bounds(cx, cy)
                    ==> {
                    &&& (#[trigger] final(self)@.get(cx, cy)) is Some
                    &&& call_ensures(f, (), final(self)@.get(cx, cy)->0)
                },
            forall|cx: int, cy: int|
                !in_rect(x as int, y as int, w as int, h as int, cx, cy)
                    ==> (#[trigger] final(self)@.get(cx, cy)) == old(self)@.get(cx, cy),
    {
        proof {
            use_type_invariant(&*self);
        }
        let x_end: u64 = x as u64 + w as u64;
        let y_end: u64 = y as u64 + h as u64;
        let x_stop: u32 = if x_end < self.width as u64 {
            x_end as u32
        } else {
            self.width
        };
        let y_stop: u32 = if y_end < self.height as u64 {
            y_end as u32
        } else {
            self.height
        };
        let mut yy: u32 = y;
        while yy < y_stop
            invariant
                call_requires(f, ()),
                x_stop <= self@.width,
                y_stop <= self@.height,
                x_stop <= x + w,
                y_stop <= y + h,
                x + w <= x_stop || x_stop == self@.width,
                y + h <= y_stop || y_stop == self@.height,
                y <= yy,
                self@.wf(),
                self@.width == old(self)@.width,
                self@.height == old(self)@.height,
                forall|cx: int, cy: int|
                    in_rect(x as int, y as int, w as int, h as int, cx, cy) && self@.in_bounds(
                        cx,
                        cy,
                    ) && cy < yy ==> {
                        &&& (#[trigger] self@.get(cx, cy)) is Some
                        &&& call_ensures(f, (), self@.get(cx, cy)->0)
                    },
                forall|cx: int, cy: int|
                    !(in_rect(x as int, y as int, w as int, h as int, cx, cy) && cy < yy) ==> (
                    #[trigger] self@.get(cx, cy)) == old(self)@.get(cx, cy),
            decreases y_stop - yy,
        {
            let mut xx: u32 = x;
            while xx < x_stop
                invariant
                    call_requires(f, ()),
                    x_stop <= self@.width,
                    y_stop <= self@.height,
                    x_stop <= x + w,
                    y_stop <= y + h,
                    x + w <= x_stop || x_stop == self@.width,
                    y <= yy < y_stop,
                    x <= xx,
                    self@.wf(),
                    self@.width == old(self)@.width,
                    self@.height == old(self)@.height,
                    forall|cx: int, cy: int|
                        in_rect(x as int, y as int, w as int, h as int, cx, cy) && self@.in_bounds(
                            cx,
                            cy,
                        ) && (cy < yy || (cy == yy && cx < xx)) ==> {
                            &&& (#[trigger] self@.get(cx, cy)) is Some
                            &&& call_ensures(f, (), self@.get(cx, cy)->0)
                        },
                    forall|cx: int, cy: int|
                        !(in_rect(x as int, y as int, w as int, h as int, cx, cy) && (cy < yy || (cy
                            == yy && cx < xx)))
                            ==> (#[trigger] self@.get(cx, cy)) == old(self)@.get(cx, cy),
                decreases x_stop - xx,
            {
                let value = f();
                let ghost before = self@;
                self.set(xx, yy, value);
                proof {
                    assert forall|cx: int, cy: int|
                        true implies #[trigger] self@.get(cx, cy) == if cx == xx && cy == yy {
                        Some(value)
                    } else {
                        before.get(cx, cy)
                    } by {
                        before.lemma_get_set(xx as int, yy as int, value, cx, cy);
                    }
                    before.lemma_get_set(xx as int, yy as int, value, 0, 0);
                }
                xx += 1;
            }
            yy += 1;
        }
    }
}

} // verus!
