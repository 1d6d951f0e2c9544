use vstd::prelude::*;
use crate::colors::Rgba;
use crate::grid::{
    grown_tail,
    in_grid,
    head_hits_body,
    lemma_wrap_again,
    on_grid,
    same_cell,
    shifted,
    step_wrapped,
    wrap,
    wrap_coord,
    wrapped_step,
};
use crate::models::{Direction, Vertex};
use crate::vertices::{push_tile, tiles, SNAKE_TRIM};

verus! {

/// The snake: its segments from head to tail, the length it starts with, the
/// side of the grid it lives on and its colour.
pub struct Snake {
    body_length: usize,
    body: Vec<(i32, i32)>,
    grid_size: i32,
    color: Rgba,
}

/// The body a snake of `length` segments starts with on the torus of side
/// `grid_size`: a row at `y = 10` whose head is at `x = 10` and whose tail runs
/// toward smaller `x`, every coordinate brought onto the grid.
pub open spec fn initial_body(length: nat, grid_size: int) -> Seq<(i32, i32)> {
    Seq::new(
        length,
        |i: int| (wrap_coord(10 - i, grid_size) as i32, wrap_coord(10, grid_size) as i32),
    )
}

/// The starting row lies on the grid.
pub proof fn lemma_initial_body_on_grid(length: nat, grid_size: int)
    requires
        1 <= grid_size <= i32::MAX,
    ensures
        initial_body(length, grid_size).len() == length,
        on_grid(initial_body(length, grid_size), grid_size),
{
    assert forall|i: int| 0 <= i < length implies in_grid(
        #[trigger] initial_body(length, grid_size)[i],
        grid_size,
    ) by {
        lemma_wrap_again(10 - i, 0, grid_size);
        lemma_wrap_again(10, 0, grid_size);
    }
}

impl View for Snake {
    type V = Seq<(i32, i32)>;

    /// The segments, head first.
    closed spec fn view(&self) -> Seq<(i32, i32)> {
        self.body@
    }
}

impl Snake {
    /// The length that `initialize` was given and that `reset` restores.
    pub closed spec fn spec_body_length(&self) -> nat {
        self.body_length as nat
    }

    /// The side of the grid that `traverse` wraps on and that the vertices are
    /// scaled by.
    pub closed spec fn spec_grid_size(&self) -> int {
        self.grid_size as int
    }

    pub closed spec fn spec_color(&self) -> Rgba {
        self.color
    }

    /// A segment can be appended: there are two segments to extrapolate from
    /// and a grid to bring the new one onto.
    pub open spec fn can_grow(&self) -> bool {
        self@.len() >= 2 && self.spec_grid_size() >= 1
    }

    /// A snake without segments, to be set up by `initialize`.
    pub fn new() -> (s: Snake)
        ensures
            s@.len() == 0,
            s.spec_body_length() == 0,
            s.spec_grid_size() == 0,
            s.spec_color() == (Rgba { r: 0, g: 0, b: 0, a: 0 }),
    {
        Snake { body_length: 0, body: Vec::new(), grid_size: 0, color: Rgba { r: 0, g: 0, b: 0, a: 0 } }
    }

    /// Lays the snake out in its starting row on the grid of side `grid_size`,
    /// `body_length` segments long.
    pub fn initialize(&mut self, body_length: usize, grid_size: i32)
        requires
            grid_size >= 1,
        ensures
            final(self)@ == initial_body(body_length as nat, grid_size as int),
            on_grid(final(self)@, grid_size as int),
            final(self).spec_body_length() == body_length,
            final(self).spec_grid_size() == grid_size,
            final(self).spec_color() == old(self).spec_color(),
    {
        self.body = Self::initialize_body(body_length, grid_size);
        self.grid_size = grid_size;
        self.body_length = body_length;
    }

    /// Appends one segment behind the tail: in line with the last two, one
    /// step past the last, wrapping at the grid's edges.
    pub fn grow(&mut self)
        requires
            old(self).can_grow(),
        ensures
            final(self)@ == old(self)@.push(grown_tail(old(self)@, old(self).spec_grid_size())),
            in_grid(final(self)@[old(self)@.len() as int], old(self).spec_grid_size()),
            on_grid(old(self)@, old(self).spec_grid_size()) ==> on_grid(
                final(self)@,
                old(self).spec_grid_size(),
            ),
            final(self).spec_body_length() == old(self).spec_body_length(),
            final(self).spec_grid_size() == old(self).spec_grid_size(),
            final(self).spec_color() == old(self).spec_color(),
    {
        let length = self.body.len();
        let last = self.body[length - 1];
        let second_last = self.body[length - 2];
        let x: i64 = 2 * (last.0 as i64) - second_last.0 as i64;
        let y: i64 = 2 * (last.1 as i64) - second_last.1 as i64;
        let ghost before = self.body@;
        self.body.push((wrap(x, self.grid_size), wrap(y, self.grid_size)));
        assert forall|i: int| 0 <= i < before.len() implies self.body@[i] == before[i] by {}
    }

    /// Whether the head shares its cell with another segment.
    pub fn is_self_collision(&self) -> (r: bool)
        requires
            self@.len() >= 1,
        ensures
            r == head_hits_body(self@),
    {
        let head = self.body[0];
        let mut i: usize = 1;
        while i < self.body.len()
            invariant
                1 <= i <= self.body.len(),
                head == self.body@[0],
                forall|j: int| 1 <= j < i ==> self.body@[j] != head,
            decreases self.body.len() - i,
        {
            if same_cell(self.body[i], head) {
                return true;
            }
            i += 1;
        }
        false
    }

    /// Whether some segment lies on `position`.
    pub fn occupies(&self, position: (i32, i32)) -> (r: bool)
        ensures
            r == self@.contains(position),
    {
        let mut i: usize = 0;
        while i < self.body.len()
            invariant
                i <= self.body.len(),
                forall|j: int| 0 <= j < i ==> self.body@[j] != position,
            decreases self.body.len() - i,
        {
            if same_cell(self.body[i], position) {
                return true;
            }
            i += 1;
        }
        false
    }

    /// Whether the head lies on `position`.
    pub fn head_overlaps(&self, position: (i32, i32)) -> (r: bool)
        requires
            self@.len() >= 1,
        ensures
            r == (self@[0] == position),
    {
        same_cell(self.body[0], position)
    }

    pub fn set_color(&mut self, color: Rgba)
        ensures
            final(self).spec_color() == color,
            final(self)@ == old(self)@,
            final(self).spec_body_length() == old(self).spec_body_length(),
            final(self).spec_grid_size() == old(self).spec_grid_size(),
    {
        self.color = color;
    }

    /// Moves the snake to a grid of another side; the segments stay.
    pub fn resize(&mut self, grid_size: i32)
        ensures
            final(self).spec_grid_size() == grid_size,
            final(self)@ == old(self)@,
            final(self).spec_body_length() == old(self).spec_body_length(),
            final(self).spec_color() == old(self).spec_color(),
    {
        self.grid_size = grid_size;
    }

    /// Puts the snake back into its starting row at its starting length.
    pub fn reset(&mut self)
        requires
            old(self).spec_grid_size() >= 1,
        ensures
            final(self)@ == initial_body(old(self).spec_body_length(), old(self).spec_grid_size()),
            on_grid(final(self)@, old(self).spec_grid_size()),
            final(self).spec_body_length() == old(self).spec_body_length(),
            final(self).spec_grid_size() == old(self).spec_grid_size(),
            final(self).spec_color() == old(self).spec_color(),
    {
        self.body = Self::initialize_body(self.body_length, self.grid_size);
    }

    /// Moves the head to `new_head_position`; every other segment takes the
    /// place of the one before it.
    pub fn move_to(&mut self, new_head_position: (i32, i32))
        requires
            old(self)@.len() >= 1,
        ensures
            final(self)@ == shifted(old(self)@, new_head_position),
            final(self).spec_body_length() == old(self).spec_body_length(),
            final(self).spec_grid_size() == old(self).spec_grid_size(),
            final(self).spec_color() == old(self).spec_color(),
    {
        let ghost before = self.body@;
        let mut i: usize = self.body.len() - 1;
        while i >= 1
            invariant
                i < self.body.len(),
                self.body@.len() == before.len(),
                self.body_length == old(self).body_length,
                self.grid_size == old(self).grid_size,
                self.color == old(self).color,
                forall|j: int| 0 <= j <= i ==> self.body@[j] == before[j],
                forall|j: int| i < j < before.len() ==> self.body@[j] == before[j - 1],
            decreases i,
        {
            let previous = self.body[i - 1];
            self.body[i] = previous;
            i -= 1;
        }
        self.body[0] = new_head_position;
        assert(self.body@ =~= shifted(before, new_head_position));
    }

    /// Moves the snake one step in `direction`, wrapping at the grid's edges.
    pub fn traverse(&mut self, direction: Direction)
        requires
            old(self)@.len() >= 1,
            old(self).spec_grid_size() >= 1,
        ensures
            final(self)@ == shifted(
                old(self)@,
                wrapped_step(old(self)@[0], direction, old(self).spec_grid_size()),
            ),
            in_grid(final(self)@[0], old(self).spec_grid_size()),
            final(self).spec_body_length() == old(self).spec_body_length(),
            final(self).spec_grid_size() == old(self).spec_grid_size(),
            final(self).spec_color() == old(self).spec_color(),
    {
        let new_head = step_wrapped(self.body[0], direction, self.grid_size);
        self.move_to(new_head);
    }

    pub fn get_head_position(&self) -> (p: (i32, i32))
        requires
            self@.len() >= 1,
        ensures
            p == self@[0],
    {
        self.body[0]
    }

    /// Whether a head placed on `new_position` would lie on a segment.
    pub fn will_collide(&self, new_position: (i32, i32)) -> (r: bool)
        ensures
            r == self@.contains(new_position),
    {
        self.occupies(new_position)
    }

    /// The number of segments.
    pub fn len(&self) -> (n: usize)
        ensures
            n == self@.len(),
    {
        self.body.len()
    }

    /// The side of the grid that the snake lives on.
    pub fn grid_size(&self) -> (g: i32)
        ensures
            g == self.spec_grid_size(),
    {
        self.grid_size
    }

    /// The length that `reset` restores.
    pub fn body_length(&self) -> (n: usize)
        ensures
            n == self.spec_body_length(),
    {
        self.body_length
    }

    /// The segment at `index`, counted from the head.
    pub fn segment(&self, index: usize) -> (p: (i32, i32))
        requires
            index < self@.len(),
        ensures
            p == self@[index as int],
    {
        self.body[index]
    }

    fn initialize_body(length: usize, grid_size: i32) -> (body: Vec<(i32, i32)>)
        requires
            grid_size >= 1,
        ensures
            body@ == initial_body(length as nat, grid_size as int),
            on_grid(body@, grid_size as int),
    {
        let mut body: Vec<(i32, i32)> = Vec::new();
        let start_x: i64 = 10;
        let start_y: i64 = 10;
        let mut x: i32 = wrap(start_x, grid_size);
        let y: i32 = wrap(start_y, grid_size);
        let mut i: usize = 0;
        while i < length
            invariant
                i <= length,
                grid_size >= 1,
                x == wrap_coord(10 - i, grid_size as int),
                y == wrap_coord(10, grid_size as int),
                body@ =~= initial_body(i as nat, grid_size as int),
            decreases length - i,
        {
            body.push((x, y));
            proof {
                lemma_wrap_again(10 - i, -1, grid_size as int);
            }
            x = wrap(x as i64 - 1, grid_size);
            i += 1;
        }
        proof {
            lemma_initial_body_on_grid(length as nat, grid_size as int);
        }
        body
    }

    /// Two triangles for every segment, head first. The coordinates are in
    /// units of `1 / vertex_scale(grid_size)`.
    pub fn as_vertices(&self) -> (vertices: Vec<Vertex>)
        ensures
            vertices@ == tiles(self@, self.spec_grid_size(), SNAKE_TRIM as int, self.spec_color()),
    {
        let mut all_vertices: Vec<Vertex> = Vec::new();
        let mut i: usize = 0;
        while i < self.body.len()
            invariant
                i <= self.body.len(),
                all_vertices@ == tiles(
                    self.body@.take(i as int),
                    self.grid_size as int,
                    SNAKE_TRIM as int,
                    self.color,
                ),
            decreases self.body.len() - i,
        {
            let cell = self.body[i];
            proof {
                assert(self.body@.take(i + 1).drop_last() =~= self.body@.take(i as int));
            }
            push_tile(&mut all_vertices, (cell.0 as i64, cell.1 as i64), self.grid_size, SNAKE_TRIM, self.color);
            i += 1;
        }
        assert(self.body@.take(i as int) =~= self.body@);
        all_vertices
    }
}

} // verus!
