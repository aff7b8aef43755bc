use vstd::prelude::*;

use crate::position::Position;
use crate::text::{chars_of, push_char};

verus! {

/// What each kind of action costs; a reward is the negated cost.
#[derive(Clone, Copy, Debug, PartialEq, Eq, Structural)]
pub struct Costs {
    pub movement: u32,
    pub miss_pickup: u32,
    pub miss_dropoff: u32,
}

impl Default for Costs {
    fn default() -> (r: Costs)
        ensures
            r.movement == 1,
            r.miss_pickup == 10,
            r.miss_dropoff == 10,
    {
        Costs { movement: 1, miss_pickup: 10, miss_dropoff: 10 }
    }
}

/// Why a grid text was refused.
#[derive(Clone, Copy, Debug, PartialEq, Eq, Structural)]
pub enum WorldError {
    /// The text holds no line break.
    NoLineBreak,
    /// The lines are not all of one odd length, or there is not an odd number of them.
    Malformed,
    /// The grid has more rows or columns than a coordinate can count.
    TooLarge,
}

/// The walls around a cell.
#[derive(Clone, Copy, Debug, PartialEq, Eq, Structural)]
pub struct Wall {
    pub north: bool,
    pub south: bool,
    pub east: bool,
    pub west: bool,
}

/// The grid as text: lines of `line_len` characters, each ended by a line break.
/// Cell (x, y) stands on line `2y + 1`, column `2x + 1`; its walls stand beside it.
pub struct WorldView {
    pub text: Seq<char>,
    pub line_len: nat,
    pub costs: Costs,
}

pub open spec fn num_lines(w: WorldView) -> int {
    w.text.len() as int / (w.line_len as int + 1)
}

pub open spec fn width_of(w: WorldView) -> int {
    (w.line_len as int - 1) / 2
}

pub open spec fn height_of(w: WorldView) -> int {
    (num_lines(w) - 1) / 2
}

/// `l` is the index of the first line break of `t`.
pub open spec fn first_break(t: Seq<char>, l: int) -> bool {
    0 <= l < t.len() && t[l] == '\n' && forall|k: int| 0 <= k < l ==> t[k] != '\n'
}

/// `t` is made of an odd number (three or more) of lines of odd length `l` (three or more),
/// each ended by a line break.
pub open spec fn layout_ok(t: Seq<char>, l: int) -> bool {
    &&& l >= 3
    &&& l % 2 == 1
    &&& t.len() as int % (l + 1) == 0
    &&& t.len() as int / (l + 1) >= 3
    &&& (t.len() as int / (l + 1)) % 2 == 1
    &&& forall|k: int| 0 <= k < t.len() ==> (#[trigger] t[k] == '\n' <==> k % (l + 1) == l)
}

/// The grid's size fits the coordinates of a position.
pub open spec fn size_fits(t: Seq<char>, l: int) -> bool {
    (l - 1) / 2 <= i32::MAX && (t.len() as int / (l + 1) - 1) / 2 <= i32::MAX
}

pub open spec fn world_wf(w: WorldView) -> bool {
    layout_ok(w.text, w.line_len as int) && size_fits(w.text, w.line_len as int)
}

pub open spec fn char_at(w: WorldView, line: int, col: int) -> char {
    w.text[line * (w.line_len as int + 1) + col]
}

pub open spec fn in_bounds(w: WorldView, x: int, y: int) -> bool {
    0 <= x < width_of(w) && 0 <= y < height_of(w)
}

pub open spec fn cell_char(w: WorldView, x: int, y: int) -> char {
    char_at(w, 2 * y + 1, 2 * x + 1)
}

pub open spec fn wall_north(w: WorldView, x: int, y: int) -> bool {
    char_at(w, 2 * y, 2 * x + 1) != ' '
}

pub open spec fn wall_south(w: WorldView, x: int, y: int) -> bool {
    char_at(w, 2 * y + 2, 2 * x + 1) != ' '
}

pub open spec fn wall_east(w: WorldView, x: int, y: int) -> bool {
    char_at(w, 2 * y + 1, 2 * x + 2) != ' '
}

pub open spec fn wall_west(w: WorldView, x: int, y: int) -> bool {
    char_at(w, 2 * y + 1, 2 * x) != ' '
}

/// A fixed position is named by an upper-case letter written in its cell.
pub open spec fn is_fixed_id(c: char) -> bool {
    'A' <= c <= 'Z'
}

pub open spec fn fixed_at(w: WorldView, id: char, x: int, y: int) -> bool {
    in_bounds(w, x, y) && is_fixed_id(id) && cell_char(w, x, y) == id
}

/// (x1, y1) comes before (x2, y2) in row-major order.
pub open spec fn before(x1: int, y1: int, x2: int, y2: int) -> bool {
    y1 < y2 || (y1 == y2 && x1 < x2)
}

/// The first cell, in row-major order, that is named `id`.
pub open spec fn first_fixed(w: WorldView, id: char, x: int, y: int) -> bool {
    fixed_at(w, id, x, y) && forall|x2: int, y2: int|
        #[trigger] fixed_at(w, id, x2, y2) ==> !before(x2, y2, x, y)
}

/// Where the fixed position `id` stands, if the grid names it.
pub open spec fn fixed_position(w: WorldView, id: char) -> Option<Position> {
    if exists|x: int, y: int| #[trigger] fixed_at(w, id, x, y) {
        let p = choose|p: Position| first_fixed(w, id, p.x as int, p.y as int);
        Some(p)
    } else {
        None
    }
}

/// The grid of the taxi domain, read from its text form.
pub struct World {
    text: Vec<char>,
    line_len: usize,
    width: i32,
    height: i32,
    costs: Costs,
}

impl View for World {
    type V = WorldView;

    closed spec fn view(&self) -> WorldView {
        WorldView { text: self.text@, line_len: self.line_len as nat, costs: self.costs }
    }
}

proof fn lemma_index_in_text(l: int, m: int, line: int, col: int)
    requires
        l >= 0,
        0 <= line < m,
        0 <= col <= l,
    ensures
        0 <= line * (l + 1) + col < m * (l + 1),
        (line * (l + 1) + col) % (l + 1) == col,
{
    assert(0 <= line * (l + 1)) by (nonlinear_arith)
        requires
            l >= 0,
            line >= 0,
    ;
    assert(line * (l + 1) + col < m * (l + 1)) by (nonlinear_arith)
        requires
            l >= 0,
            line < m,
            col <= l,
    ;
    vstd::arithmetic::div_mod::lemma_fundamental_div_mod_converse(
        line * (l + 1) + col,
        l + 1,
        line,
        col,
    );
}

pub proof fn lemma_mod_step(k: int, d: int)
    requires
        d > 0,
        k >= 0,
    ensures
        (k + 1) % d == if k % d == d - 1 {
            0
        } else {
            k % d + 1
        },
        (k + 1) / d == if k % d == d - 1 {
            k / d + 1
        } else {
            k / d
        },
{
    let q = k / d;
    let r = k % d;
    vstd::arithmetic::div_mod::lemma_fundamental_div_mod(k, d);
    assert(0 <= r < d);
    if r == d - 1 {
        assert(k + 1 == (q + 1) * d + 0) by (nonlinear_arith)
            requires
                k == d * q + r,
                r == d - 1,
        ;
        vstd::arithmetic::div_mod::lemma_fundamental_div_mod_converse(k + 1, d, q + 1, 0);
    } else {
        assert(k + 1 == q * d + (r + 1)) by (nonlinear_arith)
            requires
                k == d * q + r,
        ;
        vstd::arithmetic::div_mod::lemma_fundamental_div_mod_converse(k + 1, d, q, r + 1);
    }
}

proof fn lemma_position_unique(w: WorldView, id: char, x1: int, y1: int, x2: int, y2: int)
    requires
        first_fixed(w, id, x1, y1),
        first_fixed(w, id, x2, y2),
    ensures
        x1 == x2 && y1 == y2,
{
    assert(fixed_at(w, id, x1, y1));
    assert(fixed_at(w, id, x2, y2));
}

impl World {
    #[verifier::type_invariant]
    closed spec fn inv(&self) -> bool {
        &&& world_wf(self@)
        &&& self.width as int == width_of(self@)
        &&& self.height as int == height_of(self@)
    }

    /// Reads a grid from its text form.
    pub fn build_from_str(source: &str, costs: Costs) -> (r: Result<World, WorldError>)
        ensures
            (forall|k: int| 0 <= k < source@.len() ==> source@[k] != '\n') ==> r == Err::<
                World,
                WorldError,
            >(WorldError::NoLineBreak),
            forall|l: int|
                #[trigger] first_break(source@, l) ==> {
                    &&& !layout_ok(source@, l) ==> r == Err::<World, WorldError>(
                        WorldError::Malformed,
                    )
                    &&& layout_ok(source@, l) && !size_fits(source@, l) ==> r == Err::<
                        World,
                        WorldError,
                    >(WorldError::TooLarge)
                    &&& layout_ok(source@, l) && size_fits(source@, l) ==> (r matches Ok(w) && w@
                        == (WorldView { text: source@, line_len: l as nat, costs }))
                },
    {
        let text = chars_of(source);
        let n = text.len();
        let mut l: usize = 0;
        while l < n && text[l] != '\n'
            invariant
                l <= n,
                n == text@.len(),
                forall|k: int| 0 <= k < l ==> text@[k] != '\n',
            decreases n - l,
        {
            l = l + 1;
        }
        if l == n {
            return Err(WorldError::NoLineBreak);
        }
        assert(first_break(source@, l as int));
        if l < 3 || l % 2 == 0 || n % (l + 1) != 0 {
            return Err(WorldError::Malformed);
        }
        let m = n / (l + 1);
        if m < 3 || m % 2 == 0 {
            return Err(WorldError::Malformed);
        }
        let mut k: usize = 0;
        let mut col: usize = 0;
        while k < n
            invariant
                k <= n,
                n == text@.len(),
                text@ == source@,
                first_break(source@, l as int),
                3 <= l,
                l + 1 <= n,
                col == k as int % (l + 1),
                forall|j: int| 0 <= j < k ==> (#[trigger] text@[j] == '\n' <==> j % (l + 1) == l),
            decreases n - k,
        {
            if (text[k] == '\n') != (col == l) {
                assert(!layout_ok(source@, l as int)) by {
                    assert(text@[k as int] == '\n' <==> k as int % (l + 1) != l);
                }
                return Err(WorldError::Malformed);
            }
            proof {
                lemma_mod_step(k as int, l as int + 1);
            }
            k = k + 1;
            col = if col == l {
                0
            } else {
                col + 1
            };
        }
        assert(layout_ok(source@, l as int));
        let width = (l - 1) / 2;
        let height = (m - 1) / 2;
        if width > i32::MAX as usize || height > i32::MAX as usize {
            return Err(WorldError::TooLarge);
        }
        let w = World { text, line_len: l, width: width as i32, height: height as i32, costs };
        Ok(w)
    }

    pub fn width(&self) -> (r: i32)
        ensures
            r == width_of(self@),
    {
        proof {
            use_type_invariant(self);
        }
        self.width
    }

    pub fn height(&self) -> (r: i32)
        ensures
            r == height_of(self@),
    {
        proof {
            use_type_invariant(self);
        }
        self.height
    }

    pub fn line_len(&self) -> (r: usize)
        ensures
            r == self@.line_len,
    {
        self.line_len
    }

    pub fn text_len(&self) -> (r: usize)
        ensures
            r == self@.text.len(),
    {
        self.text.len()
    }

    /// The character at index `k` of the grid's text.
    pub fn text_char(&self, k: usize) -> (r: char)
        requires
            k < self@.text.len(),
        ensures
            r == self@.text[k as int],
    {
        self.text[k]
    }

    /// The grid's text, as it was read.
    pub fn display(&self) -> (r: String)
        ensures
            r@ == self@.text,
    {
        let mut out = String::new();
        let n = self.text.len();
        let mut k: usize = 0;
        while k < n
            invariant
                k <= n,
                n == self.text@.len(),
                out@ == self.text@.take(k as int),
            decreases n - k,
        {
            push_char(&mut out, self.text[k]);
            assert(self.text@.take(k as int + 1) == self.text@.take(k as int).push(self.text@[k as int]));
            k = k + 1;
        }
        assert(self.text@.take(n as int) == self.text@);
        out
    }

    pub fn costs(&self) -> (r: Costs)
        ensures
            r == self@.costs,
    {
        self.costs
    }

    /// The character at column `col` of line `line`.
    fn char_at(&self, line: usize, col: usize) -> (r: char)
        requires
            line < num_lines(self@),
            col < self@.line_len,
        ensures
            r == char_at(self@, line as int, col as int),
    {
        let n = self.text.len();
        proof {
            use_type_invariant(self);
            lemma_index_in_text(self.line_len as int, num_lines(self@), line as int, col as int);
            vstd::arithmetic::div_mod::lemma_fundamental_div_mod(
                self.text@.len() as int,
                self.line_len as int + 1,
            );
            assert(num_lines(self@) * (self.line_len as int + 1) == self.text@.len()) by (
            nonlinear_arith)
                requires
                    self.text@.len() == (self.line_len as int + 1) * num_lines(self@) + 0,
            ;
            assert(self.line_len as int + 1 <= self.text@.len()) by (nonlinear_arith)
                requires
                    num_lines(self@) >= 1,
                    self.line_len >= 0,
                    num_lines(self@) * (self.line_len as int + 1) == self.text@.len(),
            ;
        }
        assert(n >= self.line_len + 1);
        let stride = self.line_len + 1;
        assert(line * stride <= n);
        let start = line * stride;
        self.text[start + col]
    }

    /// The character written in cell `p`.
    pub fn cell_char(&self, p: Position) -> (r: char)
        requires
            in_bounds(self@, p.x as int, p.y as int),
        ensures
            r == cell_char(self@, p.x as int, p.y as int),
    {
        proof {
            use_type_invariant(self);
        }
        self.char_at(2 * (p.y as usize) + 1, 2 * (p.x as usize) + 1)
    }

    /// The walls around cell `p`.
    pub fn get_wall(&self, p: &Position) -> (r: Wall)
        requires
            in_bounds(self@, p.x as int, p.y as int),
        ensures
            r.north == wall_north(self@, p.x as int, p.y as int),
            r.south == wall_south(self@, p.x as int, p.y as int),
            r.east == wall_east(self@, p.x as int, p.y as int),
            r.west == wall_west(self@, p.x as int, p.y as int),
    {
        proof {
            use_type_invariant(self);
        }
        let x = p.x as usize;
        let y = p.y as usize;
        let north = self.char_at(2 * y, 2 * x + 1) != ' ';
        let south = self.char_at(2 * y + 2, 2 * x + 1) != ' ';
        let east = self.char_at(2 * y + 1, 2 * x + 2) != ' ';
        let west = self.char_at(2 * y + 1, 2 * x) != ' ';
        Wall { north, south, east, west }
    }

    /// Where the fixed position named `id` stands: the first such cell in row-major order.
    pub fn get_fixed_position(&self, id: char) -> (r: Option<Position>)
        ensures
            r == fixed_position(self@, id),
    {
        proof {
            use_type_invariant(self);
        }
        if !('A' <= id && id <= 'Z') {
            return None;
        }
        let mut y: i32 = 0;
        while y < self.height
            invariant
                0 <= y <= self.height,
                self.height == height_of(self@),
                self.width == width_of(self@),
                world_wf(self@),
                is_fixed_id(id),
                forall|x2: int, y2: int| 0 <= y2 < y ==> !#[trigger] fixed_at(self@, id, x2, y2),
            decreases self.height - y,
        {
            let mut x: i32 = 0;
            while x < self.width
                invariant
                    0 <= x <= self.width,
                    0 <= y < self.height,
                    self.height == height_of(self@),
                    self.width == width_of(self@),
                    world_wf(self@),
                    is_fixed_id(id),
                    forall|x2: int, y2: int|
                        (0 <= y2 < y || (y2 == y && x2 < x)) ==> !#[trigger] fixed_at(
                            self@,
                            id,
                            x2,
                            y2,
                        ),
                decreases self.width - x,
            {
                let p = Position { x, y };
                if self.cell_char(p) == id {
                    proof {
                        assert(fixed_at(self@, id, x as int, y as int));
                        assert(first_fixed(self@, id, p.x as int, p.y as int));
                        let q = choose|q: Position| first_fixed(self@, id, q.x as int, q.y as int);
                        lemma_position_unique(
                            self@,
                            id,
                            p.x as int,
                            p.y as int,
                            q.x as int,
                            q.y as int,
                        );
                    }
                    return Some(p);
                }
                x = x + 1;
            }
            y = y + 1;
        }
        proof {
            assert forall|x2: int, y2: int| !#[trigger] fixed_at(self@, id, x2, y2) by {
                if fixed_at(self@, id, x2, y2) {
                    assert(in_bounds(self@, x2, y2));
                }
            }
        }
        None
    }
}

} // verus!
