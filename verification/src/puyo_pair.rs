//! The active falling piece: an axis (anchor) cell and a child (satellite)
//! cell, with movement, rotation, and wall-kick rotation.

use vstd::prelude::*;
use crate::board::Board;
use crate::board::Cell;
use crate::board::PuyoColor;

verus! {

/// Whether `v` can be represented as an `i32`.
pub open spec fn fits_i32(v: int) -> bool {
    -0x8000_0000 <= v <= 0x7fff_ffff
}

/// One clockwise quarter turn of a relative offset: `(dx, dy) -> (-dy, dx)`.
/// With rows growing downward this cycles up -> right -> down -> left -> up.
pub open spec fn cw_offset(d: (int, int)) -> (int, int) {
    (-d.1, d.0)
}

/// One counterclockwise quarter turn: `(dx, dy) -> (dy, -dx)`.
pub open spec fn ccw_offset(d: (int, int)) -> (int, int) {
    (d.1, -d.0)
}

/// Law: rotation is a 4-cycle. Four clockwise quarter turns return any
/// relative offset to itself, so rotating a piece clockwise four times
/// restores the child's position relative to the axis.
pub proof fn lemma_rotation_four_cycle(d: (int, int))
    ensures
        cw_offset(cw_offset(cw_offset(cw_offset(d)))) == d,
        ccw_offset(ccw_offset(ccw_offset(ccw_offset(d)))) == d,
{
}

/// A placement is illegal when either cell is out of bounds or lands on a
/// filled grid cell.
pub open spec fn spec_collision(b: &Board, ax: int, ay: int, cx: int, cy: int) -> bool {
    ||| !b.in_bounds(ax, ay)
    ||| !b.in_bounds(cx, cy)
    ||| b.cell_at(ax, ay) != Cell::Empty
    ||| b.cell_at(cx, cy) != Cell::Empty
}

/// The falling pair. The child starts directly above the axis and always
/// stays at one of the four orthogonal offsets from it.
#[derive(Debug, Clone, Copy)]
pub struct PuyoPair {
    pub axis_x: i32,
    pub axis_y: i32,
    pub axis_color: PuyoColor,
    pub child_x: i32,
    pub child_y: i32,
    pub child_color: PuyoColor,
}

impl PuyoPair {
    /// The child's offset from the axis.
    pub open spec fn offset(&self) -> (int, int) {
        (self.child_x - self.axis_x, self.child_y - self.axis_y)
    }

    /// The child's x after a clockwise turn around the axis.
    pub open spec fn cw_child_x(&self) -> int {
        self.axis_x + cw_offset(self.offset()).0
    }

    /// The child's y after a clockwise turn around the axis.
    pub open spec fn cw_child_y(&self) -> int {
        self.axis_y + cw_offset(self.offset()).1
    }

    /// The child's x after a counterclockwise turn around the axis.
    pub open spec fn ccw_child_x(&self) -> int {
        self.axis_x + ccw_offset(self.offset()).0
    }

    /// The child's y after a counterclockwise turn around the axis.
    pub open spec fn ccw_child_y(&self) -> int {
        self.axis_y + ccw_offset(self.offset()).1
    }

    /// The child is orthogonally adjacent to the axis (Manhattan distance 1).
    pub open spec fn adjacent(&self) -> bool {
        ||| self.offset() == (1int, 0int)
        ||| self.offset() == (-1int, 0int)
        ||| self.offset() == (0int, 1int)
        ||| self.offset() == (0int, -1int)
    }

    /// A new pair with the axis at `(x, y)` and the child directly above it.
    pub fn new(x: i32, y: i32, axis_color: PuyoColor, child_color: PuyoColor) -> (p: PuyoPair)
        requires
            fits_i32(y - 1),
        ensures
            p.axis_x == x,
            p.axis_y == y,
            p.axis_color == axis_color,
            p.child_x == x,
            p.child_y == y - 1,
            p.child_color == child_color,
            p.adjacent(),
    {
        PuyoPair {
            axis_x: x,
            axis_y: y,
            axis_color,
            child_x: x,
            child_y: y - 1,
            child_color,
        }
    }

    /// The axis cell's column.
    pub fn axis_x(&self) -> (r: i32)
        ensures
            r == self.axis_x,
    {
        self.axis_x
    }

    /// The axis cell's row.
    pub fn axis_y(&self) -> (r: i32)
        ensures
            r == self.axis_y,
    {
        self.axis_y
    }

    /// The axis cell's color.
    pub fn axis_color(&self) -> (r: PuyoColor)
        ensures
            r == self.axis_color,
    {
        self.axis_color
    }

    /// The child cell's column.
    pub fn child_x(&self) -> (r: i32)
        ensures
            r == self.child_x,
    {
        self.child_x
    }

    /// The child cell's row.
    pub fn child_y(&self) -> (r: i32)
        ensures
            r == self.child_y,
    {
        self.child_y
    }

    /// The child cell's color.
    pub fn child_color(&self) -> (r: PuyoColor)
        ensures
            r == self.child_color,
    {
        self.child_color
    }

    /// Places the child at `(x, y)`, leaving the axis where it is.
    pub fn set_child_position(&mut self, x: i32, y: i32)
        ensures
            final(self).child_x == x,
            final(self).child_y == y,
            final(self).axis_x == old(self).axis_x,
            final(self).axis_y == old(self).axis_y,
            final(self).axis_color == old(self).axis_color,
            final(self).child_color == old(self).child_color,
    {
        self.child_x = x;
        self.child_y = y;
    }

    /// Whether the given placement of this pair collides with a wall or a
    /// filled cell of `board`.
    fn is_collision(&self, board: &Board, ax: i32, ay: i32, cx: i32, cy: i32) -> (r: bool)
        requires
            board.wf(),
        ensures
            r == spec_collision(board, ax as int, ay as int, cx as int, cy as int),
    {
        let cols = board.cols() as i32;
        let rows = board.rows() as i32;
        if ax < 0 || ax >= cols || ay < 0 || ay >= rows {
            return true;
        }
        if cx < 0 || cx >= cols || cy < 0 || cy >= rows {
            return true;
        }
        if let Some(cell) = board.get_cell(ax as usize, ay as usize) {
            if cell != Cell::Empty {
                return true;
            }
        }
        if let Some(cell) = board.get_cell(cx as usize, cy as usize) {
            if cell != Cell::Empty {
                return true;
            }
        }
        false
    }

    /// Whether both cells may move one column left.
    pub open spec fn spec_can_move_left(&self, b: &Board) -> bool {
        &&& self.axis_x - 1 >= 0
        &&& self.child_x - 1 >= 0
        &&& !spec_collision(
            b,
            self.axis_x - 1,
            self.axis_y as int,
            self.child_x - 1,
            self.child_y as int,
        )
    }

    /// Whether both cells may move one column right.
    pub open spec fn spec_can_move_right(&self, b: &Board) -> bool {
        &&& self.axis_x + 1 < b.spec_cols()
        &&& self.child_x + 1 < b.spec_cols()
        &&& !spec_collision(
            b,
            self.axis_x + 1,
            self.axis_y as int,
            self.child_x + 1,
            self.child_y as int,
        )
    }

    /// Whether both cells may move one row down.
    pub open spec fn spec_can_move_down(&self, b: &Board) -> bool {
        &&& self.axis_y + 1 < b.spec_rows()
        &&& self.child_y + 1 < b.spec_rows()
        &&& !spec_collision(
            b,
            self.axis_x as int,
            self.axis_y + 1,
            self.child_x as int,
            self.child_y + 1,
        )
    }

    /// A move left is legal iff both destination cells are in bounds and empty.
    pub fn can_move_left(&self, board: &Board) -> (r: bool)
        requires
            board.wf(),
            fits_i32(self.axis_x - 1),
            fits_i32(self.child_x - 1),
        ensures
            r == self.spec_can_move_left(board),
    {
        let new_axis_x = self.axis_x - 1;
        let new_child_x = self.child_x - 1;
        if new_axis_x < 0 || new_child_x < 0 {
            return false;
        }
        !self.is_collision(board, new_axis_x, self.axis_y, new_child_x, self.child_y)
    }

    /// A move right is legal iff both destination cells are in bounds and empty.
    pub fn can_move_right(&self, board: &Board) -> (r: bool)
        requires
            board.wf(),
            fits_i32(self.axis_x + 1),
            fits_i32(self.child_x + 1),
        ensures
            r == self.spec_can_move_right(board),
    {
        let new_axis_x = self.axis_x + 1;
        let new_child_x = self.child_x + 1;
        let cols = board.cols() as i32;
        if new_axis_x >= cols || new_child_x >= cols {
            return false;
        }
        !self.is_collision(board, new_axis_x, self.axis_y, new_child_x, self.child_y)
    }

    /// A move down is legal iff both destination cells are in bounds and empty.
    pub fn can_move_down(&self, board: &Board) -> (r: bool)
        requires
            board.wf(),
            fits_i32(self.axis_y + 1),
            fits_i32(self.child_y + 1),
        ensures
            r == self.spec_can_move_down(board),
    {
        let new_axis_y = self.axis_y + 1;
        let new_child_y = self.child_y + 1;
        let rows = board.rows() as i32;
        if new_axis_y >= rows || new_child_y >= rows {
            return false;
        }
        !self.is_collision(board, self.axis_x, new_axis_y, self.child_x, new_child_y)
    }

    /// Moves both cells one column left.
    pub fn move_left(&mut self)
        requires
            fits_i32(old(self).axis_x - 1),
            fits_i32(old(self).child_x - 1),
        ensures
            final(self).axis_x == old(self).axis_x - 1,
            final(self).child_x == old(self).child_x - 1,
            final(self).axis_y == old(self).axis_y,
            final(self).child_y == old(self).child_y,
            final(self).axis_color == old(self).axis_color,
            final(self).child_color == old(self).child_color,
            final(self).offset() == old(self).offset(),
    {
        self.axis_x = self.axis_x - 1;
        self.child_x = self.child_x - 1;
    }

    /// Moves both cells one column right.
    pub fn move_right(&mut self)
        requires
            fits_i32(old(self).axis_x + 1),
            fits_i32(old(self).child_x + 1),
        ensures
            final(self).axis_x == old(self).axis_x + 1,
            final(self).child_x == old(self).child_x + 1,
            final(self).axis_y == old(self).axis_y,
            final(self).child_y == old(self).child_y,
            final(self).axis_color == old(self).axis_color,
            final(self).child_color == old(self).child_color,
            final(self).offset() == old(self).offset(),
    {
        self.axis_x = self.axis_x + 1;
        self.child_x = self.child_x + 1;
    }

    /// Moves both cells one row down.
    pub fn move_down(&mut self)
        requires
            fits_i32(old(self).axis_y + 1),
            fits_i32(old(self).child_y + 1),
        ensures
            final(self).axis_y == old(self).axis_y + 1,
            final(self).child_y == old(self).child_y + 1,
            final(self).axis_x == old(self).axis_x,
            final(self).child_x == old(self).child_x,
            final(self).axis_color == old(self).axis_color,
            final(self).child_color == old(self).child_color,
            final(self).offset() == old(self).offset(),
    {
        self.axis_y = self.axis_y + 1;
        self.child_y = self.child_y + 1;
    }

    /// Rotates the child clockwise around the axis.
    pub fn rotate_right(&mut self)
        requires
            fits_i32(old(self).offset().0),
            fits_i32(old(self).offset().1),
            fits_i32(old(self).cw_child_x()),
            fits_i32(old(self).cw_child_y()),
        ensures
            final(self).axis_x == old(self).axis_x,
            final(self).axis_y == old(self).axis_y,
            final(self).axis_color == old(self).axis_color,
            final(self).child_color == old(self).child_color,
            final(self).child_x == old(self).cw_child_x(),
            final(self).child_y == old(self).cw_child_y(),
            final(self).offset() == cw_offset(old(self).offset()),
    {
        let dx = self.child_x - self.axis_x;
        let dy = self.child_y - self.axis_y;
        self.child_x = self.axis_x - dy;
        self.child_y = self.axis_y + dx;
    }

    /// Rotates the child counterclockwise around the axis.
    pub fn rotate_left(&mut self)
        requires
            fits_i32(old(self).offset().0),
            fits_i32(old(self).offset().1),
            fits_i32(old(self).ccw_child_x()),
            fits_i32(old(self).ccw_child_y()),
        ensures
            final(self).axis_x == old(self).axis_x,
            final(self).axis_y == old(self).axis_y,
            final(self).axis_color == old(self).axis_color,
            final(self).child_color == old(self).child_color,
            final(self).child_x == old(self).ccw_child_x(),
            final(self).child_y == old(self).ccw_child_y(),
            final(self).offset() == ccw_offset(old(self).offset()),
    {
        let dx = self.child_x - self.axis_x;
        let dy = self.child_y - self.axis_y;
        self.child_x = self.axis_x + dy;
        self.child_y = self.axis_y - dx;
    }

    /// A clockwise rotation in place is legal iff the rotated child's cell is
    /// in bounds and empty (and the axis cell itself is legal).
    pub fn can_rotate_right(&self, board: &Board) -> (r: bool)
        requires
            board.wf(),
            fits_i32(self.offset().0),
            fits_i32(self.offset().1),
            fits_i32(self.cw_child_x()),
            fits_i32(self.cw_child_y()),
        ensures
            r == !spec_collision(
                board,
                self.axis_x as int,
                self.axis_y as int,
                self.cw_child_x(),
                self.cw_child_y(),
            ),
    {
        let dx = self.child_x - self.axis_x;
        let dy = self.child_y - self.axis_y;
        let new_child_x = self.axis_x - dy;
        let new_child_y = self.axis_y + dx;
        !self.is_collision(board, self.axis_x, self.axis_y, new_child_x, new_child_y)
    }

    /// A counterclockwise rotation in place is legal iff the rotated child's
    /// cell is in bounds and empty (and the axis cell itself is legal).
    pub fn can_rotate_left(&self, board: &Board) -> (r: bool)
        requires
            board.wf(),
            fits_i32(self.offset().0),
            fits_i32(self.offset().1),
            fits_i32(self.ccw_child_x()),
            fits_i32(self.ccw_child_y()),
        ensures
            r == !spec_collision(
                board,
                self.axis_x as int,
                self.axis_y as int,
                self.ccw_child_x(),
                self.ccw_child_y(),
            ),
    {
        let dx = self.child_x - self.axis_x;
        let dy = self.child_y - self.axis_y;
        let new_child_x = self.axis_x + dy;
        let new_child_y = self.axis_y - dx;
        !self.is_collision(board, self.axis_x, self.axis_y, new_child_x, new_child_y)
    }

    /// All intermediate coordinates of a wall-kick rotation fit in `i32`.
    pub open spec fn kick_fits(&self) -> bool {
        &&& fits_i32(self.offset().0)
        &&& fits_i32(self.offset().1)
        &&& fits_i32(self.cw_child_x() - 1)
        &&& fits_i32(self.cw_child_x() + 1)
        &&& fits_i32(self.cw_child_y())
        &&& fits_i32(self.ccw_child_x() - 1)
        &&& fits_i32(self.ccw_child_x() + 1)
        &&& fits_i32(self.ccw_child_y())
        &&& fits_i32(self.axis_x - 1)
        &&& fits_i32(self.axis_x + 1)
        &&& fits_i32(self.child_x - 1)
        &&& fits_i32(self.child_x + 1)
    }

    /// Clockwise rotation with wall kick: rotate in place if legal; otherwise
    /// retry one column left, then one column right; otherwise leave the pair
    /// exactly as it was. A failed rotation is never a partial shift.
    pub fn rotate_right_with_wall_kick(&mut self, board: &Board)
        requires
            board.wf(),
            old(self).kick_fits(),
        ensures
            final(self).axis_y == old(self).axis_y,
            final(self).axis_color == old(self).axis_color,
            final(self).child_color == old(self).child_color,
            !spec_collision(
                board,
                old(self).axis_x as int,
                old(self).axis_y as int,
                old(self).cw_child_x(),
                old(self).cw_child_y(),
            ) ==> {
                &&& final(self).axis_x == old(self).axis_x
                &&& final(self).child_x == old(self).cw_child_x()
                &&& final(self).child_y == old(self).cw_child_y()
            },
            spec_collision(
                board,
                old(self).axis_x as int,
                old(self).axis_y as int,
                old(self).cw_child_x(),
                old(self).cw_child_y(),
            ) && old(self).axis_x - 1 >= 0 && !spec_collision(
                board,
                old(self).axis_x - 1,
                old(self).axis_y as int,
                old(self).cw_child_x() - 1,
                old(self).cw_child_y(),
            ) ==> {
                &&& final(self).axis_x == old(self).axis_x - 1
                &&& final(self).child_x == old(self).cw_child_x() - 1
                &&& final(self).child_y == old(self).cw_child_y()
            },
            spec_collision(
                board,
                old(self).axis_x as int,
                old(self).axis_y as int,
                old(self).cw_child_x(),
                old(self).cw_child_y(),
            ) && !(old(self).axis_x - 1 >= 0 && !spec_collision(
                board,
                old(self).axis_x - 1,
                old(self).axis_y as int,
                old(self).cw_child_x() - 1,
                old(self).cw_child_y(),
            )) && old(self).axis_x + 1 < board.spec_cols() && !spec_collision(
                board,
                old(self).axis_x + 1,
                old(self).axis_y as int,
                old(self).cw_child_x() + 1,
                old(self).cw_child_y(),
            ) ==> {
                &&& final(self).axis_x == old(self).axis_x + 1
                &&& final(self).child_x == old(self).cw_child_x() + 1
                &&& final(self).child_y == old(self).cw_child_y()
            },
            spec_collision(
                board,
                old(self).axis_x as int,
                old(self).axis_y as int,
                old(self).cw_child_x(),
                old(self).cw_child_y(),
            ) && !(old(self).axis_x - 1 >= 0 && !spec_collision(
                board,
                old(self).axis_x - 1,
                old(self).axis_y as int,
                old(self).cw_child_x() - 1,
                old(self).cw_child_y(),
            )) && !(old(self).axis_x + 1 < board.spec_cols() && !spec_collision(
                board,
                old(self).axis_x + 1,
                old(self).axis_y as int,
                old(self).cw_child_x() + 1,
                old(self).cw_child_y(),
            )) ==> *final(self) == *old(self),
    {
        if self.can_rotate_right(board) {
            self.rotate_right();
            return;
        }

        let original_axis_x = self.axis_x;
        let original_child_x = self.child_x;
        self.axis_x = self.axis_x - 1;
        self.child_x = self.child_x - 1;
        if self.axis_x >= 0 && self.can_rotate_right(board) {
            self.rotate_right();
            return;
        }

        self.axis_x = original_axis_x + 1;
        self.child_x = original_child_x + 1;
        if self.axis_x < board.cols() as i32 && self.can_rotate_right(board) {
            self.rotate_right();
            return;
        }

        self.axis_x = original_axis_x;
        self.child_x = original_child_x;
    }

    /// Counterclockwise rotation with wall kick: rotate in place if legal;
    /// otherwise retry one column right, then one column left; otherwise
    /// leave the pair exactly as it was.
    pub fn rotate_left_with_wall_kick(&mut self, board: &Board)
        requires
            board.wf(),
            old(self).kick_fits(),
        ensures
            final(self).axis_y == old(self).axis_y,
            final(self).axis_color == old(self).axis_color,
            final(self).child_color == old(self).child_color,
            !spec_collision(
                board,
                old(self).axis_x as int,
                old(self).axis_y as int,
                old(self).ccw_child_x(),
                old(self).ccw_child_y(),
            ) ==> {
                &&& final(self).axis_x == old(self).axis_x
                &&& final(self).child_x == old(self).ccw_child_x()
                &&& final(self).child_y == old(self).ccw_child_y()
            },
            spec_collision(
                board,
                old(self).axis_x as int,
                old(self).axis_y as int,
                old(self).ccw_child_x(),
                old(self).ccw_child_y(),
            ) && old(self).axis_x + 1 < board.spec_cols() && !spec_collision(
                board,
                old(self).axis_x + 1,
                old(self).axis_y as int,
                old(self).ccw_child_x() + 1,
                old(self).ccw_child_y(),
            ) ==> {
                &&& final(self).axis_x == old(self).axis_x + 1
                &&& final(self).child_x == old(self).ccw_child_x() + 1
                &&& final(self).child_y == old(self).ccw_child_y()
            },
            spec_collision(
                board,
                old(self).axis_x as int,
                old(self).axis_y as int,
                old(self).ccw_child_x(),
                old(self).ccw_child_y(),
            ) && !(old(self).axis_x + 1 < board.spec_cols() && !spec_collision(
                board,
                old(self).axis_x + 1,
                old(self).axis_y as int,
                old(self).ccw_child_x() + 1,
                old(self).ccw_child_y(),
            )) && old(self).axis_x - 1 >= 0 && !spec_collision(
                board,
                old(self).axis_x - 1,
                old(self).axis_y as int,
                old(self).ccw_child_x() - 1,
                old(self).ccw_child_y(),
            ) ==> {
                &&& final(self).axis_x == old(self).axis_x - 1
                &&& final(self).child_x == old(self).ccw_child_x() - 1
                &&& final(self).child_y == old(self).ccw_child_y()
            },
            spec_collision(
                board,
                old(self).axis_x as int,
                old(self).axis_y as int,
                old(self).ccw_child_x(),
                old(self).ccw_child_y(),
            ) && !(old(self).axis_x + 1 < board.spec_cols() && !spec_collision(
                board,
                old(self).axis_x + 1,
                old(self).axis_y as int,
                old(self).ccw_child_x() + 1,
                old(self).ccw_child_y(),
            )) && !(old(self).axis_x - 1 >= 0 && !spec_collision(
                board,
                old(self).axis_x - 1,
                old(self).axis_y as int,
                old(self).ccw_child_x() - 1,
                old(self).ccw_child_y(),
            )) ==> *final(self) == *old(self),
    {
        if self.can_rotate_left(board) {
            self.rotate_left();
            return;
        }

        let original_axis_x = self.axis_x;
        let original_child_x = self.child_x;
        self.axis_x = self.axis_x + 1;
        self.child_x = self.child_x + 1;
        if self.axis_x < board.cols() as i32 && self.can_rotate_left(board) {
            self.rotate_left();
            return;
        }

        self.axis_x = original_axis_x - 1;
        self.child_x = original_child_x - 1;
        if self.axis_x >= 0 && self.can_rotate_left(board) {
            self.rotate_left();
            return;
        }

        self.axis_x = original_axis_x;
        self.child_x = original_child_x;
    }
}

} // verus!
