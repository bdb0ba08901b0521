use vstd::prelude::*;

use crate::finger::MatrixHalf;

verus! {

/// How many keys each row of a split keyboard holds, left half and right half.
#[derive(Clone, Debug)]
pub struct MatrixSpec {
    pub left_rows: Vec<usize>,
    pub right_rows: Vec<usize>,
}

/// Where a key stands: its index within its row, counted across both halves, its row and its half.
#[derive(Clone, Copy, PartialEq, Eq, Structural, Debug)]
pub struct MatrixPos {
    pub x: usize,
    pub y: usize,
    pub half: MatrixHalf,
}

/// Where the key with index `i` among those of rows `row` onwards stands.
pub open spec fn matrix_pos_from(left: Seq<usize>, right: Seq<usize>, row: int, i: int) -> Option<MatrixPos>
    decreases left.len() - row,
{
    if row < 0 || row >= left.len() || row >= right.len() || i < 0 {
        None
    } else if i < left[row] {
        Some(MatrixPos { x: i as usize, y: row as usize, half: MatrixHalf::Left })
    } else if i < left[row] + right[row] {
        Some(MatrixPos { x: i as usize, y: row as usize, half: MatrixHalf::Right })
    } else {
        matrix_pos_from(left, right, row + 1, i - left[row] - right[row])
    }
}

impl MatrixSpec {
    /// Where the key with index `index`, counted row by row, stands.
    pub fn index_to_matrix_pos(&self, index: usize) -> (r: MatrixPos)
        requires
            self.left_rows@.len() == self.right_rows@.len(),
            matrix_pos_from(self.left_rows@, self.right_rows@, 0, index as int) is Some,
        ensures
            Some(r) == matrix_pos_from(self.left_rows@, self.right_rows@, 0, index as int),
    {
        let ghost target = matrix_pos_from(self.left_rows@, self.right_rows@, 0, index as int);
        let mut curr_i = index;
        let mut row_i: usize = 0;
        while row_i < self.left_rows.len()
            invariant
                self.left_rows@.len() == self.right_rows@.len(),
                row_i <= self.left_rows@.len(),
                target is Some,
                target == matrix_pos_from(self.left_rows@, self.right_rows@, 0, index as int),
                target == matrix_pos_from(self.left_rows@, self.right_rows@, row_i as int, curr_i as int),
            decreases self.left_rows@.len() - row_i,
        {
            let left_count = self.left_rows[row_i];
            let right_count = self.right_rows[row_i];
            if curr_i < left_count {
                return MatrixPos { x: curr_i, y: row_i, half: MatrixHalf::Left };
            }
            if curr_i - left_count < right_count {
                return MatrixPos { x: curr_i, y: row_i, half: MatrixHalf::Right };
            }
            curr_i = curr_i - left_count - right_count;
            row_i = row_i + 1;
        }
        MatrixPos { x: 0, y: 0, half: MatrixHalf::Left }
    }
}

} // verus!
