use vstd::prelude::*;

use crate::finger::{finger_of_number, Finger, FingerAssignment, MatrixHalf};
use crate::text::{
    gap_at, is_ascii_digit, split_gaps, split_gaps_from, split_on_gaps, trim_end, trimmed_len,
};

verus! {

/// Where a key sits on the keyboard, which finger operates it, and how much effort it takes.
#[derive(Clone, Copy, PartialEq, Eq, Structural, Debug)]
pub struct PhysicalPos {
    pub col: usize,
    pub row: usize,
    pub finger: FingerAssignment,
    pub effort: u32,
}

/// The physical position of `p` as (column, row).
pub open spec fn pos_of(p: PhysicalPos) -> (usize, usize) {
    (p.col, p.row)
}

/// Two keys form a same-finger bigram when they sit at different places and share a finger.
pub open spec fn positions_are_sfb(a: PhysicalPos, b: PhysicalPos) -> bool {
    pos_of(a) != pos_of(b) && a.finger == b.finger
}

impl PhysicalPos {
    pub fn pos(&self) -> (r: (usize, usize))
        ensures
            r == pos_of(*self),
    {
        (self.col, self.row)
    }

    pub fn is_sfb(&self, other: &PhysicalPos) -> (r: bool)
        ensures
            r == positions_are_sfb(*self, *other),
    {
        (self.col != other.col || self.row != other.row) && self.finger == other.finger
    }
}

/// Why an effort layout and a finger-assignment layout do not describe a keyboard.
#[derive(Clone, Copy, PartialEq, Eq, Structural, Debug)]
pub enum PhysicalLayoutError {
    /// The two layouts have different numbers of lines.
    LineCountMismatch,
    /// A key stands in a third piece of a line; a line has a left and a right half only.
    TooManyHalves { row: usize },
    /// The finger layout holds something other than a digit from 0 to 4 at a key.
    InvalidFinger { row: usize, col: usize },
    /// The effort layout holds something other than a digit at a key.
    InvalidEffort { row: usize, col: usize },
}

/// The half that the `k`th piece of a line belongs to; there is none after the second.
pub open spec fn half_of_piece(k: int) -> Option<MatrixHalf> {
    if k == 0 {
        Some(MatrixHalf::Left)
    } else if k == 1 {
        Some(MatrixHalf::Right)
    } else {
        None
    }
}

/// The key described by effort digit `e` and finger digit `f` at (`col`, `row`).
pub open spec fn layout_cell(e: char, f: char, row: int, col: int, half: Option<MatrixHalf>) -> Result<
    PhysicalPos,
    PhysicalLayoutError,
> {
    match half {
        None => Err(PhysicalLayoutError::TooManyHalves { row: row as usize }),
        Some(h) => if !('0' <= f <= '4') {
            Err(PhysicalLayoutError::InvalidFinger { row: row as usize, col: col as usize })
        } else if !is_ascii_digit(e) {
            Err(PhysicalLayoutError::InvalidEffort { row: row as usize, col: col as usize })
        } else {
            Ok(
                PhysicalPos {
                    col: col as usize,
                    row: row as usize,
                    finger: FingerAssignment {
                        finger: finger_of_number(((f as u32) - ('0' as u32)) as nat),
                        half: h,
                    },
                    effort: ((e as u32) - ('0' as u32)) as u32,
                },
            )
        },
    }
}

/// The keys among the first `n` characters of one piece of a line: effort characters `e` beside
/// finger characters `f`, the piece starting at column `offset`. A space stands for no key.
pub open spec fn piece_cells(
    e: Seq<char>,
    f: Seq<char>,
    row: int,
    half: Option<MatrixHalf>,
    offset: int,
    n: int,
) -> Result<Seq<PhysicalPos>, PhysicalLayoutError>
    decreases n,
{
    if n <= 0 {
        Ok(seq![])
    } else {
        match piece_cells(e, f, row, half, offset, n - 1) {
            Err(x) => Err(x),
            Ok(acc) => if e[n - 1] == ' ' {
                Ok(acc)
            } else {
                match layout_cell(e[n - 1], f[n - 1], row, offset + n - 1, half) {
                    Err(x) => Err(x),
                    Ok(p) => Ok(acc.push(p)),
                }
            },
        }
    }
}

/// The column at which the `k`th piece of a line starts: pieces are numbered across both halves.
pub open spec fn pieces_offset(es: Seq<Seq<char>>, k: int) -> int
    decreases k,
{
    if k <= 0 {
        0
    } else {
        pieces_offset(es, k - 1) + es[k - 1].len()
    }
}

pub open spec fn min(a: int, b: int) -> int {
    if a < b {
        a
    } else {
        b
    }
}

/// The keys of the first `k` pieces of a line.
pub open spec fn line_cells_upto(es: Seq<Seq<char>>, fs: Seq<Seq<char>>, row: int, k: int) -> Result<
    Seq<PhysicalPos>,
    PhysicalLayoutError,
>
    decreases k,
{
    if k <= 0 {
        Ok(seq![])
    } else {
        match line_cells_upto(es, fs, row, k - 1) {
            Err(x) => Err(x),
            Ok(acc) => match piece_cells(
                es[k - 1],
                fs[k - 1],
                row,
                half_of_piece(k - 1),
                pieces_offset(es, k - 1),
                min(es[k - 1].len() as int, fs[k - 1].len() as int),
            ) {
                Err(x) => Err(x),
                Ok(cs) => Ok(acc + cs),
            },
        }
    }
}

/// The keys of one line: both lines lose their trailing white space and are cut at
/// four-space gaps, and the pieces are read side by side.
pub open spec fn line_cells(effort: Seq<char>, fingers: Seq<char>, row: int) -> Result<
    Seq<PhysicalPos>,
    PhysicalLayoutError,
> {
    let es = split_gaps(trim_end(effort));
    let fs = split_gaps(trim_end(fingers));
    line_cells_upto(es, fs, row, min(es.len() as int, fs.len() as int))
}

/// The keys of the first `n` lines.
pub open spec fn layout_upto(effort: Seq<Seq<char>>, fingers: Seq<Seq<char>>, n: int) -> Result<
    Seq<PhysicalPos>,
    PhysicalLayoutError,
>
    decreases n,
{
    if n <= 0 {
        Ok(seq![])
    } else {
        match layout_upto(effort, fingers, n - 1) {
            Err(x) => Err(x),
            Ok(acc) => match line_cells(effort[n - 1], fingers[n - 1], n - 1) {
                Err(x) => Err(x),
                Ok(cs) => Ok(acc + cs),
            },
        }
    }
}

/// The keys, in reading order, that an effort layout and a finger layout describe.
pub open spec fn physical_layout_of(effort: Seq<Seq<char>>, fingers: Seq<Seq<char>>) -> Result<
    Seq<PhysicalPos>,
    PhysicalLayoutError,
> {
    if effort.len() != fingers.len() {
        Err(PhysicalLayoutError::LineCountMismatch)
    } else {
        layout_upto(effort, fingers, effort.len() as int)
    }
}

proof fn lemma_offset_prepend(x: Seq<char>, rest: Seq<Seq<char>>, k: int)
    requires
        0 <= k <= rest.len(),
    ensures
        pieces_offset(seq![x] + rest, k + 1) == x.len() + pieces_offset(rest, k),
    decreases k,
{
    let s = seq![x] + rest;
    if k > 0 {
        lemma_offset_prepend(x, rest, k - 1);
        assert(s[k] == rest[k - 1]);
    } else {
        assert(pieces_offset(s, 0) == 0);
        assert(pieces_offset(rest, 0) == 0);
        assert(s[0] == x);
    }
}

proof fn lemma_offsets_bounded(s: Seq<char>, start: int, i: int)
    requires
        0 <= start <= i <= s.len(),
    ensures
        forall|k: int|
            0 <= k <= split_gaps_from(s, start, i).len() ==> #[trigger] pieces_offset(
                split_gaps_from(s, start, i),
                k,
            ) <= s.len() - start,
    decreases s.len() - i,
{
    let ps = split_gaps_from(s, start, i);
    if i >= s.len() {
        assert(ps == seq![s.subrange(start, s.len() as int)]);
        assert forall|k: int| 0 <= k <= ps.len() implies #[trigger] pieces_offset(ps, k) <= s.len()
            - start by {
            assert(pieces_offset(ps, 0) == 0);
            if k == 1 {
                assert(pieces_offset(ps, 1) == pieces_offset(ps, 0) + ps[0].len());
            }
        }
    } else if gap_at(s, i) {
        let rest = split_gaps_from(s, i + 4, i + 4);
        lemma_offsets_bounded(s, i + 4, i + 4);
        assert(ps == seq![s.subrange(start, i)] + rest);
        assert forall|k: int| 0 <= k <= ps.len() implies #[trigger] pieces_offset(ps, k) <= s.len()
            - start by {
            if k > 0 {
                lemma_offset_prepend(s.subrange(start, i), rest, k - 1);
                assert(pieces_offset(rest, k - 1) <= s.len() - (i + 4));
            } else {
                assert(pieces_offset(ps, 0) == 0);
            }
        }
    } else {
        lemma_offsets_bounded(s, start, i + 1);
        assert(ps == split_gaps_from(s, start, i + 1));
    }
}

proof fn lemma_piece_error_stays(
    e: Seq<char>,
    f: Seq<char>,
    row: int,
    half: Option<MatrixHalf>,
    offset: int,
    m: int,
    n: int,
)
    requires
        0 <= m <= n,
        piece_cells(e, f, row, half, offset, m) is Err,
    ensures
        piece_cells(e, f, row, half, offset, n) == piece_cells(e, f, row, half, offset, m),
    decreases n - m,
{
    if m < n {
        lemma_piece_error_stays(e, f, row, half, offset, m, n - 1);
    }
}

proof fn lemma_line_error_stays(es: Seq<Seq<char>>, fs: Seq<Seq<char>>, row: int, m: int, n: int)
    requires
        0 <= m <= n,
        line_cells_upto(es, fs, row, m) is Err,
    ensures
        line_cells_upto(es, fs, row, n) == line_cells_upto(es, fs, row, m),
    decreases n - m,
{
    if m < n {
        lemma_line_error_stays(es, fs, row, m, n - 1);
    }
}

proof fn lemma_layout_error_stays(effort: Seq<Seq<char>>, fingers: Seq<Seq<char>>, m: int, n: int)
    requires
        0 <= m <= n,
        layout_upto(effort, fingers, m) is Err,
    ensures
        layout_upto(effort, fingers, n) == layout_upto(effort, fingers, m),
    decreases n - m,
{
    if m < n {
        lemma_layout_error_stays(effort, fingers, m, n - 1);
    }
}

/// The keys of a keyboard in reading order, each with its position, finger and effort.
#[derive(Clone, Debug)]
pub struct PhysicalLayout {
    index_to_pos: Vec<PhysicalPos>,
}

impl View for PhysicalLayout {
    type V = Seq<PhysicalPos>;

    closed spec fn view(&self) -> Seq<PhysicalPos> {
        self.index_to_pos@
    }
}

/// The index of the first key at `pos`, if any.
pub open spec fn first_index_at(ps: Seq<PhysicalPos>, pos: (usize, usize)) -> Option<int> {
    if exists|i: int| 0 <= i < ps.len() && pos_of(ps[i]) == pos {
        let i = choose|i: int|
            0 <= i < ps.len() && pos_of(ps[i]) == pos && forall|j: int|
                0 <= j < i ==> pos_of(ps[j]) != pos;
        Some(i)
    } else {
        None
    }
}

impl PhysicalLayout {
    /// Reads an effort layout and a finger-assignment layout, line by line. Each line holds a
    /// left and a right half, separated by four spaces; a digit stands for a key and a space
    /// for none. Columns count across both halves.
    pub fn new(effort_layout: Vec<String>, finger_layout: Vec<String>) -> (r: Result<
        PhysicalLayout,
        PhysicalLayoutError,
    >)
        ensures
            match physical_layout_of(
                effort_layout@.map_values(|l: String| l@),
                finger_layout@.map_values(|l: String| l@),
            ) {
                Ok(ps) => r is Ok && r.unwrap()@ == ps,
                Err(x) => r == Err::<PhysicalLayout, PhysicalLayoutError>(x),
            },
    {
        let ghost ev = effort_layout@.map_values(|l: String| l@);
        let ghost fv = finger_layout@.map_values(|l: String| l@);
        if effort_layout.len() != finger_layout.len() {
            return Err(PhysicalLayoutError::LineCountMismatch);
        }
        let mut index_to_pos: Vec<PhysicalPos> = Vec::new();
        let mut row: usize = 0;
        while row < effort_layout.len()
            invariant
                effort_layout@.len() == finger_layout@.len(),
                ev == effort_layout@.map_values(|l: String| l@),
                fv == finger_layout@.map_values(|l: String| l@),
                row <= effort_layout@.len(),
                layout_upto(ev, fv, row as int) == Ok::<Seq<PhysicalPos>, PhysicalLayoutError>(
                    index_to_pos@,
                ),
            decreases effort_layout@.len() - row,
        {
            let cells = line_of(effort_layout[row].as_str(), finger_layout[row].as_str(), row);
            assert(ev[row as int] == effort_layout@[row as int]@);
            assert(fv[row as int] == finger_layout@[row as int]@);
            match cells {
                Err(x) => {
                    proof {
                        lemma_layout_error_stays(ev, fv, row + 1, effort_layout@.len() as int);
                    }
                    return Err(x);
                },
                Ok(cs) => {
                    let mut cs = cs;
                    index_to_pos.append(&mut cs);
                },
            }
            row = row + 1;
        }
        Ok(PhysicalLayout { index_to_pos })
    }

    /// The number of keys.
    pub fn len(&self) -> (r: usize)
        ensures
            r == self@.len(),
    {
        self.index_to_pos.len()
    }

    /// The key at `index` in reading order.
    pub fn index_to_pos(&self, index: usize) -> (r: PhysicalPos)
        requires
            index < self@.len(),
        ensures
            r == self@[index as int],
    {
        self.index_to_pos[index]
    }

    /// The key at `pos`, given as (column, row).
    pub fn get(&self, pos: (usize, usize)) -> (r: PhysicalPos)
        requires
            first_index_at(self@, pos) is Some,
        ensures
            r == self@[first_index_at(self@, pos).unwrap()],
    {
        let mut i: usize = 0;
        while i < self.index_to_pos.len()
            invariant
                i <= self@.len(),
                forall|j: int| 0 <= j < i ==> pos_of(#[trigger] self@[j]) != pos,
                first_index_at(self@, pos) is Some,
            decreases self@.len() - i,
        {
            let p = self.index_to_pos[i];
            if p.col == pos.0 && p.row == pos.1 {
                let ghost w = first_index_at(self@, pos).unwrap();
                assert(w == i as int) by {
                    if w < i {
                        assert(pos_of(self@[w]) != pos);
                    }
                    if w > i {
                        assert(pos_of(self@[i as int]) == pos);
                    }
                };
                return p;
            }
            i = i + 1;
        }
        proof {
            let w = first_index_at(self@, pos).unwrap();
            assert(pos_of(self@[w]) == pos);
        }
        self.index_to_pos[0]
    }
}

/// The keys of one piece of a line.
fn piece_of(e: &str, f: &str, row: usize, half: Option<MatrixHalf>, offset: usize) -> (r: Result<
    Vec<PhysicalPos>,
    PhysicalLayoutError,
>)
    requires
        offset + e@.len() <= usize::MAX,
    ensures
        match piece_cells(e@, f@, row as int, half, offset as int, min(e@.len() as int, f@.len() as int)) {
            Ok(cs) => r is Ok && r.unwrap()@ == cs,
            Err(x) => r == Err::<Vec<PhysicalPos>, PhysicalLayoutError>(x),
        },
{
    let el = e.unicode_len();
    let fl = f.unicode_len();
    let n = if el < fl {
        el
    } else {
        fl
    };
    let mut res: Vec<PhysicalPos> = Vec::new();
    let mut j: usize = 0;
    while j < n
        invariant
            el == e@.len(),
            fl == f@.len(),
            n == min(el as int, fl as int),
            j <= n,
            offset + el <= usize::MAX,
            piece_cells(e@, f@, row as int, half, offset as int, j as int) == Ok::<
                Seq<PhysicalPos>,
                PhysicalLayoutError,
            >(res@),
        decreases n - j,
    {
        let ec = e.get_char(j);
        let fc = f.get_char(j);
        if ec != ' ' {
            let col = offset + j;
            let cell = match half {
                None => Err(PhysicalLayoutError::TooManyHalves { row }),
                Some(h) => {
                    if !('0' <= fc && fc <= '4') {
                        Err(PhysicalLayoutError::InvalidFinger { row, col })
                    } else if !('0' <= ec && ec <= '9') {
                        Err(PhysicalLayoutError::InvalidEffort { row, col })
                    } else {
                        let finger = Finger::from_char(fc);
                        let effort = (ec as u32) - ('0' as u32);
                        Ok(PhysicalPos { col, row, finger: FingerAssignment { finger, half: h }, effort })
                    }
                },
            };
            assert(cell == layout_cell(ec, fc, row as int, offset + j, half));
            match cell {
                Err(x) => {
                    proof {
                        lemma_piece_error_stays(e@, f@, row as int, half, offset as int, j + 1, n as int);
                    }
                    return Err(x);
                },
                Ok(p) => {
                    res.push(p);
                },
            }
        }
        j = j + 1;
    }
    Ok(res)
}

/// The keys of one line of the two layouts.
fn line_of(effort: &str, fingers: &str, row: usize) -> (r: Result<Vec<PhysicalPos>, PhysicalLayoutError>)
    ensures
        match line_cells(effort@, fingers@, row as int) {
            Ok(cs) => r is Ok && r.unwrap()@ == cs,
            Err(x) => r == Err::<Vec<PhysicalPos>, PhysicalLayoutError>(x),
        },
{
    let ne = trimmed_len(effort);
    let nf = trimmed_len(fingers);
    let te = effort.substring_char(0, ne);
    let tf = fingers.substring_char(0, nf);
    let es = split_on_gaps(te);
    let fs = split_on_gaps(tf);
    let ghost esv = split_gaps(te@);
    let ghost fsv = split_gaps(tf@);
    proof {
        assert(te@ == trim_end(effort@));
        assert(tf@ == trim_end(fingers@));
        lemma_offsets_bounded(te@, 0, 0);
    }
    let count = if es.len() < fs.len() {
        es.len()
    } else {
        fs.len()
    };
    let mut res: Vec<PhysicalPos> = Vec::new();
    let mut offset: usize = 0;
    let mut k: usize = 0;
    while k < count
        invariant
            esv == split_gaps(te@),
            fsv == split_gaps(tf@),
            te@ == trim_end(effort@),
            tf@ == trim_end(fingers@),
            es@.len() == esv.len(),
            fs@.len() == fsv.len(),
            forall|i: int| 0 <= i < es@.len() ==> (#[trigger] es@[i])@ == esv[i],
            forall|i: int| 0 <= i < fs@.len() ==> (#[trigger] fs@[i])@ == fsv[i],
            count == min(esv.len() as int, fsv.len() as int),
            k <= count,
            offset == pieces_offset(esv, k as int),
            forall|j: int| 0 <= j <= esv.len() ==> #[trigger] pieces_offset(esv, j) <= te@.len(),
            te@.len() <= usize::MAX,
            line_cells_upto(esv, fsv, row as int, k as int) == Ok::<
                Seq<PhysicalPos>,
                PhysicalLayoutError,
            >(res@),
        decreases count - k,
    {
        let e = es[k].as_str();
        let f = fs[k].as_str();
        let half = if k == 0 {
            Some(MatrixHalf::Left)
        } else if k == 1 {
            Some(MatrixHalf::Right)
        } else {
            None
        };
        assert(pieces_offset(esv, k + 1) == offset + e@.len());
        assert(pieces_offset(esv, k + 1) <= te@.len());
        match piece_of(e, f, row, half, offset) {
            Err(x) => {
                proof {
                    assert(e@ == esv[k as int]);
                    assert(f@ == fsv[k as int]);
                    assert(line_cells_upto(esv, fsv, row as int, k + 1) == Err::<
                        Seq<PhysicalPos>,
                        PhysicalLayoutError,
                    >(x));
                    lemma_line_error_stays(esv, fsv, row as int, k + 1, count as int);
                }
                return Err(x);
            },
            Ok(cs) => {
                let mut cs = cs;
                res.append(&mut cs);
            },
        }
        offset = offset + e.unicode_len();
        k = k + 1;
    }
    Ok(res)
}

} // verus!
