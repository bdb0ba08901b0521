use vstd::prelude::*;

verus! {

/// The five fingers of one hand, from the outside in.
#[derive(Clone, Copy, PartialEq, Eq, Structural, Debug, Hash)]
pub enum Finger {
    Pinky,
    Ring,
    Middle,
    Index,
    Thumb,
}

/// Which half of a split keyboard a key belongs to.
#[derive(Clone, Copy, PartialEq, Eq, Structural, Debug, Hash)]
pub enum MatrixHalf {
    Left,
    Right,
}

/// The number of a finger in a finger-assignment layout: pinky 0 up to thumb 4.
pub open spec fn finger_number(f: Finger) -> nat {
    match f {
        Finger::Pinky => 0,
        Finger::Ring => 1,
        Finger::Middle => 2,
        Finger::Index => 3,
        Finger::Thumb => 4,
    }
}

impl Finger {
    /// The finger numbered `x` in a finger-assignment layout.
    pub fn from_u32(x: u32) -> (r: Finger)
        requires
            x < 5,
        ensures
            finger_number(r) == x,
    {
        match x {
            0 => Finger::Pinky,
            1 => Finger::Ring,
            2 => Finger::Middle,
            3 => Finger::Index,
            _ => Finger::Thumb,
        }
    }

    /// The finger written as the digit `c` in a finger-assignment layout.
    pub fn from_char(c: char) -> (r: Finger)
        requires
            '0' <= c <= '4',
        ensures
            finger_number(r) == (c as u32) - ('0' as u32),
    {
        Finger::from_u32((c as u32) - ('0' as u32))
    }
}

/// The finger that nominally operates a physical key, and the hand it belongs to.
#[derive(Clone, Copy, PartialEq, Eq, Structural, Debug, Hash)]
pub struct FingerAssignment {
    pub finger: Finger,
    pub half: MatrixHalf,
}

/// Place of an assignment in the left-to-right reading order of both hands:
/// left pinky 0 up to left thumb 4, then right thumb 5 down to right pinky 9.
pub open spec fn finger_rank(a: FingerAssignment) -> nat {
    match a.half {
        MatrixHalf::Left => finger_number(a.finger),
        MatrixHalf::Right => (9 - finger_number(a.finger)) as nat,
    }
}

/// The assignment at place `r` of the reading order.
pub open spec fn assignment_at_rank(r: nat) -> FingerAssignment {
    if r < 5 {
        FingerAssignment { finger: finger_of_number(r), half: MatrixHalf::Left }
    } else {
        FingerAssignment { finger: finger_of_number((9 - r) as nat), half: MatrixHalf::Right }
    }
}

pub open spec fn finger_of_number(x: nat) -> Finger {
    if x == 0 {
        Finger::Pinky
    } else if x == 1 {
        Finger::Ring
    } else if x == 2 {
        Finger::Middle
    } else if x == 3 {
        Finger::Index
    } else {
        Finger::Thumb
    }
}

/// The reading order is a bijection between the ten assignments and `0..10`.
pub proof fn lemma_rank_bijection(a: FingerAssignment, r: nat)
    ensures
        finger_rank(a) < 10,
        assignment_at_rank(finger_rank(a)) == a,
        r < 10 ==> finger_rank(assignment_at_rank(r)) == r,
{
}

/// In the reading order every left assignment precedes every right one, the left hand
/// reads pinky to thumb and the right hand thumb to pinky.
pub proof fn lemma_rank_order(a: FingerAssignment, b: FingerAssignment)
    ensures
        a.half == MatrixHalf::Left && b.half == MatrixHalf::Right ==> finger_rank(a) < finger_rank(b),
        a.half == MatrixHalf::Left && b.half == MatrixHalf::Left ==> (finger_rank(a) < finger_rank(b)
            <==> finger_number(a.finger) < finger_number(b.finger)),
        a.half == MatrixHalf::Right && b.half == MatrixHalf::Right ==> (finger_rank(a) < finger_rank(
            b) <==> finger_number(a.finger) > finger_number(b.finger)),
        finger_rank(a) == finger_rank(b) ==> a == b,
{
}

impl FingerAssignment {
    /// Place of this assignment in the left-to-right reading order of both hands.
    pub fn rank(&self) -> (r: usize)
        ensures
            r == finger_rank(*self),
    {
        let n: usize = match self.finger {
            Finger::Pinky => 0,
            Finger::Ring => 1,
            Finger::Middle => 2,
            Finger::Index => 3,
            Finger::Thumb => 4,
        };
        match self.half {
            MatrixHalf::Left => n,
            MatrixHalf::Right => 9 - n,
        }
    }

    /// The assignment at place `r` of the reading order.
    pub fn at_rank(r: usize) -> (a: FingerAssignment)
        requires
            r < 10,
        ensures
            a == assignment_at_rank(r as nat),
            finger_rank(a) == r,
    {
        if r < 5 {
            FingerAssignment { finger: Finger::from_u32(r as u32), half: MatrixHalf::Left }
        } else {
            FingerAssignment { finger: Finger::from_u32((9 - r) as u32), half: MatrixHalf::Right }
        }
    }

    /// Whether this assignment comes before `other` in the reading order.
    pub fn precedes(&self, other: &FingerAssignment) -> (r: bool)
        ensures
            r == (finger_rank(*self) < finger_rank(*other)),
    {
        self.rank() < other.rank()
    }
}

} // verus!
