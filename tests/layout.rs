use keylog_stats::finger::{Finger, FingerAssignment, MatrixHalf};
use keylog_stats::matrix::{MatrixPos, MatrixSpec};
use keylog_stats::physical::{PhysicalLayout, PhysicalLayoutError, PhysicalPos};

fn effort_lines() -> Vec<String> {
    vec![
        "54446    64445".into(),
        "21005    50012".into(),
        "64436    63446".into(),
        " 77".into(),
        "   80    0".into(),
    ]
}

fn finger_lines() -> Vec<String> {
    vec![
        "11233    33211".into(),
        "01233    33210".into(),
        "01233    33210".into(),
        " 12".into(),
        "   44    4".into(),
    ]
}

fn at(layout: &PhysicalLayout, i: usize) -> (usize, usize, MatrixHalf, u32) {
    let p = layout.index_to_pos(i);
    (p.col, p.row, p.finger.half, p.effort)
}

#[test]
fn test_physical_layout() {
    let layout = PhysicalLayout::new(effort_lines(), finger_lines()).unwrap();
    assert_eq!(at(&layout, 0), (0, 0, MatrixHalf::Left, 5));
    assert_eq!(at(&layout, 1), (1, 0, MatrixHalf::Left, 4));
    assert_eq!(at(&layout, 5), (5, 0, MatrixHalf::Right, 6));
    assert_eq!(at(&layout, 9), (9, 0, MatrixHalf::Right, 5));
    assert_eq!(at(&layout, 10), (0, 1, MatrixHalf::Left, 2));
    assert_eq!(at(&layout, 11), (1, 1, MatrixHalf::Left, 1));
    assert_eq!(at(&layout, 20), (0, 2, MatrixHalf::Left, 6));
    assert_eq!(at(&layout, 30), (1, 3, MatrixHalf::Left, 7));
    assert_eq!(at(&layout, 31), (2, 3, MatrixHalf::Left, 7));
    assert_eq!(at(&layout, 32), (3, 4, MatrixHalf::Left, 8));
    assert_eq!(at(&layout, 33), (4, 4, MatrixHalf::Left, 0));
    assert_eq!(at(&layout, 34), (5, 4, MatrixHalf::Right, 0));
}

#[test]
fn physical_layout_fingers_and_count() {
    let layout = PhysicalLayout::new(effort_lines(), finger_lines()).unwrap();
    assert_eq!(layout.len(), 35);
    assert_eq!(
        layout.index_to_pos(0),
        PhysicalPos {
            col: 0,
            row: 0,
            finger: FingerAssignment { finger: Finger::Ring, half: MatrixHalf::Left },
            effort: 5,
        }
    );
    assert_eq!(
        layout.index_to_pos(34).finger,
        FingerAssignment { finger: Finger::Thumb, half: MatrixHalf::Right }
    );
    assert_eq!(layout.get((6, 2)).finger.finger, Finger::Index);
}

#[test]
fn physical_layout_errors() {
    let one = vec!["1".to_string()];
    assert_eq!(
        PhysicalLayout::new(one.clone(), vec![]).unwrap_err(),
        PhysicalLayoutError::LineCountMismatch
    );
    assert_eq!(
        PhysicalLayout::new(vec!["1    1    1".into()], vec!["1    1    1".into()]).unwrap_err(),
        PhysicalLayoutError::TooManyHalves { row: 0 }
    );
    assert_eq!(
        PhysicalLayout::new(vec!["11".into()], vec!["15".into()]).unwrap_err(),
        PhysicalLayoutError::InvalidFinger { row: 0, col: 1 }
    );
    assert_eq!(
        PhysicalLayout::new(vec!["x".into()], vec!["1".into()]).unwrap_err(),
        PhysicalLayoutError::InvalidEffort { row: 0, col: 0 }
    );
    let ok = PhysicalLayout::new(vec!["1  \t".into()], vec!["2".into()]).unwrap();
    assert_eq!(ok.len(), 1);
}

fn pos(x: usize, y: usize, half: MatrixHalf) -> MatrixPos {
    MatrixPos { x, y, half }
}

#[test]
fn test_index_to_matrix_pos() {
    let spec = MatrixSpec { left_rows: vec![5, 5, 5, 4], right_rows: vec![5, 5, 5, 1] };
    assert_eq!(spec.index_to_matrix_pos(0), pos(0, 0, MatrixHalf::Left));
    assert_eq!(spec.index_to_matrix_pos(1), pos(1, 0, MatrixHalf::Left));
    assert_eq!(spec.index_to_matrix_pos(2), pos(2, 0, MatrixHalf::Left));
    assert_eq!(spec.index_to_matrix_pos(3), pos(3, 0, MatrixHalf::Left));
    assert_eq!(spec.index_to_matrix_pos(4), pos(4, 0, MatrixHalf::Left));
    assert_eq!(spec.index_to_matrix_pos(5), pos(5, 0, MatrixHalf::Right));
    assert_eq!(spec.index_to_matrix_pos(6), pos(6, 0, MatrixHalf::Right));
    assert_eq!(spec.index_to_matrix_pos(7), pos(7, 0, MatrixHalf::Right));
    assert_eq!(spec.index_to_matrix_pos(8), pos(8, 0, MatrixHalf::Right));
    assert_eq!(spec.index_to_matrix_pos(9), pos(9, 0, MatrixHalf::Right));
    assert_eq!(spec.index_to_matrix_pos(10), pos(0, 1, MatrixHalf::Left));
    assert_eq!(spec.index_to_matrix_pos(19), pos(9, 1, MatrixHalf::Right));
    assert_eq!(spec.index_to_matrix_pos(20), pos(0, 2, MatrixHalf::Left));
    assert_eq!(spec.index_to_matrix_pos(30), pos(0, 3, MatrixHalf::Left));
    assert_eq!(spec.index_to_matrix_pos(31), pos(1, 3, MatrixHalf::Left));
    assert_eq!(spec.index_to_matrix_pos(32), pos(2, 3, MatrixHalf::Left));
    assert_eq!(spec.index_to_matrix_pos(33), pos(3, 3, MatrixHalf::Left));
    assert_eq!(spec.index_to_matrix_pos(34), pos(4, 3, MatrixHalf::Right));
}

#[test]
fn finger_numbers_and_reading_order() {
    assert_eq!(Finger::from_u32(0), Finger::Pinky);
    assert_eq!(Finger::from_u32(4), Finger::Thumb);
    assert_eq!(Finger::from_char('2'), Finger::Middle);
    let lp = FingerAssignment { finger: Finger::Pinky, half: MatrixHalf::Left };
    let lt = FingerAssignment { finger: Finger::Thumb, half: MatrixHalf::Left };
    let rt = FingerAssignment { finger: Finger::Thumb, half: MatrixHalf::Right };
    let rp = FingerAssignment { finger: Finger::Pinky, half: MatrixHalf::Right };
    assert_eq!(lp.rank(), 0);
    assert_eq!(lt.rank(), 4);
    assert_eq!(rt.rank(), 5);
    assert_eq!(rp.rank(), 9);
    assert!(lt.precedes(&rt));
    assert!(rt.precedes(&rp));
    assert_eq!(FingerAssignment::at_rank(7), FingerAssignment { finger: Finger::Middle, half: MatrixHalf::Right });
}
