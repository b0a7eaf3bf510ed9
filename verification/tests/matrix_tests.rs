use lophat::{anti_transpose, IndexableMatrix, VecColumn, VecMatrix};

fn col(dimension: usize, boundary: Vec<usize>) -> VecColumn {
    VecColumn { dimension, boundary }
}

fn build_sphere_triangulation() -> Vec<VecColumn> {
    vec![
        (0, vec![]),
        (0, vec![]),
        (0, vec![]),
        (0, vec![]),
        (1, vec![0, 1]),
        (1, vec![0, 2]),
        (1, vec![1, 2]),
        (1, vec![0, 3]),
        (1, vec![1, 3]),
        (1, vec![2, 3]),
        (2, vec![4, 7, 8]),
        (2, vec![5, 7, 9]),
        (2, vec![6, 8, 9]),
        (2, vec![4, 5, 6]),
    ]
    .into_iter()
    .map(|(d, b)| col(d, b))
    .collect()
}

fn build_sphere_triangulation_at() -> Vec<VecColumn> {
    vec![
        (0, vec![]),
        (0, vec![]),
        (0, vec![]),
        (0, vec![]),
        (1, vec![1, 2]),
        (1, vec![1, 3]),
        (1, vec![2, 3]),
        (1, vec![0, 1]),
        (1, vec![0, 2]),
        (1, vec![0, 3]),
        (2, vec![4, 5, 6]),
        (2, vec![4, 7, 8]),
        (2, vec![5, 7, 9]),
        (2, vec![6, 8, 9]),
    ]
    .into_iter()
    .map(|(d, b)| col(d, b))
    .collect()
}

#[test]
fn sphere_triangulation_at() {
    let matrix = build_sphere_triangulation();
    let matrix_at = build_sphere_triangulation_at();
    let at: Vec<VecColumn> = anti_transpose(&matrix, None);
    assert_eq!(at, matrix_at);
}

#[test]
fn anti_transpose_twice_is_identity() {
    let matrix = build_sphere_triangulation();
    let at: Vec<VecColumn> = anti_transpose(&matrix, None);
    let at_at: Vec<VecColumn> = anti_transpose(&at, None);
    assert_eq!(matrix, at_at);
}

#[test]
fn anti_transpose_twice_is_identity_rectangular() {
    // 3 columns, height 5: the round trip needs the original width back.
    let matrix = vec![col(0, vec![0, 2]), col(0, vec![1, 4]), col(0, vec![])];
    let at: Vec<VecColumn> = anti_transpose(&matrix, Some(5));
    assert_eq!(at.len(), 5);
    let at_at: Vec<VecColumn> = anti_transpose(&at, Some(3));
    assert_eq!(matrix, at_at);
}

#[test]
fn anti_transpose_concrete_entries() {
    // Entry (i, j) of the input shows up as entry (h - 1 - i, w - 1 - j).
    let matrix = vec![col(0, vec![]), col(1, vec![0]), col(1, vec![0, 1])];
    let at = anti_transpose(&matrix, None);
    assert_eq!(at[0].boundary, Vec::<usize>::new());
    assert_eq!(at[1].boundary, vec![0]);
    assert_eq!(at[2].boundary, vec![0, 1]);
}

#[test]
fn vec_matrix_accessors() {
    let mut m: VecMatrix<VecColumn> = VecMatrix::from(vec![col(0, vec![]), col(1, vec![0])]);
    assert_eq!(m.width(), 2);
    assert_eq!(m.height(), 2);
    assert_eq!(m.col(1).boundary, vec![0]);
    m.set_col(0, col(1, vec![1]));
    assert_eq!(m.col(0).boundary, vec![1]);
    m.push_col(col(2, vec![0, 1]));
    assert_eq!(m.width(), 3);
    assert_eq!(m.height(), 2);

    let with_height: VecMatrix<VecColumn> = VecMatrix::from((vec![col(0, vec![])], Some(7)));
    assert_eq!(with_height.width(), 1);
    assert_eq!(with_height.height(), 7);
}

#[test]
fn column_arithmetic() {
    // Addition over the two-element field is the symmetric difference.
    let mut a = col(1, vec![0, 2, 5]);
    let b = col(1, vec![2, 3, 5, 8]);
    a.add_col(&b);
    assert_eq!(a.boundary, vec![0, 3, 8]);
    assert_eq!(a.dimension, 1);

    let mut c = col(0, vec![1, 4]);
    c.add_entry(3);
    assert_eq!(c.boundary, vec![1, 3, 4]);
    c.add_entry(4);
    assert_eq!(c.boundary, vec![1, 3]);

    assert_eq!(col(2, vec![1, 3]).pivot(), Some(3));
    assert_eq!(col(2, vec![]).pivot(), None);
    assert!(col(0, vec![]).is_cycle());
    assert!(col(0, vec![7]).is_boundary());
}
