use lophat::{
    diagram_from_pivots, rv_decompose_lock_free, LoPhatOptions, PersistenceDiagram, VecColumn,
};
use std::collections::HashMap;

fn col(dimension: usize, boundary: Vec<usize>) -> VecColumn {
    VecColumn { dimension, boundary }
}

fn build_sphere_triangulation() -> Vec<VecColumn> {
    vec![
        (0, vec![]),
        (0, vec![]),
        (0, vec![]),
        (0, vec![]),
        (1, vec![0, 1]),
        (1, vec![0, 2]),
        (1, vec![1, 2]),
        (1, vec![0, 3]),
        (1, vec![1, 3]),
        (1, vec![2, 3]),
        (2, vec![4, 7, 8]),
        (2, vec![5, 7, 9]),
        (2, vec![6, 8, 9]),
        (2, vec![4, 5, 6]),
    ]
    .into_iter()
    .map(|(d, b)| col(d, b))
    .collect()
}

/// A fixed strictly upper-triangular matrix with a mix of cycles and
/// boundaries across two dimensions.
fn build_mixed_matrix() -> Vec<VecColumn> {
    vec![
        (0, vec![]),
        (0, vec![]),
        (0, vec![]),
        (0, vec![]),
        (0, vec![]),
        (1, vec![0, 1]),
        (1, vec![1, 2]),
        (1, vec![0, 2]),
        (1, vec![2, 4]),
        (1, vec![3, 4]),
        (1, vec![2, 3]),
        (2, vec![5, 6, 7]),
        (2, vec![8, 9, 10]),
    ]
    .into_iter()
    .map(|(d, b)| col(d, b))
    .collect()
}

fn sym_diff(a: &[usize], b: &[usize]) -> Vec<usize> {
    let mut out = Vec::new();
    let (mut i, mut k) = (0, 0);
    while i < a.len() || k < b.len() {
        if k == b.len() || (i < a.len() && a[i] < b[k]) {
            out.push(a[i]);
            i += 1;
        } else if i == a.len() || b[k] < a[i] {
            out.push(b[k]);
            k += 1;
        } else {
            i += 1;
            k += 1;
        }
    }
    out
}

/// A plain sequential left-to-right reduction, used as an oracle: returns the
/// final pivot row of each column.
fn serial_reduce_pivots(matrix: &[VecColumn]) -> Vec<Option<usize>> {
    let mut cols: Vec<Vec<usize>> = matrix.iter().map(|c| c.boundary.clone()).collect();
    let mut owner: HashMap<usize, usize> = HashMap::new();
    for j in 0..cols.len() {
        while let Some(&l) = cols[j].last() {
            match owner.get(&l) {
                Some(&k) => {
                    cols[j] = sym_diff(&cols[j], &cols[k].clone());
                }
                None => {
                    owner.insert(l, j);
                    break;
                }
            }
        }
    }
    cols.iter().map(|c| c.last().copied()).collect()
}

fn serial_diagram(matrix: &[VecColumn]) -> PersistenceDiagram {
    let pivots = serial_reduce_pivots(matrix);
    diagram_from_pivots(&pivots)
}

fn parallel_diagram(matrix: &[VecColumn], options: &LoPhatOptions) -> PersistenceDiagram {
    rv_decompose_lock_free(matrix.to_vec(), options).diagram()
}

#[test]
fn sphere_diagram_matches_betti_numbers() {
    // One connected component survives at dimension 0, one 2-cycle pairs a
    // dimension-1 birth with a dimension-2 death, and the last triangle stays
    // unpaired as the essential 2-cycle.
    let matrix = build_sphere_triangulation();
    let dgm = parallel_diagram(&matrix, &LoPhatOptions::default());
    assert_eq!(
        dgm.paired,
        vec![(1, 4), (2, 5), (3, 7), (8, 10), (9, 11), (6, 12)]
    );
    assert_eq!(dgm.unpaired, vec![0, 13]);
}

#[test]
fn agrees_with_serial_reduction() {
    for matrix in [build_sphere_triangulation(), build_mixed_matrix()] {
        let expected = serial_diagram(&matrix);
        let options = LoPhatOptions::default();
        let got = parallel_diagram(&matrix, &options);
        assert_eq!(expected, got);
    }
}

#[test]
fn agrees_with_serial_reduction_all_settings() {
    let matrix = build_sphere_triangulation();
    let expected = serial_diagram(&matrix);
    for clearing in [false, true] {
        for maintain_v in [false, true] {
            for num_threads in [0, 2] {
                let options = LoPhatOptions {
                    maintain_v,
                    num_threads,
                    column_height: None,
                    min_chunk_len: 1,
                    clearing,
                };
                let got = parallel_diagram(&matrix, &options);
                assert_eq!(expected, got, "clearing={clearing} v={maintain_v}");
            }
        }
    }
}

#[test]
fn deterministic_across_runs() {
    let matrix = build_mixed_matrix();
    let options = LoPhatOptions {
        num_threads: 3,
        ..LoPhatOptions::default()
    };
    let first = parallel_diagram(&matrix, &options);
    for _ in 0..5 {
        let again = parallel_diagram(&matrix, &options);
        assert_eq!(first, again);
    }
}

#[test]
fn clearing_does_not_change_diagram() {
    for matrix in [build_sphere_triangulation(), build_mixed_matrix()] {
        let plain = parallel_diagram(&matrix, &LoPhatOptions::default());
        let cleared = parallel_diagram(
            &matrix,
            &LoPhatOptions {
                clearing: true,
                ..LoPhatOptions::default()
            },
        );
        assert_eq!(plain, cleared);
    }
}

#[test]
fn pivots_are_unique_after_reduction() {
    let matrix = build_mixed_matrix();
    let algo = rv_decompose_lock_free(matrix, &LoPhatOptions::default());
    let dec = algo.to_decomposition();
    let mut seen = HashMap::new();
    for (j, c) in dec.r.iter().enumerate() {
        if let Some(l) = c.boundary.last() {
            assert!(seen.insert(*l, j).is_none(), "pivot {l} claimed twice");
        }
    }
}

#[test]
fn every_index_in_exactly_one_role() {
    let matrix = build_mixed_matrix();
    let n = matrix.len();
    let dgm = parallel_diagram(&matrix, &LoPhatOptions::default());
    for i in 0..n {
        let births = dgm.paired.iter().filter(|p| p.0 == i).count();
        let deaths = dgm.paired.iter().filter(|p| p.1 == i).count();
        let unpaired = dgm.unpaired.iter().filter(|&&u| u == i).count();
        assert_eq!(births + deaths + unpaired, 1, "index {i}");
    }
}

#[test]
fn maintain_v_reconstructs_r() {
    // V records the column operations: R = D * V over the two-element field.
    let matrix = build_sphere_triangulation();
    let options = LoPhatOptions {
        maintain_v: true,
        ..LoPhatOptions::default()
    };
    let dec = rv_decompose_lock_free(matrix.clone(), &options).to_decomposition();
    let v = dec.v.expect("V was maintained");
    assert_eq!(v.len(), matrix.len());
    for j in 0..matrix.len() {
        let mut acc: Vec<usize> = Vec::new();
        for &orig in v[j].boundary.iter() {
            acc = sym_diff(&acc, &matrix[orig].boundary);
        }
        assert_eq!(acc, dec.r[j].boundary, "column {j}");
    }
}

#[test]
fn empty_matrix() {
    let dgm = parallel_diagram(&[], &LoPhatOptions::default());
    assert!(dgm.paired.is_empty());
    assert!(dgm.unpaired.is_empty());
}

#[test]
fn single_cycle_column() {
    let dgm = parallel_diagram(&[col(0, vec![])], &LoPhatOptions::default());
    assert!(dgm.paired.is_empty());
    assert_eq!(dgm.unpaired, vec![0]);
}

#[test]
fn diagram_from_pivots_concrete() {
    let pivots = vec![None, None, Some(0), None, Some(1)];
    let dgm = diagram_from_pivots(&pivots);
    assert_eq!(dgm.paired, vec![(0, 2), (1, 4)]);
    assert_eq!(dgm.unpaired, vec![3]);
}

#[test]
fn default_options() {
    let options = LoPhatOptions::default();
    assert!(!options.maintain_v);
    assert!(!options.clearing);
    assert_eq!(options.num_threads, 0);
    assert_eq!(options.column_height, None);
    assert_eq!(options.min_chunk_len, 1);
}

#[test]
fn column_height_override() {
    // A taller pivot table, as an anti-transposed rectangular matrix needs.
    let matrix = vec![col(0, vec![]), col(1, vec![0]), col(1, vec![0, 5])];
    let options = LoPhatOptions {
        column_height: Some(8),
        ..LoPhatOptions::default()
    };
    let dgm = parallel_diagram(&matrix, &options);
    assert_eq!(dgm.paired, vec![(0, 1), (5, 2)]);
    assert!(dgm.unpaired.is_empty());
}
