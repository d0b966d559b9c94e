use electron_temp::pairs::{build_pairs, create_matrix, LinePair};
use electron_temp::table::CrossSectionTable;

fn bits(values: &[f64]) -> Vec<u64> {
    values.iter().map(|v| v.to_bits()).collect()
}

fn line(first_energy: f64, count: usize) -> CrossSectionTable {
    let energies: Vec<f64> = (0..count).map(|i| first_energy + 10.0 * i as f64).collect();
    let weights: Vec<f64> = (0..count).map(|i| 1.0 + i as f64).collect();
    CrossSectionTable::from_columns(&bits(&energies), &bits(&weights)).unwrap()
}

fn lines(n: usize) -> Vec<CrossSectionTable> {
    (0..n).map(|i| line(5.0 + i as f64, 4 + i)).collect()
}

fn indices(pairs: &[LinePair]) -> Vec<(usize, usize)> {
    pairs.iter().map(|p| (p.left_index, p.right_index)).collect()
}

#[test]
fn no_lines_and_one_line_give_no_pairs() {
    assert!(build_pairs(&lines(0)).is_empty());
    assert!(build_pairs(&lines(1)).is_empty());
}

#[test]
fn two_lines_give_both_orders() {
    assert_eq!(indices(&build_pairs(&lines(2))), vec![(1, 2), (2, 1)]);
}

#[test]
fn three_lines_give_six_pairs_row_by_row() {
    assert_eq!(
        indices(&build_pairs(&lines(3))),
        vec![(1, 2), (1, 3), (2, 1), (2, 3), (3, 1), (3, 2)]
    );
}

#[test]
fn n_lines_give_n_times_n_minus_one_pairs_of_distinct_lines() {
    for n in 0..9 {
        let tables = lines(n);
        let pairs = build_pairs(&tables);
        assert_eq!(pairs.len(), n * n.saturating_sub(1));
        let mut expected = Vec::new();
        for i in 0..n {
            for j in 0..n {
                if i != j {
                    expected.push((i + 1, j + 1));
                }
            }
        }
        assert_eq!(indices(&pairs), expected);
        for p in &pairs {
            assert_ne!(p.left_index, p.right_index);
            assert_eq!(p.left.energies(), tables[p.left_index - 1].energies());
            assert_eq!(p.left.weights(), tables[p.left_index - 1].weights());
            assert_eq!(p.right.energies(), tables[p.right_index - 1].energies());
            assert_eq!(p.right.weights(), tables[p.right_index - 1].weights());
        }
    }
}

#[test]
fn the_matrix_has_one_row_of_pairs_for_each_threshold() {
    let tables = lines(6);
    let evs = bits(&[30.0, 40.0, 50.0, 60.0, 70.0]);
    let matrix = create_matrix(&evs, &tables);
    assert_eq!(matrix.len(), 5);
    for (row, ev) in matrix.iter().zip(&evs) {
        assert_eq!(row.len(), 30);
        for p in row {
            let left = tables[p.left_index - 1].truncate(*ev);
            let right = tables[p.right_index - 1].truncate(*ev);
            assert_eq!(p.left.energies(), left.energies());
            assert_eq!(p.right.energies(), right.energies());
            assert_eq!(p.right.weights(), right.weights());
        }
    }
    assert_eq!(matrix[0][0].left.len(), 3);
    assert_eq!(matrix[4][0].left.len(), 4);
}

#[test]
fn no_thresholds_give_an_empty_matrix() {
    assert!(create_matrix(&Vec::new(), &lines(3)).is_empty());
}
