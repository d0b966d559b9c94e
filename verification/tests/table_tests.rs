use electron_temp::pairs::extract_cs_by_ev;
use electron_temp::table::{CrossSectionTable, Sample, TableError};

fn bits(values: &[f64]) -> Vec<u64> {
    values.iter().map(|v| v.to_bits()).collect()
}

fn table(energies: &[f64], weights: &[f64]) -> CrossSectionTable {
    CrossSectionTable::from_columns(&bits(energies), &bits(weights)).unwrap()
}

fn numbers(column: Vec<u64>) -> Vec<f64> {
    column.into_iter().map(f64::from_bits).collect()
}

fn six_lines() -> Vec<CrossSectionTable> {
    vec![
        table(&[13.5, 15.0, 18.0, 22.0, 30.0, 45.0, 70.0], &[0.0, 0.4, 1.1, 1.9, 2.6, 2.9, 2.7]),
        table(&[14.0, 16.0, 19.0, 25.0, 35.0, 50.0], &[0.0, 0.2, 0.7, 1.3, 1.6, 1.5]),
        table(&[19.5, 21.0, 24.0, 28.0, 40.0, 60.0, 80.0], &[0.0, 0.1, 0.3, 0.6, 0.9, 1.0, 0.9]),
        table(&[20.0, 26.0, 33.0, 47.0], &[0.0, 0.5, 0.8, 0.7]),
        table(&[25.0, 32.0, 44.0, 65.0], &[0.0, 0.3, 0.5, 0.4]),
        table(&[12.0, 13.0], &[0.0, 0.05]),
    ]
}

#[test]
fn test_extract() {
    let result = extract_cs_by_ev(20.0f64.to_bits(), &six_lines());
    let shown: Vec<(Vec<f64>, Vec<f64>)> =
        result.iter().map(|t| (numbers(t.energies()), numbers(t.weights()))).collect();
    println!("{:?}", shown);
    let lengths: Vec<usize> = result.iter().map(|t| t.len()).collect();
    assert_eq!(lengths, vec![3, 3, 1, 0, 0, 2]);
    assert_eq!(shown[0].0, vec![13.5, 15.0, 18.0]);
    assert_eq!(shown[0].1, vec![0.0, 0.4, 1.1]);
    assert_eq!(shown[2].0, vec![19.5]);
}

#[test]
fn columns_of_equal_length_make_a_table() {
    let t = table(&[0.0, 1.0, 2.0], &[0.0, 10.0, 2.0]);
    assert_eq!(t.len(), 3);
    assert_eq!(t.sample(1), Sample { energy: 1.0f64.to_bits(), weight: 10.0f64.to_bits() });
    assert_eq!(numbers(t.energies()), vec![0.0, 1.0, 2.0]);
    assert_eq!(numbers(t.weights()), vec![0.0, 10.0, 2.0]);
}

#[test]
fn empty_columns_make_an_empty_table() {
    let t = table(&[], &[]);
    assert_eq!(t.len(), 0);
    assert!(t.energies().is_empty());
    assert!(t.weights().is_empty());
}

#[test]
fn columns_of_different_length_are_refused() {
    let r = CrossSectionTable::from_columns(&bits(&[1.0, 2.0]), &bits(&[1.0]));
    assert_eq!(r.err(), Some(TableError::LengthMismatch));
    let r = CrossSectionTable::from_columns(&bits(&[]), &bits(&[1.0]));
    assert_eq!(r.err(), Some(TableError::LengthMismatch));
}

#[test]
fn an_energy_that_is_no_quantity_is_refused() {
    for bad in [-1.0, -0.0, f64::INFINITY, f64::NAN] {
        let r = CrossSectionTable::from_columns(&bits(&[1.0, bad, 3.0]), &bits(&[1.0, 1.0, 1.0]));
        assert_eq!(r.err(), Some(TableError::InvalidEnergy { index: 1 }), "energy {bad:?}");
    }
}

#[test]
fn a_weight_that_is_no_quantity_is_refused() {
    for bad in [-1.0, -0.0, f64::INFINITY, f64::NAN] {
        let r = CrossSectionTable::from_columns(&bits(&[1.0, 2.0, 3.0]), &bits(&[1.0, 1.0, bad]));
        assert_eq!(r.err(), Some(TableError::InvalidWeight { index: 2 }), "weight {bad:?}");
    }
}

#[test]
fn energies_that_do_not_ascend_are_refused() {
    let r = CrossSectionTable::from_columns(&bits(&[1.0, 2.0, 2.0]), &bits(&[1.0, 1.0, 1.0]));
    assert_eq!(r.err(), Some(TableError::NotAscending { index: 2 }));
    let r = CrossSectionTable::from_columns(&bits(&[3.0, 2.0, 1.0]), &bits(&[1.0, 1.0, 1.0]));
    assert_eq!(r.err(), Some(TableError::NotAscending { index: 1 }));
}

#[test]
fn the_first_fault_is_the_one_reported() {
    let r = CrossSectionTable::from_columns(&bits(&[2.0, 1.0, -1.0]), &bits(&[1.0, -1.0, 1.0]));
    assert_eq!(r.err(), Some(TableError::InvalidWeight { index: 1 }));
    let r = CrossSectionTable::from_columns(&bits(&[2.0, -1.0]), &bits(&[-1.0, 1.0]));
    assert_eq!(r.err(), Some(TableError::InvalidWeight { index: 0 }));
    let r = CrossSectionTable::from_columns(&bits(&[f64::NAN]), &bits(&[f64::NAN]));
    assert_eq!(r.err(), Some(TableError::InvalidEnergy { index: 0 }));
}

#[test]
fn truncation_keeps_the_energies_below_the_threshold() {
    let t = table(&[10.0, 20.0, 30.0, 40.0], &[1.0, 2.0, 3.0, 4.0]);
    let cut = t.truncate(30.0f64.to_bits());
    assert_eq!(numbers(cut.energies()), vec![10.0, 20.0]);
    assert_eq!(numbers(cut.weights()), vec![1.0, 2.0]);
    let cut = t.truncate(30.000000000000004f64.to_bits());
    assert_eq!(numbers(cut.energies()), vec![10.0, 20.0, 30.0]);
    let cut = t.truncate(1000.0f64.to_bits());
    assert_eq!(cut.len(), 4);
    let cut = t.truncate(f64::INFINITY.to_bits());
    assert_eq!(cut.len(), 4);
}

#[test]
fn truncation_may_leave_nothing() {
    let t = table(&[10.0, 20.0], &[1.0, 2.0]);
    for threshold in [10.0, 5.0, 0.0, -0.0, -5.0, f64::NEG_INFINITY, f64::NAN] {
        assert_eq!(t.truncate(threshold.to_bits()).len(), 0, "threshold {threshold:?}");
    }
    let origin = table(&[0.0, 1.0], &[1.0, 2.0]);
    assert_eq!(origin.truncate((-0.0f64).to_bits()).len(), 0);
    assert_eq!(origin.truncate(5e-324f64.to_bits()).len(), 1);
}

#[test]
fn truncation_agrees_with_counting_the_numbers() {
    let energies = [0.0, 0.5, 13.5, 20.0, 29.999999999999996, 30.0, 1.0e10];
    let weights = [1.0; 7];
    let t = table(&energies, &weights);
    let thresholds =
        [-1.0, 0.0, 0.25, 0.5, 13.5, 14.0, 20.0, 29.999999999999996, 30.0, 31.0, 1.0e10, 1.0e11];
    for threshold in thresholds {
        let expected = energies.iter().filter(|&e| e < &threshold).count();
        let cut = t.truncate(threshold.to_bits());
        assert_eq!(cut.len(), expected, "threshold {threshold:?}");
        assert_eq!(numbers(cut.energies()), energies[..expected].to_vec());
        for e in numbers(cut.energies()) {
            assert!(e < threshold);
        }
    }
}

#[test]
fn the_truncated_length_never_shrinks_as_the_threshold_grows() {
    let t = table(&[1.0, 2.0, 4.0, 8.0, 16.0, 32.0], &[1.0; 6]);
    let mut last = 0;
    let mut threshold = 0.0;
    while threshold <= 40.0 {
        let k = t.truncate(f64::to_bits(threshold)).len();
        assert!(k >= last, "threshold {threshold:?}");
        last = k;
        threshold += 0.25;
    }
    assert_eq!(last, 6);
}

#[test]
fn a_duplicate_holds_the_same_samples() {
    let t = table(&[1.0, 2.0, 4.0], &[3.0, 2.0, 1.0]);
    let copy = t.duplicate();
    assert_eq!(copy.energies(), t.energies());
    assert_eq!(copy.weights(), t.weights());
}
