use brotten::grid::{plan, GridIndex, GridPlan, PlanError, Strip};
use brotten::host::plan_for_host;

fn merged(p: &GridPlan) -> Vec<GridIndex> {
    let mut out = Vec::new();
    for c in 0..p.strip_count() {
        out.extend(p.strip_points(c));
    }
    out
}

fn single_worker_order(h: u64, v: u64) -> Vec<GridIndex> {
    let mut out = Vec::new();
    for col in 0..=h {
        for row in 0..=v {
            out.push((col, row));
        }
    }
    out
}

#[test]
fn zero_horizontal_divisions_rejected() {
    assert_eq!(plan(0, 3, 2).err(), Some(PlanError::ZeroDivisions));
}

#[test]
fn zero_vertical_divisions_rejected() {
    assert_eq!(plan(3, 0, 2).err(), Some(PlanError::ZeroDivisions));
}

#[test]
fn zero_workers_rejected() {
    assert_eq!(plan(3, 3, 0).err(), Some(PlanError::ZeroWorkers));
}

#[test]
fn oversized_grid_rejected() {
    assert_eq!(plan(u64::MAX, 1, 1).err(), Some(PlanError::TooLarge));
    assert_eq!(plan(u64::MAX - 1, u64::MAX - 1, 4).err(), Some(PlanError::TooLarge));
    assert_eq!(plan(1u64 << 32, 1u64 << 32, 4).err(), Some(PlanError::TooLarge));
}

#[test]
fn three_by_three_grid_single_worker() {
    let p = plan(2, 2, 1).unwrap();
    assert_eq!(p.strip_count(), 1);
    assert_eq!(p.strips, vec![Strip { first_col: 0, n_cols: 3 }]);
    let pts = p.strip_points(0);
    assert_eq!(pts.len(), 9);
    assert_eq!(pts[0], (0, 0));
    assert_eq!(pts[8], (2, 2));
    assert_eq!(
        pts,
        vec![(0, 0), (0, 1), (0, 2), (1, 0), (1, 1), (1, 2), (2, 0), (2, 1), (2, 2)]
    );
}

#[test]
fn remainder_columns_go_to_last_strip() {
    // 6 columns over 4 workers: one column each, the last strip takes three.
    let p = plan(5, 3, 4).unwrap();
    assert_eq!(
        p.strips,
        vec![
            Strip { first_col: 0, n_cols: 1 },
            Strip { first_col: 1, n_cols: 1 },
            Strip { first_col: 2, n_cols: 1 },
            Strip { first_col: 3, n_cols: 3 },
        ]
    );
    assert_eq!(p.strip_points(1), vec![(1, 0), (1, 1), (1, 2), (1, 3)]);
}

#[test]
fn even_split_has_equal_strips() {
    let p = plan(7, 1, 4).unwrap();
    assert_eq!(
        p.strips,
        vec![
            Strip { first_col: 0, n_cols: 2 },
            Strip { first_col: 2, n_cols: 2 },
            Strip { first_col: 4, n_cols: 2 },
            Strip { first_col: 6, n_cols: 2 },
        ]
    );
}

#[test]
fn more_workers_than_divisions_rejected() {
    assert_eq!(plan(2, 2, 3).err(), Some(PlanError::TooManyWorkers));
    assert_eq!(plan(2, 2, 8).err(), Some(PlanError::TooManyWorkers));
    assert_eq!(plan(u64::MAX - 1, 1, 1).err(), Some(PlanError::TooLarge));
}

#[test]
fn as_many_workers_as_divisions_accepted() {
    let p = plan(2, 2, 2).unwrap();
    assert_eq!(p.strip_count(), 2);
    assert_eq!(
        p.strips,
        vec![Strip { first_col: 0, n_cols: 1 }, Strip { first_col: 1, n_cols: 2 }]
    );
}

#[test]
fn worker_count_does_not_change_output() {
    for &(h, v) in &[(1u64, 1u64), (2, 2), (5, 3), (12, 7), (17, 4)] {
        let base = merged(&plan(h, v, 1).unwrap());
        assert_eq!(base, single_worker_order(h, v));
        for w in 2..=(h as usize) {
            assert_eq!(merged(&plan(h, v, w).unwrap()), base, "h={h} v={v} w={w}");
        }
    }
}

#[test]
fn output_length_is_grid_size() {
    for &(h, v, w) in &[(1u64, 1u64, 1usize), (3, 5, 2), (10, 10, 3), (9, 1, 7)] {
        let m = merged(&plan(h, v, w).unwrap());
        assert_eq!(m.len() as u64, (h + 1) * (v + 1));
    }
}

#[test]
fn merged_output_runs_from_corner_to_corner() {
    let m = merged(&plan(6, 4, 3).unwrap());
    assert_eq!(m[0], (0, 0));
    assert_eq!(*m.last().unwrap(), (6, 4));
}

#[test]
fn host_plan_covers_grid() {
    let p = plan_for_host(4095, 4).unwrap();
    assert!(p.workers >= 1);
    assert_eq!(p.strip_count(), p.workers);
    assert_eq!(merged(&p), single_worker_order(4095, 4));
}

#[test]
fn host_plan_rejects_zero_divisions() {
    assert_eq!(plan_for_host(0, 4).err(), Some(PlanError::ZeroDivisions));
    assert_eq!(plan_for_host(4, 0).err(), Some(PlanError::ZeroDivisions));
}

#[test]
fn host_plan_refuses_more_cpus_than_divisions() {
    match plan_for_host(1, 1) {
        Ok(p) => assert_eq!(p.workers, 1),
        Err(e) => assert_eq!(e, PlanError::TooManyWorkers),
    }
}
