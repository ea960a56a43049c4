use eokit::batch::{check_boundaries, copy_segment, place, worker_count, BatchPlan, Segment};
use eokit::error::{BatchError, ErrorKind};

fn bounds_error(segment: usize) -> BatchError {
    BatchError { kind: ErrorKind::BoundsError, segment }
}

#[test]
fn boundaries_are_checked() {
    assert_eq!(check_boundaries(&vec![0, 5, 10], 15), Ok(()));
    assert_eq!(check_boundaries(&vec![3], 4), Ok(()));
    assert_eq!(check_boundaries(&vec![], 4), Ok(()));
    // the buffer is empty
    assert_eq!(check_boundaries(&vec![0], 0), Err(bounds_error(0)));
    assert_eq!(check_boundaries(&vec![], 0), Err(bounds_error(0)));
    // a boundary past the end
    assert_eq!(check_boundaries(&vec![0, 5, 15], 15), Err(bounds_error(2)));
    // boundaries that do not increase
    assert_eq!(check_boundaries(&vec![0, 5, 5, 20], 15), Err(bounds_error(2)));
    assert_eq!(check_boundaries(&vec![4, 2], 15), Err(bounds_error(1)));
}

#[test]
fn segments_follow_the_boundaries() {
    let plan = BatchPlan::new(&vec![0, 5, 12], 20, 0).unwrap();
    assert_eq!(plan.segment_count(), 3);
    assert_eq!(plan.segment(0), Segment { start: 0, end: 5 });
    assert_eq!(plan.segment(1), Segment { start: 5, end: 12 });
    assert_eq!(plan.segment(2), Segment { start: 12, end: 20 });
    assert_eq!(plan.output_len(), 20);
    for i in 0..3 {
        assert_eq!(plan.output_offset(i), plan.segment(i).start);
        assert_eq!(plan.result_len(i), plan.segment(i).end - plan.segment(i).start);
    }
}

#[test]
fn forecast_moves_the_offsets() {
    let boundaries = vec![0, 5, 12];
    let forecast = 3;
    let plan = BatchPlan::new(&boundaries, 20, forecast).unwrap();
    for i in 0..3 {
        assert_eq!(plan.output_offset(i), boundaries[i] + i * forecast);
    }
    assert_eq!(plan.output_offset(0), 0);
    assert_eq!(plan.output_offset(1), 8);
    assert_eq!(plan.output_offset(2), 18);
    assert_eq!(plan.result_len(0), 8);
    assert_eq!(plan.result_len(1), 10);
    assert_eq!(plan.result_len(2), 11);
    assert_eq!(plan.output_len(), 29);
}

#[test]
fn plan_rejects_malformed_boundaries() {
    assert_eq!(BatchPlan::new(&vec![0, 7], 7, 0).err(), Some(bounds_error(1)));
    assert_eq!(BatchPlan::new(&vec![2, 1], 7, 0).err(), Some(bounds_error(1)));
    assert_eq!(BatchPlan::new(&vec![0], 0, 0).err(), Some(bounds_error(0)));
}

#[test]
fn plan_rejects_an_output_too_long_to_count() {
    let r = BatchPlan::new(&vec![0, 1], 2, usize::MAX);
    assert_eq!(
        r.err(),
        Some(BatchError { kind: ErrorKind::InvalidParameters, segment: 0 })
    );
}

#[test]
fn copy_and_place() {
    let buffer: Vec<i64> = vec![10, 11, 12, 13, 14];
    assert_eq!(copy_segment(&buffer, Segment { start: 1, end: 4 }), vec![11, 12, 13]);
    assert_eq!(copy_segment(&buffer, Segment { start: 2, end: 2 }), Vec::<i64>::new());
    let mut output: Vec<i64> = vec![0; 6];
    place(&mut output, 2, &vec![7, 8, 9]);
    assert_eq!(output, vec![0, 0, 7, 8, 9, 0]);
}

#[test]
fn collect_writes_every_region() {
    let plan = BatchPlan::new(&vec![1, 3], 6, 2).unwrap();
    // segment 0 is 1..3, segment 1 is 3..6; results are 2 longer
    let results: Vec<Result<Vec<i64>, ErrorKind>> =
        vec![Ok(vec![1, 2, 3, 4]), Ok(vec![5, 6, 7, 8, 9])];
    let mut output: Vec<i64> = vec![-1; 12];
    assert_eq!(plan.output_len(), 10);
    assert_eq!(plan.collect(&results, &mut output), Ok(()));
    assert_eq!(output, vec![-1, 1, 2, 3, 4, 5, 6, 7, 8, 9, -1, -1]);
}

#[test]
fn collect_is_all_or_nothing() {
    let plan = BatchPlan::new(&vec![0, 2], 4, 0).unwrap();
    let mut output: Vec<i64> = vec![-1; 4];
    for kind in [
        ErrorKind::InvalidParameters,
        ErrorKind::SingularMatrix,
        ErrorKind::SingularSystem,
        ErrorKind::ModelFitError,
        ErrorKind::PredictError,
        ErrorKind::BoundsError,
    ] {
        let results: Vec<Result<Vec<i64>, ErrorKind>> = vec![Ok(vec![1, 2]), Err(kind)];
        assert_eq!(
            plan.collect(&results, &mut output),
            Err(BatchError { kind, segment: 1 })
        );
        assert_eq!(output, vec![-1; 4]);
    }
    let both: Vec<Result<Vec<i64>, ErrorKind>> =
        vec![Err(ErrorKind::SingularSystem), Err(ErrorKind::ModelFitError)];
    assert_eq!(
        plan.collect(&both, &mut output),
        Err(BatchError { kind: ErrorKind::SingularSystem, segment: 0 })
    );
    assert_eq!(output, vec![-1; 4]);
}

#[test]
fn collect_rejects_a_result_of_the_wrong_length() {
    let plan = BatchPlan::new(&vec![0, 2], 4, 0).unwrap();
    let mut output: Vec<i64> = vec![-1; 4];
    let results: Vec<Result<Vec<i64>, ErrorKind>> = vec![Ok(vec![1, 2]), Ok(vec![3, 4, 5])];
    assert_eq!(plan.collect(&results, &mut output), Err(bounds_error(1)));
    assert_eq!(output, vec![-1; 4]);
}

#[test]
fn collect_of_no_segments_changes_nothing() {
    let plan = BatchPlan::new(&vec![], 4, 1).unwrap();
    let results: Vec<Result<Vec<i64>, ErrorKind>> = Vec::new();
    let mut output: Vec<i64> = vec![5; 4];
    assert_eq!(plan.collect(&results, &mut output), Ok(()));
    assert_eq!(output, vec![5; 4]);
}

#[test]
fn worker_hints() {
    assert_eq!(worker_count(-1), None);
    assert_eq!(worker_count(i64::MIN), None);
    assert_eq!(worker_count(0), Some(0));
    assert_eq!(worker_count(8), Some(8));
}
