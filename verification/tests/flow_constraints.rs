use distaff::field;
use distaff::flow_ops;
use distaff::trace_state::TraceState;

#[test]
fn op_begin() {
    // correct transition, context depth = 1
    let state1 = TraceState::from_vec(1, 0, 1, &vec![3, 5, 7, 9, 1, 0, 0, 1, 1, 1, 1, 1, 1, 1, 0, 11]);
    let state2 = TraceState::from_vec(1, 0, 1, &vec![0, 0, 0, 0, 1, 1, 1, 1, 1, 1, 1, 1, 1, 1, 3, 11]);

    let mut evaluations: Vec<u128> = vec![0; 5];
    flow_ops::enforce_begin(&mut evaluations, &state1, &state2, 1);
    assert_eq!(vec![0, 0, 0, 0, 0], evaluations);

    // correct transition, context depth = 2
    let state1 = TraceState::from_vec(2, 0, 1, &vec![3, 5, 7, 9, 1, 0, 0, 1, 1, 1, 1, 1, 1, 1, 2, 0, 11]);
    let state2 = TraceState::from_vec(2, 0, 1, &vec![0, 0, 0, 0, 1, 1, 1, 1, 1, 1, 1, 1, 1, 1, 3, 2, 11]);

    let mut evaluations: Vec<u128> = vec![0; 6];
    flow_ops::enforce_begin(&mut evaluations, &state1, &state2, 1);
    assert_eq!(vec![0, 0, 0, 0, 0, 0], evaluations);

    // incorrect transition, context depth = 1
    let state1 = TraceState::from_vec(1, 0, 1, &vec![3, 5, 7, 9, 1, 0, 0, 1, 1, 1, 1, 1, 1, 1, 0, 11]);
    let state2 = TraceState::from_vec(1, 0, 1, &vec![1, 2, 3, 4, 1, 1, 1, 1, 1, 1, 1, 1, 1, 1, 5, 11]);

    let mut evaluations: Vec<u128> = vec![0; 5];
    flow_ops::enforce_begin(&mut evaluations, &state1, &state2, 1);
    assert_eq!(vec![1, 2, 3, 4, field::sub(3, 5)], evaluations);

    // incorrect transition, context depth = 1
    let state1 = TraceState::from_vec(2, 0, 1, &vec![3, 5, 7, 9, 1, 0, 0, 1, 1, 1, 1, 1, 1, 1, 2, 0, 11]);
    let state2 = TraceState::from_vec(2, 0, 1, &vec![1, 2, 3, 4, 1, 1, 1, 1, 1, 1, 1, 1, 1, 1, 5, 6, 11]);

    let mut evaluations: Vec<u128> = vec![0; 6];
    flow_ops::enforce_begin(&mut evaluations, &state1, &state2, 1);
    assert_eq!(vec![1, 2, 3, 4, field::sub(3, 5), field::sub(2, 6)], evaluations);
}

#[test]
fn op_tend() {
    // correct transition, context depth = 1
    let state1 = TraceState::from_vec(1, 0, 1, &vec![3, 5, 7, 9, 1, 0, 0, 1, 1, 1, 1, 1, 1, 1, 8, 11]);
    let state2 = TraceState::from_vec(1, 0, 1, &vec![8, 3, 4, 0, 1, 1, 1, 1, 1, 1, 1, 1, 1, 1, 0, 11]);

    let mut evaluations: Vec<u128> = vec![0; 5];
    flow_ops::enforce_tend(&mut evaluations, &state1, &state2, 1);
    assert_eq!(vec![0, 0, 0, 0, 0], evaluations);

    // correct transition, context depth = 2
    let state1 = TraceState::from_vec(2, 0, 1, &vec![3, 5, 7, 9, 1, 0, 0, 1, 1, 1, 1, 1, 1, 1, 8, 2, 11]);
    let state2 = TraceState::from_vec(2, 0, 1, &vec![8, 3, 6, 0, 1, 1, 1, 1, 1, 1, 1, 1, 1, 1, 2, 0, 11]);

    let mut evaluations: Vec<u128> = vec![0; 6];
    flow_ops::enforce_tend(&mut evaluations, &state1, &state2, 1);
    assert_eq!(vec![0, 0, 0, 0, 0, 0], evaluations);

    // incorrect transition, context depth = 1
    let state1 = TraceState::from_vec(1, 0, 1, &vec![3, 5, 7, 9, 1, 0, 0, 1, 1, 1, 1, 1, 1, 1, 8, 11]);
    let state2 = TraceState::from_vec(1, 0, 1, &vec![1, 2, 3, 4, 1, 1, 1, 1, 1, 1, 1, 1, 1, 1, 8, 11]);

    let mut evaluations: Vec<u128> = vec![0; 5];
    flow_ops::enforce_tend(&mut evaluations, &state1, &state2, 1);
    assert_eq!(vec![7, 1, 0, 4, 8], evaluations);

    // incorrect transition, context depth = 1
    let state1 = TraceState::from_vec(2, 0, 1, &vec![3, 5, 7, 9, 1, 0, 0, 1, 1, 1, 1, 1, 1, 1, 4, 6, 11]);
    let state2 = TraceState::from_vec(2, 0, 1, &vec![1, 2, 3, 4, 1, 1, 1, 1, 1, 1, 1, 1, 1, 1, 5, 6, 11]);

    let mut evaluations: Vec<u128> = vec![0; 6];
    flow_ops::enforce_tend(&mut evaluations, &state1, &state2, 1);
    assert_eq!(vec![3, 1, 0, 4, 1, 6], evaluations);
}

#[test]
fn op_fend() {
    // correct transition, context depth = 1
    let state1 = TraceState::from_vec(1, 0, 1, &vec![3, 5, 7, 9, 1, 0, 0, 1, 1, 1, 1, 1, 1, 1, 8, 11]);
    let state2 = TraceState::from_vec(1, 0, 1, &vec![8, 4, 3, 0, 1, 1, 1, 1, 1, 1, 1, 1, 1, 1, 0, 11]);

    let mut evaluations: Vec<u128> = vec![0; 5];
    flow_ops::enforce_fend(&mut evaluations, &state1, &state2, 1);
    assert_eq!(vec![0, 0, 0, 0, 0], evaluations);

    // correct transition, context depth = 2
    let state1 = TraceState::from_vec(2, 0, 1, &vec![3, 5, 7, 9, 1, 0, 0, 1, 1, 1, 1, 1, 1, 1, 8, 2, 11]);
    let state2 = TraceState::from_vec(2, 0, 1, &vec![8, 6, 3, 0, 1, 1, 1, 1, 1, 1, 1, 1, 1, 1, 2, 0, 11]);

    let mut evaluations: Vec<u128> = vec![0; 6];
    flow_ops::enforce_fend(&mut evaluations, &state1, &state2, 1);
    assert_eq!(vec![0, 0, 0, 0, 0, 0], evaluations);

    // incorrect transition, context depth = 1
    let state1 = TraceState::from_vec(1, 0, 1, &vec![3, 5, 7, 9, 1, 0, 0, 1, 1, 1, 1, 1, 1, 1, 8, 11]);
    let state2 = TraceState::from_vec(1, 0, 1, &vec![1, 3, 2, 4, 1, 1, 1, 1, 1, 1, 1, 1, 1, 1, 8, 11]);

    let mut evaluations: Vec<u128> = vec![0; 5];
    flow_ops::enforce_fend(&mut evaluations, &state1, &state2, 1);
    assert_eq!(vec![7, 0, 1, 4, 8], evaluations);

    // incorrect transition, context depth = 1
    let state1 = TraceState::from_vec(2, 0, 1, &vec![3, 5, 7, 9, 1, 0, 0, 1, 1, 1, 1, 1, 1, 1, 4, 6, 11]);
    let state2 = TraceState::from_vec(2, 0, 1, &vec![1, 6, 2, 4, 1, 1, 1, 1, 1, 1, 1, 1, 1, 1, 5, 6, 11]);

    let mut evaluations: Vec<u128> = vec![0; 6];
    flow_ops::enforce_fend(&mut evaluations, &state1, &state2, 1);
    assert_eq!(vec![3, 0, 1, 4, 1, 6], evaluations);
}
