use lunabot_core::behavior::{status, Behavior, IfElse, Invert, Select, Sequence, Status, WhileLoop};

#[test]
fn test_sum() {
    let mut sum = 0usize;
    WhileLoop {
        condition: |sum: &usize| (*sum, status(*sum < 10)),
        body: (|sum: &usize| (*sum + 1, Ok(())),),
    }
    .run(&mut sum)
    .unwrap();
    assert_eq!(sum, 10);
}

#[test]
fn status_maps_flag() {
    assert_eq!(status(true), Ok(()));
    assert_eq!(status(false), Err(()));
}

#[test]
fn if_else_picks_branch() {
    let mut n = 5u32;
    let mut b = IfElse {
        condition: |n: &u32| (*n, status(*n > 3)),
        if_true: |n: &u32| (*n * 2, Ok(())),
        if_false: |n: &u32| (*n + 100, Err(())),
    };
    assert_eq!(b.run(&mut n), Ok(()));
    assert_eq!(n, 10);
    let mut m = 1u32;
    assert_eq!(b.run(&mut m), Err(()));
    assert_eq!(m, 101);
}

#[test]
fn invert_swaps_status() {
    let mut n = 0u8;
    let mut ok: Invert<Status> = Invert(Ok(()));
    let mut err: Invert<Status> = Invert(Err(()));
    assert_eq!(ok.run(&mut n), Err(()));
    assert_eq!(err.run(&mut n), Ok(()));
}

#[test]
fn sequence_stops_at_first_failure() {
    let mut n = 0u32;
    let mut s = Sequence {
        body: (
            |n: &u32| (*n + 1, Ok(())),
            |n: &u32| (*n + 10, Err(())),
            |n: &u32| (*n + 100, Ok(())),
        ),
    };
    assert_eq!(s.run(&mut n), Err(()));
    assert_eq!(n, 11);
}

#[test]
fn sequence_succeeds_when_all_succeed() {
    let mut n = 0u32;
    let mut s = Sequence { body: (|n: &u32| (*n + 1, Ok(())), |n: &u32| (*n + 10, Ok(()))) };
    assert_eq!(s.run(&mut n), Ok(()));
    assert_eq!(n, 11);
}

#[test]
fn select_stops_at_first_success() {
    let mut n = 0u32;
    let mut s = Select {
        body: (
            |n: &u32| (*n + 1, Err(())),
            |n: &u32| (*n + 10, Ok(())),
            |n: &u32| (*n + 100, Ok(())),
        ),
    };
    assert_eq!(s.run(&mut n), Ok(()));
    assert_eq!(n, 11);
}

#[test]
fn select_fails_when_all_fail() {
    let mut n = 0u32;
    let mut s = Select { body: (|n: &u32| (*n + 1, Err(())), |n: &u32| (*n + 10, Err(()))) };
    assert_eq!(s.run(&mut n), Err(()));
    assert_eq!(n, 11);
}

#[test]
fn while_loop_fails_when_body_fails() {
    let mut n = 0u32;
    let mut w = WhileLoop {
        condition: |n: &u32| (*n, Ok(())),
        body: (|n: &u32| (*n + 1, status(*n < 3)),),
    };
    assert_eq!(w.run(&mut n), Err(()));
    assert_eq!(n, 4);
}
