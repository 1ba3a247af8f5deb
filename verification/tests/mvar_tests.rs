use mtg_engine::mvar::MVar;

#[test]
fn test_put_take_single_value() {
    let mut mvar: MVar<i32> = MVar::new();
    mvar.put(42);
    assert_eq!(mvar.take(), Some(42));
}

#[test]
fn test_put_take_multiple_values() {
    let mut mvar: MVar<i32> = MVar::new();
    mvar.put(1);
    mvar.put(2);
    mvar.put(3);
    assert_eq!(mvar.take(), Some(1));
    assert_eq!(mvar.take(), Some(2));
    assert_eq!(mvar.take(), Some(3));
}

#[test]
fn test_try_take_empty() {
    let mut mvar: MVar<i32> = MVar::new();
    assert_eq!(mvar.try_take(), None);
}

#[test]
fn signal_exit_lets_take_return_none() {
    let mut mvar: MVar<i32> = MVar::default();
    assert!(!mvar.is_exit_signaled());
    mvar.put(7);
    mvar.signal_exit();
    assert!(mvar.is_exit_signaled());
    // Values already queued are still handed out, then `None`.
    assert_eq!(mvar.take(), Some(7));
    assert_eq!(mvar.take(), None);
    assert_eq!(mvar.len(), 0);
}

#[test]
fn values_come_out_in_the_order_they_went_in() {
    let mut mvar: MVar<u32> = MVar::new();
    for i in 0..10 {
        mvar.put(i);
    }
    let mut out = Vec::new();
    while let Some(v) = mvar.try_take() {
        out.push(v);
    }
    assert_eq!(out, (0..10).collect::<Vec<_>>());
}
