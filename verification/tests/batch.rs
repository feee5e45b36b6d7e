use nexus_store::batch::{BatchSize, BatchSizeError, DEFAULT_BATCH, MAX_BATCH};

#[test]
fn rejects_zero() {
    let err = BatchSize::new(0).unwrap_err();
    assert_eq!(
        err,
        BatchSizeError {
            requested: 0,
            max: MAX_BATCH
        }
    );
}

#[test]
fn rejects_above_max() {
    let err = BatchSize::new(MAX_BATCH + 1).unwrap_err();
    assert_eq!(err.requested, MAX_BATCH + 1);
    assert_eq!(err.max, MAX_BATCH);
}

#[test]
fn accepts_lower_and_upper_bound() {
    assert_eq!(BatchSize::new(1).expect("1 is valid").get(), 1);
    assert_eq!(
        BatchSize::new(MAX_BATCH).expect("MAX is valid").get(),
        MAX_BATCH
    );
}

#[test]
fn default_is_default_batch() {
    assert_eq!(BatchSize::default_size().get(), DEFAULT_BATCH);
    assert_eq!(BatchSize::default().get(), DEFAULT_BATCH);
}

#[test]
fn batch_accepts_every_value_in_range_and_keeps_it() {
    for n in [1usize, 2, 255, 256, 257, 4095, 4096] {
        assert_eq!(BatchSize::new(n).expect("in range").get(), n);
    }
    for n in [0usize, 4097, usize::MAX] {
        assert_eq!(
            BatchSize::new(n),
            Err(BatchSizeError {
                requested: n,
                max: MAX_BATCH
            })
        );
    }
}
