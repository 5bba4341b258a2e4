use imstr::error::SliceError;

#[test]
fn slice_error_traits() {
    let errors = [
        SliceError::StartOutOfBounds,
        SliceError::EndOutOfBounds,
        SliceError::EndBeforeStart,
        SliceError::StartNotAligned,
        SliceError::EndNotAligned,
    ];

    for error in errors.into_iter() {
        // implements clone
        let new = error.clone();
        // implements partial eq
        assert_eq!(error, new);
        // implements debug
        format!("{error:?}");
        // has a description
        format!("{}", new.message());
    }
}

#[test]
fn slice_error_messages() {
    assert_eq!(SliceError::StartOutOfBounds.message(), "start offset out of bounds");
    assert_eq!(SliceError::StartNotAligned.message(), "start offset in multibyte UTF-8 sequence");
    assert_eq!(SliceError::EndOutOfBounds.message(), "end offset out of bounds");
    assert_eq!(SliceError::EndNotAligned.message(), "end offset in multibyte UTF-8 sequence");
    assert_eq!(SliceError::EndBeforeStart.message(), "end offset before start offset");
}
