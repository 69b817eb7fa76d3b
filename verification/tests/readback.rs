use imaging::readback::{
    checked_size_i32, checked_size_u16, copy_padded_rows, padded_bytes_per_row,
    readback_error_message, ReadbackError,
};

#[test]
fn rows_are_padded_to_256_bytes() {
    assert_eq!(padded_bytes_per_row(0), 0);
    assert_eq!(padded_bytes_per_row(1), 256);
    assert_eq!(padded_bytes_per_row(64), 256);
    assert_eq!(padded_bytes_per_row(65), 512);
}

#[test]
fn padded_rows_are_copied_tightly() {
    let mapped = [1, 2, 3, 4, 0, 0, 0, 0, 5, 6, 7, 8, 0, 0, 0, 0];
    let mut out = [9u8; 8];
    copy_padded_rows(&mapped, 8, &mut out, 4);
    assert_eq!(out, [1, 2, 3, 4, 5, 6, 7, 8]);

    // Only as many rows as both buffers hold are copied.
    let mut short = [9u8; 6];
    copy_padded_rows(&mapped, 8, &mut short, 4);
    assert_eq!(short, [1, 2, 3, 4, 9, 9]);
}

#[test]
fn readback_errors_have_messages() {
    assert_eq!(readback_error_message(ReadbackError::DevicePoll), "device poll failed");
    assert_eq!(
        readback_error_message(ReadbackError::CallbackDropped),
        "map_async callback dropped"
    );
    assert_eq!(readback_error_message(ReadbackError::BufferMap), "buffer map failed");
}

#[test]
fn render_sizes_are_checked() {
    assert_eq!(checked_size_i32(16, 9), Ok((16, 9)));
    assert_eq!(checked_size_i32(1 << 31, 1), Err("render width too large"));
    assert_eq!(checked_size_i32(1, 1 << 31), Err("render height too large"));
    assert_eq!(checked_size_u16(65535, 2), Ok((65535, 2)));
    assert_eq!(checked_size_u16(65536, 2), Err("render width too large"));
    assert_eq!(checked_size_u16(2, 65536), Err("render height too large"));
}
