use hexdump::input::confirm_read_len;
use hexdump::input::plan_file_read;
use hexdump::input::select_from_buffer;
use hexdump::input::SelectError;

#[test]
fn file_plan_whole_file() {
    assert_eq!(plan_file_read(100, 0, 0), Ok(100));
}

#[test]
fn file_plan_from_seek_to_end() {
    assert_eq!(plan_file_read(100, 40, 0), Ok(60));
}

#[test]
fn file_plan_length_clamped_to_available() {
    assert_eq!(plan_file_read(100, 90, 50), Ok(10));
    assert_eq!(plan_file_read(100, 90, 5), Ok(5));
}

#[test]
fn file_plan_seek_at_end_reads_nothing() {
    assert_eq!(plan_file_read(100, 100, 0), Ok(0));
}

#[test]
fn file_plan_seek_beyond_end_fails() {
    assert_eq!(plan_file_read(100, 101, 0), Err(SelectError::SeekBeyondEnd));
    assert_eq!(plan_file_read(0, 1, 7), Err(SelectError::SeekBeyondEnd));
}

#[test]
fn confirm_exact_read() {
    assert_eq!(confirm_read_len(10, 10), Ok(()));
}

#[test]
fn confirm_short_read_fails() {
    assert_eq!(confirm_read_len(9, 10), Err(SelectError::ShortRead));
}

#[test]
fn buffer_select_entire_source() {
    let buf = [1u8, 2, 3, 4, 5];
    assert_eq!(select_from_buffer(&buf, 0, 0), vec![1, 2, 3, 4, 5]);
}

#[test]
fn buffer_select_from_seek_to_end() {
    let buf = [1u8, 2, 3, 4, 5];
    assert_eq!(select_from_buffer(&buf, 2, 0), vec![3, 4, 5]);
}

#[test]
fn buffer_select_length_clamped() {
    let buf = [1u8, 2, 3, 4, 5];
    assert_eq!(select_from_buffer(&buf, 1, 2), vec![2, 3]);
    assert_eq!(select_from_buffer(&buf, 3, 10), vec![4, 5]);
}

#[test]
fn buffer_select_seek_at_or_past_end_is_empty_not_error() {
    let buf = [1u8, 2, 3, 4, 5];
    assert_eq!(select_from_buffer(&buf, 5, 0), Vec::<u8>::new());
    assert_eq!(select_from_buffer(&buf, 99, 3), Vec::<u8>::new());
}

#[test]
fn buffer_select_empty_source() {
    assert_eq!(select_from_buffer(&[], 0, 0), Vec::<u8>::new());
}
