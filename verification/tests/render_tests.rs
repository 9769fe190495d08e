use hexdump::cli::Args;
use hexdump::render::dump_lines;
use hexdump::render::render_row;

fn args(cols: usize, groupsize: usize, endian: bool) -> Args {
    Args {
        filename: None,
        cols,
        groupsize,
        len: 0,
        seek: None,
        endian,
        color: false,
    }
}

#[test]
fn row_for_abcde() {
    let a = args(16, 2, false);
    let row = render_row(0, &[0x41, 0x42, 0x43, 0x44, 0x45], &a);
    let hex = format!("{:<39}", "4142 4344 45");
    assert_eq!(row, format!("00000000:  {hex}  ABCDE"));
}

#[test]
fn row_for_abcde_little_endian() {
    let a = args(16, 2, true);
    let row = render_row(0, &[0x41, 0x42, 0x43, 0x44, 0x45], &a);
    let hex = format!("{:<39}", "4241 4443 45");
    assert_eq!(row, format!("00000000:  {hex}  ABCDE"));
}

#[test]
fn row_address_is_zero_padded_lowercase_hex() {
    let a = args(4, 2, false);
    let row = render_row(0xab3, &[0xff], &a);
    assert!(row.starts_with("00000ab3:  "));
}

#[test]
fn row_address_wider_than_eight_digits_keeps_all_digits() {
    let a = args(4, 2, false);
    let row = render_row(0x1_0000_0000, &[0xff], &a);
    assert!(row.starts_with("100000000:  "));
}

#[test]
fn twenty_zero_bytes_make_two_aligned_rows() {
    let a = args(16, 2, false);
    let buffer = [0u8; 20];
    let lines = dump_lines(&buffer, &a, 0);
    assert_eq!(lines.len(), 2);
    let full = "0000 0000 0000 0000 0000 0000 0000 0000";
    assert_eq!(full.len(), 39);
    assert_eq!(lines[0], format!("00000000:  {full}  ................"));
    let short = format!("{:<39}", "0000 0000");
    assert_eq!(lines[1], format!("00000010:  {short}  ...."));
}

#[test]
fn addresses_advance_by_cols_from_seek_offset() {
    let a = args(4, 2, false);
    let buffer = [0x41u8; 9];
    let lines = dump_lines(&buffer, &a, 0x20);
    assert_eq!(lines.len(), 3);
    assert!(lines[0].starts_with("00000020:  "));
    assert!(lines[1].starts_with("00000024:  "));
    assert!(lines[2].starts_with("00000028:  "));
    assert_eq!(lines[2], format!("00000028:  {:<9}  A", "41"));
}

#[test]
fn empty_buffer_renders_no_rows() {
    let a = args(16, 2, false);
    let lines = dump_lines(&[], &a, 0);
    assert!(lines.is_empty());
}
