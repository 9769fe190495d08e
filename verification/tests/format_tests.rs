use hexdump::cli::Args;
use hexdump::format::format_line;
use hexdump::format::get_string;

fn args(cols: usize, groupsize: usize, endian: bool) -> Args {
    Args {
        filename: None,
        cols,
        groupsize,
        len: 0,
        seek: None,
        endian,
        color: false,
    }
}

#[test]
fn hex_field_abcde_big_endian() {
    let a = args(16, 2, false);
    let line = format_line(&[0x41, 0x42, 0x43, 0x44, 0x45], &a);
    // 16 * 2 + (16 / 2 - 1) = 39 characters.
    assert_eq!(line.len(), 39);
    assert_eq!(line, format!("{:<39}", "4142 4344 45"));
}

#[test]
fn hex_field_abcde_little_endian() {
    let a = args(16, 2, true);
    let line = format_line(&[0x41, 0x42, 0x43, 0x44, 0x45], &a);
    // Each full 2-byte group is reversed; the trailing 1-byte group is not.
    assert_eq!(line, format!("{:<39}", "4241 4443 45"));
}

#[test]
fn hex_field_full_row_needs_no_padding() {
    let a = args(4, 2, false);
    let line = format_line(&[0xde, 0xad, 0xbe, 0xef], &a);
    assert_eq!(line, "dead beef");
}

#[test]
fn hex_field_empty_chunk_is_all_padding() {
    let a = args(16, 2, false);
    let line = format_line(&[], &a);
    assert_eq!(line, " ".repeat(39));
}

#[test]
fn hex_field_group_of_four_little_endian() {
    let a = args(8, 4, true);
    let line = format_line(&[0x01, 0x02, 0x03, 0x04, 0x05, 0x06, 0x07, 0x08], &a);
    assert_eq!(line, "04030201 08070605");
}

#[test]
fn hex_field_width_constant_across_chunk_lengths() {
    let a = args(16, 2, false);
    for n in 0..=16usize {
        let chunk: Vec<u8> = vec![0xaa; n];
        assert_eq!(format_line(&chunk, &a).len(), 39, "chunk length {n}");
    }
}

#[test]
fn hex_field_width_formula_other_geometry() {
    let a = args(8, 4, false);
    // 8 * 2 + (8 / 4 - 1) = 17 characters.
    assert_eq!(format_line(&[0xff], &a).len(), 17);
    assert_eq!(format_line(&[0xff], &a), format!("{:<17}", "ff"));
}

#[test]
fn hex_digits_are_lowercase() {
    let a = args(2, 2, false);
    assert_eq!(format_line(&[0xab, 0xcd], &a), "abcd");
}

#[test]
fn ascii_one_char_per_byte() {
    for n in 0..=16usize {
        let chunk: Vec<u8> = (0..n as u8).collect();
        assert_eq!(get_string(&chunk).len(), n);
    }
}

#[test]
fn ascii_printable_range() {
    assert_eq!(get_string(&[0x41, 0x42, 0x43, 0x44, 0x45]), "ABCDE");
    assert_eq!(get_string(&[33, 65, 122, 126]), "!Az~");
}

#[test]
fn ascii_space_renders_as_dot() {
    // Byte 32 (space) is deliberately outside the printable test.
    assert_eq!(get_string(&[32]), ".");
    assert_eq!(get_string(&[b'a', 32, b'b']), "a.b");
}

#[test]
fn ascii_unprintable_bytes_render_as_dot() {
    assert_eq!(get_string(&[0, 31, 127, 200, 255]), ".....");
    assert_eq!(get_string(&[10, 13, 9]), "...");
}

#[test]
fn ascii_boundary_values() {
    assert_eq!(get_string(&[33]), "!");
    assert_eq!(get_string(&[126]), "~");
    assert_eq!(get_string(&[127]), ".");
}
