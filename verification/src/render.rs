//! Row assembly: the address column and the complete text of each output
//! row, and the driver computation that turns a selected byte buffer into
//! the full list of rows.

use vstd::prelude::*;
use vstd::string::StringExecFns;

use crate::cli::Args;
use crate::format::ascii_of;
use crate::format::format_line;
use crate::format::get_string;
use crate::format::hex_digit;
use crate::format::hex_field_width;
use crate::format::hex_of_chunk;
use crate::format::pad_to;

verus! {

/// The lowercase hex digits of `v`, zero-padded on the left to at least
/// `min_digits` digits (more digits appear when `v` needs them).
pub open spec fn hex_u64_pad(v: u64, min_digits: nat) -> Seq<char>
    decreases v, min_digits,
{
    if min_digits <= 1 && v < 16 {
        seq![hex_digit(v as u8)]
    } else {
        hex_u64_pad(
            v / 16,
            if min_digits == 0 {
                0nat
            } else {
                (min_digits - 1) as nat
            },
        ) + seq![hex_digit((v % 16) as u8)]
    }
}

/// The address column of a row: the address as at least eight lowercase hex
/// digits, zero-padded.
pub open spec fn address_text(address: u64) -> Seq<char> {
    hex_u64_pad(address, 8)
}

/// The complete text of one output row:
/// `<8-digit hex address>:  <padded hex field>  <ascii sidebar>`.
pub open spec fn row_text(
    address: u64,
    chunk: Seq<u8>,
    cols: int,
    groupsize: int,
    endian: bool,
) -> Seq<char> {
    address_text(address) + seq![':', ' ', ' '] + pad_to(
        hex_of_chunk(chunk, groupsize, endian),
        hex_field_width(cols, groupsize),
    ) + seq![' ', ' '] + ascii_of(chunk)
}

/// The bytes of row `r`: the `r`-th `cols`-sized piece of the buffer; the
/// final row may be shorter.
pub open spec fn row_chunk(buffer: Seq<u8>, cols: int, r: int) -> Seq<u8>
    recommends
        cols >= 1,
        0 <= r,
        r * cols <= buffer.len(),
{
    if r * cols + cols <= buffer.len() {
        buffer.subrange(r * cols, r * cols + cols)
    } else {
        buffer.subrange(r * cols, buffer.len() as int)
    }
}

/// How many rows a buffer of `len` bytes fills at `cols` bytes per row: the
/// rounded-up quotient.
pub open spec fn row_count(len: int, cols: int) -> int
    recommends
        cols >= 1,
{
    if cols < 1 {
        0
    } else {
        (len + cols - 1) / cols
    }
}

/// Appends the lowercase hex digits of `v`, zero-padded on the left to at
/// least `min_digits` digits, to `out`.
fn push_hex_u64_pad(out: &mut String, v: u64, min_digits: usize)
    ensures
        final(out)@ == old(out)@ + hex_u64_pad(v, min_digits as nat),
    decreases v, min_digits,
{
    if min_digits <= 1 && v < 16 {
        out.push(crate::format::hex_digit_exec(v as u8));
        assert(out@ =~= old(out)@ + hex_u64_pad(v, min_digits as nat));
    } else {
        let next_min: usize = if min_digits == 0 {
            0
        } else {
            min_digits - 1
        };
        push_hex_u64_pad(out, v / 16, next_min);
        out.push(crate::format::hex_digit_exec((v % 16) as u8));
        assert(out@ =~= old(out)@ + hex_u64_pad(v, min_digits as nat));
    }
}

/// The complete text of one output row for `chunk` at `address`: the address
/// as at least eight lowercase hex digits, the padded hex field, and the
/// ASCII sidebar, separated by `:  ` and two spaces.
pub fn render_row(address: u64, chunk: &[u8], args: &Args) -> (r: String)
    requires
        args.wf(),
        chunk@.len() <= args.cols,
        args.cols * 2 + args.cols as int / args.groupsize as int <= usize::MAX,
    ensures
        r@ == row_text(
            address,
            chunk@,
            args.cols as int,
            args.groupsize as int,
            args.endian,
        ),
{
    let mut out = String::new();
    push_hex_u64_pad(&mut out, address, 8);
    out.push(':');
    out.push(' ');
    out.push(' ');
    let hex_part = format_line(chunk, args);
    out.append(hex_part.as_str());
    out.push(' ');
    out.push(' ');
    let ascii_part = get_string(chunk);
    out.append(ascii_part.as_str());
    assert(out@ =~= row_text(
        address,
        chunk@,
        args.cols as int,
        args.groupsize as int,
        args.endian,
    ));
    out
}

/// Copies `buffer[from..to]` into a fresh vector.
fn copy_range(buffer: &[u8], from: usize, to: usize) -> (r: Vec<u8>)
    requires
        from <= to <= buffer@.len(),
    ensures
        r@ == buffer@.subrange(from as int, to as int),
{
    let mut out: Vec<u8> = Vec::new();
    let mut i: usize = from;
    while i < to
        invariant
            from <= i <= to <= buffer@.len(),
            out@ =~= buffer@.subrange(from as int, i as int),
        decreases to - i,
    {
        out.push(buffer[i]);
        assert(out@ =~= buffer@.subrange(from as int, i + 1));
        i = i + 1;
    }
    assert(out@ =~= buffer@.subrange(from as int, to as int));
    out
}

/// Renders the whole selected buffer: one row per `cols` bytes, addresses
/// starting at `start_address` and advancing by `cols` per row whether or not
/// the row is full.
pub fn dump_lines(buffer: &[u8], args: &Args, start_address: u64) -> (lines: Vec<String>)
    requires
        args.wf(),
        args.cols * 2 + args.cols as int / args.groupsize as int <= usize::MAX,
        buffer@.len() + args.cols <= usize::MAX,
        start_address + buffer@.len() + args.cols <= u64::MAX,
    ensures
        lines@.len() == row_count(buffer@.len() as int, args.cols as int),
        forall|r: int|
            0 <= r < lines@.len() ==> lines@[r]@ == row_text(
                (start_address + r * args.cols) as u64,
                row_chunk(buffer@, args.cols as int, r),
                args.cols as int,
                args.groupsize as int,
                args.endian,
            ),
{
    let n: usize = buffer.len();
    let cols: usize = args.cols;
    let mut lines: Vec<String> = Vec::new();
    let mut off: usize = 0;
    let mut address: u64 = start_address;
    assert(lines@.len() * (cols as int) == 0) by (nonlinear_arith)
        requires
            lines@.len() == 0,
    ;
    while off < n
        invariant
            args.wf(),
            args.cols * 2 + args.cols as int / args.groupsize as int <= usize::MAX,
            start_address + n + cols <= u64::MAX,
            n + cols <= usize::MAX,
            n == buffer@.len(),
            cols == args.cols,
            off as int == lines@.len() * (cols as int),
            off == 0 || off - cols < n,
            address == start_address + off,
            forall|r: int|
                0 <= r < lines@.len() ==> lines@[r]@ == row_text(
                    (start_address + r * args.cols) as u64,
                    row_chunk(buffer@, args.cols as int, r),
                    args.cols as int,
                    args.groupsize as int,
                    args.endian,
                ),
        decreases n + cols - off,
    {
        let end: usize = if n - off > cols {
            off + cols
        } else {
            n
        };
        let ghost r = lines@.len() as int;
        let chunk = copy_range(buffer, off, end);
        assert(chunk@ =~= row_chunk(buffer@, args.cols as int, r));
        let line = render_row(address, chunk.as_slice(), args);
        lines.push(line);
        proof {
            assert((r + 1) * (cols as int) == r * (cols as int) + cols) by (nonlinear_arith);
        }
        off = off + cols;
        address = address + cols as u64;
    }
    proof {
        let len = n as int;
        let c = cols as int;
        let r = lines@.len() as int;
        if r == 0 {
            assert(len == 0);
            vstd::arithmetic::div_mod::lemma_basic_div(c - 1, c);
        } else {
            assert(r * c >= len);
            assert(r * c >= c) by (nonlinear_arith)
                requires
                    r >= 1,
                    c >= 1,
            ;
            assert((r - 1) * c == r * c - c) by (nonlinear_arith);
            assert((r - 1) * c < len);
            vstd::arithmetic::div_mod::lemma_fundamental_div_mod_converse(
                len + c - 1,
                c,
                r,
                len + c - 1 - r * c,
            );
        }
    }
    lines
}

} // verus!
