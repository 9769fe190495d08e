//! Hex and ASCII rendering of a row's bytes.
//!
//! A chunk of up to `cols` bytes is partitioned into groups of `groupsize`
//! bytes (the final group may be shorter). Each group is rendered as
//! lowercase hex digits, optionally byte-reversed for little-endian display;
//! groups are joined with single spaces, and the result is right-padded to a
//! fixed width so that short final rows stay aligned with full rows.

use vstd::prelude::*;
use vstd::arithmetic::div_mod::lemma_div_is_ordered;

use crate::cli::Args;

verus! {

/// The lowercase hexadecimal digit for a nibble value.
pub open spec fn hex_digit(n: u8) -> char
    recommends
        n < 16,
{
    if n < 10 {
        ((n + 0x30) as u8) as char
    } else {
        ((n + 0x57) as u8) as char
    }
}

/// The two lowercase hexadecimal digits of one byte.
pub open spec fn hex_byte(b: u8) -> Seq<char> {
    seq![hex_digit(b / 16), hex_digit(b % 16)]
}

/// The hex digits of a byte sequence, concatenated without separators.
pub open spec fn hex_of_bytes(s: Seq<u8>) -> Seq<char>
    decreases s.len(),
{
    if s.len() == 0 {
        Seq::empty()
    } else {
        hex_of_bytes(s.drop_last()) + hex_byte(s.last())
    }
}

/// The bytes of one group in display order: reversed when rendering
/// little-endian, source order otherwise.
pub open spec fn group_bytes(s: Seq<u8>, endian: bool) -> Seq<u8> {
    if endian {
        s.reverse()
    } else {
        s
    }
}

/// The unpadded hex text of a chunk: groups of `groupsize` bytes, each
/// rendered in display order, joined by single spaces. The final group is
/// shorter when `groupsize` does not divide the chunk length.
pub open spec fn hex_of_chunk(s: Seq<u8>, groupsize: int, endian: bool) -> Seq<char>
    recommends
        groupsize >= 1,
    decreases s.len(),
{
    if groupsize < 1 || s.len() == 0 {
        Seq::empty()
    } else if s.len() <= groupsize {
        hex_of_bytes(group_bytes(s, endian))
    } else {
        hex_of_bytes(group_bytes(s.take(groupsize), endian)) + seq![' '] + hex_of_chunk(
            s.skip(groupsize),
            groupsize,
            endian,
        )
    }
}

/// The fixed width of the hex field: two digits per byte of a full row plus
/// one space between each of a full row's groups.
pub open spec fn hex_field_width(cols: int, groupsize: int) -> int {
    cols * 2 + cols / groupsize - 1
}

/// `s` right-padded with spaces to `width` characters; `s` itself if it is
/// already at least that wide.
pub open spec fn pad_to(s: Seq<char>, width: int) -> Seq<char> {
    if s.len() >= width {
        s
    } else {
        s + Seq::new((width - s.len()) as nat, |i: int| ' ')
    }
}

/// The sidebar character for one byte: the byte's own character when
/// `32 < b <= 126`, a dot otherwise. Byte 32 (space) deliberately renders
/// as a dot.
pub open spec fn ascii_char(b: u8) -> char {
    if 32 < b && b <= 126 {
        b as char
    } else {
        '.'
    }
}

/// The printable-ASCII sidebar of a byte sequence: one character per byte.
pub open spec fn ascii_of(s: Seq<u8>) -> Seq<char> {
    Seq::new(s.len(), |i: int| ascii_char(s[i]))
}

/// Relies on std's `String::push`: appends the given character to the end of
/// the string.
pub assume_specification[ String::push ](s: &mut String, c: char)
    ensures
        final(s)@ == old(s)@.push(c),
;

/// The lowercase hexadecimal digit for a nibble value.
pub(crate) fn hex_digit_exec(n: u8) -> (c: char)
    requires
        n < 16,
    ensures
        c == hex_digit(n),
{
    if n < 10 {
        (n + 0x30) as char
    } else {
        (n + 0x57) as char
    }
}

/// Appends the two lowercase hex digits of `b` to `out`.
fn push_hex_byte(out: &mut String, b: u8)
    ensures
        final(out)@ == old(out)@ + hex_byte(b),
{
    out.push(hex_digit_exec(b / 16));
    out.push(hex_digit_exec(b % 16));
    assert(final(out)@ =~= old(out)@ + hex_byte(b));
}

/// Unfolding step for `hex_of_bytes` over a growing prefix.
proof fn lemma_hex_of_bytes_take_step(t: Seq<u8>, j: int)
    requires
        0 <= j < t.len(),
    ensures
        hex_of_bytes(t.take(j + 1)) == hex_of_bytes(t.take(j)) + hex_byte(t[j]),
{
    assert(t.take(j + 1).drop_last() =~= t.take(j));
    assert(t.take(j + 1).last() == t[j]);
}

/// Appends the hex digits of `chunk[from..end]`, in display order, to `out`.
fn push_group(out: &mut String, chunk: &[u8], from: usize, end: usize, endian: bool)
    requires
        from <= end <= chunk@.len(),
    ensures
        final(out)@ == old(out)@ + hex_of_bytes(group_bytes(chunk@.subrange(from as int, end as int), endian)),
{
    let ghost sub = chunk@.subrange(from as int, end as int);
    let ghost disp = group_bytes(sub, endian);
    let glen: usize = end - from;
    let mut j: usize = 0;
    while j < glen
        invariant
            from <= end <= chunk@.len(),
            glen == end - from,
            j <= glen,
            sub == chunk@.subrange(from as int, end as int),
            disp == group_bytes(sub, endian),
            disp.len() == glen,
            out@ == old(out)@ + hex_of_bytes(disp.take(j as int)),
        decreases glen - j,
    {
        let b: u8 = if endian {
            chunk[end - 1 - j]
        } else {
            chunk[from + j]
        };
        proof {
            assert(disp[j as int] == b);
            lemma_hex_of_bytes_take_step(disp, j as int);
        }
        push_hex_byte(out, b);
        j = j + 1;
    }
    assert(disp.take(glen as int) =~= disp);
}

/// Appends the hex text of `chunk[from..]`, grouped and space-joined, to
/// `out`.
fn push_groups(out: &mut String, chunk: &[u8], from: usize, groupsize: usize, endian: bool)
    requires
        groupsize >= 1,
        from <= chunk@.len(),
    ensures
        final(out)@ == old(out)@ + hex_of_chunk(chunk@.skip(from as int), groupsize as int, endian),
    decreases chunk@.len() - from,
{
    let n: usize = chunk.len();
    if from == n {
        assert(chunk@.skip(from as int) =~= Seq::<u8>::empty());
        return ;
    }
    let ghost s = chunk@.skip(from as int);
    let end: usize = if n - from > groupsize {
        from + groupsize
    } else {
        n
    };
    push_group(out, chunk, from, end, endian);
    if end < n {
        assert(s.take(groupsize as int) =~= chunk@.subrange(from as int, end as int));
        out.push(' ');
        push_groups(out, chunk, end, groupsize, endian);
        proof {
            assert(s.skip(groupsize as int) =~= chunk@.skip(end as int));
            assert(out@ =~= old(out)@ + hex_of_chunk(s, groupsize as int, endian));
        }
    } else {
        assert(s =~= chunk@.subrange(from as int, end as int));
    }
}

/// The hex text of one row's chunk, padded with trailing spaces to the fixed
/// field width `cols * 2 + cols / groupsize - 1`.
///
/// The chunk is split into `groupsize`-byte groups; each group's bytes are
/// reversed when `args.endian` is set; each byte becomes two lowercase hex
/// digits; groups are joined with single spaces.
pub fn format_line(chunk: &[u8], args: &Args) -> (r: String)
    requires
        args.wf(),
        chunk@.len() <= args.cols,
        args.cols * 2 + args.cols as int / args.groupsize as int <= usize::MAX,
    ensures
        r@ == pad_to(
            hex_of_chunk(chunk@, args.groupsize as int, args.endian),
            hex_field_width(args.cols as int, args.groupsize as int),
        ),
{
    let mut out = String::new();
    push_groups(&mut out, chunk, 0, args.groupsize, args.endian);
    assert(chunk@.skip(0) =~= chunk@);
    let ghost hex = hex_of_chunk(chunk@, args.groupsize as int, args.endian);
    assert(out@ =~= hex);

    proof {
        lemma_hex_of_chunk_len(chunk@, args.groupsize as int, args.endian);
        lemma_div_is_ordered(args.groupsize as int, args.cols as int, args.groupsize as int);
        vstd::arithmetic::div_mod::lemma_div_by_self(args.groupsize as int);
    }
    let spaces_between_groups: usize = args.cols / args.groupsize - 1;
    let width: usize = args.cols * 2 + spaces_between_groups;

    let n: usize = chunk.len();
    let len: usize = if n == 0 {
        0
    } else {
        proof {
            vstd::arithmetic::div_mod::lemma_div_plus_one(n - 1, args.groupsize as int);
            lemma_div_is_ordered(n as int - 1, args.cols as int, args.groupsize as int);
        }
        let ngroups: usize = (n - 1) / args.groupsize + 1;
        2 * n - 1 + ngroups
    };
    assert(len == hex.len());

    let mut padded: usize = len;
    assert(out@ =~= hex + Seq::new(0nat, |i: int| ' '));
    while padded < width
        invariant
            len <= padded <= usize::MAX,
            padded <= width || padded == len,
            out@ == hex + Seq::new((padded - len) as nat, |i: int| ' '),
            hex.len() == len,
        decreases width - padded,
    {
        out.push(' ');
        assert(out@ =~= hex + Seq::new((padded + 1 - len) as nat, |i: int| ' '));
        padded = padded + 1;
    }
    proof {
        let w = hex_field_width(args.cols as int, args.groupsize as int);
        if len < width {
            assert(padded == width);
            assert(out@ =~= pad_to(hex, w));
        } else {
            assert(padded == len);
            assert(out@ =~= hex);
        }
    }
    out
}

/// The length of the unpadded hex text: two digits per byte plus one space
/// between adjacent groups.
pub proof fn lemma_hex_of_bytes_len(s: Seq<u8>)
    ensures
        hex_of_bytes(s).len() == 2 * s.len(),
    decreases s.len(),
{
    if s.len() > 0 {
        lemma_hex_of_bytes_len(s.drop_last());
    }
}

/// The unpadded hex text of a chunk has `2 * len + ceil(len / groupsize) - 1`
/// characters (0 for an empty chunk).
pub proof fn lemma_hex_of_chunk_len(s: Seq<u8>, groupsize: int, endian: bool)
    requires
        groupsize >= 1,
    ensures
        hex_of_chunk(s, groupsize, endian).len() == if s.len() == 0 {
            0int
        } else {
            2 * s.len() + (s.len() + groupsize - 1) / groupsize - 1
        },
    decreases s.len(),
{
    if s.len() == 0 {
    } else if s.len() <= groupsize {
        lemma_hex_of_bytes_len(group_bytes(s, endian));
        assert((s.len() + groupsize - 1) / groupsize == 1) by {
            lemma_div_is_ordered(groupsize, s.len() + groupsize - 1, groupsize);
            lemma_div_is_ordered(s.len() + groupsize - 1, 2 * groupsize - 1, groupsize);
            assert(groupsize / groupsize == 1) by {
                vstd::arithmetic::div_mod::lemma_div_by_self(groupsize);
            }
            assert((2 * groupsize - 1) / groupsize == 1) by {
                vstd::arithmetic::div_mod::lemma_fundamental_div_mod_converse(
                    2 * groupsize - 1,
                    groupsize,
                    1,
                    groupsize - 1,
                );
            }
        }
    } else {
        lemma_hex_of_bytes_len(group_bytes(s.take(groupsize), endian));
        lemma_hex_of_chunk_len(s.skip(groupsize), groupsize, endian);
        assert((s.len() + groupsize - 1) / groupsize == (s.len() - groupsize + groupsize - 1)
            / groupsize + 1) by {
            vstd::arithmetic::div_mod::lemma_div_plus_one(s.len() - 1, groupsize);
        }
    }
}

/// Padding invariant: for any chunk of at most `cols` bytes, when `groupsize`
/// divides `cols` the padded hex field is exactly
/// `cols * 2 + cols / groupsize - 1` characters wide, whatever the chunk's
/// actual length.
pub proof fn lemma_hex_field_width(chunk: Seq<u8>, cols: int, groupsize: int, endian: bool)
    requires
        1 <= groupsize <= cols,
        cols % groupsize == 0,
        chunk.len() <= cols,
    ensures
        pad_to(hex_of_chunk(chunk, groupsize, endian), hex_field_width(cols, groupsize)).len()
            == hex_field_width(cols, groupsize),
{
    lemma_hex_of_chunk_len(chunk, groupsize, endian);
    if chunk.len() > 0 {
        assert((chunk.len() + groupsize - 1) / groupsize <= cols / groupsize) by {
            lemma_div_is_ordered(chunk.len() + groupsize - 1, cols + groupsize - 1, groupsize);
            vstd::arithmetic::div_mod::lemma_fundamental_div_mod(cols, groupsize);
            assert(cols == (cols / groupsize) * groupsize);
            assert(cols + groupsize - 1 == (cols / groupsize) * groupsize + (groupsize - 1));
            vstd::arithmetic::div_mod::lemma_fundamental_div_mod_converse(
                cols + groupsize - 1,
                groupsize,
                cols / groupsize,
                groupsize - 1,
            );
        }
    }
}

/// Endianness round trip: reversing a little-endian group's bytes recovers
/// the source order, so its little-endian rendering equals the big-endian
/// rendering of the reversed group; a one-byte (or empty) group renders the
/// same either way.
pub proof fn lemma_endian_round_trip(g: Seq<u8>)
    ensures
        group_bytes(group_bytes(g, true), true) == g,
        hex_of_bytes(group_bytes(g, true)) == hex_of_bytes(group_bytes(g.reverse(), false)),
        g.len() <= 1 ==> group_bytes(g, true) == g,
{
    assert(g.reverse().reverse() =~= g);
    if g.len() <= 1 {
        assert(g.reverse() =~= g);
    }
}

/// The printable-ASCII sidebar of a chunk: one character per byte, the byte's
/// own character for `32 < b <= 126`, a dot for every other byte (including
/// 32, the space).
pub fn get_string(byte_array: &[u8]) -> (r: String)
    ensures
        r@ == ascii_of(byte_array@),
        r@.len() == byte_array@.len(),
        forall|i: int| 0 <= i < byte_array@.len() ==> r@[i] == ascii_char(byte_array@[i]),
{
    let mut out = String::new();
    let n: usize = byte_array.len();
    let mut i: usize = 0;
    while i < n
        invariant
            i <= n,
            n == byte_array@.len(),
            out@.len() == i,
            forall|k: int| 0 <= k < i ==> out@[k] == ascii_char(byte_array@[k]),
        decreases n - i,
    {
        let b: u8 = byte_array[i];
        let c = if b > 32 && b <= 126 {
            b as char
        } else {
            '.'
        };
        out.push(c);
        i = i + 1;
    }
    assert(out@ =~= ascii_of(byte_array@));
    out
}

} // verus!
