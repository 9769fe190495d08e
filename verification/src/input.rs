//! Input selection: deriving the requested byte slice from a seek offset, an
//! optional maximum length, and the source's size.
//!
//! A file-backed source has a known total length, so an out-of-range seek is
//! rejected before any read; a fully-buffered stream (standard input) cannot
//! be range-checked ahead of consumption, so a seek at or past its end yields
//! an empty slice instead of an error.

use vstd::prelude::*;

verus! {

/// Why a selection from a file-backed source failed.
#[derive(Clone, Copy, Debug, PartialEq, Eq, Structural)]
pub enum SelectError {
    /// The seek offset exceeds the file's total length.
    SeekBeyondEnd,
    /// Fewer bytes were available at read time than the plan expected
    /// (the file shrank between sizing and reading).
    ShortRead,
}

/// The number of bytes a file read must return: the requested length when one
/// is given (0 means "to the end"), clamped to what lies between `seek` and
/// the end of the file.
pub open spec fn file_read_plan(file_size: u64, seek: u64, length: usize) -> int
    recommends
        seek <= file_size,
{
    if length > 0 && (length as int) < file_size - seek {
        length as int
    } else {
        file_size - seek
    }
}

/// Plans a read from a file of `file_size` bytes: rejects a seek past the end
/// of the file, and otherwise returns exactly how many bytes to read starting
/// at `seek` — the requested `length` (0 meaning "to the end") clamped to the
/// bytes available.
pub fn plan_file_read(file_size: u64, seek: u64, length: usize) -> (r: Result<u64, SelectError>)
    ensures
        seek > file_size ==> r == Err::<u64, SelectError>(SelectError::SeekBeyondEnd),
        seek <= file_size ==> r == Ok::<u64, SelectError>(
            file_read_plan(file_size, seek, length) as u64,
        ),
{
    if seek > file_size {
        return Err(SelectError::SeekBeyondEnd);
    }
    let available: u64 = file_size - seek;
    let to_read: u64 = if length > 0 {
        if (length as u64) < available {
            length as u64
        } else {
            available
        }
    } else {
        available
    };
    Ok(to_read)
}

/// Confirms that a planned read returned the expected number of bytes;
/// anything shorter means the source was truncated between sizing and
/// reading.
pub fn confirm_read_len(got: usize, planned: u64) -> (r: Result<(), SelectError>)
    ensures
        r == Ok::<(), SelectError>(()) <==> got == planned,
        r is Err <==> got != planned,
        r is Err ==> r == Err::<(), SelectError>(SelectError::ShortRead),
{
    if got as u64 == planned && got == planned as usize {
        Ok(())
    } else {
        Err(SelectError::ShortRead)
    }
}

/// The slice a fully-buffered source yields for a selection request: empty
/// when `seek` is at or past the end of the buffer, otherwise the bytes from
/// `seek` up to `seek + length` (to the end when `length` is 0), clamped to
/// the end of the buffer.
pub open spec fn selected(buffer: Seq<u8>, seek: int, length: int) -> Seq<u8> {
    if seek >= buffer.len() {
        Seq::empty()
    } else if length > 0 && seek + length < buffer.len() {
        buffer.subrange(seek, seek + length)
    } else {
        buffer.subrange(seek, buffer.len() as int)
    }
}

/// Selects from an in-memory buffer (a fully read stream): a seek at or past
/// the buffered end yields an empty slice — not an error, since the source's
/// length was not knowable in advance — and otherwise the bytes from `seek`
/// up to the requested length (0 meaning "to the end"), clamped to the end of
/// the buffer.
pub fn select_from_buffer(buffer: &[u8], seek: u64, length: usize) -> (r: Vec<u8>)
    ensures
        r@ == selected(buffer@, seek as int, length as int),
        seek >= buffer@.len() ==> r@.len() == 0,
{
    let n: usize = buffer.len();
    if seek >= n as u64 {
        return Vec::new();
    }
    let start: usize = seek as usize;
    let end: usize = if length > 0 && length < n - start {
        start + length
    } else {
        n
    };
    let mut out: Vec<u8> = Vec::new();
    let mut i: usize = start;
    while i < end
        invariant
            start <= i <= end <= n,
            n == buffer@.len(),
            out@ =~= buffer@.subrange(start as int, i as int),
        decreases end - i,
    {
        out.push(buffer[i]);
        assert(out@ =~= buffer@.subrange(start as int, i + 1));
        i = i + 1;
    }
    assert(out@ =~= selected(buffer@, seek as int, length as int));
    out
}

/// Selection correctness for a buffered source: a request with `seek == 0`
/// and `length == 0` selects the whole buffer; `length == 0` selects
/// everything from `seek` to the end; a positive `length` selects
/// `min(length, len - seek)` bytes starting at `seek`; and a seek at or past
/// the end selects nothing.
pub proof fn lemma_selection_correctness(buffer: Seq<u8>, seek: int, length: int)
    requires
        0 <= seek,
        0 <= length,
    ensures
        selected(buffer, 0, 0) == buffer,
        seek < buffer.len() ==> selected(buffer, seek, 0) == buffer.subrange(
            seek,
            buffer.len() as int,
        ),
        seek < buffer.len() && length > 0 ==> selected(buffer, seek, length).len() == vstd::math::min(
            length,
            buffer.len() - seek,
        ),
        seek < buffer.len() && length > 0 ==> selected(buffer, seek, length) == buffer.subrange(
            seek,
            seek + vstd::math::min(length, buffer.len() - seek),
        ),
        seek >= buffer.len() ==> selected(buffer, seek, length) == Seq::<u8>::empty(),
{
    assert(selected(buffer, 0, 0) =~= buffer);
}

} // verus!
