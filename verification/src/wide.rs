//! Wide-character buffers as the operating system fills and reads them:
//! UTF-16 code units, a NUL after the last one.

use vstd::prelude::*;
use vstd::slice::{slice_subrange, slice_to_vec};

verus! {

/// The UTF-16 code units that encode `text`.
pub uninterp spec fn utf16_units(text: Seq<char>) -> Seq<u16>;

/// The text that `units` encode in UTF-16; `None` where they are not valid
/// UTF-16.
pub uninterp spec fn utf16_text(units: Seq<u16>) -> Option<Seq<char>>;

/// Calls `str::encode_utf16` and collects the code units it yields. Trusted:
/// they are the units that `utf16_units` names for this text.
#[verifier::external_body]
fn encode_utf16(text: &str) -> (units: Vec<u16>)
    ensures
        units@ == utf16_units(text@),
{
    text.encode_utf16().collect()
}

/// Calls `String::from_utf16`. Trusted: it yields a string exactly where
/// `utf16_text` names a text for these units, and then that text.
#[verifier::external_body]
pub(crate) fn decode_utf16(units: &[u16]) -> (text: Option<String>)
    ensures
        match text {
            Some(t) => utf16_text(units@) == Some(t@),
            None => utf16_text(units@) is None,
        },
{
    match String::from_utf16(units) {
        Ok(t) => Some(t),
        Err(_) => None,
    }
}

/// A buffer whose code units, up to its terminator, are not valid UTF-16.
#[derive(Debug, Clone, Copy, PartialEq, Eq)]
pub struct InvalidUtf16;

/// Where the string held in `buffer` ends: the index of its first NUL, or the
/// length of the buffer where it holds none.
pub open spec fn nul_index(buffer: Seq<u16>) -> int {
    match buffer.index_of_first(0u16) {
        Some(i) => i,
        None => buffer.len() as int,
    }
}

/// The code units of the string held in `buffer`, without the terminator.
pub open spec fn terminated(buffer: Seq<u16>) -> Seq<u16> {
    buffer.take(nul_index(buffer))
}

/// The string held in a buffer ends at the one place before which no unit is
/// NUL and at which the buffer ends or holds a NUL.
pub proof fn lemma_nul_index(buffer: Seq<u16>, end: int)
    requires
        0 <= end <= buffer.len(),
        forall|i: int| 0 <= i < end ==> buffer[i] != 0,
        end < buffer.len() ==> buffer[end] == 0,
    ensures
        nul_index(buffer) == end,
{
    buffer.index_of_first_ensures(0u16);
    if end < buffer.len() {
        assert(buffer.contains(0u16));
    }
}

/// The string held in a buffer ends within the buffer, at its first NUL where
/// it holds one: nothing behind a terminator is ever part of the string.
pub proof fn lemma_nul_index_bounds(buffer: Seq<u16>)
    ensures
        0 <= nul_index(buffer) <= buffer.len(),
        forall|i: int| 0 <= i < nul_index(buffer) ==> buffer[i] != 0,
        nul_index(buffer) < buffer.len() ==> buffer[nul_index(buffer)] == 0,
{
    buffer.index_of_first_ensures(0u16);
    if buffer.index_of_first(0u16) is None {
        assert forall|i: int| 0 <= i < buffer.len() implies buffer[i] != 0 by {
            if buffer[i] == 0 {
                assert(buffer.contains(0u16));
            }
        }
    }
}

/// Finds the end of the string that starts at `from` in `buffer`.
fn find_nul(buffer: &[u16], from: usize) -> (end: usize)
    requires
        from <= buffer@.len(),
    ensures
        end == from + nul_index(buffer@.skip(from as int)),
        from <= end <= buffer@.len(),
{
    let len: usize = buffer.len();
    let mut end: usize = from;
    while end < len && buffer[end] != 0
        invariant
            len == buffer@.len(),
            from <= end <= len,
            forall|i: int| from <= i < end ==> buffer@[i] != 0,
        decreases len - end,
    {
        end += 1;
    }
    proof {
        lemma_nul_index(buffer@.skip(from as int), end - from);
    }
    end
}

/// Encodes `text` as a NUL-terminated wide string, as the operating system
/// takes its path arguments.
pub fn wide_string(text: &str) -> (wide: Vec<u16>)
    ensures
        wide@ == utf16_units(text@).push(0u16),
{
    let mut wide: Vec<u16> = encode_utf16(text);
    wide.push(0);
    wide
}

/// Decodes the string held in `buffer`: the code units before its first NUL,
/// or all of them where it holds none.
pub fn from_wide_buf(buffer: &[u16]) -> (text: Result<String, InvalidUtf16>)
    ensures
        match text {
            Ok(t) => utf16_text(terminated(buffer@)) == Some(t@),
            Err(_) => utf16_text(terminated(buffer@)) is None,
        },
{
    let end: usize = find_nul(buffer, 0);
    assert(buffer@.skip(0) =~= buffer@);
    match decode_utf16(slice_subrange(buffer, 0, end)) {
        Some(t) => Ok(t),
        None => Err(InvalidUtf16),
    }
}

/// The strings of a list as the operating system writes it: one after the
/// other, a NUL after each, the list ended by an empty string or by the end of
/// the buffer.
pub open spec fn path_list(buffer: Seq<u16>) -> Seq<Seq<u16>>
    decreases buffer.len(),
{
    let end = nul_index(buffer);
    if end <= 0 {
        Seq::empty()
    } else if end >= buffer.len() {
        seq![buffer]
    } else {
        seq![buffer.take(end)] + path_list(buffer.skip(end + 1))
    }
}

/// The views of the vectors in `items`, in order.
pub open spec fn views(items: Seq<Vec<u16>>) -> Seq<Seq<u16>> {
    Seq::new(items.len(), |i: int| items[i]@)
}

/// An empty buffer holds an empty list.
pub proof fn lemma_path_list_empty()
    ensures
        path_list(Seq::<u16>::empty()) == Seq::<Seq<u16>>::empty(),
{
    lemma_nul_index(Seq::<u16>::empty(), 0);
}

/// Splits a list of NUL-terminated strings into its strings.
pub fn split_path_list(buffer: &[u16]) -> (paths: Vec<Vec<u16>>)
    ensures
        views(paths@) == path_list(buffer@),
{
    let len: usize = buffer.len();
    let mut paths: Vec<Vec<u16>> = Vec::new();
    let mut offset: usize = 0;
    proof {
        lemma_path_list_empty();
        assert(buffer@.skip(0) =~= buffer@);
        assert(views(paths@) =~= Seq::<Seq<u16>>::empty());
        if len == 0 {
            assert(buffer@ =~= Seq::<u16>::empty());
        }
    }
    while offset < len
        invariant
            len == buffer@.len(),
            offset <= len,
            path_list(buffer@) == views(paths@) + path_list(buffer@.skip(offset as int)),
            offset == len ==> path_list(buffer@.skip(offset as int)) == Seq::<Seq<u16>>::empty(),
        ensures
            path_list(buffer@) == views(paths@),
        decreases len - offset,
    {
        let ghost rest = buffer@.skip(offset as int);
        let ghost before = views(paths@);
        let end: usize = find_nul(buffer, offset);
        if end == offset {
            break;
        }
        let path: Vec<u16> = slice_to_vec(slice_subrange(buffer, offset, end));
        paths.push(path);
        proof {
            lemma_path_list_empty();
            assert(path@ =~= rest.take(end - offset));
            assert(views(paths@) =~= before + seq![rest.take(end - offset)]);
            if end == len {
                assert(rest.take(end - offset) =~= rest);
                assert(buffer@.skip(len as int) =~= Seq::<u16>::empty());
            } else {
                assert(rest.skip(end - offset + 1) =~= buffer@.skip(end + 1));
                if end + 1 == len {
                    assert(buffer@.skip(len as int) =~= Seq::<u16>::empty());
                }
            }
        }
        offset = if end == len { len } else { end + 1 };
    }
    paths
}

} // verus!
