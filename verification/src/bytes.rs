//! Small helpers on byte strings that the parsers and builders share.

use vstd::prelude::*;

verus! {

/// Appends `src[from..to]` to `out`.
pub fn append_range(out: &mut Vec<u8>, src: &[u8], from: usize, to: usize)
    requires
        from <= to <= src@.len(),
    ensures
        final(out)@ == old(out)@ + src@.subrange(from as int, to as int),
{
    let mut i: usize = from;
    while i < to
        invariant
            from <= i <= to <= src@.len(),
            out@ == old(out)@ + src@.subrange(from as int, i as int),
        decreases to - i,
    {
        out.push(src[i]);
        i += 1;
        assert(out@ =~= old(out)@ + src@.subrange(from as int, i as int));
    }
}

/// Appends the whole of `src` to `out`.
pub fn append_all(out: &mut Vec<u8>, src: &[u8])
    ensures
        final(out)@ == old(out)@ + src@,
{
    append_range(out, src, 0, src.len());
    assert(src@.subrange(0, src@.len() as int) =~= src@);
}

/// Whether `data[from..to]` is byte for byte `pattern`.
pub fn range_equals(data: &[u8], from: usize, to: usize, pattern: &[u8]) -> (same: bool)
    requires
        from <= to <= data@.len(),
    ensures
        same == (data@.subrange(from as int, to as int) == pattern@),
{
    if to - from != pattern.len() {
        return false;
    }
    let mut i: usize = 0;
    while i < pattern.len()
        invariant
            from <= to <= data@.len(),
            to - from == pattern@.len(),
            0 <= i <= pattern@.len(),
            data@.subrange(from as int, from + i) == pattern@.subrange(0, i as int),
        decreases pattern@.len() - i,
    {
        if data[from + i] != pattern[i] {
            assert(data@.subrange(from as int, to as int)[i as int] != pattern@[i as int]);
            return false;
        }
        i += 1;
        assert(data@.subrange(from as int, from + i) =~= pattern@.subrange(0, i as int)) by {
            let a = data@.subrange(from as int, from + i);
            let b = data@.subrange(from as int, from + i - 1);
            assert forall|j: int| 0 <= j < i implies a[j] == pattern@[j] by {
                if j < i - 1 {
                    assert(a[j] == b[j]);
                    assert(b[j] == pattern@.subrange(0, i - 1)[j]);
                }
            }
        }
    }
    assert(data@.subrange(from as int, to as int) =~= pattern@.subrange(0, i as int));
    assert(pattern@.subrange(0, i as int) =~= pattern@);
    true
}

/// The position of the first occurrence of `byte` in `data` at or after
/// `from`.
pub open spec fn position(data: Seq<u8>, from: int, byte: u8) -> Option<int>
    decreases data.len() - from,
{
    if from < 0 || from >= data.len() {
        None
    } else if data[from] == byte {
        Some(from)
    } else {
        position(data, from + 1, byte)
    }
}

/// A byte that stands at `at` and nowhere between `from` and `at` is the
/// first occurrence from `from` on.
pub proof fn lemma_position_is(data: Seq<u8>, from: int, byte: u8, at: int)
    requires
        0 <= from <= at < data.len(),
        data[at] == byte,
        forall|j: int| from <= j < at ==> data[j] != byte,
    ensures
        position(data, from, byte) == Some(at),
    decreases at - from,
{
    if from < at {
        lemma_position_is(data, from + 1, byte, at);
    }
}

/// Finds the first occurrence of `byte` in `data` at or after `from`.
pub fn find_byte(data: &[u8], from: usize, byte: u8) -> (found: Option<usize>)
    requires
        from <= data@.len(),
    ensures
        found matches Some(at) ==> position(data@, from as int, byte) == Some(at as int) && from
            <= at < data@.len() && data@[at as int] == byte,
        found is None ==> position(data@, from as int, byte) is None,
        forall|j: int| from <= j < (if found is Some { found.unwrap() as int } else { data@.len() as int }) ==> data@[j] != byte,
{
    let mut i: usize = from;
    while i < data.len()
        invariant
            from <= i <= data@.len(),
            forall|j: int| from <= j < i ==> data@[j] != byte,
            position(data@, from as int, byte) == position(data@, i as int, byte),
        decreases data@.len() - i,
    {
        if data[i] == byte {
            return Some(i);
        }
        i += 1;
    }
    None
}

/// The first position at or after `from` where `pattern` stands in
/// `data`.
pub open spec fn occurrence(data: Seq<u8>, pattern: Seq<u8>, from: int) -> Option<int>
    decreases data.len() - from + 1,
{
    if from < 0 || from + pattern.len() > data.len() {
        None
    } else if data.subrange(from, from + pattern.len()) == pattern {
        Some(from)
    } else {
        occurrence(data, pattern, from + 1)
    }
}

/// Finds the first place in `data` where `pattern` stands.
pub fn find_pattern(data: &[u8], pattern: &[u8]) -> (found: Option<usize>)
    ensures
        found matches Some(at) ==> occurrence(data@, pattern@, 0) == Some(at as int) && at
            + pattern@.len() <= data@.len(),
        found is None ==> occurrence(data@, pattern@, 0) is None,
{
    if data.len() < pattern.len() {
        return None;
    }
    let last: usize = data.len() - pattern.len();
    let mut i: usize = 0;
    loop
        invariant
            occurrence(data@, pattern@, 0) == occurrence(data@, pattern@, i as int),
            last + pattern@.len() == data@.len() <= usize::MAX,
            i <= last,
        decreases last - i,
    {
        if range_equals(data, i, i + pattern.len(), pattern) {
            return Some(i);
        }
        if i == last {
            assert(occurrence(data@, pattern@, last + 1) is None);
            return None;
        }
        i += 1;
    }
}

/// Whether `data` begins with `pattern`.
pub open spec fn has_prefix(data: Seq<u8>, pattern: Seq<u8>) -> bool {
    pattern.len() <= data.len() && data.subrange(0, pattern.len() as int) == pattern
}

/// Whether `data` ends with `pattern`.
pub open spec fn has_suffix(data: Seq<u8>, pattern: Seq<u8>) -> bool {
    pattern.len() <= data.len() && data.subrange(data.len() - pattern.len(), data.len() as int)
        == pattern
}

/// Tests whether `data` begins with `pattern`.
pub fn starts_with(data: &[u8], pattern: &[u8]) -> (yes: bool)
    ensures
        yes == has_prefix(data@, pattern@),
{
    pattern.len() <= data.len() && range_equals(data, 0, pattern.len(), pattern)
}

/// Tests whether `data` ends with `pattern`.
pub fn ends_with(data: &[u8], pattern: &[u8]) -> (yes: bool)
    ensures
        yes == has_suffix(data@, pattern@),
{
    pattern.len() <= data.len() && range_equals(
        data,
        data.len() - pattern.len(),
        data.len(),
        pattern,
    )
}

/// Copies `src[from..to]` into a new vector.
pub fn copy_range(src: &[u8], from: usize, to: usize) -> (out: Vec<u8>)
    requires
        from <= to <= src@.len(),
    ensures
        out@ == src@.subrange(from as int, to as int),
{
    let mut out: Vec<u8> = Vec::new();
    append_range(&mut out, src, from, to);
    out
}

/// The views of a list of byte strings, in order.
pub open spec fn views_of(items: Seq<Vec<u8>>) -> Seq<Seq<u8>> {
    Seq::new(items.len(), |i: int| items[i]@)
}

} // verus!
