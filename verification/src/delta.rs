//! Delta streams: two size varints, then copy and insert instructions that
//! rebuild a target from a base buffer.

use vstd::prelude::*;
use crate::bytes::append_range;
use crate::error::GitError;

verus! {

/// The largest weight at which a varint byte is still accepted: a varint
/// has at most nine bytes, so its value stays below 2^63.
pub const VARINT_TOP: u64 = 0x100_0000_0000_0000;

/// Reads the rest of a little-endian base-128 integer: each byte adds its
/// low seven bits times `weight` to `acc`, and a clear top bit ends the
/// number. Gives the value and the position after its last byte; `None`
/// where the data ends first or the number is longer than nine bytes.
pub open spec fn varint_from(data: Seq<u8>, pos: int, acc: int, weight: int) -> Option<(int, int)>
    decreases data.len() - pos,
{
    if pos < 0 || pos >= data.len() || weight > VARINT_TOP {
        None
    } else {
        let sum = acc + (data[pos] % 128) * weight;
        if data[pos] < 128 {
            Some((sum, pos + 1))
        } else {
            varint_from(data, pos + 1, sum, weight * 128)
        }
    }
}

/// The little-endian base-128 integer that starts at `pos`.
pub open spec fn varint(data: Seq<u8>, pos: int) -> Option<(int, int)> {
    varint_from(data, pos, 0, 1)
}

/// The number that a run of base-128 digits stands for, the least
/// significant digit first; the top bit of a byte is no part of its digit.
pub open spec fn base128_value(digits: Seq<u8>) -> int
    decreases digits.len(),
{
    if digits.len() == 0 {
        0
    } else {
        (digits[0] % 128) + 128 * base128_value(digits.drop_first())
    }
}

/// What [`varint_from`] reads is a run of bytes that all have the top bit
/// set but the last, and its value is the number that the run stands for,
/// scaled by `weight` and added to `acc`.
pub proof fn lemma_varint_is_base128(data: Seq<u8>, pos: int, acc: int, weight: int)
    requires
        0 <= pos,
        varint_from(data, pos, acc, weight) is Some,
    ensures
        ({
            let (value, next) = varint_from(data, pos, acc, weight).unwrap();
            &&& pos < next <= data.len()
            &&& value == acc + weight * base128_value(data.subrange(pos, next))
            &&& data[next - 1] < 128
            &&& forall|k: int| pos <= k < next - 1 ==> data[k] >= 128
        }),
    decreases data.len() - pos,
{
    let digit = (data[pos] % 128) as int;
    let (value, next) = varint_from(data, pos, acc, weight).unwrap();
    let run = data.subrange(pos, next);
    if data[pos] < 128 {
        assert(run.drop_first() =~= Seq::<u8>::empty());
        assert(base128_value(run.drop_first()) == 0);
        assert(base128_value(run) == digit);
        assert(digit * weight == weight * digit) by (nonlinear_arith);
    } else {
        lemma_varint_is_base128(data, pos + 1, acc + digit * weight, weight * 128);
        let rest = base128_value(data.subrange(pos + 1, next));
        assert(run.drop_first() =~= data.subrange(pos + 1, next));
        assert(base128_value(run) == digit + 128 * rest);
        assert(acc + digit * weight + (weight * 128) * rest == acc + weight * (digit + 128 * rest))
            by (nonlinear_arith);
    }
}

/// Reads the rest of a base-128 integer, as [`varint_from`] describes it.
pub fn read_varint_from(data: &[u8], pos: usize, acc: u64, weight: u64) -> (r: Option<(u64, usize)>)
    requires
        acc < weight,
        1 <= weight,
    ensures
        r matches Some((v, next)) ==> varint_from(data@, pos as int, acc as int, weight as int)
            == Some((v as int, next as int)) && pos < next <= data@.len(),
        r is None ==> varint_from(data@, pos as int, acc as int, weight as int) is None,
{
    let mut i: usize = pos;
    let mut sum: u64 = acc;
    let mut w: u64 = weight;
    while i < data.len() && w <= VARINT_TOP
        invariant
            pos <= i,
            sum < w,
            1 <= w,
            varint_from(data@, pos as int, acc as int, weight as int) == varint_from(
                data@,
                i as int,
                sum as int,
                w as int,
            ),
        decreases data@.len() - i,
    {
        let low: u64 = (data[i] % 128) as u64;
        assert(low * w <= 127 * w) by (nonlinear_arith)
            requires
                0 <= low <= 127,
                0 <= w,
        ;
        let next: u64 = sum + low * w;
        if data[i] < 128 {
            return Some((next, i + 1));
        }
        sum = next;
        w = w * 128;
        i += 1;
    }
    None
}

/// Reads the size varint at the start of `data`: the value, and the
/// position at which the rest begins.
pub fn parse_size(data: &[u8]) -> (r: Option<(u64, usize)>)
    ensures
        r matches Some((v, next)) ==> varint(data@, 0) == Some((v as int, next as int)) && 0 < next
            <= data@.len(),
        r is None ==> varint(data@, 0) is None,
{
    read_varint_from(data, 0, 0, 1)
}

/// One optional operand byte of a copy instruction: where `present`, the
/// byte at the cursor is added with the given weight and the cursor moves
/// on; `None` where the byte is wanted and the data has ended.
pub open spec fn operand(
    data: Seq<u8>,
    state: Option<(int, int)>,
    present: bool,
    weight: int,
) -> Option<(int, int)> {
    match state {
        None => None,
        Some((acc, pos)) => if !present {
            state
        } else if pos < 0 || pos >= data.len() {
            None
        } else {
            Some((acc + data[pos] * weight, pos + 1))
        },
    }
}

/// The offset of a copy instruction whose control byte is `ctrl` and whose
/// operands start at `pos`: bits 0 to 3 say which of the four offset bytes
/// are present, least significant first.
pub open spec fn copy_offset(data: Seq<u8>, pos: int, ctrl: u8) -> Option<(int, int)> {
    let s0 = Some((0int, pos));
    let s1 = operand(data, s0, ctrl & 0x01 != 0, 0x1);
    let s2 = operand(data, s1, ctrl & 0x02 != 0, 0x100);
    let s3 = operand(data, s2, ctrl & 0x04 != 0, 0x1_0000);
    operand(data, s3, ctrl & 0x08 != 0, 0x100_0000)
}

/// The size field of a copy instruction: bits 4 to 6 say which of the
/// three size bytes are present, least significant first.
pub open spec fn copy_size_field(data: Seq<u8>, pos: int, ctrl: u8) -> Option<(int, int)> {
    let s0 = Some((0int, pos));
    let s1 = operand(data, s0, ctrl & 0x10 != 0, 0x1);
    let s2 = operand(data, s1, ctrl & 0x20 != 0, 0x100);
    operand(data, s2, ctrl & 0x40 != 0, 0x1_0000)
}

/// The operands of a copy instruction whose control byte is `ctrl` and
/// whose operand bytes start at `pos`: the offset, the size field and the
/// position after the last operand byte; `None` where the data ends first.
pub open spec fn copy_operands(data: Seq<u8>, pos: int, ctrl: u8) -> Option<(int, int, int)> {
    match copy_offset(data, pos, ctrl) {
        None => None,
        Some((offset, p1)) => match copy_size_field(data, p1, ctrl) {
            None => None,
            Some((field, p2)) => Some((offset, field, p2)),
        },
    }
}

/// The number of bytes a copy instruction copies: a size field of zero
/// stands for 0x10000.
pub open spec fn copy_length(field: int) -> int {
    if field == 0 {
        0x1_0000
    } else {
        field
    }
}

/// Runs the instructions of `delta` from `pos` on, appending to `out`.
/// A copy emits `base[offset .. offset + size]`, an insert emits the
/// literal bytes that follow it. `None` on a zero instruction byte, on a
/// copy that leaves the base, and on an instruction cut short.
pub open spec fn run_instructions(base: Seq<u8>, delta: Seq<u8>, pos: int, out: Seq<u8>) -> Option<
    Seq<u8>,
>
    decreases delta.len() - pos,
{
    if pos < 0 || pos >= delta.len() {
        Some(out)
    } else {
        let ctrl = delta[pos];
        if ctrl >= 128 {
            match copy_operands(delta, pos + 1, ctrl) {
                None => None,
                Some((offset, field, next)) => {
                    let size = copy_length(field);
                    if offset + size > base.len() || next <= pos {
                        None
                    } else {
                        run_instructions(
                            base,
                            delta,
                            next,
                            out + base.subrange(offset, offset + size),
                        )
                    }
                },
            }
        } else if ctrl == 0 {
            None
        } else if pos + 1 + ctrl > delta.len() {
            None
        } else {
            run_instructions(
                base,
                delta,
                pos + 1 + ctrl,
                out + delta.subrange(pos + 1, pos + 1 + ctrl),
            )
        }
    }
}

/// The target size that a delta declares: its second leading varint.
pub open spec fn declared_target_size(delta: Seq<u8>) -> Option<int> {
    match varint(delta, 0) {
        None => None,
        Some((_, p1)) => match varint(delta, p1) {
            None => None,
            Some((target, _)) => Some(target),
        },
    }
}

/// The target that `delta` builds from `base`: both size varints are read
/// and passed over, and the instructions are run to the end of the stream.
/// The declared sizes do not enter the result.
pub open spec fn delta_target(base: Seq<u8>, delta: Seq<u8>) -> Option<Seq<u8>> {
    match varint(delta, 0) {
        None => None,
        Some((_, p1)) => match varint(delta, p1) {
            None => None,
            Some((_, p2)) => run_instructions(base, delta, p2, Seq::empty()),
        },
    }
}

/// A delta that declares what it builds: its declared target size is the
/// length of the target that its instructions emit over `base`.
pub open spec fn declares_its_target(base: Seq<u8>, delta: Seq<u8>) -> bool {
    match delta_target(base, delta) {
        None => false,
        Some(out) => declared_target_size(delta) == Some(out.len() as int),
    }
}

/// A parser state as the spec functions see it.
pub open spec fn lift(state: Option<(u64, usize)>) -> Option<(int, int)> {
    match state {
        None => None,
        Some((acc, pos)) => Some((acc as int, pos as int)),
    }
}

/// Reads one optional operand byte of a copy instruction, as [`operand`]
/// describes it.
fn read_operand(data: &[u8], state: Option<(u64, usize)>, present: bool, weight: u64) -> (r: Option<
    (u64, usize),
>)
    requires
        weight <= 0x100_0000,
        state matches Some((acc, pos)) ==> acc < weight,
    ensures
        lift(r) == operand(data@, lift(state), present, weight as int),
        r matches Some((acc, pos)) ==> acc < weight * 256,
        r matches Some((acc, pos)) ==> (state matches Some((_, before)) && before <= pos <= before
            + 1 && (before <= data@.len() ==> pos <= data@.len())),
{
    match state {
        None => None,
        Some((acc, pos)) => {
            if !present {
                state
            } else if pos >= data.len() {
                None
            } else {
                let byte: u64 = data[pos] as u64;
                assert(byte * weight <= 255 * weight) by (nonlinear_arith)
                    requires
                        0 <= byte <= 255,
                        0 <= weight,
                ;
                Some((acc + byte * weight, pos + 1))
            }
        },
    }
}

/// Reads the operands of a copy instruction, as [`copy_operands`]
/// describes them.
#[verifier::rlimit(50)]
fn read_copy_operands(data: &[u8], pos: usize, ctrl: u8) -> (r: Option<(u64, u64, usize)>)
    requires
        pos <= data@.len(),
    ensures
        r matches Some((offset, field, next)) ==> copy_operands(data@, pos as int, ctrl) == Some(
            (offset as int, field as int, next as int),
        ) && pos <= next <= data@.len() && offset < 0x1_0000_0000 && field < 0x100_0000,
        r is None ==> copy_operands(data@, pos as int, ctrl) is None,
{
    let s0: Option<(u64, usize)> = Some((0, pos));
    let s1 = read_operand(data, s0, ctrl & 0x01 != 0, 0x1);
    let s2 = read_operand(data, s1, ctrl & 0x02 != 0, 0x100);
    let s3 = read_operand(data, s2, ctrl & 0x04 != 0, 0x1_0000);
    let s4 = read_operand(data, s3, ctrl & 0x08 != 0, 0x100_0000);
    let (offset, p1): (u64, usize) = match s4 {
        None => { return None; },
        Some(found) => found,
    };
    let t0: Option<(u64, usize)> = Some((0, p1));
    let t1 = read_operand(data, t0, ctrl & 0x10 != 0, 0x1);
    let t2 = read_operand(data, t1, ctrl & 0x20 != 0, 0x100);
    let t3 = read_operand(data, t2, ctrl & 0x40 != 0, 0x1_0000);
    match t3 {
        None => None,
        Some((field, p2)) => Some((offset, field, p2)),
    }
}

/// Rebuilds the target of `delta` over `base`.
///
/// Succeeds exactly on the deltas for which [`delta_target`] is defined,
/// and then returns that target; every other delta is malformed. The two
/// declared sizes are read and not compared with anything.
#[verifier::rlimit(50)]
pub fn apply_delta(base: &[u8], delta: &[u8]) -> (r: Result<Vec<u8>, GitError>)
    ensures
        r matches Ok(out) ==> delta_target(base@, delta@) == Some(out@),
        r matches Err(e) ==> e == GitError::MalformedDelta && delta_target(base@, delta@) is None,
{
    let p1: usize = match read_varint_from(delta, 0, 0, 1) {
        None => { return Err(GitError::MalformedDelta); },
        Some((_, p)) => p,
    };
    let p2: usize = match read_varint_from(delta, p1, 0, 1) {
        None => { return Err(GitError::MalformedDelta); },
        Some((_, p)) => p,
    };
    let mut out: Vec<u8> = Vec::new();
    let mut pos: usize = p2;
    while pos < delta.len()
        invariant
            varint(delta@, 0) matches Some((_, q)) && q == p1,
            varint(delta@, p1 as int) matches Some((_, q)) && q == p2,
            run_instructions(base@, delta@, p2 as int, Seq::empty()) == run_instructions(
                base@,
                delta@,
                pos as int,
                out@,
            ),
        decreases delta@.len() - pos,
    {
        let ctrl: u8 = delta[pos];
        if ctrl >= 128 {
            let (offset, field, next): (u64, u64, usize) = match read_copy_operands(
                delta,
                pos + 1,
                ctrl,
            ) {
                None => { return Err(GitError::MalformedDelta); },
                Some(found) => found,
            };
            let size: u64 = if field == 0 { 0x1_0000 } else { field };
            if offset + size > base.len() as u64 {
                return Err(GitError::MalformedDelta);
            }
            append_range(&mut out, base, offset as usize, (offset + size) as usize);
            pos = next;
        } else if ctrl == 0 {
            return Err(GitError::MalformedDelta);
        } else {
            let count: usize = ctrl as usize;
            if count > delta.len() - pos - 1 {
                return Err(GitError::MalformedDelta);
            }
            append_range(&mut out, delta, pos + 1, pos + 1 + count);
            pos = pos + 1 + count;
        }
    }
    Ok(out)
}

/// The target of a delta that declares what it builds is exactly as long
/// as the size the delta declares.
pub proof fn lemma_target_has_declared_size(base: Seq<u8>, delta: Seq<u8>)
    requires
        declares_its_target(base, delta),
    ensures
        declared_target_size(delta) == Some(delta_target(base, delta).unwrap().len() as int),
{
}

} // verus!
