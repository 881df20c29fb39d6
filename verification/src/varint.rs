//! Variable-length integers as the wire carries them.
use vstd::prelude::*;

verus! {

/// Why a byte string is not a message.
#[derive(Clone, Copy, Debug, PartialEq, Eq, Structural)]
pub enum WireError {
    /// The encoding would not fit the payload limit.
    BufferFull,
    /// The bytes ended inside a value.
    UnexpectedEnd,
    /// An integer did not end, or does not fit its type.
    BadVarint,
    /// A flag byte was neither zero nor one.
    BadBool,
    /// A presence byte was neither zero nor one.
    BadOption,
    /// A text was not UTF-8.
    BadUtf8,
    /// An unknown tag, or a collection over its limit.
    Rejected,
}

/// The bytes of an unsigned integer: seven bits a byte, the lowest first, with
/// the top bit set on every byte but the last.
pub open spec fn varint(value: nat) -> Seq<u8>
    decreases value,
{
    if value < 128 {
        seq![value as u8]
    } else {
        seq![(value % 128 + 128) as u8] + varint(value / 128)
    }
}

/// Reads an integer of at most `groups` bytes whose last possible byte is at
/// most `last`. The result is the value and how many bytes it took.
pub open spec fn take_varint(bytes: Seq<u8>, groups: nat, last: nat) -> Result<(
    nat,
    nat,
), WireError>
    decreases groups,
{
    if groups == 0 {
        Err(WireError::BadVarint)
    } else if bytes.len() == 0 {
        Err(WireError::UnexpectedEnd)
    } else if bytes[0] < 128 {
        if groups == 1 && bytes[0] > last {
            Err(WireError::BadVarint)
        } else {
            Ok((bytes[0] as nat, 1))
        }
    } else {
        match take_varint(bytes.skip(1), (groups - 1) as nat, last) {
            Ok((value, used)) => Ok(((bytes[0] - 128 + 128 * value) as nat, used + 1)),
            Err(error) => Err(error),
        }
    }
}

/// One more than the largest integer that `take_varint` can give.
pub open spec fn varint_capacity(groups: nat, last: nat) -> nat
    decreases groups,
{
    if groups <= 1 {
        last + 1
    } else {
        128 * varint_capacity((groups - 1) as nat, last)
    }
}

/// Reading back what was written gives the value, whatever bytes follow.
pub proof fn varint_round_trip(value: nat, groups: nat, last: nat, rest: Seq<u8>)
    requires
        groups >= 1,
        last < 128,
        value < varint_capacity(groups, last),
    ensures
        take_varint(varint(value) + rest, groups, last) == Ok::<(nat, nat), WireError>(
            (value, varint(value).len()),
        ),
    decreases groups,
{
    let all = varint(value) + rest;
    if value < 128 {
        assert(all[0] == value as u8);
    } else {
        assert(groups > 1);
        assert(all[0] == (value % 128 + 128) as u8);
        assert(all.skip(1) =~= varint(value / 128) + rest);
        varint_round_trip(value / 128, (groups - 1) as nat, last, rest);
    }
}

/// What was read lies within the bytes.
pub proof fn take_varint_bounds(bytes: Seq<u8>, groups: nat, last: nat)
    requires
        last < 128,
    ensures
        match take_varint(bytes, groups, last) {
            Ok((value, used)) => 1 <= used <= bytes.len() && value < varint_capacity(groups, last),
            Err(_) => true,
        },
    decreases groups,
{
    if groups > 0 && bytes.len() > 0 && bytes[0] >= 128 {
        take_varint_bounds(bytes.skip(1), (groups - 1) as nat, last);
    }
    if groups > 1 {
        capacity_positive((groups - 1) as nat, last);
    }
}

proof fn capacity_positive(groups: nat, last: nat)
    ensures
        varint_capacity(groups, last) >= 1,
    decreases groups,
{
    if groups > 1 {
        capacity_positive((groups - 1) as nat, last);
    }
}

/// How many bytes an integer takes.
pub fn varint_length(value: u64) -> (length: usize)
    ensures
        length == varint(value as nat).len(),
    decreases value,
{
    proof {
        crate::sizes::u64_size(value);
    }
    if value < 128 {
        1
    } else {
        1 + varint_length(value / 128)
    }
}

} // verus!
