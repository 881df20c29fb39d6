//! The wire format: every record is a function of its value to bytes and back.
use vstd::prelude::*;
use crate::varint::{take_varint, varint, WireError};

verus! {

/// A value that travels in messages.
///
/// `encoded` is its only encoding. `parsed` reads one value from the front of
/// a byte string and says how many bytes it took. A `bounded` value stays
/// within the limits that reading enforces.
pub trait Wire: DeepView + Sized {
    spec fn encoded(value: Self::V) -> Seq<u8>;

    spec fn parsed(bytes: Seq<u8>) -> Result<(Self::V, nat), WireError>;

    spec fn bounded(value: Self::V) -> bool;

    /// Reading the encoding of a bounded value gives the value back.
    proof fn round_trip(value: Self::V, rest: Seq<u8>)
        requires
            Self::bounded(value),
        ensures
            Self::parsed(Self::encoded(value) + rest) == Ok::<(Self::V, nat), WireError>(
                (value, Self::encoded(value).len()),
            ),
    ;

    /// Whatever is read is bounded and lies within the bytes.
    proof fn parsed_within(bytes: Seq<u8>)
        ensures
            Self::parsed(bytes) matches Ok((value, used)) ==> 1 <= used <= bytes.len()
                && Self::bounded(value),
    ;

    /// Appends the encoding.
    fn put(&self, out: &mut Vec<u8>)
        ensures
            final(out)@ == old(out)@ + Self::encoded(self.deep_view()),
    ;

    /// Reads one value from the front.
    fn read<'a>(input: &'a [u8]) -> (result: Result<(Self, &'a [u8]), WireError>)
        ensures
            match Self::parsed(input@) {
                Ok((value, used)) => result matches Ok((got, rest)) && got.deep_view() == value
                    && rest@ == input@.skip(used as int),
                Err(error) => result matches Err(got) && got == error,
            },
    ;
}

/// A record behind a tag byte: what `fields` read, one byte further.
pub open spec fn tagged<A, B>(fields: Result<(A, nat), WireError>, make: spec_fn(A) -> B) -> Result<
    (B, nat),
    WireError,
> {
    match fields {
        Ok((value, used)) => Ok((make(value), used + 1)),
        Err(error) => Err(error),
    }
}

/// Bytes behind a tag byte and then some are bytes behind one more.
pub proof fn skip_behind_tag(bytes: Seq<u8>, used: nat)
    requires
        used + 1 <= bytes.len(),
    ensures
        bytes.skip(1).skip(used as int) == bytes.skip((used + 1) as int),
{
    assert(bytes.skip(1).skip(used as int) =~= bytes.skip((used + 1) as int));
}

/// What follows a tag byte.
pub proof fn behind_tag(tag: u8, fields: Seq<u8>, rest: Seq<u8>)
    ensures
        (seq![tag] + fields + rest)[0] == tag,
        (seq![tag] + fields + rest).skip(1) == fields + rest,
{
    assert((seq![tag] + fields + rest).skip(1) =~= fields + rest);
}

/// Encodes an unsigned integer with `postcard::to_allocvec`. What is trusted:
/// the bytes are the seven-bit groups of `varint`, and the growing vector never
/// refuses them.
#[verifier::external_body]
fn postcard_integer(value: u64) -> (bytes: Vec<u8>)
    ensures
        bytes@ == varint(value as nat),
{
    postcard::to_allocvec(&value).expect("a growing vector takes every byte")
}

/// Reads a `u16` with `postcard::take_from_bytes`. What is trusted: it reads at
/// most three groups, the third at most three, and returns what follows them.
#[verifier::external_body]
fn postcard_take_u16<'a>(input: &'a [u8]) -> (result: Result<(u16, &'a [u8]), WireError>)
    ensures
        match take_varint(input@, 3, 3) {
            Ok((value, used)) => result matches Ok((got, rest)) && got == value && rest@
                == input@.skip(used as int),
            Err(error) => result matches Err(got) && got == error,
        },
{
    match postcard::take_from_bytes::<u16>(input) {
        Ok(taken) => Ok(taken),
        Err(postcard::Error::DeserializeUnexpectedEnd) => Err(WireError::UnexpectedEnd),
        Err(_) => Err(WireError::BadVarint),
    }
}

/// Reads a `u32` with `postcard::take_from_bytes`. What is trusted: it reads at
/// most five groups, the fifth at most fifteen, and returns what follows them.
#[verifier::external_body]
fn postcard_take_u32<'a>(input: &'a [u8]) -> (result: Result<(u32, &'a [u8]), WireError>)
    ensures
        match take_varint(input@, 5, 15) {
            Ok((value, used)) => result matches Ok((got, rest)) && got == value && rest@
                == input@.skip(used as int),
            Err(error) => result matches Err(got) && got == error,
        },
{
    match postcard::take_from_bytes::<u32>(input) {
        Ok(taken) => Ok(taken),
        Err(postcard::Error::DeserializeUnexpectedEnd) => Err(WireError::UnexpectedEnd),
        Err(_) => Err(WireError::BadVarint),
    }
}

/// Reads a `u64` with `postcard::take_from_bytes`. What is trusted: it reads at
/// most ten groups, the tenth at most one, and returns what follows them.
#[verifier::external_body]
fn postcard_take_u64<'a>(input: &'a [u8]) -> (result: Result<(u64, &'a [u8]), WireError>)
    ensures
        match take_varint(input@, 10, 1) {
            Ok((value, used)) => result matches Ok((got, rest)) && got == value && rest@
                == input@.skip(used as int),
            Err(error) => result matches Err(got) && got == error,
        },
{
    match postcard::take_from_bytes::<u64>(input) {
        Ok(taken) => Ok(taken),
        Err(postcard::Error::DeserializeUnexpectedEnd) => Err(WireError::UnexpectedEnd),
        Err(_) => Err(WireError::BadVarint),
    }
}

/// A length or a counter: the wire carries both as 64-bit integers.
pub fn put_u64(value: u64, out: &mut Vec<u8>)
    ensures
        final(out)@ == old(out)@ + varint(value as nat),
{
    let mut bytes = postcard_integer(value);
    out.append(&mut bytes);
}

pub(crate) proof fn capacities()
    ensures
        crate::varint::varint_capacity(3, 3) == 0x1_0000,
        crate::varint::varint_capacity(5, 15) == 0x1_0000_0000,
        crate::varint::varint_capacity(10, 1) == 0x1_0000_0000_0000_0000,
{
    reveal_with_fuel(crate::varint::varint_capacity, 11);
}

impl Wire for u8 {
    open spec fn encoded(value: u8) -> Seq<u8> {
        seq![value]
    }

    open spec fn parsed(bytes: Seq<u8>) -> Result<(u8, nat), WireError> {
        if bytes.len() == 0 {
            Err(WireError::UnexpectedEnd)
        } else {
            Ok((bytes[0], 1))
        }
    }

    open spec fn bounded(value: u8) -> bool {
        true
    }

    proof fn round_trip(value: u8, rest: Seq<u8>) {
    }

    proof fn parsed_within(bytes: Seq<u8>) {
    }

    fn put(&self, out: &mut Vec<u8>) {
        out.push(*self);
        assert(u8::encoded(self.deep_view()) == seq![*self]);
        assert(out@ =~= old(out)@ + seq![*self]);
    }

    fn read<'a>(input: &'a [u8]) -> (result: Result<(Self, &'a [u8]), WireError>) {
        if input.len() == 0 {
            return Err(WireError::UnexpectedEnd);
        }
        let (first, rest) = input.split_at(1);
        assert(rest@ =~= input@.skip(1));
        Ok((first[0], rest))
    }
}

impl Wire for u16 {
    open spec fn encoded(value: u16) -> Seq<u8> {
        varint(value as nat)
    }

    open spec fn parsed(bytes: Seq<u8>) -> Result<(u16, nat), WireError> {
        match take_varint(bytes, 3, 3) {
            Ok((value, used)) => Ok((value as u16, used)),
            Err(error) => Err(error),
        }
    }

    open spec fn bounded(value: u16) -> bool {
        true
    }

    proof fn round_trip(value: u16, rest: Seq<u8>) {
        capacities();
        crate::varint::varint_round_trip(value as nat, 3, 3, rest);
    }

    proof fn parsed_within(bytes: Seq<u8>) {
        crate::varint::take_varint_bounds(bytes, 3, 3);
    }

    fn put(&self, out: &mut Vec<u8>) {
        put_u64(*self as u64, out)
    }

    fn read<'a>(input: &'a [u8]) -> (result: Result<(Self, &'a [u8]), WireError>) {
        postcard_take_u16(input)
    }
}

impl Wire for u32 {
    open spec fn encoded(value: u32) -> Seq<u8> {
        varint(value as nat)
    }

    open spec fn parsed(bytes: Seq<u8>) -> Result<(u32, nat), WireError> {
        match take_varint(bytes, 5, 15) {
            Ok((value, used)) => Ok((value as u32, used)),
            Err(error) => Err(error),
        }
    }

    open spec fn bounded(value: u32) -> bool {
        true
    }

    proof fn round_trip(value: u32, rest: Seq<u8>) {
        capacities();
        crate::varint::varint_round_trip(value as nat, 5, 15, rest);
    }

    proof fn parsed_within(bytes: Seq<u8>) {
        crate::varint::take_varint_bounds(bytes, 5, 15);
    }

    fn put(&self, out: &mut Vec<u8>) {
        put_u64(*self as u64, out)
    }

    fn read<'a>(input: &'a [u8]) -> (result: Result<(Self, &'a [u8]), WireError>) {
        postcard_take_u32(input)
    }
}

impl Wire for u64 {
    open spec fn encoded(value: u64) -> Seq<u8> {
        varint(value as nat)
    }

    open spec fn parsed(bytes: Seq<u8>) -> Result<(u64, nat), WireError> {
        match take_varint(bytes, 10, 1) {
            Ok((value, used)) => Ok((value as u64, used)),
            Err(error) => Err(error),
        }
    }

    open spec fn bounded(value: u64) -> bool {
        true
    }

    proof fn round_trip(value: u64, rest: Seq<u8>) {
        capacities();
        crate::varint::varint_round_trip(value as nat, 10, 1, rest);
    }

    proof fn parsed_within(bytes: Seq<u8>) {
        crate::varint::take_varint_bounds(bytes, 10, 1);
    }

    fn put(&self, out: &mut Vec<u8>) {
        put_u64(*self, out)
    }

    fn read<'a>(input: &'a [u8]) -> (result: Result<(Self, &'a [u8]), WireError>) {
        postcard_take_u64(input)
    }
}

impl Wire for bool {
    open spec fn encoded(value: bool) -> Seq<u8> {
        seq![if value { 1u8 } else { 0u8 }]
    }

    open spec fn parsed(bytes: Seq<u8>) -> Result<(bool, nat), WireError> {
        if bytes.len() == 0 {
            Err(WireError::UnexpectedEnd)
        } else if bytes[0] > 1 {
            Err(WireError::BadBool)
        } else {
            Ok((bytes[0] == 1, 1))
        }
    }

    open spec fn bounded(value: bool) -> bool {
        true
    }

    proof fn round_trip(value: bool, rest: Seq<u8>) {
    }

    proof fn parsed_within(bytes: Seq<u8>) {
    }

    fn put(&self, out: &mut Vec<u8>) {
        let flag: u8 = if *self {
            1
        } else {
            0
        };
        flag.put(out)
    }

    fn read<'a>(input: &'a [u8]) -> (result: Result<(Self, &'a [u8]), WireError>) {
        let (flag, rest) = match u8::read(input) {
            Ok(taken) => taken,
            Err(error) => return Err(error),
        };
        if flag > 1 {
            return Err(WireError::BadBool);
        }
        Ok((flag == 1, rest))
    }
}

impl<T: Wire> Wire for Option<T> {
    open spec fn encoded(value: Option<T::V>) -> Seq<u8> {
        match value {
            None => seq![0u8],
            Some(inner) => seq![1u8] + T::encoded(inner),
        }
    }

    open spec fn parsed(bytes: Seq<u8>) -> Result<(Option<T::V>, nat), WireError> {
        if bytes.len() == 0 {
            Err(WireError::UnexpectedEnd)
        } else if bytes[0] == 0 {
            Ok((None, 1))
        } else if bytes[0] == 1 {
            match T::parsed(bytes.skip(1)) {
                Ok((value, used)) => Ok((Some(value), used + 1)),
                Err(error) => Err(error),
            }
        } else {
            Err(WireError::BadOption)
        }
    }

    open spec fn bounded(value: Option<T::V>) -> bool {
        value matches Some(inner) ==> T::bounded(inner)
    }

    proof fn round_trip(value: Option<T::V>, rest: Seq<u8>) {
        if let Some(inner) = value {
            T::round_trip(inner, rest);
            assert((seq![1u8] + T::encoded(inner) + rest).skip(1) =~= T::encoded(inner) + rest);
        }
    }

    proof fn parsed_within(bytes: Seq<u8>) {
        if bytes.len() > 0 {
            T::parsed_within(bytes.skip(1));
        }
    }

    fn put(&self, out: &mut Vec<u8>) {
        match self {
            None => {
                0u8.put(out);
            },
            Some(inner) => {
                1u8.put(out);
                inner.put(out);
                assert(out@ =~= old(out)@ + (seq![1u8] + T::encoded(inner.deep_view())));
            },
        }
    }

    fn read<'a>(input: &'a [u8]) -> (result: Result<(Self, &'a [u8]), WireError>) {
        let (presence, rest) = match u8::read(input) {
            Ok(taken) => taken,
            Err(error) => return Err(error),
        };
        if presence == 0 {
            return Ok((None, rest));
        }
        if presence != 1 {
            return Err(WireError::BadOption);
        }
        let (inner, end) = match T::read(rest) {
            Ok(taken) => taken,
            Err(error) => return Err(error),
        };
        proof {
            T::parsed_within(rest@);
            assert(input@.skip(1).skip(T::parsed(rest@)->Ok_0.1 as int) =~= input@.skip(
                T::parsed(rest@)->Ok_0.1 as int + 1,
            ));
        }
        Ok((Some(inner), end))
    }
}

impl<A: Wire, B: Wire> Wire for (A, B) {
    open spec fn encoded(value: (A::V, B::V)) -> Seq<u8> {
        A::encoded(value.0) + B::encoded(value.1)
    }

    open spec fn parsed(bytes: Seq<u8>) -> Result<((A::V, B::V), nat), WireError> {
        match A::parsed(bytes) {
            Ok((first, used)) => match B::parsed(bytes.skip(used as int)) {
                Ok((second, more)) => Ok(((first, second), used + more)),
                Err(error) => Err(error),
            },
            Err(error) => Err(error),
        }
    }

    open spec fn bounded(value: (A::V, B::V)) -> bool {
        A::bounded(value.0) && B::bounded(value.1)
    }

    proof fn round_trip(value: (A::V, B::V), rest: Seq<u8>) {
        let all = A::encoded(value.0) + B::encoded(value.1) + rest;
        let tail = B::encoded(value.1) + rest;
        assert(all =~= A::encoded(value.0) + tail);
        A::round_trip(value.0, tail);
        assert(all.skip(A::encoded(value.0).len() as int) =~= tail);
        B::round_trip(value.1, rest);
    }

    proof fn parsed_within(bytes: Seq<u8>) {
        A::parsed_within(bytes);
        if let Ok((_, used)) = A::parsed(bytes) {
            B::parsed_within(bytes.skip(used as int));
        }
    }

    fn put(&self, out: &mut Vec<u8>) {
        self.0.put(out);
        self.1.put(out);
        assert(out@ =~= old(out)@ + (A::encoded(self.0.deep_view()) + B::encoded(
            self.1.deep_view(),
        )));
    }

    fn read<'a>(input: &'a [u8]) -> (result: Result<(Self, &'a [u8]), WireError>) {
        let (first, rest) = match A::read(input) {
            Ok(taken) => taken,
            Err(error) => return Err(error),
        };
        let (second, end) = match B::read(rest) {
            Ok(taken) => taken,
            Err(error) => return Err(error),
        };
        proof {
            A::parsed_within(input@);
            B::parsed_within(rest@);
            let used = A::parsed(input@)->Ok_0.1;
            let more = B::parsed(rest@)->Ok_0.1;
            assert(
                input@.skip(used as int).skip(more as int) =~= input@.skip((used + more) as int)
            );
        }
        Ok(((first, second), end))
    }
}

} // verus!
