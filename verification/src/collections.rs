//! Byte arrays, bounded lists and bounded names on the wire.
use vstd::prelude::*;
use vstd::utf8::{decode_utf8, encode_utf8, valid_utf8};
use crate::bytes::{array_of_view, to_array};
use crate::varint::{take_varint, varint, WireError};
use crate::wire::{put_u64, Wire};

verus! {

impl<const N: usize> Wire for [u8; N] {
    open spec fn encoded(value: Seq<u8>) -> Seq<u8> {
        value
    }

    open spec fn parsed(bytes: Seq<u8>) -> Result<(Seq<u8>, nat), WireError> {
        if bytes.len() < N || N == 0 {
            Err(WireError::UnexpectedEnd)
        } else {
            Ok((bytes.take(N as int), N as nat))
        }
    }

    open spec fn bounded(value: Seq<u8>) -> bool {
        value.len() == N && N > 0
    }

    proof fn round_trip(value: Seq<u8>, rest: Seq<u8>) {
        assert((value + rest).take(N as int) =~= value);
    }

    proof fn parsed_within(bytes: Seq<u8>) {
    }

    fn put(&self, out: &mut Vec<u8>) {
        proof {
            array_of_view(*self);
        }
        out.extend_from_slice(self.as_slice());
    }

    fn read<'a>(input: &'a [u8]) -> (result: Result<(Self, &'a [u8]), WireError>) {
        if input.len() < N || N == 0 {
            assert(Self::parsed(input@) == Err::<(Seq<u8>, nat), WireError>(
                WireError::UnexpectedEnd,
            ));
            return Err(WireError::UnexpectedEnd);
        }
        let (first, rest) = input.split_at(N);
        assert(Self::parsed(input@) == Ok::<(Seq<u8>, nat), WireError>(
            (input@.take(N as int), N as nat),
        ));
        let array: [u8; N] = to_array(first);
        proof {
            array_of_view(array);
            assert(first@ =~= input@.take(N as int));
            assert(rest@ =~= input@.skip(N as int));
        }
        Ok((array, rest))
    }
}

/// A list that is read only up to `N` items.
pub struct Limited<T, const N: usize>(pub Vec<T>);

impl<T: DeepView, const N: usize> DeepView for Limited<T, N> {
    type V = Seq<T::V>;

    open spec fn deep_view(&self) -> Seq<T::V> {
        self.0.deep_view()
    }
}

/// The encodings of the items, one after the other.
pub open spec fn items_encoded<T: Wire>(items: Seq<T::V>) -> Seq<u8>
    decreases items.len(),
{
    if items.len() == 0 {
        Seq::empty()
    } else {
        T::encoded(items[0]) + items_encoded::<T>(items.skip(1))
    }
}

/// Reads `count` more items behind `items`, which began `used` bytes earlier.
pub open spec fn items_parsed<T: Wire>(
    bytes: Seq<u8>,
    count: nat,
    limit: nat,
    items: Seq<T::V>,
    used: nat,
) -> Result<(Seq<T::V>, nat), WireError>
    decreases count,
{
    if count == 0 {
        Ok((items, used))
    } else {
        match T::parsed(bytes) {
            Ok((item, more)) => if items.len() >= limit {
                Err(WireError::Rejected)
            } else {
                items_parsed::<T>(
                    bytes.skip(more as int),
                    (count - 1) as nat,
                    limit,
                    items.push(item),
                    used + more,
                )
            },
            Err(error) => Err(error),
        }
    }
}

/// A list as it is read: its length, then so many items. A length over the
/// limit is refused at once where so many bytes are there to be read.
pub open spec fn list_parsed<T: Wire>(bytes: Seq<u8>, limit: nat) -> Result<
    (Seq<T::V>, nat),
    WireError,
> {
    match take_varint(bytes, 10, 1) {
        Ok((length, used)) => if length <= bytes.len() - used && length > limit {
            Err(WireError::Rejected)
        } else {
            items_parsed::<T>(bytes.skip(used as int), length, limit, Seq::empty(), used)
        },
        Err(error) => Err(error),
    }
}

/// A list as it is written: its length, then the items.
pub open spec fn list_encoded<T: Wire>(items: Seq<T::V>) -> Seq<u8> {
    varint(items.len()) + items_encoded::<T>(items)
}

proof fn items_round_trip<T: Wire>(
    done: Seq<T::V>,
    items: Seq<T::V>,
    limit: nat,
    used: nat,
    rest: Seq<u8>,
)
    requires
        done.len() + items.len() <= limit,
        forall|i: int| 0 <= i < items.len() ==> T::bounded(#[trigger] items[i]),
    ensures
        items_parsed::<T>(items_encoded::<T>(items) + rest, items.len(), limit, done, used) == Ok::<
            (Seq<T::V>, nat),
            WireError,
        >((done + items, used + items_encoded::<T>(items).len())),
    decreases items.len(),
{
    let all = items_encoded::<T>(items) + rest;
    if items.len() == 0 {
        assert(done + items =~= done);
    } else {
        let tail = items.skip(1);
        let first = T::encoded(items[0]);
        assert(all =~= first + (items_encoded::<T>(tail) + rest));
        T::round_trip(items[0], items_encoded::<T>(tail) + rest);
        assert(all.skip(first.len() as int) =~= items_encoded::<T>(tail) + rest);
        assert forall|i: int| 0 <= i < tail.len() implies T::bounded(#[trigger] tail[i]) by {
            assert(tail[i] == items[i + 1]);
        }
        items_round_trip::<T>(done.push(items[0]), tail, limit, used + first.len(), rest);
        assert(done.push(items[0]) + tail =~= done + items);
    }
}

proof fn items_within<T: Wire>(
    bytes: Seq<u8>,
    count: nat,
    limit: nat,
    items: Seq<T::V>,
    used: nat,
)
    requires
        items.len() <= limit,
        forall|i: int| 0 <= i < items.len() ==> T::bounded(#[trigger] items[i]),
    ensures
        items_parsed::<T>(bytes, count, limit, items, used) matches Ok((all, end)) ==> {
            &&& all.len() == items.len() + count <= limit
            &&& used <= end <= used + bytes.len()
            &&& forall|i: int| 0 <= i < all.len() ==> T::bounded(#[trigger] all[i])
        },
    decreases count,
{
    if count > 0 {
        T::parsed_within(bytes);
        if let Ok((item, more)) = T::parsed(bytes) {
            if items.len() < limit {
                items_within::<T>(
                    bytes.skip(more as int),
                    (count - 1) as nat,
                    limit,
                    items.push(item),
                    used + more,
                );
            }
        }
    }
}

/// Appends a list.
pub fn put_list<T: Wire>(items: &Vec<T>, out: &mut Vec<u8>)
    ensures
        final(out)@ == old(out)@ + list_encoded::<T>(items.deep_view()),
{
    let ghost values = items.deep_view();
    let ghost before = out@;
    put_u64(items.len() as u64, out);
    let mut at: usize = 0;
    assert(values.skip(0) =~= values);
    assert(before + varint(values.len()) + items_encoded::<T>(values) =~= before
        + list_encoded::<T>(values));
    while at < items.len()
        invariant
            at <= items.len(),
            values == items.deep_view(),
            out@ + items_encoded::<T>(values.skip(at as int)) == before + list_encoded::<T>(values),
        decreases items.len() - at,
    {
        let ghost written = out@;
        items[at].put(out);
        proof {
            let tail = values.skip(at as int);
            assert(tail[0] == items@[at as int].deep_view());
            assert(tail.skip(1) =~= values.skip(at + 1));
            assert(written + (T::encoded(tail[0]) + items_encoded::<T>(tail.skip(1))) =~= written
                + T::encoded(tail[0]) + items_encoded::<T>(tail.skip(1)));
        }
        at += 1;
    }
    assert(out@ + items_encoded::<T>(values.skip(at as int)) =~= out@);
}

impl<T: Wire, const N: usize> Wire for Limited<T, N> {
    open spec fn encoded(value: Seq<T::V>) -> Seq<u8> {
        list_encoded::<T>(value)
    }

    open spec fn parsed(bytes: Seq<u8>) -> Result<(Seq<T::V>, nat), WireError> {
        list_parsed::<T>(bytes, N as nat)
    }

    open spec fn bounded(value: Seq<T::V>) -> bool {
        value.len() <= N && forall|i: int|
            0 <= i < value.len() ==> T::bounded(#[trigger] value[i])
    }

    proof fn round_trip(value: Seq<T::V>, rest: Seq<u8>) {
        let length = varint(value.len());
        let tail = items_encoded::<T>(value) + rest;
        assert(list_encoded::<T>(value) + rest =~= length + tail);
        crate::wire::capacities();
        crate::varint::varint_round_trip(value.len(), 10, 1, tail);
        assert((length + tail).skip(length.len() as int) =~= tail);
        items_round_trip::<T>(Seq::empty(), value, N as nat, length.len(), rest);
        assert(Seq::<T::V>::empty() + value =~= value);
        crate::varint::take_varint_bounds(length + tail, 10, 1);
    }

    proof fn parsed_within(bytes: Seq<u8>) {
        crate::varint::take_varint_bounds(bytes, 10, 1);
        if let Ok((length, used)) = take_varint(bytes, 10, 1) {
            items_within::<T>(bytes.skip(used as int), length, N as nat, Seq::empty(), used);
        }
    }

    fn put(&self, out: &mut Vec<u8>) {
        put_list(&self.0, out)
    }

    fn read<'a>(input: &'a [u8]) -> (result: Result<(Self, &'a [u8]), WireError>) {
        let (length, start) = match u64::read(input) {
            Ok(taken) => taken,
            Err(error) => return Err(error),
        };
        let ghost used = take_varint(input@, 10, 1)->Ok_0.1;
        proof {
            crate::varint::take_varint_bounds(input@, 10, 1);
            crate::wire::capacities();
        }
        if length <= start.len() as u64 && length > N as u64 {
            return Err(WireError::Rejected);
        }
        let mut items: Vec<T> = Vec::new();
        let mut left = length;
        let mut rest = start;
        let ghost mut done = used;
        assert(items.deep_view() =~= Seq::<T::V>::empty());
        while left > 0
            invariant
                items@.len() <= N,
                rest@ == input@.skip(done as int),
                done <= input@.len(),
                list_parsed::<T>(input@, N as nat) == items_parsed::<T>(
                    rest@,
                    left as nat,
                    N as nat,
                    items.deep_view(),
                    done,
                ),
            decreases left,
        {
            let ghost before = rest@;
            let ghost shown = items.deep_view();
            let (item, tail) = match T::read(rest) {
                Ok(taken) => taken,
                Err(error) => return Err(error),
            };
            if items.len() == N {
                return Err(WireError::Rejected);
            }
            items.push(item);
            left -= 1;
            rest = tail;
            proof {
                T::parsed_within(before);
                let more = T::parsed(before)->Ok_0.1;
                assert(items.deep_view() =~= shown.push(item.deep_view()));
                assert(rest@ =~= input@.skip((done + more) as int));
                done = done + more;
            }
        }
        Ok((Limited(items), rest))
    }
}

/// The text whose UTF-8 encoding `bytes` is, by `String::from_utf8`. What is
/// trusted: it succeeds exactly on well-formed UTF-8, and the text is what the
/// bytes encode.
#[verifier::external_body]
pub(crate) fn text_of_utf8(bytes: Vec<u8>) -> (text: Option<String>)
    ensures
        match text {
            Some(got) => valid_utf8(bytes@) && got@ == decode_utf8(bytes@),
            None => !valid_utf8(bytes@),
        },
{
    String::from_utf8(bytes).ok()
}

/// The longest room name in bytes that a message may carry.
pub const MAX_NAME_BYTES: usize = 400;

/// A room name as messages carry it.
pub struct Name(pub String);

impl DeepView for Name {
    type V = Seq<char>;

    open spec fn deep_view(&self) -> Seq<char> {
        self.0@
    }
}

/// Appends a text: its length in bytes, then its UTF-8 encoding.
pub fn put_text(text: &String, out: &mut Vec<u8>)
    ensures
        final(out)@ == old(out)@ + Name::encoded(text@),
{
    let bytes = text.as_str().as_bytes();
    put_u64(bytes.len() as u64, out);
    out.extend_from_slice(bytes);
    assert(out@ =~= old(out)@ + (varint(bytes@.len()) + bytes@));
}

impl Wire for Name {
    open spec fn encoded(value: Seq<char>) -> Seq<u8> {
        varint(encode_utf8(value).len()) + encode_utf8(value)
    }

    open spec fn parsed(bytes: Seq<u8>) -> Result<(Seq<char>, nat), WireError> {
        match take_varint(bytes, 10, 1) {
            Ok((length, used)) => if bytes.len() - used < length {
                Err(WireError::UnexpectedEnd)
            } else {
                let text = bytes.subrange(used as int, (used + length) as int);
                if !valid_utf8(text) {
                    Err(WireError::BadUtf8)
                } else if length > MAX_NAME_BYTES {
                    Err(WireError::Rejected)
                } else {
                    Ok((decode_utf8(text), used + length))
                }
            },
            Err(error) => Err(error),
        }
    }

    open spec fn bounded(value: Seq<char>) -> bool {
        encode_utf8(value).len() <= MAX_NAME_BYTES
    }

    proof fn round_trip(value: Seq<char>, rest: Seq<u8>) {
        let text = encode_utf8(value);
        let length = varint(text.len());
        let all = length + text + rest;
        assert(all =~= length + (text + rest));
        crate::wire::capacities();
        crate::varint::varint_round_trip(text.len(), 10, 1, text + rest);
        assert(all.subrange(length.len() as int, (length.len() + text.len()) as int) =~= text);
        vstd::utf8::encode_utf8_valid_utf8(value);
        vstd::utf8::encode_utf8_decode_utf8(value);
        crate::varint::take_varint_bounds(all, 10, 1);
    }

    proof fn parsed_within(bytes: Seq<u8>) {
        crate::varint::take_varint_bounds(bytes, 10, 1);
        if let Ok((length, used)) = take_varint(bytes, 10, 1) {
            if length <= bytes.len() - used {
                let text = bytes.subrange(used as int, (used + length) as int);
                if valid_utf8(text) {
                    vstd::utf8::decode_utf8_encode_utf8(text);
                }
            }
        }
    }

    fn put(&self, out: &mut Vec<u8>) {
        put_text(&self.0, out)
    }

    fn read<'a>(input: &'a [u8]) -> (result: Result<(Self, &'a [u8]), WireError>) {
        let (length, start) = match u64::read(input) {
            Ok(taken) => taken,
            Err(error) => return Err(error),
        };
        proof {
            crate::varint::take_varint_bounds(input@, 10, 1);
            crate::wire::capacities();
        }
        if (start.len() as u64) < length {
            return Err(WireError::UnexpectedEnd);
        }
        let (raw, rest) = start.split_at(length as usize);
        let ghost used = take_varint(input@, 10, 1)->Ok_0.1;
        assert(raw@ =~= input@.subrange(used as int, (used + length) as int));
        assert(rest@ =~= input@.skip((used + length) as int));
        match text_of_utf8(vstd::slice::slice_to_vec(raw)) {
            Some(text) => if raw.len() > MAX_NAME_BYTES {
                Err(WireError::Rejected)
            } else {
                Ok((Name(text), rest))
            },
            None => Err(WireError::BadUtf8),
        }
    }
}

} // verus!
