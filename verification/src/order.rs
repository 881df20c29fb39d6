//! The order of rooms and of texts, and lists in order.
use vstd::prelude::*;
use crate::ids::RoomId;
use crate::text::characters;

verus! {

/// Whether a text comes before another: at the first character where they
/// differ its own is smaller, or the other goes on where it ends.
pub open spec fn text_before(left: Seq<char>, right: Seq<char>) -> bool
    decreases left.len(),
{
    if right.len() == 0 {
        false
    } else if left.len() == 0 {
        true
    } else if left[0] != right[0] {
        (left[0] as int) < (right[0] as int)
    } else {
        text_before(left.skip(1), right.skip(1))
    }
}

/// The order is strict and transitive.
pub proof fn text_order(a: Seq<char>, b: Seq<char>, c: Seq<char>)
    ensures
        !text_before(a, a),
        text_before(a, b) ==> !text_before(b, a),
        text_before(a, b) && text_before(b, c) ==> text_before(a, c),
    decreases a.len(),
{
    if a.len() > 0 {
        text_order(a.skip(1), a.skip(1), Seq::empty());
        if b.len() > 0 {
            text_order(a.skip(1), b.skip(1), if c.len() > 0 {
                c.skip(1)
            } else {
                c
            });
        }
    }
}

/// Texts of which neither comes before the other are the same.
pub proof fn text_order_total(a: Seq<char>, b: Seq<char>)
    requires
        !text_before(a, b),
        !text_before(b, a),
    ensures
        a == b,
    decreases a.len(),
{
    if a.len() > 0 && b.len() > 0 {
        text_order_total(a.skip(1), b.skip(1));
        assert(a =~= seq![a[0]] + a.skip(1));
        assert(b =~= seq![b[0]] + b.skip(1));
    } else {
        assert(a =~= b);
    }
}

fn smaller(left: char, right: char) -> (yes: bool)
    ensures
        yes == ((left as int) < (right as int)),
{
    (left as u32) < (right as u32)
}

/// Whether a text comes before another.
pub fn comes_before(left: &str, right: &str) -> (before: bool)
    ensures
        before == text_before(left@, right@),
{
    let first = characters(left);
    let second = characters(right);
    let mut at: usize = 0;
    assert(first@.skip(0) =~= first@);
    assert(second@.skip(0) =~= second@);
    while at < first.len() && at < second.len()
        invariant
            at <= first@.len(),
            at <= second@.len(),
            first@ == left@,
            second@ == right@,
            text_before(first@, second@) == text_before(
                first@.skip(at as int),
                second@.skip(at as int),
            ),
        decreases first.len() - at,
    {
        let ours: char = first[at];
        let theirs: char = second[at];
        assert(first@.skip(at as int)[0] == ours);
        assert(second@.skip(at as int)[0] == theirs);
        if ours != theirs {
            return smaller(ours, theirs);
        }
        assert(first@.skip(at as int).skip(1) =~= first@.skip(at + 1));
        assert(second@.skip(at as int).skip(1) =~= second@.skip(at + 1));
        at += 1;
    }
    at < second.len()
}

/// Whether rows stand in the order of their texts.
pub open spec fn in_text_order<T>(rows: Seq<(String, T)>) -> bool {
    forall|i: int, j: int|
        0 <= i < j < rows.len() ==> !text_before(
            (#[trigger] rows[j]).0@,
            (#[trigger] rows[i]).0@,
        )
}

/// Puts a row in its place.
pub fn insert_in_order<T>(rows: &mut Vec<(String, T)>, name: String, value: T) -> (place: usize)
    requires
        in_text_order(old(rows)@),
    ensures
        place <= old(rows)@.len(),
        final(rows)@ == old(rows)@.insert(place as int, (name, value)),
        in_text_order(final(rows)@),
{
    let mut at: usize = 0;
    while at < rows.len()
        invariant
            at <= rows@.len(),
            in_text_order(rows@),
            rows@ == old(rows)@,
            forall|i: int| 0 <= i < at ==> !text_before(name@, (#[trigger] rows@[i]).0@),
        ensures
            at <= rows@.len(),
            in_text_order(rows@),
            rows@ == old(rows)@,
            forall|i: int| 0 <= i < at ==> !text_before(name@, (#[trigger] rows@[i]).0@),
            at < rows@.len() ==> text_before(name@, rows@[at as int].0@),
        decreases rows.len() - at,
    {
        if comes_before(name.as_str(), rows[at].0.as_str()) {
            break;
        }
        at += 1;
    }
    let ghost before = rows@;
    rows.insert(at, (name, value));
    proof {
        let after = rows@;
        assert forall|i: int, j: int| 0 <= i < j < after.len() implies !text_before(
            (#[trigger] after[j]).0@,
            (#[trigger] after[i]).0@,
        ) by {
            let left = if i < at { i } else { i - 1 };
            let right = if j < at { j } else { j - 1 };
            if i != at && j != at {
                assert(after[i] == before[left]);
                assert(after[j] == before[right]);
            } else if i == at {
                assert(after[j] == before[right]);
                let next = before[at as int].0@;
                if text_before(after[j].0@, name@) {
                    text_order(after[j].0@, name@, next);
                    if right > at {
                        assert(!text_before(before[right].0@, before[at as int].0@));
                    }
                    text_order(next, next, next);
                }
            } else {
                assert(after[i] == before[i]);
            }
        }
    }
    at
}

/// The number that the first bytes of an identifier write: identifiers are
/// ordered by it.
pub open spec fn prefix_number(bytes: Seq<u8>) -> nat
    decreases bytes.len(),
{
    if bytes.len() == 0 {
        0
    } else {
        prefix_number(bytes.drop_last()) * 256 + bytes.last() as nat
    }
}

/// Where a room stands in the order of rooms.
pub open spec fn room_order(room: RoomId) -> nat {
    prefix_number(room@)
}

proof fn prefix_number_injective(left: Seq<u8>, right: Seq<u8>)
    requires
        left.len() == right.len(),
        prefix_number(left) == prefix_number(right),
    ensures
        left == right,
    decreases left.len(),
{
    if left.len() > 0 {
        assert(prefix_number(left) % 256 == left.last());
        assert(prefix_number(right) % 256 == right.last());
        prefix_number_injective(left.drop_last(), right.drop_last());
        assert(left =~= left.drop_last().push(left.last()));
        assert(right =~= right.drop_last().push(right.last()));
    } else {
        assert(left =~= right);
    }
}

/// No two rooms stand at the same place.
pub proof fn room_order_injective(left: RoomId, right: RoomId)
    requires
        room_order(left) == room_order(right),
    ensures
        left == right,
{
    left.determined_by_bytes();
    right.determined_by_bytes();
    prefix_number_injective(left@, right@);
}

/// The number of an identifier.
pub fn room_number(room: &RoomId) -> (number: u128)
    ensures
        number == room_order(*room),
{
    let bytes = room.to_bytes();
    let ghost all = bytes@;
    let mut number: u128 = 0;
    let mut at: usize = 0;
    assert(all.take(0) =~= Seq::<u8>::empty());
    assert(vstd::arithmetic::power::pow(256, 0) == 1) by {
        reveal(vstd::arithmetic::power::pow);
    }
    while at < 16
        invariant
            at <= 16,
            all == bytes@,
            all.len() == 16,
            number == prefix_number(all.take(at as int)),
            number < vstd::arithmetic::power::pow(256, at as nat),
        decreases 16 - at,
    {
        proof {
            assert(all.take(at + 1).drop_last() =~= all.take(at as int));
            assert(vstd::arithmetic::power::pow(256, (at + 1) as nat) == 256
                * vstd::arithmetic::power::pow(256, at as nat)) by {
                reveal(vstd::arithmetic::power::pow);
            }
            assert(vstd::arithmetic::power::pow(256, 15) == 0x1000000000000000000000000000000) by {
                reveal_with_fuel(vstd::arithmetic::power::pow, 16);
            }
            vstd::arithmetic::power::lemma_pow_increases(256, at as nat, 15);
        }
        number = number * 256 + bytes[at] as u128;
        at += 1;
    }
    assert(all.take(at as int) =~= all);
    number
}

} // verus!
