//! The byte layout of what is signed.
//!
//! A signed payload is a context string followed by fields. Each field is its length, as four
//! bytes with the most significant first, and then its bytes. The context says what kind of
//! statement the payload is; the lengths keep neighbouring fields apart.

use vstd::prelude::*;

verus! {

/// The low 32 bits of `n`, most significant byte first.
pub open spec fn be32(n: nat) -> Seq<u8> {
    seq![
        (n / 0x100_0000 % 0x100) as u8,
        (n / 0x1_0000 % 0x100) as u8,
        (n / 0x100 % 0x100) as u8,
        (n % 0x100) as u8,
    ]
}

/// The low 64 bits of `n`, most significant byte first.
pub open spec fn be64(n: nat) -> Seq<u8> {
    be32(n / 0x1_0000_0000) + be32(n)
}

/// The number whose binary digits are those of `x` in two's complement.
pub open spec fn twos_complement(x: i64) -> nat {
    if x >= 0 {
        x as nat
    } else {
        (x + 0x1_0000_0000_0000_0000) as nat
    }
}

/// One field: the length of `bytes`, of which four bytes keep the low 32 bits, and `bytes`.
pub open spec fn framed(bytes: Seq<u8>) -> Seq<u8> {
    be32(bytes.len()) + bytes
}

/// Fields one after the other.
pub open spec fn all_framed(fields: Seq<Seq<u8>>) -> Seq<u8>
    decreases fields.len(),
{
    if fields.len() == 0 {
        seq![]
    } else {
        framed(fields[0]) + all_framed(fields.drop_first())
    }
}

/// Every field is short enough for its whole length to be written down.
pub open spec fn lengths_fit(fields: Seq<Seq<u8>>) -> bool {
    forall|i: int| 0 <= i < fields.len() ==> (#[trigger] fields[i]).len() < 0x1_0000_0000
}

/// The eight bytes of a time, in two's complement, most significant first.
pub open spec fn time_bytes(x: i64) -> Seq<u8> {
    be64(twos_complement(x))
}

fn push_be32(out: &mut Vec<u8>, n: u32)
    ensures
        final(out)@ == old(out)@ + be32(n as nat),
{
    out.push((n / 0x100_0000) as u8);
    out.push((n / 0x1_0000 % 0x100) as u8);
    out.push((n / 0x100 % 0x100) as u8);
    out.push((n % 0x100) as u8);
}

/// The eight bytes of `x`.
pub fn time_to_bytes(x: i64) -> (bytes: Vec<u8>)
    ensures
        bytes@ == time_bytes(x),
{
    let n: u64 = x as u64;
    assert(n == twos_complement(x)) by {
        assert(x >= 0 ==> n == x) by (bit_vector)
            requires
                n == x as u64,
        ;
        assert(x < 0 ==> n == x + 0x1_0000_0000_0000_0000) by (bit_vector)
            requires
                n == x as u64,
        ;
    }
    let mut bytes: Vec<u8> = Vec::new();
    push_be32(&mut bytes, (n / 0x1_0000_0000) as u32);
    push_be32(&mut bytes, (n % 0x1_0000_0000) as u32);
    proof {
        lemma_be32_low_bits(n as nat);
    }
    bytes
}

/// Appends one field to a payload.
pub fn append_ongrow_field(payload: &mut Vec<u8>, field: &[u8])
    ensures
        final(payload)@ == old(payload)@ + framed(field@),
{
    let ghost before = payload@;
    let length: u32 = (field.len() as u64 % 0x1_0000_0000) as u32;
    push_be32(payload, length);
    payload.extend_from_slice(field);
    proof {
        lemma_be32_low_bits(field@.len());
        assert(payload@ =~= before + framed(field@));
    }
}

proof fn lemma_be32_low_bits(n: nat)
    ensures
        be32(n) == be32(n % 0x1_0000_0000),
{
    let q = n / 0x1_0000_0000;
    let m = n % 0x1_0000_0000;
    assert(n == q * 0x1_0000_0000 + m);
    assert(n / 0x100_0000 == q * 0x100 + m / 0x100_0000);
    assert(n / 0x1_0000 == q * 0x1_0000 + m / 0x1_0000);
    assert(n / 0x100 == q * 0x100_0000 + m / 0x100);
}

proof fn lemma_be32_value(n: nat)
    requires
        n < 0x1_0000_0000,
    ensures
        n == be32(n)[0] * 0x100_0000 + be32(n)[1] * 0x1_0000 + be32(n)[2] * 0x100 + be32(n)[3],
{
    let n1 = n / 0x100;
    let n2 = n1 / 0x100;
    let n3 = n2 / 0x100;
    assert(n / 0x1_0000 == n2);
    assert(n / 0x100_0000 == n3);
    assert(n3 < 0x100);
    assert(n == n1 * 0x100 + n % 0x100);
    assert(n1 == n2 * 0x100 + n1 % 0x100);
    assert(n2 == n3 * 0x100 + n2 % 0x100);
}

/// Two numbers below 2^32 with the same four bytes are equal.
pub proof fn lemma_be32_injective(a: nat, b: nat)
    requires
        a < 0x1_0000_0000,
        b < 0x1_0000_0000,
        be32(a) == be32(b),
    ensures
        a == b,
{
    lemma_be32_value(a);
    lemma_be32_value(b);
}

/// Two times with the same eight bytes are equal.
pub proof fn lemma_time_bytes_injective(a: i64, b: i64)
    requires
        time_bytes(a) == time_bytes(b),
    ensures
        a == b,
{
    let m = twos_complement(a);
    let n = twos_complement(b);
    assert(be32(m / 0x1_0000_0000) =~= time_bytes(a).subrange(0, 4));
    assert(be32(n / 0x1_0000_0000) =~= time_bytes(b).subrange(0, 4));
    assert(be32(m) =~= time_bytes(a).subrange(4, 8));
    assert(be32(n) =~= time_bytes(b).subrange(4, 8));
    lemma_be32_low_bits(m);
    lemma_be32_low_bits(n);
    lemma_be32_injective(m / 0x1_0000_0000, n / 0x1_0000_0000);
    lemma_be32_injective(m % 0x1_0000_0000, n % 0x1_0000_0000);
}

/// A field more at the end.
proof fn lemma_one_more(fields: Seq<Seq<u8>>, last: Seq<u8>)
    ensures
        all_framed(fields.push(last)) == all_framed(fields) + framed(last),
    decreases fields.len(),
{
    let more = fields.push(last);
    if fields.len() == 0 {
        reveal_with_fuel(all_framed, 2);
        assert(more.drop_first() =~= Seq::<Seq<u8>>::empty());
        assert(all_framed(more) =~= all_framed(fields) + framed(last));
    } else {
        assert(more.drop_first() =~= fields.drop_first().push(last));
        lemma_one_more(fields.drop_first(), last);
        assert(all_framed(more) =~= all_framed(fields) + framed(last));
    }
}

/// Three fields, written out.
pub(crate) proof fn lemma_three_fields(a: Seq<u8>, b: Seq<u8>, c: Seq<u8>)
    ensures
        all_framed(seq![a, b, c]) == framed(a) + framed(b) + framed(c),
{
    let none = Seq::<Seq<u8>>::empty();
    lemma_one_more(none, a);
    lemma_one_more(none.push(a), b);
    lemma_one_more(none.push(a).push(b), c);
    assert(all_framed(none) + framed(a) =~= framed(a));
    assert(seq![a, b, c] =~= none.push(a).push(b).push(c));
}

/// Four fields, written out.
pub(crate) proof fn lemma_four_fields(a: Seq<u8>, b: Seq<u8>, c: Seq<u8>, d: Seq<u8>)
    ensures
        all_framed(seq![a, b, c, d]) == framed(a) + framed(b) + framed(c) + framed(d),
{
    lemma_three_fields(a, b, c);
    lemma_one_more(seq![a, b, c], d);
    assert(seq![a, b, c, d] =~= seq![a, b, c].push(d));
}

/// Six fields, written out.
pub(crate) proof fn lemma_six_fields(
    a: Seq<u8>,
    b: Seq<u8>,
    c: Seq<u8>,
    d: Seq<u8>,
    e: Seq<u8>,
    f: Seq<u8>,
)
    ensures
        all_framed(seq![a, b, c, d, e, f]) == framed(a) + framed(b) + framed(c) + framed(d)
            + framed(e) + framed(f),
{
    lemma_four_fields(a, b, c, d);
    lemma_one_more(seq![a, b, c, d], e);
    lemma_one_more(seq![a, b, c, d, e], f);
    assert(seq![a, b, c, d, e] =~= seq![a, b, c, d].push(e));
    assert(seq![a, b, c, d, e, f] =~= seq![a, b, c, d, e].push(f));
}

/// Fields can be told apart: two lists of fields that are written as the same bytes are the same
/// list.
pub proof fn law_fields_are_unambiguous(a: Seq<Seq<u8>>, b: Seq<Seq<u8>>)
    requires
        lengths_fit(a),
        lengths_fit(b),
        all_framed(a) == all_framed(b),
    ensures
        a == b,
    decreases a.len(),
{
    if a.len() == 0 {
        if b.len() > 0 {
            assert(all_framed(b).len() >= framed(b[0]).len());
        }
        assert(a =~= b);
    } else if b.len() == 0 {
        assert(all_framed(a).len() >= framed(a[0]).len());
    } else {
        let x = all_framed(a);
        let m = a[0].len() as int;
        let n = b[0].len() as int;
        assert(x.subrange(0, 4) =~= be32(m as nat));
        assert(x.subrange(0, 4) =~= be32(n as nat)) by {
            assert(all_framed(b).subrange(0, 4) =~= be32(n as nat));
        }
        lemma_be32_injective(m as nat, n as nat);
        assert(x.subrange(4, 4 + m) =~= a[0]);
        assert(all_framed(b).subrange(4, 4 + n) =~= b[0]);
        assert(x.subrange(4 + m, x.len() as int) =~= all_framed(a.drop_first()));
        assert(x.subrange(4 + m, x.len() as int) =~= all_framed(b.drop_first())) by {
            assert(all_framed(b).subrange(4 + n, x.len() as int) =~= all_framed(b.drop_first()));
        }
        law_fields_are_unambiguous(a.drop_first(), b.drop_first());
        assert(a =~= seq![a[0]] + a.drop_first());
        assert(b =~= seq![b[0]] + b.drop_first());
    }
}

/// The number that four bytes spell, the most significant first.
pub open spec fn read32(bytes: Seq<u8>) -> int {
    bytes[0] * 0x100_0000 + bytes[1] * 0x1_0000 + bytes[2] * 0x100 + bytes[3]
}

/// The fields that a reader finds in bytes: a length in four bytes, so many bytes, and so on up to
/// the end. There are none where the end comes too early.
pub open spec fn fields_in(bytes: Seq<u8>) -> Option<Seq<Seq<u8>>>
    decreases bytes.len(),
{
    if bytes.len() == 0 {
        Some(seq![])
    } else if bytes.len() < 4 || 4 + read32(bytes) > bytes.len() {
        None
    } else {
        match fields_in(bytes.skip(4 + read32(bytes))) {
            Some(rest) => Some(seq![bytes.subrange(4, 4 + read32(bytes))] + rest),
            None => None,
        }
    }
}

/// The four bytes of a length spell its low 32 bits.
pub proof fn law_length_is_read_back(n: nat)
    ensures
        be32(n).len() == 4,
        read32(be32(n)) == n % 0x1_0000_0000,
{
    lemma_be32_low_bits(n);
    lemma_be32_value(n % 0x1_0000_0000);
}

/// The eight bytes of a time spell it in two's complement.
pub proof fn law_time_is_read_back(x: i64)
    ensures
        time_bytes(x).len() == 8,
        ({
            let high = read32(time_bytes(x).subrange(0, 4));
            let low = read32(time_bytes(x).subrange(4, 8));
            high * 0x1_0000_0000 + low == if x < 0 {
                x + 0x1_0000_0000_0000_0000
            } else {
                x as int
            }
        }),
{
    let n = twos_complement(x);
    law_length_is_read_back(n);
    law_length_is_read_back(n / 0x1_0000_0000);
    assert(time_bytes(x).subrange(0, 4) =~= be32(n / 0x1_0000_0000));
    assert(time_bytes(x).subrange(4, 8) =~= be32(n));
}

/// A reader finds the fields that were written, in their order, and nothing else.
pub proof fn law_fields_are_read_back(fields: Seq<Seq<u8>>)
    requires
        lengths_fit(fields),
    ensures
        fields_in(all_framed(fields)) == Some(fields),
    decreases fields.len(),
{
    let bytes = all_framed(fields);
    if fields.len() == 0 {
        assert(fields =~= seq![]);
    } else {
        let first = fields[0];
        let rest = fields.drop_first();
        assert(first.len() < 0x1_0000_0000);
        law_length_is_read_back(first.len());
        assert(forall|i: int| 0 <= i < 4 ==> bytes[i] == be32(first.len())[i]);
        assert(read32(bytes) == first.len());
        assert(bytes.skip(4int + first.len()) =~= all_framed(rest));
        assert(bytes.subrange(4, 4int + first.len()) =~= first);
        assert forall|i: int| 0 <= i < rest.len() implies (#[trigger] rest[i]).len()
            < 0x1_0000_0000 by {
            assert(rest[i] == fields[i + 1]);
        }
        law_fields_are_read_back(rest);
        assert(seq![first] + rest =~= fields);
    }
}

proof fn lemma_be32_of_bytes(a: u8, b: u8, c: u8, d: u8)
    ensures
        be32((a * 0x100_0000 + b * 0x1_0000 + c * 0x100 + d) as nat) == seq![a, b, c, d],
{
    let n = (a * 0x100_0000 + b * 0x1_0000 + c * 0x100 + d) as nat;
    assert(n / 0x100 == a * 0x1_0000 + b * 0x100 + c);
    assert(n / 0x1_0000 == a * 0x100 + b);
    assert(n / 0x100_0000 == a);
    assert(be32(n) =~= seq![a, b, c, d]);
}

proof fn lemma_first_field(bytes: Seq<u8>)
    requires
        bytes.len() >= 4,
        4 + read32(bytes) <= bytes.len(),
    ensures
        0 <= read32(bytes) < 0x1_0000_0000,
        bytes == framed(bytes.subrange(4, 4 + read32(bytes))) + bytes.skip(4 + read32(bytes)),
{
    let n = read32(bytes);
    let length = seq![bytes[0], bytes[1], bytes[2], bytes[3]];
    let field = bytes.subrange(4, 4 + n);
    lemma_be32_of_bytes(bytes[0], bytes[1], bytes[2], bytes[3]);
    assert(field.len() == n);
    assert(framed(field) == length + field);
    assert(bytes =~= length + field + bytes.skip(4 + n));
}

/// What a reader finds fields in is those fields, written one after the other.
pub proof fn law_read_fields_were_written(bytes: Seq<u8>)
    ensures
        fields_in(bytes) matches Some(fields) ==> lengths_fit(fields) && all_framed(fields)
            == bytes,
    decreases bytes.len(),
{
    if fields_in(bytes) is Some && bytes.len() > 0 {
        let fields = fields_in(bytes)->0;
        let n = read32(bytes);
        let tail = bytes.skip(4 + n);
        let rest = fields_in(tail)->0;
        law_read_fields_were_written(tail);
        lemma_first_field(bytes);
        assert(fields.drop_first() =~= rest);
        assert(fields[0] == bytes.subrange(4, 4 + n));
        assert forall|i: int| 0 <= i < fields.len() implies (#[trigger] fields[i]).len()
            < 0x1_0000_0000 by {
            if i > 0 {
                assert(fields[i] == rest[i - 1]);
            }
        }
        assert(all_framed(fields) == framed(fields[0]) + all_framed(rest));
    }
}

/// A reader finds exactly the fields that were written.
pub(crate) proof fn lemma_written_and_read(bytes: Seq<u8>, fields: Seq<Seq<u8>>)
    requires
        lengths_fit(fields),
    ensures
        fields_in(bytes) == Some(fields) <==> bytes == all_framed(fields),
{
    law_fields_are_read_back(fields);
    law_read_fields_were_written(bytes);
}

/// A field of any length is four bytes, which spell the low 32 bits of the length, and then the
/// bytes themselves; fields stand one after the other.
pub proof fn law_fields_of_any_length(bytes: Seq<u8>, a: Seq<Seq<u8>>, b: Seq<Seq<u8>>)
    ensures
        framed(bytes).len() == 4 + bytes.len(),
        read32(framed(bytes)) == bytes.len() % 0x1_0000_0000,
        framed(bytes).skip(4) == bytes,
        all_framed(seq![bytes]) == framed(bytes),
        all_framed(a + b) == all_framed(a) + all_framed(b),
    decreases b.len(),
{
    law_length_is_read_back(bytes.len());
    assert(forall|i: int| 0 <= i < 4 ==> framed(bytes)[i] == be32(bytes.len())[i]);
    assert(framed(bytes).skip(4) =~= bytes);
    let none = Seq::<Seq<u8>>::empty();
    lemma_one_more(none, bytes);
    assert(none.push(bytes) =~= seq![bytes]);
    assert(all_framed(none) + framed(bytes) =~= framed(bytes));
    if b.len() == 0 {
        assert(a + b =~= a);
        assert(all_framed(a) + all_framed(b) =~= all_framed(a));
    } else {
        let front = b.drop_last();
        law_fields_of_any_length(bytes, a, front);
        lemma_one_more(a + front, b.last());
        lemma_one_more(front, b.last());
        assert((a + front).push(b.last()) =~= a + b);
        assert(front.push(b.last()) =~= b);
        assert(all_framed(a + b) =~= all_framed(a) + all_framed(b));
    }
}

} // verus!
