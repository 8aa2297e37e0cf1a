//! The twelve-byte length header that precedes an embedded payload.
use vstd::bytes::{lemma_auto_spec_u64_to_from_le_bytes, spec_u64_from_le_bytes, spec_u64_to_le_bytes, u64_from_le_bytes, u64_to_le_bytes};
use vstd::prelude::*;

verus! {

/// Byte order in which the length is laid out inside the header.
#[derive(Clone, Copy, Debug, PartialEq, Eq, Structural)]
pub enum ByteOrder {
    Little,
    Big,
}

/// The eight bytes of `n` in the given order.
pub open spec fn u64_bytes(n: u64, order: ByteOrder) -> Seq<u8> {
    match order {
        ByteOrder::Little => spec_u64_to_le_bytes(n),
        ByteOrder::Big => spec_u64_to_le_bytes(n).reverse(),
    }
}

/// The number whose eight bytes in the given order are `b`.
pub open spec fn u64_of_bytes(b: Seq<u8>, order: ByteOrder) -> u64 {
    match order {
        ByteOrder::Little => spec_u64_from_le_bytes(b),
        ByteOrder::Big => spec_u64_from_le_bytes(b.reverse()),
    }
}

/// The header for a payload of `n` bytes: the eight bytes of `n` with a zero
/// after the third and after the sixth, followed by two more zeros.
pub open spec fn length_header(n: u64, order: ByteOrder) -> Seq<u8> {
    let b = u64_bytes(n, order);
    seq![b[0], b[1], b[2], 0u8, b[3], b[4], b[5], 0u8, b[6], b[7], 0u8, 0u8]
}

/// The length read from the first ten bytes of `h`: bytes 4 and 9 are
/// dropped and the eight that remain are read as a number.
pub open spec fn header_length(h: Seq<u8>, order: ByteOrder) -> u64
    recommends
        h.len() >= 10,
{
    u64_of_bytes(seq![h[0], h[1], h[2], h[3], h[5], h[6], h[7], h[8]], order)
}

/// Whether a length survives being written by `length_header` and read back
/// by `header_length`: the bytes that the reader takes from the header's
/// padding must be zero in the number too.
pub open spec fn header_preserves(n: u64, order: ByteOrder) -> bool {
    let b = u64_bytes(n, order);
    b[3] == 0 && b[6] == 0 && b[7] == 0
}

proof fn lemma_reverse_reverse(s: Seq<u8>)
    ensures
        s.reverse().reverse() == s,
{
    assert(s.reverse().reverse() =~= s);
}

/// Reading back the bytes of a number in either order gives the number.
pub proof fn lemma_u64_bytes_round_trip(n: u64, order: ByteOrder)
    ensures
        u64_bytes(n, order).len() == 8,
        u64_of_bytes(u64_bytes(n, order), order) == n,
{
    lemma_auto_spec_u64_to_from_le_bytes();
    lemma_reverse_reverse(spec_u64_to_le_bytes(n));
}

/// A length written by `length_header` and read back from the header's
/// first ten bytes by `header_length` comes back unchanged exactly when the
/// bytes that the reader takes from the padding are zero in the number.
pub proof fn lemma_length_round_trip(n: u64, order: ByteOrder)
    ensures
        header_length(length_header(n, order).take(10), order) == n <==> header_preserves(
            n,
            order,
        ),
{
    lemma_auto_spec_u64_to_from_le_bytes();
    let le = spec_u64_to_le_bytes(n);
    let b = u64_bytes(n, order);
    let h = length_header(n, order).take(10);
    let kept = seq![h[0], h[1], h[2], h[3], h[5], h[6], h[7], h[8]];
    lemma_reverse_reverse(le);
    if header_preserves(n, order) {
        assert(kept =~= b);
    }
    if header_length(h, order) == n {
        match order {
            ByteOrder::Little => {
                assert(spec_u64_to_le_bytes(spec_u64_from_le_bytes(kept)) == kept);
            },
            ByteOrder::Big => {
                lemma_reverse_reverse(kept);
                assert(kept.reverse().len() == 8);
                assert(spec_u64_to_le_bytes(spec_u64_from_le_bytes(kept.reverse()))
                    == kept.reverse());
            },
        }
        assert(b[3] == kept[3]);
        assert(b[6] == kept[6]);
        assert(b[7] == kept[7]);
    }
}

/// Relies on `u16::to_ne_bytes`: the two bytes of `n` in the machine's own
/// order, which is either little or big endian.
#[verifier::external_body]
fn u16_to_ne_bytes(n: u16) -> (r: [u8; 2])
    ensures
        (r[0] == n % 256 && r[1] == n / 256) || (r[0] == n / 256 && r[1] == n % 256),
{
    n.to_ne_bytes()
}

/// The byte order of the machine this runs on.
pub fn native_byte_order() -> (r: ByteOrder) {
    let one = u16_to_ne_bytes(1);
    if one[0] == 1 {
        ByteOrder::Little
    } else {
        ByteOrder::Big
    }
}

fn reversed(v: &Vec<u8>) -> (r: Vec<u8>)
    ensures
        r@ == v@.reverse(),
{
    let mut r: Vec<u8> = Vec::new();
    let mut i: usize = v.len();
    while i > 0
        invariant
            i <= v.len(),
            r@.len() == v.len() - i,
            forall|j: int| 0 <= j < r@.len() ==> r@[j] == v@[v.len() - 1 - j],
        decreases i,
    {
        i = i - 1;
        r.push(v[i]);
    }
    assert(r@ =~= v@.reverse());
    r
}

/// The eight bytes of `n` in the given order.
pub fn u64_to_bytes(n: u64, order: ByteOrder) -> (r: Vec<u8>)
    ensures
        r@ == u64_bytes(n, order),
        r@.len() == 8,
{
    let le = u64_to_le_bytes(n);
    match order {
        ByteOrder::Little => le,
        ByteOrder::Big => reversed(&le),
    }
}

/// Builds the header that announces a payload of `text.len()` bytes.
pub fn encode_text_len(text: &Vec<u8>, order: ByteOrder) -> (r: Vec<u8>)
    ensures
        r@ == length_header(text.len() as u64, order),
{
    let mut v = u64_to_bytes(text.len() as u64, order);
    v.insert(3, 0);
    v.insert(7, 0);
    let mut tail: Vec<u8> = vec![0, 0];
    v.append(&mut tail);
    assert(v@ =~= length_header(text.len() as u64, order));
    v
}

/// Reads the payload length from the first ten bytes of `data`.
pub fn decode_length(data: &[u8], order: ByteOrder) -> (r: u64)
    requires
        data@.len() >= 10,
    ensures
        r == header_length(data@, order),
{
    let mut kept: Vec<u8> = Vec::new();
    let mut i: usize = 0;
    while i < 10
        invariant
            i <= 10,
            data@.len() >= 10,
            kept@ =~= data@.take(i as int),
        decreases 10 - i,
    {
        kept.push(data[i]);
        i = i + 1;
    }
    kept.remove(9);
    kept.remove(4);
    let ghost h = data@;
    assert(kept@ =~= seq![h[0], h[1], h[2], h[3], h[5], h[6], h[7], h[8]]);
    match order {
        ByteOrder::Little => u64_from_le_bytes(kept.as_slice()),
        ByteOrder::Big => {
            let rev = reversed(&kept);
            u64_from_le_bytes(rev.as_slice())
        },
    }
}

} // verus!
