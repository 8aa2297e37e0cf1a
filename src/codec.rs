//! Writing a header and payload into the carrier pixels and reading it back.
use crate::buffer::{
    capacity, lemma_opaque_has_no_carriers, opaque, carrier_count, carrier_stream, carrier_stream_upto, is_carrier,
    lemma_carrier_count_bound, lemma_carrier_stream_len, pixel_count, ColorModel, ImageBuffer,
};
use crate::error::StegoError;
use crate::header::{
    decode_length, encode_text_len, header_length, lemma_u64_bytes_round_trip, length_header,
    u64_bytes, ByteOrder,
};
use vstd::prelude::*;

verus! {

/// Whether byte `i` of `d` is a red, green or blue byte of a carrier.
pub open spec fn holds_stream_byte(d: Seq<u8>, i: int) -> bool {
    i % 4 < 3 && is_carrier(d, i / 4)
}

/// Where byte `i` of `d` stands in the carrier stream, for a byte that
/// `holds_stream_byte`.
pub open spec fn stream_position(d: Seq<u8>, i: int) -> int {
    3 * carrier_count(d, i / 4) + i % 4
}

/// `d` after `bytes` has been written into its carriers: the carrier byte
/// at stream position `j` takes `bytes[j]` while `bytes` lasts; every other
/// byte, alpha bytes included, keeps its value.
pub open spec fn embedded(d: Seq<u8>, bytes: Seq<u8>) -> Seq<u8> {
    Seq::new(
        d.len(),
        |i: int|
            if holds_stream_byte(d, i) && stream_position(d, i) < bytes.len() {
                bytes[stream_position(d, i)]
            } else {
                d[i]
            },
    )
}

/// What extraction yields on `d`: the length is read from the first ten raw
/// bytes of `d` (so `d` needs more than twelve), the first twelve bytes of
/// the carrier stream are skipped, and the payload is the next `length`
/// bytes, if the stream has that many.
pub open spec fn decoded(d: Seq<u8>, order: ByteOrder) -> Option<Seq<u8>> {
    if d.len() <= 12 {
        None
    } else {
        let n = header_length(d, order) as int;
        let s = carrier_stream(d);
        let rest = if s.len() >= 12 {
            s.skip(12)
        } else {
            Seq::empty()
        };
        if rest.len() < n {
            None
        } else {
            Some(rest.take(n))
        }
    }
}

proof fn lemma_pixel_byte(p: int, c: int)
    requires
        0 <= p,
        0 <= c < 4,
    ensures
        (4 * p + c) / 4 == p,
        (4 * p + c) % 4 == c,
{
}

proof fn lemma_embedded_carriers(d: Seq<u8>, bytes: Seq<u8>, k: int)
    requires
        d.len() % 4 == 0,
        0 <= k <= pixel_count(d),
    ensures
        carrier_count(embedded(d, bytes), k) == carrier_count(d, k),
        forall|p: int| 0 <= p < k ==> is_carrier(embedded(d, bytes), p) == is_carrier(d, p),
    decreases k,
{
    if k > 0 {
        lemma_embedded_carriers(d, bytes, k - 1);
        lemma_pixel_byte(k - 1, 3);
    }
}

proof fn lemma_embedded_stream_upto(d: Seq<u8>, bytes: Seq<u8>, k: int)
    requires
        d.len() % 4 == 0,
        0 <= k <= pixel_count(d),
    ensures
        carrier_stream_upto(embedded(d, bytes), k) =~= Seq::new(
            3 * carrier_count(d, k),
            |j: int|
                if j < bytes.len() {
                    bytes[j]
                } else {
                    carrier_stream_upto(d, k)[j]
                },
        ),
    decreases k,
{
    let e = embedded(d, bytes);
    lemma_carrier_stream_len(d, k);
    lemma_embedded_carriers(d, bytes, k);
    if k > 0 {
        lemma_embedded_stream_upto(d, bytes, k - 1);
        lemma_carrier_stream_len(d, k - 1);
        lemma_pixel_byte(k - 1, 0);
        lemma_pixel_byte(k - 1, 1);
        lemma_pixel_byte(k - 1, 2);
        lemma_pixel_byte(k - 1, 3);
    }
}

/// The carrier stream after an embedding starts with the embedded bytes,
/// as many as the carriers hold, and keeps its old bytes after them.
pub proof fn lemma_embedded_carrier_stream(d: Seq<u8>, bytes: Seq<u8>)
    requires
        d.len() % 4 == 0,
    ensures
        capacity(embedded(d, bytes)) == capacity(d),
        carrier_stream(embedded(d, bytes)).len() == capacity(d),
        bytes.len() <= capacity(d) ==> carrier_stream(embedded(d, bytes)) == bytes + carrier_stream(
            d,
        ).skip(bytes.len() as int),
        bytes.len() > capacity(d) ==> carrier_stream(embedded(d, bytes)) == bytes.take(
            capacity(d) as int,
        ),
{
    let e = embedded(d, bytes);
    let n = pixel_count(d);
    lemma_embedded_stream_upto(d, bytes, n);
    lemma_embedded_carriers(d, bytes, n);
    lemma_carrier_stream_len(d, n);
    assert(pixel_count(e) == n);
    if bytes.len() <= capacity(d) {
        assert(carrier_stream(e) =~= bytes + carrier_stream(d).skip(bytes.len() as int));
    } else {
        assert(carrier_stream(e) =~= bytes.take(capacity(d) as int));
    }
}

/// In lossy mode an embedding that does not fit keeps exactly the first
/// `capacity` bytes of what was written, and drops the rest.
pub proof fn lemma_lossy_embedding_truncates(d: Seq<u8>, bytes: Seq<u8>)
    requires
        d.len() % 4 == 0,
        bytes.len() > capacity(d),
    ensures
        carrier_stream(embedded(d, bytes)) == bytes.take(capacity(d) as int),
{
    lemma_embedded_carrier_stream(d, bytes);
}

/// Extraction returns exactly the payload that was embedded behind its
/// header, whenever the carriers hold header and payload in full and the
/// length reads back from the first raw bytes of the buffer.
pub proof fn lemma_decode_after_embed(d: Seq<u8>, payload: Seq<u8>, order: ByteOrder)
    requires
        d.len() % 4 == 0,
        payload.len() <= u64::MAX,
        12 + payload.len() <= capacity(d),
        header_length(embedded(d, length_header(payload.len() as u64, order) + payload), order)
            == payload.len(),
    ensures
        decoded(embedded(d, length_header(payload.len() as u64, order) + payload), order) == Some(
            payload,
        ),
{
    let bytes = length_header(payload.len() as u64, order) + payload;
    let e = embedded(d, bytes);
    lemma_embedded_carrier_stream(d, bytes);
    lemma_carrier_count_bound(d, pixel_count(d));
    let s = carrier_stream(e);
    assert(s.skip(12).take(payload.len() as int) =~= payload);
}

/// The length header is read from the first ten raw bytes of the buffer.
/// They match the start of the carrier stream closely enough when the first
/// three pixels are carriers and bytes three to seven of the length are zero
/// (in little-endian order: a payload under 2^24 bytes).
pub proof fn lemma_header_readable(d: Seq<u8>, payload: Seq<u8>, order: ByteOrder)
    requires
        d.len() % 4 == 0,
        payload.len() <= u64::MAX,
        12 + payload.len() <= capacity(d),
        is_carrier(d, 0),
        is_carrier(d, 1),
        is_carrier(d, 2),
        u64_bytes(payload.len() as u64, order).subrange(3, 8) == seq![0u8, 0u8, 0u8, 0u8, 0u8],
    ensures
        header_length(embedded(d, length_header(payload.len() as u64, order) + payload), order)
            == payload.len(),
{
    let n = payload.len() as u64;
    let b = u64_bytes(n, order);
    let bytes = length_header(n, order) + payload;
    let e = embedded(d, bytes);
    lemma_u64_bytes_round_trip(n, order);
    lemma_carrier_count_bound(d, pixel_count(d));
    assert(b[3] == 0 && b[4] == 0 && b[5] == 0 && b[6] == 0 && b[7] == 0) by {
        assert(b.subrange(3, 8)[0] == b[3]);
        assert(b.subrange(3, 8)[1] == b[4]);
        assert(b.subrange(3, 8)[2] == b[5]);
        assert(b.subrange(3, 8)[3] == b[6]);
        assert(b.subrange(3, 8)[4] == b[7]);
    }
    assert(carrier_count(d, 0) == 0);
    assert(carrier_count(d, 1) == 1);
    assert(carrier_count(d, 2) == 2);
    lemma_pixel_byte(0, 0);
    lemma_pixel_byte(0, 1);
    lemma_pixel_byte(0, 2);
    lemma_pixel_byte(0, 3);
    lemma_pixel_byte(1, 1);
    lemma_pixel_byte(1, 2);
    lemma_pixel_byte(1, 3);
    lemma_pixel_byte(2, 0);
    assert(e[0] == b[0]);
    assert(e[1] == b[1]);
    assert(e[2] == b[2]);
    assert(e[3] == 0);
    assert(e[5] == b[3]);
    assert(e[6] == b[4]);
    assert(e[7] == 0);
    assert(e[8] == b[5]);
    assert(seq![e[0], e[1], e[2], e[3], e[5], e[6], e[7], e[8]] =~= b);
}

/// Embedding a payload behind its header and extracting it again returns
/// the payload, when the carriers hold header and payload in full, the
/// first three pixels are carriers, and bytes three to seven of the length
/// are zero.
pub proof fn lemma_round_trip(d: Seq<u8>, payload: Seq<u8>, order: ByteOrder)
    requires
        d.len() % 4 == 0,
        payload.len() <= u64::MAX,
        12 + payload.len() <= capacity(d),
        is_carrier(d, 0),
        is_carrier(d, 1),
        is_carrier(d, 2),
        u64_bytes(payload.len() as u64, order).subrange(3, 8) == seq![0u8, 0u8, 0u8, 0u8, 0u8],
    ensures
        decoded(embedded(d, length_header(payload.len() as u64, order) + payload), order) == Some(
            payload,
        ),
{
    lemma_header_readable(d, payload, order);
    lemma_decode_after_embed(d, payload, order);
}

/// Once every pixel is opaque no payload can be extracted: extraction
/// fails, or yields no bytes at all when the raw bytes announce a length of
/// zero.
pub proof fn lemma_extract_after_opaque(d: Seq<u8>, order: ByteOrder)
    requires
        d.len() % 4 == 0,
    ensures
        decoded(opaque(d), order) is None || decoded(opaque(d), order) == Some(Seq::<u8>::empty()),
        forall|payload: Seq<u8>|
            payload.len() > 0 ==> decoded(opaque(d), order) != Some(payload),
{
    lemma_opaque_has_no_carriers(d);
    if decoded(opaque(d), order) is Some {
        assert(decoded(opaque(d), order) == Some(Seq::<u8>::empty()));
    }
}

impl ImageBuffer {
    /// The red, green and blue bytes of every carrier pixel, in pixel order.
    pub fn carrier_bytes(&self) -> (r: Vec<u8>)
        requires
            self.wf(),
        ensures
            r@ == carrier_stream(self.data@),
    {
        let ghost d = self.data@;
        let n: usize = self.data.len() / 4;
        let mut out: Vec<u8> = Vec::new();
        let mut p: usize = 0;
        while p < n
            invariant
                d == self.data@,
                d.len() <= usize::MAX,
                n == pixel_count(d),
                p <= n,
                out@ == carrier_stream_upto(d, p as int),
            decreases n - p,
        {
            let base: usize = 4 * p;
            if self.data[base + 3] == 0 {
                out.push(self.data[base]);
                out.push(self.data[base + 1]);
                out.push(self.data[base + 2]);
            }
            proof {
                assert(out@ =~= carrier_stream_upto(d, p + 1));
            }
            p = p + 1;
        }
        out
    }

    /// Writes `bytes` into the carriers, three to a carrier pixel in pixel
    /// order, until either runs out; alpha bytes and all other pixels stay.
    /// In strict mode, bytes that found no carrier make the result
    /// `InsufficientCapacity` (the carriers are written all the same).
    pub fn encode_data(&mut self, bytes: &Vec<u8>, strict: bool) -> (r: Result<(), StegoError>)
        requires
            old(self).wf(),
        ensures
            final(self).data@ == embedded(old(self).data@, bytes@),
            final(self).width == old(self).width,
            final(self).height == old(self).height,
            final(self).color == old(self).color,
            r == if strict && bytes@.len() > capacity(old(self).data@) {
                Err::<(), StegoError>(StegoError::InsufficientCapacity)
            } else {
                Ok(())
            },
    {
        let ghost d = self.data@;
        let ghost b = bytes@;
        let len: usize = self.data.len();
        let n: usize = len / 4;
        let mut j: usize = 0;
        let mut p: usize = 0;
        while p < n
            invariant
                d == old(self).data@,
                d.len() == len,
                len % 4 == 0,
                n == pixel_count(d),
                b == bytes@,
                p <= n,
                self.data@.len() == len,
                j == 3 * carrier_count(d, p as int),
                forall|i: int| 0 <= i < 4 * p ==> self.data@[i] == embedded(d, b)[i],
                forall|i: int| 4 * p <= i < len ==> self.data@[i] == d[i],
                self.width == old(self).width,
                self.height == old(self).height,
                self.color == old(self).color,
            decreases n - p,
        {
            proof {
                lemma_carrier_count_bound(d, p as int);
                lemma_pixel_byte(p as int, 0);
                lemma_pixel_byte(p as int, 1);
                lemma_pixel_byte(p as int, 2);
                lemma_pixel_byte(p as int, 3);
            }
            let base: usize = 4 * p;
            if self.data[base + 3] == 0 {
                if j < bytes.len() {
                    self.data.set(base, bytes[j]);
                }
                if j + 1 < bytes.len() {
                    self.data.set(base + 1, bytes[j + 1]);
                }
                if j + 2 < bytes.len() {
                    self.data.set(base + 2, bytes[j + 2]);
                }
                j = j + 3;
            }
            assert forall|i: int| 0 <= i < 4 * (p + 1) implies self.data@[i] == embedded(d, b)[i] by {
                if i >= 4 * p {
                    lemma_pixel_byte(p as int, i - 4 * p);
                }
            }
            p = p + 1;
        }
        assert(self.data@ =~= embedded(d, b));
        if strict && j < bytes.len() {
            Err(StegoError::InsufficientCapacity)
        } else {
            Ok(())
        }
    }

    /// Embeds `payload` behind its length header. An image that is not
    /// RGBA is refused and left as it was.
    pub fn embed_payload(&mut self, payload: &Vec<u8>, strict: bool, order: ByteOrder) -> (r:
        Result<(), StegoError>)
        requires
            old(self).wf(),
        ensures
            old(self).color != ColorModel::Rgba8 ==> r == Err::<(), StegoError>(
                StegoError::UnsupportedColorModel,
            ) && *final(self) == *old(self),
            old(self).color == ColorModel::Rgba8 ==> final(self).data@ == embedded(
                old(self).data@,
                length_header(payload@.len() as u64, order) + payload@,
            ),
            old(self).color == ColorModel::Rgba8 ==> r == if strict && 12 + payload@.len()
                > capacity(old(self).data@) {
                Err::<(), StegoError>(StegoError::InsufficientCapacity)
            } else {
                Ok(())
            },
            final(self).width == old(self).width,
            final(self).height == old(self).height,
            final(self).color == old(self).color,
    {
        if self.color != ColorModel::Rgba8 {
            return Err(StegoError::UnsupportedColorModel);
        }
        let mut bytes = encode_text_len(payload, order);
        let ghost h = bytes@;
        let mut i: usize = 0;
        while i < payload.len()
            invariant
                i <= payload@.len(),
                bytes@ == h + payload@.take(i as int),
            decreases payload@.len() - i,
        {
            bytes.push(payload[i]);
            i = i + 1;
            assert(bytes@ =~= h + payload@.take(i as int));
        }
        assert(payload@.take(payload@.len() as int) =~= payload@);
        self.encode_data(&bytes, strict)
    }

    /// The payload length that the first ten bytes of the buffer announce;
    /// `None` when the buffer has twelve bytes or fewer.
    pub fn decode_text_len(&self, order: ByteOrder) -> (r: Option<u64>)
        ensures
            r == if self.data@.len() <= 12 {
                None
            } else {
                Some(header_length(self.data@, order))
            },
    {
        if self.data.len() <= 12 {
            return None;
        }
        Some(decode_length(self.data.as_slice(), order))
    }

    /// Extracts the payload: the announced number of carrier bytes after
    /// the twelve header bytes; `None` when the image is not RGBA, when
    /// there is no header, or when the carriers hold fewer bytes than
    /// announced.
    pub fn decode_text(&self, order: ByteOrder) -> (r: Option<Vec<u8>>)
        requires
            self.wf(),
        ensures
            self.color != ColorModel::Rgba8 ==> r is None,
            self.color == ColorModel::Rgba8 ==> (r is Some <==> decoded(self.data@, order) is Some),
            self.color == ColorModel::Rgba8 ==> (r matches Some(v) ==> decoded(self.data@, order)
                == Some(v@)),
    {
        if self.color != ColorModel::Rgba8 {
            return None;
        }
        let len = match self.decode_text_len(order) {
            Some(n) => n,
            None => {
                return None;
            },
        };
        let stream = self.carrier_bytes();
        let rest: usize = if stream.len() >= 12 {
            stream.len() - 12
        } else {
            0
        };
        if (rest as u64) < len {
            return None;
        }
        let n: usize = len as usize;
        let ghost s = stream@;
        let mut out: Vec<u8> = Vec::new();
        let mut i: usize = 0;
        while i < n
            invariant
                s == stream@,
                n <= rest,
                rest == if s.len() >= 12 {
                    s.len() - 12
                } else {
                    0
                },
                s.len() <= usize::MAX,
                i <= n,
                out@.len() == i,
                forall|k: int| 0 <= k < i ==> out@[k] == s[12 + k],
            decreases n - i,
        {
            out.push(stream[12 + i]);
            i = i + 1;
        }
        proof {
            let rs = if s.len() >= 12 {
                s.skip(12)
            } else {
                Seq::empty()
            };
            assert(out@ =~= rs.take(n as int));
        }
        Some(out)
    }
}

} // verus!
