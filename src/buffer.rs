//! The in-memory RGBA pixel buffer and the carrier pixels inside it.
use vstd::prelude::*;

verus! {

/// The colour model that the source image was stored in.
#[derive(Clone, Copy, Debug, PartialEq, Eq, Structural)]
pub enum ColorModel {
    /// Eight bits for each of red, green, blue and alpha.
    Rgba8,
    /// Anything else; carriers are not looked for in such an image.
    Other,
}

/// Pixels of an image as consecutive red, green, blue, alpha bytes.
pub struct ImageBuffer {
    pub data: Vec<u8>,
    pub width: u32,
    pub height: u32,
    pub color: ColorModel,
}

/// Number of whole pixels in `d`.
pub open spec fn pixel_count(d: Seq<u8>) -> int {
    (d.len() / 4) as int
}

/// Whether pixel `p` of `d` is a carrier: its alpha byte is zero.
pub open spec fn is_carrier(d: Seq<u8>, p: int) -> bool {
    d[4 * p + 3] == 0
}

/// Number of carriers among the first `k` pixels of `d`.
pub open spec fn carrier_count(d: Seq<u8>, k: int) -> nat
    decreases k,
{
    if k <= 0 {
        0
    } else {
        carrier_count(d, k - 1) + if is_carrier(d, k - 1) {
            1nat
        } else {
            0nat
        }
    }
}

/// The red, green and blue bytes of the carriers among the first `k`
/// pixels of `d`, in pixel order.
pub open spec fn carrier_stream_upto(d: Seq<u8>, k: int) -> Seq<u8>
    decreases k,
{
    if k <= 0 {
        Seq::empty()
    } else {
        carrier_stream_upto(d, k - 1) + if is_carrier(d, k - 1) {
            d.subrange(4 * (k - 1), 4 * (k - 1) + 3)
        } else {
            Seq::empty()
        }
    }
}

/// The byte stream that the carriers of `d` hold.
pub open spec fn carrier_stream(d: Seq<u8>) -> Seq<u8> {
    carrier_stream_upto(d, pixel_count(d))
}

/// How many bytes the carriers of `d` can hold.
pub open spec fn capacity(d: Seq<u8>) -> nat {
    3 * carrier_count(d, pixel_count(d))
}

/// The pixel indices whose alpha byte is zero.
pub open spec fn transparent_pixels(d: Seq<u8>) -> Set<int> {
    Set::new(|p: int| 0 <= p < pixel_count(d) && d[4 * p + 3] == 0)
}

/// `d` with every alpha byte set to 255.
pub open spec fn opaque(d: Seq<u8>) -> Seq<u8> {
    Seq::new(d.len(), |i: int| if i % 4 == 3 { 255u8 } else { d[i] })
}

pub proof fn lemma_carrier_count_bound(d: Seq<u8>, k: int)
    requires
        0 <= k,
    ensures
        carrier_count(d, k) <= k,
    decreases k,
{
    if k > 0 {
        lemma_carrier_count_bound(d, k - 1);
    }
}

pub proof fn lemma_carrier_stream_len(d: Seq<u8>, k: int)
    requires
        0 <= k <= pixel_count(d),
    ensures
        carrier_stream_upto(d, k).len() == 3 * carrier_count(d, k),
    decreases k,
{
    if k > 0 {
        lemma_carrier_stream_len(d, k - 1);
    }
}

proof fn lemma_transparent_upto(d: Seq<u8>, k: int)
    requires
        0 <= k <= pixel_count(d),
    ensures
        Set::new(|p: int| 0 <= p < k && d[4 * p + 3] == 0).finite(),
        Set::new(|p: int| 0 <= p < k && d[4 * p + 3] == 0).len() == carrier_count(d, k),
    decreases k,
{
    let s = Set::new(|p: int| 0 <= p < k && d[4 * p + 3] == 0);
    if k == 0 {
        assert(s =~= Set::empty());
    } else {
        let prev = Set::new(|p: int| 0 <= p < k - 1 && d[4 * p + 3] == 0);
        lemma_transparent_upto(d, k - 1);
        if is_carrier(d, k - 1) {
            assert(s =~= prev.insert(k - 1));
        } else {
            assert(s =~= prev);
        }
    }
}

/// The carriers are exactly the pixels whose alpha byte is zero, so the
/// capacity is three bytes for each such pixel.
pub proof fn lemma_capacity_counts_transparent(d: Seq<u8>)
    ensures
        transparent_pixels(d).finite(),
        capacity(d) == 3 * transparent_pixels(d).len(),
{
    lemma_transparent_upto(d, pixel_count(d));
    assert(transparent_pixels(d) =~= Set::new(
        |p: int| 0 <= p < pixel_count(d) && d[4 * p + 3] == 0,
    ));
}

proof fn lemma_opaque_count(d: Seq<u8>, k: int)
    requires
        d.len() % 4 == 0,
        0 <= k <= pixel_count(d),
    ensures
        carrier_count(opaque(d), k) == 0,
    decreases k,
{
    if k > 0 {
        lemma_opaque_count(d, k - 1);
        assert((4 * (k - 1) + 3) % 4 == 3);
    }
}

/// An opaque buffer has no carriers: its carrier stream is empty.
pub proof fn lemma_opaque_has_no_carriers(d: Seq<u8>)
    requires
        d.len() % 4 == 0,
    ensures
        capacity(opaque(d)) == 0,
        carrier_stream(opaque(d)).len() == 0,
        transparent_pixels(opaque(d)).len() == 0,
{
    lemma_opaque_count(d, pixel_count(d));
    lemma_carrier_stream_len(opaque(d), pixel_count(d));
    lemma_capacity_counts_transparent(opaque(d));
}

impl ImageBuffer {
    /// The data holds exactly four bytes for each of `width * height` pixels.
    pub open spec fn wf(&self) -> bool {
        self.data@.len() == 4 * ((self.width as int) * (self.height as int))
    }

    /// Wraps raw RGBA bytes; `None` when their number is not four for each
    /// pixel of a `width` by `height` image.
    pub fn new(width: u32, height: u32, color: ColorModel, data: Vec<u8>) -> (r: Option<
        ImageBuffer,
    >)
        ensures
            r is Some <==> data@.len() == 4 * ((width as int) * (height as int)),
            r matches Some(b) ==> b.data@ == data@ && b.width == width && b.height == height
                && b.color == color,
    {
        proof {
            assert((width as int) * (height as int) <= 0xffff_ffffint * 0xffff_ffffint)
                by (nonlinear_arith)
                requires
                    width <= 0xffff_ffff,
                    height <= 0xffff_ffff,
            ;
        }
        let expected: u128 = 4 * ((width as u128) * (height as u128));
        if data.len() as u128 == expected {
            Some(ImageBuffer { data, width, height, color })
        } else {
            None
        }
    }

    /// How many payload bytes the carriers can hold, three for each pixel
    /// whose alpha byte is zero; `None` when the image is not RGBA.
    pub fn available_bytes(&self) -> (r: Option<usize>)
        requires
            self.wf(),
        ensures
            self.color == ColorModel::Rgba8 ==> r == Some(capacity(self.data@) as usize),
            self.color == ColorModel::Rgba8 ==> capacity(self.data@) == 3
                * transparent_pixels(self.data@).len(),
            self.color != ColorModel::Rgba8 ==> r is None,
    {
        if self.color != ColorModel::Rgba8 {
            return None;
        }
        let ghost d = self.data@;
        let n: usize = self.data.len() / 4;
        let mut count: usize = 0;
        let mut p: usize = 0;
        while p < n
            invariant
                d == self.data@,
                d.len() <= usize::MAX,
                n == pixel_count(d),
                p <= n,
                count == carrier_count(d, p as int),
            decreases n - p,
        {
            proof {
                lemma_carrier_count_bound(d, p as int);
            }
            assert(4 * p + 3 < d.len());
            if self.data[4 * p + 3] == 0 {
                count = count + 1;
            }
            p = p + 1;
        }
        proof {
            lemma_carrier_count_bound(d, n as int);
            lemma_capacity_counts_transparent(d);
        }
        Some(3 * count)
    }

    /// Makes every pixel fully opaque. This erases the carrier markers, so
    /// nothing embedded can be extracted afterwards.
    pub fn alpha_max(&mut self)
        ensures
            final(self).data@ == opaque(old(self).data@),
            final(self).width == old(self).width,
            final(self).height == old(self).height,
            final(self).color == old(self).color,
    {
        let ghost d = self.data@;
        let len: usize = self.data.len();
        let mut i: usize = 3;
        while i < len
            invariant
                d.len() == len,
                self.data@.len() == len,
                i % 4 == 3 || i >= len,
                forall|j: int| 0 <= j < i && j < len ==> self.data@[j] == opaque(d)[j],
                forall|j: int| i <= j < len ==> self.data@[j] == d[j],
                self.width == old(self).width,
                self.height == old(self).height,
                self.color == old(self).color,
                d == old(self).data@,
            decreases len - i,
        {
            self.data.set(i, 255);
            if len - i < 4 {
                i = len;
            } else {
                i = i + 4;
            }
        }
        assert(self.data@ =~= opaque(d));
    }
}

} // verus!
