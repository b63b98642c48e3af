//! Frames and pixel layouts.
//!
//! The decode backend delivers raw samples whose pixel layout is one of a
//! small canonical set, tagged by the backend's format name.  Every frame
//! stored in the shared slot is normalized to tightly packed 3-channel
//! RGB bytes: an alpha channel is dropped, a reversed channel order is
//! swapped.

use vstd::prelude::*;

verus! {

/// The pixel layouts the core accepts from the decode backend, each one
/// byte per channel.
#[derive(Clone, Copy, PartialEq, Eq, Structural, Debug)]
pub enum TextureFormat {
    RGBU8,
    RGBAU8,
    BGRU8,
    BGRAU8,
}

impl TextureFormat {
    /// Bytes per pixel in a raw sample of this layout.
    pub open spec fn spec_channels(self) -> int {
        match self {
            TextureFormat::RGBU8 => 3,
            TextureFormat::RGBAU8 => 4,
            TextureFormat::BGRU8 => 3,
            TextureFormat::BGRAU8 => 4,
        }
    }

    /// Bytes per pixel, as an executable value.
    pub fn channels(&self) -> (n: usize)
        ensures
            n as int == self.spec_channels(),
    {
        match self {
            TextureFormat::RGBU8 => 3,
            TextureFormat::RGBAU8 => 4,
            TextureFormat::BGRU8 => 3,
            TextureFormat::BGRAU8 => 4,
        }
    }

    /// Which byte of a raw pixel supplies canonical channel `c`
    /// (0 = red, 1 = green, 2 = blue).
    pub open spec fn spec_source_channel(self, c: int) -> int {
        match self {
            TextureFormat::RGBU8 => c,
            TextureFormat::RGBAU8 => c,
            TextureFormat::BGRU8 => 2 - c,
            TextureFormat::BGRAU8 => 2 - c,
        }
    }
}

/// Classification of a backend format name into the canonical set.  Any
/// other layout is unsupported and makes its sample a fatal per-sample
/// error.
pub open spec fn spec_classify(name: Seq<char>) -> Option<TextureFormat> {
    if name == "RGB"@ {
        Some(TextureFormat::RGBU8)
    } else if name == "RGBA"@ {
        Some(TextureFormat::RGBAU8)
    } else if name == "BGR"@ {
        Some(TextureFormat::BGRU8)
    } else if name == "BGRA"@ {
        Some(TextureFormat::BGRAU8)
    } else {
        None
    }
}

/// Relies on `str`'s `PartialEq`: `==` on string slices holds exactly when
/// they consist of the same characters.
#[verifier::external_body]
pub(crate) fn str_eq(a: &str, b: &str) -> (r: bool)
    ensures
        r == (a@ == b@),
{
    a == b
}

/// Classifies a backend format name into the canonical pixel-layout set.
pub fn classify(name: &str) -> (r: Option<TextureFormat>)
    ensures
        r == spec_classify(name@),
{
    if str_eq(name, "RGB") {
        Some(TextureFormat::RGBU8)
    } else if str_eq(name, "RGBA") {
        Some(TextureFormat::RGBAU8)
    } else if str_eq(name, "BGR") {
        Some(TextureFormat::BGRU8)
    } else if str_eq(name, "BGRA") {
        Some(TextureFormat::BGRAU8)
    } else {
        None
    }
}

/// The canonical RGB bytes of pixel `p` of a raw sample in layout
/// `format`.
pub open spec fn pixel_rgb(format: TextureFormat, data: Seq<u8>, p: int) -> Seq<u8> {
    seq![
        data[p * format.spec_channels() + format.spec_source_channel(0)],
        data[p * format.spec_channels() + format.spec_source_channel(1)],
        data[p * format.spec_channels() + format.spec_source_channel(2)],
    ]
}

/// The canonical RGB image of the first `pixels` pixels of a raw sample
/// in layout `format`: the concatenation of the canonical bytes of each
/// pixel, in order.
pub open spec fn canonical_rgb(format: TextureFormat, data: Seq<u8>, pixels: nat) -> Seq<u8>
    decreases pixels,
{
    if pixels == 0 {
        Seq::<u8>::empty()
    } else {
        canonical_rgb(format, data, (pixels - 1) as nat) + pixel_rgb(format, data, pixels - 1)
    }
}

/// The canonical image carries three bytes per pixel.
pub proof fn lemma_canonical_rgb_len(format: TextureFormat, data: Seq<u8>, pixels: nat)
    ensures
        canonical_rgb(format, data, pixels).len() == 3 * pixels,
    decreases pixels,
{
    if pixels > 0 {
        lemma_canonical_rgb_len(format, data, (pixels - 1) as nat);
    }
}

/// Each canonical byte comes from the right place in the raw sample:
/// channel `c` of pixel `q` is byte `spec_source_channel(c)` of raw pixel
/// `q`.
pub proof fn lemma_canonical_rgb_index(format: TextureFormat, data: Seq<u8>, pixels: nat, q: int, c: int)
    requires
        0 <= q < pixels,
        0 <= c < 3,
    ensures
        canonical_rgb(format, data, pixels)[3 * q + c] == data[q * format.spec_channels()
            + format.spec_source_channel(c)],
    decreases pixels,
{
    lemma_canonical_rgb_len(format, data, (pixels - 1) as nat);
    if q + 1 < pixels {
        lemma_canonical_rgb_index(format, data, (pixels - 1) as nat, q, c);
    }
}

/// Converts a raw sample of `pixels` pixels in layout `format` to the
/// canonical tightly packed RGB image.
pub fn convert_to_rgb(format: TextureFormat, pixels: usize, data: &Vec<u8>) -> (out: Vec<u8>)
    requires
        data@.len() == pixels * format.spec_channels(),
    ensures
        out@ == canonical_rgb(format, data@, pixels as nat),
        out@.len() == 3 * pixels,
{
    let channels = format.channels();
    let len = data.len();
    let mut out: Vec<u8> = Vec::new();
    let mut p: usize = 0;
    while p < pixels
        invariant
            p <= pixels,
            len == data@.len(),
            data@.len() == pixels * format.spec_channels(),
            channels as int == format.spec_channels(),
            out@ == canonical_rgb(format, data@, p as nat),
            out@.len() == 3 * p,
        decreases pixels - p,
    {
        proof {
            assert((p + 1) * (channels as int) <= pixels * (channels as int)) by (nonlinear_arith)
                requires
                    p < pixels,
                    channels >= 0,
            ;
            assert((p + 1) * (channels as int) == p * (channels as int) + channels)
                by (nonlinear_arith);
            assert(channels >= 3);
        }
        let base = p * channels;
        let (b0, b1, b2) = match format {
            TextureFormat::RGBU8 => (data[base], data[base + 1], data[base + 2]),
            TextureFormat::RGBAU8 => (data[base], data[base + 1], data[base + 2]),
            TextureFormat::BGRU8 => (data[base + 2], data[base + 1], data[base]),
            TextureFormat::BGRAU8 => (data[base + 2], data[base + 1], data[base]),
        };
        out.push(b0);
        out.push(b1);
        out.push(b2);
        proof {
            assert(out@ =~= canonical_rgb(format, data@, (p + 1) as nat));
        }
        p = p + 1;
    }
    proof {
        lemma_canonical_rgb_len(format, data@, pixels as nat);
    }
    out
}

} // verus!
