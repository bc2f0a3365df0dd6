//! Builds a multi-resolution icon container from a decoded raster image.
//!
//! The library decodes an image buffer, renders one scaled, centered,
//! alpha-padded square canvas per requested size, compresses each canvas,
//! and serializes the results into the icon container's exact binary
//! layout: a 6-byte header, one 16-byte directory record per entry, and
//! the concatenated image payloads.

use vstd::prelude::*;

pub mod compose;
pub mod error;
pub mod layout;

use crate::compose::compose;
use crate::compose::decode_image;
use crate::compose::decodes;
use crate::compose::valid_canvas_size;
use crate::error::IcoError;
use crate::layout::assemble;
use crate::layout::fits_in_container;
use crate::layout::ico_bytes;
use crate::layout::sum_lens;
use crate::layout::lemma_sum_lens_push;
use crate::layout::MAX_ENTRIES;

verus! {

/// Converts an encoded raster image into a multi-resolution icon
/// container holding one centered square rendition per requested size,
/// in list order.  On success the returned buffer is exactly the byte
/// image that `layout::ico_bytes` describes for the requested sizes and
/// the payloads that were encoded, so every directory record's size
/// byte, length and offset are exact.  Failures are owed, terminal, and
/// produce no buffer: `DecodeError`, carrying the decoder's message,
/// comes exactly when the buffer does not decode; on a decodable buffer
/// an entry count beyond the 2-byte count field comes back as
/// `TooManyEntries`, the first unusable size as `InvalidSize`, and only
/// the encoder's own failure surface is left as `EncodingFailure`.
pub fn img2ico(buffer: &[u8], sizes: &[u32]) -> (r: Result<Vec<u8>, IcoError>)
    ensures
        r matches Ok(out) ==> {
            &&& decodes(buffer@)
            &&& sizes@.len() <= MAX_ENTRIES
            &&& forall|i: int| 0 <= i < sizes@.len() ==> valid_canvas_size(#[trigger] sizes@[i])
            &&& exists|payloads: Seq<Seq<u8>>|
                {
                    &&& payloads.len() == sizes@.len()
                    &&& fits_in_container(sizes@, payloads)
                    &&& out@ == ico_bytes(sizes@, payloads)
                }
        },
        r matches Err(IcoError::DecodeError { .. }) ==> !decodes(buffer@),
        !decodes(buffer@) ==> r matches Err(IcoError::DecodeError { .. }),
        r matches Err(IcoError::TooManyEntries { count }) ==> decodes(buffer@) && count
            == sizes@.len() && sizes@.len() > MAX_ENTRIES,
        decodes(buffer@) && sizes@.len() > MAX_ENTRIES ==> (r matches Err(
            IcoError::TooManyEntries { count },
        ) && count == sizes@.len()),
        r matches Err(IcoError::InvalidSize { size }) ==> decodes(buffer@) && sizes@.len()
            <= MAX_ENTRIES && exists|k: int|
            0 <= k < sizes@.len() && #[trigger] sizes@[k] == size && !valid_canvas_size(size) && (
            forall|j: int| 0 <= j < k ==> valid_canvas_size(#[trigger] sizes@[j])),
        r matches Err(IcoError::EncodingFailure { .. }) ==> decodes(buffer@) && sizes@.len()
            <= MAX_ENTRIES && exists|k: int|
            0 <= k < sizes@.len() && #[trigger] valid_canvas_size(sizes@[k]) && (forall|j: int|
                0 <= j < k ==> valid_canvas_size(#[trigger] sizes@[j])),
        decodes(buffer@) && sizes@.len() <= MAX_ENTRIES && (forall|i: int|
            0 <= i < sizes@.len() ==> valid_canvas_size(#[trigger] sizes@[i])) ==> (r is Ok || (r
            is Err && r->Err_0 is EncodingFailure)),
{
    let img = match decode_image(buffer) {
        Ok(img) => img,
        Err(message) => {
            return Err(IcoError::DecodeError { message });
        },
    };
    let n = sizes.len();
    if n > MAX_ENTRIES {
        return Err(IcoError::TooManyEntries { count: n });
    }
    let mut payloads: Vec<Vec<u8>> = Vec::new();
    let mut total: u64 = 0;
    let mut i: usize = 0;
    while i < n
        invariant
            decodes(buffer@),
            i <= n,
            n == sizes@.len(),
            n <= MAX_ENTRIES,
            payloads@.len() == i,
            forall|k: int| 0 <= k < i ==> valid_canvas_size(#[trigger] sizes@[k]),
            total == sum_lens(payloads.deep_view()),
            total <= i * 0xFFFF_FFFFu64,
        decreases n - i,
    {
        let payload = match compose(&img, sizes[i]) {
            Ok(payload) => payload,
            Err(e) => {
                proof {
                    match e {
                        IcoError::InvalidSize { size } => {
                            assert(sizes@[i as int] == size && !valid_canvas_size(size));
                            assert(exists|k: int|
                                0 <= k < sizes@.len() && #[trigger] sizes@[k] == size
                                    && !valid_canvas_size(size) && (forall|j: int|
                                    0 <= j < k ==> valid_canvas_size(#[trigger] sizes@[j])));
                        },
                        IcoError::EncodingFailure { .. } => {
                            assert(valid_canvas_size(sizes@[i as int]));
                        },
                        _ => {},
                    }
                }
                return Err(e);
            },
        };
        if payload.len() > 0xFFFF_FFFFusize {
            assert(valid_canvas_size(sizes@[i as int]));
            return Err(
                IcoError::EncodingFailure {
                    message: "payload too large for the container's 32-bit fields".to_owned(),
                },
            );
        }
        let ghost pre = payloads.deep_view();
        total = total + payload.len() as u64;
        payloads.push(payload);
        proof {
            assert(payloads.deep_view() =~~= pre.push(payloads@[i as int]@));
            lemma_sum_lens_push(pre, payloads@[i as int]@);
        }
        i = i + 1;
    }
    let dir: u64 = 6 + 16 * (n as u64);
    if total > 0xFFFF_FFFFu64 - dir {
        assert(n > 0) by {
            if n == 0 {
                assert(sum_lens(payloads.deep_view()) == 0);
            }
        }
        assert(valid_canvas_size(sizes@[n as int - 1]));
        return Err(
            IcoError::EncodingFailure {
                message: "payloads too large for the container's 32-bit offsets".to_owned(),
            },
        );
    }
    assert(fits_in_container(sizes@, payloads.deep_view()));
    match assemble(sizes, &payloads) {
        Ok(out) => Ok(out),
        Err(e) => Err(e),
    }
}

} // verus!
