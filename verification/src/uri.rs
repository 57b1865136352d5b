//! The metadata renderer: the finished PNG as a base64 data URI.

use base64::Engine;
use vstd::prelude::*;
use vstd::string::StringExecFns;

use crate::art::{generate_nft, nft_grid};
use crate::png::{lemma_rows_bytes_len, lemma_zlib_blocks_len, png_spec};

verus! {

/// The base64 encoding of a byte string with the standard padded alphabet.
pub uninterp spec fn base64_of(data: Seq<u8>) -> Seq<char>;

/// Relies on base64's STANDARD engine (the standard alphabet with padding):
/// the encoding depends on the bytes alone. The bound keeps the encoded
/// length, four characters per three input bytes, within usize.
#[verifier::external_body]
fn base64_encode(data: &Vec<u8>) -> (r: String)
    requires
        4 * ((data@.len() + 2) / 3) <= usize::MAX,
    ensures
        r@ == base64_of(data@),
{
    base64::engine::general_purpose::STANDARD.encode(data.as_slice())
}

/// The metadata URI for a token: the fixed data URI prefix, then the
/// base64-encoded PNG of the token's grid.
pub open spec fn data_uri_spec(identity: Seq<u8>, token_le: Seq<u8>) -> Seq<char> {
    "data:image/png;base64,"@ + base64_of(png_spec(32, 32, nft_grid(identity, token_le)))
}

/// Renders a token's metadata URI: generates the image, encodes it as a
/// PNG, and base64-encodes that behind the `data:image/png;base64,` prefix.
pub fn render_data_uri(identity: &[u8], token_id_le: &[u8]) -> (uri: String)
    ensures
        uri@ == data_uri_spec(identity@, token_id_le@),
{
    let image = generate_nft(identity, token_id_le);
    let png = image.make_png();
    proof {
        let g = image.grid();
        lemma_rows_bytes_len(g, 32);
        lemma_zlib_blocks_len(crate::png::rows_bytes(g));
        assert(png@.len() <= 0x10_0000);
    }
    let b64 = base64_encode(&png);
    let mut uri = String::from_str("data:image/png;base64,");
    uri.append(b64.as_str());
    uri
}

} // verus!
