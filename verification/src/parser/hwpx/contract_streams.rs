//! The streams an HWP 5.0 file is expected to carry beyond the body, made
//! from the matching parts of an HWPX container when it has them:
//! `Preview/PrvText.txt` (UTF-8) becomes `/PrvText` (UTF-16LE),
//! `Preview/PrvImage.png` is passed through as `/PrvImage`, and
//! `Scripts/sourceScripts` becomes `/Scripts/DefaultJScript`, zlib-compressed.
//! A part the container lacks gives no stream.

use vstd::prelude::*;
use crate::text::{utf16_of, le_units, utf16_le_of};

verus! {

/// What flate2's zlib encoder, at the default compression level, makes of
/// `input` when it is written whole into a `Vec` and the encoder finished:
/// the compressed bytes, or `None` where the encoder reports an error.
pub uninterp spec fn zlib_deflated(input: Seq<u8>) -> Option<Seq<u8>>;

/// `flate2::write::ZlibEncoder` over a `Vec`, at `Compression::default()`:
/// all of `input` is written and the encoder finished. The outcome, success
/// or failure, depends on `input` alone and is `zlib_deflated(input)`.
#[verifier::external_body]
fn zlib_deflate(input: &[u8]) -> (r: Option<Vec<u8>>)
    ensures
        match zlib_deflated(input@) {
            Some(v) => r matches Some(x) && x@ == v,
            None => r is None,
        },
{
    let mut encoder = flate2::write::ZlibEncoder::new(Vec::new(), flate2::Compression::default());
    std::io::Write::write_all(&mut encoder, input).ok()?;
    encoder.finish().ok()
}

/// Streams as `(path, data)` pairs, to be added to an HWP file as they are.
#[derive(Debug)]
pub struct ContractStreams {
    pub streams: Vec<(String, Vec<u8>)>,
}

pub open spec fn streams_view(c: ContractStreams) -> Seq<(Seq<char>, Seq<u8>)> {
    c.streams@.map_values(|e: (String, Vec<u8>)| (e.0@, e.1@))
}

/// The characters of a string, when there is one.
pub open spec fn opt_chars(o: Option<&str>) -> Option<Seq<char>> {
    match o {
        Some(t) => Some(t@),
        None => None,
    }
}

/// The bytes of a buffer, when there is one.
pub open spec fn opt_bytes(o: Option<Vec<u8>>) -> Option<Seq<u8>> {
    match o {
        Some(b) => Some(b@),
        None => None,
    }
}

/// The streams for a preview text, a preview image and compressed scripts,
/// each when present, in that order.
pub open spec fn contract_streams_spec(
    prv_text: Option<Seq<char>>,
    prv_image: Option<Seq<u8>>,
    scripts: Option<Seq<u8>>,
) -> Seq<(Seq<char>, Seq<u8>)> {
    (match prv_text {
        Some(t) => seq![("/PrvText"@, le_units(utf16_of(t)))],
        None => seq![],
    }) + (match prv_image {
        Some(b) => seq![("/PrvImage"@, b)],
        None => seq![],
    }) + (match scripts {
        Some(z) => seq![("/Scripts/DefaultJScript"@, z)],
        None => seq![],
    })
}

/// The streams for the preview text, the preview image and the already
/// compressed scripts of a container, each when present.
pub fn contract_streams_of(
    prv_text: Option<&str>,
    prv_image: Option<Vec<u8>>,
    deflated_scripts: Option<Vec<u8>>,
) -> (r: ContractStreams)
    ensures
        streams_view(r) == contract_streams_spec(opt_chars(prv_text), opt_bytes(prv_image), opt_bytes(deflated_scripts)),
{
    let ghost t = opt_chars(prv_text);
    let ghost i = opt_bytes(prv_image);
    let ghost z = opt_bytes(deflated_scripts);
    let mut streams: Vec<(String, Vec<u8>)> = Vec::new();
    if let Some(t) = prv_text {
        let bytes = utf16_le_of(t);
        streams.push(("/PrvText".to_owned(), bytes));
    }
    if let Some(b) = prv_image {
        streams.push(("/PrvImage".to_owned(), b));
    }
    if let Some(z) = deflated_scripts {
        streams.push(("/Scripts/DefaultJScript".to_owned(), z));
    }
    let r = ContractStreams { streams };
    assert(streams_view(r) =~= contract_streams_spec(t, i, z));
    r
}

/// The scripts stream's content for the given scripts: their zlib
/// compression, when there are scripts and the compression succeeds.
pub open spec fn deflated_scripts(source_scripts: Option<&[u8]>) -> Option<Seq<u8>> {
    match source_scripts {
        Some(s) => zlib_deflated(s@),
        None => None,
    }
}

/// The streams made from the preview text, the preview image and the
/// scripts of an HWPX container, each when present. The scripts are
/// compressed with zlib; should the compression fail, their stream is left
/// out.
pub fn extract_contract_streams(
    prv_text: Option<&str>,
    prv_image: Option<Vec<u8>>,
    source_scripts: Option<&[u8]>,
) -> (r: ContractStreams)
    ensures
        streams_view(r) == contract_streams_spec(
            opt_chars(prv_text),
            opt_bytes(prv_image),
            deflated_scripts(source_scripts),
        ),
{
    let deflated = match source_scripts {
        Some(s) => zlib_deflate(s),
        None => None,
    };
    contract_streams_of(prv_text, prv_image, deflated)
}

} // verus!
