//! Measuring one file: its length, and the length of its gzip and brotli encodings.

use crate::size::FileSizeInfo;
use async_compression::tokio::bufread::{BrotliEncoder, GzipEncoder};
use futures::FutureExt;
use tokio::io::AsyncReadExt;
use vstd::prelude::*;

verus! {

/// What the gzip pass over `content` gives: the length of its gzip encoding
/// at the encoder's default level, or `None` where the pass fails.
pub uninterp spec fn gzip_pass(content: Seq<u8>) -> Option<usize>;

/// `GzipEncoder::new` over the bytes, read to its end with
/// `AsyncReadExt::read_to_end`: the number of bytes that the encoder
/// produced, or `None` where the encoder failed. The read is polled once
/// with `FutureExt::now_or_never`, since reading from memory never waits.
/// What comes back depends on the content alone. The encoded bytes are
/// dropped.
#[verifier::external_body]
fn gzip_encoded_len(content: &[u8]) -> (len: Option<usize>)
    ensures
        len == gzip_pass(content@),
{
    let mut encoder = GzipEncoder::new(content);
    let mut buffer = Vec::new();
    encoder.read_to_end(&mut buffer).now_or_never()?.ok()
}

/// `BrotliEncoder::new` over the bytes, read to its end with
/// `AsyncReadExt::read_to_end`: the number of bytes that the encoder
/// produced, or `None` where the encoder failed. The read is polled once
/// with `FutureExt::now_or_never`, since reading from memory never waits.
/// The encoder weighs its choices in floating point, so nothing is said of
/// the number. The encoded bytes are dropped.
#[verifier::external_body]
fn brotli_encoded_len(content: &[u8]) -> (len: Option<usize>) {
    let mut encoder = BrotliEncoder::new(content);
    let mut buffer = Vec::new();
    encoder.read_to_end(&mut buffer).now_or_never()?.ok()
}

/// Why a file could not be measured: the codec whose pass failed.
#[derive(Clone, Copy, Debug, PartialEq, Eq, Structural)]
pub enum MeasureError {
    Gzip,
    Brotli,
}

/// The measurement that the two passes over a file of `uncompressed` bytes
/// add up to. A failed pass fails the whole measurement, the gzip pass first.
pub open spec fn combined(
    uncompressed: usize,
    gzip: Option<usize>,
    brotli: Option<usize>,
) -> Result<FileSizeInfo, MeasureError> {
    match (gzip, brotli) {
        (Some(g), Some(b)) => Ok(FileSizeInfo { uncompressed, gzip: Some(g), brotli: Some(b) }),
        (None, _) => Err(MeasureError::Gzip),
        (Some(_), None) => Err(MeasureError::Brotli),
    }
}

/// How measuring a file with the given content ends, given what the brotli
/// pass over it returned: with its length and the lengths of both encodings
/// where both passes succeed, else with the codec whose pass failed, the gzip
/// pass first.
pub open spec fn measured_with(content: Seq<u8>, brotli: Option<usize>) -> Result<
    FileSizeInfo,
    MeasureError,
> {
    combined(content.len() as usize, gzip_pass(content), brotli)
}

/// The measurement that the two passes over a file of `uncompressed` bytes
/// add up to. A failed pass fails the whole measurement, the gzip pass first.
pub fn combine_passes(
    uncompressed: usize,
    gzip: Option<usize>,
    brotli: Option<usize>,
) -> (outcome: Result<FileSizeInfo, MeasureError>)
    ensures
        outcome == combined(uncompressed, gzip, brotli),
{
    match (gzip, brotli) {
        (Some(g), Some(b)) => Ok(FileSizeInfo { uncompressed, gzip: Some(g), brotli: Some(b) }),
        (None, _) => Err(MeasureError::Gzip),
        (Some(_), None) => Err(MeasureError::Brotli),
    }
}

/// Measures a file's content: its length and the lengths of its two
/// encodings, each pass run over the whole content. The outcome is what the
/// two passes add up to, whatever the brotli pass returned: a failed gzip
/// pass always fails the measurement, and a measurement that succeeds holds
/// the length of the content, the length of its gzip encoding and a brotli
/// estimate.
pub fn measure(content: &[u8]) -> (outcome: Result<FileSizeInfo, MeasureError>)
    ensures
        exists|brotli: Option<usize>| outcome == #[trigger] measured_with(content@, brotli),
        gzip_pass(content@) is None ==> outcome == Err::<FileSizeInfo, MeasureError>(
            MeasureError::Gzip,
        ),
        outcome matches Ok(size) ==> size.uncompressed == content@.len() && size.gzip is Some
            && size.gzip == gzip_pass(content@) && size.brotli is Some,
        outcome matches Err(codec) ==> (codec == MeasureError::Gzip <==> gzip_pass(content@)
            is None),
{
    let gzip = gzip_encoded_len(content);
    let brotli = brotli_encoded_len(content);
    let outcome = combine_passes(content.len(), gzip, brotli);
    assert(outcome == measured_with(content@, brotli));
    outcome
}

/// Two measurements of the same content agree in all that does not rest on
/// the brotli pass: they fail on the gzip pass together, and where both
/// succeed they hold the same length and the same gzip estimate. Where the
/// brotli pass returned the same both times, they are the same.
pub proof fn lemma_measurements_agree(
    content: Seq<u8>,
    first_brotli: Option<usize>,
    second_brotli: Option<usize>,
)
    ensures
        (measured_with(content, first_brotli) == Err::<FileSizeInfo, MeasureError>(
            MeasureError::Gzip,
        )) == (measured_with(content, second_brotli) == Err::<FileSizeInfo, MeasureError>(
            MeasureError::Gzip,
        )),
        measured_with(content, first_brotli) matches Ok(first) ==> (measured_with(
            content,
            second_brotli,
        ) matches Ok(second) ==> first.uncompressed == second.uncompressed && first.gzip
            == second.gzip),
        first_brotli == second_brotli ==> measured_with(content, first_brotli) == measured_with(
            content,
            second_brotli,
        ),
{
}

} // verus!
