//! Compression of saved data (zstd, default level) and the format of a line
//! of a log file. Reading and writing files happens outside this library.
use vstd::prelude::*;
use crate::text::cat3;

verus! {

/// Errors of persistence.
pub enum PersistenceError {
    /// Reading, writing or (de)compressing failed, with the message.
    IoError(String),
    /// Serialising failed, with the message.
    JsonError(String),
    /// The path has no parent directory.
    MissingParent(String),
}

/// The zstd frame that `zstd::stream::encode_all` at level 0 (the default
/// level) produces for `data`.
pub uninterp spec fn zstd_frame(data: Seq<u8>) -> Seq<u8>;

/// `zstd::stream::encode_all(data, 0)`, with the error's message. The frame
/// is only named here. Reading a byte slice and writing into a `Vec` cannot
/// fail, so the encoder fails only when zstd cannot allocate its context,
/// which aborts the process: the call succeeds.
#[verifier::external_body]
fn zstd_encode(data: &[u8]) -> (r: Result<Vec<u8>, String>)
    ensures
        r is Ok,
        r->Ok_0@ == zstd_frame(data@),
{
    match zstd::stream::encode_all(data, 0) {
        Ok(v) => Ok(v),
        Err(e) => Err(e.to_string()),
    }
}

/// `zstd::stream::decode_all(data)`, with the error's message. Decoding a
/// frame that `encode_all` produced gives back the data it was produced
/// from; nothing else is stated.
#[verifier::external_body]
fn zstd_decode(data: &[u8]) -> (r: Result<Vec<u8>, String>)
    ensures
        forall|d: Seq<u8>| #[trigger] zstd_frame(d) == data@ ==> (r is Ok && r->Ok_0@ == d),
{
    match zstd::stream::decode_all(data) {
        Ok(v) => Ok(v),
        Err(e) => Err(e.to_string()),
    }
}

/// Compress data with zstd at the default level.
pub fn compress(data: &[u8]) -> (r: Result<Vec<u8>, PersistenceError>)
    ensures
        r matches Ok(v) && v@ == zstd_frame(data@),
{
    match zstd_encode(data) {
        Ok(v) => Ok(v),
        Err(m) => Err(PersistenceError::IoError(m)),
    }
}

/// Decompress zstd data.
pub fn decompress(data: &[u8]) -> (r: Result<Vec<u8>, PersistenceError>)
    ensures
        forall|d: Seq<u8>| #[trigger] zstd_frame(d) == data@ ==> (r matches Ok(v) && v@ == d),
        r matches Err(e) ==> e is IoError,
{
    match zstd_decode(data) {
        Ok(v) => Ok(v),
        Err(m) => Err(PersistenceError::IoError(m)),
    }
}

/// A line of a log file: `"<timestamp> - <message>"`.
pub fn log_file_line(timestamp: &str, message: &str) -> (r: String)
    ensures
        r@ == timestamp@ + " - "@ + message@,
{
    cat3(timestamp, " - ", message)
}

} // verus!
