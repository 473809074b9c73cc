//! The server's check of a file before it sends it, and how many threads
//! and connections client and server run.

use vstd::prelude::*;

use vstd::string::StringSliceAdditionalSpecFns;

use crate::file_name::{parse_file_name_spec, ParseFileNameError};
use crate::protocol::{HeaderModel, ResponseHeader};

verus! {

/// Why the server refuses to serve a file; it answers `FileNameInvalid`.
#[derive(Debug, Clone, Copy, PartialEq, Eq, Structural)]
pub enum FileRejection {
    /// The file name is not UTF-8.
    NotUtf8,
    /// The file name is not the name of a response header.
    Name(ParseFileNameError),
    /// The payload length in the name is not the size of the file.
    SizeMismatch,
    /// The hash in the name is not the hash of the file.
    HashMismatch,
}

/// The check of a file whose name has the bytes `name` (`None` when the
/// name is not UTF-8), whose size is `fs_size` and whose contents hash to
/// `hash`: its header when the name parses and agrees with size and hash.
pub open spec fn check_spec(name: Option<Seq<u8>>, fs_size: u64, hash: Seq<u8>) -> Result<
    HeaderModel,
    FileRejection,
> {
    match name {
        None => Err(FileRejection::NotUtf8),
        Some(n) => match parse_file_name_spec(n) {
            Err(e) => Err(FileRejection::Name(e)),
            Ok(h) => if h.payload_len != fs_size {
                Err(FileRejection::SizeMismatch)
            } else if h.file_hash != hash {
                Err(FileRejection::HashMismatch)
            } else {
                Ok(h)
            },
        },
    }
}

/// The bytes of an optional name.
pub open spec fn name_bytes(name: Option<&str>) -> Option<Seq<u8>> {
    match name {
        Some(n) => Some(n.spec_bytes()),
        None => None,
    }
}

/// The model of what `check_file` returns.
pub open spec fn checked_model(r: Result<ResponseHeader, FileRejection>) -> Result<
    HeaderModel,
    FileRejection,
> {
    match r {
        Ok(h) => Ok(h@),
        Err(e) => Err(e),
    }
}

/// Checks the file at a client's cursor before the server sends it, given
/// the file's name (`None` when it is not UTF-8), its size on disk and the
/// SHA-1 hash of its contents: the header that its name parses to, when
/// that header agrees with size and hash.
pub fn check_file(file_name: Option<&str>, fs_size: u64, hash: &[u8; 20]) -> (r: Result<
    ResponseHeader,
    FileRejection,
>)
    ensures
        checked_model(r) == check_spec(name_bytes(file_name), fs_size, hash@),
{
    let name = match file_name {
        Some(n) => n,
        None => {
            return Err(FileRejection::NotUtf8);
        },
    };
    let header = match ResponseHeader::try_from(name) {
        Ok(h) => h,
        Err(e) => {
            return Err(FileRejection::Name(e));
        },
    };
    if header.payload_len() as u64 != fs_size {
        return Err(FileRejection::SizeMismatch);
    }
    if !header.matches_hash(hash) {
        return Err(FileRejection::HashMismatch);
    }
    Ok(header)
}

/// The worker threads of the runtime: all available threads but the main
/// one (none when only the main thread is available).
pub fn worker_threads(total_threads: usize) -> (w: usize)
    ensures
        w == if total_threads == 0 { 0 } else { total_threads - 1 },
{
    total_threads.saturating_sub(1)
}

/// The number of connections the client runs: as many as asked for, or one
/// per thread (workers and main) when none is asked for.
pub fn task_count(requested: u32, worker_threads: usize) -> (n: usize)
    requires
        worker_threads < usize::MAX,
    ensures
        n == if requested == 0 { worker_threads + 1 } else { requested as int },
{
    if requested == 0 {
        worker_threads + 1
    } else {
        requested as usize
    }
}

/// A file named after its own header, whose size and hash agree with that
/// header, passes the check with that header.
pub proof fn lemma_named_file_is_served(h: HeaderModel)
    requires
        h.file_hash.len() == 20,
    ensures
        check_spec(Some(crate::file_name::file_name_spec(h)), h.payload_len as u64, h.file_hash)
            == Ok::<HeaderModel, FileRejection>(h),
{
    crate::file_name::lemma_file_name_roundtrip(h);
}

/// What the check lets through and what it refuses: a file passes only with
/// the header its name parses to, and only when that header announces the
/// file's own size and hash; every other outcome names the first thing that
/// is wrong.
pub proof fn lemma_check_file_outcomes(name: Option<Seq<u8>>, fs_size: u64, hash: Seq<u8>)
    ensures
        check_spec(name, fs_size, hash) matches Ok(h) ==> {
            &&& name is Some
            &&& parse_file_name_spec(name.unwrap()) == Ok::<HeaderModel, ParseFileNameError>(h)
            &&& h.payload_len == fs_size
            &&& h.file_hash == hash
        },
        name is None ==> check_spec(name, fs_size, hash) == Err::<HeaderModel, FileRejection>(
            FileRejection::NotUtf8,
        ),
        name matches Some(n) ==> (parse_file_name_spec(n) matches Err(e) ==> check_spec(
            name,
            fs_size,
            hash,
        ) == Err::<HeaderModel, FileRejection>(FileRejection::Name(e))),
        name matches Some(n) ==> (parse_file_name_spec(n) matches Ok(h) ==> (h.payload_len
            != fs_size ==> check_spec(name, fs_size, hash) == Err::<HeaderModel, FileRejection>(
            FileRejection::SizeMismatch,
        ))),
        name matches Some(n) ==> (parse_file_name_spec(n) matches Ok(h) ==> (h.payload_len
            == fs_size && h.file_hash != hash ==> check_spec(name, fs_size, hash) == Err::<
            HeaderModel,
            FileRejection,
        >(FileRejection::HashMismatch))),
{
}

} // verus!
