//! Object storage (S3) requests: which bucket, key, content type and body an
//! operation sends, and how an answer without a body is refused.

use vstd::prelude::*;
use vstd::string::{StringExecFns, StrSliceExecFns};
use vstd::utf8::encode_utf8;

verus! {

/// Errors of the engine's storage operations.
pub enum EngineError {
    /// A failure the engine itself reports, with its message.
    Manager(String),
    /// A failure reported by the storage service or while reading its answer,
    /// as text.
    External(String),
}

/// The message of a `Manager` error, if `e` is one.
pub open spec fn manager_message(e: EngineError) -> Option<Seq<char>> {
    match e {
        EngineError::Manager(m) => Some(m@),
        EngineError::External(_) => None,
    }
}

/// Content type of every stored object.
pub const OBJECT_CONTENT_TYPE: &'static str = "application/json";

/// A request that names one object.
pub struct ObjectRequest {
    pub bucket: String,
    pub key: String,
}

/// A request that stores an object.
pub struct PutObjectRequest {
    pub bucket: String,
    pub key: String,
    pub content_type: String,
    pub body: Vec<u8>,
}

/// The bucket named by `AWS_S3_BUCKET` (`raw`), used as it is; an error when
/// the variable is unset.
pub fn s3_bucket(raw: Option<&str>) -> (r: Result<String, EngineError>)
    ensures
        match raw {
            Some(b) => r matches Ok(s) && s@ == b@,
            None => r matches Err(e) && manager_message(e) == Some(
                "Missing AWS_S3_BUCKET env var"@,
            ),
        },
{
    match raw {
        Some(b) => Ok(String::from_str(b)),
        None => Err(EngineError::Manager(String::from_str("Missing AWS_S3_BUCKET env var"))),
    }
}

/// The request that stores `content` under `key`, as JSON, in the bucket
/// named by `AWS_S3_BUCKET` (`bucket_var`).
pub fn put_object_request(bucket_var: Option<&str>, key: &str, content: String) -> (r: Result<
    PutObjectRequest,
    EngineError,
>)
    ensures
        match bucket_var {
            Some(b) => r matches Ok(q) && q.bucket@ == b@ && q.key@ == key@ && q.content_type@
                == OBJECT_CONTENT_TYPE@ && q.body@ == encode_utf8(content@),
            None => r matches Err(e) && manager_message(e) == Some(
                "Missing AWS_S3_BUCKET env var"@,
            ),
        },
{
    let bucket = match s3_bucket(bucket_var) {
        Ok(b) => b,
        Err(e) => return Err(e),
    };
    let body = content.as_str().as_bytes_vec();
    Ok(
        PutObjectRequest {
            bucket,
            key: String::from_str(key),
            content_type: String::from_str(OBJECT_CONTENT_TYPE),
            body,
        },
    )
}

/// The request that names the object under `key` in the bucket named by
/// `AWS_S3_BUCKET` (`bucket_var`), to read or to delete it.
pub fn object_request(bucket_var: Option<&str>, key: &str) -> (r: Result<
    ObjectRequest,
    EngineError,
>)
    ensures
        match bucket_var {
            Some(b) => r matches Ok(q) && q.bucket@ == b@ && q.key@ == key@,
            None => r matches Err(e) && manager_message(e) == Some(
                "Missing AWS_S3_BUCKET env var"@,
            ),
        },
{
    let bucket = match s3_bucket(bucket_var) {
        Ok(b) => b,
        Err(e) => return Err(e),
    };
    Ok(ObjectRequest { bucket, key: String::from_str(key) })
}

/// The body of a fetched object; an error when the answer has none.
pub fn object_body<T>(body: Option<T>) -> (r: Result<T, EngineError>)
    ensures
        match body {
            Some(b) => r matches Ok(x) && x == b,
            None => r matches Err(e) && manager_message(e) == Some("empty object"@),
        },
{
    match body {
        Some(b) => Ok(b),
        None => Err(EngineError::Manager(String::from_str("empty object"))),
    }
}

} // verus!
