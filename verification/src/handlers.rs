//! The endpoint handlers: echo (with optional gzip), user-agent, and the
//! response side of the file endpoints. The file handlers take the outcome
//! of the filesystem work as a value and decide the response; nothing here
//! touches the filesystem.

use vstd::prelude::*;

use crate::codec::{accepts_gzip, gunzip_of, maybe_compress};
use crate::constants::{
    content_type_octet_stream, content_type_plain, gzip_token, hdr_content_encoding,
    hdr_content_length, hdr_content_type,
};
use crate::errors::{FsErrorKind, HttpError};
use crate::response::{dec_digits, Response, Status};

verus! {

/// What an optional borrowed byte vector denotes.
pub open spec fn opt_bytes_view(x: Option<&Vec<u8>>) -> Option<Seq<u8>> {
    match x {
        Some(v) => Some(v@),
        None => None,
    }
}

/// The headers of a plain-text response with a body of `len` bytes.
pub open spec fn plain_text_headers(len: int) -> Map<Seq<u8>, Seq<u8>> {
    Map::<Seq<u8>, Seq<u8>>::empty().insert(hdr_content_type(), content_type_plain()).insert(
        hdr_content_length(),
        dec_digits(len),
    )
}

/// The headers of a gzip-coded plain-text response whose compressed body
/// has `len` bytes.
pub open spec fn gzip_text_headers(len: int) -> Map<Seq<u8>, Seq<u8>> {
    Map::<Seq<u8>, Seq<u8>>::empty().insert(hdr_content_encoding(), gzip_token()).insert(
        hdr_content_type(),
        content_type_plain(),
    ).insert(hdr_content_length(), dec_digits(len))
}

/// What the echo endpoint answers: 200 with the content as plain text; when
/// the client's `accept-encoding` names gzip, the body is instead a gzip
/// stream that decompresses to exactly the content, marked
/// `Content-Encoding: gzip`. Either way `Content-Length` is the exact byte
/// length of the body sent.
pub open spec fn echo_response(content: Seq<u8>, ae: Option<Seq<u8>>, r: Response) -> bool {
    let wants_gzip = match ae {
        Some(h) => accepts_gzip(h),
        None => false,
    };
    &&& r.wf()
    &&& r.status == Status::Ok200
    &&& (wants_gzip ==> gunzip_of(r.body@) == Some(content) && r.headers@ == gzip_text_headers(
        r.body@.len() as int,
    ))
    &&& (!wants_gzip ==> r.body@ == content && r.headers@ == plain_text_headers(
        content.len() as int,
    ))
}

/// Answer the echo endpoint.
pub fn handle_echo(content: &[u8], accept_encoding: Option<&Vec<u8>>) -> (r: Response)
    ensures
        echo_response(content@, opt_bytes_view(accept_encoding), r),
{
    let (body, gzipped) = maybe_compress(
        vstd::slice::slice_to_vec(content),
        accept_encoding,
    );
    if gzipped {
        Response::new(Status::Ok200).with_header(
            "Content-Encoding".as_bytes(),
            "gzip".as_bytes(),
        ).with_header("Content-Type".as_bytes(), "text/plain".as_bytes()).with_body(body)
    } else {
        Response::new(Status::Ok200).with_text_body(content)
    }
}

/// What the user-agent endpoint answers: 200 with the `user-agent` header
/// value as plain text, or 400 when the request carried none.
pub open spec fn user_agent_response(ua: Option<Seq<u8>>, r: Response) -> bool {
    match ua {
        Some(a) => r.wf() && r.status == Status::Ok200 && r.body@ == a && r.headers@
            == plain_text_headers(a.len() as int),
        None => r.wf() && r.status == Status::BadRequest && r.headers@ == Map::<
            Seq<u8>,
            Seq<u8>,
        >::empty() && r.body@ == Seq::<u8>::empty(),
    }
}

/// Answer the user-agent endpoint.
pub fn handle_user_agent(user_agent: Option<&Vec<u8>>) -> (r: Response)
    ensures
        user_agent_response(opt_bytes_view(user_agent), r),
{
    match user_agent {
        Some(agent) => {
            let resp = Response::new(Status::Ok200).with_header(
                "Content-Type".as_bytes(),
                "text/plain".as_bytes(),
            ).with_text_body(agent.as_slice());
            proof {
                assert(resp.headers@ =~= plain_text_headers(agent@.len() as int));
            }
            resp
        },
        None => Response::new(Status::BadRequest),
    }
}

/// The error a failed file read maps to: a missing file, a denied one, or
/// an undistinguished I/O failure.
pub open spec fn spec_read_outcome(r: Result<Seq<u8>, FsErrorKind>) -> Result<Seq<u8>, HttpError> {
    match r {
        Ok(c) => Ok(c),
        Err(FsErrorKind::NotFound) => Err(HttpError::FileNotFound),
        Err(FsErrorKind::PermissionDenied) => Err(HttpError::PermissionDenied),
        Err(FsErrorKind::Other) => Err(HttpError::Io),
    }
}

/// What a result of reading file bytes denotes.
pub open spec fn read_result_view(r: Result<Vec<u8>, FsErrorKind>) -> Result<Seq<u8>, FsErrorKind> {
    match r {
        Ok(v) => Ok(v@),
        Err(k) => Err(k),
    }
}

/// Classify the outcome of reading the resolved file.
pub fn read_outcome(r: Result<Vec<u8>, FsErrorKind>) -> (out: Result<Vec<u8>, HttpError>)
    ensures
        match out {
            Ok(v) => spec_read_outcome(read_result_view(r)) == Ok::<Seq<u8>, HttpError>(v@),
            Err(e) => spec_read_outcome(read_result_view(r)) == Err::<Seq<u8>, HttpError>(e),
        },
{
    match r {
        Ok(c) => Ok(c),
        Err(FsErrorKind::NotFound) => Err(HttpError::FileNotFound),
        Err(FsErrorKind::PermissionDenied) => Err(HttpError::PermissionDenied),
        Err(FsErrorKind::Other) => Err(HttpError::Io),
    }
}

/// The status a failed file route answers with: 404 for a missing file,
/// 400 for everything else — a traversal, a denied path, a missing root
/// configuration, or any other I/O failure.
pub open spec fn file_error_status(e: HttpError) -> Status {
    if e == HttpError::FileNotFound {
        Status::NotFound
    } else {
        Status::BadRequest
    }
}

/// What a file-read outcome denotes.
pub open spec fn file_outcome_view(o: Result<Vec<u8>, HttpError>) -> Result<Seq<u8>, HttpError> {
    match o {
        Ok(v) => Ok(v@),
        Err(e) => Err(e),
    }
}

/// What the file-reading endpoint answers: 200 with the bytes as an octet
/// stream, or the failed outcome's status with an empty body.
pub open spec fn get_file_response(outcome: Result<Seq<u8>, HttpError>, r: Response) -> bool {
    match outcome {
        Ok(content) => r.wf() && r.status == Status::Ok200 && r.body@ == content && r.headers@
            == Map::<Seq<u8>, Seq<u8>>::empty().insert(
            hdr_content_type(),
            content_type_octet_stream(),
        ).insert(hdr_content_length(), dec_digits(content.len() as int)),
        Err(e) => r.wf() && r.status == file_error_status(e) && r.headers@ == Map::<
            Seq<u8>,
            Seq<u8>,
        >::empty() && r.body@ == Seq::<u8>::empty(),
    }
}

/// Answer the file-reading endpoint from the outcome of the read.
pub fn handle_get_file(outcome: Result<Vec<u8>, HttpError>) -> (r: Response)
    ensures
        get_file_response(file_outcome_view(outcome), r),
{
    match outcome {
        Ok(content) => Response::new(Status::Ok200).with_header(
            "Content-Type".as_bytes(),
            "application/octet-stream".as_bytes(),
        ).with_body(content),
        Err(e) => {
            if e == HttpError::FileNotFound {
                Response::new(Status::NotFound)
            } else {
                Response::new(Status::BadRequest)
            }
        },
    }
}

/// Answer the file-writing endpoint from the outcome of the write: 201 on
/// success, 400 on any failure, both with an empty body.
pub fn handle_post_file(outcome: Result<(), HttpError>) -> (r: Response)
    ensures
        r.wf(),
        r.headers@ == Map::<Seq<u8>, Seq<u8>>::empty(),
        r.body@ == Seq::<u8>::empty(),
        r.status == (match outcome {
            Ok(_) => Status::Created,
            Err(_) => Status::BadRequest,
        }),
{
    match outcome {
        Ok(_) => Response::new(Status::Created),
        Err(_) => Response::new(Status::BadRequest),
    }
}

/// Law: a canonical target outside the canonical root is refused as a
/// traversal — by the read resolution and the write resolution alike,
/// whatever file name a write would append — and a traversal answers 400.
pub proof fn lemma_traversal_rejected(t: Seq<u8>, r: Seq<u8>, leaf: Seq<u8>)
    requires
        !crate::paths::is_contained(t, r),
    ensures
        crate::paths::spec_resolve_read(Ok(t), Ok(r)) == Err::<Seq<u8>, HttpError>(
            HttpError::PathTraversal,
        ),
        crate::paths::spec_resolve_write(Ok(t), Ok(r), leaf) == Err::<Seq<u8>, HttpError>(
            HttpError::PathTraversal,
        ),
        file_error_status(HttpError::PathTraversal) == Status::BadRequest,
{
}

} // verus!
