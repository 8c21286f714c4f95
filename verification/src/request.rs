//! What the library sees of a request that is about to be sent.
use http::HeaderMap;
use vstd::prelude::*;

use crate::headers;

verus! {

/// Whether, and how, a caller wants a request's body to be compressed.
#[derive(Debug, Clone, Copy, PartialEq, Eq, Structural)]
pub enum Compression {
    Plain,
    Zstd,
}

/// Whether, and how, the transport is to compress a request's body.
#[derive(Debug, Clone, Copy, PartialEq, Eq, Structural)]
pub enum RequestCompression {
    Plain,
    Zstd,
}

/// The transport's word for a compression.
pub open spec fn request_compression_for(compression: Compression) -> RequestCompression {
    match compression {
        Compression::Plain => RequestCompression::Plain,
        Compression::Zstd => RequestCompression::Zstd,
    }
}

/// The transport's word for a compression.
pub fn request_compression(compression: Compression) -> (r: RequestCompression)
    ensures
        r == request_compression_for(compression),
{
    match compression {
        Compression::Plain => RequestCompression::Plain,
        Compression::Zstd => RequestCompression::Zstd,
    }
}

/// The parts of a request that an endpoint still changes before it is sent.
#[derive(Debug)]
pub struct Request {
    pub url: String,
    pub headers: HeaderMap,
    pub compression: RequestCompression,
}

/// What a [`Request`] says.
pub struct RequestView {
    pub url: Seq<char>,
    pub headers: Map<Seq<char>, Seq<Seq<u8>>>,
    pub compression: RequestCompression,
}

impl View for Request {
    type V = RequestView;

    open spec fn view(&self) -> RequestView {
        RequestView {
            url: self.url@,
            headers: headers::header_fields(self.headers),
            compression: self.compression,
        }
    }
}

} // verus!
