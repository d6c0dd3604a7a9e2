//! Failures met while reading a request, each with an optional message.
use vstd::prelude::*;
use vstd::string::StringExecFns;

verus! {

/// Why a request could not be read or served.
#[derive(Debug)]
pub enum ApiError {
    ClientNotFound(Option<String>),
    RequestReadError(Option<String>),
    RequestDataNotUTF8(Option<String>),
    RequestNotHttp(Option<String>),
    InvalidHeader(Option<String>),
    ContentNotSupported(Option<String>),
    CannotWriteDataToDisk(Option<String>),
    RequestBodyNotRead(Option<String>),
    InvalidContentLength(Option<String>),
    ContentTypeRequired(Option<String>),
    MethodNotAllowed(Option<String>),
    MethodNotSupported(Option<String>),
    ResourceNotFound(Option<String>),
    PayloadTooLarge(Option<String>),
    RequestTimedout(Option<String>),
    ClientDisconnected(Option<String>),
}

/// The message carried by an error, if any.
pub open spec fn carried_message(e: ApiError) -> Option<String> {
    match e {
        ApiError::ClientNotFound(m) => m,
        ApiError::RequestReadError(m) => m,
        ApiError::RequestDataNotUTF8(m) => m,
        ApiError::RequestNotHttp(m) => m,
        ApiError::InvalidHeader(m) => m,
        ApiError::ContentNotSupported(m) => m,
        ApiError::CannotWriteDataToDisk(m) => m,
        ApiError::RequestBodyNotRead(m) => m,
        ApiError::InvalidContentLength(m) => m,
        ApiError::ContentTypeRequired(m) => m,
        ApiError::MethodNotAllowed(m) => m,
        ApiError::MethodNotSupported(m) => m,
        ApiError::ResourceNotFound(m) => m,
        ApiError::PayloadTooLarge(m) => m,
        ApiError::RequestTimedout(m) => m,
        ApiError::ClientDisconnected(m) => m,
    }
}

/// The text used for an error that carries no message.
pub open spec fn default_message(e: ApiError) -> Seq<char> {
    match e {
        ApiError::ClientNotFound(_) => "Client Socket Adress not found in tcp stream."@,
        ApiError::RequestReadError(_) => "Couldn't read request."@,
        ApiError::RequestDataNotUTF8(_) => "Request string data is not UTF-8 complient"@,
        ApiError::RequestNotHttp(_) => "Request protocol is not HTTP/1.x"@,
        ApiError::InvalidHeader(_) => "Invalid header value."@,
        ApiError::ContentNotSupported(_) => "Content-Type not supported."@,
        ApiError::CannotWriteDataToDisk(_) => "Cannot Write data to a file on disk."@,
        ApiError::RequestBodyNotRead(_) => "Cannot Read body completly."@,
        ApiError::InvalidContentLength(_) => "Invalid content length header."@,
        ApiError::ContentTypeRequired(_) => "Content type required."@,
        ApiError::MethodNotAllowed(_) => "Method Not allowed."@,
        ApiError::MethodNotSupported(_) => "Method Not supported."@,
        ApiError::ResourceNotFound(_) => "Resource Not found."@,
        ApiError::PayloadTooLarge(_) => "Payload Too large."@,
        ApiError::RequestTimedout(_) => "Request read time out reached."@,
        ApiError::ClientDisconnected(_) => "Client disconnected prematurely."@,
    }
}

/// Whether the text of an error ends with a line break.
pub open spec fn ends_with_newline(e: ApiError) -> bool {
    match e {
        ApiError::ClientNotFound(_) | ApiError::RequestReadError(_)
        | ApiError::RequestDataNotUTF8(_) | ApiError::RequestNotHttp(_)
        | ApiError::InvalidHeader(_) | ApiError::ClientDisconnected(_) => true,
        _ => false,
    }
}

/// The text that describes an error.
pub open spec fn error_text(e: ApiError) -> Seq<char> {
    let body = match carried_message(e) {
        Some(m) => m@,
        None => default_message(e),
    };
    if ends_with_newline(e) {
        body + "\n"@
    } else {
        body
    }
}

impl ApiError {
    /// The message carried by this error, if any.
    pub fn message(&self) -> (r: &Option<String>)
        ensures
            *r == carried_message(*self),
    {
        match self {
            ApiError::ClientNotFound(m) => m,
            ApiError::RequestReadError(m) => m,
            ApiError::RequestDataNotUTF8(m) => m,
            ApiError::RequestNotHttp(m) => m,
            ApiError::InvalidHeader(m) => m,
            ApiError::ContentNotSupported(m) => m,
            ApiError::CannotWriteDataToDisk(m) => m,
            ApiError::RequestBodyNotRead(m) => m,
            ApiError::InvalidContentLength(m) => m,
            ApiError::ContentTypeRequired(m) => m,
            ApiError::MethodNotAllowed(m) => m,
            ApiError::MethodNotSupported(m) => m,
            ApiError::ResourceNotFound(m) => m,
            ApiError::PayloadTooLarge(m) => m,
            ApiError::RequestTimedout(m) => m,
            ApiError::ClientDisconnected(m) => m,
        }
    }

    /// The text shown for this error: its message, or a fixed description
    /// of its kind when it carries none.
    pub fn to_string(&self) -> (r: String)
        ensures
            r@ == error_text(*self),
    {
        let newline = match self {
            ApiError::ClientNotFound(_) | ApiError::RequestReadError(_)
            | ApiError::RequestDataNotUTF8(_) | ApiError::RequestNotHttp(_)
            | ApiError::InvalidHeader(_) | ApiError::ClientDisconnected(_) => true,
            _ => false,
        };
        let body = match self.message() {
            Some(m) => m.clone(),
            None => String::from_str(match self {
                ApiError::ClientNotFound(_) => "Client Socket Adress not found in tcp stream.",
                ApiError::RequestReadError(_) => "Couldn't read request.",
                ApiError::RequestDataNotUTF8(_) => "Request string data is not UTF-8 complient",
                ApiError::RequestNotHttp(_) => "Request protocol is not HTTP/1.x",
                ApiError::InvalidHeader(_) => "Invalid header value.",
                ApiError::ContentNotSupported(_) => "Content-Type not supported.",
                ApiError::CannotWriteDataToDisk(_) => "Cannot Write data to a file on disk.",
                ApiError::RequestBodyNotRead(_) => "Cannot Read body completly.",
                ApiError::InvalidContentLength(_) => "Invalid content length header.",
                ApiError::ContentTypeRequired(_) => "Content type required.",
                ApiError::MethodNotAllowed(_) => "Method Not allowed.",
                ApiError::MethodNotSupported(_) => "Method Not supported.",
                ApiError::ResourceNotFound(_) => "Resource Not found.",
                ApiError::PayloadTooLarge(_) => "Payload Too large.",
                ApiError::RequestTimedout(_) => "Request read time out reached.",
                ApiError::ClientDisconnected(_) => "Client disconnected prematurely.",
            }),
        };
        if newline {
            body.concat("\n")
        } else {
            body
        }
    }
}

} // verus!
