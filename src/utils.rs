//! Content kinds, status codes, methods and protocol versions of HTTP/1.x.
use vstd::prelude::*;
use crate::error::ApiError;

verus! {

/// Kind of a file handed out in a response or written from a request body.
#[derive(Clone, Copy, Debug, PartialEq, Eq, Structural)]
pub enum FileType {
    TEXT,
    JSON,
    XML,
    YAML,
    PNG,
    JPEG,
    SVG,
    WEBP,
    CSV,
    XLSX,
    PDF,
    PPTX,
    DOCX,
    MP3,
    WAV,
    MP4,
    ZIP,
    GZIP,
    EXE,
    UNKNOWN,
}

/// Kind of payload carried by a request or a response.
#[derive(Clone, Copy, Debug, PartialEq, Eq, Structural)]
pub enum ContentType {
    TEXT,
    JSON,
    XML,
    YAML,
    PNG,
    JPEG,
    SVG,
    WEBP,
    CSV,
    XLSX,
    PDF,
    PPTX,
    DOCX,
    MP3,
    WAV,
    MP4,
    ZIP,
    GZIP,
    EXE,
    UNKNOWN,
}

/// File name extension written for a file kind.
pub open spec fn extension_of(t: FileType) -> Seq<char> {
    match t {
        FileType::TEXT => ".txt"@,
        FileType::JSON => ".json"@,
        FileType::XML => ".xml"@,
        FileType::YAML => ".yaml"@,
        FileType::PNG => ".png"@,
        FileType::JPEG => ".jpeg"@,
        FileType::SVG => ".svg"@,
        FileType::WEBP => ".webp"@,
        FileType::CSV => ".csv"@,
        FileType::XLSX => ".xlsx"@,
        FileType::PDF => ".pdf"@,
        FileType::PPTX => ".pptx"@,
        FileType::DOCX => ".docx"@,
        FileType::MP3 => ".mp3"@,
        FileType::WAV => ".wav"@,
        FileType::MP4 => ".mp4"@,
        FileType::ZIP => ".zip"@,
        FileType::GZIP => ".gz"@,
        FileType::EXE => ".exe"@,
        FileType::UNKNOWN => ""@,
    }
}

/// The media type named in a `Content-Type` header for a content kind.
pub open spec fn mime_of(c: ContentType) -> Seq<char> {
    match c {
        ContentType::TEXT => "text/plain"@,
        ContentType::JSON => "application/json"@,
        ContentType::XML => "application/xml"@,
        ContentType::YAML => "application/x-yaml"@,
        ContentType::PNG => "image/png"@,
        ContentType::JPEG => "image/jpeg"@,
        ContentType::SVG => "image/svg+xml"@,
        ContentType::WEBP => "image/webp"@,
        ContentType::CSV => "text/csv"@,
        ContentType::XLSX => "application/vnd.openxmlformats-officedocument.spreadsheetml.sheet"@,
        ContentType::PDF => "application/pdf"@,
        ContentType::PPTX => "application/vnd.openxmlformats-officedocument.presentationml.presentation"@,
        ContentType::DOCX => "application/vnd.openxmlformats-officedocument.wordprocessingml.document"@,
        ContentType::MP3 => "audio/mpeg"@,
        ContentType::WAV => "audio/wav"@,
        ContentType::MP4 => "video/mp4"@,
        ContentType::ZIP => "application/zip"@,
        ContentType::GZIP => "application/gzip"@,
        ContentType::EXE => "application/x-msdownload"@,
        ContentType::UNKNOWN => "application/octet-stream"@,
    }
}

/// The content kind named by a lower-case media type, if any.
pub open spec fn content_type_of_mime(s: Seq<char>) -> Option<ContentType> {
    if s == "text/plain"@ {
        Some(ContentType::TEXT)
    } else if s == "application/json"@ {
        Some(ContentType::JSON)
    } else if s == "application/xml"@ {
        Some(ContentType::XML)
    } else if s == "application/x-yaml"@ {
        Some(ContentType::YAML)
    } else if s == "image/png"@ {
        Some(ContentType::PNG)
    } else if s == "image/jpeg"@ {
        Some(ContentType::JPEG)
    } else if s == "image/svg+xml"@ {
        Some(ContentType::SVG)
    } else if s == "image/webp"@ {
        Some(ContentType::WEBP)
    } else if s == "text/csv"@ {
        Some(ContentType::CSV)
    } else if s == "application/vnd.openxmlformats-officedocument.spreadsheetml.sheet"@ {
        Some(ContentType::XLSX)
    } else if s == "application/pdf"@ {
        Some(ContentType::PDF)
    } else if s == "application/vnd.openxmlformats-officedocument.presentationml.presentation"@ {
        Some(ContentType::PPTX)
    } else if s == "application/vnd.openxmlformats-officedocument.wordprocessingml.document"@ {
        Some(ContentType::DOCX)
    } else if s == "audio/mpeg"@ {
        Some(ContentType::MP3)
    } else if s == "audio/wav"@ {
        Some(ContentType::WAV)
    } else if s == "video/mp4"@ {
        Some(ContentType::MP4)
    } else if s == "application/zip"@ {
        Some(ContentType::ZIP)
    } else if s == "application/gzip"@ {
        Some(ContentType::GZIP)
    } else if s == "application/x-msdownload"@ {
        Some(ContentType::EXE)
    } else if s == "application/octet-stream"@ {
        Some(ContentType::UNKNOWN)
    } else {
        None
    }
}

/// The content kind that a file kind is sent as.
pub open spec fn content_of_file(t: FileType) -> ContentType {
    match t {
        FileType::TEXT => ContentType::TEXT,
        FileType::JSON => ContentType::JSON,
        FileType::XML => ContentType::XML,
        FileType::YAML => ContentType::YAML,
        FileType::PNG => ContentType::PNG,
        FileType::JPEG => ContentType::JPEG,
        FileType::SVG => ContentType::SVG,
        FileType::WEBP => ContentType::WEBP,
        FileType::CSV => ContentType::CSV,
        FileType::XLSX => ContentType::XLSX,
        FileType::PDF => ContentType::PDF,
        FileType::PPTX => ContentType::PPTX,
        FileType::DOCX => ContentType::DOCX,
        FileType::MP3 => ContentType::MP3,
        FileType::WAV => ContentType::WAV,
        FileType::MP4 => ContentType::MP4,
        FileType::ZIP => ContentType::ZIP,
        FileType::GZIP => ContentType::GZIP,
        FileType::EXE => ContentType::EXE,
        FileType::UNKNOWN => ContentType::UNKNOWN,
    }
}

/// The file kind that a content kind is stored as.
pub open spec fn file_of_content(c: ContentType) -> FileType {
    match c {
        ContentType::TEXT => FileType::TEXT,
        ContentType::JSON => FileType::JSON,
        ContentType::XML => FileType::XML,
        ContentType::YAML => FileType::YAML,
        ContentType::PNG => FileType::PNG,
        ContentType::JPEG => FileType::JPEG,
        ContentType::SVG => FileType::SVG,
        ContentType::WEBP => FileType::WEBP,
        ContentType::CSV => FileType::CSV,
        ContentType::XLSX => FileType::XLSX,
        ContentType::PDF => FileType::PDF,
        ContentType::PPTX => FileType::PPTX,
        ContentType::DOCX => FileType::DOCX,
        ContentType::MP3 => FileType::MP3,
        ContentType::WAV => FileType::WAV,
        ContentType::MP4 => FileType::MP4,
        ContentType::ZIP => FileType::ZIP,
        ContentType::GZIP => FileType::GZIP,
        ContentType::EXE => FileType::EXE,
        ContentType::UNKNOWN => FileType::UNKNOWN,
    }
}

/// The full header line, with its line end, that announces a content kind.
pub open spec fn content_type_line(c: ContentType) -> Seq<char> {
    match c {
        ContentType::TEXT => "Content-Type: text/plain\r\n"@,
        ContentType::JSON => "Content-Type: application/json\r\n"@,
        ContentType::XML => "Content-Type: application/xml\r\n"@,
        ContentType::YAML => "Content-Type: application/x-yaml\r\n"@,
        ContentType::PNG => "Content-Type: image/png\r\n"@,
        ContentType::JPEG => "Content-Type: image/jpeg\r\n"@,
        ContentType::SVG => "Content-Type: image/svg+xml\r\n"@,
        ContentType::WEBP => "Content-Type: image/webp\r\n"@,
        ContentType::CSV => "Content-Type: text/csv\r\n"@,
        ContentType::XLSX => "Content-Type: application/vnd.openxmlformats-officedocument.spreadsheetml.sheet\r\n"@,
        ContentType::PDF => "Content-Type: application/pdf\r\n"@,
        ContentType::PPTX => "Content-Type: application/vnd.openxmlformats-officedocument.presentationml.presentation\r\n"@,
        ContentType::DOCX => "Content-Type: application/vnd.openxmlformats-officedocument.wordprocessingml.document\r\n"@,
        ContentType::MP3 => "Content-Type: audio/mpeg\r\n"@,
        ContentType::WAV => "Content-Type: audio/wav\r\n"@,
        ContentType::MP4 => "Content-Type: video/mp4\r\n"@,
        ContentType::ZIP => "Content-Type: application/zip\r\n"@,
        ContentType::GZIP => "Content-Type: application/gzip\r\n"@,
        ContentType::EXE => "Content-Type: application/x-msdownload\r\n"@,
        ContentType::UNKNOWN => "Content-Type: application/octet-stream\r\n"@,
    }
}

/// Whether a lower-case, trimmed media type belongs to the recognised set.
pub open spec fn known_mime(s: Seq<char>) -> bool {
    exists|c: ContentType| mime_of(c) == s
}

impl FileType {
    /// The extension, dot included, given to a stored file of this kind.
    pub fn extension(&self) -> (r: &'static str)
        ensures
            r@ == extension_of(*self),
    {
        match self {
            FileType::TEXT => ".txt",
            FileType::JSON => ".json",
            FileType::XML => ".xml",
            FileType::YAML => ".yaml",
            FileType::PNG => ".png",
            FileType::JPEG => ".jpeg",
            FileType::SVG => ".svg",
            FileType::WEBP => ".webp",
            FileType::CSV => ".csv",
            FileType::XLSX => ".xlsx",
            FileType::PDF => ".pdf",
            FileType::PPTX => ".pptx",
            FileType::DOCX => ".docx",
            FileType::MP3 => ".mp3",
            FileType::WAV => ".wav",
            FileType::MP4 => ".mp4",
            FileType::ZIP => ".zip",
            FileType::GZIP => ".gz",
            FileType::EXE => ".exe",
            FileType::UNKNOWN => "",
        }
    }

    /// The content kind under which a file of this kind is sent.
    pub fn to_content_type(&self) -> (r: ContentType)
        ensures
            r == content_of_file(*self),
    {
        match self {
            FileType::TEXT => ContentType::TEXT,
            FileType::JSON => ContentType::JSON,
            FileType::XML => ContentType::XML,
            FileType::YAML => ContentType::YAML,
            FileType::PNG => ContentType::PNG,
            FileType::JPEG => ContentType::JPEG,
            FileType::SVG => ContentType::SVG,
            FileType::WEBP => ContentType::WEBP,
            FileType::CSV => ContentType::CSV,
            FileType::XLSX => ContentType::XLSX,
            FileType::PDF => ContentType::PDF,
            FileType::PPTX => ContentType::PPTX,
            FileType::DOCX => ContentType::DOCX,
            FileType::MP3 => ContentType::MP3,
            FileType::WAV => ContentType::WAV,
            FileType::MP4 => ContentType::MP4,
            FileType::ZIP => ContentType::ZIP,
            FileType::GZIP => ContentType::GZIP,
            FileType::EXE => ContentType::EXE,
            FileType::UNKNOWN => ContentType::UNKNOWN,
        }
    }
}

impl ContentType {
    /// The `Content-Type` header line, line end included, for this kind.
    pub fn get_content_type_header(&self) -> (r: &'static str)
        ensures
            r@ == content_type_line(*self),
    {
        match self {
            ContentType::TEXT => "Content-Type: text/plain\r\n",
            ContentType::JSON => "Content-Type: application/json\r\n",
            ContentType::XML => "Content-Type: application/xml\r\n",
            ContentType::YAML => "Content-Type: application/x-yaml\r\n",
            ContentType::PNG => "Content-Type: image/png\r\n",
            ContentType::JPEG => "Content-Type: image/jpeg\r\n",
            ContentType::SVG => "Content-Type: image/svg+xml\r\n",
            ContentType::WEBP => "Content-Type: image/webp\r\n",
            ContentType::CSV => "Content-Type: text/csv\r\n",
            ContentType::XLSX => "Content-Type: application/vnd.openxmlformats-officedocument.spreadsheetml.sheet\r\n",
            ContentType::PDF => "Content-Type: application/pdf\r\n",
            ContentType::PPTX => "Content-Type: application/vnd.openxmlformats-officedocument.presentationml.presentation\r\n",
            ContentType::DOCX => "Content-Type: application/vnd.openxmlformats-officedocument.wordprocessingml.document\r\n",
            ContentType::MP3 => "Content-Type: audio/mpeg\r\n",
            ContentType::WAV => "Content-Type: audio/wav\r\n",
            ContentType::MP4 => "Content-Type: video/mp4\r\n",
            ContentType::ZIP => "Content-Type: application/zip\r\n",
            ContentType::GZIP => "Content-Type: application/gzip\r\n",
            ContentType::EXE => "Content-Type: application/x-msdownload\r\n",
            ContentType::UNKNOWN => "Content-Type: application/octet-stream\r\n",
        }
    }

    /// The file kind under which a body of this kind is stored.
    pub fn to_file_type(&self) -> (r: FileType)
        ensures
            r == file_of_content(*self),
    {
        match self {
            ContentType::TEXT => FileType::TEXT,
            ContentType::JSON => FileType::JSON,
            ContentType::XML => FileType::XML,
            ContentType::YAML => FileType::YAML,
            ContentType::PNG => FileType::PNG,
            ContentType::JPEG => FileType::JPEG,
            ContentType::SVG => FileType::SVG,
            ContentType::WEBP => FileType::WEBP,
            ContentType::CSV => FileType::CSV,
            ContentType::XLSX => FileType::XLSX,
            ContentType::PDF => FileType::PDF,
            ContentType::PPTX => FileType::PPTX,
            ContentType::DOCX => FileType::DOCX,
            ContentType::MP3 => FileType::MP3,
            ContentType::WAV => FileType::WAV,
            ContentType::MP4 => FileType::MP4,
            ContentType::ZIP => FileType::ZIP,
            ContentType::GZIP => FileType::GZIP,
            ContentType::EXE => FileType::EXE,
            ContentType::UNKNOWN => FileType::UNKNOWN,
        }
    }

    /// Recognises an already trimmed, lower-case media type.
    pub fn from_mime(s: &str) -> (r: Option<ContentType>)
        ensures
            r == content_type_of_mime(s@),
            r matches Some(c) ==> mime_of(c) == s@,
            r is None <==> !known_mime(s@),
    {
        let r = if str_eq(s, "text/plain") {
            Some(ContentType::TEXT)
        } else if str_eq(s, "application/json") {
            Some(ContentType::JSON)
        } else if str_eq(s, "application/xml") {
            Some(ContentType::XML)
        } else if str_eq(s, "application/x-yaml") {
            Some(ContentType::YAML)
        } else if str_eq(s, "image/png") {
            Some(ContentType::PNG)
        } else if str_eq(s, "image/jpeg") {
            Some(ContentType::JPEG)
        } else if str_eq(s, "image/svg+xml") {
            Some(ContentType::SVG)
        } else if str_eq(s, "image/webp") {
            Some(ContentType::WEBP)
        } else if str_eq(s, "text/csv") {
            Some(ContentType::CSV)
        } else if str_eq(s, "application/vnd.openxmlformats-officedocument.spreadsheetml.sheet") {
            Some(ContentType::XLSX)
        } else if str_eq(s, "application/pdf") {
            Some(ContentType::PDF)
        } else if str_eq(s, "application/vnd.openxmlformats-officedocument.presentationml.presentation") {
            Some(ContentType::PPTX)
        } else if str_eq(s, "application/vnd.openxmlformats-officedocument.wordprocessingml.document") {
            Some(ContentType::DOCX)
        } else if str_eq(s, "audio/mpeg") {
            Some(ContentType::MP3)
        } else if str_eq(s, "audio/wav") {
            Some(ContentType::WAV)
        } else if str_eq(s, "video/mp4") {
            Some(ContentType::MP4)
        } else if str_eq(s, "application/zip") {
            Some(ContentType::ZIP)
        } else if str_eq(s, "application/gzip") {
            Some(ContentType::GZIP)
        } else if str_eq(s, "application/x-msdownload") {
            Some(ContentType::EXE)
        } else if str_eq(s, "application/octet-stream") {
            Some(ContentType::UNKNOWN)
        } else {
            None
        };
        proof {
            if let Some(c) = r {
                assert(mime_of(c) == s@);
            } else {
                assert forall|c: ContentType| mime_of(c) != s@ by {
                    match c {
                        ContentType::TEXT => {},
                        ContentType::JSON => {},
                        ContentType::XML => {},
                        ContentType::YAML => {},
                        ContentType::PNG => {},
                        ContentType::JPEG => {},
                        ContentType::SVG => {},
                        ContentType::WEBP => {},
                        ContentType::CSV => {},
                        ContentType::XLSX => {},
                        ContentType::PDF => {},
                        ContentType::PPTX => {},
                        ContentType::DOCX => {},
                        ContentType::MP3 => {},
                        ContentType::WAV => {},
                        ContentType::MP4 => {},
                        ContentType::ZIP => {},
                        ContentType::GZIP => {},
                        ContentType::EXE => {},
                        ContentType::UNKNOWN => {},
                    }
                }
            }
        }
        r
    }
}

/// Status of a response.
#[derive(Clone, Copy, Debug, PartialEq, Eq, Structural)]
pub enum HTTPCode {
    Continue,
    SwitchingProtocols,
    Processing,
    OK,
    Created,
    Accepted,
    NonAuthoritativeInformation,
    NoContent,
    ResetContent,
    PartialContent,
    MultiStatus,
    AlreadyReported,
    IMUsed,
    MultipleChoices,
    MovedPermanently,
    Found,
    SeeOther,
    NotModified,
    UseProxy,
    TemporaryRedirect,
    PermanentRedirect,
    BadRequest,
    Unauthorized,
    PaymentRequired,
    Forbidden,
    NotFound,
    MethodNotAllowed,
    NotAcceptable,
    ProxyAuthenticationRequired,
    RequestTimeout,
    Conflict,
    Gone,
    LengthRequired,
    PreconditionFailed,
    PayloadTooLarge,
    URITooLong,
    UnsupportedMediaType,
    RangeNotSatisfiable,
    ExpectationFailed,
    ImATeapot,
    MisdirectedRequest,
    UnprocessableEntity,
    Locked,
    FailedDependency,
    UpgradeRequired,
    PreconditionRequired,
    TooManyRequests,
    RequestHeaderFieldsTooLarge,
    UnavailableForLegalReasons,
    InternalServerError,
    NotImplemented,
    BadGateway,
    ServiceUnavailable,
    GatewayTimeout,
    HTTPVersionNotSupported,
    VariantAlsoNegotiates,
    InsufficientStorage,
    LoopDetected,
    NotExtended,
    NetworkAuthenticationRequired,
}

/// The number of a status.
pub open spec fn status_number(h: HTTPCode) -> u16 {
    match h {
        HTTPCode::Continue => 100,
        HTTPCode::SwitchingProtocols => 101,
        HTTPCode::Processing => 102,
        HTTPCode::OK => 200,
        HTTPCode::Created => 201,
        HTTPCode::Accepted => 202,
        HTTPCode::NonAuthoritativeInformation => 203,
        HTTPCode::NoContent => 204,
        HTTPCode::ResetContent => 205,
        HTTPCode::PartialContent => 206,
        HTTPCode::MultiStatus => 207,
        HTTPCode::AlreadyReported => 208,
        HTTPCode::IMUsed => 226,
        HTTPCode::MultipleChoices => 300,
        HTTPCode::MovedPermanently => 301,
        HTTPCode::Found => 302,
        HTTPCode::SeeOther => 303,
        HTTPCode::NotModified => 304,
        HTTPCode::UseProxy => 305,
        HTTPCode::TemporaryRedirect => 307,
        HTTPCode::PermanentRedirect => 308,
        HTTPCode::BadRequest => 400,
        HTTPCode::Unauthorized => 401,
        HTTPCode::PaymentRequired => 402,
        HTTPCode::Forbidden => 403,
        HTTPCode::NotFound => 404,
        HTTPCode::MethodNotAllowed => 405,
        HTTPCode::NotAcceptable => 406,
        HTTPCode::ProxyAuthenticationRequired => 407,
        HTTPCode::RequestTimeout => 408,
        HTTPCode::Conflict => 409,
        HTTPCode::Gone => 410,
        HTTPCode::LengthRequired => 411,
        HTTPCode::PreconditionFailed => 412,
        HTTPCode::PayloadTooLarge => 413,
        HTTPCode::URITooLong => 414,
        HTTPCode::UnsupportedMediaType => 415,
        HTTPCode::RangeNotSatisfiable => 416,
        HTTPCode::ExpectationFailed => 417,
        HTTPCode::ImATeapot => 418,
        HTTPCode::MisdirectedRequest => 421,
        HTTPCode::UnprocessableEntity => 422,
        HTTPCode::Locked => 423,
        HTTPCode::FailedDependency => 424,
        HTTPCode::UpgradeRequired => 426,
        HTTPCode::PreconditionRequired => 428,
        HTTPCode::TooManyRequests => 429,
        HTTPCode::RequestHeaderFieldsTooLarge => 431,
        HTTPCode::UnavailableForLegalReasons => 451,
        HTTPCode::InternalServerError => 500,
        HTTPCode::NotImplemented => 501,
        HTTPCode::BadGateway => 502,
        HTTPCode::ServiceUnavailable => 503,
        HTTPCode::GatewayTimeout => 504,
        HTTPCode::HTTPVersionNotSupported => 505,
        HTTPCode::VariantAlsoNegotiates => 506,
        HTTPCode::InsufficientStorage => 507,
        HTTPCode::LoopDetected => 508,
        HTTPCode::NotExtended => 510,
        HTTPCode::NetworkAuthenticationRequired => 511,
    }
}

/// The reason phrase of a status.
pub open spec fn reason_of(h: HTTPCode) -> Seq<char> {
    match h {
        HTTPCode::Continue => "Continue"@,
        HTTPCode::SwitchingProtocols => "Switching Protocols"@,
        HTTPCode::Processing => "Processing"@,
        HTTPCode::OK => "OK"@,
        HTTPCode::Created => "Created"@,
        HTTPCode::Accepted => "Accepted"@,
        HTTPCode::NonAuthoritativeInformation => "Non-Authoritative Information"@,
        HTTPCode::NoContent => "No Content"@,
        HTTPCode::ResetContent => "Reset Content"@,
        HTTPCode::PartialContent => "Partial Content"@,
        HTTPCode::MultiStatus => "Multi-Status"@,
        HTTPCode::AlreadyReported => "Already Reported"@,
        HTTPCode::IMUsed => "IM Used"@,
        HTTPCode::MultipleChoices => "Multiple Choices"@,
        HTTPCode::MovedPermanently => "Moved Permanently"@,
        HTTPCode::Found => "Found"@,
        HTTPCode::SeeOther => "See Other"@,
        HTTPCode::NotModified => "Not Modified"@,
        HTTPCode::UseProxy => "Use Proxy"@,
        HTTPCode::TemporaryRedirect => "Temporary Redirect"@,
        HTTPCode::PermanentRedirect => "Permanent Redirect"@,
        HTTPCode::BadRequest => "Bad Request"@,
        HTTPCode::Unauthorized => "Unauthorized"@,
        HTTPCode::PaymentRequired => "Payment Required"@,
        HTTPCode::Forbidden => "Forbidden"@,
        HTTPCode::NotFound => "Not Found"@,
        HTTPCode::MethodNotAllowed => "Method Not Allowed"@,
        HTTPCode::NotAcceptable => "Not Acceptable"@,
        HTTPCode::ProxyAuthenticationRequired => "Proxy Authentication Required"@,
        HTTPCode::RequestTimeout => "Request Timeout"@,
        HTTPCode::Conflict => "Conflict"@,
        HTTPCode::Gone => "Gone"@,
        HTTPCode::LengthRequired => "Length Required"@,
        HTTPCode::PreconditionFailed => "Precondition Failed"@,
        HTTPCode::PayloadTooLarge => "Payload Too Large"@,
        HTTPCode::URITooLong => "URI Too Long"@,
        HTTPCode::UnsupportedMediaType => "Unsupported Media Type"@,
        HTTPCode::RangeNotSatisfiable => "Range Not Satisfiable"@,
        HTTPCode::ExpectationFailed => "Expectation Failed"@,
        HTTPCode::ImATeapot => "I'm a teapot"@,
        HTTPCode::MisdirectedRequest => "Misdirected Request"@,
        HTTPCode::UnprocessableEntity => "Unprocessable Entity"@,
        HTTPCode::Locked => "Locked"@,
        HTTPCode::FailedDependency => "Failed Dependency"@,
        HTTPCode::UpgradeRequired => "Upgrade Required"@,
        HTTPCode::PreconditionRequired => "Precondition Required"@,
        HTTPCode::TooManyRequests => "Too Many Requests"@,
        HTTPCode::RequestHeaderFieldsTooLarge => "Request Header Fields Too Large"@,
        HTTPCode::UnavailableForLegalReasons => "Unavailable For Legal Reasons"@,
        HTTPCode::InternalServerError => "Internal Server Error"@,
        HTTPCode::NotImplemented => "Not Implemented"@,
        HTTPCode::BadGateway => "Bad Gateway"@,
        HTTPCode::ServiceUnavailable => "Service Unavailable"@,
        HTTPCode::GatewayTimeout => "Gateway Timeout"@,
        HTTPCode::HTTPVersionNotSupported => "HTTP Version Not Supported"@,
        HTTPCode::VariantAlsoNegotiates => "Variant Also Negotiates"@,
        HTTPCode::InsufficientStorage => "Insufficient Storage"@,
        HTTPCode::LoopDetected => "Loop Detected"@,
        HTTPCode::NotExtended => "Not Extended"@,
        HTTPCode::NetworkAuthenticationRequired => "Network Authentication Required"@,
    }
}

/// Whether a number names a status of this library.
pub open spec fn known_status(code: u16) -> bool {
    exists|h: HTTPCode| status_number(h) == code
}

impl HTTPCode {
    /// The status with the given number, if there is one.
    pub fn from_u16(code: u16) -> (r: Option<HTTPCode>)
        ensures
            r matches Some(h) ==> status_number(h) == code,
            r is None <==> !known_status(code),
    {
        let r = match code {
            100 => Some(HTTPCode::Continue),
            101 => Some(HTTPCode::SwitchingProtocols),
            102 => Some(HTTPCode::Processing),
            200 => Some(HTTPCode::OK),
            201 => Some(HTTPCode::Created),
            202 => Some(HTTPCode::Accepted),
            203 => Some(HTTPCode::NonAuthoritativeInformation),
            204 => Some(HTTPCode::NoContent),
            205 => Some(HTTPCode::ResetContent),
            206 => Some(HTTPCode::PartialContent),
            207 => Some(HTTPCode::MultiStatus),
            208 => Some(HTTPCode::AlreadyReported),
            226 => Some(HTTPCode::IMUsed),
            300 => Some(HTTPCode::MultipleChoices),
            301 => Some(HTTPCode::MovedPermanently),
            302 => Some(HTTPCode::Found),
            303 => Some(HTTPCode::SeeOther),
            304 => Some(HTTPCode::NotModified),
            305 => Some(HTTPCode::UseProxy),
            307 => Some(HTTPCode::TemporaryRedirect),
            308 => Some(HTTPCode::PermanentRedirect),
            400 => Some(HTTPCode::BadRequest),
            401 => Some(HTTPCode::Unauthorized),
            402 => Some(HTTPCode::PaymentRequired),
            403 => Some(HTTPCode::Forbidden),
            404 => Some(HTTPCode::NotFound),
            405 => Some(HTTPCode::MethodNotAllowed),
            406 => Some(HTTPCode::NotAcceptable),
            407 => Some(HTTPCode::ProxyAuthenticationRequired),
            408 => Some(HTTPCode::RequestTimeout),
            409 => Some(HTTPCode::Conflict),
            410 => Some(HTTPCode::Gone),
            411 => Some(HTTPCode::LengthRequired),
            412 => Some(HTTPCode::PreconditionFailed),
            413 => Some(HTTPCode::PayloadTooLarge),
            414 => Some(HTTPCode::URITooLong),
            415 => Some(HTTPCode::UnsupportedMediaType),
            416 => Some(HTTPCode::RangeNotSatisfiable),
            417 => Some(HTTPCode::ExpectationFailed),
            418 => Some(HTTPCode::ImATeapot),
            421 => Some(HTTPCode::MisdirectedRequest),
            422 => Some(HTTPCode::UnprocessableEntity),
            423 => Some(HTTPCode::Locked),
            424 => Some(HTTPCode::FailedDependency),
            426 => Some(HTTPCode::UpgradeRequired),
            428 => Some(HTTPCode::PreconditionRequired),
            429 => Some(HTTPCode::TooManyRequests),
            431 => Some(HTTPCode::RequestHeaderFieldsTooLarge),
            451 => Some(HTTPCode::UnavailableForLegalReasons),
            500 => Some(HTTPCode::InternalServerError),
            501 => Some(HTTPCode::NotImplemented),
            502 => Some(HTTPCode::BadGateway),
            503 => Some(HTTPCode::ServiceUnavailable),
            504 => Some(HTTPCode::GatewayTimeout),
            505 => Some(HTTPCode::HTTPVersionNotSupported),
            506 => Some(HTTPCode::VariantAlsoNegotiates),
            507 => Some(HTTPCode::InsufficientStorage),
            508 => Some(HTTPCode::LoopDetected),
            510 => Some(HTTPCode::NotExtended),
            511 => Some(HTTPCode::NetworkAuthenticationRequired),
            _ => None,
        };
        proof {
            if let Some(h) = r {
                assert(status_number(h) == code);
            } else {
                assert forall|h: HTTPCode| status_number(h) != code by {
                    match h {
                        HTTPCode::Continue => {},
                        HTTPCode::SwitchingProtocols => {},
                        HTTPCode::Processing => {},
                        HTTPCode::OK => {},
                        HTTPCode::Created => {},
                        HTTPCode::Accepted => {},
                        HTTPCode::NonAuthoritativeInformation => {},
                        HTTPCode::NoContent => {},
                        HTTPCode::ResetContent => {},
                        HTTPCode::PartialContent => {},
                        HTTPCode::MultiStatus => {},
                        HTTPCode::AlreadyReported => {},
                        HTTPCode::IMUsed => {},
                        HTTPCode::MultipleChoices => {},
                        HTTPCode::MovedPermanently => {},
                        HTTPCode::Found => {},
                        HTTPCode::SeeOther => {},
                        HTTPCode::NotModified => {},
                        HTTPCode::UseProxy => {},
                        HTTPCode::TemporaryRedirect => {},
                        HTTPCode::PermanentRedirect => {},
                        HTTPCode::BadRequest => {},
                        HTTPCode::Unauthorized => {},
                        HTTPCode::PaymentRequired => {},
                        HTTPCode::Forbidden => {},
                        HTTPCode::NotFound => {},
                        HTTPCode::MethodNotAllowed => {},
                        HTTPCode::NotAcceptable => {},
                        HTTPCode::ProxyAuthenticationRequired => {},
                        HTTPCode::RequestTimeout => {},
                        HTTPCode::Conflict => {},
                        HTTPCode::Gone => {},
                        HTTPCode::LengthRequired => {},
                        HTTPCode::PreconditionFailed => {},
                        HTTPCode::PayloadTooLarge => {},
                        HTTPCode::URITooLong => {},
                        HTTPCode::UnsupportedMediaType => {},
                        HTTPCode::RangeNotSatisfiable => {},
                        HTTPCode::ExpectationFailed => {},
                        HTTPCode::ImATeapot => {},
                        HTTPCode::MisdirectedRequest => {},
                        HTTPCode::UnprocessableEntity => {},
                        HTTPCode::Locked => {},
                        HTTPCode::FailedDependency => {},
                        HTTPCode::UpgradeRequired => {},
                        HTTPCode::PreconditionRequired => {},
                        HTTPCode::TooManyRequests => {},
                        HTTPCode::RequestHeaderFieldsTooLarge => {},
                        HTTPCode::UnavailableForLegalReasons => {},
                        HTTPCode::InternalServerError => {},
                        HTTPCode::NotImplemented => {},
                        HTTPCode::BadGateway => {},
                        HTTPCode::ServiceUnavailable => {},
                        HTTPCode::GatewayTimeout => {},
                        HTTPCode::HTTPVersionNotSupported => {},
                        HTTPCode::VariantAlsoNegotiates => {},
                        HTTPCode::InsufficientStorage => {},
                        HTTPCode::LoopDetected => {},
                        HTTPCode::NotExtended => {},
                        HTTPCode::NetworkAuthenticationRequired => {},
                    }
                }
            }
        }
        r
    }

    /// The number of this status.
    pub fn code(&self) -> (r: u16)
        ensures
            r == status_number(*self),
    {
        match self {
            HTTPCode::Continue => 100,
            HTTPCode::SwitchingProtocols => 101,
            HTTPCode::Processing => 102,
            HTTPCode::OK => 200,
            HTTPCode::Created => 201,
            HTTPCode::Accepted => 202,
            HTTPCode::NonAuthoritativeInformation => 203,
            HTTPCode::NoContent => 204,
            HTTPCode::ResetContent => 205,
            HTTPCode::PartialContent => 206,
            HTTPCode::MultiStatus => 207,
            HTTPCode::AlreadyReported => 208,
            HTTPCode::IMUsed => 226,
            HTTPCode::MultipleChoices => 300,
            HTTPCode::MovedPermanently => 301,
            HTTPCode::Found => 302,
            HTTPCode::SeeOther => 303,
            HTTPCode::NotModified => 304,
            HTTPCode::UseProxy => 305,
            HTTPCode::TemporaryRedirect => 307,
            HTTPCode::PermanentRedirect => 308,
            HTTPCode::BadRequest => 400,
            HTTPCode::Unauthorized => 401,
            HTTPCode::PaymentRequired => 402,
            HTTPCode::Forbidden => 403,
            HTTPCode::NotFound => 404,
            HTTPCode::MethodNotAllowed => 405,
            HTTPCode::NotAcceptable => 406,
            HTTPCode::ProxyAuthenticationRequired => 407,
            HTTPCode::RequestTimeout => 408,
            HTTPCode::Conflict => 409,
            HTTPCode::Gone => 410,
            HTTPCode::LengthRequired => 411,
            HTTPCode::PreconditionFailed => 412,
            HTTPCode::PayloadTooLarge => 413,
            HTTPCode::URITooLong => 414,
            HTTPCode::UnsupportedMediaType => 415,
            HTTPCode::RangeNotSatisfiable => 416,
            HTTPCode::ExpectationFailed => 417,
            HTTPCode::ImATeapot => 418,
            HTTPCode::MisdirectedRequest => 421,
            HTTPCode::UnprocessableEntity => 422,
            HTTPCode::Locked => 423,
            HTTPCode::FailedDependency => 424,
            HTTPCode::UpgradeRequired => 426,
            HTTPCode::PreconditionRequired => 428,
            HTTPCode::TooManyRequests => 429,
            HTTPCode::RequestHeaderFieldsTooLarge => 431,
            HTTPCode::UnavailableForLegalReasons => 451,
            HTTPCode::InternalServerError => 500,
            HTTPCode::NotImplemented => 501,
            HTTPCode::BadGateway => 502,
            HTTPCode::ServiceUnavailable => 503,
            HTTPCode::GatewayTimeout => 504,
            HTTPCode::HTTPVersionNotSupported => 505,
            HTTPCode::VariantAlsoNegotiates => 506,
            HTTPCode::InsufficientStorage => 507,
            HTTPCode::LoopDetected => 508,
            HTTPCode::NotExtended => 510,
            HTTPCode::NetworkAuthenticationRequired => 511,
        }
    }

    /// The reason phrase of this status.
    pub fn get_msg(&self) -> (r: &'static str)
        ensures
            r@ == reason_of(*self),
    {
        match self {
            HTTPCode::Continue => "Continue",
            HTTPCode::SwitchingProtocols => "Switching Protocols",
            HTTPCode::Processing => "Processing",
            HTTPCode::OK => "OK",
            HTTPCode::Created => "Created",
            HTTPCode::Accepted => "Accepted",
            HTTPCode::NonAuthoritativeInformation => "Non-Authoritative Information",
            HTTPCode::NoContent => "No Content",
            HTTPCode::ResetContent => "Reset Content",
            HTTPCode::PartialContent => "Partial Content",
            HTTPCode::MultiStatus => "Multi-Status",
            HTTPCode::AlreadyReported => "Already Reported",
            HTTPCode::IMUsed => "IM Used",
            HTTPCode::MultipleChoices => "Multiple Choices",
            HTTPCode::MovedPermanently => "Moved Permanently",
            HTTPCode::Found => "Found",
            HTTPCode::SeeOther => "See Other",
            HTTPCode::NotModified => "Not Modified",
            HTTPCode::UseProxy => "Use Proxy",
            HTTPCode::TemporaryRedirect => "Temporary Redirect",
            HTTPCode::PermanentRedirect => "Permanent Redirect",
            HTTPCode::BadRequest => "Bad Request",
            HTTPCode::Unauthorized => "Unauthorized",
            HTTPCode::PaymentRequired => "Payment Required",
            HTTPCode::Forbidden => "Forbidden",
            HTTPCode::NotFound => "Not Found",
            HTTPCode::MethodNotAllowed => "Method Not Allowed",
            HTTPCode::NotAcceptable => "Not Acceptable",
            HTTPCode::ProxyAuthenticationRequired => "Proxy Authentication Required",
            HTTPCode::RequestTimeout => "Request Timeout",
            HTTPCode::Conflict => "Conflict",
            HTTPCode::Gone => "Gone",
            HTTPCode::LengthRequired => "Length Required",
            HTTPCode::PreconditionFailed => "Precondition Failed",
            HTTPCode::PayloadTooLarge => "Payload Too Large",
            HTTPCode::URITooLong => "URI Too Long",
            HTTPCode::UnsupportedMediaType => "Unsupported Media Type",
            HTTPCode::RangeNotSatisfiable => "Range Not Satisfiable",
            HTTPCode::ExpectationFailed => "Expectation Failed",
            HTTPCode::ImATeapot => "I'm a teapot",
            HTTPCode::MisdirectedRequest => "Misdirected Request",
            HTTPCode::UnprocessableEntity => "Unprocessable Entity",
            HTTPCode::Locked => "Locked",
            HTTPCode::FailedDependency => "Failed Dependency",
            HTTPCode::UpgradeRequired => "Upgrade Required",
            HTTPCode::PreconditionRequired => "Precondition Required",
            HTTPCode::TooManyRequests => "Too Many Requests",
            HTTPCode::RequestHeaderFieldsTooLarge => "Request Header Fields Too Large",
            HTTPCode::UnavailableForLegalReasons => "Unavailable For Legal Reasons",
            HTTPCode::InternalServerError => "Internal Server Error",
            HTTPCode::NotImplemented => "Not Implemented",
            HTTPCode::BadGateway => "Bad Gateway",
            HTTPCode::ServiceUnavailable => "Service Unavailable",
            HTTPCode::GatewayTimeout => "Gateway Timeout",
            HTTPCode::HTTPVersionNotSupported => "HTTP Version Not Supported",
            HTTPCode::VariantAlsoNegotiates => "Variant Also Negotiates",
            HTTPCode::InsufficientStorage => "Insufficient Storage",
            HTTPCode::LoopDetected => "Loop Detected",
            HTTPCode::NotExtended => "Not Extended",
            HTTPCode::NetworkAuthenticationRequired => "Network Authentication Required",
        }
    }
}

/// Request method.
#[derive(Clone, Copy, Debug, PartialEq, Eq, Structural)]
pub enum Method {
    GET,
    POST,
    UPDATE,
    PUT,
    PATCH,
    DELETE,
}

/// The keyword of a method as it stands in a request line.
pub open spec fn method_name(m: Method) -> Seq<char> {
    match m {
        Method::GET => "GET"@,
        Method::POST => "POST"@,
        Method::UPDATE => "UPDATE"@,
        Method::PUT => "PUT"@,
        Method::PATCH => "PATCH"@,
        Method::DELETE => "DELETE"@,
    }
}

/// The method whose keyword is `s`, if any.
pub open spec fn method_of_name(s: Seq<char>) -> Option<Method> {
    if s == "GET"@ {
        Some(Method::GET)
    } else if s == "POST"@ {
        Some(Method::POST)
    } else if s == "UPDATE"@ {
        Some(Method::UPDATE)
    } else if s == "PUT"@ {
        Some(Method::PUT)
    } else if s == "PATCH"@ {
        Some(Method::PATCH)
    } else if s == "DELETE"@ {
        Some(Method::DELETE)
    } else {
        None
    }
}

/// Whether a word is the keyword of a supported method.
pub open spec fn known_method(s: Seq<char>) -> bool {
    exists|m: Method| method_name(m) == s
}

impl Method {
    /// The method whose keyword is `s` (case-sensitive), if any.
    pub fn from_string(s: &str) -> (r: Option<Method>)
        ensures
            r == method_of_name(s@),
            r matches Some(m) ==> method_name(m) == s@,
            r is None <==> !known_method(s@),
    {
        let r = if str_eq(s, "GET") {
            Some(Method::GET)
        } else if str_eq(s, "POST") {
            Some(Method::POST)
        } else if str_eq(s, "UPDATE") {
            Some(Method::UPDATE)
        } else if str_eq(s, "PUT") {
            Some(Method::PUT)
        } else if str_eq(s, "PATCH") {
            Some(Method::PATCH)
        } else if str_eq(s, "DELETE") {
            Some(Method::DELETE)
        } else {
            None
        };
        proof {
            if let Some(m) = r {
                assert(method_name(m) == s@);
            } else {
                assert forall|m: Method| method_name(m) != s@ by {
                    match m {
                        Method::GET => {},
                        Method::POST => {},
                        Method::UPDATE => {},
                        Method::PUT => {},
                        Method::PATCH => {},
                        Method::DELETE => {},
                    }
                }
            }
        }
        r
    }
}

/// Protocol version of a request.
#[derive(Clone, Copy, Debug, PartialEq, Eq, Structural)]
pub enum Protocall {
    HTTP1_0,
    HTTP1_1,
}

/// The version as it stands in a request or status line.
pub open spec fn protocol_name(p: Protocall) -> Seq<char> {
    match p {
        Protocall::HTTP1_0 => "HTTP/1.0"@,
        Protocall::HTTP1_1 => "HTTP/1.1"@,
    }
}

/// The version written `s`, if it is HTTP/1.0 or HTTP/1.1.
pub open spec fn protocol_of_name(s: Seq<char>) -> Option<Protocall> {
    if s == "HTTP/1.0"@ {
        Some(Protocall::HTTP1_0)
    } else if s == "HTTP/1.1"@ {
        Some(Protocall::HTTP1_1)
    } else {
        None
    }
}

impl Protocall {
    /// The version written `proto`, if it is HTTP/1.0 or HTTP/1.1.
    pub fn from_str(proto: &str) -> (r: Option<Protocall>)
        ensures
            r == protocol_of_name(proto@),
            r matches Some(p) ==> protocol_name(p) == proto@,
            r is None <==> (proto@ != "HTTP/1.0"@ && proto@ != "HTTP/1.1"@),
    {
        if str_eq(proto, "HTTP/1.0") {
            Some(Protocall::HTTP1_0)
        } else if str_eq(proto, "HTTP/1.1") {
            Some(Protocall::HTTP1_1)
        } else {
            None
        }
    }

    /// How this version is written.
    pub fn to_str(&self) -> (r: &'static str)
        ensures
            r@ == protocol_name(*self),
    {
        match self {
            Protocall::HTTP1_0 => "HTTP/1.0",
            Protocall::HTTP1_1 => "HTTP/1.1",
        }
    }
}

/// Equality of two string slices, character by character.
pub fn str_eq(a: &str, b: &str) -> (r: bool)
    ensures
        r == (a@ == b@),
{
    a.to_owned() == b.to_owned()
}

/// Whether a character has the Unicode `White_Space` property, as
/// `char::is_whitespace` says.
pub open spec fn is_white_space(c: char) -> bool {
    ('\u{9}' <= c && c <= '\u{d}') || c == ' ' || c == '\u{85}' || c == '\u{a0}' || c == '\u{1680}'
        || ('\u{2000}' <= c && c <= '\u{200a}') || c == '\u{2028}' || c == '\u{2029}' || c == '\u{202f}'
        || c == '\u{205f}' || c == '\u{3000}'
}

/// `s` without its leading white space.
pub open spec fn trim_start_seq(s: Seq<char>) -> Seq<char>
    decreases s.len(),
{
    if s.len() > 0 && is_white_space(s[0]) {
        trim_start_seq(s.drop_first())
    } else {
        s
    }
}

/// `s` without its trailing white space.
pub open spec fn trim_end_seq(s: Seq<char>) -> Seq<char>
    decreases s.len(),
{
    if s.len() > 0 && is_white_space(s.last()) {
        trim_end_seq(s.drop_last())
    } else {
        s
    }
}

/// `s` without leading and trailing white space, as `str::trim` gives it.
pub open spec fn trimmed_of(s: Seq<char>) -> Seq<char> {
    trim_end_seq(trim_start_seq(s))
}

/// Result of `str::to_lowercase` on a sequence of characters.
pub uninterp spec fn lower_of(s: Seq<char>) -> Seq<char>;

/// Relies on `str::trim`: the slice without leading and trailing characters
/// that have the `White_Space` property.
#[verifier::external_body]
pub(crate) fn trim_str(s: &str) -> (r: &str)
    ensures
        r@ == trimmed_of(s@),
{
    s.trim()
}

/// Relies on `str::to_lowercase`: the result depends on the characters alone.
#[verifier::external_body]
fn lowercase(s: &str) -> (r: String)
    ensures
        r@ == lower_of(s@),
{
    s.to_lowercase()
}

impl ContentType {
    /// The content kind named by a `Content-Type` header value, which is
    /// trimmed and lower-cased first; an unknown media type is refused.
    pub fn from_header(header: &str) -> (r: Result<ContentType, ApiError>)
        ensures
            r matches Ok(c) ==> content_type_of_mime(lower_of(trimmed_of(header@))) == Some(c),
            r is Err <==> content_type_of_mime(lower_of(trimmed_of(header@))) is None,
            r matches Ok(c) ==> mime_of(c) == lower_of(trimmed_of(header@)),
            r is Err <==> !known_mime(lower_of(trimmed_of(header@))),
            r matches Err(e) ==> e == ApiError::ContentNotSupported(None),
    {
        let lowered = lowercase(trim_str(header));
        match ContentType::from_mime(lowered.as_str()) {
            Some(c) => Ok(c),
            None => Err(ApiError::ContentNotSupported(None)),
        }
    }
}

/// Sending a file kind as content and storing that content again gives the
/// same file kind back.
pub proof fn lemma_file_content_round_trip(t: FileType)
    ensures
        file_of_content(content_of_file(t)) == t,
{
}

/// Storing a content kind as a file and sending that file again gives the
/// same content kind back.
pub proof fn lemma_content_file_round_trip(c: ContentType)
    ensures
        content_of_file(file_of_content(c)) == c,
{
}

} // verus!
