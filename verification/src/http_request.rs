use vstd::prelude::*;

use crate::text::text_equals;

verus! {

/// The HTTP protocol versions that a request can carry.
#[derive(Clone, Copy, Debug, PartialEq, Eq)]
pub enum HttpVersion {
    Http09,
    Http10,
    Http11,
    Http2,
    Http3,
}

/// The standard HTTP request methods.
#[derive(Clone, Copy, Debug, PartialEq, Eq)]
pub enum HttpMethod {
    Get,
    Post,
    Put,
    Delete,
    Patch,
    Head,
    Options,
    Connect,
    Trace,
}

/// One header line of a request.
pub struct HttpHeader {
    pub name: String,
    pub value: String,
}

/// An HTTP request as the rule engines and the dataset see it.
pub struct HttpRequest {
    /// The request method, such as `GET`.
    pub method: String,
    /// The request target as written, such as `/?q=1`.
    pub uri: String,
    /// The protocol version.
    pub version: HttpVersion,
    /// The header lines, in order.
    pub headers: Vec<HttpHeader>,
    /// The request body.
    pub body: String,
}

/// The mathematical value of an [`HttpRequest`].
pub struct HttpRequestView {
    pub method: Seq<char>,
    pub uri: Seq<char>,
    pub version: HttpVersion,
    pub headers: Seq<(Seq<char>, Seq<char>)>,
    pub body: Seq<char>,
}

impl View for HttpHeader {
    type V = (Seq<char>, Seq<char>);

    open spec fn view(&self) -> (Seq<char>, Seq<char>) {
        (self.name@, self.value@)
    }
}

impl View for HttpRequest {
    type V = HttpRequestView;

    open spec fn view(&self) -> HttpRequestView {
        HttpRequestView {
            method: self.method@,
            uri: self.uri@,
            version: self.version,
            headers: self.headers@.map_values(|h: HttpHeader| h@),
            body: self.body@,
        }
    }
}

impl HttpHeader {
    /// A copy of this header line.
    pub fn duplicate(&self) -> (r: HttpHeader)
        ensures
            r@ == self@,
    {
        HttpHeader { name: self.name.clone(), value: self.value.clone() }
    }
}

impl HttpRequest {
    /// A GET request for `uri` over HTTP/1.1 with no headers and an empty body.
    pub fn get(uri: &str) -> (r: HttpRequest)
        ensures
            r@.method == "GET"@,
            r@.uri == uri@,
            r@.version == HttpVersion::Http11,
            r@.headers.len() == 0,
            r@.body.len() == 0,
    {
        HttpRequest {
            method: String::from_str("GET"),
            uri: String::from_str(uri),
            version: HttpVersion::Http11,
            headers: Vec::new(),
            body: String::new(),
        }
    }

    /// A copy of this request.
    pub fn duplicate(&self) -> (r: HttpRequest)
        ensures
            r@ == self@,
    {
        let mut headers: Vec<HttpHeader> = Vec::new();
        let n = self.headers.len();
        let mut i: usize = 0;
        while i < n
            invariant
                n == self.headers.len(),
                0 <= i <= n,
                headers@.len() == i,
                forall|k: int| 0 <= k < i ==> #[trigger] headers@[k]@ == self.headers@[k]@,
            decreases n - i,
        {
            headers.push(self.headers[i].duplicate());
            i = i + 1;
        }
        let r = HttpRequest {
            method: self.method.clone(),
            uri: self.uri.clone(),
            version: self.version,
            headers,
            body: self.body.clone(),
        };
        assert(r@.headers =~= self@.headers);
        r
    }
}

/// The protocol version that a request line names, if it names one.
pub open spec fn protocol_version_named(s: Seq<char>) -> Option<HttpVersion> {
    if s == "HTTP/0.9"@ {
        Some(HttpVersion::Http09)
    } else if s == "HTTP/1.0"@ {
        Some(HttpVersion::Http10)
    } else if s == "HTTP/1.1"@ {
        Some(HttpVersion::Http11)
    } else if s == "HTTP/2"@ || s == "HTTP/2.0"@ {
        Some(HttpVersion::Http2)
    } else if s == "HTTP/3"@ || s == "HTTP/3.0"@ {
        Some(HttpVersion::Http3)
    } else {
        None
    }
}

/// The request method that a name spells exactly, if it spells one.
pub open spec fn method_named(s: Seq<char>) -> Option<HttpMethod> {
    if s == "GET"@ {
        Some(HttpMethod::Get)
    } else if s == "POST"@ {
        Some(HttpMethod::Post)
    } else if s == "PUT"@ {
        Some(HttpMethod::Put)
    } else if s == "DELETE"@ {
        Some(HttpMethod::Delete)
    } else if s == "PATCH"@ {
        Some(HttpMethod::Patch)
    } else if s == "HEAD"@ {
        Some(HttpMethod::Head)
    } else if s == "OPTIONS"@ {
        Some(HttpMethod::Options)
    } else if s == "CONNECT"@ {
        Some(HttpMethod::Connect)
    } else if s == "TRACE"@ {
        Some(HttpMethod::Trace)
    } else {
        None
    }
}

/// The label that ModSecurity expects for a protocol version.
pub open spec fn version_label(v: HttpVersion) -> Seq<char> {
    match v {
        HttpVersion::Http09 => "0.9"@,
        HttpVersion::Http10 => "1.0"@,
        HttpVersion::Http11 => "1.1"@,
        HttpVersion::Http2 => "2"@,
        HttpVersion::Http3 => "3"@,
    }
}

impl HttpVersion {
    /// The version number as ModSecurity expects it when a request line is processed.
    pub fn modsecurity_label(&self) -> (r: &'static str)
        ensures
            r@ == version_label(*self),
    {
        match self {
            HttpVersion::Http09 => "0.9",
            HttpVersion::Http10 => "1.0",
            HttpVersion::Http11 => "1.1",
            HttpVersion::Http2 => "2",
            HttpVersion::Http3 => "3",
        }
    }
}

/// Helpers for turning the text fields of dataset files into request parts.
pub struct WarmDatasetFileReaderHelper;

impl WarmDatasetFileReaderHelper {
    /// The protocol version that `s` names: `HTTP/0.9`, `HTTP/1.0`, `HTTP/1.1`,
    /// `HTTP/2` or `HTTP/2.0`, `HTTP/3` or `HTTP/3.0`.
    pub fn get_protocol_version(s: &str) -> (r: Option<HttpVersion>)
        ensures
            r == protocol_version_named(s@),
    {
        if text_equals(s, "HTTP/0.9") {
            Some(HttpVersion::Http09)
        } else if text_equals(s, "HTTP/1.0") {
            Some(HttpVersion::Http10)
        } else if text_equals(s, "HTTP/1.1") {
            Some(HttpVersion::Http11)
        } else if text_equals(s, "HTTP/2") || text_equals(s, "HTTP/2.0") {
            Some(HttpVersion::Http2)
        } else if text_equals(s, "HTTP/3") || text_equals(s, "HTTP/3.0") {
            Some(HttpVersion::Http3)
        } else {
            None
        }
    }

    /// The standard method that `s` spells exactly (upper case).
    pub fn get_method(s: &str) -> (r: Option<HttpMethod>)
        ensures
            r == method_named(s@),
    {
        if text_equals(s, "GET") {
            Some(HttpMethod::Get)
        } else if text_equals(s, "POST") {
            Some(HttpMethod::Post)
        } else if text_equals(s, "PUT") {
            Some(HttpMethod::Put)
        } else if text_equals(s, "DELETE") {
            Some(HttpMethod::Delete)
        } else if text_equals(s, "PATCH") {
            Some(HttpMethod::Patch)
        } else if text_equals(s, "HEAD") {
            Some(HttpMethod::Head)
        } else if text_equals(s, "OPTIONS") {
            Some(HttpMethod::Options)
        } else if text_equals(s, "CONNECT") {
            Some(HttpMethod::Connect)
        } else if text_equals(s, "TRACE") {
            Some(HttpMethod::Trace)
        } else {
            None
        }
    }
}

} // verus!
