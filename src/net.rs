use vstd::prelude::*;
use vstd::string::StringExecFns;

verus! {

/// The request line and headers of a GET request for `path` on `host`.
pub open spec fn request_text(host: Seq<char>, path: Seq<char>) -> Seq<char> {
    "GET /"@ + path + " HTTP/1.1\n"@ + "Host: "@ + host + "\n"@ + "Accept: text/html\n"@
        + "Connection: close\n"@ + "\n"@
}

/// A client for plain HTTP.
#[derive(Debug)]
pub struct HttpClient {}

impl HttpClient {
    pub fn new() -> (r: HttpClient) {
        HttpClient {  }
    }

    /// The text of the request that `get` sends for `path` on `host`.
    pub fn request(&self, host: &str, path: &str) -> (r: String)
        ensures
            r@ == request_text(host@, path@),
    {
        let mut request = String::from_str("GET /");
        request.append(path);
        request.append(" HTTP/1.1\n");
        request.append("Host: ");
        request.append(host);
        request.append("\n");
        request.append("Accept: text/html\n");
        request.append("Connection: close\n");
        request.append("\n");
        request
    }
}

} // verus!
