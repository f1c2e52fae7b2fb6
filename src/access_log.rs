//! The access log: one line per request, written once the response is known.
use vstd::prelude::*;

verus! {

/// Middleware that records, for each request, its method, path, response
/// status, remote address and duration.
#[derive(Clone, Copy, Debug)]
pub struct AccessLog;

/// A string as `{:?}` prints it: quoted, with quotes, backslashes and
/// control characters escaped.
pub uninterp spec fn debug_of(s: Seq<char>) -> Seq<char>;

/// Relies on `<str as Debug>::fmt`: the result depends on the characters
/// alone.
#[verifier::external_body]
fn debug_quoted(s: &str) -> (r: String)
    ensures
        r@ == debug_of(s@),
{
    format!("{:?}", s)
}

/// The log line for one request: `METHOD QUOTED_PATH STATUS REMOTE MILLISms`.
pub open spec fn log_line(
    method: Seq<char>,
    quoted_path: Seq<char>,
    status: Seq<char>,
    remote: Seq<char>,
    millis: Seq<char>,
) -> Seq<char> {
    method + " "@ + quoted_path + " "@ + status + " "@ + remote + " "@ + millis + "ms"@
}

impl AccessLog {
    /// The line logged for a request with these method and path, answered
    /// with `status` for `remote` after `millis` milliseconds; the path is
    /// written as `{:?}` writes it.
    pub fn line(&self, method: &str, path: &str, status: &str, remote: &str, millis: &str) -> (r:
        String)
        ensures
            r@ == log_line(method@, debug_of(path@), status@, remote@, millis@),
    {
        let quoted = debug_quoted(path);
        self.line_quoted(method, quoted.as_str(), status, remote, millis)
    }

    /// The line logged for a request whose path is already quoted.
    pub fn line_quoted(
        &self,
        method: &str,
        quoted_path: &str,
        status: &str,
        remote: &str,
        millis: &str,
    ) -> (r: String)
        ensures
            r@ == log_line(method@, quoted_path@, status@, remote@, millis@),
    {
        let r = String::from_str(method);
        let r = r.concat(" ");
        let r = r.concat(quoted_path);
        let r = r.concat(" ");
        let r = r.concat(status);
        let r = r.concat(" ");
        let r = r.concat(remote);
        let r = r.concat(" ");
        let r = r.concat(millis);
        r.concat("ms")
    }
}

} // verus!
