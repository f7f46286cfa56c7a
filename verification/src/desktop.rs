//! The desktop shell's proxy to the local GUI API: which requests it
//! forwards, and where.
use vstd::prelude::*;
use crate::text::{
    append_str, char_pred, chars_of, has_char, is_prefix, str_to_string, strip_end, trim_seq,
    upper_ascii_seq,
};

verus! {

/// Where the desktop shell finds the GUI API unless configured otherwise.
pub const DEFAULT_DESKTOP_SERVER_URL: &'static str = "http://127.0.0.1:9467";

/// The error a desktop command answers with.
#[derive(Debug)]
pub struct DesktopCommandError {
    pub code: String,
    pub message: String,
}

impl DesktopCommandError {
    /// A failure of the native backend behind a command.
    pub fn backend(message: &str) -> (r: Self)
        ensures
            r.code@ == "native_dialog_failed"@,
            r.message@ == message@,
    {
        DesktopCommandError { code: str_to_string("native_dialog_failed"), message: str_to_string(message) }
    }
}

/// A path the proxy forwards: under `/api/`, on one line.
pub open spec fn api_path_ok(path: Seq<char>) -> bool {
    is_prefix("/api/"@, path) && !has_char(path, '\r') && !has_char(path, '\n')
}

/// The configured server URL where it is not blank, else the default.
pub open spec fn chosen_server(server_url: Option<Seq<char>>, default_url: Seq<char>) -> Seq<char> {
    match server_url {
        Some(u) => if trim_seq(u).len() > 0 {
            u
        } else {
            default_url
        },
        None => default_url,
    }
}

/// The URL a proxied request goes to: the server without trailing slashes,
/// then the path; any path outside the API is refused.
pub fn desktop_api_url(server_url: Option<&str>, default_server_url: &str, path: &str) -> (r: Result<
    String,
    DesktopCommandError,
>)
    ensures
        api_path_ok(path@) ==> (r matches Ok(u) && u@ == strip_end(
            chosen_server(crate::account::opt_str_view(server_url), default_server_url@),
            char_pred('/'),
        ) + path@),
        !api_path_ok(path@) ==> (r matches Err(e) && e.code@ == "native_dialog_failed"@ && e.message@
            == "desktop API proxy only accepts /api/* paths"@),
{
    let pv = chars_of(path);
    let cr = crate::text::index_of_char(pv.as_slice(), '\r');
    let lf = crate::text::index_of_char(pv.as_slice(), '\n');
    proof {
        if has_char(path@, '\r') {
            let k = choose|k: int| 0 <= k < path@.len() && path@[k] == '\r';
            assert(cr <= k);
        }
        if has_char(path@, '\n') {
            let k = choose|k: int| 0 <= k < path@.len() && path@[k] == '\n';
            assert(lf <= k);
        }
    }
    if !crate::text::starts_with_str(path, "/api/") || cr < pv.len() || lf < pv.len() {
        return Err(DesktopCommandError::backend("desktop API proxy only accepts /api/* paths"));
    }
    let chosen: String = match server_url {
        Some(u) => {
            if crate::text::trim_str(u).unicode_len() > 0 {
                str_to_string(u)
            } else {
                str_to_string(default_server_url)
            }
        },
        None => str_to_string(default_server_url),
    };
    let cv = chars_of(chosen.as_str());
    let end = crate::text::strip_end_char(cv.as_slice(), 0, cv.len(), '/');
    assert(cv@.subrange(0, cv@.len() as int) =~= cv@);
    let mut url = crate::text::string_of_range(cv.as_slice(), 0, end);
    append_str(&mut url, path);
    Ok(url)
}

/// The HTTP method of a proxied request: the given one upper-cased, `GET`
/// by default; only `GET` and `POST` are forwarded.
pub fn desktop_api_method(method: Option<&str>) -> (r: Result<String, DesktopCommandError>)
    ensures
        ({
            let m = match crate::account::opt_str_view(method) {
                Some(t) => upper_ascii_seq(t),
                None => "GET"@,
            };
            &&& (m == "GET"@ || m == "POST"@) ==> (r matches Ok(x) && x@ == m)
            &&& !(m == "GET"@ || m == "POST"@) ==> (r matches Err(e) && e.code@ == "native_dialog_failed"@
                && e.message@ == "desktop API proxy only supports GET and POST"@)
        }),
{
    let m = match method {
        Some(t) => crate::text::upper_ascii_str(t),
        None => str_to_string("GET"),
    };
    proof {
        reveal_strlit("GET");
        reveal_strlit("POST");
    }
    if crate::text::str_eq(m.as_str(), "GET") || crate::text::str_eq(m.as_str(), "POST") {
        Ok(m)
    } else {
        Err(DesktopCommandError::backend("desktop API proxy only supports GET and POST"))
    }
}

} // verus!
