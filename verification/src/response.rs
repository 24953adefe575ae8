use vstd::prelude::*;
use crate::dispatch::UploadOutcome;
use crate::jsontext::{unesc, parse_string_body};
use crate::jsonwalk::{ws_end, find_key, well_formed_object, ws_end_at, find_key_at,
    check_object};

verus! {

/// What a success response's text yields: the string values of `short` and
/// `ext` inside the object under the top-level key `msg`, read as one whole
/// JSON object — member order, whitespace and members this program does not
/// use are all free. Nothing when the text is no such object or lacks either
/// string.
pub open spec fn response_short_ext(s: Seq<char>) -> Option<(Seq<char>, Seq<char>)> {
    let i0 = ws_end(s, 0);
    if well_formed_object(s) {
        match find_key(s, i0 + 1, "msg"@) {
            Some(mv) => if mv < s.len() && s[mv] == '{' {
                match find_key(s, mv + 1, "short"@) {
                    Some(sv) => match find_key(s, mv + 1, "ext"@) {
                        Some(ev) => if sv < s.len() && s[sv] == '"' && ev < s.len() && s[ev]
                            == '"' {
                            match (unesc(s.skip(sv + 1)), unesc(s.skip(ev + 1))) {
                                (Some(ps), Some(pe)) => Some((ps.0, pe.0)),
                                _ => None,
                            }
                        } else {
                            None
                        },
                        None => None,
                    },
                    None => None,
                }
            } else {
                None
            },
            None => None,
        }
    } else {
        None
    }
}

/// Reads a success response's text into its short identifier and extension;
/// returns exactly what `response_short_ext` denotes.
pub fn parse_upload_response(s: &str) -> (r: Option<(String, String)>)
    ensures
        match r {
            Some(p) => response_short_ext(s@) == Some((p.0@, p.1@)),
            None => response_short_ext(s@) is None,
        },
{
    if !check_object(s) {
        return None;
    }
    let n = s.unicode_len();
    let i0 = ws_end_at(s, 0);
    let mv = match find_key_at(s, i0 + 1, "msg") {
        None => {
            return None;
        },
        Some(mv) => mv,
    };
    if mv >= n {
        return None;
    }
    if s.get_char(mv) != '{' {
        return None;
    }
    let sv = match find_key_at(s, mv + 1, "short") {
        None => {
            return None;
        },
        Some(sv) => sv,
    };
    let ev = match find_key_at(s, mv + 1, "ext") {
        None => {
            return None;
        },
        Some(ev) => ev,
    };
    if sv >= n || ev >= n {
        return None;
    }
    if s.get_char(sv) != '"' || s.get_char(ev) != '"' {
        return None;
    }
    let short = match parse_string_body(s, sv + 1) {
        None => {
            return None;
        },
        Some((short, _)) => short,
    };
    let ext = match parse_string_body(s, ev + 1) {
        None => {
            return None;
        },
        Some((ext, _)) => ext,
    };
    Some((short, ext))
}

/// The shareable URL for an upload: the base URL, a slash, the short
/// identifier, a dot, then the extension.
pub fn build_final_url(base: &str, short: &str, ext: &str) -> (r: String)
    ensures
        r@ == base@ + "/"@ + short@ + "."@ + ext@,
{
    let mut out = base.to_owned();
    out.append("/");
    out.append(short);
    out.append(".");
    out.append(ext);
    out
}

/// Classifies a completed HTTP exchange. A success status whose body carries
/// `msg.short` and `msg.ext` yields the derived URL; a success status with any
/// other body yields nothing, which the caller treats as fatal; every other
/// status is a server error carrying that status.
pub fn classify_response(base_url: &str, status: u16, body: &str) -> (r: Option<UploadOutcome>)
    ensures
        match r {
            Some(o) => match o {
                UploadOutcome::Success { url } => 200 <= status < 300 && (response_short_ext(
                    body@,
                ) matches Some(p) && url@ == base_url@ + "/"@ + p.0 + "."@ + p.1),
                UploadOutcome::ServerError { status: st } => st == status && !(200 <= status
                    < 300),
                UploadOutcome::TransportError { .. } => false,
            },
            None => 200 <= status < 300 && response_short_ext(body@) is None,
        },
{
    if 200 <= status && status < 300 {
        match parse_upload_response(body) {
            Some((short, ext)) => {
                let url = build_final_url(base_url, short.as_str(), ext.as_str());
                Some(UploadOutcome::Success { url })
            },
            None => None,
        }
    } else {
        Some(UploadOutcome::ServerError { status })
    }
}

} // verus!
