use vstd::prelude::*;

verus! {

/// What one upload attempt came to.
pub enum UploadOutcome {
    /// The server accepted the file; `url` is the derived shareable URL.
    Success { url: String },
    /// The server answered with a status outside the success range.
    ServerError { status: u16 },
    /// The request never completed; `detail` describes the failure.
    TransportError { detail: String },
}

/// The character for one decimal digit.
pub open spec fn digit_char(d: nat) -> char {
    if d == 0 {
        '0'
    } else if d == 1 {
        '1'
    } else if d == 2 {
        '2'
    } else if d == 3 {
        '3'
    } else if d == 4 {
        '4'
    } else if d == 5 {
        '5'
    } else if d == 6 {
        '6'
    } else if d == 7 {
        '7'
    } else if d == 8 {
        '8'
    } else {
        '9'
    }
}

/// The decimal digit characters of `n`, most significant first.
pub open spec fn dec_digits(n: nat) -> Seq<char>
    decreases n,
{
    if n < 10 {
        seq![digit_char(n)]
    } else {
        dec_digits(n / 10).push(digit_char(n % 10))
    }
}

/// Appends one decimal digit character.
fn append_digit(out: &mut String, d: u16)
    requires
        d < 10,
    ensures
        final(out)@ == old(out)@ + seq![digit_char(d as nat)],
{
    if d == 0 {
        out.append("0");
    } else if d == 1 {
        out.append("1");
    } else if d == 2 {
        out.append("2");
    } else if d == 3 {
        out.append("3");
    } else if d == 4 {
        out.append("4");
    } else if d == 5 {
        out.append("5");
    } else if d == 6 {
        out.append("6");
    } else if d == 7 {
        out.append("7");
    } else if d == 8 {
        out.append("8");
    } else {
        out.append("9");
    }
    proof {
        reveal_strlit("0");
        reveal_strlit("1");
        reveal_strlit("2");
        reveal_strlit("3");
        reveal_strlit("4");
        reveal_strlit("5");
        reveal_strlit("6");
        reveal_strlit("7");
        reveal_strlit("8");
        reveal_strlit("9");
        assert(final(out)@ =~= old(out)@ + seq![digit_char(d as nat)]);
    }
}

/// Appends the decimal rendering of `n`.
fn append_u16_digits(out: &mut String, n: u16)
    ensures
        final(out)@ == old(out)@ + dec_digits(n as nat),
    decreases n,
{
    if n >= 10 {
        append_u16_digits(out, n / 10);
    }
    append_digit(out, n % 10);
    proof {
        if n >= 10 {
            assert(old(out)@ + dec_digits((n / 10) as nat) + seq![digit_char((n % 10) as nat)]
                =~= old(out)@ + dec_digits(n as nat));
        }
    }
}

/// The decimal text of a status code.
pub fn status_code_string(status: u16) -> (r: String)
    ensures
        r@ == dec_digits(status as nat),
{
    let mut out = String::new();
    append_u16_digits(&mut out, status);
    proof {
        assert(Seq::<char>::empty() + dec_digits(status as nat) =~= dec_digits(status as nat));
    }
    out
}

/// The desktop notification shown after every upload attempt.
pub struct NotificationSpec {
    pub appname: String,
    pub body: String,
    pub timeout_ms: u32,
}

/// The side effects owed for one upload outcome.
pub struct DispatchPlan {
    /// Text to place on the clipboard, when any.
    pub clipboard_text: Option<String>,
    /// URL to open in the browser, when any.
    pub browser_url: Option<String>,
    /// The notification shown in every case.
    pub notification: NotificationSpec,
}

/// Decides the side effects for one outcome. On success the shareable URL goes
/// to the clipboard and the browser and the body reports the copy; on a server
/// error the body carries the decimal status code; on a transport error it
/// carries the failure detail. Neither error touches the clipboard or the
/// browser. The notification always carries the fixed application name and a
/// five-second timeout.
pub fn dispatch(outcome: &UploadOutcome) -> (r: DispatchPlan)
    ensures
        r.notification.appname@ == "lutim-uploader"@,
        r.notification.timeout_ms == 5000,
        match outcome {
            UploadOutcome::Success { url } => {
                &&& (r.clipboard_text matches Some(t) && t@ == url@)
                &&& (r.browser_url matches Some(u) && u@ == url@)
                &&& r.notification.body@ == "Image sent. Link copied to the clipboard"@
            },
            UploadOutcome::ServerError { status } => {
                &&& r.clipboard_text is None
                &&& r.browser_url is None
                &&& r.notification.body@ == "Server error: "@ + dec_digits(*status as nat)
            },
            UploadOutcome::TransportError { detail } => {
                &&& r.clipboard_text is None
                &&& r.browser_url is None
                &&& r.notification.body@ == "Other error: "@ + detail@
            },
        },
{
    match outcome {
        UploadOutcome::Success { url } => DispatchPlan {
            clipboard_text: Some(url.clone()),
            browser_url: Some(url.clone()),
            notification: NotificationSpec {
                appname: "lutim-uploader".to_owned(),
                body: "Image sent. Link copied to the clipboard".to_owned(),
                timeout_ms: 5000,
            },
        },
        UploadOutcome::ServerError { status } => {
            let mut body = "Server error: ".to_owned();
            let digits = status_code_string(*status);
            body.append(digits.as_str());
            DispatchPlan {
                clipboard_text: None,
                browser_url: None,
                notification: NotificationSpec {
                    appname: "lutim-uploader".to_owned(),
                    body,
                    timeout_ms: 5000,
                },
            }
        },
        UploadOutcome::TransportError { detail } => {
            let mut body = "Other error: ".to_owned();
            body.append(detail.as_str());
            DispatchPlan {
                clipboard_text: None,
                browser_url: None,
                notification: NotificationSpec {
                    appname: "lutim-uploader".to_owned(),
                    body,
                    timeout_ms: 5000,
                },
            }
        },
    }
}

} // verus!
