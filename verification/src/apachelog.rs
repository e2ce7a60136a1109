//! The time stamps and file names of the access and error logs.

use vstd::prelude::*;

use crate::date_format::{
    digits_fixed, lemma_decimal_padded_digits, lemma_month_names, pow10,
    decimal, decimal_padded, decimal_signed_padded, local_time, months_short, months_short_spec,
    push_decimal, push_decimal_padded, push_decimal_signed_padded, push_decimal_u64,
    tz_local_time, LocalTime,
};
use crate::chj_util::debugstr::{debug_quoted, str_debug};
use crate::lang::Lang;

verus! {

/// The log time stamp for the UTC time `lt` (as a view), as Apache
/// writes it: "06/Dec/2023:02:02:47 +0000".
pub open spec fn log_time_spec(lt: (u32, u32, u32, i32, u32, u32, u32, Seq<char>)) -> Seq<char> {
    decimal_padded(lt.1 as nat, 2) + "/"@ + months_short_spec(Lang::En)[lt.2 as int] + "/"@
        + decimal_signed_padded(lt.3 as int, 4) + ":"@ + decimal_padded(lt.4 as nat, 2) + ":"@
        + decimal_padded(lt.5 as nat, 2) + ":"@ + decimal_padded(lt.6 as nat, 2) + " +0000"@
}

/// A log time stamp has fixed fields, "dd/Mon/yyyy:hh:mm:ss +0000":
/// the day's two digits, the English month name, the year's four
/// digits, then the hour, the minute and the second, two digits each
/// and in that order (for years written with four digits).
pub proof fn lemma_log_time_layout(lt: (u32, u32, u32, i32, u32, u32, u32, Seq<char>))
    requires
        lt.1 < 100,
        lt.2 < 12,
        0 <= lt.3 <= 9999,
        lt.4 < 100,
        lt.5 < 100,
        lt.6 < 100,
    ensures
        ({
            let s = log_time_spec(lt);
            &&& s.len() == 26
            &&& s.subrange(0, 2) == digits_fixed(lt.1 as nat, 2)
            &&& s[2] == '/'
            &&& s.subrange(3, 6) == months_short_spec(Lang::En)[lt.2 as int]
            &&& s[6] == '/'
            &&& s.subrange(7, 11) == digits_fixed(lt.3 as nat, 4)
            &&& s[11] == ':'
            &&& s.subrange(12, 14) == digits_fixed(lt.4 as nat, 2)
            &&& s[14] == ':'
            &&& s.subrange(15, 17) == digits_fixed(lt.5 as nat, 2)
            &&& s[17] == ':'
            &&& s.subrange(18, 20) == digits_fixed(lt.6 as nat, 2)
            &&& s.subrange(20, 26) == seq![' ', '+', '0', '0', '0', '0']
        }),
{
    reveal_with_fuel(pow10, 5);
    reveal_strlit("/");
    reveal_strlit(":");
    reveal_strlit(" +0000");
    lemma_month_names(lt.2 as int);
    lemma_decimal_padded_digits(lt.1 as nat, 2);
    lemma_decimal_padded_digits(lt.3 as nat, 4);
    lemma_decimal_padded_digits(lt.4 as nat, 2);
    lemma_decimal_padded_digits(lt.5 as nat, 2);
    lemma_decimal_padded_digits(lt.6 as nat, 2);
    reveal_with_fuel(digits_fixed, 5);
    let d = digits_fixed(lt.1 as nat, 2);
    let m = months_short_spec(Lang::En)[lt.2 as int];
    let y = digits_fixed(lt.3 as nat, 4);
    let h = digits_fixed(lt.4 as nat, 2);
    let mi = digits_fixed(lt.5 as nat, 2);
    let sc = digits_fixed(lt.6 as nat, 2);
    assert(decimal_signed_padded(lt.3 as int, 4) == decimal_padded(lt.3 as nat, 4));
    let s = log_time_spec(lt);
    assert(s =~= d + "/"@ + m + "/"@ + y + ":"@ + h + ":"@ + mi + ":"@ + sc + " +0000"@);
    assert(s.subrange(0, 2) =~= d);
    assert(s.subrange(3, 6) =~= m);
    assert(s.subrange(7, 11) =~= y);
    assert(s.subrange(12, 14) =~= h);
    assert(s.subrange(15, 17) =~= mi);
    assert(s.subrange(18, 20) =~= sc);
    assert(s.subrange(20, 26) =~= seq![' ', '+', '0', '0', '0', '0']);
}

/// Appends the log time stamp for the UTC time `lt`.
pub fn write_time(out: &mut String, lt: &LocalTime)
    requires
        lt.month0 < 12,
    ensures
        final(out)@ == old(out)@ + log_time_spec(lt@),
{
    let months = months_short(Lang::En);
    push_decimal_padded(out, lt.day, 2);
    out.append("/");
    out.append(months[lt.month0 as usize]);
    out.append("/");
    push_decimal_signed_padded(out, lt.year, 4);
    out.append(":");
    push_decimal_padded(out, lt.hour, 2);
    out.append(":");
    push_decimal_padded(out, lt.minute, 2);
    out.append(":");
    push_decimal_padded(out, lt.second, 2);
    out.append(" +0000");
    assert(out@ =~= old(out)@ + log_time_spec(lt@));
}

/// The access and error log files under `logbasedir`, for HTTP or HTTPS:
/// "{logbasedir}/http[s]_access.log" and "{logbasedir}/http[s]_error.log".
pub fn log_paths(logbasedir: &str, is_https: bool) -> (r: (String, String))
    ensures
        r.0@ == logbasedir@ + (if is_https {
            "/https_access.log"@
        } else {
            "/http_access.log"@
        }),
        r.1@ == logbasedir@ + (if is_https {
            "/https_error.log"@
        } else {
            "/http_error.log"@
        }),
{
    let mut access = logbasedir.to_owned();
    let mut error = logbasedir.to_owned();
    if is_https {
        access.append("/https_access.log");
        error.append("/https_error.log");
    } else {
        access.append("/http_access.log");
        error.append("/http_error.log");
    }
    (access, error)
}

/// The log time stamp for `unixtime` (seconds since the epoch), in UTC;
/// `None` where the time zone database has no time for it.
pub fn log_time(unixtime: i64) -> (r: Option<String>)
    ensures
        match tz_local_time("UTC"@, unixtime) {
            Some(lt) => r matches Some(s) && s@ == log_time_spec(lt),
            None => r is None,
        },
{
    match local_time("UTC", unixtime) {
        Some(lt) => {
            let mut out = String::new();
            write_time(&mut out, &lt);
            Some(out)
        },
        None => None,
    }
}

/// The text of `s`, or "-" where there is none.
pub open spec fn or_dash(s: Option<Seq<char>>) -> Seq<char> {
    match s {
        Some(t) => t,
        None => "-"@,
    }
}

fn str_or_dash<'a>(s: Option<&'a str>) -> (r: &'a str)
    ensures
        r@ == or_dash(
            match s {
                Some(t) => Some(t@),
                None => None,
            },
        ),
{
    match s {
        Some(t) => t,
        None => "-",
    }
}

/// An access log line in the Combined Log Format (Apache's), with the
/// request's duration at the end: client address, "-", the user (or
/// "-"), the time stamp in brackets, the quoted request line, the
/// status code, the body length (0 where unknown), the quoted referer
/// and user agent (or "-"), the duration, and a newline.
pub open spec fn combined_line_spec(
    client_ip: Seq<char>,
    user: Option<Seq<char>>,
    time: Seq<char>,
    request_line: Seq<char>,
    status: u16,
    body_len: Option<usize>,
    referer: Option<Seq<char>>,
    user_agent: Option<Seq<char>>,
    duration: Seq<char>,
) -> Seq<char> {
    client_ip + " - "@ + or_dash(user) + " ["@ + time + "] "@ + debug_quoted(request_line) + " "@
        + decimal(status as nat) + " "@ + decimal(
        match body_len {
            Some(n) => n as nat,
            None => 0,
        },
    ) + " "@ + debug_quoted(or_dash(referer)) + " "@ + debug_quoted(or_dash(user_agent)) + " "@
        + duration + "\n"@
}

pub open spec fn opt_view(s: Option<&str>) -> Option<Seq<char>> {
    match s {
        Some(t) => Some(t@),
        None => None,
    }
}

/// The access log line for a request (see `combined_line_spec`); `time`
/// is the time stamp and `duration` the duration as they are to be shown.
pub fn combined_line(
    client_ip: &str,
    user: Option<&str>,
    time: &str,
    request_line: &str,
    status: u16,
    body_len: Option<usize>,
    referer: Option<&str>,
    user_agent: Option<&str>,
    duration: &str,
) -> (r: String)
    ensures
        r@ == combined_line_spec(
            client_ip@,
            opt_view(user),
            time@,
            request_line@,
            status,
            body_len,
            opt_view(referer),
            opt_view(user_agent),
            duration@,
        ),
{
    let mut out = client_ip.to_owned();
    out.append(" - ");
    out.append(str_or_dash(user));
    out.append(" [");
    out.append(time);
    out.append("] ");
    out.append(str_debug(request_line).as_str());
    out.append(" ");
    push_decimal(&mut out, status as u32);
    out.append(" ");
    let len: u64 = match body_len {
        Some(n) => n as u64,
        None => 0,
    };
    push_decimal_u64(&mut out, len);
    out.append(" ");
    out.append(str_debug(str_or_dash(referer)).as_str());
    out.append(" ");
    out.append(str_debug(str_or_dash(user_agent)).as_str());
    out.append(" ");
    out.append(duration);
    out.append("\n");
    assert(out@ =~= combined_line_spec(
        client_ip@,
        opt_view(user),
        time@,
        request_line@,
        status,
        body_len,
        opt_view(referer),
        opt_view(user_agent),
        duration@,
    ));
    out
}

/// An error log line: the time stamp in brackets, "[error]", the
/// client address, the quoted request line, the duration, the error
/// message, and a newline.
pub open spec fn error_line_spec(
    time: Seq<char>,
    client_ip: Seq<char>,
    request_line: Seq<char>,
    duration: Seq<char>,
    message: Seq<char>,
) -> Seq<char> {
    "["@ + time + "] [error] [client "@ + client_ip + "] "@ + debug_quoted(request_line) + " "@
        + duration + ": "@ + message + "\n"@
}

/// The error log line for a request whose handler failed with the
/// error `message` (see `error_line_spec`).
pub fn error_line(
    time: &str,
    client_ip: &str,
    request_line: &str,
    duration: &str,
    message: &str,
) -> (r: String)
    ensures
        r@ == error_line_spec(time@, client_ip@, request_line@, duration@, message@),
{
    let mut out = String::new();
    out.append("[");
    out.append(time);
    out.append("] [error] [client ");
    out.append(client_ip);
    out.append("] ");
    out.append(str_debug(request_line).as_str());
    out.append(" ");
    out.append(duration);
    out.append(": ");
    out.append(message);
    out.append("\n");
    assert(out@ =~= error_line_spec(time@, client_ip@, request_line@, duration@, message@));
    out
}

/// The line written to stderr when a handler panicked.
pub open spec fn panic_line_spec(request_line: Seq<char>, duration: Seq<char>) -> Seq<char> {
    "[panic] handling "@ + debug_quoted(request_line) + " after "@ + duration + "\n"@
}

/// The stderr line for a request whose handler panicked.
pub fn panic_line(request_line: &str, duration: &str) -> (r: String)
    ensures
        r@ == panic_line_spec(request_line@, duration@),
{
    let mut out = String::new();
    out.append("[panic] handling ");
    out.append(str_debug(request_line).as_str());
    out.append(" after ");
    out.append(duration);
    out.append("\n");
    assert(out@ =~= panic_line_spec(request_line@, duration@));
    out
}

/// The request line as the log shows it: the method, a space and the
/// URL as requested.
pub fn request_line(method: &str, raw_url: &str) -> (r: String)
    ensures
        r@ == method@ + " "@ + raw_url@,
{
    let mut out = method.to_owned();
    out.append(" ");
    out.append(raw_url);
    out
}

} // verus!
