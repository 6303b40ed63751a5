use vstd::prelude::*;
use vstd::string::*;
use crate::bounded_log::{push_bytes, single_line, CARRIAGE_RETURN, NEWLINE};
use crate::responses::Response;

verus! {

/// Largest number of lines the address log holds after an append, its
/// header included.
pub const MAX_LINES_IN_CSV: usize = 1000;

/// Where the address log is kept.
pub struct IpCsvPath(pub String);

pub open spec fn null_text() -> Seq<u8> {
    seq![110u8, 117u8, 108u8, 108u8]
}

/// The record of one visit: the address, or `null` where none is known, a
/// comma, and the time.
pub open spec fn record_of(ip: Option<Seq<u8>>, stamp: Seq<u8>) -> Seq<u8> {
    let who = match ip {
        Some(a) => a,
        None => null_text(),
    };
    who + seq![44u8] + stamp
}

/// Builds the record of one visit from the client's address and a time stamp.
pub fn record_line(ip: Option<&Vec<u8>>, stamp: &Vec<u8>) -> (r: Vec<u8>)
    ensures
        r@ == record_of(
            match ip {
                Some(a) => Some(a@),
                None => None,
            },
            stamp@,
        ),
{
    let mut out: Vec<u8> = Vec::new();
    match ip {
        Some(a) => push_bytes(&mut out, a),
        None => {
            out.push(110);
            out.push(117);
            out.push(108);
            out.push(108);
        },
    }
    out.push(44);
    push_bytes(&mut out, stamp);
    assert(out@ =~= record_of(
        match ip {
            Some(a) => Some(a@),
            None => None,
        },
        stamp@,
    ));
    out
}

/// The UTC time `secs` seconds after the Unix epoch, written as
/// `YYYY-MM-DDTHH:MM:SS`.
pub uninterp spec fn utc_stamp(secs: i64) -> Seq<u8>;

/// The first second that chrono's calendar holds: 1 January of the year
/// -262143, 00:00:00 UTC.
pub const MIN_STAMP_SECS: i64 = -8334601228800;

/// The last second that chrono's calendar holds: 31 December of the year
/// 262142, 23:59:59 UTC.
pub const MAX_STAMP_SECS: i64 = 8210266876799;

/// Relies on chrono's `DateTime::from_timestamp`, which gives `None` exactly
/// for a time outside its calendar (years -262143 to 262142), and on its
/// `format` with `%Y-%m-%dT%T`, which writes digits, signs, `-`, `T` and `:`.
#[verifier::external_body]
fn format_utc(secs: i64) -> (r: Option<Vec<u8>>)
    ensures
        (r is Some) == (MIN_STAMP_SECS <= secs <= MAX_STAMP_SECS),
        r matches Some(s) ==> s@ == utc_stamp(secs) && s@.len() > 0 && single_line(s@),
{
    match chrono::DateTime::from_timestamp(secs, 0) {
        Some(d) => Some(d.format("%Y-%m-%dT%T").to_string().into_bytes()),
        None => None,
    }
}

/// The record of a visit at `secs` seconds after the Unix epoch, or `None`
/// where that time is outside the calendar. The record is one line where
/// the address is.
pub fn visit_record(ip: Option<&Vec<u8>>, secs: i64) -> (r: Option<Vec<u8>>)
    ensures
        (r is Some) == (MIN_STAMP_SECS <= secs <= MAX_STAMP_SECS),
        (ip matches Some(a) ==> single_line(a@)) ==> (r matches Some(t) ==> single_line(t@)
            && t@.len() > 0),
        r matches Some(t) ==> t@ == record_of(
            match ip {
                Some(a) => Some(a@),
                None => None,
            },
            utc_stamp(secs),
        ),
{
    match format_utc(secs) {
        Some(stamp) => {
            let t = record_line(ip, &stamp);
            proof {
                let who = match ip {
                    Some(a) => a@,
                    None => null_text(),
                };
                if ip matches Some(a) ==> single_line(a@) {
                    assert(t@ =~= who + seq![44u8] + stamp@);
                    assert forall|i: int| 0 <= i < t@.len() implies t@[i] != NEWLINE
                        && t@[i] != CARRIAGE_RETURN by {
                        if i < who.len() {
                            assert(t@[i] == who[i]);
                        } else if i > who.len() {
                            assert(t@[i] == stamp@[i - who.len() - 1]);
                        }
                    }
                }
            }
            Some(t)
        },
        None => None,
    }
}

/// The bytes of `ip address,timestamp`, the header of the address log.
pub open spec fn ip_header() -> Seq<u8> {
    seq![105u8, 112u8, 32u8, 97u8, 100u8, 100u8, 114u8, 101u8, 115u8, 115u8, 44u8, 116u8, 105u8, 109u8, 101u8, 115u8, 116u8, 97u8, 109u8, 112u8]
}

/// The header line of the address log.
pub fn ip_log_header() -> (r: Vec<u8>)
    ensures
        r@ == ip_header(),
        single_line(r@),
{
    let r: Vec<u8> = vec![105, 112, 32, 97, 100, 100, 114, 101, 115, 115, 44, 116, 105, 109, 101, 115, 116, 97, 109, 112];
    assert(r@ =~= ip_header());
    r
}


/// The page served to visitors of the address logger; its script asks for
/// the visit to be logged.
pub open spec fn ip_logger_page() -> Seq<char> {
    "
<!DOCTYPE html>
<html lang=\"en\">

<head>
    <meta charset=\"UTF-8\">
    <meta name=\"viewport\" content=\"width=device-width, initial-scale=1\">
    <title>IP Logger</title>
    <script>
        fetch(\"/ip-logger/log\")
            .then(r => {
                console.log(\"status\", r.status);
                return r.text();
            })
            .then(d => console.log(\"response\", d))
            .catch(e => console.error(\"BIG OOPS\", e));
    </script>
</head>

<body>
    I have logged your IP. Thank you for participating in this cyber security experiment!
</body>

</html>
    "@
}

/// The address logger's page, with status 202.
pub fn serve_html() -> (r: Response)
    ensures
        r.status == 202,
        r.body@ == ip_logger_page(),
{
    Response {
        status: 202,
        body: String::from_str(
            "
<!DOCTYPE html>
<html lang=\"en\">

<head>
    <meta charset=\"UTF-8\">
    <meta name=\"viewport\" content=\"width=device-width, initial-scale=1\">
    <title>IP Logger</title>
    <script>
        fetch(\"/ip-logger/log\")
            .then(r => {
                console.log(\"status\", r.status);
                return r.text();
            })
            .then(d => console.log(\"response\", d))
            .catch(e => console.error(\"BIG OOPS\", e));
    </script>
</head>

<body>
    I have logged your IP. Thank you for participating in this cyber security experiment!
</body>

</html>
    ",
        ),
    }
}

} // verus!
