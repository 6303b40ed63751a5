use vstd::prelude::*;
use vstd::string::*;

verus! {

/// An HTTP status code and a body.
pub struct Response {
    pub status: u16,
    pub body: String,
}

pub struct ResponseMsg;

/// The JSON object `{"message": "<m>"}`, with `m` as it stands.
pub open spec fn message_json(m: Seq<char>) -> Seq<char> {
    "{\"message\": \""@ + m + "\"}"@
}

fn message_body(m: &str) -> (r: String)
    ensures
        r@ == message_json(m@),
{
    let mut body = String::from_str("{\"message\": \"");
    body.append(m);
    body.append("\"}");
    body
}

impl ResponseMsg {
    /// Status 200 with the message `OK`.
    pub fn ok() -> (r: Response)
        ensures
            r.status == 200,
            r.body@ == message_json("OK"@),
    {
        Response { status: 200, body: message_body("OK") }
    }

    /// Status 500 with the error's text as the message.
    pub fn err_from(e: &str) -> (r: Response)
        ensures
            r.status == 500,
            r.body@ == message_json(e@),
    {
        Response { status: 500, body: message_body(e) }
    }
}

} // verus!
