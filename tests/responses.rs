use local_store::ip_logger::serve_html;
use local_store::responses::ResponseMsg;

#[test]
fn ok_response() {
    let r = ResponseMsg::ok();
    assert_eq!(r.status, 200);
    assert_eq!(r.body, "{\"message\": \"OK\"}");
}

#[test]
fn error_response_carries_the_message() {
    let r = ResponseMsg::err_from("disk full");
    assert_eq!(r.status, 500);
    assert_eq!(r.body, "{\"message\": \"disk full\"}");
}

#[test]
fn page_is_accepted_html() {
    let r = serve_html();
    assert_eq!(r.status, 202);
    assert!(r.body.contains("<!DOCTYPE html>"));
    assert!(r.body.contains("fetch(\"/ip-logger/log\")"));
}
