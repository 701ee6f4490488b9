use nemoscene::response::{error_body, format_redirect, format_response};

#[test]
fn responses_carry_length_type_and_body() {
    let bytes = format_response(200, "text/html", &b"hi".to_vec());
    assert_eq!(
        String::from_utf8(bytes).unwrap(),
        "HTTP/1.1 200 OK\r\nContent-Length: 2\r\nContent-Type: text/html\r\nAccess-Control-Allow-Origin: *\r\n\r\nhi"
    );
}

#[test]
fn error_responses_use_status_500() {
    let body = error_body("boom", "detail");
    assert_eq!(String::from_utf8(body.clone()).unwrap(), "boom\ndetail");
    let bytes = format_response(500, "text/plain", &body);
    let text = String::from_utf8(bytes).unwrap();
    assert!(text.starts_with("HTTP/1.1 500 OK\r\n"));
    assert!(text.ends_with("\r\n\r\nboom\ndetail"));
}

#[test]
fn redirects_carry_only_a_location() {
    let bytes = format_redirect("/bundle/settings");
    assert_eq!(
        String::from_utf8(bytes).unwrap(),
        "HTTP/1.1 307 OK\r\nLocation: /bundle/settings\r\n\r\n"
    );
}

#[test]
fn body_bytes_pass_through_unchanged() {
    let body: Vec<u8> = vec![0, 159, 146, 150];
    let bytes = format_response(200, "font/ttf", &body);
    assert_eq!(&bytes[bytes.len() - 4..], &body[..]);
}
