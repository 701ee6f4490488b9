use nemoscene::http::{HttpError, HttpRequest, ParameterValue, RequestType};

fn scalar(p: Option<&ParameterValue>) -> String {
    match p {
        Some(ParameterValue::Scalar(s)) => s.clone(),
        _ => panic!("expected a scalar parameter"),
    }
}

fn list(p: Option<&ParameterValue>) -> Vec<String> {
    match p {
        Some(ParameterValue::List(v)) => v.clone(),
        _ => panic!("expected a list parameter"),
    }
}

#[test]
fn scalar_last_write_wins() {
    let m = nemoscene::http::parse_parameters("a=1&a=2").unwrap();
    assert_eq!(scalar(m.get("a")), "2");
}

#[test]
fn list_parameters_accumulate() {
    let m = nemoscene::http::parse_parameters("a[]=1&a[]=2").unwrap();
    assert_eq!(list(m.get("a")), vec!["1", "2"]);
}

#[test]
fn percent_encoding_decodes() {
    let m = nemoscene::http::parse_parameters("key%20name=%41%20b").unwrap();
    assert_eq!(scalar(m.get("key name")), "A b");
}

#[test]
fn malformed_pairs_are_skipped() {
    let m = nemoscene::http::parse_parameters("noequals&a=1").unwrap();
    assert!(m.get("noequals").is_none());
    assert_eq!(scalar(m.get("a")), "1");
}

#[test]
fn scalar_overwrites_list() {
    let m = nemoscene::http::parse_parameters("a[]=1&a=2").unwrap();
    assert_eq!(scalar(m.get("a")), "2");
}

#[test]
fn list_over_scalar_is_rejected() {
    let e = nemoscene::http::parse_parameters("a=1&a[]=2").unwrap_err();
    match e {
        HttpError::BadRequest(m) => assert_eq!(m, "Invalid request body"),
        _ => panic!("expected a bad request"),
    }
}

#[test]
fn method_parsing_ignores_case() {
    assert!(matches!(RequestType::parse("GET"), Ok(RequestType::Get)));
    assert!(matches!(RequestType::parse("get"), Ok(RequestType::Get)));
    assert!(matches!(RequestType::parse("PoSt"), Ok(RequestType::Post)));
    assert!(matches!(
        RequestType::parse("PUT"),
        Err(HttpError::BadRequest(_))
    ));
}

#[test]
fn status_codes_of_the_taxonomy() {
    assert_eq!(HttpError::Redirect(String::from("/x")).status_code(), 307);
    assert_eq!(HttpError::BadRequest(String::from("m")).status_code(), 400);
    assert_eq!(HttpError::NotFound(String::from("m")).status_code(), 404);
    assert_eq!(HttpError::ServerError(String::from("m")).status_code(), 500);
    assert_eq!(HttpError::Unspecified.status_code(), 500);
}

#[test]
fn error_messages() {
    assert_eq!(
        HttpError::Redirect(String::from("/bundle/settings")).message(),
        "Redirection to /bundle/settings"
    );
    assert_eq!(HttpError::Unspecified.message(), "Unspecified error");
    assert_eq!(HttpError::NotFound(String::from("gone")).message(), "gone");
}

#[test]
fn parameter_value_accessors() {
    let s = ParameterValue::Scalar(String::from("x"));
    let l = ParameterValue::List(vec![String::from("a")]);
    assert_eq!(s.as_string().unwrap().as_str(), "x");
    assert!(s.as_array().is_err());
    assert_eq!(l.as_array().unwrap(), &vec![String::from("a")]);
    assert!(l.as_string().is_err());
    assert!(s == ParameterValue::Scalar(String::from("x")));
    assert!(s != ParameterValue::Scalar(String::from("y")));
    assert!(s != l);
    assert!(l == ParameterValue::List(vec![String::from("a")]));
}

#[test]
fn request_head_parsing() {
    let headers = vec![
        String::from("Host: device\r\n"),
        String::from("Content-Type: text/plain\r\n"),
    ];
    let req = HttpRequest::from_head("GET /bundle/u/index.html HTTP/1.1\r\n", &headers).unwrap();
    assert!(matches!(req.method, RequestType::Get));
    assert_eq!(req.route, "/bundle/u/index.html");
    assert_eq!(req.header.get("Host").unwrap().as_str(), "device");
    assert_eq!(req.header.get("Content-Type").unwrap().as_str(), "text/plain");
    assert!(req.get.is_none());
    assert!(req.post.is_none());
}

#[test]
fn request_head_query_parsing() {
    let headers: Vec<String> = Vec::new();
    let req =
        HttpRequest::from_head("GET /config_get?uuid=u&base=b&key=k HTTP/1.1\r\n", &headers)
            .unwrap();
    assert_eq!(req.route, "/config_get");
    let g = req.get.as_ref().unwrap();
    assert_eq!(scalar(g.get("uuid")), "u");
    assert_eq!(scalar(g.get("base")), "b");
    assert_eq!(scalar(g.get("key")), "k");
}

#[test]
fn request_head_rejects_bad_method() {
    let headers: Vec<String> = Vec::new();
    let e = HttpRequest::from_head("BREW /pot HTTP/1.1\r\n", &headers).unwrap_err();
    match e {
        HttpError::BadRequest(m) => assert_eq!(m, "Corrupted HTTP headers"),
        _ => panic!("expected a bad request"),
    }
}

#[test]
fn request_head_rejects_missing_route() {
    let headers: Vec<String> = Vec::new();
    let e = HttpRequest::from_head("GET", &headers).unwrap_err();
    match e {
        HttpError::BadRequest(m) => assert_eq!(m, "Corrupted HTTP headers"),
        _ => panic!("expected a bad request"),
    }
}

#[test]
fn form_body_length() {
    let headers = vec![
        String::from("Content-Length: 3\r\n"),
        String::from("Content-Type: application/x-www-form-urlencoded\r\n"),
    ];
    let req = HttpRequest::from_head("POST /config_set HTTP/1.1\r\n", &headers).unwrap();
    assert_eq!(req.form_content_length(), Some(3));

    let headers = vec![
        String::from("Content-Length: 0\r\n"),
        String::from("Content-Type: application/x-www-form-urlencoded\r\n"),
    ];
    let req = HttpRequest::from_head("POST / HTTP/1.1\r\n", &headers).unwrap();
    assert_eq!(req.form_content_length(), None);

    let headers = vec![
        String::from("Content-Length: nope\r\n"),
        String::from("Content-Type: application/x-www-form-urlencoded\r\n"),
    ];
    let req = HttpRequest::from_head("POST / HTTP/1.1\r\n", &headers).unwrap();
    assert_eq!(req.form_content_length(), None);

    let headers = vec![String::from("Content-Length: 3\r\n")];
    let req = HttpRequest::from_head("POST / HTTP/1.1\r\n", &headers).unwrap();
    assert_eq!(req.form_content_length(), None);
}

#[test]
fn form_body_attaches() {
    let headers: Vec<String> = Vec::new();
    let mut req = HttpRequest::from_head("POST /config_set HTTP/1.1\r\n", &headers).unwrap();
    req.attach_form_body(b"a=1&b=%42".to_vec()).unwrap();
    let p = req.post.as_ref().unwrap();
    assert_eq!(scalar(p.get("a")), "1");
    assert_eq!(scalar(p.get("b")), "B");
}

#[test]
fn form_body_rejects_invalid_text() {
    let headers: Vec<String> = Vec::new();
    let mut req = HttpRequest::from_head("POST / HTTP/1.1\r\n", &headers).unwrap();
    let e = req.attach_form_body(vec![0xff, 0xfe]).unwrap_err();
    match e {
        HttpError::BadRequest(m) => assert_eq!(m, "Invalid form body"),
        _ => panic!("expected a bad request"),
    }
}
