use std::io::Read;

use http_server::cli::get_directory_arg;
use http_server::msg::HttpMsg;
use http_server::routing::{build_response, plan_file_op, request_tokens, route, FileOp, Route};

fn gunzip(bytes: &[u8]) -> Vec<u8> {
    let mut decoder = flate2::read::GzDecoder::new(bytes);
    let mut out = Vec::new();
    decoder.read_to_end(&mut out).unwrap();
    out
}

#[test]
fn request_tokens_method_and_path() {
    let t = request_tokens("GET /echo/hi HTTP/1.1").unwrap();
    assert_eq!(t.0, "GET");
    assert_eq!(t.1, "/echo/hi");
}

#[test]
fn request_tokens_extra_whitespace() {
    let t = request_tokens("  POST   /files/a   HTTP/1.1").unwrap();
    assert_eq!(t.0, "POST");
    assert_eq!(t.1, "/files/a");
}

#[test]
fn request_tokens_missing_path() {
    assert!(request_tokens("GET").is_none());
    assert!(request_tokens("").is_none());
    assert!(request_tokens("   ").is_none());
}

#[test]
fn route_priorities() {
    assert_eq!(route("GET", "/echo/x"), Route::Echo);
    assert_eq!(route("GET", "/files/x"), Route::FileGet);
    assert_eq!(route("GET", "/user-agent"), Route::UserAgent);
    assert_eq!(route("GET", "/"), Route::Root);
    assert_eq!(route("GET", "/unknown"), Route::NotFound);
    assert_eq!(route("POST", "/files/x"), Route::FilePost);
    assert_eq!(route("POST", "/echo/x"), Route::Unsupported);
    assert_eq!(route("DELETE", "/"), Route::Unsupported);
}

#[test]
fn build_echo_response() {
    let req = HttpMsg::from("GET /echo/hello HTTP/1.1\r\nHost: x\r\n\r\n").unwrap();
    let resp = build_response(&req, None);
    assert_eq!(
        resp.headers,
        vec![
            "HTTP/1.1 200 OK".to_string(),
            "Content-Type: text/plain".to_string(),
            "Content-Length: 5".to_string()
        ]
    );
    assert_eq!(resp.body, b"hello".to_vec());
}

#[test]
fn build_root_response() {
    let req = HttpMsg::from("GET / HTTP/1.1\r\n\r\n").unwrap();
    let resp = build_response(&req, None);
    assert_eq!(
        resp.headers,
        vec!["HTTP/1.1 200 OK".to_string(), "Content-Length: 0".to_string()]
    );
    assert!(resp.body.is_empty());
}

#[test]
fn build_not_found_response() {
    let req = HttpMsg::from("GET /nothing HTTP/1.1\r\n\r\n").unwrap();
    let resp = build_response(&req, None);
    assert_eq!(resp.headers[0], "HTTP/1.1 404 Not Found");
    assert!(resp.body.is_empty());
}

#[test]
fn build_unsupported_method_stays_400() {
    let req = HttpMsg::from("DELETE / HTTP/1.1\r\n\r\n").unwrap();
    let resp = build_response(&req, None);
    assert_eq!(
        resp.headers,
        vec!["HTTP/1.1 400 Bad Request".to_string(), "Content-Length: 0".to_string()]
    );
}

#[test]
fn build_file_get_found() {
    let req = HttpMsg::from("GET /files/a.bin HTTP/1.1\r\n\r\n").unwrap();
    let contents: Vec<u8> = b"payload".to_vec();
    let resp = build_response(&req, Some(&contents));
    assert_eq!(resp.headers[0], "HTTP/1.1 200 OK");
    assert_eq!(resp.headers[1], "Content-Type: application/octet-stream");
    assert_eq!(resp.body, b"payload".to_vec());
}

#[test]
fn build_file_get_missing_is_404() {
    let req = HttpMsg::from("GET /files/missing.txt HTTP/1.1\r\n\r\n").unwrap();
    let resp = build_response(&req, None);
    assert_eq!(resp.headers[0], "HTTP/1.1 404 Not Found");
    assert!(resp.body.is_empty());
}

#[test]
fn compression_negotiated() {
    let req =
        HttpMsg::from("GET /echo/hello-compression HTTP/1.1\r\nAccept-Encoding: gzip\r\n\r\n")
            .unwrap();
    let resp = build_response(&req, None);
    assert_eq!(resp.headers[0], "HTTP/1.1 200 OK");
    assert!(resp.headers.contains(&"Content-Encoding: gzip".to_string()));
    assert_eq!(resp.headers.last().unwrap(), &format!("Content-Length: {}", resp.body.len()));
    assert_eq!(gunzip(&resp.body), b"hello-compression".to_vec());
}

#[test]
fn compression_token_in_list() {
    let req = HttpMsg::from("GET /echo/hi HTTP/1.1\r\nAccept-Encoding: deflate, gzip, br\r\n\r\n")
        .unwrap();
    let resp = build_response(&req, None);
    assert!(resp.headers.contains(&"Content-Encoding: gzip".to_string()));
    assert_eq!(gunzip(&resp.body), b"hi".to_vec());
}

#[test]
fn compression_skipped_without_gzip() {
    let req = HttpMsg::from("GET /echo/hi HTTP/1.1\r\nAccept-Encoding: br\r\n\r\n").unwrap();
    let resp = build_response(&req, None);
    assert!(!resp.headers.contains(&"Content-Encoding: gzip".to_string()));
    assert_eq!(resp.body, b"hi".to_vec());
}

#[test]
fn compression_skipped_for_empty_body() {
    let req = HttpMsg::from("GET / HTTP/1.1\r\nAccept-Encoding: gzip\r\n\r\n").unwrap();
    let resp = build_response(&req, None);
    assert!(!resp.headers.contains(&"Content-Encoding: gzip".to_string()));
    assert!(resp.body.is_empty());
    assert_eq!(resp.headers.last().unwrap(), "Content-Length: 0");
}

#[test]
fn compress_directly_round_trips() {
    let mut resp = HttpMsg::create();
    resp.return_echo_string("/echo/some-body-to-pack");
    let original = resp.body.clone();
    let request = vec!["GET /echo/x HTTP/1.1".to_string(), "Accept-Encoding: gzip".to_string()];
    resp.compress(&request);
    assert_eq!(resp.headers.last().unwrap(), "Content-Encoding: gzip");
    assert_eq!(gunzip(&resp.body), original);
}

#[test]
fn plan_file_op_for_get() {
    let req = HttpMsg::from("GET /files/foo.txt HTTP/1.1\r\n\r\n").unwrap();
    match plan_file_op(&req, "/srv/").unwrap() {
        FileOp::ReadAt(p) => assert_eq!(p, "/srv/foo.txt"),
        _ => panic!("expected a read"),
    }
}

#[test]
fn plan_file_op_for_post_truncates_to_declared() {
    let req =
        HttpMsg::from("POST /files/new.txt HTTP/1.1\r\nContent-Length: 3\r\n\r\nabcdef").unwrap();
    match plan_file_op(&req, "/srv/").unwrap() {
        FileOp::WriteAt(p, data) => {
            assert_eq!(p, "/srv/new.txt");
            assert_eq!(data, b"abc".to_vec());
        },
        _ => panic!("expected a write"),
    }
}

#[test]
fn plan_file_op_post_writes_declared_body() {
    let req = HttpMsg::from("POST /files/new.txt HTTP/1.1\r\nContent-Length: 3\r\n\r\nabc").unwrap();
    match plan_file_op(&req, "/srv/").unwrap() {
        FileOp::WriteAt(_, data) => assert_eq!(data, b"abc".to_vec()),
        _ => panic!("expected a write"),
    }
    let resp = build_response(&req, None);
    assert_eq!(resp.headers[0], "HTTP/1.1 201 Created");
}

#[test]
fn plan_file_op_post_bad_length_is_malformed() {
    let req =
        HttpMsg::from("POST /files/new.txt HTTP/1.1\r\nContent-Length: ten\r\n\r\nabc").unwrap();
    assert!(plan_file_op(&req, "/srv/").is_err());
}

#[test]
fn plan_file_op_nothing_for_echo() {
    let req = HttpMsg::from("GET /echo/hi HTTP/1.1\r\n\r\n").unwrap();
    assert!(matches!(plan_file_op(&req, "/srv/").unwrap(), FileOp::Nothing));
}

#[test]
fn directory_arg_found() {
    let args = vec!["server".to_string(), "--directory".to_string(), "/tmp/files/".to_string()];
    assert_eq!(get_directory_arg(&args).unwrap(), "/tmp/files/");
}

#[test]
fn directory_arg_missing() {
    let args = vec!["server".to_string()];
    assert!(get_directory_arg(&args).is_err());
}

#[test]
fn directory_arg_flag_without_value() {
    let args = vec!["server".to_string(), "--directory".to_string()];
    assert!(get_directory_arg(&args).is_err());
}
