use media_schema::endpoint::{AuthScheme, HttpMethod, MatrixVersion};
use media_schema::error::ApiError;
use media_schema::mxc::decompose;
use media_schema::query::{form_decode_bytes, parse_uint, split_pairs};
use media_schema::thumbnail::{metadata, Header, Method, Request, Response};

#[test]
fn default_allow_remote_is_omitted() {
    let r = Request::new("abc123".to_owned(), "example.org".to_owned(), 64, 64);
    assert!(r.allow_remote);
    assert_eq!(r.query_string(), "width=64&height=64");
    let parsed = Request::from_query("example.org".to_owned(), "abc123".to_owned(), "width=64&height=64")
        .unwrap();
    assert!(parsed.allow_remote);
}

#[test]
fn allow_remote_false_round_trips() {
    let mut r = Request::new("abc123".to_owned(), "example.org".to_owned(), 64, 32);
    r.allow_remote = false;
    let q = r.query_string();
    assert_eq!(q, "width=64&height=32&allow_remote=false");
    let parsed = Request::from_query("example.org".to_owned(), "abc123".to_owned(), &q).unwrap();
    assert!(!parsed.allow_remote);
    assert_eq!(parsed.width, 64);
    assert_eq!(parsed.height, 32);
    assert!(parsed.method.is_none());
}

#[test]
fn method_is_serialized_and_read_back() {
    let mut r = Request::new("m".to_owned(), "s".to_owned(), 1, 2);
    r.method = Some(Method::Crop);
    assert_eq!(r.query_string(), "method=crop&width=1&height=2");
    r.method = Some(Method::parse("a b&c=é"));
    let q = r.query_string();
    assert_eq!(q, "method=a+b%26c%3D%C3%A9&width=1&height=2");
    let parsed = Request::from_query("s".to_owned(), "m".to_owned(), &q).unwrap();
    assert_eq!(parsed.method.unwrap().as_str(), "a b&c=é");
    let parsed = Request::from_query("s".to_owned(), "m".to_owned(), "height=2&method=scale&width=1")
        .unwrap();
    assert_eq!(parsed.method, Some(Method::Scale));
    assert_eq!(parsed.server_name, "s");
    assert_eq!(parsed.media_id, "m");
}

#[test]
fn query_decode_errors_name_the_field() {
    let field = |q: &str| match Request::from_query("s".to_owned(), "m".to_owned(), q) {
        Err(ApiError::FieldDecode { field }) => field,
        other => panic!("unexpected {:?}", other),
    };
    assert_eq!(field("height=2"), "width");
    assert_eq!(field("width=abc&height=2"), "width");
    assert_eq!(field("width=1"), "height");
    assert_eq!(field("width=1&height=-2"), "height");
    assert_eq!(field("width=1&height=2&allow_remote=yes"), "allow_remote");
    assert_eq!(field("method=%ZZ&width=1&height=2"), "method");
    assert_eq!(field("method=%FF&width=1&height=2"), "method");
    assert_eq!(field("width=9007199254740992&height=2"), "width");
    let max = Request::from_query("s".to_owned(), "m".to_owned(), "width=9007199254740991&height=0")
        .unwrap();
    assert_eq!(max.width, 9007199254740991);
    let t = Request::from_query("s".to_owned(), "m".to_owned(), "width=1&height=2&allow_remote=true")
        .unwrap();
    assert!(t.allow_remote);
}

#[test]
fn content_uri_decomposition() {
    let (server, media) = decompose("mxc://example.org/abc123").unwrap();
    assert_eq!(server, "example.org");
    assert_eq!(media, "abc123");
    let (server, media) = decompose("mxc://[::1]:8448/a/b").unwrap();
    assert_eq!(server, "[::1]:8448");
    assert_eq!(media, "a/b");
    for bad in ["mxc:///abc123", "mxc://example.org", "mxc://example.org/", "http://example.org/a", "mxc:/", "", "mxc://ex ample.org/a"] {
        assert!(matches!(decompose(bad), Err(ApiError::MalformedUri)), "{}", bad);
    }
}

#[test]
fn construction_equivalence() {
    let a = Request::from_url("mxc://example.org/abc123", 64, 64).unwrap();
    let b = Request::new("abc123".to_owned(), "example.org".to_owned(), 64, 64);
    assert_eq!(a.server_name, b.server_name);
    assert_eq!(a.media_id, b.media_id);
    assert!(a.method.is_none() && b.method.is_none());
    assert_eq!(a.allow_remote, b.allow_remote);
    let v = MatrixVersion::new(1, 1);
    let wa = a.to_http_request(v).unwrap();
    let wb = b.to_http_request(v).unwrap();
    assert_eq!(wa.path, wb.path);
    assert_eq!(wa.query, wb.query);
    assert_eq!(wa.method, wb.method);
    assert!(matches!(Request::from_url("example.org/abc123", 64, 64), Err(ApiError::MalformedUri)));
}

#[test]
fn thumbnail_wire_request() {
    let r = Request::new("abc123".to_owned(), "example.org".to_owned(), 64, 64);
    let w = r.to_http_request(MatrixVersion::new(1, 1)).unwrap();
    assert_eq!(w.method, HttpMethod::Get);
    assert_eq!(w.path, "/_matrix/media/v3/thumbnail/example.org/abc123");
    assert_eq!(w.query, "width=64&height=64");
    let w = r.to_http_request(MatrixVersion::new(1, 0)).unwrap();
    assert_eq!(w.path, "/_matrix/media/r0/thumbnail/example.org/abc123");
    assert!(matches!(
        r.to_http_request(MatrixVersion::new(0, 6)),
        Err(ApiError::UnsupportedVersion { .. })
    ));
    let m = metadata();
    assert!(m.rate_limited);
    assert_eq!(m.authentication, AuthScheme::NoAuthentication);
    assert_eq!(m.history[0].path.to_text(), "/_matrix/media/r0/thumbnail/{server_name}/{media_id}");
}

#[test]
fn response_headers_and_parsing() {
    let r = Response::new(vec![1, 2, 3]);
    assert_eq!(r.file, vec![1, 2, 3]);
    assert!(r.content_type.is_none());
    assert_eq!(r.cross_origin_resource_policy.as_deref(), Some("cross-origin"));
    let hs = r.headers();
    assert_eq!(hs.len(), 1);
    assert_eq!(hs[0].name, "cross-origin-resource-policy");
    assert_eq!(hs[0].value, "cross-origin");

    let mut r = Response::new(vec![]);
    r.content_type = Some("image/png".to_owned());
    let hs = r.headers();
    assert_eq!(hs[0].name, "content-type");
    assert_eq!(hs[0].value, "image/png");

    let back = Response::from_http(&hs, vec![9]);
    assert_eq!(back.content_type.as_deref(), Some("image/png"));
    assert_eq!(back.cross_origin_resource_policy.as_deref(), Some("cross-origin"));
    assert_eq!(back.file, vec![9]);

    let none = Response::from_http(&vec![Header { name: "x".to_owned(), value: "y".to_owned() }], vec![]);
    assert!(none.content_type.is_none());
    assert!(none.cross_origin_resource_policy.is_none());
}

#[test]
fn query_helpers() {
    assert_eq!(split_pairs("a=1&&b"), vec!["a=1".to_owned(), "".to_owned(), "b".to_owned()]);
    assert_eq!(split_pairs(""), vec!["".to_owned()]);
    assert_eq!(form_decode_bytes("a+%41%e9"), Some(vec![b'a', b' ', 0x41, 0xe9]));
    assert_eq!(form_decode_bytes("%4"), None);
    assert_eq!(form_decode_bytes("é"), None);
    assert_eq!(parse_uint("0042"), Some(42));
    assert_eq!(parse_uint(""), None);
    assert_eq!(parse_uint("18446744073709551616"), None);
}
