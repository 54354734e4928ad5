use media_schema::endpoint::{
    AuthScheme, HistoryEntry, HttpMethod, MatrixVersion, Metadata, PathArg, PathTemplate, Segment,
};
use media_schema::error::ApiError;

fn template(prefix: &str) -> PathTemplate {
    PathTemplate::new(vec![
        Segment::Literal(prefix.to_owned()),
        Segment::Literal("thumbnail".to_owned()),
        Segment::Param("a".to_owned()),
        Segment::Param("b".to_owned()),
    ])
}

fn history() -> Metadata {
    Metadata::new(
        HttpMethod::Get,
        true,
        AuthScheme::NoAuthentication,
        vec![
            HistoryEntry { version: MatrixVersion::new(1, 0), path: template("r0") },
            HistoryEntry { version: MatrixVersion::new(1, 1), path: template("v3") },
        ],
    )
    .unwrap()
}

fn args(a: &str, b: &str) -> Vec<PathArg> {
    vec![
        PathArg { name: "a".to_owned(), value: a.to_owned() },
        PathArg { name: "b".to_owned(), value: b.to_owned() },
    ]
}

#[test]
fn template_text() {
    assert_eq!(template("r0").to_text(), "/r0/thumbnail/{a}/{b}");
}

#[test]
fn version_floor_resolution() {
    let m = history();
    assert_eq!(m.resolve(MatrixVersion::new(1, 0)).unwrap().to_text(), "/r0/thumbnail/{a}/{b}");
    assert_eq!(m.resolve(MatrixVersion::new(1, 1)).unwrap().to_text(), "/v3/thumbnail/{a}/{b}");
    assert_eq!(m.resolve(MatrixVersion::new(1, 7)).unwrap().to_text(), "/v3/thumbnail/{a}/{b}");
    assert_eq!(m.resolve(MatrixVersion::new(2, 0)).unwrap().to_text(), "/v3/thumbnail/{a}/{b}");
    assert_eq!(m.resolve_index(MatrixVersion::new(1, 0)).unwrap(), 0);
    assert_eq!(m.resolve_index(MatrixVersion::new(3, 2)).unwrap(), 1);
    match m.resolve(MatrixVersion::new(0, 9)) {
        Err(ApiError::UnsupportedVersion { requested, minimum }) => {
            assert_eq!(requested, MatrixVersion::new(0, 9));
            assert_eq!(minimum, MatrixVersion::new(1, 0));
        }
        other => panic!("unexpected {:?}", other),
    }
}

#[test]
fn path_substitution() {
    let m = history();
    let p = m.make_path(MatrixVersion::new(1, 1), &args("example.org", "abc123")).unwrap();
    assert_eq!(p, "/v3/thumbnail/example.org/abc123");
    let p = m.make_path(MatrixVersion::new(1, 0), &args("example.org", "abc123")).unwrap();
    assert_eq!(p, "/r0/thumbnail/example.org/abc123");
}

#[test]
fn path_substitution_rejects_wrong_fields() {
    let m = history();
    let wrong_name = vec![
        PathArg { name: "a".to_owned(), value: "x".to_owned() },
        PathArg { name: "c".to_owned(), value: "y".to_owned() },
    ];
    assert!(matches!(
        m.make_path(MatrixVersion::new(1, 1), &wrong_name),
        Err(ApiError::SchemaMismatch)
    ));
    let too_few = vec![PathArg { name: "a".to_owned(), value: "x".to_owned() }];
    assert!(matches!(template("v3").fill(&too_few), Err(ApiError::SchemaMismatch)));
    let mut too_many = args("x", "y");
    too_many.push(PathArg { name: "c".to_owned(), value: "z".to_owned() });
    assert!(matches!(template("v3").fill(&too_many), Err(ApiError::SchemaMismatch)));
    assert!(matches!(
        m.make_path(MatrixVersion::new(0, 1), &args("x", "y")),
        Err(ApiError::UnsupportedVersion { .. })
    ));
}

#[test]
fn metadata_rejects_bad_history() {
    let empty = Metadata::new(HttpMethod::Get, false, AuthScheme::AccessToken, vec![]);
    assert!(matches!(empty, Err(ApiError::SchemaMismatch)));
    let unordered = Metadata::new(
        HttpMethod::Get,
        false,
        AuthScheme::AccessToken,
        vec![
            HistoryEntry { version: MatrixVersion::new(1, 1), path: template("v3") },
            HistoryEntry { version: MatrixVersion::new(1, 0), path: template("r0") },
        ],
    );
    assert!(matches!(unordered, Err(ApiError::SchemaMismatch)));
    let other_params = Metadata::new(
        HttpMethod::Put,
        false,
        AuthScheme::AccessTokenOptional,
        vec![
            HistoryEntry { version: MatrixVersion::new(1, 0), path: template("r0") },
            HistoryEntry {
                version: MatrixVersion::new(1, 1),
                path: PathTemplate::new(vec![Segment::Param("a".to_owned())]),
            },
        ],
    );
    assert!(matches!(other_params, Err(ApiError::SchemaMismatch)));
}

#[test]
fn version_order() {
    assert!(MatrixVersion::new(1, 0).le(&MatrixVersion::new(1, 1)));
    assert!(MatrixVersion::new(1, 9).le(&MatrixVersion::new(2, 0)));
    assert!(!MatrixVersion::new(1, 1).le(&MatrixVersion::new(1, 0)));
    assert_eq!(HttpMethod::Get.as_str(), "GET");
}

#[test]
fn path_extraction() {
    let t = template("v3");
    assert_eq!(
        t.extract("/v3/thumbnail/example.org/abc123"),
        Some(vec!["example.org".to_owned(), "abc123".to_owned()])
    );
    assert_eq!(t.extract("/r0/thumbnail/example.org/abc123"), None);
    assert_eq!(t.extract("/v3/thumbnail/example.org"), None);
    assert_eq!(t.extract("/v3/thumbnail/example.org/abc/def"), None);
    assert_eq!(t.extract("/v3/thumbnail//abc123"), None);
    assert_eq!(t.extract("v3/thumbnail/example.org/abc123"), None);
    assert_eq!(t.extract(""), None);
    assert_eq!(PathTemplate::new(vec![]).extract(""), Some(vec![]));
    assert_eq!(PathTemplate::new(vec![]).extract("/"), None);
}

#[test]
fn extraction_inverts_filling() {
    let t = template("r0");
    let path = t.fill(&args("matrix.org", "xyz")).unwrap();
    assert_eq!(path, "/r0/thumbnail/matrix.org/xyz");
    assert_eq!(t.extract(&path), Some(vec!["matrix.org".to_owned(), "xyz".to_owned()]));
}
