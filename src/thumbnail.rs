//! The media thumbnail endpoint: its metadata, request and response.
use vstd::prelude::*;
use crate::string_enum::{
    lemma_parse_serialize, lemma_serialize_parse, names_distinct, parse_from, parse_token,
    serialize_token, token_wf, PrivOwnedStr, TokenModel,
};
use crate::text::str_eq;
use crate::endpoint::{
    arg_names, arg_values, floor_index, params, render, AuthScheme, HistoryEntry, HttpMethod,
    MatrixVersion, Metadata, PathArg, PathTemplate, Segment, SegmentView,
};
use crate::error::ApiError;
use crate::query::{
    decimal, digits_value, find_field, form_encode, form_encode_into, is_uint_text, parse_uint,
    push_decimal, query_field, split_pairs, value_ok, value_text, decode_value, MAX_SAFE_UINT,
    lemma_decimal, lemma_decode_encode, lemma_decode_plain, lemma_form_encode_no_amp, lemma_pair,
    lemma_split_concat, lemma_split_single, lookup_from, no_amp, pair_key, pair_value, split_amp,
    is_plain,
};
use vstd::string::*;
use vstd::utf8::*;

verus! {

/// The desired resizing method.
#[derive(Clone, Debug)]
#[non_exhaustive]
pub enum Method {
    /// Crop the original to produce the requested image dimensions.
    Crop,
    /// Maintain the original aspect ratio of the source image.
    Scale,
    /// Any other wire string, kept as it came.
    _Custom(PrivOwnedStr),
}

impl View for Method {
    type V = TokenModel;

    open spec fn view(&self) -> TokenModel {
        match self {
            Method::Crop => TokenModel::Known(0),
            Method::Scale => TokenModel::Known(1),
            Method::_Custom(s) => TokenModel::Custom(s@),
        }
    }
}

impl Method {
    /// The known wire strings, in declaration order.
    pub open spec fn names() -> Seq<Seq<char>> {
        seq!["crop"@, "scale"@]
    }

    /// A value that can occur: a custom value never holds a known wire string.
    pub open spec fn wf(&self) -> bool {
        token_wf(Self::names(), self@)
    }

    /// The wire string of this value.
    pub fn as_str(&self) -> (r: &str)
        ensures
            r@ == serialize_token(Self::names(), self@),
    {
        match self {
            Method::Crop => "crop",
            Method::Scale => "scale",
            Method::_Custom(s) => s.as_str(),
        }
    }

    /// Reads a wire string: a known variant on an exact match, else a custom
    /// value that keeps the string.
    pub fn parse(s: &str) -> (r: Method)
        ensures
            r@ == parse_token(Self::names(), s@),
            r.wf(),
    {
        proof {
            reveal_with_fuel(parse_from, 3);
            lemma_serialize_parse(Self::names(), s@);
        }
        if str_eq(s, "crop") {
            Method::Crop
        } else if str_eq(s, "scale") {
            Method::Scale
        } else {
            Method::_Custom(PrivOwnedStr::new(s))
        }
    }

    /// No wire string is declared twice.
    pub proof fn lemma_names_distinct()
        ensures
            names_distinct(Self::names()),
    {
        reveal_strlit("crop");
        reveal_strlit("scale");
        assert("crop"@[0] != "scale"@[0]);
    }

    /// Parsing the wire string of a value that can occur gives the value back.
    pub proof fn lemma_round_trip(v: Method)
        requires
            v.wf(),
        ensures
            parse_token(Self::names(), serialize_token(Self::names(), v@)) == v@,
    {
        Self::lemma_names_distinct();
        lemma_parse_serialize(Self::names(), v@);
    }
}

impl PartialEq for Method {
    fn eq(&self, other: &Method) -> (r: bool) {
        match (self, other) {
            (Method::Crop, Method::Crop) => true,
            (Method::Scale, Method::Scale) => true,
            (Method::_Custom(a), Method::_Custom(b)) => str_eq(a.as_str(), b.as_str()),
            _ => false,
        }
    }
}

impl vstd::std_specs::cmp::PartialEqSpecImpl for Method {
    open spec fn obeys_eq_spec() -> bool {
        true
    }

    open spec fn eq_spec(&self, other: &Method) -> bool {
        self@ == other@
    }
}

impl Eq for Method {}

/// The segments of the thumbnail path under the version prefix `prefix`.
pub open spec fn thumbnail_segments(prefix: Seq<char>) -> Seq<SegmentView> {
    seq![
        SegmentView::Literal("_matrix"@),
        SegmentView::Literal("media"@),
        SegmentView::Literal(prefix),
        SegmentView::Literal("thumbnail"@),
        SegmentView::Param("server_name"@),
        SegmentView::Param("media_id"@),
    ]
}

/// The placeholders of the thumbnail path.
pub open spec fn thumbnail_params() -> Seq<Seq<char>> {
    seq!["server_name"@, "media_id"@]
}

proof fn lemma_thumbnail_params(prefix: Seq<char>)
    ensures
        params(thumbnail_segments(prefix)) == thumbnail_params(),
{
    reveal_with_fuel(params, 7);
    let s = thumbnail_segments(prefix);
    assert(s.drop_last().drop_last() =~= seq![
        SegmentView::Literal("_matrix"@),
        SegmentView::Literal("media"@),
        SegmentView::Literal(prefix),
        SegmentView::Literal("thumbnail"@),
    ]);
    assert(s.drop_last() =~= s.drop_last().drop_last().push(SegmentView::Param("server_name"@)));
    assert(params(s.drop_last().drop_last()) =~= Seq::<Seq<char>>::empty());
    assert(params(s) =~= thumbnail_params());
}

fn thumbnail_template(prefix: &str) -> (r: PathTemplate)
    ensures
        r@ == thumbnail_segments(prefix@),
{
    let t = PathTemplate::new(
        vec![
            Segment::Literal(String::from_str("_matrix")),
            Segment::Literal(String::from_str("media")),
            Segment::Literal(String::from_str(prefix)),
            Segment::Literal(String::from_str("thumbnail")),
            Segment::Param(String::from_str("server_name")),
            Segment::Param(String::from_str("media_id")),
        ],
    );
    proof {
        assert(t@ =~= thumbnail_segments(prefix@));
    }
    t
}

/// The metadata of the thumbnail endpoint: `GET`, rate limited, no
/// authentication; `r0` paths from version 1.0 and `v3` paths from 1.1.
pub fn metadata() -> (m: Metadata)
    ensures
        m.wf(),
        m.method == HttpMethod::Get,
        m.rate_limited,
        m.authentication == AuthScheme::NoAuthentication,
        m.history@.len() == 2,
        m.history@[0].version == (MatrixVersion { major: 1, minor: 0 }),
        m.history@[0].path@ == thumbnail_segments("r0"@),
        m.history@[1].version == (MatrixVersion { major: 1, minor: 1 }),
        m.history@[1].path@ == thumbnail_segments("v3"@),
{
    let history = vec![
        HistoryEntry { version: MatrixVersion::new(1, 0), path: thumbnail_template("r0") },
        HistoryEntry { version: MatrixVersion::new(1, 1), path: thumbnail_template("v3") },
    ];
    proof {
        lemma_thumbnail_params("r0"@);
        lemma_thumbnail_params("v3"@);
    }
    Metadata {
        method: HttpMethod::Get,
        rate_limited: true,
        authentication: AuthScheme::NoAuthentication,
        history,
    }
}

/// Request type for the thumbnail endpoint.
#[derive(Clone, Debug)]
pub struct Request {
    /// The server name from the content URI (its authority).
    pub server_name: String,
    /// The media id from the content URI (its path).
    pub media_id: String,
    /// The desired resizing method.
    pub method: Option<Method>,
    /// The desired width of the thumbnail.
    pub width: u64,
    /// The desired height of the thumbnail.
    pub height: u64,
    /// Whether to fetch media deemed remote; `true` unless the query says otherwise.
    pub allow_remote: bool,
}

/// The query string of a request: `method` if there is one, then `width` and
/// `height`, then `allow_remote=false` only where it is not the default.
pub open spec fn query_text(method: Option<Seq<char>>, width: nat, height: nat, allow_remote: bool) -> Seq<char> {
    (match method {
        Some(m) => "method="@ + form_encode(encode_utf8(m)) + "&"@,
        None => Seq::empty(),
    }) + "width="@ + decimal(width) + "&height="@ + decimal(height) + (if allow_remote {
        Seq::empty()
    } else {
        "&allow_remote=false"@
    })
}

/// The wire string of an optional method.
pub open spec fn method_wire(m: Option<Method>) -> Option<Seq<char>> {
    match m {
        Some(v) => Some(serialize_token(Method::names(), v@)),
        None => None,
    }
}

/// A request as it goes on the wire.
#[derive(Clone, Debug)]
pub struct HttpRequest {
    pub method: HttpMethod,
    pub path: String,
    pub query: String,
}

/// The name of the first query field, in the order `method`, `width`,
/// `height`, `allow_remote`, whose value cannot be read, if any.
pub open spec fn query_error(q: Seq<char>) -> Option<Seq<char>> {
    if query_field(q, "method"@) matches Some(raw) && !value_ok(raw) {
        Some("method"@)
    } else if !(query_field(q, "width"@) matches Some(raw) && value_ok(raw) && is_uint_text(
        value_text(raw),
    )) {
        Some("width"@)
    } else if !(query_field(q, "height"@) matches Some(raw) && value_ok(raw) && is_uint_text(
        value_text(raw),
    )) {
        Some("height"@)
    } else if query_field(q, "allow_remote"@) matches Some(raw) && !(value_ok(raw) && (
    value_text(raw) == "true"@ || value_text(raw) == "false"@)) {
        Some("allow_remote"@)
    } else {
        None
    }
}

/// The number a readable numeric field holds.
pub open spec fn field_number(q: Seq<char>, key: Seq<char>) -> nat {
    digits_value(value_text(query_field(q, key)->0))
}

proof fn lemma_no_amp_concat(x: Seq<char>, y: Seq<char>)
    requires
        no_amp(x),
        no_amp(y),
    ensures
        no_amp(x + y),
{
    assert forall|i: int| 0 <= i < (x + y).len() implies #[trigger] (x + y)[i] != '&' by {
        if i < x.len() {
            assert((x + y)[i] == x[i]);
        } else {
            assert((x + y)[i] == y[i - x.len()]);
        }
    }
}

proof fn lemma_digits_plain(n: nat)
    ensures
        forall|i: int| 0 <= i < decimal(n).len() ==> is_plain(#[trigger] decimal(n)[i]),
        no_amp(decimal(n)),
        value_ok(decimal(n)),
        value_text(decimal(n)) == decimal(n),
        n <= MAX_SAFE_UINT ==> is_uint_text(decimal(n)),
        digits_value(decimal(n)) == n,
{
    lemma_decimal(n);
    assert forall|i: int| 0 <= i < decimal(n).len() implies is_plain(#[trigger] decimal(n)[i]) by {
        assert(crate::query::is_digit(decimal(n)[i]));
    }
    lemma_decode_plain(decimal(n));
}

pub open spec fn width_pair(w: nat) -> Seq<char> {
    "width"@ + seq!['='] + decimal(w)
}

pub open spec fn height_pair(h: nat) -> Seq<char> {
    "height"@ + seq!['='] + decimal(h)
}

pub open spec fn allow_pair() -> Seq<char> {
    "allow_remote"@ + seq!['='] + "false"@
}

pub open spec fn method_pair(mv: Seq<char>) -> Seq<char> {
    "method"@ + seq!['='] + form_encode(encode_utf8(mv))
}

/// The `key=value` pieces of a query string, in order.
pub open spec fn query_pairs(m: Option<Seq<char>>, w: nat, h: nat, a: bool) -> Seq<Seq<char>> {
    (match m {
        Some(mv) => seq![method_pair(mv)],
        None => Seq::empty(),
    }) + seq![width_pair(w), height_pair(h)] + (if a {
        Seq::empty()
    } else {
        seq![allow_pair()]
    })
}

proof fn lemma_pieces_no_amp(m: Option<Seq<char>>, w: nat, h: nat)
    ensures
        no_amp(width_pair(w)),
        no_amp(height_pair(h)),
        no_amp(allow_pair()),
        m matches Some(mv) ==> no_amp(method_pair(mv)),
{
    reveal_strlit("width");
    reveal_strlit("height");
    reveal_strlit("allow_remote");
    reveal_strlit("false");
    reveal_strlit("method");
    lemma_digits_plain(w);
    lemma_digits_plain(h);
    assert(no_amp("width"@ + seq!['=']));
    assert(no_amp("height"@ + seq!['=']));
    assert(no_amp(allow_pair()));
    lemma_no_amp_concat("width"@ + seq!['='], decimal(w));
    lemma_no_amp_concat("height"@ + seq!['='], decimal(h));
    if m is Some {
        assert(no_amp("method"@ + seq!['=']));
        lemma_form_encode_no_amp(encode_utf8(m->0));
        lemma_no_amp_concat("method"@ + seq!['='], form_encode(encode_utf8(m->0)));
    }
}

proof fn lemma_query_text_joined(m: Option<Seq<char>>, w: nat, h: nat, a: bool)
    ensures
        query_text(m, w, h, a) == (match m {
            Some(mv) => method_pair(mv) + seq!['&'],
            None => Seq::empty(),
        }) + width_pair(w) + seq!['&'] + height_pair(h) + (if a {
            Seq::empty()
        } else {
            seq!['&'] + allow_pair()
        }),
{
    reveal_strlit("method=");
    reveal_strlit("&");
    reveal_strlit("width=");
    reveal_strlit("&height=");
    reveal_strlit("&allow_remote=false");
    reveal_strlit("method");
    reveal_strlit("width");
    reveal_strlit("height");
    reveal_strlit("allow_remote");
    reveal_strlit("false");
    assert(query_text(m, w, h, a) =~= (match m {
        Some(mv) => method_pair(mv) + seq!['&'],
        None => Seq::empty(),
    }) + width_pair(w) + seq!['&'] + height_pair(h) + (if a {
        Seq::empty()
    } else {
        seq!['&'] + allow_pair()
    }));
}

proof fn lemma_query_split(m: Option<Seq<char>>, w: nat, h: nat, a: bool)
    ensures
        split_amp(query_text(m, w, h, a)) == query_pairs(m, w, h, a),
{
    lemma_query_text_joined(m, w, h, a);
    lemma_pieces_no_amp(m, w, h);
    let pw = width_pair(w);
    let ph = height_pair(h);
    let pa = allow_pair();
    lemma_split_single(pw, '&');
    lemma_split_single(ph, '&');
    lemma_split_single(pa, '&');
    let body = pw + seq!['&'] + ph;
    lemma_split_concat(pw, ph, '&');
    let with_tail = if a {
        body
    } else {
        body + seq!['&'] + pa
    };
    if !a {
        lemma_split_concat(body, pa, '&');
    }
    let tail_pairs = seq![pw, ph] + (if a {
        Seq::empty()
    } else {
        seq![pa]
    });
    assert(split_amp(with_tail) =~= tail_pairs);
    match m {
        Some(mv) => {
            let pm = method_pair(mv);
            lemma_split_single(pm, '&');
            lemma_split_concat(pm, with_tail, '&');
            assert(query_text(m, w, h, a) =~= pm + seq!['&'] + with_tail);
            assert(query_pairs(m, w, h, a) =~= seq![pm] + tail_pairs);
        },
        None => {
            assert(query_text(m, w, h, a) =~= with_tail);
            assert(query_pairs(m, w, h, a) =~= tail_pairs);
        },
    }
}

proof fn lemma_pair_parts(m: Option<Seq<char>>, w: nat, h: nat)
    ensures
        pair_key(width_pair(w)) == "width"@,
        pair_value(width_pair(w)) == decimal(w),
        pair_key(height_pair(h)) == "height"@,
        pair_value(height_pair(h)) == decimal(h),
        pair_key(allow_pair()) == "allow_remote"@,
        pair_value(allow_pair()) == "false"@,
        m matches Some(mv) ==> pair_key(method_pair(mv)) == "method"@ && pair_value(
            method_pair(mv),
        ) == form_encode(encode_utf8(mv)),
{
    reveal_strlit("width");
    reveal_strlit("height");
    reveal_strlit("allow_remote");
    reveal_strlit("method");
    lemma_pair("width"@, decimal(w));
    lemma_pair("height"@, decimal(h));
    lemma_pair("allow_remote"@, "false"@);
    if m is Some {
        lemma_pair("method"@, form_encode(encode_utf8(m->0)));
    }
}

proof fn lemma_keys_distinct()
    ensures
        "width"@ != "method"@,
        "height"@ != "method"@,
        "allow_remote"@ != "method"@,
        "height"@ != "width"@,
        "allow_remote"@ != "width"@,
        "allow_remote"@ != "height"@,
        "false"@ != "true"@,
{
    reveal_strlit("width");
    reveal_strlit("height");
    reveal_strlit("allow_remote");
    reveal_strlit("method");
    reveal_strlit("false");
    reveal_strlit("true");
    assert("height"@[0] != "method"@[0]);
    assert("width"@.len() != "method"@.len());
    assert("allow_remote"@.len() != "method"@.len());
    assert("height"@.len() != "width"@.len());
    assert("allow_remote"@.len() != "width"@.len());
    assert("allow_remote"@.len() != "height"@.len());
    assert("false"@.len() != "true"@.len());
}

proof fn lemma_values(m: Option<Seq<char>>)
    ensures
        value_ok("false"@),
        value_text("false"@) == "false"@,
        m matches Some(mv) ==> value_ok(form_encode(encode_utf8(mv))) && value_text(
            form_encode(encode_utf8(mv)),
        ) == mv,
{
    broadcast use vstd::utf8::encode_utf8_valid_utf8, vstd::utf8::encode_utf8_decode_utf8;

    reveal_strlit("false");
    lemma_decode_plain("false"@);
    if m is Some {
        let b = encode_utf8(m->0);
        lemma_decode_encode(b, Seq::empty());
        assert(form_encode(b) + Seq::<char>::empty() =~= form_encode(b));
        assert(b + Seq::<u8>::empty() =~= b);
    }
}

/// Reading back the query string of a request gives its fields: every field
/// can be read, the method's wire string, the width and the height come back,
/// and `allow_remote` comes back too, being left out of the query exactly when
/// it is `true`, the default that a missing field reads as.
pub proof fn lemma_query_round_trip(m: Option<Seq<char>>, w: nat, h: nat, a: bool)
    requires
        w <= MAX_SAFE_UINT,
        h <= MAX_SAFE_UINT,
    ensures
        query_error(query_text(m, w, h, a)) is None,
        query_field(query_text(m, w, h, a), "allow_remote"@) is None <==> a,
        !(query_field(query_text(m, w, h, a), "allow_remote"@) matches Some(raw) && value_text(raw)
            == "false"@) == a,
        field_number(query_text(m, w, h, a), "width"@) == w,
        field_number(query_text(m, w, h, a), "height"@) == h,
        (match query_field(query_text(m, w, h, a), "method"@) {
            Some(raw) => Some(value_text(raw)),
            None => None,
        }) == m,
{
    lemma_query_split(m, w, h, a);
    lemma_pair_parts(m, w, h);
    lemma_keys_distinct();
    lemma_values(m);
    lemma_digits_plain(w);
    lemma_digits_plain(h);
    reveal_with_fuel(lookup_from, 5);
}

impl Request {
    /// Creates a request for the given media id, server name and desired
    /// dimensions, with no method and remote fetching allowed.
    pub fn new(media_id: String, server_name: String, width: u64, height: u64) -> (r: Request)
        requires
            width <= MAX_SAFE_UINT,
            height <= MAX_SAFE_UINT,
        ensures
            r.media_id@ == media_id@,
            r.server_name@ == server_name@,
            r.method is None,
            r.width == width,
            r.height == height,
            r.allow_remote,
    {
        Request { media_id, server_name, method: None, width, height, allow_remote: true }
    }

    /// Creates a request from a content URI and the desired dimensions;
    /// `MalformedUri` if the URI does not decompose.
    pub fn from_url(url: &str, width: u64, height: u64) -> (r: Result<Request, ApiError>)
        requires
            width <= MAX_SAFE_UINT,
            height <= MAX_SAFE_UINT,
        ensures
            crate::mxc::is_content_uri(url@) <==> r is Ok,
            r matches Err(e) ==> e == ApiError::MalformedUri,
            r matches Ok(q) ==> crate::mxc::splits_into(url@, q.server_name@, q.media_id@)
                && q.method is None && q.width == width && q.height == height && q.allow_remote,
    {
        match crate::mxc::decompose(url) {
            Ok((server_name, media_id)) => Ok(Request::new(media_id, server_name, width, height)),
            Err(e) => Err(e),
        }
    }

    /// The query string of this request.
    pub fn query_string(&self) -> (r: String)
        ensures
            r@ == query_text(
                method_wire(self.method),
                self.width as nat,
                self.height as nat,
                self.allow_remote,
            ),
    {
        let mut out = String::new();
        match &self.method {
            Some(m) => {
                out.append("method=");
                form_encode_into(&mut out, m.as_str());
                out.append("&");
            },
            None => {},
        }
        out.append("width=");
        push_decimal(&mut out, self.width);
        out.append("&height=");
        push_decimal(&mut out, self.height);
        if !self.allow_remote {
            out.append("&allow_remote=false");
        }
        proof {
            let m = method_wire(self.method);
            let head: Seq<char> = match m {
                Some(w) => "method="@ + form_encode(encode_utf8(w)) + "&"@,
                None => Seq::empty(),
            };
            assert(out@ =~= query_text(m, self.width as nat, self.height as nat, self.allow_remote));
        }
        out
    }

    /// The request on the wire at protocol version `version`;
    /// `UnsupportedVersion` before 1.0.
    pub fn to_http_request(&self, version: MatrixVersion) -> (r: Result<HttpRequest, ApiError>)
        ensures
            (MatrixVersion { major: 1, minor: 0 }).spec_le(version) <==> r is Ok,
            r matches Err(e) ==> e == (ApiError::UnsupportedVersion {
                requested: version,
                minimum: MatrixVersion { major: 1, minor: 0 },
            }),
            r matches Ok(w) ==> w.method == HttpMethod::Get && w.query@ == query_text(
                method_wire(self.method),
                self.width as nat,
                self.height as nat,
                self.allow_remote,
            ) && w.path@ == render(
                thumbnail_segments(
                    if (MatrixVersion { major: 1, minor: 1 }).spec_le(version) {
                        "v3"@
                    } else {
                        "r0"@
                    },
                ),
                seq![self.server_name@, self.media_id@],
            ),
    {
        let meta = metadata();
        let args = vec![
            PathArg { name: String::from_str("server_name"), value: self.server_name.clone() },
            PathArg { name: String::from_str("media_id"), value: self.media_id.clone() },
        ];
        proof {
            lemma_thumbnail_params("r0"@);
            assert(arg_names(args@) =~= thumbnail_params());
            assert(arg_values(args@) =~= seq![self.server_name@, self.media_id@]);
        }
        match meta.make_path(version, &args) {
            Ok(path) => {
                proof {
                    let i = choose|i: int|
                        floor_index(meta.history@, version, i) && path@ == render(
                            meta.history@[i].path@,
                            arg_values(args@),
                        );
                    if (MatrixVersion { major: 1, minor: 1 }).spec_le(version) {
                        assert(i == 1);
                    } else {
                        assert(i == 0);
                    }
                }
                Ok(HttpRequest { method: meta.method, path, query: self.query_string() })
            },
            Err(e) => Err(e),
        }
    }

    /// Reads a request from its path fields and query string; `FieldDecode`
    /// names the first field, in query order, whose value cannot be read.
    /// `width` and `height` are required; `allow_remote` is `true` when absent.
    pub fn from_query(server_name: String, media_id: String, query: &str) -> (r: Result<
        Request,
        ApiError,
    >)
        ensures
            query_error(query@) is None <==> r is Ok,
            r matches Err(e) ==> (e matches ApiError::FieldDecode { field } && field@
                == query_error(query@)->0),
            r matches Ok(q) ==> q.server_name@ == server_name@ && q.media_id@ == media_id@,
            r matches Ok(q) ==> method_wire(q.method) == (match query_field(query@, "method"@) {
                Some(raw) => Some(value_text(raw)),
                None => None,
            }),
            r matches Ok(q) ==> (q.method matches Some(m) ==> m.wf()),
            r matches Ok(q) ==> q.width == field_number(query@, "width"@),
            r matches Ok(q) ==> q.height == field_number(query@, "height"@),
            r matches Ok(q) ==> q.allow_remote == !(query_field(query@, "allow_remote"@) matches Some(
                raw,
            ) && value_text(raw) == "false"@),
    {
        let pairs = split_pairs(query);
        let method = match find_field(&pairs, "method") {
            Some(raw) => match decode_value(raw.as_str()) {
                Some(text) => {
                    proof {
                        lemma_serialize_parse(Method::names(), text@);
                    }
                    Some(Method::parse(text.as_str()))
                },
                None => {
                    return Err(ApiError::FieldDecode { field: String::from_str("method") });
                },
            },
            None => None,
        };
        let width = match read_uint(&pairs, "width") {
            Some(v) => v,
            None => {
                return Err(ApiError::FieldDecode { field: String::from_str("width") });
            },
        };
        let height = match read_uint(&pairs, "height") {
            Some(v) => v,
            None => {
                return Err(ApiError::FieldDecode { field: String::from_str("height") });
            },
        };
        let allow_remote = match find_field(&pairs, "allow_remote") {
            Some(raw) => match decode_value(raw.as_str()) {
                Some(text) => {
                    if str_eq(text.as_str(), "true") {
                        true
                    } else if str_eq(text.as_str(), "false") {
                        false
                    } else {
                        return Err(
                            ApiError::FieldDecode { field: String::from_str("allow_remote") },
                        );
                    }
                },
                None => {
                    return Err(ApiError::FieldDecode { field: String::from_str("allow_remote") });
                },
            },
            None => true,
        };
        proof {
            reveal_strlit("true");
            reveal_strlit("false");
            assert("true"@.len() != "false"@.len());
        }
        Ok(Request { server_name, media_id, method, width, height, allow_remote })
    }
}

/// Reads the numeric field `key` of the split query `pairs`.
fn read_uint(pairs: &Vec<String>, key: &str) -> (r: Option<u64>)
    ensures
        r is Some <==> (crate::query::lookup_from(pairs@.map_values(|x: String| x@), key@, 0) matches Some(raw) && value_ok(raw)
            && is_uint_text(value_text(raw))),
        r matches Some(v) ==> v == digits_value(
            value_text(crate::query::lookup_from(pairs@.map_values(|x: String| x@), key@, 0)->0),
        ),
{
    match find_field(pairs, key) {
        Some(raw) => match decode_value(raw.as_str()) {
            Some(text) => parse_uint(text.as_str()),
            None => None,
        },
        None => None,
    }
}

/// A header line: its name and value.
#[derive(Clone, Debug)]
pub struct Header {
    pub name: String,
    pub value: String,
}

/// Relies on `http::header::CONTENT_TYPE` and `HeaderName::as_str`: the
/// standard name of that header, in lower case.
#[verifier::external_body]
fn content_type_name() -> (r: String)
    ensures
        r@ == "content-type"@,
{
    http::header::CONTENT_TYPE.as_str().to_owned()
}

/// Name of the `Cross-Origin-Resource-Policy` header, in lower case.
pub open spec fn corp_name() -> Seq<char> {
    "cross-origin-resource-policy"@
}

/// Response type for the thumbnail endpoint.
#[derive(Clone, Debug)]
pub struct Response {
    /// A thumbnail of the requested content.
    pub file: Vec<u8>,
    /// The content type of the thumbnail.
    pub content_type: Option<String>,
    /// The value of the `Cross-Origin-Resource-Policy` header.
    pub cross_origin_resource_policy: Option<String>,
}

/// The headers of a response: one per field that is set, in field order.
pub open spec fn response_headers(
    content_type: Option<Seq<char>>,
    corp: Option<Seq<char>>,
) -> Seq<(Seq<char>, Seq<char>)> {
    (match content_type {
        Some(v) => seq![("content-type"@, v)],
        None => Seq::empty(),
    }) + (match corp {
        Some(v) => seq![(corp_name(), v)],
        None => Seq::empty(),
    })
}

pub open spec fn opt_view(o: Option<String>) -> Option<Seq<char>> {
    match o {
        Some(s) => Some(s@),
        None => None,
    }
}

pub open spec fn header_view(h: Header) -> (Seq<char>, Seq<char>) {
    (h.name@, h.value@)
}

/// The value of the first header named `name`, if any.
pub open spec fn header_from(hs: Seq<(Seq<char>, Seq<char>)>, name: Seq<char>, i: nat) -> Option<
    Seq<char>,
>
    decreases hs.len() - i,
{
    if i >= hs.len() {
        None
    } else if hs[i as int].0 == name {
        Some(hs[i as int].1)
    } else {
        header_from(hs, name, i + 1)
    }
}

fn find_header(headers: &Vec<Header>, name: &str) -> (r: Option<String>)
    ensures
        opt_view(r) == header_from(headers@.map_values(|h: Header| header_view(h)), name@, 0),
{
    let ghost hs = headers@.map_values(|h: Header| header_view(h));
    let mut i: usize = 0;
    while i < headers.len()
        invariant
            hs == headers@.map_values(|h: Header| header_view(h)),
            i <= headers@.len(),
            header_from(hs, name@, i as nat) == header_from(hs, name@, 0),
        decreases headers@.len() - i,
    {
        if str_eq(headers[i].name.as_str(), name) {
            return Some(headers[i].value.clone());
        }
        i = i + 1;
    }
    None
}

impl Response {
    /// Creates a response with the given thumbnail; the content type is unset
    /// and the Cross-Origin-Resource-Policy is `cross-origin`.
    pub fn new(file: Vec<u8>) -> (r: Response)
        ensures
            r.file@ == file@,
            r.content_type is None,
            r.cross_origin_resource_policy matches Some(p) && p@ == "cross-origin"@,
    {
        Response {
            file,
            content_type: None,
            cross_origin_resource_policy: Some(String::from_str("cross-origin")),
        }
    }

    /// The header lines of this response.
    pub fn headers(&self) -> (r: Vec<Header>)
        ensures
            r@.map_values(|h: Header| header_view(h)) == response_headers(
                opt_view(self.content_type),
                opt_view(self.cross_origin_resource_policy),
            ),
    {
        let mut out: Vec<Header> = Vec::new();
        match &self.content_type {
            Some(v) => {
                out.push(Header { name: content_type_name(), value: v.clone() });
            },
            None => {},
        }
        match &self.cross_origin_resource_policy {
            Some(v) => {
                out.push(
                    Header { name: String::from_str("cross-origin-resource-policy"), value: v.clone() },
                );
            },
            None => {},
        }
        proof {
            assert(out@.map_values(|h: Header| header_view(h)) =~= response_headers(
                opt_view(self.content_type),
                opt_view(self.cross_origin_resource_policy),
            ));
        }
        out
    }

    /// Reads a response from its header lines and body; an absent header
    /// leaves its field unset.
    pub fn from_http(headers: &Vec<Header>, body: Vec<u8>) -> (r: Response)
        ensures
            r.file@ == body@,
            opt_view(r.content_type) == header_from(
                headers@.map_values(|h: Header| header_view(h)),
                "content-type"@,
                0,
            ),
            opt_view(r.cross_origin_resource_policy) == header_from(
                headers@.map_values(|h: Header| header_view(h)),
                corp_name(),
                0,
            ),
    {
        let ct = content_type_name();
        let content_type = find_header(headers, ct.as_str());
        let cross_origin_resource_policy = find_header(headers, "cross-origin-resource-policy");
        Response { file: body, content_type, cross_origin_resource_policy }
    }
}

} // verus!
