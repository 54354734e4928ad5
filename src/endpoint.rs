//! Endpoint metadata: protocol versions, path templates and the version
//! history of an endpoint's path.
use vstd::prelude::*;
use vstd::string::*;
use crate::error::ApiError;
use crate::text::{str_eq, strings_eq};
use crate::query::{lemma_split_concat, lemma_split_single, no_char, split_at_char, split_on};

verus! {

/// A protocol version `major.minor`.
#[derive(Clone, Copy, Debug, PartialEq, Eq, Structural)]
pub struct MatrixVersion {
    pub major: u32,
    pub minor: u32,
}

impl MatrixVersion {
    /// Version order: by major number, then by minor number.
    pub open spec fn spec_le(self, other: MatrixVersion) -> bool {
        self.major < other.major || (self.major == other.major && self.minor <= other.minor)
    }

    pub fn new(major: u32, minor: u32) -> (r: MatrixVersion)
        ensures
            r.major == major,
            r.minor == minor,
    {
        MatrixVersion { major, minor }
    }

    /// Whether `self` is the same version as `other` or an older one.
    pub fn le(&self, other: &MatrixVersion) -> (r: bool)
        ensures
            r == self.spec_le(*other),
    {
        self.major < other.major || (self.major == other.major && self.minor <= other.minor)
    }
}

/// One `/`-separated piece of a path template.
#[derive(Clone, Debug)]
pub enum Segment {
    /// Text that stands in the path as it is.
    Literal(String),
    /// A named placeholder, written `{name}`, filled by a path field.
    Param(String),
}

/// Abstract value of a segment.
pub enum SegmentView {
    Literal(Seq<char>),
    Param(Seq<char>),
}

impl View for Segment {
    type V = SegmentView;

    open spec fn view(&self) -> SegmentView {
        match self {
            Segment::Literal(s) => SegmentView::Literal(s@),
            Segment::Param(s) => SegmentView::Param(s@),
        }
    }
}

/// The placeholder names of a template, in order.
pub open spec fn params(segs: Seq<SegmentView>) -> Seq<Seq<char>>
    decreases segs.len(),
{
    if segs.len() == 0 {
        Seq::empty()
    } else {
        match segs.last() {
            SegmentView::Literal(_) => params(segs.drop_last()),
            SegmentView::Param(n) => params(segs.drop_last()).push(n),
        }
    }
}

/// The template as text: `/` before each segment, placeholders as `{name}`.
pub open spec fn template_text(segs: Seq<SegmentView>) -> Seq<char>
    decreases segs.len(),
{
    if segs.len() == 0 {
        Seq::empty()
    } else {
        match segs.last() {
            SegmentView::Literal(l) => template_text(segs.drop_last()) + seq!['/'] + l,
            SegmentView::Param(n) => template_text(segs.drop_last()) + seq!['/', '{'] + n
                + seq!['}'],
        }
    }
}

/// The path with the k-th placeholder replaced by `vals[k]`; `vals` holds one
/// value for each placeholder.
pub open spec fn render(segs: Seq<SegmentView>, vals: Seq<Seq<char>>) -> Seq<char>
    decreases segs.len(),
{
    if segs.len() == 0 {
        Seq::empty()
    } else {
        match segs.last() {
            SegmentView::Literal(l) => render(segs.drop_last(), vals) + seq!['/'] + l,
            SegmentView::Param(_) => render(segs.drop_last(), vals.drop_last()) + seq!['/']
                + vals.last(),
        }
    }
}

proof fn lemma_params_step(segs: Seq<SegmentView>, i: int)
    requires
        0 <= i < segs.len(),
    ensures
        segs.take(i + 1).drop_last() == segs.take(i),
        segs.take(i + 1).last() == segs[i],
{
    assert(segs.take(i + 1).drop_last() =~= segs.take(i));
}

proof fn lemma_params_prefix(segs: Seq<SegmentView>, i: int)
    requires
        0 <= i <= segs.len(),
    ensures
        params(segs.take(i)).len() <= params(segs).len(),
        params(segs).take(params(segs.take(i)).len() as int) == params(segs.take(i)),
    decreases segs.len() - i,
{
    if i == segs.len() {
        assert(segs.take(i) =~= segs);
        assert(params(segs).take(params(segs).len() as int) =~= params(segs));
    } else {
        lemma_params_prefix(segs, i + 1);
        lemma_params_step(segs, i);
        let p = params(segs);
        let a = params(segs.take(i));
        let b = params(segs.take(i + 1));
        assert(p.take(a.len() as int) =~= b.take(a.len() as int));
        assert(b.take(a.len() as int) =~= a);
    }
}

/// A path template: a sequence of literal segments and placeholders.
#[derive(Clone, Debug)]
pub struct PathTemplate {
    pub segments: Vec<Segment>,
}

/// A value for one placeholder, with the placeholder's name.
#[derive(Clone, Debug)]
pub struct PathArg {
    pub name: String,
    pub value: String,
}

/// The names of the arguments, in order.
pub open spec fn arg_names(args: Seq<PathArg>) -> Seq<Seq<char>> {
    args.map_values(|a: PathArg| a.name@)
}

/// The values of the arguments, in order.
pub open spec fn arg_values(args: Seq<PathArg>) -> Seq<Seq<char>> {
    args.map_values(|a: PathArg| a.value@)
}

impl View for PathTemplate {
    type V = Seq<SegmentView>;

    open spec fn view(&self) -> Seq<SegmentView> {
        self.segments@.map_values(|s: Segment| s@)
    }
}

impl PathTemplate {
    pub fn new(segments: Vec<Segment>) -> (r: PathTemplate)
        ensures
            r.segments@ == segments@,
    {
        PathTemplate { segments }
    }

    /// The template written out, placeholders as `{name}`.
    pub fn to_text(&self) -> (r: String)
        ensures
            r@ == template_text(self@),
    {
        let mut out = String::new();
        let mut i: usize = 0;
        while i < self.segments.len()
            invariant
                i <= self.segments@.len(),
                out@ == template_text(self@.take(i as int)),
            decreases self.segments@.len() - i,
        {
            proof {
                lemma_params_step(self@, i as int);
            }
            out.append("/");
            match &self.segments[i] {
                Segment::Literal(l) => {
                    out.append(l.as_str());
                },
                Segment::Param(n) => {
                    out.append("{");
                    out.append(n.as_str());
                    out.append("}");
                },
            }
            proof {
                reveal_strlit("/");
                reveal_strlit("{");
                reveal_strlit("}");
                assert(out@ =~= template_text(self@.take(i + 1)));
            }
            i = i + 1;
        }
        proof {
            assert(self@.take(i as int) =~= self@);
        }
        out
    }

    /// Fills the placeholders with `args`, which must name them in order:
    /// `SchemaMismatch` if the names differ from the placeholders.
    pub fn fill(&self, args: &Vec<PathArg>) -> (r: Result<String, ApiError>)
        ensures
            arg_names(args@) == params(self@) ==> (r matches Ok(p) && p@ == render(
                self@,
                arg_values(args@),
            )),
            arg_names(args@) != params(self@) ==> r matches Err(ApiError::SchemaMismatch),
    {
        let mut out = String::new();
        let mut i: usize = 0;
        let mut k: usize = 0;
        while i < self.segments.len()
            invariant
                i <= self.segments@.len(),
                k <= args@.len(),
                k == params(self@.take(i as int)).len(),
                arg_names(args@).take(k as int) == params(self@.take(i as int)),
                out@ == render(self@.take(i as int), arg_values(args@).take(k as int)),
            decreases self.segments@.len() - i,
        {
            proof {
                lemma_params_step(self@, i as int);
                lemma_params_prefix(self@, i as int + 1);
            }
            out.append("/");
            match &self.segments[i] {
                Segment::Literal(l) => {
                    out.append(l.as_str());
                    proof {
                        reveal_strlit("/");
                        assert(out@ =~= render(self@.take(i + 1), arg_values(args@).take(k as int)));
                    }
                },
                Segment::Param(n) => {
                    if k >= args.len() || !str_eq(args[k].name.as_str(), n.as_str()) {
                        proof {
                            let p = params(self@);
                            let q = params(self@.take(i + 1));
                            assert(q[k as int] == n@);
                            assert(p[k as int] == n@);
                            if arg_names(args@) == p {
                                assert(arg_names(args@)[k as int] == args@[k as int].name@);
                            }
                        }
                        return Err(ApiError::SchemaMismatch);
                    }
                    out.append(args[k].value.as_str());
                    proof {
                        reveal_strlit("/");
                        let v = arg_values(args@);
                        assert(v.take(k + 1).drop_last() =~= v.take(k as int));
                        assert(out@ =~= render(self@.take(i + 1), v.take(k + 1)));
                        assert(arg_names(args@).take(k + 1) =~= params(self@.take(i + 1)));
                    }
                    k = k + 1;
                },
            }
            i = i + 1;
        }
        proof {
            assert(self@.take(i as int) =~= self@);
        }
        if k != args.len() {
            proof {
                assert(arg_names(args@).len() == args@.len());
            }
            return Err(ApiError::SchemaMismatch);
        }
        proof {
            assert(arg_names(args@).take(k as int) =~= arg_names(args@));
            assert(arg_values(args@).take(k as int) =~= arg_values(args@));
        }
        Ok(out)
    }
}

impl PathTemplate {
    /// The placeholder names, in order.
    pub fn param_names(&self) -> (r: Vec<String>)
        ensures
            r@.map_values(|s: String| s@) == params(self@),
    {
        let mut out: Vec<String> = Vec::new();
        let mut i: usize = 0;
        while i < self.segments.len()
            invariant
                i <= self.segments@.len(),
                out@.map_values(|s: String| s@) == params(self@.take(i as int)),
            decreases self.segments@.len() - i,
        {
            proof {
                lemma_params_step(self@, i as int);
            }
            match &self.segments[i] {
                Segment::Literal(_) => {},
                Segment::Param(n) => {
                    out.push(n.clone());
                },
            }
            proof {
                assert(out@.map_values(|s: String| s@) =~= params(self@.take(i + 1)));
            }
            i = i + 1;
        }
        proof {
            assert(self@.take(i as int) =~= self@);
        }
        out
    }
}

/// Literal segments hold no `/`.
pub open spec fn template_wf(segs: Seq<SegmentView>) -> bool {
    forall|i: int|
        0 <= i < segs.len() ==> (#[trigger] segs[i] matches SegmentView::Literal(l) ==> no_char(
            l,
            '/',
        ))
}

/// Values that can fill placeholders: not empty, without `/`.
pub open spec fn values_ok(vals: Seq<Seq<char>>) -> bool {
    forall|i: int| 0 <= i < vals.len() ==> #[trigger] vals[i].len() > 0 && no_char(vals[i], '/')
}

/// The `/`-separated pieces of a filled path, in order.
pub open spec fn pieces(segs: Seq<SegmentView>, vals: Seq<Seq<char>>) -> Seq<Seq<char>>
    decreases segs.len(),
{
    if segs.len() == 0 {
        Seq::empty()
    } else {
        match segs.last() {
            SegmentView::Literal(l) => pieces(segs.drop_last(), vals).push(l),
            SegmentView::Param(_) => pieces(segs.drop_last(), vals.drop_last()).push(vals.last()),
        }
    }
}

/// Matches path pieces against a template: the value of each placeholder in
/// order, or `None` if the counts differ, a literal differs or a value is empty.
pub open spec fn match_pieces(segs: Seq<SegmentView>, parts: Seq<Seq<char>>) -> Option<
    Seq<Seq<char>>,
>
    decreases segs.len(),
{
    if segs.len() != parts.len() {
        None
    } else if segs.len() == 0 {
        Some(Seq::empty())
    } else {
        match segs.last() {
            SegmentView::Literal(l) => if parts.last() == l {
                match_pieces(segs.drop_last(), parts.drop_last())
            } else {
                None
            },
            SegmentView::Param(_) => if parts.last().len() > 0 {
                match match_pieces(segs.drop_last(), parts.drop_last()) {
                    Some(v) => Some(v.push(parts.last())),
                    None => None,
                }
            } else {
                None
            },
        }
    }
}

/// The placeholder values that a path holds under a template, if it fits.
pub open spec fn path_fields(segs: Seq<SegmentView>, path: Seq<char>) -> Option<Seq<Seq<char>>> {
    if segs.len() == 0 {
        if path.len() == 0 {
            Some(Seq::empty())
        } else {
            None
        }
    } else if path.len() > 0 && path[0] == '/' {
        match_pieces(segs, split_on(path.skip(1), '/'))
    } else {
        None
    }
}

pub open spec fn strings_view(o: Option<Vec<String>>) -> Option<Seq<Seq<char>>> {
    match o {
        Some(v) => Some(v@.map_values(|s: String| s@)),
        None => None,
    }
}

proof fn lemma_match_prefix(segs: Seq<SegmentView>, parts: Seq<Seq<char>>, k: int)
    requires
        0 <= k <= segs.len(),
        segs.len() == parts.len(),
        match_pieces(segs, parts) is Some,
    ensures
        match_pieces(segs.take(k), parts.take(k)) is Some,
    decreases segs.len() - k,
{
    if k == segs.len() {
        assert(segs.take(k) =~= segs);
        assert(parts.take(k) =~= parts);
    } else {
        lemma_match_prefix(segs.drop_last(), parts.drop_last(), k);
        assert(segs.drop_last().take(k) =~= segs.take(k));
        assert(parts.drop_last().take(k) =~= parts.take(k));
    }
}

proof fn lemma_render_pieces(segs: Seq<SegmentView>, vals: Seq<Seq<char>>)
    requires
        segs.len() > 0,
        template_wf(segs),
        values_ok(vals),
        vals.len() == params(segs).len(),
    ensures
        render(segs, vals).len() > 0,
        render(segs, vals)[0] == '/',
        split_on(render(segs, vals).skip(1), '/') == pieces(segs, vals),
    decreases segs.len(),
{
    let dl = segs.drop_last();
    let (v2, piece) = match segs.last() {
        SegmentView::Literal(l) => (vals, l),
        SegmentView::Param(_) => (vals.drop_last(), vals.last()),
    };
    assert(segs.last() == segs[segs.len() - 1]);
    assert(no_char(piece, '/')) by {
        if segs.last() is Param {
            assert(vals.last() == vals[vals.len() - 1]);
        }
    }
    assert(template_wf(dl)) by {
        assert forall|i: int| 0 <= i < dl.len() implies (#[trigger] dl[i] matches SegmentView::Literal(
            l,
        ) ==> no_char(l, '/')) by {
            assert(dl[i] == segs[i]);
        }
    }
    assert(values_ok(v2)) by {
        assert forall|i: int| 0 <= i < v2.len() implies #[trigger] v2[i].len() > 0 && no_char(
            v2[i],
            '/',
        ) by {
            assert(v2[i] == vals[i]);
        }
    }
    lemma_split_single(piece, '/');
    if dl.len() == 0 {
        assert(render(dl, v2) =~= Seq::<char>::empty());
        assert(render(segs, vals).skip(1) =~= piece);
        assert(pieces(dl, v2) =~= Seq::<Seq<char>>::empty());
        assert(pieces(segs, vals) =~= seq![piece]);
    } else {
        lemma_render_pieces(dl, v2);
        let x = render(dl, v2).skip(1);
        assert(render(segs, vals).skip(1) =~= x + seq!['/'] + piece);
        lemma_split_concat(x, piece, '/');
    }
}

proof fn lemma_match_own_pieces(segs: Seq<SegmentView>, vals: Seq<Seq<char>>)
    requires
        values_ok(vals),
        vals.len() == params(segs).len(),
    ensures
        pieces(segs, vals).len() == segs.len(),
        match_pieces(segs, pieces(segs, vals)) == Some(vals),
    decreases segs.len(),
{
    if segs.len() == 0 {
        assert(vals =~= Seq::<Seq<char>>::empty());
    } else {
        let dl = segs.drop_last();
        let v2 = match segs.last() {
            SegmentView::Literal(_) => vals,
            SegmentView::Param(_) => vals.drop_last(),
        };
        assert(values_ok(v2)) by {
            assert forall|i: int| 0 <= i < v2.len() implies #[trigger] v2[i].len() > 0 && no_char(
                v2[i],
                '/',
            ) by {
                assert(v2[i] == vals[i]);
            }
        }
        lemma_match_own_pieces(dl, v2);
        let p = pieces(segs, vals);
        assert(p.drop_last() =~= pieces(dl, v2));
        if segs.last() is Param {
            assert(vals.last() == vals[vals.len() - 1]);
            assert(v2.push(vals.last()) =~= vals);
        }
    }
}

/// Reading a path filled from a template gives back the values it was filled
/// with, provided literals hold no `/` and each value is non-empty without `/`.
pub proof fn lemma_extract_fill(segs: Seq<SegmentView>, vals: Seq<Seq<char>>)
    requires
        template_wf(segs),
        values_ok(vals),
        vals.len() == params(segs).len(),
    ensures
        path_fields(segs, render(segs, vals)) == Some(vals),
{
    if segs.len() == 0 {
        assert(vals =~= Seq::<Seq<char>>::empty());
    } else {
        lemma_render_pieces(segs, vals);
        lemma_match_own_pieces(segs, vals);
    }
}

impl PathTemplate {
    /// The placeholder values of `path`, matched against this template
    /// segment by segment; `None` if it does not fit.
    pub fn extract(&self, path: &str) -> (r: Option<Vec<String>>)
        ensures
            strings_view(r) == path_fields(self@, path@),
    {
        let n = self.segments.len();
        let len = path.unicode_len();
        if n == 0 {
            if len == 0 {
                let v: Vec<String> = Vec::new();
                proof {
                    assert(v@.map_values(|s: String| s@) =~= Seq::<Seq<char>>::empty());
                }
                return Some(v);
            }
            return None;
        }
        if len == 0 || path.get_char(0) != '/' {
            return None;
        }
        let rest = path.substring_char(1, len);
        proof {
            assert(rest@ =~= path@.skip(1));
        }
        let parts = split_at_char(rest, '/');
        let ghost ps = parts@.map_values(|x: String| x@);
        if parts.len() != n {
            return None;
        }
        let mut out: Vec<String> = Vec::new();
        let mut i: usize = 0;
        proof {
            assert(self@.take(0) =~= Seq::<SegmentView>::empty());
            assert(ps.take(0) =~= Seq::<Seq<char>>::empty());
            assert(out@.map_values(|s: String| s@) =~= Seq::<Seq<char>>::empty());
        }
        while i < n
            invariant
                n == self.segments@.len(),
                ps == parts@.map_values(|x: String| x@),
                path_fields(self@, path@) == match_pieces(self@, ps),
                ps.len() == n,
                i <= n,
                match_pieces(self@.take(i as int), ps.take(i as int)) == Some(
                    out@.map_values(|s: String| s@),
                ),
            decreases n - i,
        {
            proof {
                assert(self@.take(i + 1).drop_last() =~= self@.take(i as int));
                assert(ps.take(i + 1).drop_last() =~= ps.take(i as int));
                assert(self@.take(i + 1).last() == self@[i as int]);
                assert(ps.take(i + 1).last() == ps[i as int]);
            }
            match &self.segments[i] {
                Segment::Literal(l) => {
                    if !str_eq(parts[i].as_str(), l.as_str()) {
                        proof {
                            if match_pieces(self@, ps) is Some {
                                lemma_match_prefix(self@, ps, i + 1);
                            }
                        }
                        return None;
                    }
                },
                Segment::Param(_) => {
                    if parts[i].unicode_len() == 0 {
                        proof {
                            if match_pieces(self@, ps) is Some {
                                lemma_match_prefix(self@, ps, i + 1);
                            }
                        }
                        return None;
                    }
                    let ghost before = out@.map_values(|s: String| s@);
                    out.push(parts[i].clone());
                    proof {
                        assert(out@.map_values(|s: String| s@) =~= before.push(ps[i as int]));
                    }
                },
            }
            i = i + 1;
        }
        proof {
            assert(self@.take(n as int) =~= self@);
            assert(ps.take(n as int) =~= ps);
        }
        Some(out)
    }
}

/// HTTP methods an endpoint can be declared with.
#[derive(Clone, Copy, Debug, PartialEq, Eq, Structural)]
pub enum HttpMethod {
    Get,
    Post,
    Put,
    Delete,
    Patch,
    Head,
    Options,
}

impl HttpMethod {
    /// The method's name on the wire.
    pub fn as_str(&self) -> (r: &str)
        ensures
            r@ == http_method_name(*self),
    {
        match self {
            HttpMethod::Get => "GET",
            HttpMethod::Post => "POST",
            HttpMethod::Put => "PUT",
            HttpMethod::Delete => "DELETE",
            HttpMethod::Patch => "PATCH",
            HttpMethod::Head => "HEAD",
            HttpMethod::Options => "OPTIONS",
        }
    }
}

pub open spec fn http_method_name(m: HttpMethod) -> Seq<char> {
    match m {
        HttpMethod::Get => "GET"@,
        HttpMethod::Post => "POST"@,
        HttpMethod::Put => "PUT"@,
        HttpMethod::Delete => "DELETE"@,
        HttpMethod::Patch => "PATCH"@,
        HttpMethod::Head => "HEAD"@,
        HttpMethod::Options => "OPTIONS"@,
    }
}

/// What an endpoint asks of the caller's identity; enforced by the transport.
#[derive(Clone, Copy, Debug, PartialEq, Eq, Structural)]
pub enum AuthScheme {
    /// No authentication.
    NoAuthentication,
    /// An access token is required.
    AccessToken,
    /// An access token is accepted but not required.
    AccessTokenOptional,
    /// Requests between servers are signed.
    ServerSignatures,
}

/// The path template in force from `version` on.
#[derive(Clone, Debug)]
pub struct HistoryEntry {
    pub version: MatrixVersion,
    pub path: PathTemplate,
}

/// Strictly older version.
pub open spec fn version_lt(a: MatrixVersion, b: MatrixVersion) -> bool {
    a.spec_le(b) && a != b
}

/// A history that can be resolved against: not empty, versions strictly
/// ascending, every template with the placeholders of the first.
pub open spec fn history_wf(h: Seq<HistoryEntry>) -> bool {
    &&& h.len() > 0
    &&& forall|i: int, j: int| 0 <= i < j < h.len() ==> version_lt(h[i].version, h[j].version)
    &&& forall|i: int| 0 <= i < h.len() ==> params(#[trigger] h[i].path@) == params(h[0].path@)
}

/// Index of the newest entry whose version is at most `v`, if there is one.
pub open spec fn floor_index(h: Seq<HistoryEntry>, v: MatrixVersion, i: int) -> bool {
    &&& 0 <= i < h.len()
    &&& h[i].version.spec_le(v)
    &&& forall|j: int| i < j < h.len() ==> !h[j].version.spec_le(v)
}

/// Describes one endpoint: its method, its declared requirements and the
/// history of its path.
#[derive(Clone, Debug)]
pub struct Metadata {
    pub method: HttpMethod,
    pub rate_limited: bool,
    pub authentication: AuthScheme,
    pub history: Vec<HistoryEntry>,
}

proof fn lemma_lt_chain(h: Seq<HistoryEntry>, i: int, j: int)
    requires
        0 <= i < j < h.len(),
        forall|k: int| 0 <= k < h.len() - 1 ==> version_lt(#[trigger] h[k].version, h[k + 1].version),
    ensures
        version_lt(h[i].version, h[j].version),
    decreases j - i,
{
    if i + 1 < j {
        lemma_lt_chain(h, i + 1, j);
    }
}

impl Metadata {
    pub open spec fn wf(&self) -> bool {
        history_wf(self.history@)
    }

    /// Builds the metadata of an endpoint; `SchemaMismatch` when the history is
    /// empty, not strictly ascending, or its templates differ in placeholders.
    pub fn new(
        method: HttpMethod,
        rate_limited: bool,
        authentication: AuthScheme,
        history: Vec<HistoryEntry>,
    ) -> (r: Result<Metadata, ApiError>)
        ensures
            history_wf(history@) ==> (r matches Ok(m) && m.method == method && m.rate_limited
                == rate_limited && m.authentication == authentication && m.history@
                == history@),
            !history_wf(history@) ==> r matches Err(ApiError::SchemaMismatch),
    {
        let n = history.len();
        if n == 0 {
            return Err(ApiError::SchemaMismatch);
        }
        let first = history[0].path.param_names();
        let mut i: usize = 0;
        while i < n
            invariant
                n == history@.len(),
                n > 0,
                i <= n,
                first@.map_values(|s: String| s@) == params(history@[0].path@),
                forall|k: int| 0 <= k < i ==> params(#[trigger] history@[k].path@) == params(
                    history@[0].path@,
                ),
                forall|k: int|
                    0 <= k < i && k + 1 < n ==> version_lt(
                        #[trigger] history@[k].version,
                        history@[k + 1].version,
                    ),
            decreases n - i,
        {
            let names = history[i].path.param_names();
            if !strings_eq(&names, &first) {
                return Err(ApiError::SchemaMismatch);
            }
            if i + 1 < n {
                let a = history[i].version;
                let b = history[i + 1].version;
                if !(a.le(&b) && a != b) {
                    proof {
                        if history_wf(history@) {
                            assert(version_lt(history@[i as int].version, history@[i + 1].version));
                        }
                    }
                    return Err(ApiError::SchemaMismatch);
                }
            }
            i = i + 1;
        }
        proof {
            assert forall|x: int, y: int| 0 <= x < y < n implies version_lt(
                history@[x].version,
                history@[y].version,
            ) by {
                lemma_lt_chain(history@, x, y);
            }
        }
        Ok(Metadata { method, rate_limited, authentication, history })
    }

    /// The index of the newest history entry whose version is at most
    /// `version`; `UnsupportedVersion` when `version` is older than all of them.
    pub fn resolve_index(&self, version: MatrixVersion) -> (r: Result<usize, ApiError>)
        requires
            self.wf(),
        ensures
            r matches Ok(i) ==> floor_index(self.history@, version, i as int),
            self.history@[0].version.spec_le(version) <==> r is Ok,
            r matches Err(e) ==> e == (ApiError::UnsupportedVersion {
                requested: version,
                minimum: self.history@[0].version,
            }),
    {
        let mut i: usize = self.history.len();
        while i > 0
            invariant
                self.wf(),
                i <= self.history@.len(),
                forall|j: int| i <= j < self.history@.len() ==> !(
                #[trigger] self.history@[j]).version.spec_le(version),
            decreases i,
        {
            if self.history[i - 1].version.le(&version) {
                proof {
                    if i - 1 > 0 {
                        assert(version_lt(self.history@[0].version, self.history@[i - 1].version));
                    }
                }
                return Ok(i - 1);
            }
            i = i - 1;
        }
        Err(ApiError::UnsupportedVersion { requested: version, minimum: self.history[0].version })
    }

    /// The path template in force at `version`.
    pub fn resolve(&self, version: MatrixVersion) -> (r: Result<&PathTemplate, ApiError>)
        requires
            self.wf(),
        ensures
            r matches Ok(t) ==> exists|i: int|
                floor_index(self.history@, version, i) && *t == self.history@[i].path,
            self.history@[0].version.spec_le(version) <==> r is Ok,
            r matches Err(e) ==> e == (ApiError::UnsupportedVersion {
                requested: version,
                minimum: self.history@[0].version,
            }),
    {
        match self.resolve_index(version) {
            Ok(i) => Ok(&self.history[i].path),
            Err(e) => Err(e),
        }
    }

    /// The path at `version` with its placeholders filled from `args`.
    pub fn make_path(&self, version: MatrixVersion, args: &Vec<PathArg>) -> (r: Result<
        String,
        ApiError,
    >)
        requires
            self.wf(),
        ensures
            !self.history@[0].version.spec_le(version) ==> r == Err::<String, ApiError>(
                ApiError::UnsupportedVersion {
                    requested: version,
                    minimum: self.history@[0].version,
                },
            ),
            self.history@[0].version.spec_le(version) && arg_names(args@) != params(
                self.history@[0].path@,
            ) ==> r matches Err(ApiError::SchemaMismatch),
            self.history@[0].version.spec_le(version) && arg_names(args@) == params(
                self.history@[0].path@,
            ) ==> (r matches Ok(p) && exists|i: int|
                floor_index(self.history@, version, i) && p@ == render(
                    self.history@[i].path@,
                    arg_values(args@),
                )),
    {
        match self.resolve_index(version) {
            Ok(i) => {
                let r = self.history[i].path.fill(args);
                proof {
                    assert(params(self.history@[i as int].path@) == params(self.history@[0].path@));
                }
                r
            },
            Err(e) => Err(e),
        }
    }
}

} // verus!
