//! Content URIs `mxc://<server name>/<media id>`.
use vstd::prelude::*;
use vstd::string::*;
use crate::error::ApiError;

verus! {

/// Characters a server name may hold: letters, digits, and `-`, `.`, `:`,
/// `[`, `]` for hostnames, ports and IPv6 literals.
pub open spec fn is_server_name_char(c: char) -> bool {
    ('a' <= c && c <= 'z') || ('A' <= c && c <= 'Z') || ('0' <= c && c <= '9') || c == '-' || c
        == '.' || c == ':' || c == '[' || c == ']'
}

/// `uri` is `mxc://` followed by the non-empty server name `server`, a `/`
/// and the non-empty media id `media`.
pub open spec fn splits_into(uri: Seq<char>, server: Seq<char>, media: Seq<char>) -> bool {
    &&& uri == seq!['m', 'x', 'c', ':', '/', '/'] + server + seq!['/'] + media
    &&& server.len() > 0
    &&& media.len() > 0
    &&& forall|i: int| 0 <= i < server.len() ==> is_server_name_char(#[trigger] server[i])
}

/// Whether `uri` is a well-formed content URI.
pub open spec fn is_content_uri(uri: Seq<char>) -> bool {
    exists|server: Seq<char>, media: Seq<char>| splits_into(uri, server, media)
}

fn server_name_char(c: char) -> (r: bool)
    ensures
        r == is_server_name_char(c),
{
    ('a' <= c && c <= 'z') || ('A' <= c && c <= 'Z') || ('0' <= c && c <= '9') || c == '-' || c
        == '.' || c == ':' || c == '[' || c == ']'
}

/// Splits a content URI into its server name and media id; `MalformedUri` if
/// it is not `mxc://` + a server name + `/` + a non-empty media id.
pub fn decompose(uri: &str) -> (r: Result<(String, String), ApiError>)
    ensures
        r matches Ok(p) ==> splits_into(uri@, p.0@, p.1@),
        is_content_uri(uri@) <==> r is Ok,
        r matches Err(e) ==> e == ApiError::MalformedUri,
{
    let ghost s = uri@;
    let ghost pre = seq!['m', 'x', 'c', ':', '/', '/'];
    let n = uri.unicode_len();
    if n < 6 || uri.get_char(0) != 'm' || uri.get_char(1) != 'x' || uri.get_char(2) != 'c'
        || uri.get_char(3) != ':' || uri.get_char(4) != '/' || uri.get_char(5) != '/' {
        proof {
            assert forall|a: Seq<char>, b: Seq<char>| !splits_into(s, a, b) by {
                if splits_into(s, a, b) {
                    assert(s[0] == 'm' && s[1] == 'x' && s[2] == 'c' && s[3] == ':' && s[4] == '/'
                        && s[5] == '/');
                }
            }
        }
        return Err(ApiError::MalformedUri);
    }
    let mut q: usize = 6;
    while q < n && uri.get_char(q) != '/' && server_name_char(uri.get_char(q))
        invariant
            s == uri@,
            n == s.len(),
            6 <= q <= n,
            forall|j: int| 6 <= j < q ==> s[j] != '/' && is_server_name_char(#[trigger] s[j]),
        decreases n - q,
    {
        q = q + 1;
    }
    if q >= n || q == 6 || uri.get_char(q) != '/' || q + 1 == n {
        proof {
            assert forall|a: Seq<char>, b: Seq<char>| !splits_into(s, a, b) by {
                if splits_into(s, a, b) {
                    let p: int = 6 + a.len() as int;
                    assert(s[p] == '/');
                    if p < q {
                        assert(s[p] != '/');
                    } else if p > q {
                        assert(q < n);
                        assert(s[q as int] == a[q - 6]);
                        assert(is_server_name_char(a[q - 6]));
                    } else {
                        assert(s.len() == p + 1 + b.len());
                        assert(s[6] == a[0]);
                    }
                }
            }
        }
        return Err(ApiError::MalformedUri);
    }
    let server = uri.substring_char(6, q).to_owned();
    let media = uri.substring_char(q + 1, n).to_owned();
    proof {
        assert(s =~= pre + server@ + seq!['/'] + media@);
        assert(splits_into(s, server@, media@));
    }
    Ok((server, media))
}

/// A content URI splits in exactly one way: a request built from a URI holds
/// the same server name and media id as one built from the parts by hand.
pub proof fn lemma_decomposition_unique(
    uri: Seq<char>,
    server: Seq<char>,
    media: Seq<char>,
    server2: Seq<char>,
    media2: Seq<char>,
)
    requires
        splits_into(uri, server, media),
        splits_into(uri, server2, media2),
    ensures
        server2 == server,
        media2 == media,
{
    let a: int = server.len() as int;
    let b: int = server2.len() as int;
    assert(uri[6 + a] == '/');
    assert(uri[6 + b] == '/');
    if a < b {
        assert(uri[6 + a] == server2[a]);
        assert(is_server_name_char(server2[a]));
    } else if b < a {
        assert(uri[6 + b] == server[b]);
        assert(is_server_name_char(server[b]));
    } else {
        assert(server =~= uri.subrange(6, 6 + a));
        assert(server2 =~= uri.subrange(6, 6 + a));
        assert(media =~= uri.skip(7 + a));
        assert(media2 =~= uri.skip(7 + a));
    }
}

} // verus!
