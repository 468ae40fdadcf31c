//! What every endpoint sends back: a status, the fixed cross-origin and
//! content-type headers, and an optional JSON body. The program writes
//! these onto its transport unchanged.

use vstd::prelude::*;

verus! {

/// A response as the endpoints shape it.
pub struct ApiResponse {
    pub status: u16,
    pub headers: Vec<(String, String)>,
    pub body: Option<String>,
}

/// The headers as pairs of characters.
pub open spec fn headers_model(h: Seq<(String, String)>) -> Seq<(Seq<char>, Seq<char>)> {
    h.map_values(|p: (String, String)| (p.0@, p.1@))
}

/// The three headers every JSON response carries: any origin may call,
/// the two request headers the API reads are allowed, and the body is
/// JSON in UTF-8.
pub open spec fn spec_cors_headers() -> Seq<(Seq<char>, Seq<char>)> {
    seq![
        ("Access-Control-Allow-Origin"@, "*"@),
        ("Access-Control-Allow-Headers"@, "content-type, authorization"@),
        ("Content-Type"@, "application/json; charset=utf-8"@),
    ]
}

/// A response carrying the fixed JSON headers, status 200, and the given
/// body, or no body at all when the query yielded nothing.
pub fn json_response(body: Option<String>) -> (r: ApiResponse)
    ensures
        r.status == 200,
        headers_model(r.headers@) == spec_cors_headers(),
        r.body == body,
{
    let mut headers: Vec<(String, String)> = Vec::new();
    headers.push(
        (String::from_str("Access-Control-Allow-Origin"), String::from_str("*")),
    );
    headers.push(
        (
            String::from_str("Access-Control-Allow-Headers"),
            String::from_str("content-type, authorization"),
        ),
    );
    headers.push(
        (String::from_str("Content-Type"), String::from_str("application/json; charset=utf-8")),
    );
    proof {
        assert(headers_model(headers@) =~= spec_cors_headers());
    }
    ApiResponse { status: 200, headers, body }
}

/// The answer to a preflight request: the fixed JSON headers and no
/// body.
pub fn preflight_response() -> (r: ApiResponse)
    ensures
        r.status == 200,
        headers_model(r.headers@) == spec_cors_headers(),
        r.body is None,
{
    json_response(None)
}

/// The answer to an administrative request without the right secret: an
/// unauthorized status with nothing else.
pub fn unauthorized_response() -> (r: ApiResponse)
    ensures
        r.status == 401,
        r.headers@.len() == 0,
        r.body is None,
{
    ApiResponse { status: 401, headers: Vec::new(), body: None }
}

/// The two SQL commands of a handler joined into one batch, separated by
/// a semicolon.
pub fn join_sql_commands(command: &str, select: &str) -> (r: String)
    ensures
        r@ == command@ + ";"@ + select@,
{
    let mut out = String::from_str(command);
    out.append(";");
    out.append(select);
    proof {
        assert(out@ =~= command@ + ";"@ + select@);
    }
    out
}

} // verus!
