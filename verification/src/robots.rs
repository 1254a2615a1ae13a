//! The dynamic `robots.txt`.
use crate::http::{header_of, Header, PluginError, Request, Response};
use crate::sitemap::{preferred_origin, request_origin_of};
use vstd::prelude::*;
use vstd::utf8::encode_utf8;

verus! {

/// The routes that crawlers are asked to leave alone: the CMS API,
/// authentication, administration, private files and server-sent events.
pub open spec fn disallowed_paths() -> Seq<Seq<char>> {
    seq!["/admin"@, "/api"@, "/auth"@, "/files"@, "/sse"@]
}

/// The `Disallow` lines for the given paths.
pub open spec fn disallow_lines(ps: Seq<Seq<char>>) -> Seq<char>
    decreases ps.len(),
{
    if ps.len() == 0 {
        Seq::<char>::empty()
    } else {
        disallow_lines(ps.drop_last()) + "Disallow: "@ + ps.last() + "\n"@
    }
}

/// The robots.txt body: everything is allowed but the internal routes, and
/// the sitemap is referenced by its absolute URL.
pub open spec fn robots_txt(origin: Seq<char>) -> Seq<char> {
    "User-agent: *\nAllow: /\n"@ + disallow_lines(disallowed_paths()) + "Sitemap: "@ + origin
        + "/sitemap.xml\n"@
}

/// The robots.txt body for a site at `origin`.
pub fn render(origin: &str) -> (r: String)
    ensures
        r@ == robots_txt(origin@),
{
    let mut body = String::new();
    body.append("User-agent: *\nAllow: /\n");
    let ghost start = body@;
    body.append("Disallow: ");
    body.append("/admin");
    body.append("\n");
    body.append("Disallow: ");
    body.append("/api");
    body.append("\n");
    body.append("Disallow: ");
    body.append("/auth");
    body.append("\n");
    body.append("Disallow: ");
    body.append("/files");
    body.append("\n");
    body.append("Disallow: ");
    body.append("/sse");
    body.append("\n");
    proof {
        let ps = disallowed_paths();
        assert(ps.drop_last().drop_last().drop_last().drop_last().drop_last() =~= Seq::<
            Seq<char>,
        >::empty());
        assert(ps.drop_last().drop_last().drop_last().drop_last() =~= seq!["/admin"@]);
        assert(ps.drop_last().drop_last().drop_last() =~= seq!["/admin"@, "/api"@]);
        assert(ps.drop_last().drop_last() =~= seq!["/admin"@, "/api"@, "/auth"@]);
        assert(ps.drop_last() =~= seq!["/admin"@, "/api"@, "/auth"@, "/files"@]);
        reveal_with_fuel(disallow_lines, 6);
        assert(disallow_lines(ps) =~= "Disallow: "@ + "/admin"@ + "\n"@ + "Disallow: "@ + "/api"@
            + "\n"@ + "Disallow: "@ + "/auth"@ + "\n"@ + "Disallow: "@ + "/files"@ + "\n"@
            + "Disallow: "@ + "/sse"@ + "\n"@);
        assert(body@ =~= start + disallow_lines(ps));
    }
    body.append("Sitemap: ");
    body.append(origin);
    body.append("/sitemap.xml\n");
    assert(body@ =~= robots_txt(origin@));
    body
}

/// The robots.txt response.
pub fn response(configured_public_url: Option<String>, request: &Request) -> (r: Result<
    Response,
    PluginError,
>)
    ensures
        configured_public_url is None && request_origin_of(request.headers@) is Err ==> (r matches Err(
            PluginError::Failed(e),
        ) && request_origin_of(request.headers@) == Err::<Seq<char>, Seq<char>>(e@)),
        r is Ok <==> (configured_public_url is Some || request_origin_of(request.headers@) is Ok),
        r matches Ok(resp) ==> {
            let origin = match configured_public_url {
                Some(u) => u@,
                None => request_origin_of(request.headers@)->Ok_0,
            };
            &&& resp.status == 200
            &&& resp.headers@.len() == 2
            &&& resp.headers@[0].name@ == "content-type"@
            &&& resp.headers@[0].value@ == "text/plain; charset=utf-8"@
            &&& resp.headers@[1].name@ == "cache-control"@
            &&& resp.headers@[1].value@ == "public, max-age=3600"@
            &&& resp.body@ == encode_utf8(robots_txt(origin))
        },
{
    let origin = preferred_origin(configured_public_url, request.headers.as_slice())?;
    let body = render(origin.as_str());
    let mut headers: Vec<Header> = Vec::new();
    headers.push(header_of("content-type", "text/plain; charset=utf-8"));
    headers.push(header_of("cache-control", "public, max-age=3600"));
    Ok(Response { status: 200, headers, body: body.as_str().as_bytes_vec() })
}

} // verus!
