//! The HTTP responder's decision logic: one fixed route answered with a
//! constant body, everything else refused with the usual framework defaults.

use vstd::prelude::*;

verus! {

/// What the responder sends back for one request: a status code and a body.
pub struct HttpReply {
    pub status: u16,
    pub body: String,
}

/// The constant payload of the one supported route.
pub fn ask() -> (r: String)
    ensures
        r@ == "Hello world!"@,
{
    "Hello world!".to_owned()
}

/// Decides the reply for one request, given its method and path. The route
/// table has a single entry, `GET /ask`, answered with status 200 and the
/// constant payload; any other path gets the framework default "not found",
/// and any other method on the known path the default "method not allowed",
/// both with an empty body.
pub fn respond(method: &str, path: &str) -> (r: HttpReply)
    ensures
        (method@ == "GET"@ && path@ == "/ask"@)
            ==> (r.status == 200 && r.body@ == "Hello world!"@),
        path@ != "/ask"@
            ==> (r.status == 404 && r.body@ =~= Seq::<char>::empty()),
        (path@ == "/ask"@ && method@ != "GET"@)
            ==> (r.status == 405 && r.body@ =~= Seq::<char>::empty()),
        r.status == 200 <==> (method@ == "GET"@ && path@ == "/ask"@),
        r.body@ == "Hello world!"@ <==> (method@ == "GET"@ && path@ == "/ask"@),
{
    proof {
        reveal_strlit("Hello world!");
    }
    let ask_path: String = "/ask".to_owned();
    let get_method: String = "GET".to_owned();
    let p: String = path.to_owned();
    let m: String = method.to_owned();
    if p == ask_path {
        if m == get_method {
            HttpReply { status: 200, body: ask() }
        } else {
            HttpReply { status: 405, body: String::new() }
        }
    } else {
        HttpReply { status: 404, body: String::new() }
    }
}

} // verus!
