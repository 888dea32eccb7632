use vstd::prelude::*;
use vstd::utf8::encode_utf8;

use crate::content_type::{mime_of, mime_type};
use crate::error::Error;
use crate::method::Method;
use crate::request::{
    key_values, lemma_key_values_each, lemma_key_values_fails, Pair, Request, RequestView,
};
use crate::status::{reason_phrase, resolved_code, Status};
use crate::string_map::{
    lemma_pairs_map_absent, lemma_pairs_map_last, lemma_pairs_map_untouched, pairs_map, pairs_of,
    StringMap,
};
use crate::text::{get_key_value, key_value, same_text};

verus! {

/// One entry of the route table: the path and method it answers, what it
/// requires of a request, and the response it describes.
pub struct RouteEntry {
    pub path: String,
    pub method: Method,
    /// Names of headers that a request must carry.
    pub headers: Option<Vec<String>>,
    /// Names of query parameters that a request must carry.
    pub queries: Option<Vec<String>>,
    /// The status code; 200 where absent.
    pub status_code: Option<usize>,
    /// `direct`, `file` or `dl`; any other tag gives an empty body.
    pub result_type: String,
    /// The body text for `direct`, a file path for `file` and `dl`.
    pub result: String,
    /// Extra response headers, each written `Key: Value`.
    pub result_headers: Option<Vec<String>>,
}

/// The file that answering a request needs, and how to read it.
pub enum FileRequest {
    /// The file at this path, read as UTF-8 text.
    Text(String),
    /// The file at this path, read as raw bytes.
    Raw(String),
}

/// The characters of each string of `v`.
pub open spec fn texts(v: Seq<String>) -> Seq<Seq<char>> {
    v.map_values(|s: String| s@)
}

/// The characters of each string of an optional list; empty where absent.
pub open spec fn opt_texts(v: Option<Vec<String>>) -> Seq<Seq<char>> {
    match v {
        Some(v) => texts(v@),
        None => Seq::empty(),
    }
}

/// `i` is the first entry of `routes` whose path is `uri`.
pub open spec fn first_route(uri: Seq<char>, routes: Seq<RouteEntry>, i: int) -> bool {
    0 <= i < routes.len() && routes[i].path@ == uri && forall|j: int|
        0 <= j < i ==> routes[j].path@ != uri
}

/// The first entry of `routes` whose path is `uri`, if any.
pub open spec fn route_index(uri: Seq<char>, routes: Seq<RouteEntry>) -> Option<int> {
    if exists|i: int| first_route(uri, routes, i) {
        Some(choose|i: int| first_route(uri, routes, i))
    } else {
        None
    }
}

/// Every name of `names` is a key of `m`.
pub open spec fn all_present(names: Option<Vec<String>>, m: Map<Seq<char>, Seq<char>>) -> bool {
    forall|j: int| 0 <= j < opt_texts(names).len() ==> m.contains_key(#[trigger] opt_texts(names)[j])
}

/// The final component of a path, as `std::path::Path::file_name` gives it.
pub uninterp spec fn file_name_of(path: Seq<char>) -> Option<Seq<char>>;

/// The extension of a path, as `std::path::Path::extension` gives it.
pub uninterp spec fn extension_of(path: Seq<char>) -> Option<Seq<char>>;

/// The MIME type of the file at `path`: empty where it has no extension.
pub open spec fn path_mime(path: Seq<char>) -> Seq<char> {
    match extension_of(path) {
        Some(ext) => mime_of(ext),
        None => Seq::empty(),
    }
}

/// The headers that a download carries.
pub open spec fn download_pairs(path: Seq<char>, name: Seq<char>) -> Seq<Pair> {
    seq![
        ("Content-Type"@, path_mime(path)),
        ("Accept-Ranges"@, "None"@),
        ("Content-Disposition"@, "attachment; filename="@ + name),
    ]
}

/// The file that `e` reads, if any.
pub open spec fn file_of(e: RouteEntry) -> Option<FileRequest> {
    if e.result_type@ == "file"@ {
        Some(FileRequest::Text(e.result))
    } else if e.result_type@ == "dl"@ {
        Some(FileRequest::Raw(e.result))
    } else {
        None
    }
}

/// The headers that the body source adds and the body itself, given the
/// contents of the file that `e` names (`None`: not a regular file).
pub open spec fn body_of(e: RouteEntry, file: Option<Seq<u8>>) -> Result<(Seq<Pair>, Seq<u8>), Error> {
    if e.result_type@ == "direct"@ {
        Ok((Seq::empty(), encode_utf8(e.result@)))
    } else if e.result_type@ == "file"@ {
        match file {
            Some(c) => Ok((Seq::empty(), c)),
            None => Err(Error::ConfigFileOpenError),
        }
    } else if e.result_type@ == "dl"@ {
        match (file, file_name_of(e.result@)) {
            (Some(c), Some(name)) => Ok((download_pairs(e.result@, name), c)),
            _ => Err(Error::ConfigFileOpenError),
        }
    } else {
        Ok((Seq::empty(), Seq::empty()))
    }
}

/// The digit `d` as a character.
pub open spec fn digit(d: nat) -> char {
    seq!['0', '1', '2', '3', '4', '5', '6', '7', '8', '9'][d as int]
}

/// `n` written in decimal.
pub open spec fn decimal(n: nat) -> Seq<char>
    decreases n,
{
    if n < 10 {
        seq![digit(n)]
    } else {
        decimal(n / 10).push(digit(n % 10))
    }
}

/// The `Host` header of a request, passed on.
pub open spec fn host_pairs(h: Map<Seq<char>, Seq<char>>) -> Seq<Pair> {
    if h.contains_key("Host"@) {
        seq![("Host"@, h["Host"@])]
    } else {
        Seq::empty()
    }
}

/// A response, as mathematical values.
pub struct ResponseView {
    pub code: usize,
    pub message: Seq<char>,
    pub headers: Map<Seq<char>, Seq<char>>,
    pub body: Seq<u8>,
}

/// A response with no headers and a fixed text body.
pub open spec fn plain_response(code: usize, message: Seq<char>, text: Seq<char>) -> ResponseView {
    ResponseView { code, message, headers: Map::empty(), body: encode_utf8(text) }
}

/// The response to a request that entry `e` matched, method and all.
pub open spec fn entry_response(req: RequestView, e: RouteEntry, file: Option<Seq<u8>>) -> Result<
    ResponseView,
    Error,
> {
    if !all_present(e.headers, req.headers) {
        Err(Error::ConfigRequiredHeadersError)
    } else if !all_present(e.queries, req.query_strings) {
        Err(Error::ConfigRequiredQueriesError)
    } else {
        match body_of(e, file) {
            Err(err) => Err(err),
            Ok((extra, body)) => match key_values(opt_texts(e.result_headers), ':') {
                None => Err(Error::ConfigParsingError),
                Some(declared) => Ok(
                    ResponseView {
                        code: match e.status_code {
                            Some(c) => resolved_code(c),
                            None => 200,
                        },
                        message: match e.status_code {
                            Some(c) => reason_phrase(c),
                            None => "OK"@,
                        },
                        headers: pairs_map(
                            extra + seq![("Content-Length"@, decimal(body.len()))] + host_pairs(
                                req.headers,
                            ) + declared,
                        ),
                        body,
                    },
                ),
            },
        }
    }
}

/// The response to `req` under the route table `routes`, given the contents
/// of the file that the matched entry names (`None`: not a regular file).
pub open spec fn resolve(req: RequestView, routes: Seq<RouteEntry>, file: Option<Seq<u8>>) -> Result<
    ResponseView,
    Error,
> {
    match route_index(req.uri, routes) {
        None => Ok(plain_response(404, "Not Found"@, "Path not found"@)),
        Some(i) => if routes[i].method != req.method {
            Ok(plain_response(405, "Method Not Allowed"@, "Method Not Allowed"@))
        } else {
            entry_response(req, routes[i], file)
        },
    }
}

/// The HTTP response that stands for a failure: 400 for what the request
/// lacks or gets wrong, 500 for a route whose configuration is at fault.
pub open spec fn error_response(e: Error) -> ResponseView {
    match e {
        Error::ParsingError => plain_response(400, "Bad Request"@, "Malformed request"@),
        Error::IncompleteRequest => plain_response(400, "Bad Request"@, "Incomplete request"@),
        Error::ConfigRequiredHeadersError => plain_response(
            400,
            "Bad Request"@,
            "Required headers missing"@,
        ),
        Error::ConfigRequiredQueriesError => plain_response(
            400,
            "Bad Request"@,
            "Required queries missing"@,
        ),
        Error::ConfigFileOpenError => plain_response(
            500,
            "Internal Server Error"@,
            "File not available"@,
        ),
        Error::ConfigParsingError => plain_response(
            500,
            "Internal Server Error"@,
            "Invalid response header"@,
        ),
    }
}

/// The file that resolving `req` reads, if any.
pub open spec fn needed_file(req: RequestView, routes: Seq<RouteEntry>) -> Option<FileRequest> {
    match route_index(req.uri, routes) {
        Some(i) => if routes[i].method == req.method && all_present(routes[i].headers, req.headers)
            && all_present(routes[i].queries, req.query_strings) {
            file_of(routes[i])
        } else {
            None
        },
        None => None,
    }
}

/// Relies on `Path::file_name`: the final component of `path`, if any.
#[verifier::external_body]
fn path_file_name(path: &String) -> (r: Option<String>)
    ensures
        match r {
            Some(s) => file_name_of(path@) == Some(s@),
            None => file_name_of(path@) is None,
        },
{
    let name = std::path::Path::new(path.as_str()).file_name()?;
    Some(name.to_string_lossy().into_owned())
}

/// Relies on `Path::extension`: the extension of the final component of
/// `path`, if any.
#[verifier::external_body]
fn path_extension(path: &String) -> (r: Option<String>)
    ensures
        match r {
            Some(s) => extension_of(path@) == Some(s@),
            None => extension_of(path@) is None,
        },
{
    let ext = std::path::Path::new(path.as_str()).extension()?;
    Some(ext.to_string_lossy().into_owned())
}

/// Relies on `ToString` for `usize`: its decimal digits, without sign or padding.
#[verifier::external_body]
fn decimal_string(n: usize) -> (r: String)
    ensures
        r@ == decimal(n as nat),
{
    n.to_string()
}

/// The first entry found by a scan is the one that `route_index` names.
proof fn lemma_route_found(uri: Seq<char>, routes: Seq<RouteEntry>, i: int)
    requires
        first_route(uri, routes, i),
    ensures
        route_index(uri, routes) == Some(i),
{
    let k = choose|k: int| first_route(uri, routes, k);
    assert(first_route(uri, routes, k));
    if k < i {
        assert(routes[k].path@ != uri);
    } else if k > i {
        assert(routes[i].path@ != uri);
    }
}

/// The index of the first entry of `routes` whose path is `uri`.
fn find_route(uri: &String, routes: &Vec<RouteEntry>) -> (r: Option<usize>)
    ensures
        match r {
            Some(i) => i < routes@.len() && route_index(uri@, routes@) == Some(i as int),
            None => route_index(uri@, routes@) is None,
        },
{
    let mut i: usize = 0;
    while i < routes.len()
        invariant
            i <= routes@.len(),
            forall|j: int| 0 <= j < i ==> routes@[j].path@ != uri@,
        decreases routes@.len() - i,
    {
        if routes[i].path == *uri {
            proof {
                lemma_route_found(uri@, routes@, i as int);
            }
            return Some(i);
        }
        i = i + 1;
    }
    None
}

/// Whether every name of `names` is a key of `m`.
fn check_present(names: &Option<Vec<String>>, m: &StringMap) -> (r: bool)
    ensures
        r == all_present(*names, m@),
{
    match names {
        None => true,
        Some(v) => {
            let mut j: usize = 0;
            while j < v.len()
                invariant
                    j <= v@.len(),
                    opt_texts(*names) == texts(v@),
                    forall|k: int| 0 <= k < j ==> m@.contains_key(#[trigger] texts(v@)[k]),
                decreases v@.len() - j,
            {
                if !m.contains_key(v[j].as_str()) {
                    assert(!m@.contains_key(opt_texts(*names)[j as int]));
                    return false;
                }
                j = j + 1;
            }
            true
        },
    }
}

/// The headers that the body source of `e` adds, and the body.
fn resolve_body(e: &RouteEntry, file: Option<Vec<u8>>) -> (r: Result<
    (Vec<(String, String)>, Vec<u8>),
    Error,
>)
    ensures
        match body_of(*e, file_view(file)) {
            Ok((extra, body)) => r matches Ok(p) && pairs_of(p.0@) == extra && p.1@ == body,
            Err(err) => r is Err && r->Err_0 == err,
        },
{
    let none: Vec<(String, String)> = Vec::new();
    assert(pairs_of(none@) =~= Seq::<Pair>::empty());
    if same_text(&e.result_type, "direct") {
        Ok((none, e.result.as_str().as_bytes_vec()))
    } else if same_text(&e.result_type, "file") {
        match file {
            Some(c) => Ok((none, c)),
            None => Err(Error::ConfigFileOpenError),
        }
    } else if same_text(&e.result_type, "dl") {
        let contents = match file {
            Some(c) => c,
            None => {
                return Err(Error::ConfigFileOpenError);
            },
        };
        let name = match path_file_name(&e.result) {
            Some(n) => n,
            None => {
                return Err(Error::ConfigFileOpenError);
            },
        };
        let mime = match path_extension(&e.result) {
            Some(ext) => mime_type(&ext),
            None => String::new(),
        };
        let mut disposition = "attachment; filename=".to_owned();
        disposition.append(name.as_str());
        let mut extra: Vec<(String, String)> = Vec::new();
        extra.push(("Content-Type".to_owned(), mime));
        extra.push(("Accept-Ranges".to_owned(), "None".to_owned()));
        extra.push(("Content-Disposition".to_owned(), disposition));
        assert(pairs_of(extra@) =~= download_pairs(e.result@, name@));
        Ok((extra, contents))
    } else {
        Ok((none, Vec::new()))
    }
}

/// The headers that `list` declares, each parsed as `Key: Value`.
fn declared_headers(list: &Option<Vec<String>>) -> (r: Result<Vec<(String, String)>, Error>)
    ensures
        match key_values(opt_texts(*list), ':') {
            Some(ps) => r matches Ok(v) && pairs_of(v@) == ps,
            None => r is Err && r->Err_0 == Error::ConfigParsingError,
        },
{
    let mut out: Vec<(String, String)> = Vec::new();
    match list {
        None => {
            assert(pairs_of(out@) =~= Seq::<Pair>::empty());
            Ok(out)
        },
        Some(v) => {
            let ghost segs = texts(v@);
            let mut k: usize = 0;
            assert(segs.take(0) =~= Seq::<Seq<char>>::empty());
            assert(pairs_of(out@) =~= Seq::<Pair>::empty());
            while k < v.len()
                invariant
                    k <= v@.len() == segs.len(),
                    segs == texts(v@),
                    opt_texts(*list) == segs,
                    key_values(segs.take(k as int), ':') == Some(pairs_of(out@)),
                decreases v@.len() - k,
            {
                assert(segs.take(k + 1).drop_last() =~= segs.take(k as int));
                match get_key_value(v[k].as_str(), ':') {
                    Ok(p) => {
                        let ghost before = pairs_of(out@);
                        out.push(p);
                        assert(pairs_of(out@) =~= before.push((p.0@, p.1@)));
                    },
                    Err(_) => {
                        proof {
                            lemma_key_values_fails(segs, ':', k as int);
                        }
                        return Err(Error::ConfigParsingError);
                    },
                }
                k = k + 1;
            }
            assert(segs.take(k as int) =~= segs);
            Ok(out)
        },
    }
}

/// The contents of a file, as bytes.
pub open spec fn file_view(file: Option<Vec<u8>>) -> Option<Seq<u8>> {
    match file {
        Some(c) => Some(c@),
        None => None,
    }
}

/// A response: status, headers and body.
pub struct Response {
    pub status: Status,
    pub headers: StringMap,
    pub body: Vec<u8>,
}

impl View for Response {
    type V = ResponseView;

    open spec fn view(&self) -> ResponseView {
        ResponseView {
            code: self.status.code,
            message: self.status.message@,
            headers: self.headers@,
            body: self.body@,
        }
    }
}

impl Response {
    /// A response with no headers and the text `text` as its body.
    fn plain(status: Status, text: &str) -> (r: Response)
        ensures
            r@ == plain_response(status.code, status.message@, text@),
    {
        let headers = StringMap::new();
        Response { status, headers, body: text.as_bytes_vec() }
    }

    /// The file that answering `request` under `routes` reads, and how:
    /// `None` where the matched entry reads none or the request is answered
    /// or refused before any file is read.
    pub fn required_file(request: &Request, routes: &Vec<RouteEntry>) -> (r: Option<FileRequest>)
        ensures
            r == needed_file(request@, routes@),
    {
        let i = match find_route(&request.uri, routes) {
            Some(i) => i,
            None => {
                return None;
            },
        };
        let e = &routes[i];
        if e.method != request.method || !check_present(&e.headers, &request.headers)
            || !check_present(&e.queries, &request.query_strings) {
            return None;
        }
        if same_text(&e.result_type, "file") {
            Some(FileRequest::Text(e.result.clone()))
        } else if same_text(&e.result_type, "dl") {
            Some(FileRequest::Raw(e.result.clone()))
        } else {
            None
        }
    }

    /// Answers `request` under the route table `routes`. The first entry
    /// whose path is the request's path decides: 404 where there is none,
    /// 405 where its method differs, else its preconditions are checked and
    /// its body and headers assembled. `file` holds the contents of the file
    /// that `required_file` names, or `None` where it is not a regular file.
    pub fn new(request: &Request, routes: &Vec<RouteEntry>, file: Option<Vec<u8>>) -> (r: Result<
        Response,
        Error,
    >)
        ensures
            match resolve(request@, routes@, file_view(file)) {
                Ok(v) => r matches Ok(resp) && resp@ == v,
                Err(e) => r is Err && r->Err_0 == e,
            },
    {
        let i = match find_route(&request.uri, routes) {
            Some(i) => i,
            None => {
                return Ok(Response::plain(Status::not_found(), "Path not found"));
            },
        };
        let e = &routes[i];
        if e.method != request.method {
            return Ok(Response::plain(Status::method_not_allowed(), "Method Not Allowed"));
        }
        if !check_present(&e.headers, &request.headers) {
            return Err(Error::ConfigRequiredHeadersError);
        }
        if !check_present(&e.queries, &request.query_strings) {
            return Err(Error::ConfigRequiredQueriesError);
        }
        let status = match e.status_code {
            Some(c) => Status::from(c),
            None => Status::ok(),
        };
        let (extra, body) = match resolve_body(e, file) {
            Ok(p) => p,
            Err(err) => {
                return Err(err);
            },
        };
        let mut declared = match declared_headers(&e.result_headers) {
            Ok(d) => d,
            Err(err) => {
                return Err(err);
            },
        };
        let ghost extra_pairs = pairs_of(extra@);
        let ghost declared_pairs = pairs_of(declared@);
        let mut all = extra;
        all.push(("Content-Length".to_owned(), decimal_string(body.len())));
        let ghost with_length = pairs_of(all@);
        assert(with_length =~= extra_pairs + seq![("Content-Length"@, decimal(body@.len()))]);
        match request.headers.get("Host") {
            Some(h) => {
                all.push(("Host".to_owned(), h));
            },
            None => {},
        }
        let ghost with_host = pairs_of(all@);
        assert(with_host =~= with_length + host_pairs(request.headers@));
        all.append(&mut declared);
        assert(pairs_of(all@) =~= with_host + declared_pairs);
        let headers = StringMap::from_pairs(all);
        Ok(Response { status, headers, body })
    }

    /// The response that stands for the failure `e`.
    pub fn for_error(e: Error) -> (r: Response)
        ensures
            r@ == error_response(e),
    {
        match e {
            Error::ParsingError => Response::plain(Status::bad_request(), "Malformed request"),
            Error::IncompleteRequest => Response::plain(Status::bad_request(), "Incomplete request"),
            Error::ConfigRequiredHeadersError => Response::plain(
                Status::bad_request(),
                "Required headers missing",
            ),
            Error::ConfigRequiredQueriesError => Response::plain(
                Status::bad_request(),
                "Required queries missing",
            ),
            Error::ConfigFileOpenError => Response::plain(
                Status::internal_server_error(),
                "File not available",
            ),
            Error::ConfigParsingError => Response::plain(
                Status::internal_server_error(),
                "Invalid response header",
            ),
        }
    }

    /// Answers `request` as `new` does, but turns each failure into the
    /// HTTP response that stands for it, so that a connection can always be
    /// answered.
    pub fn answer(request: &Request, routes: &Vec<RouteEntry>, file: Option<Vec<u8>>) -> (r:
        Response)
        ensures
            r@ == match resolve(request@, routes@, file_view(file)) {
                Ok(v) => v,
                Err(e) => error_response(e),
            },
    {
        match Response::new(request, routes, file) {
            Ok(resp) => resp,
            Err(e) => Response::for_error(e),
        }
    }
}

/// Whether the extra headers of `e` declare a header named `name`.
pub open spec fn declares_header(e: RouteEntry, name: Seq<char>) -> bool {
    exists|j: int|
        0 <= j < opt_texts(e.result_headers).len() && (#[trigger] key_value(
            opt_texts(e.result_headers)[j],
            ':',
        )) is Some && (key_value(opt_texts(e.result_headers)[j], ':')->0).0 == name
}

/// Some entry carries `uri`, so a first one does.
proof fn lemma_first_route_exists(uri: Seq<char>, routes: Seq<RouteEntry>, i: int)
    requires
        0 <= i < routes.len(),
        routes[i].path@ == uri,
    ensures
        route_index(uri, routes) matches Some(k) && k <= i && first_route(uri, routes, k),
    decreases i,
{
    if forall|j: int| 0 <= j < i ==> routes[j].path@ != uri {
        lemma_route_found(uri, routes, i);
    } else {
        let j = choose|j: int| 0 <= j < i && routes[j].path@ != uri == false;
        lemma_first_route_exists(uri, routes, j);
    }
}

/// First match wins: where entries `i < j` both carry `uri`, the entry
/// chosen comes no later than `i`, so never `j`, whatever either requires.
pub proof fn lemma_first_match_wins(uri: Seq<char>, routes: Seq<RouteEntry>, i: int, j: int)
    requires
        0 <= i < j < routes.len(),
        routes[i].path@ == uri,
        routes[j].path@ == uri,
    ensures
        route_index(uri, routes) matches Some(k) && k <= i && k != j,
{
    lemma_first_route_exists(uri, routes, i);
}

/// A method mismatch on the entry that matches the path gives 405, before
/// any precondition is looked at and whatever the file holds.
pub proof fn lemma_method_mismatch(
    req: RequestView,
    routes: Seq<RouteEntry>,
    i: int,
    file: Option<Seq<u8>>,
)
    requires
        first_route(req.uri, routes, i),
        routes[i].method != req.method,
    ensures
        resolve(req, routes, file) == Ok::<ResponseView, Error>(
            plain_response(405, "Method Not Allowed"@, "Method Not Allowed"@),
        ),
{
    lemma_route_found(req.uri, routes, i);
}

/// No entry with the request's path gives 404 with body "Path not found"
/// and no headers.
pub proof fn lemma_no_route(req: RequestView, routes: Seq<RouteEntry>, file: Option<Seq<u8>>)
    requires
        forall|j: int| 0 <= j < routes.len() ==> routes[j].path@ != req.uri,
    ensures
        resolve(req, routes, file) == Ok::<ResponseView, Error>(
            plain_response(404, "Not Found"@, "Path not found"@),
        ),
{
}

/// The declared headers of `e`, where they parse, carry no key `name`
/// unless `e` declares it.
proof fn lemma_declared_keys(e: RouteEntry, name: Seq<char>)
    requires
        !declares_header(e, name),
    ensures
        key_values(opt_texts(e.result_headers), ':') matches Some(ps) ==> forall|j: int|
            0 <= j < ps.len() ==> ps[j].0 != name,
{
    let segs = opt_texts(e.result_headers);
    lemma_key_values_each(segs, ':');
    if key_values(segs, ':') is Some {
        let ps = key_values(segs, ':')->0;
        assert forall|j: int| 0 <= j < ps.len() implies ps[j].0 != name by {
            assert(key_value(segs[j], ':') == Some(ps[j]));
        }
    }
}

/// Each response that an entry answers carries `Content-Length`, equal to
/// the length of its body, unless the entry declares that header itself.
pub proof fn lemma_content_length(
    req: RequestView,
    routes: Seq<RouteEntry>,
    i: int,
    file: Option<Seq<u8>>,
)
    requires
        first_route(req.uri, routes, i),
        routes[i].method == req.method,
        resolve(req, routes, file) is Ok,
        !declares_header(routes[i], "Content-Length"@),
    ensures
        resolve(req, routes, file)->Ok_0.headers.contains_key("Content-Length"@),
        resolve(req, routes, file)->Ok_0.headers["Content-Length"@] == decimal(
            resolve(req, routes, file)->Ok_0.body.len(),
        ),
{
    reveal_strlit("Content-Length");
    reveal_strlit("Host");
    lemma_route_found(req.uri, routes, i);
    let e = routes[i];
    lemma_declared_keys(e, "Content-Length"@);
    let (extra, body) = body_of(e, file)->Ok_0;
    let declared = key_values(opt_texts(e.result_headers), ':')->0;
    let a = extra + seq![("Content-Length"@, decimal(body.len()))];
    let b = host_pairs(req.headers) + declared;
    assert(a + host_pairs(req.headers) + declared =~= a + b);
    assert forall|j: int| 0 <= j < b.len() implies b[j].0 != "Content-Length"@ by {
        if j < host_pairs(req.headers).len() {
            assert(b[j].0 == "Host"@);
        }
    }
    lemma_pairs_map_untouched(a, b, "Content-Length"@);
    assert(a.drop_last() =~= extra);
}

/// A `dl` entry sets `Content-Disposition: attachment; filename=<name>`,
/// with `<name>` the final component of its path, unless the entry declares
/// that header itself.
pub proof fn lemma_download_disposition(
    req: RequestView,
    routes: Seq<RouteEntry>,
    i: int,
    file: Option<Seq<u8>>,
)
    requires
        first_route(req.uri, routes, i),
        routes[i].method == req.method,
        routes[i].result_type@ == "dl"@,
        resolve(req, routes, file) is Ok,
        !declares_header(routes[i], "Content-Disposition"@),
    ensures
        file_name_of(routes[i].result@) is Some,
        resolve(req, routes, file)->Ok_0.headers.contains_key("Content-Disposition"@),
        resolve(req, routes, file)->Ok_0.headers["Content-Disposition"@] == "attachment; filename="@
            + file_name_of(routes[i].result@)->0,
{
    reveal_strlit("Content-Length");
    reveal_strlit("Content-Disposition");
    reveal_strlit("Host");
    reveal_strlit("direct");
    reveal_strlit("file");
    reveal_strlit("dl");
    lemma_route_found(req.uri, routes, i);
    let e = routes[i];
    lemma_declared_keys(e, "Content-Disposition"@);
    assert(entry_response(req, e, file) is Ok);
    assert(body_of(e, file) is Ok);
    assert("dl"@.len() == 2 && "direct"@.len() == 6 && "file"@.len() == 4);
    assert(e.result_type@ != "direct"@);
    assert(e.result_type@ != "file"@);
    assert(file is Some && file_name_of(e.result@) is Some);
    let (extra, body) = body_of(e, file)->Ok_0;
    let declared = key_values(opt_texts(e.result_headers), ':')->0;
    let name = file_name_of(e.result@)->0;
    assert(extra == download_pairs(e.result@, name));
    let b = seq![("Content-Length"@, decimal(body.len()))] + host_pairs(req.headers) + declared;
    assert(extra + seq![("Content-Length"@, decimal(body.len()))] + host_pairs(req.headers)
        + declared =~= extra + b);
    assert forall|j: int| 0 <= j < b.len() implies b[j].0 != "Content-Disposition"@ by {
        if j == 0 {
            assert(b[j].0 == "Content-Length"@);
        } else if j < 1 + host_pairs(req.headers).len() {
            assert(b[j].0 == "Host"@);
        } else {
            assert(b[j] == declared[j - 1 - host_pairs(req.headers).len()]);
        }
    }
    lemma_pairs_map_untouched(extra, b, "Content-Disposition"@);
    lemma_pairs_map_last(extra, "Content-Disposition"@, 2);
}

/// A `direct` or `file` entry never sets `Content-Disposition`, unless it
/// declares that header itself.
pub proof fn lemma_no_disposition(
    req: RequestView,
    routes: Seq<RouteEntry>,
    i: int,
    file: Option<Seq<u8>>,
)
    requires
        first_route(req.uri, routes, i),
        routes[i].method == req.method,
        routes[i].result_type@ == "direct"@ || routes[i].result_type@ == "file"@,
        resolve(req, routes, file) is Ok,
        !declares_header(routes[i], "Content-Disposition"@),
    ensures
        !resolve(req, routes, file)->Ok_0.headers.contains_key("Content-Disposition"@),
{
    reveal_strlit("Content-Length");
    reveal_strlit("Content-Disposition");
    reveal_strlit("Host");
    reveal_strlit("direct");
    reveal_strlit("file");
    lemma_route_found(req.uri, routes, i);
    let e = routes[i];
    lemma_declared_keys(e, "Content-Disposition"@);
    let (extra, body) = body_of(e, file)->Ok_0;
    let declared = key_values(opt_texts(e.result_headers), ':')->0;
    assert(extra.len() == 0);
    let all = extra + seq![("Content-Length"@, decimal(body.len()))] + host_pairs(req.headers)
        + declared;
    assert forall|j: int| 0 <= j < all.len() implies all[j].0 != "Content-Disposition"@ by {
        if j == 0 {
            assert(all[j].0 == "Content-Length"@);
        } else if j < 1 + host_pairs(req.headers).len() {
            assert(all[j].0 == "Host"@);
        } else {
            assert(all[j] == declared[j - 1 - host_pairs(req.headers).len()]);
        }
    }
    lemma_pairs_map_absent(all, "Content-Disposition"@);
}

} // verus!