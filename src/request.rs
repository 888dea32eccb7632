use vstd::prelude::*;
use vstd::slice::slice_subrange;
use vstd::utf8::{decode_utf8, valid_utf8};

use crate::error::Error;
use crate::method::{method_or_get, Method};
use crate::string_map::{pairs_map, StringMap};
use crate::text::{
    lemma_header_line_splits, trim, is_space, trim_end, trim_start, chars_of, find_char, get_key_value, index_of, key_value, key_value_range, lemma_index_of_absent,
    lemma_index_of_found, split_all, split_ranges, substring,
};

verus! {

/// A key and a value, as characters.
pub type Pair = (Seq<char>, Seq<char>);

/// The parsed pairs of the segments `segs`, each split at `d`; `None` where
/// a segment holds no `d`.
pub open spec fn key_values(segs: Seq<Seq<char>>, d: char) -> Option<Seq<Pair>>
    decreases segs.len(),
{
    if segs.len() == 0 {
        Some(Seq::empty())
    } else {
        match (key_values(segs.drop_last(), d), key_value(segs.last(), d)) {
            (Some(ps), Some(kv)) => Some(ps.push(kv)),
            _ => None,
        }
    }
}

/// The path of a request-target: all before the first `?`.
pub open spec fn target_path(t: Seq<char>) -> Seq<char> {
    match index_of(t, '?') {
        Some(i) => t.subrange(0, i),
        None => t,
    }
}

/// The query pairs of a request-target, in order: the text after the first
/// `?`, split at `&`, each piece split at `=`. `None` where a piece has no `=`.
pub open spec fn target_queries(t: Seq<char>) -> Option<Seq<Pair>> {
    match index_of(t, '?') {
        Some(i) => key_values(split_all(t.subrange(i + 1, t.len() as int), '&'), '='),
        None => Some(Seq::empty()),
    }
}

/// The `n`th space-separated token of a request line, or empty.
pub open spec fn token(line: Seq<char>, n: int) -> Seq<char> {
    if n < split_all(line, ' ').len() {
        split_all(line, ' ')[n]
    } else {
        Seq::empty()
    }
}

/// What a request holds, as mathematical values.
pub struct RequestView {
    pub method: Method,
    pub uri: Seq<char>,
    pub version: Seq<char>,
    pub headers: Map<Seq<char>, Seq<char>>,
    pub query_strings: Map<Seq<char>, Seq<char>>,
}

/// The request that a request line and its headers describe; `None`
/// where the query of the target does not parse.
pub open spec fn request_of(line: Seq<char>, headers: Map<Seq<char>, Seq<char>>) -> Option<
    RequestView,
> {
    match target_queries(token(line, 1)) {
        Some(qs) => Some(
            RequestView {
                method: method_or_get(token(line, 0)),
                uri: target_path(token(line, 1)),
                version: token(line, 2),
                headers: headers,
                query_strings: pairs_map(qs),
            },
        ),
        None => None,
    }
}

/// The line feed byte, which ends a line.
pub const LF: u8 = 10;

/// The carriage return byte, which precedes the line feed.
pub const CR: u8 = 13;

/// Reads the head of a request from `b`, line by line. `line` is the request
/// line once one has been read, `headers` the header pairs read so far. A
/// line ends at LF, which a CR must precede; empty lines before the request
/// line are skipped, and the first empty line after it ends the head.
pub open spec fn parse_head(b: Seq<u8>, line: Option<Seq<char>>, headers: Seq<Pair>) -> Result<
    (Seq<char>, Seq<Pair>),
    Error,
>
    decreases b.len(),
{
    if index_of(b, LF) is Some {
        let i = index_of(b, LF)->0;
        if !(0 <= i < b.len()) {
            Err(Error::IncompleteRequest)
        } else if i == 0 || b[i - 1] != CR {
            Err(Error::ParsingError)
        } else {
            let content = b.subrange(0, i - 1);
            let rest = b.subrange(i + 1, b.len() as int);
            match line {
                None => if content.len() == 0 {
                    parse_head(rest, None, headers)
                } else if valid_utf8(content) {
                    parse_head(rest, Some(decode_utf8(content)), headers)
                } else {
                    Err(Error::ParsingError)
                },
                Some(l) => if content.len() == 0 {
                    Ok((l, headers))
                } else if !valid_utf8(content) {
                    Err(Error::ParsingError)
                } else {
                    match key_value(decode_utf8(content), ':') {
                        Some(kv) => parse_head(rest, line, headers.push(kv)),
                        None => Err(Error::ParsingError),
                    }
                },
            }
        }
    } else {
        Err(Error::IncompleteRequest)
    }
}

/// The request that the bytes `b` begin with, or why there is none.
pub open spec fn parse_request(b: Seq<u8>) -> Result<RequestView, Error> {
    match parse_head(b, None, Seq::empty()) {
        Ok((l, hs)) => match request_of(l, pairs_map(hs)) {
            Some(v) => Ok(v),
            None => Err(Error::ParsingError),
        },
        Err(e) => Err(e),
    }
}

/// The request line read so far, as characters.
pub open spec fn line_view(line: Option<String>) -> Option<Seq<char>> {
    match line {
        Some(l) => Some(l@),
        None => None,
    }
}

/// A parsed request: method, path, protocol version, headers and query parameters.
pub struct Request {
    pub method: Method,
    pub uri: String,
    pub version: String,
    pub headers: StringMap,
    pub query_strings: StringMap,
}

impl View for Request {
    type V = RequestView;

    open spec fn view(&self) -> RequestView {
        RequestView {
            method: self.method,
            uri: self.uri@,
            version: self.version@,
            headers: self.headers@,
            query_strings: self.query_strings@,
        }
    }
}

/// Relies on `String::from_utf8`: it succeeds exactly on valid UTF-8, and
/// the string then holds the decoded characters.
#[verifier::external_body]
fn decode(b: &[u8]) -> (r: Option<String>)
    ensures
        r is Some <==> valid_utf8(b@),
        r matches Some(s) ==> s@ == decode_utf8(b@),
{
    String::from_utf8(b.to_vec()).ok()
}

/// The position of the first LF in `b[lo..]`, counted from the start of `b`.
fn find_lf(b: &[u8], lo: usize) -> (r: Option<usize>)
    requires
        lo <= b@.len(),
    ensures
        match r {
            Some(i) => lo <= i < b@.len() && index_of(b@.subrange(lo as int, b@.len() as int), LF)
                == Some(i - lo),
            None => index_of(b@.subrange(lo as int, b@.len() as int), LF) is None,
        },
{
    let n = b.len();
    let mut i: usize = lo;
    while i < n
        invariant
            lo <= i <= n == b@.len(),
            forall|j: int| lo <= j < i ==> b@[j] != LF,
        decreases n - i,
    {
        if b[i] == LF {
            proof {
                lemma_index_of_found(b@.subrange(lo as int, n as int), LF, i - lo);
            }
            return Some(i);
        }
        i = i + 1;
    }
    proof {
        lemma_index_of_absent(b@.subrange(lo as int, n as int), LF);
    }
    None
}

/// The query parameters of `rc`: split at `&`, each piece split at `=`.
fn parse_queries(rc: &Vec<char>) -> (r: Result<StringMap, Error>)
    ensures
        match key_values(split_all(rc@, '&'), '=') {
            Some(qs) => r matches Ok(m) && m@ == pairs_map(qs),
            None => r is Err && r->Err_0 == Error::ParsingError,
        },
{
    let mut queries = StringMap::new();
    let ranges = split_ranges(rc, '&');
    let ghost segs = split_all(rc@, '&');
    let ghost mut pairs: Seq<Pair> = Seq::empty();
    let mut k: usize = 0;
    assert(segs.take(0) =~= Seq::<Seq<char>>::empty());
    while k < ranges.len()
        invariant
            k <= ranges@.len() == segs.len(),
            segs == split_all(rc@, '&'),
            forall|j: int|
                0 <= j < ranges@.len() ==> (#[trigger] ranges@[j]).0 <= ranges@[j].1 <= rc@.len()
                    && rc@.subrange(ranges@[j].0 as int, ranges@[j].1 as int) == segs[j],
            key_values(segs.take(k as int), '=') == Some(pairs),
            queries@ == pairs_map(pairs),
        decreases ranges@.len() - k,
    {
        let (lo, hi) = ranges[k];
        assert(segs.take(k + 1).drop_last() =~= segs.take(k as int));
        match key_value_range(rc, lo, hi, '=') {
            Some((key, value)) => {
                proof {
                    let before = pairs;
                    pairs = pairs.push((key@, value@));
                    assert(pairs.drop_last() =~= before);
                }
                queries.insert(key, value);
            },
            None => {
                proof {
                    lemma_key_values_fails(segs, '=', k as int);
                }
                return Err(Error::ParsingError);
            },
        }
        k = k + 1;
    }
    assert(segs.take(k as int) =~= segs);
    Ok(queries)
}

/// Splits a request-target into its path and its query parameters.
pub fn split_target(target: &String) -> (r: Result<(String, StringMap), Error>)
    ensures
        match target_queries(target@) {
            Some(qs) => r matches Ok(p) && p.0@ == target_path(target@) && p.1@ == pairs_map(qs),
            None => r is Err && r->Err_0 == Error::ParsingError,
        },
{
    let t = chars_of(target.as_str());
    let n = t.len();
    assert(t@.subrange(0, n as int) =~= t@);
    match find_char(&t, '?', 0, n) {
        None => {
            let queries = StringMap::new();
            assert(queries@ == pairs_map(Seq::<Pair>::empty()));
            Ok((substring(&t, 0, n), queries))
        },
        Some(q) => {
            let rest = substring(&t, q + 1, n);
            let rc = chars_of(rest.as_str());
            match parse_queries(&rc) {
                Ok(queries) => Ok((substring(&t, 0, q), queries)),
                Err(e) => Err(e),
            }
        },
    }
}

/// Once a segment fails to parse, so does every longer prefix.
pub proof fn lemma_key_values_fails(segs: Seq<Seq<char>>, d: char, k: int)
    requires
        0 <= k < segs.len(),
        key_value(segs[k], d) is None,
    ensures
        key_values(segs, d) is None,
    decreases segs.len(),
{
    if k < segs.len() - 1 {
        lemma_key_values_fails(segs.drop_last(), d, k);
    }
}

/// Where every segment parses, the pairs are the segments' pairs, in order.
pub proof fn lemma_key_values_each(segs: Seq<Seq<char>>, d: char)
    ensures
        key_values(segs, d) matches Some(ps) ==> ps.len() == segs.len() && forall|j: int|
            0 <= j < segs.len() ==> key_value(#[trigger] segs[j], d) == Some(ps[j]),
    decreases segs.len(),
{
    if segs.len() > 0 {
        lemma_key_values_each(segs.drop_last(), d);
        if key_values(segs, d) is Some {
            let ps = key_values(segs, d)->0;
            let qs = key_values(segs.drop_last(), d)->0;
            assert forall|j: int| 0 <= j < segs.len() implies key_value(#[trigger] segs[j], d)
                == Some(ps[j]) by {
                if j < segs.len() - 1 {
                    assert(segs.drop_last()[j] == segs[j]);
                    assert(ps[j] == qs[j]);
                }
            }
        }
    }
}

/// A request-target `path?a=1&b=2` whose path holds no `?` has that path,
/// and the query parameters `a` = `1` and `b` = `2`.
pub proof fn lemma_target_with_query(path: Seq<char>)
    requires
        forall|j: int| 0 <= j < path.len() ==> path[j] != '?',
    ensures
        target_path(path + seq!['?', 'a', '=', '1', '&', 'b', '=', '2']) == path,
        target_queries(path + seq!['?', 'a', '=', '1', '&', 'b', '=', '2']) matches Some(qs)
            && pairs_map(qs) == map![seq!['a'] => seq!['1'], seq!['b'] => seq!['2']],
{
    let q = seq!['a', '=', '1', '&', 'b', '=', '2'];
    let t = path + seq!['?'] + q;
    assert(path + seq!['?', 'a', '=', '1', '&', 'b', '=', '2'] =~= t);
    lemma_index_of_found(t, '?', path.len() as int);
    assert(t.subrange(0, path.len() as int) =~= path);
    assert(t.subrange(path.len() as int + 1, t.len() as int) =~= q);
    let first = seq!['a', '=', '1'];
    let second = seq!['b', '=', '2'];
    lemma_index_of_found(q, '&', 3);
    assert(q.subrange(0, 3) =~= first);
    assert(q.subrange(4, 7) =~= second);
    lemma_index_of_absent(second, '&');
    assert(split_all(second, '&') == seq![second]);
    assert(split_all(q, '&') =~= seq![first, second]);
    lemma_split_pair(first, 'a', '1');
    lemma_split_pair(second, 'b', '2');
    let segs = seq![first, second];
    assert(segs.drop_last() =~= seq![first]);
    assert(seq![first].drop_last() =~= Seq::<Seq<char>>::empty());
    let qs = seq![(seq!['a'], seq!['1']), (seq!['b'], seq!['2'])];
    assert(key_values(Seq::<Seq<char>>::empty(), '=') == Some(Seq::<Pair>::empty()));
    assert(Seq::<Pair>::empty().push((seq!['a'], seq!['1'])) =~= seq![(seq!['a'], seq!['1'])]);
    assert(key_values(seq![first], '=') == Some(seq![(seq!['a'], seq!['1'])]));
    assert(seq![(seq!['a'], seq!['1'])].push((seq!['b'], seq!['2'])) =~= qs);
    assert(key_values(segs, '=') == Some(qs));
    assert(qs.drop_last() =~= seq![(seq!['a'], seq!['1'])]);
    assert(seq![(seq!['a'], seq!['1'])].drop_last() =~= Seq::<Pair>::empty());
    assert(pairs_map(Seq::<Pair>::empty()) == Map::<Seq<char>, Seq<char>>::empty());
    assert(pairs_map(seq![(seq!['a'], seq!['1'])]) == Map::<Seq<char>, Seq<char>>::empty().insert(
        seq!['a'],
        seq!['1'],
    ));
    assert(seq!['a'] != seq!['b']) by {
        assert(seq!['a'][0] != seq!['b'][0]);
    }
    assert(pairs_map(qs) =~= map![seq!['a'] => seq!['1'], seq!['b'] => seq!['2']]);
}

/// `k=v` for two characters that are not white space and `k` not `=`.
proof fn lemma_split_pair(s: Seq<char>, k: char, v: char)
    requires
        s == seq![k, '=', v],
        k != '=',
        !is_space(k),
        !is_space(v),
    ensures
        key_value(s, '=') == Some((seq![k], seq![v])),
{
    lemma_index_of_found(s, '=', 1);
    let a = s.subrange(0, 1);
    let b = s.subrange(2, 3);
    assert(a =~= seq![k]);
    assert(b =~= seq![v]);
    assert(trim_start(a) == a);
    assert(trim_end(a) == a);
    assert(trim_start(b) == b);
    assert(trim_end(b) == b);
}

/// A request-target without `?` is all path, with no query parameters.
pub proof fn lemma_target_without_query(t: Seq<char>)
    requires
        forall|j: int| 0 <= j < t.len() ==> t[j] != '?',
    ensures
        target_path(t) == t,
        target_queries(t) matches Some(qs) && pairs_map(qs) == Map::<Seq<char>, Seq<char>>::empty(),
{
    lemma_index_of_absent(t, '?');
}

/// A header line whose text is `k:v`, with no colon in `k`, followed by
/// the empty line, ends the head with `trim(k)` set to `trim(v)`.
pub proof fn lemma_header_line_parsed(
    content: Seq<u8>,
    line: Seq<char>,
    headers: Seq<Pair>,
    k: Seq<char>,
    v: Seq<char>,
)
    requires
        content.len() > 0,
        forall|j: int| 0 <= j < content.len() ==> content[j] != LF,
        valid_utf8(content),
        decode_utf8(content) == k + seq![':'] + v,
        forall|j: int| 0 <= j < k.len() ==> k[j] != ':',
    ensures
        parse_head(content + seq![CR, LF, CR, LF], Some(line), headers) == Ok::<
            (Seq<char>, Seq<Pair>),
            Error,
        >((line, headers.push((trim(k), trim(v))))),
        pairs_map(headers.push((trim(k), trim(v))))[trim(k)] == trim(v),
{
    lemma_header_line_splits(k, v);
    let b = content + seq![CR, LF, CR, LF];
    let n = content.len() as int;
    lemma_index_of_found(b, LF, n + 1);
    assert(b.subrange(0, n) =~= content);
    let rest = b.subrange(n + 2, b.len() as int);
    assert(rest =~= seq![CR, LF]);
    lemma_index_of_found(rest, LF, 1);
    assert(b[n] == CR);
    assert(rest[0] == CR);
    let hs = headers.push((trim(k), trim(v)));
    assert(rest.subrange(0, 0).len() == 0);
    assert(parse_head(rest, Some(line), hs) == Ok::<(Seq<char>, Seq<Pair>), Error>((line, hs)));
    assert(key_value(decode_utf8(b.subrange(0, n)), ':') == Some((trim(k), trim(v))));
    assert(parse_head(b, Some(line), headers) == parse_head(rest, Some(line), hs));
    assert(hs.drop_last() =~= headers);
}

impl Request {
    /// Parses the head of a request from `bytes`: the request line, then
    /// header lines up to the first empty line. Bytes after that line are
    /// not read. Fails with `IncompleteRequest` where `bytes` ends first.
    pub fn new(bytes: &[u8]) -> (r: Result<Request, Error>)
        ensures
            match parse_request(bytes@) {
                Ok(v) => r matches Ok(req) && req@ == v,
                Err(e) => r is Err && r->Err_0 == e,
            },
    {
        let n = bytes.len();
        let mut pos: usize = 0;
        let mut line: Option<String> = None;
        let mut headers = StringMap::new();
        let ghost mut hs: Seq<Pair> = Seq::empty();
        assert(bytes@.subrange(0, n as int) =~= bytes@);
        loop
            invariant
                pos <= n == bytes@.len(),
                parse_head(bytes@, None, Seq::empty()) == parse_head(
                    bytes@.subrange(pos as int, n as int),
                    line_view(line),
                    hs,
                ),
                headers@ == pairs_map(hs),
            decreases n - pos,
        {
            let ghost rest = bytes@.subrange(pos as int, n as int);
            let i = match find_lf(bytes, pos) {
                Some(i) => i,
                None => {
                    return Err(Error::IncompleteRequest);
                },
            };
            if i == pos || bytes[i - 1] != CR {
                return Err(Error::ParsingError);
            }
            let content = slice_subrange(bytes, pos, i - 1);
            proof {
                assert(rest.subrange(0, i - pos - 1) =~= content@);
                assert(rest.subrange(i - pos + 1, rest.len() as int) =~= bytes@.subrange(
                    i + 1,
                    n as int,
                ));
            }
            let empty = i - 1 == pos;
            if line.is_none() {
                if !empty {
                    match decode(content) {
                        Some(l) => {
                            line = Some(l);
                        },
                        None => {
                            return Err(Error::ParsingError);
                        },
                    }
                }
            } else if empty {
                let l = line.unwrap();
                return Request::from_head(l, headers);
            } else {
                match decode(content) {
                    Some(text) => match get_key_value(text.as_str(), ':') {
                        Ok((k, v)) => {
                            proof {
                                let before = hs;
                                hs = hs.push((k@, v@));
                                assert(hs.drop_last() =~= before);
                            }
                            headers.insert(k, v);
                        },
                        Err(e) => {
                            return Err(e);
                        },
                    },
                    None => {
                        return Err(Error::ParsingError);
                    },
                }
            }
            pos = i + 1;
        }
    }

    /// The request that the request line `line` and `headers` describe.
    fn from_head(line: String, headers: StringMap) -> (r: Result<Request, Error>)
        ensures
            match request_of(line@, headers@) {
                Some(v) => r matches Ok(req) && req@ == v,
                None => r is Err && r->Err_0 == Error::ParsingError,
            },
    {
        let lc = chars_of(line.as_str());
        let ranges = split_ranges(&lc, ' ');
        let method_token = if ranges.len() > 0 {
            substring(&lc, ranges[0].0, ranges[0].1)
        } else {
            String::new()
        };
        let target = if ranges.len() > 1 {
            substring(&lc, ranges[1].0, ranges[1].1)
        } else {
            String::new()
        };
        let version = if ranges.len() > 2 {
            substring(&lc, ranges[2].0, ranges[2].1)
        } else {
            String::new()
        };
        let method = Method::from_token(&method_token);
        match split_target(&target) {
            Ok((uri, query_strings)) => Ok(
                Request { method, uri, version, headers, query_strings },
            ),
            Err(e) => Err(e),
        }
    }
}

} // verus!
