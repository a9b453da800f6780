use vstd::prelude::*;
use vstd::string::*;
use crate::error::Error;
use crate::http::protocol::{Method, Request, RequestSpec};
use crate::http::{inserted, TextMap};
use crate::text::{pieces_view, split, split_bytes, CLOSE_BRACE, OPEN_BRACE, SLASH};
use crate::utils::{bytes_equal, copy_bytes, copy_range, push_all};

verus! {

/// The normalized form of a route: with a `/` in front, and without the
/// `/` at the end unless the route is the root.
pub open spec fn normalized_route(route: Seq<u8>) -> Seq<u8>
    recommends
        route.len() > 0,
{
    let led = if route[0] != SLASH {
        seq![SLASH] + route
    } else {
        route
    };
    if route.last() == SLASH && route.len() > 1 {
        led.drop_last()
    } else {
        led
    }
}

/// Whether a segment is a capture: it is written `{name}`.
pub open spec fn is_capture(segment: Seq<u8>) -> bool {
    segment.len() >= 2 && segment[0] == OPEN_BRACE && segment.last() == CLOSE_BRACE
}

/// The name of a capture.
pub open spec fn capture_name(segment: Seq<u8>) -> Seq<u8> {
    segment.subrange(1, segment.len() - 1)
}

/// The captures among the segments, each with the index of its segment.
pub open spec fn captures(segments: Seq<Seq<u8>>) -> Seq<(usize, Seq<u8>)>
    decreases segments.len(),
{
    if segments.len() == 0 {
        Seq::empty()
    } else if is_capture(segments.last()) {
        captures(segments.drop_last()).push(
            ((segments.len() - 1) as usize, capture_name(segments.last())),
        )
    } else {
        captures(segments.drop_last())
    }
}

/// What the segments of a pattern bind in as many segments of a path: a
/// capture binds its name to the segment at its place, and any other segment
/// must be the segment at its place. `None` where one is not.
pub open spec fn bind(pattern: Seq<Seq<u8>>, path: Seq<Seq<u8>>) -> Option<Seq<(Seq<u8>, Seq<u8>)>>
    recommends
        pattern.len() == path.len(),
    decreases pattern.len(),
{
    if pattern.len() == 0 {
        Some(Seq::empty())
    } else {
        match bind(pattern.drop_last(), path.drop_last()) {
            None => None,
            Some(bound) => if is_capture(pattern.last()) {
                Some(inserted(bound, capture_name(pattern.last()), path.last()))
            } else if pattern.last() == path.last() {
                Some(bound)
            } else {
                None
            },
        }
    }
}

/// What a route binds in a path: nothing matches an empty path or a path
/// with another number of segments.
pub open spec fn matched(route: Seq<u8>, path: Seq<u8>) -> Option<Seq<(Seq<u8>, Seq<u8>)>> {
    if path.len() == 0 || split(route, SLASH).len() != split(path, SLASH).len() {
        None
    } else {
        bind(split(route, SLASH), split(path, SLASH))
    }
}

/// Where the start of a pattern does not match, the pattern does not.
pub proof fn lemma_bind_prefix(pattern: Seq<Seq<u8>>, path: Seq<Seq<u8>>, i: int)
    requires
        pattern.len() == path.len(),
        0 <= i <= pattern.len(),
        bind(pattern.take(i), path.take(i)) is None,
    ensures
        bind(pattern, path) is None,
    decreases pattern.len(),
{
    if i == pattern.len() {
        assert(pattern.take(i) =~= pattern);
        assert(path.take(i) =~= path);
    } else {
        assert(pattern.drop_last().take(i) =~= pattern.take(i));
        assert(path.drop_last().take(i) =~= path.take(i));
        lemma_bind_prefix(pattern.drop_last(), path.drop_last(), i);
    }
}

/// Segments without a capture bind nothing in themselves.
pub proof fn lemma_bind_self(segments: Seq<Seq<u8>>)
    requires
        forall|i: int| 0 <= i < segments.len() ==> !is_capture(#[trigger] segments[i]),
    ensures
        bind(segments, segments) == Some(Seq::<(Seq<u8>, Seq<u8>)>::empty()),
    decreases segments.len(),
{
    if segments.len() > 0 {
        lemma_bind_self(segments.drop_last());
    }
}

/// A route without captures matches itself and binds nothing.
pub proof fn lemma_route_matches_itself(route: Seq<u8>)
    requires
        route.len() > 0,
        forall|i: int|
            0 <= i < split(normalized_route(route), SLASH).len() ==> !is_capture(
                #[trigger] split(normalized_route(route), SLASH)[i],
            ),
    ensures
        matched(normalized_route(route), normalized_route(route)) == Some(
            Seq::<(Seq<u8>, Seq<u8>)>::empty(),
        ),
{
    lemma_bind_self(split(normalized_route(route), SLASH));
}

/// A path with another number of segments than the route does not match.
pub proof fn lemma_segment_count(route: Seq<u8>, path: Seq<u8>)
    requires
        split(route, SLASH).len() != split(path, SLASH).len(),
    ensures
        matched(route, path) is None,
{
}

/// A route pattern: its normalized form and its captures.
#[derive(Debug)]
pub struct RoutePattern {
    pub full_route: Vec<u8>,
    //                    (index, key_name)
    pub replacements: Vec<(usize, Vec<u8>)>,
}

impl RoutePattern {
    /// The captures as values.
    pub open spec fn replacements_view(&self) -> Seq<(usize, Seq<u8>)> {
        self.replacements@.map_values(|r: (usize, Vec<u8>)| (r.0, r.1@))
    }

    /// A pattern is sound when its captures are those of its route.
    pub open spec fn wf(&self) -> bool {
        self.replacements_view() == captures(split(self.full_route@, SLASH))
    }

    /// Compiles a route. An empty route is refused with code 2001.
    pub fn from(route: &str) -> (r: Result<RoutePattern, Error>)
        ensures
            r is Ok <==> route.spec_bytes().len() > 0,
            r matches Ok(p) ==> p.full_route@ == normalized_route(route.spec_bytes())
                && p.wf(),
            r matches Err(e) ==> e.code == 2001,
    {
        let bytes = route.as_bytes();
        if bytes.len() == 0 {
            return Err(Error::new("No route specified.", 2001));
        }
        let mut full_route: Vec<u8> = Vec::new();
        if bytes[0] != SLASH {
            full_route.push(SLASH);
        }
        let end: usize = if bytes[bytes.len() - 1] == SLASH && bytes.len() > 1 {
            bytes.len() - 1
        } else {
            bytes.len()
        };
        push_all(&mut full_route, vstd::slice::slice_subrange(bytes, 0, end));
        proof {
            assert(full_route@ =~= normalized_route(bytes@));
        }
        let parts = split_bytes(full_route.as_slice(), SLASH);
        let ghost segments = pieces_view(parts@);
        let mut replacements: Vec<(usize, Vec<u8>)> = Vec::new();
        let mut idx: usize = 0;
        proof {
            assert(segments.take(0) =~= Seq::<Seq<u8>>::empty());
        }
        while idx < parts.len()
            invariant
                idx <= parts@.len(),
                segments == pieces_view(parts@),
                replacements@.map_values(|r: (usize, Vec<u8>)| (r.0, r.1@)) == captures(
                    segments.take(idx as int),
                ),
            decreases parts@.len() - idx,
        {
            let part = &parts[idx];
            let ghost before = replacements@.map_values(|r: (usize, Vec<u8>)| (r.0, r.1@));
            proof {
                assert(segments.take(idx + 1).drop_last() =~= segments.take(idx as int));
                assert(segments.take(idx + 1).last() == part@);
            }
            if part.len() >= 2 && part[0] == OPEN_BRACE && part[part.len() - 1] == CLOSE_BRACE {
                let key_name = copy_range(part.as_slice(), 1, part.len() - 1);
                replacements.push((idx, key_name));
                proof {
                    assert(replacements@.map_values(|r: (usize, Vec<u8>)| (r.0, r.1@))
                        =~= before.push((idx, capture_name(part@))));
                }
            }
            idx += 1;
        }
        proof {
            assert(segments.take(idx as int) =~= segments);
        }
        Ok(RoutePattern { full_route, replacements })
    }

    /// Whether two patterns are one: their normalized forms are the same.
    pub fn same_route(&self, other: &RoutePattern) -> (same: bool)
        ensures
            same == (self.full_route@ == other.full_route@),
    {
        bytes_equal(self.full_route.as_slice(), other.full_route.as_slice())
    }

    /// Matches a path against the pattern and gives what the captures bind.
    pub fn match_str(&self, match_str: &str) -> (r: Option<TextMap>)
        ensures
            match matched(self.full_route@, match_str.spec_bytes()) {
                Some(bound) => r is Some && r->0@ == bound && r->0.wf(),
                None => r is None,
            },
    {
        self.match_bytes(match_str.as_bytes())
    }

    /// Matches a path, given as bytes, against the pattern.
    pub fn match_bytes(&self, path: &[u8]) -> (r: Option<TextMap>)
        ensures
            match matched(self.full_route@, path@) {
                Some(bound) => r is Some && r->0@ == bound && r->0.wf(),
                None => r is None,
            },
    {
        if path.len() == 0 {
            return None;
        }
        let pattern_parts = split_bytes(self.full_route.as_slice(), SLASH);
        let parts = split_bytes(path, SLASH);
        if pattern_parts.len() != parts.len() {
            return None;
        }
        let ghost pattern = pieces_view(pattern_parts@);
        let ghost given = pieces_view(parts@);
        let mut params = TextMap::new();
        let mut idx: usize = 0;
        proof {
            assert(pattern.take(0) =~= Seq::<Seq<u8>>::empty());
        }
        while idx < parts.len()
            invariant
                idx <= parts@.len(),
                parts@.len() == pattern_parts@.len(),
                pattern == pieces_view(pattern_parts@),
                given == pieces_view(parts@),
                pattern == split(self.full_route@, SLASH),
                given == split(path@, SLASH),
                path@.len() > 0,
                bind(pattern.take(idx as int), given.take(idx as int)) == Some(params@),
                params.wf(),
            decreases parts@.len() - idx,
        {
            let segment = &pattern_parts[idx];
            let part = &parts[idx];
            proof {
                assert(pattern.take(idx + 1).drop_last() =~= pattern.take(idx as int));
                assert(given.take(idx + 1).drop_last() =~= given.take(idx as int));
                assert(pattern.take(idx + 1).last() == segment@);
                assert(given.take(idx + 1).last() == part@);
            }
            if segment.len() >= 2 && segment[0] == OPEN_BRACE && segment[segment.len() - 1] == CLOSE_BRACE {
                let key = copy_range(segment.as_slice(), 1, segment.len() - 1);
                params.insert(key, copy_bytes(part.as_slice()));
            } else if !bytes_equal(part.as_slice(), segment.as_slice()) {
                proof {
                    assert(!is_capture(segment@));
                    assert(bind(pattern.take(idx + 1), given.take(idx + 1)) is None);
                    lemma_bind_prefix(pattern, given, idx + 1);
                }
                return None;
            }
            idx += 1;
        }
        proof {
            assert(pattern.take(idx as int) =~= pattern);
            assert(given.take(idx as int) =~= given);
        }
        Some(params)
    }
}

/// What a listener speaks: plain HTTP, or HTTP over TLS with the given
/// certificate and private key.
#[derive(Clone, Copy)]
pub enum TcpApplication {
    Http,
    Https { certificate: &'static str, private_key: &'static str },
}

/// What is done with a request.
#[derive(Debug)]
pub enum Decision {
    /// The method is not known: the request is answered with 405.
    MethodNotAllowed(Request),
    /// The route with this index serves the request, which holds what the
    /// captures bind.
    Handler(usize, Request),
    /// No route serves the request: it is left to the fall-through handler.
    FallThrough(Request),
}

/// A route as a value: its method and its normalized pattern.
pub ghost struct RouteSpec {
    pub method: Method,
    pub route: Seq<u8>,
}

/// One registered route.
#[derive(Debug)]
pub struct Route {
    pub method: Method,
    pub pattern: RoutePattern,
}

/// The routes of a server, in the order in which they were registered. The
/// index of a route is the key under which the server keeps its handler.
#[derive(Debug)]
pub struct Router {
    pub routes: Vec<Route>,
}

/// Whether the route serves the method and matches the path.
pub open spec fn serves(route: RouteSpec, method: Method, path: Seq<u8>) -> bool {
    route.method == method && matched(route.route, path) is Some
}

impl View for Router {
    type V = Seq<RouteSpec>;

    open spec fn view(&self) -> Seq<RouteSpec> {
        self.routes@.map_values(|r: Route| RouteSpec { method: r.method, route: r.pattern.full_route@ })
    }
}

/// No two routes have one method and one normalized pattern.
pub open spec fn distinct_routes(routes: Seq<RouteSpec>) -> bool {
    forall|i: int, j: int| 0 <= i < j < routes.len() ==> #[trigger] routes[i] != #[trigger] routes[j]
}

impl Router {
    pub open spec fn wf(&self) -> bool {
        distinct_routes(self@)
    }

    pub fn new() -> (router: Router)
        ensures
            router@ == Seq::<RouteSpec>::empty(),
            router.wf(),
    {
        let router = Router { routes: Vec::new() };
        proof {
            assert(router@ =~= Seq::<RouteSpec>::empty());
        }
        router
    }

    /// Registers a route and gives its index. A route is refused with code
    /// 2001 where it is empty or where its method and normalized pattern are
    /// registered already; the router is then left as it was.
    pub fn add(&mut self, method: Method, route: &str) -> (r: Result<usize, Error>)
        requires
            old(self).wf(),
        ensures
            final(self).wf(),
            r is Ok <==> route.spec_bytes().len() > 0 && !old(self)@.contains(
                RouteSpec { method, route: normalized_route(route.spec_bytes()) },
            ),
            r matches Ok(index) ==> index == old(self)@.len() && final(self)@ == old(self)@.push(
                RouteSpec { method, route: normalized_route(route.spec_bytes()) },
            ),
            r matches Err(e) ==> e.code == 2001 && final(self)@ == old(self)@,
    {
        let pattern = RoutePattern::from(route)?;
        let ghost added = RouteSpec { method, route: pattern.full_route@ };
        let ghost before = self@;
        let mut i: usize = 0;
        while i < self.routes.len()
            invariant
                i <= self.routes@.len(),
                self@ == before,
                *self == *old(self),
                distinct_routes(before),
                route.spec_bytes().len() > 0,
                pattern.full_route@ == normalized_route(route.spec_bytes()),
                added == (RouteSpec { method, route: pattern.full_route@ }),
                forall|j: int| 0 <= j < i ==> #[trigger] before[j] != added,
            decreases self.routes@.len() - i,
        {
            let same_method = match (self.routes[i].method, method) {
                (Method::GET, Method::GET) => true,
                (Method::HEAD, Method::HEAD) => true,
                (Method::POST, Method::POST) => true,
                (Method::Unknown, Method::Unknown) => true,
                _ => false,
            };
            if same_method && bytes_equal(
                self.routes[i].pattern.full_route.as_slice(),
                pattern.full_route.as_slice(),
            ) {
                proof {
                    assert(before[i as int] == added);
                    assert(before.contains(added));
                }
                return Err(Error::new("The route is registered already.", 2001));
            }
            i += 1;
        }
        let index = self.routes.len();
        self.routes.push(Route { method, pattern });
        proof {
            assert(self@ =~= before.push(added));
        }
        Ok(index)
    }

    /// Routes a request: where a route serves it, the request is given what
    /// the captures bind and the index of the route is returned with it;
    /// where none does, it is returned as it came.
    pub fn route(&self, req: Request) -> (r: (Request, Option<usize>))
        ensures
            r.1 is None <==> forall|i: int| 0 <= i < self@.len() ==> !serves(#[trigger] self@[i], req@.method, req@.path),
            r.1 is None ==> r.0@ == req@,
            r.1 matches Some(index) ==> index < self@.len() && serves(
                self@[index as int],
                req@.method,
                req@.path,
            ) && r.0@ == (RequestSpec {
                params: matched(self@[index as int].route, req@.path)->0,
                ..req@
            }) && forall|i: int| 0 <= i < index ==> !serves(#[trigger] self@[i], req@.method, req@.path),
    {
        match self.dispatch(req.method, req.path.as_slice()) {
            Some((index, params)) => {
                let mut req = req;
                req.params = params;
                (req, Some(index))
            },
            None => (req, None),
        }
    }

    /// Decides what is done with a request: a request with an unknown
    /// method is not routed; any other goes to the first route that serves it,
    /// or falls through.
    pub fn decide(&self, req: Request) -> (d: Decision)
        ensures
            match d {
                Decision::MethodNotAllowed(same) => req@.method == Method::Unknown && same@ == req@,
                Decision::Handler(index, routed) => req@.method != Method::Unknown && index
                    < self@.len() && serves(self@[index as int], req@.method, req@.path)
                    && routed@ == (RequestSpec {
                    params: matched(self@[index as int].route, req@.path)->0,
                    ..req@
                }) && forall|i: int|
                    0 <= i < index ==> !serves(#[trigger] self@[i], req@.method, req@.path),
                Decision::FallThrough(same) => req@.method != Method::Unknown && same@ == req@
                    && forall|i: int|
                    0 <= i < self@.len() ==> !serves(#[trigger] self@[i], req@.method, req@.path),
            },
    {
        match req.method {
            Method::Unknown => Decision::MethodNotAllowed(req),
            _ => {
                let (req, index) = self.route(req);
                match index {
                    Some(index) => Decision::Handler(index, req),
                    None => Decision::FallThrough(req),
                }
            },
        }
    }

    /// The first route that serves the method and matches the path, with what
    /// its captures bind; `None` where no route does, which leaves the request
    /// to the fall-through handler.
    pub fn dispatch(&self, method: Method, path: &[u8]) -> (r: Option<(usize, TextMap)>)
        ensures
            r is None <==> forall|i: int| 0 <= i < self@.len() ==> !serves(#[trigger] self@[i], method, path@),
            r matches Some((index, params)) ==> index < self@.len() && serves(
                self@[index as int],
                method,
                path@,
            ) && Some(params@) == matched(self@[index as int].route, path@) && params.wf()
                && forall|i: int| 0 <= i < index ==> !serves(#[trigger] self@[i], method, path@),
    {
        let mut i: usize = 0;
        while i < self.routes.len()
            invariant
                i <= self.routes@.len(),
                forall|j: int| 0 <= j < i ==> !serves(#[trigger] self@[j], method, path@),
            decreases self.routes@.len() - i,
        {
            let same_method = match (self.routes[i].method, method) {
                (Method::GET, Method::GET) => true,
                (Method::HEAD, Method::HEAD) => true,
                (Method::POST, Method::POST) => true,
                (Method::Unknown, Method::Unknown) => true,
                _ => false,
            };
            if same_method {
                match self.routes[i].pattern.match_bytes(path) {
                    Some(params) => {
                        return Some((i, params));
                    },
                    None => {},
                }
            }
            i += 1;
        }
        None
    }
}

} // verus!
