use vstd::prelude::*;
use vstd::string::*;
use crate::http::codes::HTTPStatus;
use crate::http::protocol::{Request, Response, ResponseSpec};
use crate::http::{inserted, lookup, Range};
use crate::text::{
    after, before, decimal, decimal_bytes, find_blank, find_byte, first_blank, first_index,
    lemma_decimal_roundtrip, lemma_split_last, lemma_split_none, lower, lower_bytes,
    parse_number, parse_number_bytes, pieces_view, split, split_bytes, trim, trim_bytes, without,
    without_byte, COLON, CR, EQUALS, HYPHEN, LF,
};
use crate::utils::{bytes_equal, copy_range, push_all};

verus! {

/// One mebibyte: the most that is served of a range without an end, unless
/// the configuration says otherwise.
pub const M_BYTE: usize = 1048576;

/// How a resource is served.
#[derive(Debug, Clone, Copy, PartialEq, Eq, Structural)]
pub enum RangePlan {
    /// All of it: no range was asked for.
    Whole,
    /// The bytes from `start` up to, not including, `end`.
    Partial { start: usize, end: usize },
    /// Nothing: the range that was asked for cannot be served.
    Unsatisfiable,
}

/// The range that a `Range` header asks for: `bytes=<from>-<to>`, where
/// either end may be absent. `None` where the header is of another form.
pub open spec fn range_of(header: Seq<u8>) -> Option<Range> {
    let halves = split(header, EQUALS);
    if halves.len() != 2 || halves[0] != "bytes".spec_bytes() {
        None
    } else {
        let values = split(halves[1], HYPHEN);
        if values.len() < 2 {
            None
        } else {
            Some(Range { from: parse_number(values[0]), to: parse_number(values[1]) })
        }
    }
}

/// The window of bytes that a range means in a resource of `size` bytes:
/// both ends given, from `from` through `to`; only `from`, at most `chunk`
/// bytes from there; only `to`, the last `to` bytes, or all where there are
/// fewer. No window where neither end is given.
pub open spec fn window(range: Range, size: int, chunk: int) -> Option<(int, int)> {
    match (range.from, range.to) {
        (Some(from), Some(to)) => Some((from as int, to + 1)),
        (Some(from), None) => Some(
            (
                from as int,
                if from + chunk < size {
                    from + chunk
                } else {
                    size
                },
            ),
        ),
        (None, Some(to)) => Some(
            (
                if to > size {
                    0int
                } else {
                    size - to
                },
                size,
            ),
        ),
        (None, None) => None,
    }
}

/// How a resource of `size` bytes is served to a request with the given
/// range: a window that is not empty and lies within the resource is served
/// in part; a range without a window, or with a window that is empty or
/// reaches beyond the resource, cannot be served.
pub open spec fn plan(range: Option<Range>, size: usize, chunk: usize) -> RangePlan {
    match range {
        None => RangePlan::Whole,
        Some(range) => match window(range, size as int, chunk as int) {
            None => RangePlan::Unsatisfiable,
            Some((start, end)) => if start < end && end <= size {
                RangePlan::Partial { start: start as usize, end: end as usize }
            } else {
                RangePlan::Unsatisfiable
            },
        },
    }
}

/// The value of `Content-Range` for a window: `bytes <start>-<end-1>/<size>`.
pub open spec fn content_range_of(start: usize, end: usize, size: usize) -> Seq<u8>
    recommends
        start < end,
{
    "bytes ".spec_bytes() + decimal(start as nat) + "-".spec_bytes() + decimal((end - 1) as nat)
        + "/".spec_bytes() + decimal(size as nat)
}

/// The value of `Content-Range` where the range cannot be served:
/// `*/<size>`.
pub open spec fn unsatisfied_range_of(size: usize) -> Seq<u8> {
    "*/".spec_bytes() + decimal(size as nat)
}

/// The response after the plan was applied to it: a part is answered with
/// 206 and its `Content-Range`, a range that cannot be served with 416 and
/// `Content-Range: */<size>`.
pub open spec fn ranged(res: ResponseSpec, plan: RangePlan, size: usize) -> ResponseSpec {
    match plan {
        RangePlan::Whole => res,
        RangePlan::Partial { start, end } => ResponseSpec {
            status: HTTPStatus::PartialContent,
            headers: inserted(
                res.headers,
                "Content-Range".spec_bytes(),
                content_range_of(start, end, size),
            ),
            ..res
        },
        RangePlan::Unsatisfiable => ResponseSpec {
            status: HTTPStatus::RangeNotSatisfiable,
            headers: inserted(
                res.headers,
                "Content-Range".spec_bytes(),
                unsatisfied_range_of(size),
            ),
            ..res
        },
    }
}

/// Reads a `Range` header. See [`range_of`].
pub fn parse_range(header: &[u8]) -> (r: Option<Range>)
    ensures
        r == range_of(header@),
{
    let halves = split_bytes(header, EQUALS);
    if halves.len() != 2 || !bytes_equal(halves[0].as_slice(), "bytes".as_bytes()) {
        return None;
    }
    let values = split_bytes(halves[1].as_slice(), HYPHEN);
    if values.len() < 2 {
        return None;
    }
    let from = parse_number_bytes(values[0].as_slice());
    let to = parse_number_bytes(values[1].as_slice());
    Some(Range::new(from, to))
}

/// Decides how a resource is served. See [`plan`].
pub fn plan_range(range: Option<Range>, size: usize, chunk: usize) -> (r: RangePlan)
    ensures
        r == plan(range, size, chunk),
{
    let range = match range {
        None => {
            return RangePlan::Whole;
        },
        Some(range) => range,
    };
    match (range.from, range.to) {
        (Some(from), Some(to)) => {
            if from <= to && to < size {
                RangePlan::Partial { start: from, end: to + 1 }
            } else {
                RangePlan::Unsatisfiable
            }
        },
        (Some(from), None) => {
            if from >= size {
                RangePlan::Unsatisfiable
            } else {
                let end: usize = if chunk < size - from {
                    from + chunk
                } else {
                    size
                };
                if from < end {
                    RangePlan::Partial { start: from, end }
                } else {
                    RangePlan::Unsatisfiable
                }
            }
        },
        (None, Some(to)) => {
            let start: usize = if to > size {
                0
            } else {
                size - to
            };
            if start < size {
                RangePlan::Partial { start, end: size }
            } else {
                RangePlan::Unsatisfiable
            }
        },
        (None, None) => RangePlan::Unsatisfiable,
    }
}

/// The value of `Content-Range` for a window.
pub fn content_range(start: usize, end: usize, size: usize) -> (value: Vec<u8>)
    requires
        start < end,
    ensures
        value@ == content_range_of(start, end, size),
{
    let mut value: Vec<u8> = Vec::new();
    push_all(&mut value, "bytes ".as_bytes());
    let digits = decimal_bytes(start);
    push_all(&mut value, digits.as_slice());
    push_all(&mut value, "-".as_bytes());
    let digits = decimal_bytes(end - 1);
    push_all(&mut value, digits.as_slice());
    push_all(&mut value, "/".as_bytes());
    let digits = decimal_bytes(size);
    push_all(&mut value, digits.as_slice());
    proof {
        assert(value@ =~= content_range_of(start, end, size));
    }
    value
}

/// The value of `Content-Range` where the range cannot be served.
pub fn unsatisfied_range(size: usize) -> (value: Vec<u8>)
    ensures
        value@ == unsatisfied_range_of(size),
{
    let mut value: Vec<u8> = Vec::new();
    push_all(&mut value, "*/".as_bytes());
    let digits = decimal_bytes(size);
    push_all(&mut value, digits.as_slice());
    proof {
        assert(value@ =~= unsatisfied_range_of(size));
    }
    value
}

/// Sets the status and the `Content-Range` that the plan calls for.
pub fn apply_plan(res: &mut Response, plan: RangePlan, size: usize)
    requires
        old(res).wf(),
        plan matches RangePlan::Partial { start, end } ==> start < end,
    ensures
        final(res)@ == ranged(old(res)@, plan, size),
        final(res).wf(),
{
    match plan {
        RangePlan::Whole => {},
        RangePlan::Partial { start, end } => {
            let value = content_range(start, end, size);
            res.set_header("Content-Range".as_bytes(), value.as_slice());
            res.set_status(HTTPStatus::PartialContent);
        },
        RangePlan::Unsatisfiable => {
            let value = unsatisfied_range(size);
            res.set_header("Content-Range".as_bytes(), value.as_slice());
            res.set_status(HTTPStatus::RangeNotSatisfiable);
        },
    }
}

/// The header that asks for a resource of `size` bytes from its first byte
/// through its last: `bytes=0-<size-1>`.
pub open spec fn full_range_header(size: usize) -> Seq<u8> {
    "bytes=0-".spec_bytes() + decimal((size - 1) as nat)
}

/// The header `bytes=0-<size-1>` asks for the bytes from 0 through
/// `size - 1`.
pub proof fn lemma_full_range_header(size: usize)
    requires
        size >= 1,
    ensures
        range_of(full_range_header(size)) == Some(
            Range { from: Some(0usize), to: Some((size - 1) as usize) },
        ),
{
    let digits = decimal((size - 1) as nat);
    let header = full_range_header(size);
    lemma_decimal_roundtrip((size - 1) as nat);
    reveal_strlit("bytes=0-");
    reveal_strlit("bytes");
    assert(is_ascii("bytes=0-"));
    assert(is_ascii("bytes"));
    is_ascii_spec_bytes("bytes=0-");
    is_ascii_spec_bytes("bytes");
    let unit = "bytes".spec_bytes();
    let zero = seq![48u8];
    let rest = zero + seq![HYPHEN] + digits;
    assert(header =~= unit + seq![EQUALS] + rest);
    assert forall|i: int| 0 <= i < rest.len() implies rest[i] != EQUALS by {
        if i >= 2 {
            assert(rest[i] == digits[i - 2]);
        }
    }
    lemma_split_last(unit, 61, rest);
    lemma_split_none(unit, EQUALS);
    assert(split(header, EQUALS) =~= seq![unit, rest]);
    assert forall|i: int| 0 <= i < digits.len() implies digits[i] != HYPHEN by {}
    lemma_split_last(zero, 45, digits);
    lemma_split_none(zero, HYPHEN);
    assert(split(rest, HYPHEN) =~= seq![zero, digits]);
    assert(parse_number(zero) == Some(0usize)) by {
        assert(zero.drop_last() =~= Seq::<u8>::empty());
        reveal_with_fuel(crate::text::decimal_value, 2);
    }
}

/// A range from the first byte through the last one of a resource that is
/// not empty is served as the whole resource, in part: all its bytes, with
/// `Content-Range: bytes 0-<size-1>/<size>`.
pub proof fn lemma_full_range(res: ResponseSpec, size: usize, chunk: usize)
    requires
        size >= 1,
    ensures
        plan(range_of(full_range_header(size)), size, chunk) == (RangePlan::Partial {
            start: 0,
            end: size,
        }),
        served(RangePlan::Partial { start: 0, end: size }, size) == (0usize, size),
        ranged(res, RangePlan::Partial { start: 0, end: size }, size).status
            == HTTPStatus::PartialContent,
        lookup(
            ranged(res, RangePlan::Partial { start: 0, end: size }, size).headers,
            "Content-Range".spec_bytes(),
        ) == Some(
            "bytes ".spec_bytes() + decimal(0) + "-".spec_bytes() + decimal((size - 1) as nat)
                + "/".spec_bytes() + decimal(size as nat),
        ),
{
    lemma_full_range_header(size);
    crate::http::lemma_insert_lookup(
        res.headers,
        "Content-Range".spec_bytes(),
        content_range_of(0, size, size),
        "Content-Range".spec_bytes(),
    );
}

/// The header that asks for the last `k` bytes of a resource: `bytes=-<k>`.
pub open spec fn suffix_range_header(k: usize) -> Seq<u8> {
    "bytes=-".spec_bytes() + decimal(k as nat)
}

/// The header `bytes=-<k>` asks for a range without a start that ends
/// `k` bytes before the end.
pub proof fn lemma_suffix_range_header(k: usize)
    ensures
        range_of(suffix_range_header(k)) == Some(Range { from: None, to: Some(k) }),
{
    let digits = decimal(k as nat);
    let header = suffix_range_header(k);
    lemma_decimal_roundtrip(k as nat);
    reveal_strlit("bytes=-");
    reveal_strlit("bytes");
    assert(is_ascii("bytes=-"));
    assert(is_ascii("bytes"));
    is_ascii_spec_bytes("bytes=-");
    is_ascii_spec_bytes("bytes");
    let unit = "bytes".spec_bytes();
    let none = Seq::<u8>::empty();
    let rest = none + seq![HYPHEN] + digits;
    assert(header =~= unit + seq![EQUALS] + rest);
    assert forall|i: int| 0 <= i < rest.len() implies rest[i] != EQUALS by {
        if i >= 1 {
            assert(rest[i] == digits[i - 1]);
        }
    }
    lemma_split_last(unit, EQUALS, rest);
    lemma_split_none(unit, EQUALS);
    assert(split(header, EQUALS) =~= seq![unit, rest]);
    assert forall|i: int| 0 <= i < digits.len() implies digits[i] != HYPHEN by {}
    lemma_split_last(none, HYPHEN, digits);
    lemma_split_none(none, HYPHEN);
    assert(split(rest, HYPHEN) =~= seq![none, digits]);
}

/// A request for more last bytes than the resource has is clamped to the
/// start of the resource: a resource that is not empty is served whole, in
/// part. Of an empty resource nothing can be served: the answer is 416 with
/// `Content-Range: */0`.
pub proof fn lemma_suffix_beyond_resource(res: ResponseSpec, size: usize, k: usize, chunk: usize)
    requires
        k > size,
    ensures
        size >= 1 ==> plan(range_of(suffix_range_header(k)), size, chunk) == (RangePlan::Partial {
            start: 0,
            end: size,
        }),
        size == 0 ==> plan(range_of(suffix_range_header(k)), size, chunk)
            == RangePlan::Unsatisfiable,
        ranged(res, RangePlan::Unsatisfiable, size).status == HTTPStatus::RangeNotSatisfiable,
        lookup(ranged(res, RangePlan::Unsatisfiable, size).headers, "Content-Range".spec_bytes())
            == Some("*/".spec_bytes() + decimal(size as nat)),
{
    lemma_suffix_range_header(k);
    crate::http::lemma_insert_lookup(
        res.headers,
        "Content-Range".spec_bytes(),
        unsatisfied_range_of(size),
        "Content-Range".spec_bytes(),
    );
}

/// Whether a file of a directory is served in the directory's place: its
/// stem is `index` and its extension `html`, `htm` or `php`.
pub open spec fn is_index(stem: Seq<u8>, extension: Option<Seq<u8>>) -> bool {
    stem == "index".spec_bytes() && extension is Some && (extension->0 == "html".spec_bytes()
        || extension->0 == "htm".spec_bytes() || extension->0 == "php".spec_bytes())
}

/// Computes [`is_index`].
pub fn is_index_file(stem: &[u8], extension: Option<&[u8]>) -> (r: bool)
    ensures
        r == is_index(
            stem@,
            match extension {
                Some(e) => Some(e@),
                None => None,
            },
        ),
{
    if !bytes_equal(stem, "index".as_bytes()) {
        return false;
    }
    match extension {
        None => false,
        Some(e) => bytes_equal(e, "html".as_bytes()) || bytes_equal(e, "htm".as_bytes())
            || bytes_equal(e, "php".as_bytes()),
    }
}

} // verus!

verus! {

/// The bytes that are read of a resource of `size` bytes: where they start
/// and how many they are.
pub open spec fn served(plan: RangePlan, size: usize) -> (usize, usize) {
    match plan {
        RangePlan::Whole => (0usize, size),
        RangePlan::Partial { start, end } => (start, (end - start) as usize),
        RangePlan::Unsatisfiable => (0usize, 0usize),
    }
}

/// Computes [`served`].
pub fn served_window(plan: RangePlan, size: usize) -> (r: (usize, usize))
    requires
        plan matches RangePlan::Partial { start, end } ==> start <= end,
    ensures
        r == served(plan, size),
{
    match plan {
        RangePlan::Whole => (0, size),
        RangePlan::Partial { start, end } => (start, end - start),
        RangePlan::Unsatisfiable => (0, 0),
    }
}

/// The header lines that the output of a script starts with, and what
/// follows them. The lines end at the first empty line, carriage returns
/// not counted; output that has no such line, or starts with it, has no
/// header lines and is taken as it is.
pub open spec fn script_output(data: Seq<u8>) -> (Seq<Seq<u8>>, Seq<u8>) {
    let text = without(data, CR);
    let blank = first_blank(text);
    if 0 < blank && blank < text.len() {
        (split(text.take(blank), LF), text.skip(blank + 2))
    } else {
        (Seq::empty(), data)
    }
}

/// The headers after those of a script were put onto them. A line is split
/// at its first colon into a name and a value, both trimmed; a line without
/// a colon is skipped.
pub open spec fn with_script_headers(headers: Seq<(Seq<u8>, Seq<u8>)>, lines: Seq<Seq<u8>>) -> Seq<
    (Seq<u8>, Seq<u8>),
>
    decreases lines.len(),
{
    if lines.len() == 0 {
        headers
    } else {
        let earlier = with_script_headers(headers, lines.drop_last());
        let line = lines.last();
        if first_index(line, COLON) < line.len() {
            inserted(earlier, trim(before(line, COLON)), trim(after(line, COLON)))
        } else {
            earlier
        }
    }
}

/// Whether one of the lines sets the content type, in whatever case its
/// name is written.
pub open spec fn sets_content_type(lines: Seq<Seq<u8>>) -> bool {
    exists|i: int|
        0 <= i < lines.len() && first_index(#[trigger] lines[i], COLON) < lines[i].len() && lower(
            trim(before(lines[i], COLON)),
        ) == "content-type".spec_bytes()
}

/// The response after the output of a script was taken into it: the
/// script's headers, `Content-Type: text/html` where the script set none,
/// and the rest of the output appended to the body.
pub open spec fn with_script_output(res: ResponseSpec, data: Seq<u8>) -> ResponseSpec {
    let (lines, body) = script_output(data);
    let headers = with_script_headers(res.headers, lines);
    ResponseSpec {
        headers: if sets_content_type(lines) {
            headers
        } else {
            inserted(headers, "Content-Type".spec_bytes(), "text/html".spec_bytes())
        },
        body: res.body + body,
        ..res
    }
}

/// Takes the output of a script into a response that has not been sent. See
/// [`with_script_output`].
pub fn apply_script_output(res: &mut Response, data: &[u8])
    requires
        old(res).wf(),
        !old(res)@.sent,
    ensures
        final(res)@ == with_script_output(old(res)@, data@),
        final(res).wf(),
{
    let text = without_byte(data, CR);
    let blank = find_blank(text.as_slice());
    let ghost before_res = res@;
    if 0 < blank && blank < text.len() {
        let head = copy_range(text.as_slice(), 0, blank);
        let body = copy_range(text.as_slice(), blank + 2, text.len());
        proof {
            assert(head@ =~= text@.take(blank as int));
            assert(body@ =~= text@.skip(blank + 2));
        }
        let lines = split_bytes(head.as_slice(), LF);
        let ghost all = pieces_view(lines@);
        let mut typed = false;
        let mut i: usize = 0;
        proof {
            assert(all.take(0) =~= Seq::<Seq<u8>>::empty());
        }
        while i < lines.len()
            invariant
                i <= lines@.len(),
                all == pieces_view(lines@),
                res@ == (ResponseSpec {
                    headers: with_script_headers(before_res.headers, all.take(i as int)),
                    ..before_res
                }),
                res.wf(),
                typed == sets_content_type(all.take(i as int)),
            decreases lines@.len() - i,
        {
            let line = &lines[i];
            proof {
                assert(all.take(i + 1).drop_last() =~= all.take(i as int));
                assert(all.take(i + 1).last() == line@);
            }
            let ghost was = all.take(i as int);
            let ghost now = all.take(i + 1);
            let colon = find_byte(line.as_slice(), COLON);
            let mut names_type = false;
            if colon < line.len() {
                let name = copy_range(line.as_slice(), 0, colon);
                let value = copy_range(line.as_slice(), colon + 1, line.len());
                proof {
                    assert(name@ =~= before(line@, COLON));
                    assert(value@ =~= after(line@, COLON));
                }
                let name = trim_bytes(name.as_slice());
                let value = trim_bytes(value.as_slice());
                let folded = lower_bytes(name.as_slice());
                names_type = bytes_equal(folded.as_slice(), "content-type".as_bytes());
                res.set_header(name.as_slice(), value.as_slice());
            }
            proof {
                if names_type {
                    assert(now[i as int] == line@);
                    assert(sets_content_type(now));
                } else if typed {
                    let k = choose|k: int|
                        0 <= k < was.len() && first_index(#[trigger] was[k], COLON) < was[k].len()
                            && lower(trim(before(was[k], COLON))) == "content-type".spec_bytes();
                    assert(now[k] == was[k]);
                    assert(sets_content_type(now));
                } else {
                    if sets_content_type(now) {
                        let k = choose|k: int|
                            0 <= k < now.len() && first_index(#[trigger] now[k], COLON) < now[k].len()
                                && lower(trim(before(now[k], COLON))) == "content-type".spec_bytes();
                        if k < i {
                            assert(was[k] == now[k]);
                            assert(sets_content_type(was));
                        }
                    }
                }
            }
            typed = typed || names_type;
            i += 1;
        }
        proof {
            assert(all.take(i as int) =~= all);
        }
        if !typed {
            res.set_header("Content-Type".as_bytes(), "text/html".as_bytes());
        }
        let _ = res.write(body.as_slice());
    } else {
        proof {
            assert(!sets_content_type(Seq::<Seq<u8>>::empty()));
        }
        res.set_header("Content-Type".as_bytes(), "text/html".as_bytes());
        let _ = res.write(data);
    }
}

/// The answer to a request whose method the server does not know: 405,
/// with the methods that it does know under `Allow`.
pub fn method_not_allowed(req: Request) -> (res: Response)
    ensures
        res@ == (ResponseSpec {
            req: req@,
            sent: false,
            body: Seq::empty(),
            headers: seq![("Allow".spec_bytes(), "GET,HEAD,POST".spec_bytes())],
            status: HTTPStatus::MethodNotAllowed,
        }),
        res.wf(),
{
    let mut res = Response::new(req);
    res.set_header("Allow".as_bytes(), "GET,HEAD,POST".as_bytes());
    res.set_status(HTTPStatus::MethodNotAllowed);
    proof {
        crate::text::lemma_first_at_is_first(
            Seq::<(Seq<u8>, Seq<u8>)>::empty(),
            crate::http::at_key("Allow".spec_bytes()),
        );
        assert(res@.headers =~= seq![("Allow".spec_bytes(), "GET,HEAD,POST".spec_bytes())]);
    }
    res
}

/// The answer where nothing is found: 404 with a short body.
pub fn not_found(req: Request, body: &str) -> (res: Response)
    ensures
        res@ == (ResponseSpec {
            req: req@,
            sent: false,
            body: body.spec_bytes(),
            headers: Seq::empty(),
            status: HTTPStatus::NotFound,
        }),
        res.wf(),
{
    let mut res = Response::new(req);
    res.set_status(HTTPStatus::NotFound);
    let _ = res.write(body.as_bytes());
    proof {
        assert(res@.body =~= body.spec_bytes());
    }
    res
}

/// The answer where the server failed: 500 with a short body that tells
/// nothing of the failure.
pub fn server_error(req: Request) -> (res: Response)
    ensures
        res@ == (ResponseSpec {
            req: req@,
            sent: false,
            body: crate::http::codes::SERVER_ERROR.spec_bytes(),
            headers: Seq::empty(),
            status: HTTPStatus::ServerError,
        }),
        res.wf(),
{
    let mut res = Response::new(req);
    res.set_status(HTTPStatus::ServerError);
    let _ = res.write(crate::http::codes::SERVER_ERROR.as_bytes());
    proof {
        assert(res@.body =~= crate::http::codes::SERVER_ERROR.spec_bytes());
    }
    res
}

/// Settles the status of a response that a handler left as it was made:
/// 202 Accepted becomes 200 OK, and any other status stays.
pub fn settle_status(res: &mut Response)
    ensures
        final(res)@ == (ResponseSpec {
            status: if old(res)@.status == HTTPStatus::Accepted {
                HTTPStatus::OK
            } else {
                old(res)@.status
            },
            ..old(res)@
        }),
        final(res).wf() == old(res).wf(),
{
    match res.get_status() {
        HTTPStatus::Accepted => {
            res.set_status(HTTPStatus::OK);
        },
        _ => {},
    }
}

} // verus!
