//! Request handling: which operation a method and path name, and the
//! response each operation gives.
use vstd::prelude::*;
use crate::ident::{is_random_id, parse_id, parsed_id};
use crate::store::{
    after_create, after_decrement, after_increment, counter_in, is_listing, Counter, Store,
};

verus! {

/// Status code of a successful request.
pub const STATUS_OK: u16 = 200;

/// Status code of a request whose identifier cannot be read.
pub const STATUS_BAD_REQUEST: u16 = 400;

/// Status code of a request for a route or a counter that does not exist.
pub const STATUS_NOT_FOUND: u16 = 404;

/// The byte `/`, which separates path segments.
pub const SLASH: u8 = 47;

/// The request methods that the routes tell apart.
#[derive(Clone, Copy, Debug, PartialEq, Eq, Structural)]
pub enum Method {
    Get,
    Post,
    Put,
    Other,
}

/// What a path names, with the identifier text where it holds one.
pub enum Target {
    Index,
    Counters,
    Counter(Seq<u8>),
    Increment(Seq<u8>),
    Decrement(Seq<u8>),
    Unknown,
}

/// A path, resolved: the executable counterpart of `Target`.
#[derive(Debug)]
pub enum Route {
    Index,
    Counters,
    Counter(Vec<u8>),
    Increment(Vec<u8>),
    Decrement(Vec<u8>),
    Unknown,
}

impl View for Route {
    type V = Target;

    open spec fn view(&self) -> Target {
        match self {
            Route::Index => Target::Index,
            Route::Counters => Target::Counters,
            Route::Counter(t) => Target::Counter(t@),
            Route::Increment(t) => Target::Increment(t@),
            Route::Decrement(t) => Target::Decrement(t@),
            Route::Unknown => Target::Unknown,
        }
    }
}

/// The path of the counter collection, `/counter`.
pub open spec fn counters_path() -> Seq<u8> {
    seq![SLASH, 99u8, 111u8, 117u8, 110u8, 116u8, 101u8, 114u8]
}

/// The path tail that asks for an increment, `/increment`.
pub open spec fn increment_tail() -> Seq<u8> {
    seq![SLASH, 105u8, 110u8, 99u8, 114u8, 101u8, 109u8, 101u8, 110u8, 116u8]
}

/// The path tail that asks for a decrement, `/decrement`.
pub open spec fn decrement_tail() -> Seq<u8> {
    seq![SLASH, 100u8, 101u8, 99u8, 114u8, 101u8, 109u8, 101u8, 110u8, 116u8]
}

/// What the path `p` names: `/`, `/counter`, `/counter/{id}`,
/// `/counter/{id}/increment` or `/counter/{id}/decrement`, where `{id}` is a
/// non-empty segment without `/`; anything else is unknown.
pub open spec fn target_of(p: Seq<u8>) -> Target {
    let n = p.len();
    if p == seq![SLASH] {
        Target::Index
    } else if n < 8 || p.subrange(0, 8) != counters_path() {
        Target::Unknown
    } else if n == 8 {
        Target::Counters
    } else if p[8] != SLASH || n == 9 {
        Target::Unknown
    } else if !p.subrange(9, n as int).contains(SLASH) {
        Target::Counter(p.subrange(9, n as int))
    } else if n > 19 && !p.subrange(9, n - 10).contains(SLASH) {
        if p.subrange(n - 10, n as int) == increment_tail() {
            Target::Increment(p.subrange(9, n - 10))
        } else if p.subrange(n - 10, n as int) == decrement_tail() {
            Target::Decrement(p.subrange(9, n - 10))
        } else {
            Target::Unknown
        }
    } else {
        Target::Unknown
    }
}

/// Whether `p` holds `lit` starting at `start`.
fn holds_at(p: &[u8], start: usize, lit: &Vec<u8>) -> (r: bool)
    requires
        start + lit@.len() <= p@.len(),
    ensures
        r == (p@.subrange(start as int, start + lit@.len()) == lit@),
{
    let len: usize = p.len();
    let mut i: usize = 0;
    while i < lit.len()
        invariant
            len == p@.len(),
            start + lit@.len() <= p@.len(),
            0 <= i <= lit@.len(),
            forall|j: int| 0 <= j < i ==> p@[start + j] == lit@[j],
        decreases lit@.len() - i,
    {
        if p[start + i] != lit[i] {
            assert(p@.subrange(start as int, start + lit@.len())[i as int] != lit@[i as int]);
            return false;
        }
        i += 1;
    }
    assert(p@.subrange(start as int, start + lit@.len()) =~= lit@);
    true
}

/// Whether a `/` stands in `p` between `lo` and `hi`.
fn has_slash(p: &[u8], lo: usize, hi: usize) -> (r: bool)
    requires
        lo <= hi <= p@.len(),
    ensures
        r == p@.subrange(lo as int, hi as int).contains(SLASH),
{
    let mut i: usize = lo;
    while i < hi
        invariant
            lo <= i <= hi <= p@.len(),
            forall|j: int| lo <= j < i ==> p@[j] != SLASH,
        decreases hi - i,
    {
        if p[i] == SLASH {
            assert(p@.subrange(lo as int, hi as int)[i - lo] == SLASH);
            return true;
        }
        i += 1;
    }
    assert forall|j: int| 0 <= j < hi - lo implies p@.subrange(lo as int, hi as int)[j] != SLASH by {
        assert(p@[lo + j] != SLASH);
    }
    false
}

/// The bytes of `p` between `lo` and `hi`.
fn copy_range(p: &[u8], lo: usize, hi: usize) -> (r: Vec<u8>)
    requires
        lo <= hi <= p@.len(),
    ensures
        r@ == p@.subrange(lo as int, hi as int),
{
    let mut out: Vec<u8> = Vec::new();
    let mut i: usize = lo;
    while i < hi
        invariant
            lo <= i <= hi <= p@.len(),
            out@ == p@.subrange(lo as int, i as int),
        decreases hi - i,
    {
        out.push(p[i]);
        i += 1;
        assert(out@ =~= p@.subrange(lo as int, i as int));
    }
    out
}

/// Resolves a request path.
pub fn route(path: &[u8]) -> (r: Route)
    ensures
        r@ == target_of(path@),
{
    let n = path.len();
    if n == 1 && path[0] == SLASH {
        assert(path@ =~= seq![SLASH]);
        return Route::Index;
    }
    assert(path@ != seq![SLASH]);
    let counters: Vec<u8> = vec![SLASH, 99u8, 111u8, 117u8, 110u8, 116u8, 101u8, 114u8];
    assert(counters@ =~= counters_path());
    if n < 8 || !holds_at(path, 0, &counters) {
        return Route::Unknown;
    }
    if n == 8 {
        return Route::Counters;
    }
    if path[8] != SLASH || n == 9 {
        return Route::Unknown;
    }
    if !has_slash(path, 9, n) {
        return Route::Counter(copy_range(path, 9, n));
    }
    if n > 19 && !has_slash(path, 9, n - 10) {
        let increment: Vec<u8> = vec![SLASH, 105u8, 110u8, 99u8, 114u8, 101u8, 109u8, 101u8, 110u8, 116u8];
        let decrement: Vec<u8> = vec![SLASH, 100u8, 101u8, 99u8, 114u8, 101u8, 109u8, 101u8, 110u8, 116u8];
        assert(increment@ =~= increment_tail());
        assert(decrement@ =~= decrement_tail());
        if holds_at(path, n - 10, &increment) {
            return Route::Increment(copy_range(path, 9, n - 10));
        }
        if holds_at(path, n - 10, &decrement) {
            return Route::Decrement(copy_range(path, 9, n - 10));
        }
    }
    Route::Unknown
}

/// The content of a response.
#[derive(Debug)]
pub enum Body {
    /// The service's welcome status.
    Welcome,
    /// One counter.
    Counter(Counter),
    /// Every counter.
    Counters(Vec<Counter>),
    /// The route or counter asked for does not exist.
    NotFound,
    /// The identifier in the path cannot be read.
    BadRequest,
}

/// A status code and the content that goes with it.
#[derive(Debug)]
pub struct Response {
    pub status: u16,
    pub body: Body,
}

/// The response to a route or counter that does not exist.
pub open spec fn is_not_found(r: Response) -> bool {
    r.status == STATUS_NOT_FOUND && r.body is NotFound
}

/// The response to an identifier that cannot be read.
pub open spec fn is_bad_request(r: Response) -> bool {
    r.status == STATUS_BAD_REQUEST && r.body is BadRequest
}

/// The response that carries the counter `c`.
pub open spec fn is_counter(r: Response, c: Counter) -> bool {
    r.status == STATUS_OK && r.body == Body::Counter(c)
}

/// `r` is the response to `method` on `target`, with the store `before`
/// going to `after`. Reads leave the store as it was; a malformed identifier
/// gives 400, an unknown counter or route 404.
pub open spec fn is_response(
    method: Method,
    target: Target,
    before: Map<u128, u32>,
    after: Map<u128, u32>,
    r: Response,
) -> bool {
    match (method, target) {
        (Method::Get, Target::Index) => after == before && r.status == STATUS_OK && r.body is Welcome,
        (Method::Get, Target::Counters) => {
            &&& after == before
            &&& r.status == STATUS_OK
            &&& r.body matches Body::Counters(v) && is_listing(before, v@)
        },
        (Method::Post, Target::Counters) => match r.body {
            Body::Counter(c) => {
                &&& r.status == STATUS_OK
                &&& c.value == 0
                &&& is_random_id(c.id)
                &&& after == after_create(before, c.id)
            },
            _ => false,
        },
        (Method::Get, Target::Counter(t)) => after == before && match parsed_id(t) {
            None => is_bad_request(r),
            Some(id) => match counter_in(before, id) {
                Some(c) => is_counter(r, c),
                None => is_not_found(r),
            },
        },
        (Method::Put, Target::Increment(t)) => match parsed_id(t) {
            None => after == before && is_bad_request(r),
            Some(id) => after == after_increment(before, id) && is_counter(
                r,
                Counter { id, value: after[id] },
            ),
        },
        (Method::Put, Target::Decrement(t)) => match parsed_id(t) {
            None => after == before && is_bad_request(r),
            Some(id) => after == after_decrement(before, id) && is_counter(
                r,
                Counter { id, value: after[id] },
            ),
        },
        _ => after == before && is_not_found(r),
    }
}

fn not_found() -> (r: Response)
    ensures
        is_not_found(r),
{
    Response { status: STATUS_NOT_FOUND, body: Body::NotFound }
}

fn bad_request() -> (r: Response)
    ensures
        is_bad_request(r),
{
    Response { status: STATUS_BAD_REQUEST, body: Body::BadRequest }
}

fn counter_response(c: Counter) -> (r: Response)
    ensures
        is_counter(r, c),
{
    Response { status: STATUS_OK, body: Body::Counter(c) }
}

/// Handles one request on the store: resolves the path, reads the identifier
/// it holds, and performs the operation that the method and path name.
pub fn handle(store: &mut Store, method: Method, path: &[u8]) -> (r: Response)
    requires
        old(store).wf(),
    ensures
        final(store).wf(),
        is_response(method, target_of(path@), old(store)@, final(store)@, r),
{
    match (method, route(path)) {
        (Method::Get, Route::Index) => Response { status: STATUS_OK, body: Body::Welcome },
        (Method::Get, Route::Counters) => Response {
            status: STATUS_OK,
            body: Body::Counters(store.list()),
        },
        (Method::Post, Route::Counters) => counter_response(store.create()),
        (Method::Get, Route::Counter(t)) => match parse_id(&t) {
            None => bad_request(),
            Some(id) => match store.get(id) {
                Some(c) => counter_response(c),
                None => not_found(),
            },
        },
        (Method::Put, Route::Increment(t)) => match parse_id(&t) {
            None => bad_request(),
            Some(id) => counter_response(store.increment(id)),
        },
        (Method::Put, Route::Decrement(t)) => match parse_id(&t) {
            None => bad_request(),
            Some(id) => counter_response(store.decrement(id)),
        },
        _ => not_found(),
    }
}

} // verus!
