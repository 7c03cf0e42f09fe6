//! Routes through the sensor tree.

use crate::text::{
    all_digits, chars_of, decimal, digits_value, is_digit, lemma_decimal_digits, parse_digits,
    push_decimal, string_of,
};
use vstd::prelude::*;

verus! {

/// The deepest route a packet can carry.
pub const MAX_ROUTING_SIZE: usize = 8;

/// The largest child index; the next byte value ends a route on the wire.
pub const MAX_HOP: u8 = 254;

/// Why a route could not be made.
#[derive(Clone, Copy, Debug, PartialEq, Eq, Structural)]
pub enum RouteError {
    /// A segment of the text is not a child index.
    InvalidSyntax,
    /// More levels than a packet can carry.
    DepthExceeded,
    /// The other route does not lie under this one.
    NotWithin,
}

/// Whether a sequence of child indices is a route: at most eight levels,
/// every index at most 254.
pub open spec fn valid_hops(hops: Seq<u8>) -> bool {
    &&& hops.len() <= MAX_ROUTING_SIZE
    &&& forall|i: int| 0 <= i < hops.len() ==> #[trigger] hops[i] <= MAX_HOP
}

/// The text of a route below the root: each index in decimal after a slash.
/// The root gives the empty text.
pub open spec fn route_text(hops: Seq<u8>) -> Seq<char>
    decreases hops.len(),
{
    if hops.len() == 0 {
        Seq::<char>::empty()
    } else {
        route_text(hops.drop_last()).push('/') + decimal(hops.last() as nat)
    }
}

/// How a route is displayed: a lone slash for the root, else `route_text`.
pub open spec fn route_display(hops: Seq<u8>) -> Seq<char> {
    if hops.len() == 0 {
        seq!['/']
    } else {
        route_text(hops)
    }
}

/// Position of the first slash in `s`, or the length of `s` if it has none.
pub open spec fn first_slash(s: Seq<char>) -> int
    decreases s.len(),
{
    if s.len() == 0 {
        0
    } else if s[0] == '/' {
        0
    } else {
        1 + first_slash(s.skip(1))
    }
}

/// Whether a segment of route text is a child index: a non-empty run of
/// digits that denotes at most 254.
pub open spec fn valid_segment(seg: Seq<char>) -> bool {
    &&& seg.len() > 0
    &&& all_digits(seg)
    &&& digits_value(seg) <= MAX_HOP
}

/// Reads slash-separated child indices from `body`, `depth` of them having
/// been read before. The first fault from the left decides the error: a
/// segment beyond the eighth level, or one that is not a child index.
pub open spec fn parse_hops(body: Seq<char>, depth: nat) -> Result<Seq<u8>, RouteError>
    decreases body.len(),
{
    let end = first_slash(body);
    let seg = body.take(end);
    if depth >= MAX_ROUTING_SIZE {
        Err(RouteError::DepthExceeded)
    } else if !valid_segment(seg) {
        Err(RouteError::InvalidSyntax)
    } else if !(0 <= end < body.len()) {
        Ok(seq![digits_value(seg) as u8])
    } else {
        match parse_hops(body.skip(end + 1), depth + 1) {
            Ok(rest) => Ok(seq![digits_value(seg) as u8] + rest),
            Err(e) => Err(e),
        }
    }
}

/// The route that a text denotes. One leading slash is optional; what is left
/// after it is empty for the root, else child indices separated by slashes.
pub open spec fn parse_route(s: Seq<char>) -> Result<Seq<u8>, RouteError> {
    let body = if s.len() > 0 && s[0] == '/' {
        s.skip(1)
    } else {
        s
    };
    if body.len() == 0 {
        Ok(Seq::<u8>::empty())
    } else {
        parse_hops(body, 0)
    }
}

/// What `relative_route` yields: the part of `other` below `base`, if `other`
/// lies under `base`.
pub open spec fn relative_hops(base: Seq<u8>, other: Seq<u8>) -> Option<Seq<u8>> {
    if base.is_prefix_of(other) {
        Some(other.skip(base.len() as int))
    } else {
        None
    }
}

/// Strict lexicographic order on routes.
pub open spec fn hops_before(a: Seq<u8>, b: Seq<u8>) -> bool
    decreases a.len(),
{
    if b.len() == 0 {
        false
    } else if a.len() == 0 {
        true
    } else if a[0] != b[0] {
        a[0] < b[0]
    } else {
        hops_before(a.skip(1), b.skip(1))
    }
}

/// Where a device sits in the sensor tree: the child index taken at each level,
/// starting from the root. The empty route is the root itself.
#[derive(Debug)]
pub struct DeviceRoute {
    hops: Vec<u8>,
}

impl View for DeviceRoute {
    type V = Seq<u8>;

    closed spec fn view(&self) -> Seq<u8> {
        self.hops@
    }
}

impl Clone for DeviceRoute {
    fn clone(&self) -> (r: Self)
        ensures
            r@ == self@,
    {
        proof {
            use_type_invariant(self);
        }
        DeviceRoute { hops: self.hops.clone() }
    }
}

impl DeviceRoute {
    #[verifier::type_invariant]
    spec fn well_formed(&self) -> bool {
        valid_hops(self.hops@)
    }

    /// The route of the root device.
    pub fn root() -> (r: DeviceRoute)
        ensures
            r@ == Seq::<u8>::empty(),
    {
        DeviceRoute { hops: Vec::new() }
    }

    /// The route with the given child indices, if they form one.
    pub fn from_hops(hops: &Vec<u8>) -> (r: Result<DeviceRoute, RouteError>)
        ensures
            valid_hops(hops@) ==> r is Ok && r->Ok_0@ == hops@,
            hops@.len() > MAX_ROUTING_SIZE ==> r == Err::<DeviceRoute, _>(
                RouteError::DepthExceeded,
            ),
            hops@.len() <= MAX_ROUTING_SIZE && !valid_hops(hops@) ==> r == Err::<DeviceRoute, _>(
                RouteError::InvalidSyntax,
            ),
    {
        if hops.len() > MAX_ROUTING_SIZE {
            return Err(RouteError::DepthExceeded);
        }
        let mut out: Vec<u8> = Vec::new();
        let mut i: usize = 0;
        while i < hops.len()
            invariant
                i <= hops.len() <= MAX_ROUTING_SIZE,
                out@ == hops@.take(i as int),
                valid_hops(out@),
            decreases hops.len() - i,
        {
            if hops[i] > MAX_HOP {
                return Err(RouteError::InvalidSyntax);
            }
            out.push(hops[i]);
            proof {
                assert(out@ =~= hops@.take(i + 1));
            }
            i += 1;
        }
        proof {
            assert(hops@.take(hops.len() as int) =~= hops@);
        }
        Ok(DeviceRoute { hops: out })
    }

    /// Number of levels below the root. Every route is at most eight levels
    /// deep, with indices of at most 254.
    pub fn len(&self) -> (n: usize)
        ensures
            n == self@.len(),
            n <= MAX_ROUTING_SIZE,
            valid_hops(self@),
    {
        proof {
            use_type_invariant(self);
        }
        self.hops.len()
    }

    /// Whether this is the root.
    pub fn is_root(&self) -> (r: bool)
        ensures
            r == (self@.len() == 0),
    {
        self.hops.len() == 0
    }

    /// The child index taken at level `i`.
    pub fn hop(&self, i: usize) -> (h: u8)
        requires
            i < self@.len(),
        ensures
            h == self@[i as int],
            h <= MAX_HOP,
    {
        proof {
            use_type_invariant(self);
        }
        self.hops[i]
    }

    /// The child indices, root first.
    pub fn hops(&self) -> (h: Vec<u8>)
        ensures
            h@ == self@,
    {
        self.hops.clone()
    }

    /// Reads a route from text such as `/`, `/0` or `/0/1`.
    pub fn from_str(s: &str) -> (r: Result<DeviceRoute, RouteError>)
        ensures
            match parse_route(s@) {
                Ok(hops) => r is Ok && r->Ok_0@ == hops,
                Err(e) => r == Err::<DeviceRoute, _>(e),
            },
    {
        let cs = chars_of(s);
        let start: usize = if cs.len() > 0 && cs[0] == '/' {
            1
        } else {
            0
        };
        let ghost body = cs@.skip(start as int);
        if start == cs.len() {
            return Ok(DeviceRoute::root());
        }
        let mut hops: Vec<u8> = Vec::new();
        let mut pos: usize = start;
        proof {
            assert(body.len() > 0);
            if start == 0 {
                assert(body =~= s@);
            }
            assert(parse_route(s@) == parse_hops(body, 0));
            match parse_hops(body, 0) {
                Ok(t) => {
                    assert(hops@ + t =~= t);
                },
                Err(_) => {},
            }
        }
        loop
            invariant
                start <= pos < cs.len(),
                body == cs@.skip(start as int),
                parse_route(s@) == parse_hops(body, 0),
                valid_hops(hops@),
                parse_hops(body, 0) == prepend_hops(
                    hops@,
                    parse_hops(cs@.skip(pos as int), hops@.len()),
                ),
            decreases cs.len() - pos,
        {
            let ghost rest = cs@.skip(pos as int);
            if hops.len() >= MAX_ROUTING_SIZE {
                return Err(RouteError::DepthExceeded);
            }
            let mut end: usize = pos;
            while end < cs.len() && cs[end] != '/'
                invariant
                    pos <= end <= cs.len(),
                    forall|k: int| pos <= k < end ==> cs@[k] != '/',
                decreases cs.len() - end,
            {
                end += 1;
            }
            proof {
                lemma_first_slash(rest, (end - pos) as int);
                assert(rest.take((end - pos) as int) =~= cs@.subrange(pos as int, end as int));
            }
            let v = match parse_digits(&cs, pos, end, MAX_HOP as u64) {
                Some(v) => v,
                None => {
                    return Err(RouteError::InvalidSyntax);
                },
            };
            let ghost before = hops@;
            hops.push(v as u8);
            if end == cs.len() {
                proof {
                    assert(before + seq![v as u8] =~= hops@);
                }
                return Ok(DeviceRoute { hops });
            }
            proof {
                assert(rest.skip(end - pos + 1) =~= cs@.skip(end + 1));
                let tail = parse_hops(cs@.skip(end + 1), before.len() + 1);
                match tail {
                    Ok(t) => {
                        assert(before + (seq![v as u8] + t) =~= hops@ + t);
                    },
                    Err(_) => {},
                }
            }
            pos = end + 1;
            if pos == cs.len() {
                proof {
                    let empty = cs@.skip(pos as int);
                    assert(empty.len() == 0);
                    assert(empty.take(first_slash(empty)).len() == 0);
                }
                if hops.len() >= MAX_ROUTING_SIZE {
                    return Err(RouteError::DepthExceeded);
                }
                return Err(RouteError::InvalidSyntax);
            }
        }
    }

    /// Appends `route_text` of this route to `out`: nothing for the root.
    pub fn push_text(&self, out: &mut Vec<char>)
        ensures
            final(out)@ == old(out)@ + route_text(self@),
    {
        let ghost before = out@;
        let mut i: usize = 0;
        proof {
            assert(self.hops@.take(0) =~= Seq::<u8>::empty());
            assert(before + route_text(self.hops@.take(0)) =~= before);
        }
        while i < self.hops.len()
            invariant
                i <= self.hops.len(),
                out@ == before + route_text(self.hops@.take(i as int)),
            decreases self.hops.len() - i,
        {
            let ghost mid = out@;
            proof {
                let next = self.hops@.take(i + 1);
                assert(next.drop_last() =~= self.hops@.take(i as int));
                assert(next.last() == self.hops@[i as int]);
            }
            out.push('/');
            push_decimal(out, self.hops[i] as u64);
            proof {
                let prev = route_text(self.hops@.take(i as int));
                let d = decimal(self.hops@[i as int] as nat);
                assert((before + prev).push('/') + d =~= before + (prev.push('/') + d));
            }
            i += 1;
        }
        proof {
            assert(self.hops@.take(self.hops.len() as int) =~= self.hops@);
        }
    }

    /// The text of this route: `/` for the root, else each index after a slash.
    pub fn to_string(&self) -> (s: String)
        ensures
            s@ == route_display(self@),
    {
        let mut out: Vec<char> = Vec::new();
        if self.hops.len() == 0 {
            out.push('/');
            proof {
                assert(out@ =~= seq!['/']);
            }
        } else {
            self.push_text(&mut out);
            proof {
                assert(Seq::<char>::empty() + route_text(self@) =~= route_text(self@));
            }
        }
        string_of(&out)
    }

    /// The route from this device down to `other`, or `NotWithin` if `other`
    /// does not lie under this device.
    pub fn relative_route(&self, other: &DeviceRoute) -> (r: Result<DeviceRoute, RouteError>)
        ensures
            match relative_hops(self@, other@) {
                Some(hops) => r is Ok && r->Ok_0@ == hops,
                None => r == Err::<DeviceRoute, _>(RouteError::NotWithin),
            },
    {
        proof {
            use_type_invariant(self);
            use_type_invariant(other);
        }
        if self.hops.len() > other.hops.len() {
            return Err(RouteError::NotWithin);
        }
        let n = self.hops.len();
        let mut i: usize = 0;
        while i < n
            invariant
                i <= n,
                n == self.hops.len(),
                n <= other.hops.len(),
                self.hops@.take(i as int) == other.hops@.take(i as int),
            decreases n - i,
        {
            if self.hops[i] != other.hops[i] {
                proof {
                    if self@.is_prefix_of(other@) {
                        assert(self@[i as int] == other@[i as int]);
                    }
                }
                return Err(RouteError::NotWithin);
            }
            proof {
                assert(self.hops@.take(i + 1) =~= self.hops@.take(i as int).push(
                    self.hops@[i as int],
                ));
                assert(other.hops@.take(i + 1) =~= other.hops@.take(i as int).push(
                    other.hops@[i as int],
                ));
            }
            i += 1;
        }
        proof {
            assert(self.hops@.take(n as int) =~= self.hops@);
            assert(self@ =~= other@.subrange(0, n as int));
        }
        let mut rest: Vec<u8> = Vec::new();
        let mut j: usize = n;
        while j < other.hops.len()
            invariant
                n <= j <= other.hops.len(),
                rest@ == other.hops@.subrange(n as int, j as int),
                valid_hops(other.hops@),
            decreases other.hops.len() - j,
        {
            rest.push(other.hops[j]);
            proof {
                assert(rest@ =~= other.hops@.subrange(n as int, j + 1));
            }
            j += 1;
        }
        proof {
            assert(rest@ =~= other@.skip(n as int));
        }
        Ok(DeviceRoute { hops: rest })
    }

    /// The route of child `index` of this device.
    pub fn child(&self, index: u8) -> (r: Result<DeviceRoute, RouteError>)
        ensures
            self@.len() >= MAX_ROUTING_SIZE ==> r == Err::<DeviceRoute, _>(
                RouteError::DepthExceeded,
            ),
            self@.len() < MAX_ROUTING_SIZE && index > MAX_HOP ==> r == Err::<DeviceRoute, _>(
                RouteError::InvalidSyntax,
            ),
            self@.len() < MAX_ROUTING_SIZE && index <= MAX_HOP ==> r is Ok && r->Ok_0@
                == self@.push(index),
    {
        proof {
            use_type_invariant(self);
        }
        if self.hops.len() >= MAX_ROUTING_SIZE {
            return Err(RouteError::DepthExceeded);
        }
        if index > MAX_HOP {
            return Err(RouteError::InvalidSyntax);
        }
        let mut hops = self.hops.clone();
        hops.push(index);
        Ok(DeviceRoute { hops })
    }

    /// Whether both routes name the same device.
    pub fn equals(&self, other: &DeviceRoute) -> (r: bool)
        ensures
            r == (self@ == other@),
    {
        if self.hops.len() != other.hops.len() {
            return false;
        }
        let mut i: usize = 0;
        while i < self.hops.len()
            invariant
                i <= self.hops.len(),
                self.hops.len() == other.hops.len(),
                self.hops@.take(i as int) == other.hops@.take(i as int),
            decreases self.hops.len() - i,
        {
            if self.hops[i] != other.hops[i] {
                return false;
            }
            proof {
                assert(self.hops@.take(i + 1) =~= self.hops@.take(i as int).push(
                    self.hops@[i as int],
                ));
                assert(other.hops@.take(i + 1) =~= other.hops@.take(i as int).push(
                    other.hops@[i as int],
                ));
            }
            i += 1;
        }
        proof {
            assert(self.hops@.take(self.hops.len() as int) =~= self.hops@);
            assert(other.hops@.take(other.hops.len() as int) =~= other.hops@);
        }
        true
    }

    /// Whether this route comes strictly before `other` in lexicographic order.
    pub fn precedes(&self, other: &DeviceRoute) -> (r: bool)
        ensures
            r == hops_before(self@, other@),
    {
        let mut i: usize = 0;
        proof {
            assert(self.hops@.skip(0) =~= self@);
            assert(other.hops@.skip(0) =~= other@);
        }
        loop
            invariant
                i <= self.hops.len(),
                i <= other.hops.len(),
                hops_before(self@, other@) == hops_before(
                    self.hops@.skip(i as int),
                    other.hops@.skip(i as int),
                ),
            decreases self.hops.len() - i,
        {
            let ghost a = self.hops@.skip(i as int);
            let ghost b = other.hops@.skip(i as int);
            if i == other.hops.len() {
                return false;
            }
            if i == self.hops.len() {
                return true;
            }
            if self.hops[i] != other.hops[i] {
                return self.hops[i] < other.hops[i];
            }
            proof {
                assert(a.skip(1) =~= self.hops@.skip(i + 1));
                assert(b.skip(1) =~= other.hops@.skip(i + 1));
            }
            i += 1;
        }
    }
}

/// A route below which `other` lies is followed, in `other`, by exactly the
/// relative route; a route below which it does not lie has none.
pub proof fn lemma_relative_route(base: Seq<u8>, other: Seq<u8>)
    ensures
        base.is_prefix_of(other) ==> relative_hops(base, other) == Some(
            other.skip(base.len() as int),
        ) && base + other.skip(base.len() as int) == other,
        !base.is_prefix_of(other) ==> relative_hops(base, other) is None,
{
    if base.is_prefix_of(other) {
        assert(base + other.skip(base.len() as int) =~= other);
    }
}

/// The relative route from `base` to a device `rest` below it is `rest`, for
/// whatever `base` and `rest`.
pub proof fn lemma_relative_of_joined(base: Seq<u8>, rest: Seq<u8>)
    ensures
        relative_hops(base, base + rest) == Some(rest),
{
    let joined = base + rest;
    assert(joined.subrange(0, base.len() as int) =~= base);
    assert(joined.skip(base.len() as int) =~= rest);
}

/// Puts the indices read so far in front of what the rest of the text gives.
pub open spec fn prepend_hops(head: Seq<u8>, tail: Result<Seq<u8>, RouteError>) -> Result<
    Seq<u8>,
    RouteError,
> {
    match tail {
        Ok(rest) => Ok(head + rest),
        Err(e) => Err(e),
    }
}

/// A text whose first `k` characters are no slashes, and which ends there or
/// has a slash there, has its first slash at `k`.
pub proof fn lemma_first_slash(s: Seq<char>, k: int)
    requires
        0 <= k <= s.len(),
        forall|j: int| 0 <= j < k ==> s[j] != '/',
        k == s.len() || s[k] == '/',
    ensures
        first_slash(s) == k,
    decreases k,
{
    if k > 0 {
        let t = s.skip(1);
        assert forall|j: int| 0 <= j < k - 1 implies t[j] != '/' by {
            assert(t[j] == s[j + 1]);
        }
        lemma_first_slash(t, k - 1);
    }
}

/// The text of a route below the root begins with a slash and the first
/// child index; the text of the rest of the route follows.
pub proof fn lemma_route_text_first(hops: Seq<u8>)
    requires
        hops.len() > 0,
    ensures
        route_text(hops) == seq!['/'] + decimal(hops[0] as nat) + route_text(hops.skip(1)),
    decreases hops.len(),
{
    if hops.len() == 1 {
        assert(hops.drop_last() =~= Seq::<u8>::empty());
        assert(hops.skip(1) =~= Seq::<u8>::empty());
        assert(route_text(hops) =~= seq!['/'] + decimal(hops[0] as nat) + route_text(
            hops.skip(1),
        ));
    } else {
        let front = hops.drop_last();
        lemma_route_text_first(front);
        assert(front.skip(1) =~= hops.skip(1).drop_last());
        assert(hops.skip(1).last() == hops.last());
        assert(route_text(hops) =~= seq!['/'] + decimal(hops[0] as nat) + route_text(
            hops.skip(1),
        ));
    }
}

/// Reading the text of a route gives the route back.
pub proof fn lemma_text_round_trip(hops: Seq<u8>)
    requires
        valid_hops(hops),
    ensures
        parse_route(route_display(hops)) == Ok::<_, RouteError>(hops),
{
    if hops.len() == 0 {
        assert(route_display(hops).skip(1) =~= Seq::<char>::empty());
        assert(hops =~= Seq::<u8>::empty());
    } else {
        lemma_route_text_first(hops);
        lemma_body_round_trip(hops, 0);
    }
}

/// Reading the text of a route below the root, without its first slash, as
/// child indices gives the route back, at whatever depth leaves room for it.
pub proof fn lemma_body_round_trip(hops: Seq<u8>, depth: nat)
    requires
        valid_hops(hops),
        hops.len() > 0,
        depth + hops.len() <= MAX_ROUTING_SIZE,
    ensures
        parse_hops(route_text(hops).skip(1), depth) == Ok::<_, RouteError>(hops),
    decreases hops.len(),
{
    let first = decimal(hops[0] as nat);
    let rest = route_text(hops.skip(1));
    let body = route_text(hops).skip(1);
    lemma_route_text_first(hops);
    lemma_decimal_digits(hops[0] as nat);
    assert(body =~= first + rest);
    if hops.len() > 1 {
        lemma_route_text_first(hops.skip(1));
        assert(rest[0] == '/');
    } else {
        assert(hops.skip(1) =~= Seq::<u8>::empty());
        assert(rest =~= Seq::<char>::empty());
    }
    assert forall|j: int| 0 <= j < first.len() implies body[j] != '/' by {
        assert(body[j] == first[j]);
        assert(is_digit(first[j]));
    }
    lemma_first_slash(body, first.len() as int);
    assert(body.take(first.len() as int) =~= first);
    if hops.len() == 1 {
        assert(hops =~= seq![hops[0]]);
    } else {
        let tail = hops.skip(1);
        assert(valid_hops(tail)) by {
            assert forall|i: int| 0 <= i < tail.len() implies #[trigger] tail[i] <= MAX_HOP by {
                assert(tail[i] == hops[i + 1]);
            }
        }
        lemma_body_round_trip(tail, depth + 1);
        assert(body.skip(first.len() as int + 1) =~= rest.skip(1));
        assert(seq![hops[0]] + tail =~= hops);
    }
}

/// No route comes before itself.
pub proof fn lemma_before_irreflexive(a: Seq<u8>)
    ensures
        !hops_before(a, a),
    decreases a.len(),
{
    if a.len() > 0 {
        lemma_before_irreflexive(a.skip(1));
    }
}

/// Of two different routes one comes before the other.
pub proof fn lemma_before_total(a: Seq<u8>, b: Seq<u8>)
    ensures
        hops_before(a, b) || hops_before(b, a) || a == b,
        !(hops_before(a, b) && hops_before(b, a)),
    decreases a.len(),
{
    if a.len() == 0 || b.len() == 0 {
        if a.len() == 0 && b.len() == 0 {
            assert(a =~= b);
        }
    } else if a[0] == b[0] {
        lemma_before_total(a.skip(1), b.skip(1));
        if a.skip(1) == b.skip(1) {
            assert(a =~= seq![a[0]] + a.skip(1));
            assert(b =~= seq![b[0]] + b.skip(1));
        }
    }
}

/// A route that comes before another comes before all that the other comes
/// before.
pub proof fn lemma_before_transitive(a: Seq<u8>, b: Seq<u8>, c: Seq<u8>)
    requires
        hops_before(a, b),
        hops_before(b, c),
    ensures
        hops_before(a, c),
    decreases a.len(),
{
    if a.len() > 0 && b.len() > 0 && c.len() > 0 && a[0] == b[0] && b[0] == c[0] {
        lemma_before_transitive(a.skip(1), b.skip(1), c.skip(1));
    }
}

} // verus!
