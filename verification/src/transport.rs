//! Where the device tree is reached: the addresses that name a link.
//!
//! An address is `tcp://host` or `tcp://host:port`, `serial://path` or
//! `serial://path:baud`, or the word `auto` for the first serial device found.

use crate::cli::DEFAULT_PROXY_PORT;
use crate::text::{all_digits, chars_of, digits_value, parse_digits, push_range, string_of};
use vstd::prelude::*;

verus! {

/// Where a link leads.
#[derive(Debug, PartialEq, Eq)]
pub enum TransportUrl {
    /// A TCP connection to this host and port.
    Tcp { host: String, port: u16 },
    /// The serial device at this path, at this baud rate if one is named.
    Serial { path: String, baud: Option<u32> },
    /// The first serial device found.
    Auto,
}

/// What a `TransportUrl` holds.
pub enum TransportUrlView {
    Tcp { host: Seq<char>, port: u16 },
    Serial { path: Seq<char>, baud: Option<u32> },
    Auto,
}

impl View for TransportUrl {
    type V = TransportUrlView;

    open spec fn view(&self) -> TransportUrlView {
        match self {
            TransportUrl::Tcp { host, port } => TransportUrlView::Tcp { host: host@, port: *port },
            TransportUrl::Serial { path, baud } => TransportUrlView::Serial {
                path: path@,
                baud: *baud,
            },
            TransportUrl::Auto => TransportUrlView::Auto,
        }
    }
}

/// Why an address names no link.
#[derive(Clone, Copy, Debug, PartialEq, Eq, Structural)]
pub enum UrlError {
    /// The address begins with neither `tcp://` nor `serial://` and is not
    /// `auto`.
    UnknownScheme,
    /// Nothing stands where the host or the path belongs.
    Empty,
    /// What follows the last colon is no number of a port or baud rate.
    BadNumber,
}

/// Whether `s` begins with `prefix`.
pub open spec fn begins_with(s: Seq<char>, prefix: Seq<char>) -> bool {
    prefix.len() <= s.len() && s.subrange(0, prefix.len() as int) == prefix
}

/// Position of the last colon in `s`, or -1 if it has none.
pub open spec fn last_colon(s: Seq<char>) -> int
    decreases s.len(),
{
    if s.len() == 0 {
        -1
    } else if s.last() == ':' {
        s.len() - 1
    } else {
        last_colon(s.drop_last())
    }
}

/// What stands before the last colon of `s`: all of `s` if it has no colon.
pub open spec fn before_colon(s: Seq<char>) -> Seq<char> {
    if last_colon(s) < 0 {
        s
    } else {
        s.take(last_colon(s))
    }
}

/// The number that follows the last colon of `s`, if a colon is there: it is
/// a run of digits that denotes at most `max`.
pub open spec fn number_after_colon(s: Seq<char>, max: int) -> Option<Result<int, UrlError>> {
    let k = last_colon(s);
    if k < 0 {
        None
    } else {
        let digits = s.skip(k + 1);
        if digits.len() > 0 && all_digits(digits) && digits_value(digits) <= max {
            Some(Ok(digits_value(digits) as int))
        } else {
            Some(Err(UrlError::BadNumber))
        }
    }
}

/// The link that an address names.
pub open spec fn url_of(s: Seq<char>) -> Result<TransportUrlView, UrlError> {
    if s == "auto"@ {
        Ok(TransportUrlView::Auto)
    } else if begins_with(s, "tcp://"@) {
        let rest = s.skip(6);
        if before_colon(rest).len() == 0 {
            Err(UrlError::Empty)
        } else {
            match number_after_colon(rest, 65535) {
                None => Ok(
                    TransportUrlView::Tcp { host: before_colon(rest), port: DEFAULT_PROXY_PORT },
                ),
                Some(Ok(port)) => Ok(
                    TransportUrlView::Tcp { host: before_colon(rest), port: port as u16 },
                ),
                Some(Err(e)) => Err(e),
            }
        }
    } else if begins_with(s, "serial://"@) {
        let rest = s.skip(9);
        if before_colon(rest).len() == 0 {
            Err(UrlError::Empty)
        } else {
            match number_after_colon(rest, 4294967295) {
                None => Ok(TransportUrlView::Serial { path: before_colon(rest), baud: None }),
                Some(Ok(baud)) => Ok(
                    TransportUrlView::Serial { path: before_colon(rest), baud: Some(baud as u32) },
                ),
                Some(Err(e)) => Err(e),
            }
        }
    } else {
        Err(UrlError::UnknownScheme)
    }
}

/// Whether `cs` begins with the characters of `prefix`.
fn has_prefix(cs: &Vec<char>, prefix: &str) -> (r: bool)
    ensures
        r == begins_with(cs@, prefix@),
{
    let p = chars_of(prefix);
    if p.len() > cs.len() {
        return false;
    }
    let mut i: usize = 0;
    while i < p.len()
        invariant
            i <= p.len() <= cs.len(),
            p@ == prefix@,
            cs@.subrange(0, i as int) == p@.subrange(0, i as int),
        decreases p.len() - i,
    {
        if cs[i] != p[i] {
            proof {
                if cs@.subrange(0, p.len() as int) == p@ {
                    assert(cs@.subrange(0, p.len() as int)[i as int] == p@[i as int]);
                }
            }
            return false;
        }
        proof {
            assert(cs@.subrange(0, i + 1) =~= cs@.subrange(0, i as int).push(cs@[i as int]));
            assert(p@.subrange(0, i + 1) =~= p@.subrange(0, i as int).push(p@[i as int]));
        }
        i += 1;
    }
    proof {
        assert(p@.subrange(0, p.len() as int) =~= p@);
    }
    true
}

/// Position of the last colon in `cs[from..]`, counted from `from`, if there
/// is one.
fn find_last_colon(cs: &Vec<char>, from: usize) -> (r: Option<usize>)
    requires
        from <= cs.len(),
    ensures
        match r {
            Some(k) => k == last_colon(cs@.skip(from as int)) && k < cs.len() - from,
            None => last_colon(cs@.skip(from as int)) < 0,
        },
{
    let ghost rest = cs@.skip(from as int);
    let mut end: usize = cs.len();
    proof {
        assert(rest.take(rest.len() as int) =~= rest);
    }
    while end > from
        invariant
            from <= end <= cs.len(),
            rest == cs@.skip(from as int),
            last_colon(rest) == last_colon(rest.take((end - from) as int)),
        decreases end - from,
    {
        let ghost part = rest.take((end - from) as int);
        proof {
            assert(part.last() == cs@[end - 1]);
            assert(part.drop_last() =~= rest.take((end - 1 - from) as int));
        }
        if cs[end - 1] == ':' {
            return Some(end - 1 - from);
        }
        end -= 1;
    }
    None
}

/// The link that an address names.
pub fn parse_url(url: &str) -> (r: Result<TransportUrl, UrlError>)
    ensures
        match url_of(url@) {
            Ok(link) => r is Ok && r->Ok_0@ == link,
            Err(e) => r == Err::<TransportUrl, _>(e),
        },
{
    let cs = chars_of(url);
    if crate::text::same_text(url, "auto") {
        return Ok(TransportUrl::Auto);
    }
    proof {
        reveal_strlit("tcp://");
        reveal_strlit("serial://");
    }
    let tcp = has_prefix(&cs, "tcp://");
    let serial = !tcp && has_prefix(&cs, "serial://");
    if !tcp && !serial {
        return Err(UrlError::UnknownScheme);
    }
    let from: usize = if tcp {
        6
    } else {
        9
    };
    let ghost rest = cs@.skip(from as int);
    let colon = find_last_colon(&cs, from);
    let name_end: usize = match colon {
        Some(k) => from + k,
        None => cs.len(),
    };
    proof {
        assert(cs@.subrange(from as int, name_end as int) =~= before_colon(rest));
    }
    if name_end == from {
        return Err(UrlError::Empty);
    }
    let mut name: Vec<char> = Vec::new();
    push_range(&mut name, &cs, from, name_end);
    proof {
        assert(name@ =~= before_colon(rest));
    }
    let number = match colon {
        Some(k) => {
            proof {
                assert(cs@.subrange(name_end + 1, cs.len() as int) =~= rest.skip(k + 1));
            }
            let max: u64 = if tcp {
                65535
            } else {
                4294967295
            };
            match parse_digits(&cs, name_end + 1, cs.len(), max) {
                Some(v) => Some(v),
                None => {
                    return Err(UrlError::BadNumber);
                },
            }
        },
        None => None,
    };
    if tcp {
        Ok(
            TransportUrl::Tcp {
                host: string_of(&name),
                port: match number {
                    Some(v) => v as u16,
                    None => DEFAULT_PROXY_PORT,
                },
            },
        )
    } else {
        Ok(
            TransportUrl::Serial {
                path: string_of(&name),
                baud: match number {
                    Some(v) => Some(v as u32),
                    None => None,
                },
            },
        )
    }
}

} // verus!
