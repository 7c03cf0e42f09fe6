//! Selecting columns by glob patterns over paths of the form
//! `/{route}/{stream}/{column}`.
//!
//! Routes are numeric (`/0/1`), stream and column names are alphabetic. In a
//! pattern `*` stands for one level of a path, or part of one, and `**` for
//! any number of levels. Two short forms are expanded before the pattern is
//! compiled: a bare name such as `vector` selects that stream anywhere
//! (`**/vector/**`), and `**/x` selects column `x` of any stream anywhere
//! (`**/*/x`).

use crate::route::{route_text, DeviceRoute};
use crate::text::{chars_of, push_range, push_str, string_of};
use glob::{MatchOptions, Pattern};
use vstd::prelude::*;
use vstd::string::*;

verus! {

/// A compiled pattern of the `glob` crate. Nothing of its inside is visible here.
#[verifier::external_type_specification]
#[verifier::external_body]
pub struct ExPattern(glob::Pattern);

/// The text that a compiled pattern was made from, which `Pattern::as_str`
/// gives back.
pub uninterp spec fn pattern_source(p: Pattern) -> Seq<char>;

/// What `Pattern::new` objects to in a pattern text: the displayed form of its
/// error, or nothing where the text compiles.
pub uninterp spec fn glob_syntax_error(text: Seq<char>) -> Option<Seq<char>>;

/// Whether the pattern compiled from `pattern` matches `path`, on a target
/// whose only path separator is the slash: what `Pattern::matches_with` gives
/// under the options named, which say whether case matters, whether only a
/// slash in the pattern matches a slash, and whether only a dot in the pattern
/// matches a dot at the start of a path component.
pub uninterp spec fn glob_matches(
    pattern: Seq<char>,
    path: Seq<char>,
    case_sensitive: bool,
    literal_separator: bool,
    literal_leading_dot: bool,
) -> bool;

/// Whether a pattern matches the path of a column: case matters, a slash is
/// matched by a slash only, so that `*` stays within one level of the path
/// while `**` spans levels, and a leading dot is nothing special.
pub open spec fn path_matches(pattern: Seq<char>, path: Seq<char>) -> bool {
    glob_matches(pattern, path, true, true, false)
}

/// Whether a character of 128 or above is white space: what
/// `char::is_whitespace` gives for it, which is whether it has the Unicode
/// property `White_Space`.
pub uninterp spec fn wide_white_space(c: char) -> bool;

/// Whether a character of 128 or above is a letter: what
/// `char::is_alphabetic` gives for it, which is whether it has the Unicode
/// property `Alphabetic`.
pub uninterp spec fn wide_letter(c: char) -> bool;

/// Whether a character below 128 is white space: the space, and the controls
/// from the horizontal tab to the carriage return.
pub open spec fn ascii_white_space(c: char) -> bool {
    c as int == 32 || 9 <= c as int <= 13
}

/// Whether a character below 128 is a letter: `A` to `Z` and `a` to `z`.
pub open spec fn ascii_letter(c: char) -> bool {
    65 <= c as int <= 90 || 97 <= c as int <= 122
}

/// Whether a character is white space.
pub open spec fn is_white_space(c: char) -> bool {
    if (c as int) < 128 {
        ascii_white_space(c)
    } else {
        wide_white_space(c)
    }
}

/// Whether a character is a letter.
pub open spec fn is_alphabetic(c: char) -> bool {
    if (c as int) < 128 {
        ascii_letter(c)
    } else {
        wide_letter(c)
    }
}

/// `char::is_whitespace` tells whether a character has the Unicode property
/// `White_Space`: below 128 these are the space and the controls from 9 to
/// 13; above, the answer is given its name.
pub assume_specification[ char::is_whitespace ](c: char) -> (r: bool)
    ensures
        r == if (c as int) < 128 {
            ascii_white_space(c)
        } else {
            wide_white_space(c)
        },
;

/// `char::is_alphabetic` tells whether a character has the Unicode property
/// `Alphabetic`: below 128 these are the letters `A` to `Z` and `a` to `z`;
/// above, the answer is given its name.
pub assume_specification[ char::is_alphabetic ](c: char) -> (r: bool)
    ensures
        r == if (c as int) < 128 {
            ascii_letter(c)
        } else {
            wide_letter(c)
        },
;

/// Calls `glob::Pattern::new`. It compiles the text or reports a syntax error;
/// a compiled pattern remembers the text it was made from. The error is handed
/// on in its displayed form.
#[verifier::external_body]
fn compile_pattern(text: &str) -> (r: Result<Pattern, String>)
    ensures
        r is Ok <==> glob_syntax_error(text@) is None,
        r is Ok ==> pattern_source(r->Ok_0) == text@,
        r is Err ==> Some(r->Err_0@) == glob_syntax_error(text@),
{
    match Pattern::new(text) {
        Ok(p) => Ok(p),
        Err(e) => Err(format!("{}", e)),
    }
}

/// Calls `glob::Pattern::matches_with`, which matches a text against the
/// pattern under the match options given.
#[verifier::external_body]
fn pattern_matches(
    pattern: &Pattern,
    path: &str,
    case_sensitive: bool,
    literal_separator: bool,
    literal_leading_dot: bool,
) -> (r: bool)
    ensures
        r == glob_matches(
            pattern_source(*pattern),
            path@,
            case_sensitive,
            literal_separator,
            literal_leading_dot,
        ),
{
    pattern.matches_with(
        path,
        MatchOptions {
            case_sensitive,
            require_literal_separator: literal_separator,
            require_literal_leading_dot: literal_leading_dot,
        },
    )
}

/// `s` without the white space at its start.
pub open spec fn trim_start(s: Seq<char>) -> Seq<char>
    decreases s.len(),
{
    if s.len() > 0 && is_white_space(s[0]) {
        trim_start(s.skip(1))
    } else {
        s
    }
}

/// `s` without the white space at its end.
pub open spec fn trim_end(s: Seq<char>) -> Seq<char>
    decreases s.len(),
{
    if s.len() > 0 && is_white_space(s.last()) {
        trim_end(s.drop_last())
    } else {
        s
    }
}

/// `s` without the white space at either end.
pub open spec fn trimmed(s: Seq<char>) -> Seq<char> {
    trim_end(trim_start(s))
}

/// Whether a text looks like a name rather than a route index: it holds at
/// least one letter.
pub open spec fn alphabetic_name(s: Seq<char>) -> bool {
    exists|i: int| 0 <= i < s.len() && is_alphabetic(#[trigger] s[i])
}

/// Whether `s` begins with `**/`.
pub open spec fn starts_recursive(s: Seq<char>) -> bool {
    s.len() >= 3 && s[0] == '*' && s[1] == '*' && s[2] == '/'
}

/// Whether a pattern is the short form for a column anywhere: `**/` followed
/// by a name without further slashes.
pub open spec fn column_anywhere(t: Seq<char>) -> bool {
    &&& starts_recursive(t)
    &&& !t.skip(3).contains('/')
    &&& alphabetic_name(t.skip(3))
}

/// The pattern that is compiled for what the user wrote.
///
/// White space around the text is dropped. An empty pattern stays empty. A
/// pattern with a wildcard is taken as it is, except the short form for a
/// column anywhere, which becomes `**/*/{name}`. A pattern with neither
/// wildcard nor slash is a stream name and becomes `**/{name}/**`. Any other
/// pattern is an exact path.
pub open spec fn normalized(s: Seq<char>) -> Seq<char> {
    let t = trimmed(s);
    if t.len() == 0 {
        t
    } else if t.contains('*') {
        if column_anywhere(t) {
            seq!['*', '*', '/', '*', '/'] + t.skip(3)
        } else {
            t
        }
    } else if !t.contains('/') {
        seq!['*', '*', '/'] + t + seq!['/', '*', '*']
    } else {
        t
    }
}

/// The path that a column is matched by: the route, the stream and the column,
/// each after a slash. The root route contributes nothing.
pub open spec fn column_path(route: Seq<u8>, stream: Seq<char>, column: Seq<char>) -> Seq<char> {
    route_text(route).push('/') + stream + seq!['/'] + column
}

/// Whether `cs[from..to]` holds the character `c`.
fn range_contains(cs: &Vec<char>, from: usize, to: usize, c: char) -> (r: bool)
    requires
        from <= to <= cs.len(),
    ensures
        r == cs@.subrange(from as int, to as int).contains(c),
{
    let ghost part = cs@.subrange(from as int, to as int);
    let mut i: usize = from;
    while i < to
        invariant
            from <= i <= to <= cs.len(),
            part == cs@.subrange(from as int, to as int),
            forall|k: int| 0 <= k < i - from ==> part[k] != c,
        decreases to - i,
    {
        if cs[i] == c {
            proof {
                assert(part[i - from] == c);
            }
            return true;
        }
        i += 1;
    }
    false
}

/// Whether `cs[from..to]` holds a letter.
fn range_alphabetic(cs: &Vec<char>, from: usize, to: usize) -> (r: bool)
    requires
        from <= to <= cs.len(),
    ensures
        r == alphabetic_name(cs@.subrange(from as int, to as int)),
{
    let ghost part = cs@.subrange(from as int, to as int);
    let mut i: usize = from;
    while i < to
        invariant
            from <= i <= to <= cs.len(),
            part == cs@.subrange(from as int, to as int),
            forall|k: int| 0 <= k < i - from ==> !is_alphabetic(#[trigger] part[k]),
        decreases to - i,
    {
        if cs[i].is_alphabetic() {
            proof {
                assert(is_alphabetic(part[i - from]));
            }
            return true;
        }
        i += 1;
    }
    false
}

/// The bounds of `cs` without the white space at either end.
fn trim_bounds(cs: &Vec<char>) -> (r: (usize, usize))
    ensures
        r.0 <= r.1 <= cs.len(),
        cs@.subrange(r.0 as int, r.1 as int) == trimmed(cs@),
{
    let mut from: usize = 0;
    proof {
        assert(cs@.skip(0) =~= cs@);
    }
    while from < cs.len() && cs[from].is_whitespace()
        invariant
            from <= cs.len(),
            trim_start(cs@) == trim_start(cs@.skip(from as int)),
        decreases cs.len() - from,
    {
        proof {
            assert(cs@.skip(from as int).skip(1) =~= cs@.skip(from + 1));
        }
        from += 1;
    }
    let ghost rest = cs@.skip(from as int);
    proof {
        assert(trim_start(cs@) == rest);
        assert(rest =~= cs@.subrange(from as int, cs.len() as int));
    }
    let mut to: usize = cs.len();
    while to > from && cs[to - 1].is_whitespace()
        invariant
            from <= to <= cs.len(),
            trim_end(rest) == trim_end(cs@.subrange(from as int, to as int)),
        decreases to - from,
    {
        proof {
            assert(cs@.subrange(from as int, to as int).drop_last() =~= cs@.subrange(
                from as int,
                to - 1,
            ));
        }
        to -= 1;
    }
    (from, to)
}

/// Selects columns by a glob pattern over `/{route}/{stream}/{column}`.
pub struct ColumnFilter {
    pattern: Pattern,
}

impl ColumnFilter {
    /// The pattern text that this filter matches by.
    pub closed spec fn pattern_text(&self) -> Seq<char> {
        pattern_source(self.pattern)
    }

    /// Makes a filter from what the user wrote: the text is normalized and
    /// compiled. A text that does not compile gives the compiler's objection
    /// after the words `Invalid glob pattern: `.
    pub fn new(pattern_str: &str) -> (r: Result<ColumnFilter, String>)
        ensures
            match glob_syntax_error(normalized(pattern_str@)) {
                None => r is Ok && r->Ok_0.pattern_text() == normalized(pattern_str@),
                Some(objection) => r is Err && r->Err_0@ == "Invalid glob pattern: "@ + objection,
            },
    {
        let text = ColumnFilter::normalize_pattern(pattern_str);
        match compile_pattern(text.as_str()) {
            Ok(pattern) => Ok(ColumnFilter { pattern }),
            Err(objection) => Err(ColumnFilter::error_message(objection.as_str())),
        }
    }

    /// What is said of a pattern that does not compile: the compiler's
    /// objection after the words `Invalid glob pattern: `.
    pub fn error_message(objection: &str) -> (r: String)
        ensures
            r@ == "Invalid glob pattern: "@ + objection@,
    {
        let mut message = String::from_str("Invalid glob pattern: ");
        message.append(objection);
        message
    }

    /// The pattern that is compiled for what the user wrote.
    pub fn normalize_pattern(pattern_str: &str) -> (r: String)
        ensures
            r@ == normalized(pattern_str@),
    {
        let cs = chars_of(pattern_str);
        let (from, to) = trim_bounds(&cs);
        let ghost t = cs@.subrange(from as int, to as int);
        let mut out: Vec<char> = Vec::new();
        if from == to {
            proof {
                assert(out@ =~= t);
            }
            return string_of(&out);
        }
        if range_contains(&cs, from, to, '*') {
            if to - from >= 3 && cs[from] == '*' && cs[from + 1] == '*' && cs[from + 2] == '/' {
                proof {
                    assert(t[0] == cs@[from as int] && t[1] == cs@[from + 1] && t[2] == cs@[from
                        + 2]);
                    assert(t.skip(3) =~= cs@.subrange(from + 3, to as int));
                }
                if !range_contains(&cs, from + 3, to, '/') && range_alphabetic(&cs, from + 3, to) {
                    push_str(&mut out, "**/*/");
                    push_range(&mut out, &cs, from + 3, to);
                    proof {
                        reveal_strlit("**/*/");
                        assert("**/*/"@ =~= seq!['*', '*', '/', '*', '/']);
                        assert(out@ =~= seq!['*', '*', '/', '*', '/'] + t.skip(3));
                    }
                    return string_of(&out);
                }
            } else {
                proof {
                    if t.len() >= 3 {
                        assert(t[0] == cs@[from as int] && t[1] == cs@[from + 1] && t[2] == cs@[from
                            + 2]);
                    }
                }
            }
            push_range(&mut out, &cs, from, to);
            proof {
                assert(out@ =~= t);
            }
            return string_of(&out);
        }
        if !range_contains(&cs, from, to, '/') {
            push_str(&mut out, "**/");
            push_range(&mut out, &cs, from, to);
            push_str(&mut out, "/**");
            proof {
                reveal_strlit("**/");
                reveal_strlit("/**");
                assert("**/"@ =~= seq!['*', '*', '/']);
                assert("/**"@ =~= seq!['/', '*', '*']);
                assert(out@ =~= seq!['*', '*', '/'] + t + seq!['/', '*', '*']);
            }
            return string_of(&out);
        }
        push_range(&mut out, &cs, from, to);
        proof {
            assert(out@ =~= t);
        }
        string_of(&out)
    }

    /// Whether a text looks like a name rather than a route index: it holds at
    /// least one letter.
    pub fn is_alphabetic_name(s: &str) -> (r: bool)
        ensures
            r == alphabetic_name(s@),
    {
        let cs = chars_of(s);
        proof {
            assert(cs@.subrange(0, cs.len() as int) =~= cs@);
        }
        range_alphabetic(&cs, 0, cs.len())
    }

    /// Whether the pattern matches the path of the given column.
    pub fn matches(&self, route: &DeviceRoute, stream_name: &str, col_name: &str) -> (r: bool)
        ensures
            r == path_matches(self.pattern_text(), column_path(route@, stream_name@, col_name@)),
    {
        let full_path = self.get_path_string(route, stream_name, col_name);
        pattern_matches(&self.pattern, full_path.as_str(), true, true, false)
    }

    /// The path that the given column is matched by.
    pub fn get_path_string(&self, route: &DeviceRoute, stream_name: &str, col_name: &str) -> (r:
        String)
        ensures
            r@ == column_path(route@, stream_name@, col_name@),
    {
        let mut out: Vec<char> = Vec::new();
        route.push_text(&mut out);
        out.push('/');
        push_str(&mut out, stream_name);
        out.push('/');
        push_str(&mut out, col_name);
        proof {
            assert(out@ =~= column_path(route@, stream_name@, col_name@));
        }
        string_of(&out)
    }
}

/// Whether a text has no white space at its start and none at its end.
pub open spec fn bare(t: Seq<char>) -> bool {
    t.len() == 0 || (!is_white_space(t[0]) && !is_white_space(t.last()))
}

/// Trimming at the start leaves the end of the text, which does not begin
/// with white space; a text that does not begin with white space is left as
/// it is.
proof fn lemma_trim_start(s: Seq<char>)
    ensures
        trim_start(s).len() <= s.len(),
        trim_start(s) == s.skip(s.len() - trim_start(s).len()),
        trim_start(s).len() > 0 ==> !is_white_space(trim_start(s)[0]),
        s.len() == 0 || !is_white_space(s[0]) ==> trim_start(s) == s,
    decreases s.len(),
{
    if s.len() > 0 && is_white_space(s[0]) {
        lemma_trim_start(s.skip(1));
        let k = s.skip(1).len() - trim_start(s).len();
        assert(s.skip(1).skip(k) =~= s.skip(k + 1));
    } else {
        assert(s.skip(0) =~= s);
    }
}

/// Trimming at the end leaves the start of the text, which does not end with
/// white space; a text that does not end with white space is left as it is.
proof fn lemma_trim_end(s: Seq<char>)
    ensures
        trim_end(s).len() <= s.len(),
        trim_end(s) == s.take(trim_end(s).len() as int),
        trim_end(s).len() > 0 ==> !is_white_space(trim_end(s).last()),
        s.len() == 0 || !is_white_space(s.last()) ==> trim_end(s) == s,
    decreases s.len(),
{
    if s.len() > 0 && is_white_space(s.last()) {
        lemma_trim_end(s.drop_last());
        let k = trim_end(s).len() as int;
        assert(s.drop_last().take(k) =~= s.take(k));
    } else {
        assert(s.take(s.len() as int) =~= s);
    }
}

/// What trimming leaves has no white space at either end, and a text that has
/// none at either end is left as it is.
pub proof fn lemma_trimmed(s: Seq<char>)
    ensures
        bare(trimmed(s)),
        bare(s) ==> trimmed(s) == s,
{
    let front = trim_start(s);
    lemma_trim_start(s);
    lemma_trim_end(front);
    let t = trimmed(s);
    if t.len() > 0 {
        assert(t[0] == front.take(t.len() as int)[0]);
    }
}

/// A name without wildcard and slash selects the stream of that name at any
/// depth: it becomes `**/{name}/**`.
pub proof fn lemma_stream_anywhere(name: Seq<char>)
    requires
        name.len() > 0,
        bare(name),
        !name.contains('*'),
        !name.contains('/'),
    ensures
        normalized(name) == seq!['*', '*', '/'] + name + seq!['/', '*', '*'],
{
    lemma_trimmed(name);
}

/// `**/` before a name without slash that holds a letter selects the column
/// of that name in any stream: it becomes `**/*/{name}`.
pub proof fn lemma_column_anywhere(name: Seq<char>)
    requires
        name.len() > 0,
        !is_white_space(name.last()),
        !name.contains('/'),
        alphabetic_name(name),
    ensures
        normalized(seq!['*', '*', '/'] + name) == seq!['*', '*', '/', '*', '/'] + name,
{
    let t = seq!['*', '*', '/'] + name;
    assert(t[0] == '*');
    assert(t.last() == name.last());
    lemma_trimmed(t);
    assert(t.contains('*'));
    assert(t.skip(3) =~= name);
}

/// A pattern with a slash and no wildcard is an exact path, and a pattern
/// with a wildcard that is not the short form for a column is taken as it
/// is: both are only trimmed.
pub proof fn lemma_taken_as_written(s: Seq<char>)
    requires
        trimmed(s).contains('*') || trimmed(s).contains('/'),
        !column_anywhere(trimmed(s)),
    ensures
        normalized(s) == trimmed(s),
{
}

/// A normalized pattern is normalized to itself.
pub proof fn lemma_normalized_settles(s: Seq<char>)
    ensures
        normalized(normalized(s)) == normalized(s),
{
    let t = trimmed(s);
    let n = normalized(s);
    lemma_trimmed(s);
    if t.len() == 0 {
        lemma_trimmed(n);
    } else if t.contains('*') {
        if column_anywhere(t) {
            let name = t.skip(3);
            assert(n[0] == '*');
            assert(n.last() == name.last());
            assert(name.last() == t.last());
            lemma_trimmed(n);
            assert(n.contains('*'));
            assert(n.skip(3)[1] == '/');
            assert(n.skip(3).contains('/'));
        } else {
            lemma_trimmed(t);
        }
    } else if !t.contains('/') {
        assert(n[0] == '*');
        assert(n.last() == '*');
        lemma_trimmed(n);
        assert(n.contains('*'));
        assert(n.skip(3)[t.len() as int] == '/');
        assert(n.skip(3).contains('/'));
    } else {
        lemma_trimmed(t);
    }
}

} // verus!
