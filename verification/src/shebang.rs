//! Interpreter detection from a file's first line.
//!
//! A shebang line names the interpreter that executes the file: optional
//! white space, `#!`, and a first token that must be an absolute path.
//! When that path's final component is `env`, the interpreter is the next
//! token (the argument handed to `env`); otherwise it is the final path
//! component itself.  Anything else — no `#!` prefix, a relative path, a
//! path without a usable final component — resolves to no interpreter.

use vstd::prelude::*;

use crate::text::is_space;
use crate::text::is_space_char;
use crate::text::str_eq;

verus! {

/// The first position at or after `i` whose character is not white space,
/// or the end of `s`.
pub open spec fn skip_spaces(s: Seq<char>, i: int) -> int
    decreases s.len() - i,
{
    if i < 0 || i >= s.len() {
        s.len() as int
    } else if is_space_char(s[i]) {
        skip_spaces(s, i + 1)
    } else {
        i
    }
}

/// The first position at or after `i` whose character is white space, or
/// the end of `s`: the end of the token that begins at `i`.
pub open spec fn skip_token(s: Seq<char>, i: int) -> int
    decreases s.len() - i,
{
    if i < 0 || i >= s.len() {
        s.len() as int
    } else if is_space_char(s[i]) {
        i
    } else {
        skip_token(s, i + 1)
    }
}

pub proof fn lemma_skip_spaces(s: Seq<char>, i: int)
    requires
        0 <= i <= s.len(),
    ensures
        i <= skip_spaces(s, i) <= s.len(),
        forall|j: int| i <= j < skip_spaces(s, i) ==> is_space_char(s[j]),
        skip_spaces(s, i) < s.len() ==> !is_space_char(s[skip_spaces(s, i)]),
    decreases s.len() - i,
{
    if i < s.len() && is_space_char(s[i]) {
        lemma_skip_spaces(s, i + 1);
    }
}

pub proof fn lemma_skip_token(s: Seq<char>, i: int)
    requires
        0 <= i <= s.len(),
    ensures
        i <= skip_token(s, i) <= s.len(),
        forall|j: int| i <= j < skip_token(s, i) ==> !is_space_char(s[j]),
        skip_token(s, i) < s.len() ==> is_space_char(s[skip_token(s, i)]),
    decreases s.len() - i,
{
    if i < s.len() && !is_space_char(s[i]) {
        lemma_skip_token(s, i + 1);
    }
}

/// Close the path segment `t[start..end)`: a non-empty segment other than
/// the lone `.` becomes the new candidate for the final component, while
/// an empty segment or a `.` leaves the previous candidate in place.
pub open spec fn close_seg(
    t: Seq<char>,
    start: int,
    end: int,
    cur: Option<(int, int)>,
) -> Option<(int, int)> {
    if start < end && !(end == start + 1 && t[start] == '.') {
        Some((start, end))
    } else {
        cur
    }
}

/// Scan `t` from position `i` on — the segment under way began at `start`,
/// and `cur` is the candidate found so far — for the bounds of the final
/// effective path segment.
pub open spec fn last_seg_from(
    t: Seq<char>,
    i: int,
    start: int,
    cur: Option<(int, int)>,
) -> Option<(int, int)>
    decreases t.len() - i,
{
    if i < 0 || i >= t.len() {
        close_seg(t, start, t.len() as int, cur)
    } else if t[i] == '/' {
        last_seg_from(t, i + 1, i + 1, close_seg(t, start, i, cur))
    } else {
        last_seg_from(t, i + 1, start, cur)
    }
}

/// The final path component of `t`: the last slash-separated segment that
/// is neither empty nor the lone `.`, as `std::path::Path::file_name`
/// chooses it; none when every segment is empty or `.`.
pub open spec fn spec_last_component(t: Seq<char>) -> Option<Seq<char>> {
    match last_seg_from(t, 0, 0, None) {
        Some((a, b)) => Some(t.subrange(a, b)),
        None => None,
    }
}

/// The white-space-separated token of `line` that begins at or after `i`,
/// or none when only white space remains.
pub open spec fn spec_next_token(line: Seq<char>, i: int) -> Option<Seq<char>> {
    let p = skip_spaces(line, i);
    if p >= line.len() {
        None
    } else {
        Some(line.subrange(p, skip_token(line, p)))
    }
}

/// The interpreter named by the tokens of `line` from position `i` on: the
/// first token must be an absolute path; a final component `env` defers to
/// the following token, a final component `..` or none at all yields
/// nothing, and any other final component is the interpreter itself.
pub open spec fn spec_parse_interpreter(line: Seq<char>, i: int) -> Option<Seq<char>> {
    let p = skip_spaces(line, i);
    if p >= line.len() {
        None
    } else {
        let q = skip_token(line, p);
        let token = line.subrange(p, q);
        if token[0] != '/' {
            None
        } else {
            match spec_last_component(token) {
                None => None,
                Some(seg) => {
                    if seg == seq!['e', 'n', 'v'] {
                        spec_next_token(line, q)
                    } else if seg == seq!['.', '.'] {
                        None
                    } else {
                        Some(seg)
                    }
                },
            }
        }
    }
}

/// What the shebang resolver yields for a first line: after leading white
/// space the line must begin with `#!`; the tokens after that prefix then
/// name the interpreter as `spec_parse_interpreter` describes.
pub open spec fn spec_parse_shebang(line: Seq<char>) -> Option<Seq<char>> {
    let t = skip_spaces(line, 0);
    if t + 1 < line.len() && line[t] == '#' && line[t + 1] == '!' {
        spec_parse_interpreter(line, t + 2)
    } else {
        None
    }
}

/// Scan past white space: the returned position is the first at or after
/// `i` holding a non-space character, or the end of the line.
fn scan_spaces(s: &str, i: usize) -> (r: usize)
    requires
        i <= s@.len(),
    ensures
        r == skip_spaces(s@, i as int),
        i <= r <= s@.len(),
{
    let n = s.unicode_len();
    let mut j = i;
    while j < n
        invariant
            i <= j <= n,
            n == s@.len(),
            skip_spaces(s@, i as int) == skip_spaces(s@, j as int),
        decreases n - j,
    {
        if !is_space(s.get_char(j)) {
            return j;
        }
        j += 1;
    }
    j
}

/// Scan to the end of the token that begins at `i`: the returned position
/// is the first at or after `i` holding white space, or the end of the
/// line.
fn scan_token(s: &str, i: usize) -> (r: usize)
    requires
        i <= s@.len(),
    ensures
        r == skip_token(s@, i as int),
        i <= r <= s@.len(),
{
    let n = s.unicode_len();
    let mut j = i;
    while j < n
        invariant
            i <= j <= n,
            n == s@.len(),
            skip_token(s@, i as int) == skip_token(s@, j as int),
        decreases n - j,
    {
        if is_space(s.get_char(j)) {
            return j;
        }
        j += 1;
    }
    j
}

/// The bounds of `r`, viewed as mathematical integers.
pub open spec fn seg_view(r: Option<(usize, usize)>) -> Option<(int, int)> {
    match r {
        Some((a, b)) => Some((a as int, b as int)),
        None => None,
    }
}

/// Find the bounds of the final effective path segment of `t`.
fn scan_last_seg(t: &str) -> (r: Option<(usize, usize)>)
    ensures
        seg_view(r) == last_seg_from(t@, 0, 0, None),
        match r {
            Some((a, b)) => a < b <= t@.len(),
            None => true,
        },
{
    let n = t.unicode_len();
    let mut i: usize = 0;
    let mut start: usize = 0;
    let mut cur: Option<(usize, usize)> = None;
    while i < n
        invariant
            start <= i <= n,
            n == t@.len(),
            match cur {
                Some((a, b)) => a < b <= n,
                None => true,
            },
            last_seg_from(t@, 0, 0, None) == last_seg_from(
                t@,
                i as int,
                start as int,
                seg_view(cur),
            ),
        decreases n - i,
    {
        if t.get_char(i) == '/' {
            if start < i && !(i == start + 1 && t.get_char(start) == '.') {
                cur = Some((start, i));
            }
            start = i + 1;
        }
        i += 1;
    }
    if start < n && !(n == start + 1 && t.get_char(start) == '.') {
        cur = Some((start, n));
    }
    cur
}

/// Extract the interpreter name from a shebang line, or none when the
/// line carries no usable shebang.
pub fn parse_shebang(line: &str) -> (r: Option<String>)
    ensures
        r.deep_view() == spec_parse_shebang(line@),
{
    let n = line.unicode_len();
    let t = scan_spaces(line, 0);
    if !(n - t >= 2 && line.get_char(t) == '#' && line.get_char(t + 1) == '!') {
        return None;
    }
    let p = scan_spaces(line, t + 2);
    if p == n {
        return None;
    }
    let q = scan_token(line, p);
    proof {
        lemma_skip_spaces(line@, t + 2 as int);
        lemma_skip_token(line@, p as int);
    }
    let token = line.substring_char(p, q);
    if token.get_char(0) != '/' {
        return None;
    }
    match scan_last_seg(token) {
        None => None,
        Some((a, b)) => {
            let seg = token.substring_char(a, b);
            if str_eq(seg, "env") {
                proof {
                    reveal_strlit("env");
                    assert("env"@ =~= seq!['e', 'n', 'v']);
                }
                let p2 = scan_spaces(line, q);
                if p2 == n {
                    None
                } else {
                    let q2 = scan_token(line, p2);
                    Some(String::from_str(line.substring_char(p2, q2)))
                }
            } else if str_eq(seg, "..") {
                proof {
                    reveal_strlit("env");
                    reveal_strlit("..");
                    assert("env"@ =~= seq!['e', 'n', 'v']);
                    assert(".."@ =~= seq!['.', '.']);
                }
                None
            } else {
                proof {
                    reveal_strlit("env");
                    reveal_strlit("..");
                    assert("env"@ =~= seq!['e', 'n', 'v']);
                    assert(".."@ =~= seq!['.', '.']);
                }
                Some(String::from_str(seg))
            }
        },
    }
}

/// Skipping white space passes over a run of white space.
pub proof fn lemma_skip_spaces_run(s: Seq<char>, i: int, m: int)
    requires
        0 <= i <= m <= s.len(),
        forall|j: int| i <= j < m ==> is_space_char(s[j]),
    ensures
        skip_spaces(s, i) == skip_spaces(s, m),
    decreases m - i,
{
    if i < m {
        lemma_skip_spaces_run(s, i + 1, m);
    }
}

/// Scanning a token passes over a run of non-white-space that ends at a
/// space or at the end of the line.
pub proof fn lemma_skip_token_run(s: Seq<char>, i: int, m: int)
    requires
        0 <= i <= m <= s.len(),
        forall|j: int| i <= j < m ==> !is_space_char(s[j]),
        m == s.len() || is_space_char(s[m]),
    ensures
        skip_token(s, i) == m,
    decreases m - i,
{
    if i < m {
        lemma_skip_token_run(s, i + 1, m);
    }
}

/// Skipping white space is position-independent: a prefix wholly before
/// the scan plays no part.
pub proof fn lemma_skip_spaces_shift(prefix: Seq<char>, s: Seq<char>, i: int)
    requires
        0 <= i <= s.len(),
    ensures
        skip_spaces(prefix + s, prefix.len() + i) == prefix.len() + skip_spaces(s, i),
    decreases s.len() - i,
{
    if i < s.len() {
        assert((prefix + s)[prefix.len() + i] == s[i]);
        if is_space_char(s[i]) {
            lemma_skip_spaces_shift(prefix, s, i + 1);
        }
    }
}

/// Scanning a token is position-independent in the same way.
pub proof fn lemma_skip_token_shift(prefix: Seq<char>, s: Seq<char>, i: int)
    requires
        0 <= i <= s.len(),
    ensures
        skip_token(prefix + s, prefix.len() + i) == prefix.len() + skip_token(s, i),
    decreases s.len() - i,
{
    if i < s.len() {
        assert((prefix + s)[prefix.len() + i] == s[i]);
        if !is_space_char(s[i]) {
            lemma_skip_token_shift(prefix, s, i + 1);
        }
    }
}

/// Parsing the interpreter tokens is position-independent: a prefix
/// wholly before position `i` plays no part.
pub proof fn lemma_parse_interpreter_shift(prefix: Seq<char>, line: Seq<char>, i: int)
    requires
        0 <= i <= line.len(),
    ensures
        spec_parse_interpreter(prefix + line, prefix.len() + i) == spec_parse_interpreter(line, i),
{
    let t = prefix + line;
    let pl = prefix.len() as int;
    lemma_skip_spaces_shift(prefix, line, i);
    lemma_skip_spaces(line, i);
    let p = skip_spaces(line, i);
    if p < line.len() {
        lemma_skip_token_shift(prefix, line, p);
        lemma_skip_token(line, p);
        let q = skip_token(line, p);
        assert(t.subrange(pl + p, pl + q) =~= line.subrange(p, q));
        lemma_skip_spaces_shift(prefix, line, q);
        lemma_skip_spaces(line, q);
        let p2 = skip_spaces(line, q);
        if p2 < line.len() {
            lemma_skip_token_shift(prefix, line, p2);
            lemma_skip_token(line, p2);
            assert(t.subrange(pl + p2, pl + skip_token(line, p2)) =~= line.subrange(
                p2,
                skip_token(line, p2),
            ));
        }
        assert(spec_next_token(t, pl + q) == spec_next_token(line, q));
    }
}

/// Leading white space before the shebang is ignored: prepending it to
/// a line changes nothing of what the line resolves to.
pub proof fn lemma_shebang_leading_whitespace(ws: Seq<char>, line: Seq<char>)
    requires
        forall|j: int| 0 <= j < ws.len() ==> is_space_char(ws[j]),
    ensures
        spec_parse_shebang(ws + line) == spec_parse_shebang(line),
{
    let t = ws + line;
    let t0 = skip_spaces(line, 0);
    lemma_skip_spaces(line, 0);
    lemma_skip_spaces_shift(ws, line, 0);
    assert(forall|j: int| 0 <= j < ws.len() ==> is_space_char(t[j]));
    lemma_skip_spaces_run(t, 0, ws.len() as int);
    let t1 = skip_spaces(t, 0);
    assert(t1 == ws.len() + t0);
    if t0 + 1 < line.len() {
        assert(t[t1] == line[t0]);
        assert(t[t1 + 1] == line[t0 + 1]);
    }
    if t0 + 1 < line.len() && line[t0] == '#' && line[t0 + 1] == '!' {
        lemma_parse_interpreter_shift(ws, line, t0 + 2);
    }
}

/// White space between `#!` and the interpreter token is tolerated:
/// inserting it right after the prefix changes nothing of what the line
/// resolves to.
pub proof fn lemma_shebang_inner_whitespace(ws: Seq<char>, rest: Seq<char>)
    requires
        forall|j: int| 0 <= j < ws.len() ==> is_space_char(ws[j]),
    ensures
        spec_parse_shebang(seq!['#', '!'] + ws + rest) == spec_parse_shebang(
            seq!['#', '!'] + rest,
        ),
{
    let head = seq!['#', '!'];
    let line1 = head + ws + rest;
    let line2 = head + rest;
    assert(line1[0] == '#');
    assert(line1[1] == '!');
    assert(line2[0] == '#');
    assert(line2[1] == '!');
    assert(!is_space_char('#'));
    assert(skip_spaces(line1, 0) == 0);
    assert(skip_spaces(line2, 0) == 0);
    let wl = ws.len() as int;
    assert(forall|j: int| 2 <= j < 2 + wl ==> is_space_char(line1[j]));
    lemma_skip_spaces_run(line1, 2, 2 + wl);
    assert(spec_parse_interpreter(line1, 2) == spec_parse_interpreter(line1, 2 + wl));
    assert(line1 =~= (head + ws) + rest);
    lemma_parse_interpreter_shift(head + ws, rest, 0);
    assert(spec_parse_interpreter(line1, 2 + wl) == spec_parse_interpreter(rest, 0));
    lemma_parse_interpreter_shift(head, rest, 0);
    assert(spec_parse_interpreter(line2, 2) == spec_parse_interpreter(rest, 0));
}

/// An absolute shebang not using `env`: for a line of `#!`, an absolute
/// token whose final component is neither `env` nor `..`, and anything
/// from the next white space on, the resolver returns that final
/// component — arguments after the token are ignored.
pub proof fn lemma_shebang_absolute(token: Seq<char>, tail: Seq<char>, seg: Seq<char>)
    requires
        token.len() > 0,
        token[0] == '/',
        forall|j: int| 0 <= j < token.len() ==> !is_space_char(token[j]),
        spec_last_component(token) == Some(seg),
        seg != seq!['e', 'n', 'v'],
        seg != seq!['.', '.'],
        tail.len() == 0 || is_space_char(tail[0]),
    ensures
        spec_parse_shebang(seq!['#', '!'] + token + tail) == Some(seg),
{
    let line = seq!['#', '!'] + token + tail;
    assert(line[0] == '#');
    assert(line[1] == '!');
    assert(!is_space_char('#'));
    assert(skip_spaces(line, 0) == 0);
    let q = 2 + token.len() as int;
    assert(line[2] == token[0]);
    assert(!is_space_char(line[2]));
    assert(skip_spaces(line, 2) == 2);
    assert(forall|j: int| 2 <= j < q ==> line[j] == token[j - 2]);
    lemma_skip_token_run(line, 2, q);
    assert(line.subrange(2, q) =~= token);
}

/// An `env` shebang with an argument: the resolver returns the argument
/// handed to `env`, whatever follows it.
pub proof fn lemma_shebang_env(
    env_token: Seq<char>,
    ws: Seq<char>,
    arg: Seq<char>,
    tail: Seq<char>,
)
    requires
        env_token.len() > 0,
        env_token[0] == '/',
        forall|j: int| 0 <= j < env_token.len() ==> !is_space_char(env_token[j]),
        spec_last_component(env_token) == Some(seq!['e', 'n', 'v']),
        ws.len() > 0,
        forall|j: int| 0 <= j < ws.len() ==> is_space_char(ws[j]),
        arg.len() > 0,
        forall|j: int| 0 <= j < arg.len() ==> !is_space_char(arg[j]),
        tail.len() == 0 || is_space_char(tail[0]),
    ensures
        spec_parse_shebang(seq!['#', '!'] + env_token + ws + arg + tail) == Some(arg),
{
    let line = seq!['#', '!'] + env_token + ws + arg + tail;
    assert(line[0] == '#');
    assert(line[1] == '!');
    assert(!is_space_char('#'));
    assert(skip_spaces(line, 0) == 0);
    let q = 2 + env_token.len() as int;
    assert(line[2] == env_token[0]);
    assert(skip_spaces(line, 2) == 2);
    assert(forall|j: int| 2 <= j < q ==> line[j] == env_token[j - 2]);
    lemma_skip_token_run(line, 2, q);
    assert(line.subrange(2, q) =~= env_token);
    let p2 = q + ws.len() as int;
    assert(forall|j: int| q <= j < p2 ==> is_space_char(line[j]));
    lemma_skip_spaces_run(line, q, p2);
    assert(line[p2] == arg[0]);
    assert(skip_spaces(line, p2) == p2);
    let q2 = p2 + arg.len() as int;
    assert(forall|j: int| p2 <= j < q2 ==> line[j] == arg[j - p2]);
    lemma_skip_token_run(line, p2, q2);
    assert(line.subrange(p2, q2) =~= arg);
}

/// An `env` shebang without an argument resolves to nothing.
pub proof fn lemma_shebang_env_without_argument(env_token: Seq<char>, ws: Seq<char>)
    requires
        env_token.len() > 0,
        env_token[0] == '/',
        forall|j: int| 0 <= j < env_token.len() ==> !is_space_char(env_token[j]),
        spec_last_component(env_token) == Some(seq!['e', 'n', 'v']),
        forall|j: int| 0 <= j < ws.len() ==> is_space_char(ws[j]),
    ensures
        spec_parse_shebang(seq!['#', '!'] + env_token + ws) == None::<Seq<char>>,
{
    let line = seq!['#', '!'] + env_token + ws;
    assert(line[0] == '#');
    assert(line[1] == '!');
    assert(!is_space_char('#'));
    assert(skip_spaces(line, 0) == 0);
    let q = 2 + env_token.len() as int;
    assert(line[2] == env_token[0]);
    assert(skip_spaces(line, 2) == 2);
    assert(forall|j: int| 2 <= j < q ==> line[j] == env_token[j - 2]);
    lemma_skip_token_run(line, 2, q);
    assert(line.subrange(2, q) =~= env_token);
    assert(forall|j: int| q <= j < line.len() ==> is_space_char(line[j]));
    lemma_skip_spaces_run(line, q, line.len() as int);
}

/// A shebang whose first token is not an absolute path resolves to
/// nothing.
pub proof fn lemma_shebang_relative(token: Seq<char>, tail: Seq<char>)
    requires
        token.len() > 0,
        token[0] != '/',
        forall|j: int| 0 <= j < token.len() ==> !is_space_char(token[j]),
        tail.len() == 0 || is_space_char(tail[0]),
    ensures
        spec_parse_shebang(seq!['#', '!'] + token + tail) == None::<Seq<char>>,
{
    let line = seq!['#', '!'] + token + tail;
    assert(line[0] == '#');
    assert(line[1] == '!');
    assert(!is_space_char('#'));
    assert(skip_spaces(line, 0) == 0);
    let q = 2 + token.len() as int;
    assert(line[2] == token[0]);
    assert(skip_spaces(line, 2) == 2);
    assert(forall|j: int| 2 <= j < q ==> line[j] == token[j - 2]);
    lemma_skip_token_run(line, 2, q);
    assert(line.subrange(2, q) =~= token);
}

/// A line that does not begin with `#!` after its leading white space
/// resolves to nothing.
pub proof fn lemma_shebang_requires_prefix(line: Seq<char>)
    requires
        ({
            let t = skip_spaces(line, 0);
            !(t + 1 < line.len() && line[t] == '#' && line[t + 1] == '!')
        }),
    ensures
        spec_parse_shebang(line) == None::<Seq<char>>,
{
}

/// `#!` followed by nothing but white space resolves to nothing.
pub proof fn lemma_shebang_without_token(ws: Seq<char>)
    requires
        forall|j: int| 0 <= j < ws.len() ==> is_space_char(ws[j]),
    ensures
        spec_parse_shebang(seq!['#', '!'] + ws) == None::<Seq<char>>,
{
    let line = seq!['#', '!'] + ws;
    assert(line[0] == '#');
    assert(line[1] == '!');
    assert(!is_space_char('#'));
    assert(skip_spaces(line, 0) == 0);
    if 1 < line.len() - 1 {
        assert(forall|j: int| 2 <= j < line.len() ==> is_space_char(line[j]));
        lemma_skip_spaces_run(line, 2, line.len() as int);
    }
}

/// The bare file name of `path`: its final path component, or none when
/// the path has no usable one (it is all separators and `.` segments, or
/// it ends in `..`).
pub open spec fn spec_base_name(p: Seq<char>) -> Option<Seq<char>> {
    match spec_last_component(p) {
        Some(seg) => if seg == seq!['.', '.'] {
            None
        } else {
            Some(seg)
        },
        None => None,
    }
}

/// The bare file name of `path`, as the glob stage of classification
/// tests it.
pub fn base_name(path: &str) -> (r: Option<&str>)
    ensures
        r.deep_view() == spec_base_name(path@),
{
    match scan_last_seg(path) {
        None => None,
        Some((a, b)) => {
            let seg = path.substring_char(a, b);
            proof {
                reveal_strlit("..");
                assert(".."@ =~= seq!['.', '.']);
            }
            if str_eq(seg, "..") {
                None
            } else {
                Some(seg)
            }
        },
    }
}

/// The first line of a file as the reader delivers it: the line's
/// characters, or the mark that the file could not be read.  An
/// unreadable file is not an error here — it merely resolves to no
/// interpreter — but the caller may still report the failure on its
/// diagnostic channel.
#[derive(Debug)]
pub enum FirstLine {
    Unreadable,
    Line(String),
}

/// What the shebang resolver yields for a file whose first line is
/// `first_line`: nothing for an unreadable file, and otherwise what the
/// line's shebang names.
pub open spec fn spec_resolve_interpreter(first_line: FirstLine) -> Option<Seq<char>> {
    match first_line {
        FirstLine::Unreadable => None,
        FirstLine::Line(s) => spec_parse_shebang(s@),
    }
}

/// Resolve the interpreter that a file's first line names, treating an
/// unreadable file as naming none.
pub fn resolve_interpreter(first_line: &FirstLine) -> (r: Option<String>)
    ensures
        r.deep_view() == spec_resolve_interpreter(*first_line),
{
    match first_line {
        FirstLine::Unreadable => None,
        FirstLine::Line(s) => parse_shebang(s.as_str()),
    }
}

} // verus!
