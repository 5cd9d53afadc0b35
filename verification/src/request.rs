//! Parsing of HTTP/1.x request-header blocks.
//!
//! A header block is the text before the blank-line terminator.  Its first
//! line must split into exactly three fields — method token, raw target,
//! version token; every further line is a header field, split at the first
//! colon.  Recoverable anomalies (an unexpected version token, a header
//! line without a colon) are collected as warnings rather than failures.

use vstd::prelude::*;

verus! {

use vstd::utf8::{valid_utf8, decode_utf8};
use vstd::string::{StringExecFns, StrSliceExecFns};
use crate::uri::{spec_decode_uri, decode_uri};

/// The ways parsing a header block can fail.
#[derive(Clone, Copy, Debug, PartialEq, Eq, Structural)]
pub enum ParseError {
    /// The header block is empty: there is no request line at all.
    MissingRequestLine,
    /// The request line does not split into exactly three fields.
    MissingFields,
    /// The percent-decoded request target is not valid UTF-8.
    InvalidTargetEncoding,
    /// The method token is not a supported method.
    UnknownMethod,
    /// No blank-line terminator was found within the inspected bytes.
    TerminatorNotFound,
}

// ---------------------------------------------------------------------------
// Splitting a block into lines (the semantics of `str::lines`: lines end at
// `'\n'`, a `'\r'` right before the `'\n'` is dropped, the final line
// needs no terminator).
// ---------------------------------------------------------------------------

/// Length of the prefix of `s` before its first `'\n'` (all of `s` if none).
pub open spec fn nl_index(s: Seq<char>) -> nat
    decreases s.len(),
{
    if s.len() == 0 || s[0] == '\n' {
        0
    } else {
        1 + nl_index(s.skip(1))
    }
}

/// A line with a trailing carriage return dropped.
pub open spec fn strip_cr(line: Seq<char>) -> Seq<char> {
    if line.len() > 0 && line.last() == '\r' {
        line.drop_last()
    } else {
        line
    }
}

/// The lines of a header block.
pub open spec fn spec_lines(s: Seq<char>) -> Seq<Seq<char>>
    decreases s.len(),
{
    if s.len() == 0 {
        Seq::<Seq<char>>::empty()
    } else {
        let e = nl_index(s);
        if e >= s.len() {
            seq![s]
        } else {
            seq![strip_cr(s.take(e as int))] + spec_lines(s.skip(e as int + 1))
        }
    }
}

// ---------------------------------------------------------------------------
// Splitting the request line into whitespace-separated fields (the
// semantics of `str::split_ascii_whitespace`).
// ---------------------------------------------------------------------------

/// The ASCII whitespace that separates request-line fields.
pub open spec fn is_field_ws(c: char) -> bool {
    c == ' ' || c == '\t' || c == '\n' || c == '\u{C}' || c == '\r'
}

/// Length of the maximal whitespace-free prefix of `s`.
pub open spec fn token_len(s: Seq<char>) -> nat
    decreases s.len(),
{
    if s.len() == 0 || is_field_ws(s[0]) {
        0
    } else {
        1 + token_len(s.skip(1))
    }
}

/// The whitespace-separated fields of a line, without empties.
pub open spec fn spec_fields(s: Seq<char>) -> Seq<Seq<char>>
    decreases s.len(),
{
    if s.len() == 0 {
        Seq::<Seq<char>>::empty()
    } else if is_field_ws(s[0]) {
        spec_fields(s.skip(1))
    } else {
        let t = token_len(s);
        if t >= s.len() {
            seq![s]
        } else {
            seq![s.take(t as int)] + spec_fields(s.skip(t as int))
        }
    }
}

// ---------------------------------------------------------------------------
// Header-field lines: split at the first colon, trim both halves.
// ---------------------------------------------------------------------------

/// Index of the first `':'` in `s` (the whole length if none).
pub open spec fn colon_index(s: Seq<char>) -> nat
    decreases s.len(),
{
    if s.len() == 0 || s[0] == ':' {
        0
    } else {
        1 + colon_index(s.skip(1))
    }
}

/// The whitespace that trimming removes: the Unicode white-space
/// characters, as `str::trim` sees them.
pub open spec fn is_trim_ws(c: char) -> bool {
    ||| c == ' '
    ||| ('\u{9}' <= c && c <= '\u{D}')
    ||| c == '\u{85}'
    ||| c == '\u{A0}'
    ||| c == '\u{1680}'
    ||| ('\u{2000}' <= c && c <= '\u{200A}')
    ||| c == '\u{2028}'
    ||| c == '\u{2029}'
    ||| c == '\u{202F}'
    ||| c == '\u{205F}'
    ||| c == '\u{3000}'
}

/// `s` with leading whitespace dropped.
pub open spec fn spec_trim_front(s: Seq<char>) -> Seq<char>
    decreases s.len(),
{
    if s.len() > 0 && is_trim_ws(s[0]) {
        spec_trim_front(s.skip(1))
    } else {
        s
    }
}

/// `s` with trailing whitespace dropped.
pub open spec fn spec_trim_back(s: Seq<char>) -> Seq<char>
    decreases s.len(),
{
    if s.len() > 0 && is_trim_ws(s.last()) {
        spec_trim_back(s.drop_last())
    } else {
        s
    }
}

/// `s` with whitespace dropped on both sides.
pub open spec fn spec_trim(s: Seq<char>) -> Seq<char> {
    spec_trim_back(spec_trim_front(s))
}

// ---------------------------------------------------------------------------
// The header mapping and the warnings.
// ---------------------------------------------------------------------------

/// The name/value pairs contributed by the given lines, in order: one pair
/// per line with a colon, both halves trimmed; lines without one contribute
/// nothing.
pub open spec fn spec_header_entries(ls: Seq<Seq<char>>) -> Seq<(Seq<char>, Seq<char>)>
    decreases ls.len(),
{
    if ls.len() == 0 {
        Seq::<(Seq<char>, Seq<char>)>::empty()
    } else {
        let rest = spec_header_entries(ls.drop_last());
        let line = ls.last();
        let ci = colon_index(line);
        if ci >= line.len() {
            rest
        } else {
            rest.push((spec_trim(line.take(ci as int)), spec_trim(line.skip(ci as int + 1))))
        }
    }
}

/// An association list read as a mapping: a later entry for the same name
/// wins.
pub open spec fn assoc_map(entries: Seq<(Seq<char>, Seq<char>)>) -> Map<Seq<char>, Seq<char>>
    decreases entries.len(),
{
    if entries.len() == 0 {
        Map::<Seq<char>, Seq<char>>::empty()
    } else {
        assoc_map(entries.drop_last()).insert(entries.last().0, entries.last().1)
    }
}

/// The warning recorded for a header line without a colon.
pub open spec fn invalid_line_warning(line: Seq<char>) -> Seq<char> {
    "Invalid header line, missing colon separator in: '"@ + line + "'"@
}

/// The warning recorded for an unexpected version token.
pub open spec fn version_warning(version: Seq<char>) -> Seq<char> {
    "Unknown HTTP version "@ + version
}

/// The warnings contributed by the given header-field lines, in order.
pub open spec fn spec_line_warnings(ls: Seq<Seq<char>>) -> Seq<Seq<char>>
    decreases ls.len(),
{
    if ls.len() == 0 {
        Seq::<Seq<char>>::empty()
    } else {
        let rest = spec_line_warnings(ls.drop_last());
        let line = ls.last();
        if colon_index(line) >= line.len() {
            rest.push(invalid_line_warning(line))
        } else {
            rest
        }
    }
}

// ---------------------------------------------------------------------------
// The method token.
// ---------------------------------------------------------------------------

/// A character, uppercased when it is an ASCII lowercase letter: the
/// per-character behaviour of `to_ascii_uppercase`.
pub open spec fn upper_char(c: char) -> char {
    if c == 'a' {
        'A'
    } else if c == 'b' {
        'B'
    } else if c == 'c' {
        'C'
    } else if c == 'd' {
        'D'
    } else if c == 'e' {
        'E'
    } else if c == 'f' {
        'F'
    } else if c == 'g' {
        'G'
    } else if c == 'h' {
        'H'
    } else if c == 'i' {
        'I'
    } else if c == 'j' {
        'J'
    } else if c == 'k' {
        'K'
    } else if c == 'l' {
        'L'
    } else if c == 'm' {
        'M'
    } else if c == 'n' {
        'N'
    } else if c == 'o' {
        'O'
    } else if c == 'p' {
        'P'
    } else if c == 'q' {
        'Q'
    } else if c == 'r' {
        'R'
    } else if c == 's' {
        'S'
    } else if c == 't' {
        'T'
    } else if c == 'u' {
        'U'
    } else if c == 'v' {
        'V'
    } else if c == 'w' {
        'W'
    } else if c == 'x' {
        'X'
    } else if c == 'y' {
        'Y'
    } else if c == 'z' {
        'Z'
    } else {
        c
    }
}

/// A string, ASCII-uppercased character by character.
pub open spec fn spec_to_upper(s: Seq<char>) -> Seq<char> {
    Seq::new(s.len(), |i: int| upper_char(s[i]))
}

/// True when the token names a supported method, compared without regard
/// to ASCII case.
pub open spec fn is_supported_method(token: Seq<char>) -> bool {
    spec_to_upper(token) == "GET"@ || spec_to_upper(token) == "PUT"@
}

// ---------------------------------------------------------------------------
// Characterization lemmas for the scanning functions.
// ---------------------------------------------------------------------------

/// `nl_index` is the position of the first `'\n'`, or the length.
proof fn lemma_nl_index_is(s: Seq<char>, k: nat)
    requires
        k <= s.len(),
        forall|i: int| 0 <= i < k ==> s[i] != '\n',
        k < s.len() ==> s[k as int] == '\n',
    ensures
        nl_index(s) == k,
    decreases k,
{
    if k > 0 {
        lemma_nl_index_is(s.skip(1), (k - 1) as nat);
    }
}

/// `token_len` is the position of the first field whitespace, or the length.
proof fn lemma_token_len_is(s: Seq<char>, k: nat)
    requires
        k <= s.len(),
        forall|i: int| 0 <= i < k ==> !is_field_ws(s[i]),
        k < s.len() ==> is_field_ws(s[k as int]),
    ensures
        token_len(s) == k,
    decreases k,
{
    if k > 0 {
        lemma_token_len_is(s.skip(1), (k - 1) as nat);
    }
}

/// `colon_index` is the position of the first `':'`, or the length.
proof fn lemma_colon_index_is(s: Seq<char>, k: nat)
    requires
        k <= s.len(),
        forall|i: int| 0 <= i < k ==> s[i] != ':',
        k < s.len() ==> s[k as int] == ':',
    ensures
        colon_index(s) == k,
    decreases k,
{
    if k > 0 {
        lemma_colon_index_is(s.skip(1), (k - 1) as nat);
    }
}

/// Dropping `a` leading whitespace characters, up to the first character
/// that is none, is exactly what `spec_trim_front` does.
proof fn lemma_trim_front_is(s: Seq<char>, a: nat)
    requires
        a <= s.len(),
        forall|i: int| 0 <= i < a ==> is_trim_ws(s[i]),
        a < s.len() ==> !is_trim_ws(s[a as int]),
    ensures
        spec_trim_front(s) == s.skip(a as int),
    decreases a,
{
    if a == 0 {
        assert(s.skip(0) =~= s);
    } else {
        lemma_trim_front_is(s.skip(1), (a - 1) as nat);
        assert(s.skip(1).skip(a as int - 1) =~= s.skip(a as int));
    }
}

/// Dropping trailing whitespace back to position `b` is exactly what
/// `spec_trim_back` does.
proof fn lemma_trim_back_is(s: Seq<char>, b: nat)
    requires
        b <= s.len(),
        forall|i: int| b <= i < s.len() ==> is_trim_ws(s[i]),
        b > 0 ==> !is_trim_ws(s[b as int - 1]),
    ensures
        spec_trim_back(s) == s.take(b as int),
    decreases s.len(),
{
    if b == s.len() {
        if s.len() > 0 && is_trim_ws(s.last()) {
            assert(!is_trim_ws(s[b as int - 1]));
        }
        assert(s.take(b as int) =~= s);
    } else {
        lemma_trim_back_is(s.drop_last(), b);
        assert(s.drop_last().take(b as int) =~= s.take(b as int));
    }
}

// ---------------------------------------------------------------------------
// Executable scanning helpers.
// ---------------------------------------------------------------------------

/// The views of a vector of strings.
pub open spec fn str_seq_view(v: Seq<String>) -> Seq<Seq<char>> {
    Seq::new(v.len(), |i: int| v[i]@)
}

/// The views of a vector of name/value pairs.
pub open spec fn entry_seq_view(v: Seq<(String, String)>) -> Seq<(Seq<char>, Seq<char>)> {
    Seq::new(v.len(), |i: int| (v[i].0@, v[i].1@))
}

fn is_field_ws_exec(c: char) -> (r: bool)
    ensures
        r == is_field_ws(c),
{
    c == ' ' || c == '\t' || c == '\n' || c == '\u{C}' || c == '\r'
}

fn is_trim_ws_exec(c: char) -> (r: bool)
    ensures
        r == is_trim_ws(c),
{
    c == ' ' || ('\u{9}' <= c && c <= '\u{D}') || c == '\u{85}' || c == '\u{A0}' || c == '\u{1680}'
        || ('\u{2000}' <= c && c <= '\u{200A}') || c == '\u{2028}' || c == '\u{2029}' || c
        == '\u{202F}' || c == '\u{205F}' || c == '\u{3000}'
}

/// Splits a header block into its lines.
fn split_lines(s: &str) -> (lines: Vec<String>)
    ensures
        str_seq_view(lines@) == spec_lines(s@),
{
    let n = s.unicode_len();
    let mut lines: Vec<String> = Vec::new();
    let mut p: usize = 0;
    proof {
        assert(s@.skip(0) =~= s@);
        assert(str_seq_view(lines@) + spec_lines(s@) =~= spec_lines(s@));
    }
    while p < n
        invariant
            n == s@.len(),
            p <= n,
            spec_lines(s@) == str_seq_view(lines@) + spec_lines(s@.skip(p as int)),
        decreases n - p,
    {
        let ghost tail = s@.skip(p as int);
        let ghost prev = lines@;
        let mut q: usize = p;
        while q < n && s.get_char(q) != '\n'
            invariant
                n == s@.len(),
                p <= q <= n,
                forall|j: int| p <= j < q ==> s@[j] != '\n',
            decreases n - q,
        {
            q = q + 1;
        }
        proof {
            lemma_nl_index_is(tail, (q - p) as nat);
        }
        if q == n {
            // final line, no terminator: taken whole
            let line = String::from_str(s.substring_char(p, n));
            lines.push(line);
            p = n;
            proof {
                assert(tail.take(tail.len() as int) =~= tail);
                assert(line@ =~= tail);
                assert(spec_lines(tail) == seq![tail]);
                assert(s@.skip(n as int) =~= Seq::<char>::empty());
                assert(str_seq_view(lines@) =~= str_seq_view(prev).push(tail));
                assert(str_seq_view(prev) + seq![tail] =~= str_seq_view(prev).push(tail));
                assert(str_seq_view(prev).push(tail) + spec_lines(s@.skip(n as int))
                    =~= str_seq_view(prev).push(tail));
            }
        } else {
            // a newline at q: the line ends there, a '\r' right before is dropped
            let end = if q > p && s.get_char(q - 1) == '\r' {
                q - 1
            } else {
                q
            };
            let line = String::from_str(s.substring_char(p, end));
            lines.push(line);
            proof {
                let e = (q - p) as int;
                assert(tail.take(e) =~= s@.subrange(p as int, q as int));
                if q > p && s@[q as int - 1] == '\r' {
                    assert(tail.take(e).drop_last() =~= s@.subrange(p as int, q as int - 1));
                    assert(strip_cr(tail.take(e)) == s@.subrange(p as int, end as int));
                } else {
                    assert(strip_cr(tail.take(e)) == s@.subrange(p as int, end as int));
                }
                assert(tail.skip(e + 1) =~= s@.skip(q as int + 1));
                assert(spec_lines(tail) == seq![strip_cr(tail.take(e))] + spec_lines(
                    s@.skip(q as int + 1),
                ));
                assert(str_seq_view(lines@) =~= str_seq_view(prev).push(line@));
                assert(str_seq_view(prev) + (seq![line@] + spec_lines(s@.skip(q as int + 1)))
                    =~= str_seq_view(lines@) + spec_lines(s@.skip(q as int + 1)));
            }
            p = q + 1;
        }
    }
    proof {
        assert(s@.skip(n as int) =~= Seq::<char>::empty());
        assert(spec_lines(Seq::<char>::empty()) == Seq::<Seq<char>>::empty());
        assert(str_seq_view(lines@) + Seq::<Seq<char>>::empty() =~= str_seq_view(lines@));
    }
    lines
}

/// Splits a request line into its whitespace-separated fields.
fn split_fields_exec(s: &str) -> (fields: Vec<String>)
    ensures
        str_seq_view(fields@) == spec_fields(s@),
{
    let n = s.unicode_len();
    let mut fields: Vec<String> = Vec::new();
    let mut p: usize = 0;
    proof {
        assert(s@.skip(0) =~= s@);
        assert(str_seq_view(fields@) + spec_fields(s@) =~= spec_fields(s@));
    }
    while p < n
        invariant
            n == s@.len(),
            p <= n,
            spec_fields(s@) == str_seq_view(fields@) + spec_fields(s@.skip(p as int)),
        decreases n - p,
    {
        let ghost tail = s@.skip(p as int);
        let ghost prev = fields@;
        let c = s.get_char(p);
        if is_field_ws_exec(c) {
            proof {
                assert(tail.skip(1) =~= s@.skip(p as int + 1));
                assert(spec_fields(tail) == spec_fields(s@.skip(p as int + 1)));
            }
            p = p + 1;
        } else {
            let mut q = p + 1;
            while q < n && !is_field_ws_exec(s.get_char(q))
                invariant
                    n == s@.len(),
                    p < q <= n,
                    forall|j: int| p <= j < q ==> !is_field_ws(s@[j]),
                decreases n - q,
            {
                q = q + 1;
            }
            proof {
                lemma_token_len_is(tail, (q - p) as nat);
            }
            let tok = String::from_str(s.substring_char(p, q));
            fields.push(tok);
            proof {
                let t = (q - p) as int;
                assert(tail.take(t) =~= s@.subrange(p as int, q as int));
                assert(str_seq_view(fields@) =~= str_seq_view(prev).push(tail.take(t)));
                if q == n {
                    assert(tail.take(t) =~= tail);
                    assert(spec_fields(tail) == seq![tail]);
                    assert(s@.skip(n as int) =~= Seq::<char>::empty());
                    assert(str_seq_view(prev) + seq![tail] =~= str_seq_view(fields@));
                    assert(str_seq_view(fields@) + spec_fields(s@.skip(n as int))
                        =~= str_seq_view(fields@));
                } else {
                    assert(tail.skip(t) =~= s@.skip(q as int));
                    assert(spec_fields(tail) == seq![tail.take(t)] + spec_fields(s@.skip(q as int)));
                    assert(str_seq_view(prev) + (seq![tail.take(t)] + spec_fields(s@.skip(q as int)))
                        =~= str_seq_view(fields@) + spec_fields(s@.skip(q as int)));
                }
            }
            p = q;
        }
    }
    proof {
        assert(s@.skip(n as int) =~= Seq::<char>::empty());
        assert(str_seq_view(fields@) + Seq::<Seq<char>>::empty() =~= str_seq_view(fields@));
    }
    fields
}

/// Trims whitespace from both ends of a string.
fn trim_exec(s: &str) -> (t: String)
    ensures
        t@ == spec_trim(s@),
{
    let n = s.unicode_len();
    let mut a: usize = 0;
    while a < n && is_trim_ws_exec(s.get_char(a))
        invariant
            n == s@.len(),
            a <= n,
            forall|j: int| 0 <= j < a ==> is_trim_ws(s@[j]),
        decreases n - a,
    {
        a = a + 1;
    }
    let mut b: usize = n;
    while b > a && is_trim_ws_exec(s.get_char(b - 1))
        invariant
            n == s@.len(),
            a <= b <= n,
            forall|j: int| b <= j < n ==> is_trim_ws(s@[j]),
        decreases b,
    {
        b = b - 1;
    }
    proof {
        lemma_trim_front_is(s@, a as nat);
        let m = s@.skip(a as int);
        lemma_trim_back_is(m, (b - a) as nat);
        assert(m.take(b as int - a as int) =~= s@.subrange(a as int, b as int));
    }
    String::from_str(s.substring_char(a, b))
}

/// Splits a header line at its first colon into a trimmed name/value pair,
/// or reports that it has no colon.
fn split_header_line(line: &str) -> (r: Option<(String, String)>)
    ensures
        colon_index(line@) < line@.len() ==> (r matches Some(p) && p.0@ == spec_trim(
            line@.take(colon_index(line@) as int),
        ) && p.1@ == spec_trim(line@.skip(colon_index(line@) as int + 1))),
        colon_index(line@) >= line@.len() ==> r is None,
{
    let n = line.unicode_len();
    let mut q: usize = 0;
    while q < n && line.get_char(q) != ':'
        invariant
            n == line@.len(),
            q <= n,
            forall|j: int| 0 <= j < q ==> line@[j] != ':',
        decreases n - q,
    {
        q = q + 1;
    }
    proof {
        lemma_colon_index_is(line@, q as nat);
    }
    if q < n {
        let name = trim_exec(line.substring_char(0, q));
        let value = trim_exec(line.substring_char(q + 1, n));
        proof {
            assert(line@.subrange(0, q as int) =~= line@.take(q as int));
            assert(line@.subrange(q as int + 1, n as int) =~= line@.skip(q as int + 1));
        }
        Some((name, value))
    } else {
        None
    }
}

/// A character, ASCII-uppercased.
fn upper_char_exec(c: char) -> (r: char)
    ensures
        r == upper_char(c),
{
    match c {
        'a' => 'A',
        'b' => 'B',
        'c' => 'C',
        'd' => 'D',
        'e' => 'E',
        'f' => 'F',
        'g' => 'G',
        'h' => 'H',
        'i' => 'I',
        'j' => 'J',
        'k' => 'K',
        'l' => 'L',
        'm' => 'M',
        'n' => 'N',
        'o' => 'O',
        'p' => 'P',
        'q' => 'Q',
        'r' => 'R',
        's' => 'S',
        't' => 'T',
        'u' => 'U',
        'v' => 'V',
        'w' => 'W',
        'x' => 'X',
        'y' => 'Y',
        'z' => 'Z',
        _ => c,
    }
}

/// Whether the ASCII-uppercased token equals the given word.
fn token_upper_eq(tok: &str, word: &str) -> (r: bool)
    ensures
        r == (spec_to_upper(tok@) == word@),
{
    let nt = tok.unicode_len();
    let nw = word.unicode_len();
    if nt != nw {
        proof {
            assert(spec_to_upper(tok@).len() == tok@.len());
        }
        return false;
    }
    let mut i: usize = 0;
    while i < nt
        invariant
            nt == tok@.len(),
            nw == word@.len(),
            nt == nw,
            i <= nt,
            forall|j: int| 0 <= j < i ==> upper_char(tok@[j]) == word@[j],
        decreases nt - i,
    {
        let cu = upper_char_exec(tok.get_char(i));
        if cu != word.get_char(i) {
            proof {
                assert(spec_to_upper(tok@)[i as int] != word@[i as int]);
            }
            return false;
        }
        i = i + 1;
    }
    proof {
        assert(spec_to_upper(tok@) =~= word@);
    }
    true
}

// ---------------------------------------------------------------------------
// The request itself.
// ---------------------------------------------------------------------------

/// A request method, carrying the decoded request target.
#[derive(Debug)]
pub enum Method {
    Get(String),
    Put(String),
}

/// [`Method`] over mathematical strings.
pub enum MethodView {
    Get(Seq<char>),
    Put(Seq<char>),
}

impl View for Method {
    type V = MethodView;

    open spec fn view(&self) -> MethodView {
        match self {
            Method::Get(t) => MethodView::Get(t@),
            Method::Put(t) => MethodView::Put(t@),
        }
    }
}

/// The method a supported token stands for, carrying the decoded target.
pub open spec fn spec_method(token: Seq<char>, target: Seq<char>) -> MethodView {
    if spec_to_upper(token) == "GET"@ {
        MethodView::Get(target)
    } else {
        MethodView::Put(target)
    }
}

/// A parsed request: the method with its decoded target, the header fields,
/// and the warnings recorded for recoverable anomalies, in the order they
/// were found.
#[derive(Debug)]
pub struct Request {
    pub method: Method,
    /// Name/value pairs in the order parsed; a later pair with the same
    /// name takes precedence, as [`Request::headers_map`] reads them.
    pub headers: Vec<(String, String)>,
    pub warnings: Vec<String>,
}

impl Request {
    /// The header fields as a mapping; for a repeated name the last
    /// occurrence wins.
    pub open spec fn headers_map(self) -> Map<Seq<char>, Seq<char>> {
        assoc_map(entry_seq_view(self.headers@))
    }

    /// The warnings a header block must produce: one for an unexpected
    /// version token, then one per header line without a colon.
    pub open spec fn spec_warnings(version: Seq<char>, rest: Seq<Seq<char>>) -> Seq<Seq<char>> {
        (if version != "HTTP/1.1"@ {
            seq![version_warning(version)]
        } else {
            Seq::<Seq<char>>::empty()
        }) + spec_line_warnings(rest)
    }
}

/// What parsing the header block `s` must return.
///
/// The first line must split into exactly three fields; the target must
/// percent-decode to valid UTF-8; the method token must be supported, in
/// any ASCII case.  The errors come in that order of precedence.  On
/// success, every remaining line with a colon becomes a header entry and
/// every one without becomes a warning.
pub open spec fn parse_outcome_matches(s: Seq<char>, r: Result<Request, ParseError>) -> bool {
    let ls = spec_lines(s);
    if ls.len() == 0 {
        r == Result::<Request, ParseError>::Err(ParseError::MissingRequestLine)
    } else {
        let f = spec_fields(ls[0]);
        if f.len() != 3 {
            r == Result::<Request, ParseError>::Err(ParseError::MissingFields)
        } else if spec_decode_uri(f[1]) is Err {
            r == Result::<Request, ParseError>::Err(ParseError::InvalidTargetEncoding)
        } else if !is_supported_method(f[0]) {
            r == Result::<Request, ParseError>::Err(ParseError::UnknownMethod)
        } else {
            &&& r is Ok
            &&& r->Ok_0.method@ == spec_method(f[0], spec_decode_uri(f[1])->Ok_0)
            &&& entry_seq_view(r->Ok_0.headers@) == spec_header_entries(ls.skip(1))
            &&& str_seq_view(r->Ok_0.warnings@) == Request::spec_warnings(f[2], ls.skip(1))
        }
    }
}

impl Request {
    /// Parses a raw header block into a structured request.
    pub fn parse(header: &str) -> (r: Result<Request, ParseError>)
        ensures
            parse_outcome_matches(header@, r),
    {
        let ghost ls = spec_lines(header@);
        let lines = split_lines(header);
        if lines.len() == 0 {
            return Err(ParseError::MissingRequestLine);
        }
        proof {
            assert(str_seq_view(lines@)[0] == lines@[0]@);
        }
        let fields = split_fields_exec(lines[0].as_str());
        let ghost f = spec_fields(ls[0]);
        if fields.len() != 3 {
            return Err(ParseError::MissingFields);
        }
        proof {
            assert(str_seq_view(fields@)[0] == fields@[0]@);
            assert(str_seq_view(fields@)[1] == fields@[1]@);
            assert(str_seq_view(fields@)[2] == fields@[2]@);
        }

        let mut warnings: Vec<String> = Vec::new();
        if !crate::text::str_eq(fields[2].as_str(), "HTTP/1.1") {
            warnings.push(String::from_str("Unknown HTTP version ").concat(fields[2].as_str()));
        }
        let ghost vbase = if f[2] != "HTTP/1.1"@ {
            seq![version_warning(f[2])]
        } else {
            Seq::<Seq<char>>::empty()
        };
        proof {
            assert(str_seq_view(warnings@) =~= vbase);
        }

        let target = match decode_uri(fields[1].as_str()) {
            Ok(t) => t,
            Err(_) => {
                return Err(ParseError::InvalidTargetEncoding);
            },
        };

        let is_get = token_upper_eq(fields[0].as_str(), "GET");
        let is_put = token_upper_eq(fields[0].as_str(), "PUT");
        if !is_get && !is_put {
            return Err(ParseError::UnknownMethod);
        }
        let method = if is_get {
            Method::Get(target)
        } else {
            Method::Put(target)
        };

        let mut headers: Vec<(String, String)> = Vec::new();
        let mut i: usize = 1;
        proof {
            assert(ls.subrange(1, 1) =~= Seq::<Seq<char>>::empty());
            assert(entry_seq_view(headers@) =~= spec_header_entries(ls.subrange(1, 1)));
            assert(str_seq_view(warnings@) =~= vbase + spec_line_warnings(ls.subrange(1, 1)));
        }
        while i < lines.len()
            invariant
                1 <= i <= lines@.len(),
                str_seq_view(lines@) == ls,
                ls == spec_lines(header@),
                entry_seq_view(headers@) == spec_header_entries(ls.subrange(1, i as int)),
                str_seq_view(warnings@) == vbase + spec_line_warnings(ls.subrange(1, i as int)),
            decreases lines@.len() - i,
        {
            let ghost prev_entries = entry_seq_view(headers@);
            let ghost prev_warnings = str_seq_view(warnings@);
            let ghost line_view = ls[i as int];
            proof {
                assert(str_seq_view(lines@)[i as int] == lines@[i as int]@);
                assert(ls.subrange(1, i as int + 1).drop_last() =~= ls.subrange(1, i as int));
                assert(ls.subrange(1, i as int + 1).last() == line_view);
            }
            match split_header_line(lines[i].as_str()) {
                Some(pair) => {
                    headers.push(pair);
                    proof {
                        assert(entry_seq_view(headers@) =~= prev_entries.push(
                            (
                                spec_trim(line_view.take(colon_index(line_view) as int)),
                                spec_trim(line_view.skip(colon_index(line_view) as int + 1)),
                            ),
                        ));
                    }
                },
                None => {
                    let w = String::from_str(
                        "Invalid header line, missing colon separator in: '",
                    ).concat(lines[i].as_str()).concat("'");
                    warnings.push(w);
                    proof {
                        assert(str_seq_view(warnings@) =~= prev_warnings.push(
                            invalid_line_warning(line_view),
                        ));
                        assert(prev_warnings.push(invalid_line_warning(line_view)) =~= vbase
                            + spec_line_warnings(ls.subrange(1, i as int + 1)));
                    }
                },
            }
            i = i + 1;
        }
        proof {
            assert(ls.subrange(1, ls.len() as int) =~= ls.skip(1));
        }
        Ok(Request { method, headers, warnings })
    }
}

impl Request {
    /// The value of the named header field, if any: the last entry with
    /// that name, as [`headers_map`](Request::headers_map) reads the list.
    pub fn header_value(&self, name: &str) -> (r: Option<&String>)
        ensures
            self.headers_map().contains_key(name@) ==> (r matches Some(v) && v@
                == self.headers_map()[name@]),
            !self.headers_map().contains_key(name@) ==> r is None,
    {
        let n = self.headers.len();
        let mut j = n;
        while j > 0
            invariant
                n == self.headers@.len(),
                j <= n,
                forall|m: int|
                    j <= m < n ==> #[trigger] entry_seq_view(self.headers@)[m].0 != name@,
            decreases j,
        {
            j = j - 1;
            if crate::text::str_eq(self.headers[j].0.as_str(), name) {
                proof {
                    let entries = entry_seq_view(self.headers@);
                    lemma_assoc_map_after(entries, j as int + 1, name@);
                    assert(entries.take(j as int + 1).drop_last() =~= entries.take(j as int));
                    assert(entries.take(j as int + 1).last() == entries[j as int]);
                }
                return Some(&self.headers[j].1);
            }
        }
        proof {
            let entries = entry_seq_view(self.headers@);
            lemma_assoc_map_after(entries, 0, name@);
            assert(entries.take(0) =~= Seq::<(Seq<char>, Seq<char>)>::empty());
        }
        None
    }
}

/// When no entry at or after position `j` carries the key, the mapping at
/// that key is whatever the first `j` entries give it.
proof fn lemma_assoc_map_after(entries: Seq<(Seq<char>, Seq<char>)>, j: int, k: Seq<char>)
    requires
        0 <= j <= entries.len(),
        forall|m: int| j <= m < entries.len() ==> #[trigger] entries[m].0 != k,
    ensures
        assoc_map(entries).contains_key(k) == assoc_map(entries.take(j)).contains_key(k),
        assoc_map(entries).contains_key(k) ==> assoc_map(entries)[k] == assoc_map(
            entries.take(j),
        )[k],
    decreases entries.len() - j,
{
    if j == entries.len() {
        assert(entries.take(j) =~= entries);
    } else {
        lemma_assoc_map_after(entries, j + 1, k);
        assert(entries.take(j + 1).drop_last() =~= entries.take(j));
        assert(entries.take(j + 1).last() == entries[j]);
    }
}

// ---------------------------------------------------------------------------
// Locating the end of the header block in raw connection bytes.
// ---------------------------------------------------------------------------

/// True when `needle` occurs in `hay` at position `i`.
pub open spec fn is_match_at(hay: Seq<u8>, needle: Seq<u8>, i: int) -> bool {
    0 <= i && i + needle.len() <= hay.len() && hay.subrange(i, i + needle.len() as int) == needle
}

/// The first position where `needle` occurs in `hay`, if it does.
pub open spec fn spec_find(hay: Seq<u8>, needle: Seq<u8>) -> Option<int>
    decreases hay.len(),
{
    if needle.len() > hay.len() {
        None
    } else if hay.take(needle.len() as int) == needle {
        Some(0int)
    } else if hay.len() == 0 {
        None
    } else {
        match spec_find(hay.skip(1), needle) {
            Some(j) => Some(j + 1),
            None => None,
        }
    }
}

/// `spec_find` returns the position of the first occurrence.
proof fn lemma_spec_find_at(hay: Seq<u8>, needle: Seq<u8>, k: int)
    requires
        is_match_at(hay, needle, k),
        forall|m: int| 0 <= m < k ==> !is_match_at(hay, needle, m),
    ensures
        spec_find(hay, needle) == Some(k),
    decreases k,
{
    if k == 0 {
        assert(hay.take(needle.len() as int) =~= hay.subrange(0, needle.len() as int));
    } else {
        assert(!is_match_at(hay, needle, 0));
        if hay.take(needle.len() as int) == needle {
            assert(hay.subrange(0, needle.len() as int) =~= hay.take(needle.len() as int));
            assert(false);
        }
        assert(hay.skip(1).subrange(k - 1, k - 1 + needle.len() as int) =~= hay.subrange(
            k,
            k + needle.len() as int,
        ));
        assert(is_match_at(hay.skip(1), needle, k - 1));
        assert forall|m: int| 0 <= m < k - 1 implies !is_match_at(hay.skip(1), needle, m) by {
            if is_match_at(hay.skip(1), needle, m) {
                assert(hay.skip(1).subrange(m, m + needle.len() as int) =~= hay.subrange(
                    m + 1,
                    m + 1 + needle.len() as int,
                ));
                assert(is_match_at(hay, needle, m + 1));
            }
        }
        lemma_spec_find_at(hay.skip(1), needle, k - 1);
    }
}

/// `spec_find` finds nothing exactly when there is nothing to find.
proof fn lemma_spec_find_none(hay: Seq<u8>, needle: Seq<u8>)
    requires
        forall|m: int| !is_match_at(hay, needle, m),
    ensures
        spec_find(hay, needle) is None,
    decreases hay.len(),
{
    if needle.len() <= hay.len() {
        assert(!is_match_at(hay, needle, 0));
        if hay.take(needle.len() as int) == needle {
            assert(hay.subrange(0, needle.len() as int) =~= hay.take(needle.len() as int));
            assert(false);
        }
        if hay.len() > 0 {
            assert forall|m: int| !is_match_at(hay.skip(1), needle, m) by {
                if is_match_at(hay.skip(1), needle, m) {
                    assert(hay.skip(1).subrange(m, m + needle.len() as int) =~= hay.subrange(
                        m + 1,
                        m + 1 + needle.len() as int,
                    ));
                    assert(is_match_at(hay, needle, m + 1));
                }
            }
            lemma_spec_find_none(hay.skip(1), needle);
        }
    }
}

/// Finds the first occurrence of `pat` in `hay`.
fn find_pattern(hay: &[u8], pat: &[u8]) -> (r: Option<usize>)
    requires
        pat@.len() >= 1,
    ensures
        r matches Some(i) ==> spec_find(hay@, pat@) == Some(i as int) && i + pat@.len()
            <= hay@.len(),
        r is None ==> spec_find(hay@, pat@) is None,
{
    let n = hay.len();
    let m = pat.len();
    if m > n {
        return None;
    }
    let mut i: usize = 0;
    while i <= n - m
        invariant
            n == hay@.len(),
            m == pat@.len(),
            1 <= m <= n,
            i <= n - m + 1,
            forall|q: int| 0 <= q < i ==> !is_match_at(hay@, pat@, q),
        decreases n - m - i + 1,
    {
        let mut j: usize = 0;
        let mut ok = true;
        while j < m
            invariant
                n == hay@.len(),
                m == pat@.len(),
                i + m <= n,
                j <= m,
                ok ==> forall|t: int| 0 <= t < j ==> hay@[i + t] == pat@[t],
                !ok ==> !is_match_at(hay@, pat@, i as int),
            decreases m - j,
        {
            if hay[i + j] != pat[j] {
                proof {
                    if is_match_at(hay@, pat@, i as int) {
                        assert(hay@.subrange(i as int, i + m as int)[j as int] == pat@[j as int]);
                        assert(hay@[i + j] == pat@[j as int]);
                    }
                }
                ok = false;
                j = m;
            } else {
                j = j + 1;
            }
        }
        if ok {
            proof {
                assert(hay@.subrange(i as int, i + m as int) =~= pat@);
                lemma_spec_find_at(hay@, pat@, i as int);
            }
            return Some(i);
        }
        i = i + 1;
    }
    proof {
        assert forall|q: int| !is_match_at(hay@, pat@, q) by {
            if 0 <= q <= n - m {
                assert(!is_match_at(hay@, pat@, q));
            }
        }
        lemma_spec_find_none(hay@, pat@);
    }
    None
}

/// The two-byte-sequence terminators a header block can end with.
pub open spec fn crlf_crlf() -> Seq<u8> {
    seq![13u8, 10u8, 13u8, 10u8]
}

pub open spec fn lf_lf() -> Seq<u8> {
    seq![10u8, 10u8]
}

/// Where the header block ends in the inspected bytes: the length of the
/// bytes before the terminator, and the terminator's own length.  A
/// `\r\n\r\n` anywhere wins over a `\n\n`.
pub open spec fn spec_header_end(buf: Seq<u8>) -> Option<(int, int)> {
    match spec_find(buf, crlf_crlf()) {
        Some(i) => Some((i, 4int)),
        None => match spec_find(buf, lf_lf()) {
            Some(i) => Some((i, 2int)),
            None => None,
        },
    }
}

/// Finds the end of the header block in the bytes inspected so far,
/// returning how many bytes belong to the header and how long the
/// terminator is, so a caller can consume exactly both.
pub fn find_header_end(buf: &[u8]) -> (r: Option<(usize, usize)>)
    ensures
        match spec_header_end(buf@) {
            Some(e) => r matches Some(p) && p.0 == e.0 && p.1 == e.1 && p.0 + p.1 <= buf@.len(),
            None => r is None,
        },
{
    let mut crlf2: Vec<u8> = Vec::new();
    crlf2.push(13);
    crlf2.push(10);
    crlf2.push(13);
    crlf2.push(10);
    proof {
        assert(crlf2@ =~= crlf_crlf());
    }
    match find_pattern(buf, crlf2.as_slice()) {
        Some(i) => Some((i, 4)),
        None => {
            let mut lf2: Vec<u8> = Vec::new();
            lf2.push(10);
            lf2.push(10);
            proof {
                assert(lf2@ =~= lf_lf());
            }
            match find_pattern(buf, lf2.as_slice()) {
                Some(i) => Some((i, 2)),
                None => None,
            }
        },
    }
}

// ---------------------------------------------------------------------------
// Parsing straight from connection bytes.
// ---------------------------------------------------------------------------

/// What `String::from_utf8_lossy` makes of a byte sequence: a function of
/// the bytes alone.
pub uninterp spec fn lossy_utf8(bytes: Seq<u8>) -> Seq<char>;

/// Relies on `String::from_utf8_lossy`: its result depends on the bytes
/// alone, and bytes that are valid UTF-8 come back as exactly the text they
/// encode.
#[verifier::external_body]
fn lossy_string(bytes: &[u8]) -> (r: String)
    ensures
        r@ == lossy_utf8(bytes@),
        valid_utf8(bytes@) ==> r@ == decode_utf8(bytes@),
{
    String::from_utf8_lossy(bytes).to_string()
}

impl Request {
    /// Parses a header block given as raw bytes, read leniently as UTF-8.
    pub fn parse_header_bytes(head: &[u8]) -> (r: Result<Request, ParseError>)
        ensures
            parse_outcome_matches(lossy_utf8(head@), r),
    {
        let text = lossy_string(head);
        Request::parse(text.as_str())
    }

    /// Parses a request from the raw bytes inspected on a connection: the
    /// bytes before the blank-line terminator are the header block, and
    /// without a terminator the request is rejected.
    pub fn parse_block(buf: &[u8]) -> (r: Result<Request, ParseError>)
        ensures
            match spec_header_end(buf@) {
                Some(e) => parse_outcome_matches(lossy_utf8(buf@.take(e.0)), r),
                None => r == Result::<Request, ParseError>::Err(ParseError::TerminatorNotFound),
            },
    {
        match find_header_end(buf) {
            Some((end, _terminator_len)) => {
                let head = vstd::slice::slice_subrange(buf, 0, end);
                proof {
                    assert(head@ =~= buf@.take(end as int));
                }
                Request::parse_header_bytes(head)
            },
            None => Err(ParseError::TerminatorNotFound),
        }
    }
}

// ---------------------------------------------------------------------------
// Laws.
// ---------------------------------------------------------------------------

/// Law: parsing succeeds exactly when the request line is sound — it
/// splits into three fields, the target decodes, and the method is
/// supported.  The header-field lines can neither cause nor prevent
/// failure.
pub proof fn lemma_parse_ok_iff(s: Seq<char>, r: Result<Request, ParseError>)
    requires
        parse_outcome_matches(s, r),
    ensures
        r is Ok <==> {
            &&& spec_lines(s).len() > 0
            &&& spec_fields(spec_lines(s)[0]).len() == 3
            &&& spec_decode_uri(spec_fields(spec_lines(s)[0])[1]) is Ok
            &&& is_supported_method(spec_fields(spec_lines(s)[0])[0])
        },
{
}

/// Header lines that all carry a colon contribute no warnings.
proof fn lemma_no_line_warnings(ls: Seq<Seq<char>>)
    requires
        forall|i: int| 0 <= i < ls.len() ==> colon_index(#[trigger] ls[i]) < ls[i].len(),
    ensures
        spec_line_warnings(ls) == Seq::<Seq<char>>::empty(),
    decreases ls.len(),
{
    if ls.len() > 0 {
        assert forall|i: int| 0 <= i < ls.drop_last().len() implies colon_index(
            #[trigger] ls.drop_last()[i],
        ) < ls.drop_last()[i].len() by {
            assert(ls.drop_last()[i] == ls[i]);
        }
        lemma_no_line_warnings(ls.drop_last());
        assert(colon_index(ls[ls.len() - 1]) < ls[ls.len() - 1].len());
        assert(ls.last() == ls[ls.len() - 1]);
    }
}

/// Law: a request line with an unexpected version token still parses, and
/// when every header line carries its colon, the one warning recorded is
/// the version warning.
pub proof fn lemma_nonstandard_version_one_warning(s: Seq<char>, r: Result<Request, ParseError>)
    requires
        parse_outcome_matches(s, r),
        spec_lines(s).len() > 0,
        spec_fields(spec_lines(s)[0]).len() == 3,
        spec_decode_uri(spec_fields(spec_lines(s)[0])[1]) is Ok,
        is_supported_method(spec_fields(spec_lines(s)[0])[0]),
        spec_fields(spec_lines(s)[0])[2] != "HTTP/1.1"@,
        forall|i: int|
            0 <= i < spec_lines(s).skip(1).len() ==> colon_index(#[trigger] spec_lines(s).skip(1)[i])
                < spec_lines(s).skip(1)[i].len(),
    ensures
        r is Ok,
        str_seq_view(r->Ok_0.warnings@) == seq![
            version_warning(spec_fields(spec_lines(s)[0])[2]),
        ],
{
    lemma_no_line_warnings(spec_lines(s).skip(1));
    assert(str_seq_view(r->Ok_0.warnings@) =~= seq![
        version_warning(spec_fields(spec_lines(s)[0])[2]),
    ]);
}

/// Law: a header line without a colon is dropped from the header entries —
/// and so from the mapping — and contributes exactly one warning; parsing
/// itself is unaffected.
pub proof fn lemma_line_without_colon(ls: Seq<Seq<char>>, line: Seq<char>)
    requires
        colon_index(line) >= line.len(),
    ensures
        spec_header_entries(ls.push(line)) == spec_header_entries(ls),
        assoc_map(spec_header_entries(ls.push(line))) == assoc_map(spec_header_entries(ls)),
        spec_line_warnings(ls.push(line)) == spec_line_warnings(ls).push(
            invalid_line_warning(line),
        ),
{
    assert(ls.push(line).drop_last() =~= ls);
}

} // verus!
