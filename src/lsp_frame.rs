//! Framing of JSON-RPC messages on a language server's pipes:
//! `Content-Length: N\r\n\r\n` followed by N bytes of JSON. Other headers
//! are ignored.
use vstd::prelude::*;
use crate::code_unit::{decimal_of, decimal_string};
use crate::normalize::{is_ws, is_whitespace_char};
use crate::text::{starts_with, to_chars, from_chars, extend_chars, slice_chars, starts_with_chars};

verus! {

/// The header that announces a body of `len` bytes.
pub open spec fn header_text(len: nat) -> Seq<char> {
    "Content-Length: "@ + decimal_of(len) + "\r\n\r\n"@
}

/// The header for a body of `len` bytes.
pub fn frame_header(len: usize) -> (r: String)
    ensures
        r@ == header_text(len as nat),
{
    let mut v = to_chars("Content-Length: ");
    extend_chars(&mut v, &to_chars(decimal_string(len as u64).as_str()));
    extend_chars(&mut v, &to_chars("\r\n\r\n"));
    from_chars(&v)
}

/// A whole message: the header for the UTF-8 length of `body`, then `body`.
pub fn frame_message(body: &str) -> (r: String)
    ensures
        r@ == header_text(body.len() as nat) + body@,
{
    let h = frame_header(body.len());
    let mut v = to_chars(h.as_str());
    extend_chars(&mut v, &to_chars(body));
    from_chars(&v)
}

/// `s` without the white space at its start.
pub open spec fn trim_start(s: Seq<char>) -> Seq<char>
    decreases s.len(),
{
    if s.len() > 0 && is_ws(s[0]) {
        trim_start(s.drop_first())
    } else {
        s
    }
}

/// `s` without the white space at its end.
pub open spec fn trim_end(s: Seq<char>) -> Seq<char>
    decreases s.len(),
{
    if s.len() > 0 && is_ws(s.last()) {
        trim_end(s.drop_last())
    } else {
        s
    }
}

/// `s` without white space at either end (`str::trim`).
pub open spec fn trim(s: Seq<char>) -> Seq<char> {
    trim_end(trim_start(s))
}

/// The value of a run of decimal digits.
pub open spec fn digits_value(s: Seq<char>) -> nat
    decreases s.len(),
{
    if s.len() == 0 {
        0
    } else {
        digits_value(s.drop_last()) * 10 + (s.last() as nat - '0' as nat) as nat
    }
}

/// All chars of `s` are decimal digits.
pub open spec fn all_digits(s: Seq<char>) -> bool {
    forall|i: int| 0 <= i < s.len() ==> '0' <= #[trigger] s[i] && s[i] <= '9'
}

/// The `usize` that `s` spells (`str::parse::<usize>`): an optional `+`,
/// then one or more digits, the value fitting in `usize`.
pub open spec fn parse_usize(s: Seq<char>) -> Option<nat> {
    let d = if s.len() > 0 && s[0] == '+' {
        s.drop_first()
    } else {
        s
    };
    if d.len() > 0 && all_digits(d) && digits_value(d) <= usize::MAX {
        Some(digits_value(d))
    } else {
        None
    }
}

/// What one header line says.
#[derive(Debug, Clone, Copy, PartialEq, Eq, Structural)]
pub enum HeaderLine {
    /// The empty line that ends the headers.
    End,
    /// A `Content-Length` header with its value (0 when unreadable).
    ContentLength(usize),
    /// Any other header.
    Other,
}

/// The meaning of a header line: blank once trimmed ends the headers; one
/// starting with `Content-Length:` gives the trimmed rest read as a number
/// (0 when it is none); anything else is ignored.
pub open spec fn header_line_meaning(line: Seq<char>) -> HeaderLine {
    let t = trim(line);
    if t.len() == 0 {
        HeaderLine::End
    } else if starts_with(t, "Content-Length:"@) {
        match parse_usize(trim(t.subrange(15, t.len() as int))) {
            Some(n) => HeaderLine::ContentLength(n as usize),
            None => HeaderLine::ContentLength(0),
        }
    } else {
        HeaderLine::Other
    }
}

fn trim_chars(s: &Vec<char>) -> (r: Vec<char>)
    ensures
        r@ == trim(s@),
{
    let mut a: usize = 0;
    assert(s@.subrange(0, s@.len() as int) =~= s@);
    while a < s.len() && is_whitespace_char(s[a])
        invariant
            a <= s.len(),
            trim_start(s@.subrange(a as int, s@.len() as int)) == trim_start(s@),
        decreases s.len() - a,
    {
        assert(s@.subrange(a as int, s@.len() as int).drop_first() =~= s@.subrange(
            a + 1,
            s@.len() as int,
        ));
        a = a + 1;
    }
    let ghost ts = s@.subrange(a as int, s@.len() as int);
    assert(trim_start(s@) == ts);
    let mut b: usize = s.len();
    assert(s@.subrange(a as int, b as int) == ts);
    while b > a && is_whitespace_char(s[b - 1])
        invariant
            a <= b <= s.len(),
            trim_end(s@.subrange(a as int, b as int)) == trim_end(ts),
        decreases b,
    {
        assert(s@.subrange(a as int, b as int).drop_last() =~= s@.subrange(a as int, b - 1));
        b = b - 1;
    }
    slice_chars(s, a, b)
}

fn parse_usize_chars(s: &Vec<char>) -> (r: Option<usize>)
    ensures
        r matches Some(n) ==> parse_usize(s@) == Some(n as nat),
        r is None ==> parse_usize(s@) is None,
{
    let start: usize = if s.len() > 0 && s[0] == '+' {
        1
    } else {
        0
    };
    let ghost d = if s@.len() > 0 && s@[0] == '+' {
        s@.drop_first()
    } else {
        s@
    };
    assert(d =~= s@.subrange(start as int, s@.len() as int));
    if start == s.len() {
        return None;
    }
    let mut v: usize = 0;
    let mut i: usize = start;
    assert(s@.subrange(start as int, start as int) =~= Seq::<char>::empty());
    while i < s.len()
        invariant
            start <= i <= s.len(),
            start < s.len(),
            d == s@.subrange(start as int, s@.len() as int),
            d == (if s@.len() > 0 && s@[0] == '+' {
                s@.drop_first()
            } else {
                s@
            }),
            all_digits(s@.subrange(start as int, i as int)),
            v as nat == digits_value(s@.subrange(start as int, i as int)),
        decreases s.len() - i,
    {
        let c = s[i];
        let ghost pre = s@.subrange(start as int, i as int);
        let ghost next = s@.subrange(start as int, i + 1);
        assert(next.drop_last() =~= pre);
        if !('0' <= c && c <= '9') {
            assert(!all_digits(d)) by {
                assert(d[i - start] == c);
            }
            return None;
        }
        let digit = (c as u32 - '0' as u32) as usize;
        if v > (usize::MAX - digit) / 10 {
            proof {
                assert(d.subrange(0, i + 1 - start) =~= next);
                assert(digits_value(next) == v * 10 + digit) by {
                    assert(next.last() == c);
                }
                assert(v * 10 + digit > usize::MAX) by (nonlinear_arith)
                    requires
                        v > (usize::MAX - digit) / 10,
                        digit <= 9,
                ;
                if all_digits(d) {
                    lemma_digits_prefix_bound(d, (i + 1 - start) as int);
                }
            }
            return None;
        }
        assert(v * 10 + digit <= usize::MAX) by (nonlinear_arith)
            requires
                v <= (usize::MAX - digit) / 10,
                digit <= 9,
        ;
        v = v * 10 + digit;
        proof {
            assert(next.last() == c);
            assert(all_digits(next)) by {
                assert forall|k: int| 0 <= k < next.len() implies '0' <= #[trigger] next[k] && next[k] <= '9' by {
                    if k < pre.len() {
                        assert(next[k] == pre[k]);
                    }
                }
            }
        }
        i = i + 1;
    }
    Some(v)
}

proof fn lemma_digits_prefix_bound(d: Seq<char>, k: int)
    requires
        0 <= k <= d.len(),
        all_digits(d),
    ensures
        digits_value(d.subrange(0, k)) <= digits_value(d),
    decreases d.len(),
{
    if k < d.len() {
        assert(d.drop_last().subrange(0, k) =~= d.subrange(0, k));
        assert(all_digits(d.drop_last())) by {
            assert forall|i: int| 0 <= i < d.drop_last().len() implies '0' <= #[trigger] d.drop_last()[i]
                && d.drop_last()[i] <= '9' by {
                assert(d.drop_last()[i] == d[i]);
            }
        }
        lemma_digits_prefix_bound(d.drop_last(), k);
        assert(digits_value(d) >= digits_value(d.drop_last())) by (nonlinear_arith)
            requires
                digits_value(d) == digits_value(d.drop_last()) * 10 + (d.last() as nat - '0' as nat) as nat,
        ;
    } else {
        assert(d.subrange(0, k) =~= d);
    }
}

/// What the header line `line` says (see `header_line_meaning`).
pub fn classify_header_line(line: &str) -> (r: HeaderLine)
    ensures
        r == header_line_meaning(line@),
{
    let t = trim_chars(&to_chars(line));
    if t.len() == 0 {
        return HeaderLine::End;
    }
    let key = to_chars("Content-Length:");
    proof {
        reveal_strlit("Content-Length:");
    }
    if starts_with_chars(&t, &key) {
        let rest = trim_chars(&slice_chars(&t, 15, t.len()));
        match parse_usize_chars(&rest) {
            Some(n) => HeaderLine::ContentLength(n),
            None => HeaderLine::ContentLength(0),
        }
    } else {
        HeaderLine::Other
    }
}

/// What the reader does after a header line.
#[derive(Debug, Clone, Copy, PartialEq, Eq, Structural)]
pub enum HeaderStep {
    /// Read the next header line; the body length known so far.
    Continue(usize),
    /// The headers are over: read a body of this many bytes.
    ReadBody(usize),
    /// The headers are over and announced no body: start on the next
    /// message.
    Restart,
}

/// The reader's step after a header line, with `length` the body length
/// announced so far in this message.
pub open spec fn header_step_spec(length: usize, line: HeaderLine) -> HeaderStep {
    match line {
        HeaderLine::End => if length == 0 {
            HeaderStep::Restart
        } else {
            HeaderStep::ReadBody(length)
        },
        HeaderLine::ContentLength(n) => HeaderStep::Continue(n),
        HeaderLine::Other => HeaderStep::Continue(length),
    }
}

/// The reader's step after a header line.
pub fn header_step(length: usize, line: HeaderLine) -> (r: HeaderStep)
    ensures
        r == header_step_spec(length, line),
{
    match line {
        HeaderLine::End => if length == 0 {
            HeaderStep::Restart
        } else {
            HeaderStep::ReadBody(length)
        },
        HeaderLine::ContentLength(n) => HeaderStep::Continue(n),
        HeaderLine::Other => HeaderStep::Continue(length),
    }
}

} // verus!
