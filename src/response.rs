//! Building response bytes: a status line, a `Content-Length` header, a
//! blank line, then the body.
use vstd::prelude::*;

verus! {

/// The bytes of an ASCII character sequence.
pub open spec fn ascii(s: Seq<char>) -> Seq<u8> {
    s.map_values(|c: char| c as u8)
}

/// Every character of `s` is ASCII.
pub open spec fn all_ascii(s: Seq<char>) -> bool {
    forall|i: int| 0 <= i < s.len() ==> (s[i] as u32) < 128
}

/// The decimal digits of `n`, most significant first, without leading zeros.
pub open spec fn decimal(n: nat) -> Seq<u8>
    decreases n,
{
    if n < 10 {
        seq![(48 + n) as u8]
    } else {
        decimal(n / 10).push((48 + n % 10) as u8)
    }
}

/// `s` is a non-empty run of ASCII decimal digits.
pub open spec fn is_digits(s: Seq<u8>) -> bool {
    s.len() > 0 && forall|i: int| 0 <= i < s.len() ==> 48 <= #[trigger] s[i] <= 57
}

/// The number that a run of decimal digits denotes.
pub open spec fn decimal_value(s: Seq<u8>) -> nat
    decreases s.len(),
{
    if s.len() == 0 {
        0
    } else {
        decimal_value(s.drop_last()) * 10 + (s.last() - 48) as nat
    }
}

/// What precedes the length in a successful response.
pub open spec fn ok_head() -> Seq<u8> {
    ascii("HTTP/1.1 200 OK\r\nContent-Length: "@)
}

/// What separates the length from the body.
pub open spec fn head_end() -> Seq<u8> {
    ascii("\r\n\r\n"@)
}

/// The successful response that carries `body`.
pub open spec fn ok_response(body: Seq<u8>) -> Seq<u8> {
    ok_head() + decimal(body.len()) + head_end() + body
}

/// A response with the status line `status` and an empty body.
pub open spec fn empty_response(status: Seq<char>) -> Seq<u8> {
    ascii(status + "\r\nContent-Length: 0\r\n\r\n"@)
}

/// The response to a request that could not be parsed.
pub open spec fn bad_request_response() -> Seq<u8> {
    empty_response("HTTP/1.1 400 Bad Request"@)
}

/// The response to a request for a file that could not be read.
pub open spec fn not_found_response() -> Seq<u8> {
    empty_response("HTTP/1.1 404 Not Found"@)
}

/// Appends the bytes of the ASCII string `s` to `out`.
fn push_ascii(out: &mut Vec<u8>, s: &str)
    requires
        all_ascii(s@),
    ensures
        final(out)@ == old(out)@ + ascii(s@),
{
    let n = s.unicode_len();
    let mut i: usize = 0;
    while i < n
        invariant
            n == s@.len(),
            i <= n,
            all_ascii(s@),
            out@ == old(out)@ + ascii(s@.subrange(0, i as int)),
        decreases n - i,
    {
        let c = s.get_char(i);
        out.push(c as u8);
        assert(ascii(s@.subrange(0, i + 1)) =~= ascii(s@.subrange(0, i as int)).push(c as u8));
        i = i + 1;
    }
    assert(s@.subrange(0, n as int) =~= s@);
}

/// Appends the decimal digits of `n` to `out`.
fn push_decimal(out: &mut Vec<u8>, n: usize)
    ensures
        final(out)@ == old(out)@ + decimal(n as nat),
    decreases n,
{
    if n >= 10 {
        push_decimal(out, n / 10);
    }
    let digit = (n % 10) as u8;
    out.push(48u8 + digit);
    assert(final(out)@ =~= old(out)@ + decimal(n as nat));
}

/// The successful response that carries `contents`: status line
/// `HTTP/1.1 200 OK`, a `Content-Length` equal to the byte length of
/// `contents`, a blank line, then `contents` verbatim.
pub fn build_response(contents: &[u8]) -> (r: Vec<u8>)
    ensures
        r@ == ok_response(contents@),
{
    let mut out: Vec<u8> = Vec::new();
    proof {
        reveal_strlit("HTTP/1.1 200 OK\r\nContent-Length: ");
        reveal_strlit("\r\n\r\n");
    }
    push_ascii(&mut out, "HTTP/1.1 200 OK\r\nContent-Length: ");
    push_decimal(&mut out, contents.len());
    push_ascii(&mut out, "\r\n\r\n");
    let n = contents.len();
    let mut i: usize = 0;
    let ghost start = out@;
    while i < n
        invariant
            n == contents@.len(),
            i <= n,
            out@ == start + contents@.subrange(0, i as int),
        decreases n - i,
    {
        out.push(contents[i]);
        assert(contents@.subrange(0, i + 1) =~= contents@.subrange(0, i as int).push(contents@[i as int]));
        i = i + 1;
    }
    assert(contents@.subrange(0, n as int) =~= contents@);
    assert(out@ =~= ok_response(contents@));
    out
}

/// The response to a request that could not be parsed:
/// `HTTP/1.1 400 Bad Request` with an empty body.
pub fn bad_request() -> (r: Vec<u8>)
    ensures
        r@ == bad_request_response(),
{
    let mut out: Vec<u8> = Vec::new();
    proof {
        reveal_strlit("HTTP/1.1 400 Bad Request\r\nContent-Length: 0\r\n\r\n");
        reveal_strlit("HTTP/1.1 400 Bad Request");
        reveal_strlit("\r\nContent-Length: 0\r\n\r\n");
    }
    push_ascii(&mut out, "HTTP/1.1 400 Bad Request\r\nContent-Length: 0\r\n\r\n");
    assert("HTTP/1.1 400 Bad Request"@ + "\r\nContent-Length: 0\r\n\r\n"@
        =~= "HTTP/1.1 400 Bad Request\r\nContent-Length: 0\r\n\r\n"@);
    out
}

/// The response to a request for a file that could not be read:
/// `HTTP/1.1 404 Not Found` with an empty body.
pub fn not_found() -> (r: Vec<u8>)
    ensures
        r@ == not_found_response(),
{
    let mut out: Vec<u8> = Vec::new();
    proof {
        reveal_strlit("HTTP/1.1 404 Not Found\r\nContent-Length: 0\r\n\r\n");
        reveal_strlit("HTTP/1.1 404 Not Found");
        reveal_strlit("\r\nContent-Length: 0\r\n\r\n");
    }
    push_ascii(&mut out, "HTTP/1.1 404 Not Found\r\nContent-Length: 0\r\n\r\n");
    assert("HTTP/1.1 404 Not Found"@ + "\r\nContent-Length: 0\r\n\r\n"@
        =~= "HTTP/1.1 404 Not Found\r\nContent-Length: 0\r\n\r\n"@);
    out
}

/// The digits of `n` are decimal digits and denote `n`.
pub proof fn lemma_decimal(n: nat)
    ensures
        is_digits(decimal(n)),
        decimal_value(decimal(n)) == n,
    decreases n,
{
    if n >= 10 {
        lemma_decimal(n / 10);
        let d = decimal(n);
        assert(d.drop_last() =~= decimal(n / 10));
        assert(d.last() == (48 + n % 10) as u8);
        assert((d.last() - 48) as nat == n % 10);
        assert(decimal_value(d) == decimal_value(decimal(n / 10)) * 10 + n % 10);
        assert((n / 10) * 10 + n % 10 == n) by (nonlinear_arith);
    } else {
        let d = decimal(n);
        assert(d.drop_last() =~= Seq::<u8>::empty());
        assert(decimal_value(d.drop_last()) == 0);
        assert((d.last() - 48) as nat == n);
    }
}

/// In a successful response, the `Content-Length` header holds a run of
/// decimal digits, followed by the blank line, whose value is the exact
/// number of bytes that follow the blank line.
pub proof fn lemma_content_length_matches_body(body: Seq<u8>)
    ensures
        ({
            let r = ok_response(body);
            let h = ok_head().len() as int;
            let k = decimal(body.len()).len() as int;
            &&& r.subrange(0, h) == ok_head()
            &&& is_digits(r.subrange(h, h + k))
            &&& r.subrange(h + k, h + k + 4) == head_end()
            &&& decimal_value(r.subrange(h, h + k)) == r.len() - (h + k + 4)
            &&& r.subrange(h + k + 4, r.len() as int) == body
        }),
{
    reveal_strlit("\r\n\r\n");
    let r = ok_response(body);
    let d = decimal(body.len());
    let h = ok_head().len() as int;
    let k = d.len() as int;
    lemma_decimal(body.len());
    assert(head_end().len() == 4);
    assert(r.subrange(0, h) =~= ok_head());
    assert(r.subrange(h, h + k) =~= d);
    assert(r.subrange(h + k, h + k + 4) =~= head_end());
    assert(r.subrange(h + k + 4, r.len() as int) =~= body);
}

} // verus!
