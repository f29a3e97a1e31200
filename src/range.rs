//! Single byte ranges of the `Range` request header.
use vstd::prelude::*;

verus! {

pub open spec fn is_digit(c: char) -> bool {
    '0' <= c <= '9'
}

pub open spec fn all_digits(s: Seq<char>) -> bool {
    forall|i: int| 0 <= i < s.len() ==> is_digit(#[trigger] s[i])
}

/// The number that a run of decimal digits spells.
pub open spec fn digits_value(s: Seq<char>) -> int
    decreases s.len(),
{
    if s.len() == 0 {
        0
    } else {
        digits_value(s.drop_last()) * 10 + (s.last() as int - '0' as int)
    }
}

/// `s` read as an unsigned 64-bit decimal number with an optional leading
/// `+`, as the standard library reads one.
pub open spec fn decimal_u64(s: Seq<char>) -> Option<u64> {
    let body = if s.len() > 0 && s[0] == '+' {
        s.drop_first()
    } else {
        s
    };
    if body.len() > 0 && all_digits(body) && digits_value(body) <= u64::MAX {
        Some(digits_value(body) as u64)
    } else {
        None
    }
}

/// The position of the first `-` in `s`, or its length if there is none.
pub open spec fn first_dash(s: Seq<char>) -> int
    decreases s.len(),
{
    if s.len() == 0 {
        0
    } else if s[0] == '-' {
        0
    } else {
        1 + first_dash(s.drop_first())
    }
}

/// The byte range a request asks of a file of `size` bytes: the first and last
/// byte, both within the file.
pub open spec fn requested_bounds(header: Option<Seq<char>>, size: u64) -> (int, int) {
    let last = size - 1;
    match header {
        Some(h) => if h.len() >= 6 && h.subrange(0, 6) == "bytes="@ {
            let spec_ = h.subrange(6, h.len() as int);
            let d = first_dash(spec_);
            let first = spec_.subrange(0, d);
            let start = match decimal_u64(first) {
                Some(v) => v as int,
                None => 0,
            };
            let end = if d < spec_.len() {
                let rest = spec_.subrange(d + 1, spec_.len() as int);
                let second = rest.subrange(0, first_dash(rest));
                if second.len() > 0 {
                    match decimal_u64(second) {
                        Some(v) => v as int,
                        None => last,
                    }
                } else {
                    last
                }
            } else {
                last
            };
            (if start < last { start } else { last }, if end < last { end } else { last })
        } else {
            (0, last)
        },
        None => (0, last),
    }
}

/// How a file is sent.
#[derive(Debug, Clone, Copy, PartialEq, Eq, Structural)]
pub struct ByteRange {
    /// 200 for the whole file, 206 for a part of it, 416 when the requested
    /// part is empty.
    pub status: u16,
    pub start: u64,
    pub end: u64,
    pub content_length: u64,
}

/// The response to a request with `header` as its `Range` header for a file of
/// `size` bytes: an empty file is sent whole, with no bytes; otherwise the whole
/// file without the header, and with it the requested part, its bounds
/// clamped to the file's last byte.
pub open spec fn range_response(header: Option<Seq<char>>, size: u64) -> ByteRange {
    let (s, e) = requested_bounds(header, size);
    if size == 0 {
        ByteRange { status: 200, start: 0, end: 0, content_length: 0 }
    } else if header is None {
        ByteRange { status: 200, start: 0, end: (size - 1) as u64, content_length: size }
    } else if s <= e {
        ByteRange { status: 206, start: s as u64, end: e as u64, content_length: (e - s + 1) as u64 }
    } else {
        ByteRange { status: 416, start: s as u64, end: e as u64, content_length: 0 }
    }
}

proof fn lemma_first_dash_bounds(s: Seq<char>)
    ensures
        0 <= first_dash(s) <= s.len(),
        first_dash(s) < s.len() ==> s[first_dash(s)] == '-',
    decreases s.len(),
{
    if s.len() > 0 && s[0] != '-' {
        lemma_first_dash_bounds(s.drop_first());
    }
}

/// The position of the first `-` in `s` from `from` on, or its length.
fn find_dash(s: &str, from: usize) -> (r: usize)
    requires
        from <= s@.len(),
    ensures
        from + first_dash(s@.subrange(from as int, s@.len() as int)) == r,
        from <= r <= s@.len(),
{
    proof {
        lemma_first_dash_bounds(s@.subrange(from as int, s@.len() as int));
    }
    let n = s.unicode_len();
    let mut i = from;
    while i < n && s.get_char(i) != '-'
        invariant
            from <= i <= n == s@.len(),
            first_dash(s@.subrange(from as int, n as int)) == (i - from) + first_dash(
                s@.subrange(i as int, n as int),
            ),
        decreases n - i,
    {
        assert(s@.subrange(i as int, n as int).drop_first() =~= s@.subrange(i + 1, n as int));
        i = i + 1;
    }
    if i < n {
        assert(s@.subrange(i as int, n as int)[0] == '-');
    }
    i
}

proof fn lemma_digits_push(s: Seq<char>, c: char)
    ensures
        digits_value(s.push(c)) == digits_value(s) * 10 + (c as int - '0' as int),
{
    assert(s.push(c).drop_last() =~= s);
}

/// Reads the characters `from..to` of `s` as a decimal number, as `decimal_u64` does.
fn parse_decimal(s: &str, from: usize, to: usize) -> (r: Option<u64>)
    requires
        from <= to <= s@.len(),
    ensures
        r == decimal_u64(s@.subrange(from as int, to as int)),
{
    let ghost whole = s@.subrange(from as int, to as int);
    let mut i = from;
    if i < to && s.get_char(i) == '+' {
        i = i + 1;
    }
    let ghost body = s@.subrange(i as int, to as int);
    proof {
        if from < to && whole[0] == '+' {
            assert(whole.drop_first() =~= body);
        } else {
            assert(whole =~= body);
        }
    }
    if i == to {
        return None;
    }
    let start = i;
    let mut value: u64 = 0;
    while i < to
        invariant
            start <= i <= to <= s@.len(),
            body == s@.subrange(start as int, to as int),
            whole == s@.subrange(from as int, to as int),
            body == (if whole.len() > 0 && whole[0] == '+' {
                whole.drop_first()
            } else {
                whole
            }),
            body.len() > 0,
            forall|j: int| start <= j < i ==> is_digit(#[trigger] s@[j]),
            value == digits_value(s@.subrange(start as int, i as int)),
        decreases to - i,
    {
        let c = s.get_char(i);
        if !('0' <= c && c <= '9') {
            proof {
                assert(body[i - start] == c);
                assert(!is_digit(body[i - start]));
                assert(!all_digits(body));
            }
            return None;
        }
        let d = (c as u32 - '0' as u32) as u64;
        proof {
            assert(s@.subrange(start as int, i + 1) =~= s@.subrange(start as int, i as int).push(c));
            lemma_digits_push(s@.subrange(start as int, i as int), c);
        }
        if value > (u64::MAX - d) / 10 {
            proof {
                assert(value * 10 + d > u64::MAX) by (nonlinear_arith)
                    requires
                        value > (u64::MAX - d) / 10,
                        d < 10,
                ;
                assert(body.subrange(0, i + 1 - start) =~= s@.subrange(start as int, i + 1));
                if all_digits(body) {
                    lemma_digits_grow(body, (i + 1 - start) as int);
                }
            }
            return None;
        }
        value = value * 10 + d;
        i = i + 1;
    }
    proof {
        assert(s@.subrange(start as int, i as int) =~= body);
        assert(all_digits(body));
    }
    Some(value)
}

/// Once a run of digits spells more than `u64::MAX`, a longer run does too.
proof fn lemma_digits_grow(s: Seq<char>, n: int)
    requires
        0 < n <= s.len(),
        forall|j: int| 0 <= j < s.len() ==> is_digit(#[trigger] s[j]),
        digits_value(s.subrange(0, n)) > u64::MAX,
    ensures
        digits_value(s) > u64::MAX,
    decreases s.len() - n,
{
    if n < s.len() {
        assert(s.subrange(0, n + 1) =~= s.subrange(0, n).push(s[n]));
        lemma_digits_push(s.subrange(0, n), s[n]);
        lemma_digits_grow(s, n + 1);
    } else {
        assert(s.subrange(0, n) =~= s);
    }
}

/// How to send a file of `size` bytes for a request whose `Range` header is
/// `header`.
pub fn byte_range(header: Option<&str>, size: u64) -> (r: ByteRange)
    ensures
        r == range_response(
            match header {
                Some(h) => Some(h@),
                None => None,
            },
            size,
        ),
{
    if size == 0 {
        return ByteRange { status: 200, start: 0, end: 0, content_length: 0 };
    }
    let last = size - 1;
    let h = match header {
        None => return ByteRange { status: 200, start: 0, end: last, content_length: size },
        Some(h) => h,
    };
    let n = h.unicode_len();
    let (start, end) = if n >= 6 && crate::model::text_eq(h.substring_char(0, 6), "bytes=") {
        let d = find_dash(h, 6);
        let start = match parse_decimal(h, 6, d) {
            Some(v) => v,
            None => 0,
        };
        let end = if d < n {
            let d2 = find_dash(h, d + 1);
            proof {
                let sp = h@.subrange(6, n as int);
                assert(sp.subrange(0, d - 6) =~= h@.subrange(6, d as int));
                assert(sp.subrange(d - 6 + 1, sp.len() as int) =~= h@.subrange(d + 1, n as int));
                let rest = h@.subrange(d + 1, n as int);
                assert(rest.subrange(0, d2 - d - 1) =~= h@.subrange(d + 1, d2 as int));
            }
            if d2 > d + 1 {
                match parse_decimal(h, d + 1, d2) {
                    Some(v) => v,
                    None => last,
                }
            } else {
                last
            }
        } else {
            last
        };
        proof {
            let sp = h@.subrange(6, n as int);
            assert(sp.subrange(0, d - 6) =~= h@.subrange(6, d as int));
        }
        (if start < last { start } else { last }, if end < last { end } else { last })
    } else {
        (0, last)
    };
    if start <= end {
        ByteRange { status: 206, start, end, content_length: end - start + 1 }
    } else {
        ByteRange { status: 416, start, end, content_length: 0 }
    }
}

/// The decimal digits of `n`.
pub open spec fn decimal_text(n: nat) -> Seq<char>
    decreases n,
{
    if n < 10 {
        seq![digit_char(n)]
    } else {
        decimal_text(n / 10).push(digit_char(n % 10))
    }
}

pub open spec fn digit_char(d: nat) -> char {
    (d + '0' as nat) as char
}

fn digit_text(d: u64) -> (r: &'static str)
    requires
        d < 10,
    ensures
        r@ == seq![digit_char(d as nat)],
{
    proof {
        reveal_strlit("0");
        reveal_strlit("1");
        reveal_strlit("2");
        reveal_strlit("3");
        reveal_strlit("4");
        reveal_strlit("5");
        reveal_strlit("6");
        reveal_strlit("7");
        reveal_strlit("8");
        reveal_strlit("9");
    }
    let r = match d {
        0 => "0",
        1 => "1",
        2 => "2",
        3 => "3",
        4 => "4",
        5 => "5",
        6 => "6",
        7 => "7",
        8 => "8",
        _ => "9",
    };
    assert(r@ =~= seq![digit_char(d as nat)]);
    r
}

/// Appends the decimal digits of `n` to `s`.
pub fn push_decimal(s: &mut String, n: u64)
    ensures
        final(s)@ == old(s)@ + decimal_text(n as nat),
    decreases n,
{
    if n >= 10 {
        push_decimal(s, n / 10);
    }
    s.append(digit_text(n % 10));
    proof {
        if n >= 10 {
            assert(decimal_text(n as nat) == decimal_text((n / 10) as nat).push(digit_char((n % 10) as nat)));
        }
    }
    assert(final(s)@ =~= old(s)@ + decimal_text(n as nat));
}

/// The `Content-Range` value of a partial response for a file of `size` bytes.
pub open spec fn content_range_text(start: u64, end: u64, size: u64) -> Seq<char> {
    "bytes "@ + decimal_text(start as nat) + "-"@ + decimal_text(end as nat) + "/"@ + decimal_text(
        size as nat,
    )
}

/// The `Content-Range` value of a partial response for a file of `size` bytes.
pub fn content_range(r: &ByteRange, size: u64) -> (s: String)
    ensures
        s@ == content_range_text(r.start, r.end, size),
{
    let mut s = String::from_str("bytes ");
    push_decimal(&mut s, r.start);
    s.append("-");
    push_decimal(&mut s, r.end);
    s.append("/");
    push_decimal(&mut s, size);
    s
}

/// A request for the first hundred bytes of a file of more than a hundred
/// bytes gets exactly those bytes, as a partial response.
pub proof fn lemma_first_hundred_bytes(size: u64)
    requires
        size > 100,
    ensures
        range_response(Some("bytes=0-99"@), size) == (ByteRange {
            status: 206,
            start: 0,
            end: 99,
            content_length: 100,
        }),
{
    reveal_strlit("bytes=0-99");
    reveal_strlit("bytes=");
    let h = "bytes=0-99"@;
    assert(h.subrange(0, 6) =~= "bytes="@);
    let sp = h.subrange(6, h.len() as int);
    assert(sp =~= seq!['0', '-', '9', '9']);
    assert(sp.drop_first() =~= seq!['-', '9', '9']);
    assert(first_dash(seq!['-', '9', '9']) == 0);
    assert(first_dash(sp) == 1);
    assert(sp.subrange(0, 1) =~= seq!['0']);
    assert(seq!['0'].drop_last() =~= Seq::<char>::empty());
    assert(all_digits(seq!['0']));
    assert(digits_value(Seq::<char>::empty()) == 0);
    assert(digits_value(seq!['0'].drop_last()) == 0);
    assert(digits_value(seq!['0']) == 0);
    assert(seq!['0'][0] != '+');
    assert(decimal_u64(seq!['0']) == Some(0u64));
    let rest = sp.subrange(2, 4);
    assert(rest =~= seq!['9', '9']);
    assert(rest.drop_first() =~= seq!['9']);
    assert(seq!['9'].drop_first() =~= Seq::<char>::empty());
    assert(first_dash(Seq::<char>::empty()) == 0);
    assert(first_dash(seq!['9'].drop_first()) == 0);
    assert(first_dash(seq!['9']) == 1);
    assert(first_dash(rest) == 2);
    assert(rest.subrange(0, 2) =~= rest);
    assert(rest.drop_last() =~= seq!['9']);
    assert(seq!['9'].drop_last() =~= Seq::<char>::empty());
    assert(digits_value(seq!['9'].drop_last()) == 0);
    assert(digits_value(seq!['9']) == 9);
    assert(digits_value(rest) == 99);
    assert(all_digits(rest));
    assert(decimal_u64(rest) == Some(99u64));
}

} // verus!
