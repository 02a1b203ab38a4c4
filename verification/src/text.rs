//! Small text utilities: decimal rendering of numbers.
use vstd::prelude::*;

verus! {

/// The decimal digits of `n` as ASCII bytes, without leading zeros.
pub open spec fn decimal(n: nat) -> Seq<u8>
    decreases n,
{
    if n < 10 {
        seq![(48 + n) as u8]
    } else {
        decimal(n / 10).push((48 + n % 10) as u8)
    }
}

/// The decimal digits of `n` as characters.
pub open spec fn decimal_chars(n: nat) -> Seq<char> {
    decimal(n).map_values(|b: u8| b as char)
}

/// Append the decimal digits of `n` to `out`.
pub fn push_decimal(out: &mut Vec<u8>, n: usize)
    ensures
        final(out)@ == old(out)@ + decimal(n as nat),
    decreases n,
{
    if n >= 10 {
        push_decimal(out, n / 10);
    }
    out.push(48u8 + (n % 10) as u8);
    assert(out@ =~= old(out)@ + decimal(n as nat));
}


/// Append the decimal digits of a 64-bit `n` to `out`.
pub fn push_decimal_u64(out: &mut Vec<u8>, n: u64)
    ensures
        final(out)@ == old(out)@ + decimal(n as nat),
    decreases n,
{
    if n >= 10 {
        push_decimal_u64(out, n / 10);
    }
    out.push(48u8 + (n % 10) as u8);
    assert(out@ =~= old(out)@ + decimal(n as nat));
}

/// A signed number in decimal, with a leading `-` when negative.
pub open spec fn signed_decimal(n: int) -> Seq<char> {
    if n < 0 { seq!['-'] + decimal_chars((-n) as nat) } else { decimal_chars(n as nat) }
}

/// The decimal text of an `i64`.
pub fn i64_text(n: i64) -> (s: String)
    ensures
        s@ == signed_decimal(n as int),
{
    let mut digits: Vec<u8> = Vec::new();
    let mut s = String::new();
    let m: u64 = if n >= 0 {
        n as u64
    } else if n == i64::MIN {
        9223372036854775808u64
    } else {
        (0 - n) as u64
    };
    if n < 0 {
        crate::ext::push_char(&mut s, '-');
    }
    push_decimal_u64(&mut digits, m);
    assert(digits@ =~= decimal(m as nat));
    let ghost start = s@;
    let mut i: usize = 0;
    while i < digits.len()
        invariant
            i <= digits@.len(),
            digits@ == decimal(m as nat),
            s@ == start + decimal_chars(m as nat).take(i as int),
        decreases digits@.len() - i,
    {
        crate::ext::push_char(&mut s, digits[i] as char);
        i = i + 1;
        assert(s@ =~= start + decimal_chars(m as nat).take(i as int));
    }
    assert(decimal_chars(m as nat).take(digits@.len() as int) =~= decimal_chars(m as nat));
    s
}


/// Whether two byte strings are equal.
pub fn bytes_equal(a: &[u8], b: &[u8]) -> (r: bool)
    ensures
        r == (a@ == b@),
{
    if a.len() != b.len() {
        return false;
    }
    let mut i: usize = 0;
    while i < a.len()
        invariant
            a@.len() == b@.len(),
            i <= a@.len(),
            forall|k: int| 0 <= k < i ==> a@[k] == b@[k],
        decreases a@.len() - i,
    {
        if a[i] != b[i] {
            return false;
        }
        i = i + 1;
    }
    assert(a@ =~= b@);
    true
}

/// The characters of a string.
pub fn chars_of(s: &str) -> (v: Vec<char>)
    ensures
        v@ == s@,
{
    let n = s.unicode_len();
    let mut v: Vec<char> = Vec::new();
    let mut i: usize = 0;
    while i < n
        invariant
            n == s@.len(),
            i <= n,
            v@ == s@.subrange(0, i as int),
        decreases n - i,
    {
        v.push(s.get_char(i));
        i = i + 1;
        assert(v@ =~= s@.subrange(0, i as int));
    }
    assert(v@ =~= s@);
    v
}

/// A string made of the characters `v[from..to]`.
pub fn string_of_chars(v: &[char], from: usize, to: usize) -> (s: String)
    requires
        from <= to <= v@.len(),
    ensures
        s@ == v@.subrange(from as int, to as int),
{
    let mut s = String::new();
    let mut i = from;
    assert(s@ =~= v@.subrange(from as int, from as int));
    while i < to
        invariant
            from <= i <= to <= v@.len(),
            s@ == v@.subrange(from as int, i as int),
        decreases to - i,
    {
        crate::ext::push_char(&mut s, v[i]);
        i = i + 1;
        assert(s@ =~= v@.subrange(from as int, i as int));
    }
    s
}

/// Append characters to a string.
pub fn push_chars(s: &mut String, v: &[char])
    ensures
        final(s)@ == old(s)@ + v@,
{
    let mut i: usize = 0;
    assert(s@ =~= old(s)@ + v@.subrange(0, 0));
    while i < v.len()
        invariant
            i <= v@.len(),
            s@ == old(s)@ + v@.subrange(0, i as int),
        decreases v@.len() - i,
    {
        crate::ext::push_char(s, v[i]);
        i = i + 1;
        assert(s@ =~= old(s)@ + v@.subrange(0, i as int));
    }
    assert(v@.subrange(0, v@.len() as int) =~= v@);
}

pub open spec fn is_digit(b: u8) -> bool {
    0x30 <= b <= 0x39
}

pub open spec fn all_digits(s: Seq<u8>) -> bool {
    forall|i: int| 0 <= i < s.len() ==> #[trigger] is_digit(s[i])
}

/// The value of a string of decimal digits.
pub open spec fn digits_value(s: Seq<u8>) -> nat
    decreases s.len(),
{
    if s.len() == 0 {
        0
    } else {
        digits_value(s.drop_last()) * 10 + (s.last() - 0x30) as nat
    }
}

/// A decimal integer as `i32` parses it: an optional sign and at least one digit,
/// within the range of `i32`.
pub open spec fn parse_i32(s: Seq<u8>) -> Option<i32> {
    let neg = s.len() > 0 && s[0] == 0x2d;
    let body = if s.len() > 0 && (s[0] == 0x2d || s[0] == 0x2b) { s.skip(1) } else { s };
    if body.len() == 0 || !all_digits(body) {
        None
    } else {
        let v: int = if neg { -(digits_value(body) as int) } else { digits_value(body) as int };
        if i32::MIN <= v <= i32::MAX { Some(v as i32) } else { None }
    }
}

proof fn lemma_digits_prefix(s: Seq<u8>, k: int)
    requires
        all_digits(s),
        0 <= k <= s.len(),
    ensures
        digits_value(s.take(k)) <= digits_value(s),
    decreases s.len(),
{
    if k < s.len() {
        assert(s.drop_last().take(k) =~= s.take(k));
        assert(all_digits(s.drop_last())) by {
            assert forall|i: int| 0 <= i < s.drop_last().len() implies #[trigger] is_digit(s.drop_last()[i]) by {
                assert(is_digit(s[i]));
            }
        }
        lemma_digits_prefix(s.drop_last(), k);
    } else {
        assert(s.take(k) =~= s);
    }
}

/// Parse a decimal `i32` (see [`parse_i32`]).
pub fn parse_i32_bytes(s: &[u8]) -> (r: Option<i32>)
    ensures
        r == parse_i32(s@),
{
    let n = s.len();
    let neg = n > 0 && s[0] == 0x2d;
    let start: usize = if n > 0 && (s[0] == 0x2d || s[0] == 0x2b) { 1 } else { 0 };
    let ghost body = if n > 0 && (s@[0] == 0x2d || s@[0] == 0x2b) { s@.skip(1) } else { s@ };
    assert(body =~= s@.subrange(start as int, n as int));
    if start >= n {
        return None;
    }
    let limit: u64 = 0x8000_0000;
    let mut acc: u64 = 0;
    let mut i = start;
    while i < n
        invariant
            start <= i <= n,
            n == s@.len(),
            body == s@.subrange(start as int, n as int),
            body == (if n > 0 && (s@[0] == 0x2d || s@[0] == 0x2b) { s@.skip(1) } else { s@ }),
            limit == 0x8000_0000u64,
            forall|k: int| start <= k < i ==> #[trigger] is_digit(s@[k]),
            acc == digits_value(body.take(i - start)),
            acc <= limit,
        decreases n - i,
    {
        let b = s[i];
        if b < 0x30 || b > 0x39 {
            assert(body[i - start] == s@[i as int]);
            assert(!is_digit(body[i - start]));
            assert(!all_digits(body));
            return None;
        }
        assert(body.take(i + 1 - start).drop_last() =~= body.take(i - start));
        assert(acc * 10 <= 0x8000_0000u64 * 10) by (nonlinear_arith)
            requires
                acc <= 0x8000_0000u64,
        ;
        let next = acc * 10 + (b - 0x30) as u64;
        if next > limit {
            proof {
                assert(digits_value(body.take(i + 1 - start)) == next);
                let rest = body;
                assert forall|k: int| 0 <= k < body.len() implies #[trigger] is_digit(body[k]) || k >= i + 1 - start by {
                    if k < i + 1 - start {
                        assert(is_digit(s@[start + k]));
                    }
                }
                if all_digits(body) {
                    lemma_digits_prefix(body, i + 1 - start);
                }
            }
            return None;
        }
        acc = next;
        i = i + 1;
    }
    assert(body.take(n - start) =~= body);
    assert(all_digits(body)) by {
        assert forall|k: int| 0 <= k < body.len() implies #[trigger] is_digit(body[k]) by {
            assert(is_digit(s@[start + k]));
        }
    }
    if neg {
        Some((0 - acc as i64) as i32)
    } else if acc <= 0x7fff_ffff {
        Some(acc as i32)
    } else {
        None
    }
}

/// The index of the first occurrence of `x` in `s`.
pub open spec fn first_index<T>(s: Seq<T>, x: T) -> Option<nat>
    decreases s.len(),
{
    if s.len() == 0 {
        None
    } else if s[0] == x {
        Some(0)
    } else {
        match first_index(s.drop_first(), x) {
            Some(i) => Some(i + 1),
            None => None,
        }
    }
}

pub proof fn lemma_first_index_found<T>(s: Seq<T>, x: T, i: int)
    requires
        0 <= i < s.len(),
        s[i] == x,
        forall|k: int| 0 <= k < i ==> s[k] != x,
    ensures
        first_index(s, x) == Some(i as nat),
    decreases i,
{
    if i > 0 {
        lemma_first_index_found(s.drop_first(), x, i - 1);
    }
}

pub proof fn lemma_first_index_absent<T>(s: Seq<T>, x: T)
    requires
        forall|k: int| 0 <= k < s.len() ==> s[k] != x,
    ensures
        first_index(s, x) is None,
    decreases s.len(),
{
    if s.len() > 0 {
        lemma_first_index_absent(s.drop_first(), x);
    }
}

/// A found position lies in the sequence and holds the item.
pub proof fn lemma_first_index_bound<T>(s: Seq<T>, x: T)
    ensures
        first_index(s, x) matches Some(i) ==> i < s.len() && s[i as int] == x,
    decreases s.len(),
{
    if s.len() > 0 && s[0] != x {
        lemma_first_index_bound(s.drop_first(), x);
    }
}

/// The first position at or after `start` holding `c`.
pub fn find_char_from(v: &[char], start: usize, c: char) -> (r: Option<usize>)
    requires
        start <= v@.len(),
    ensures
        match r {
            Some(i) => start <= i < v@.len() && first_index(v@.skip(start as int), c) == Some((i - start) as nat),
            None => first_index(v@.skip(start as int), c) is None,
        },
{
    let mut i = start;
    while i < v.len()
        invariant
            start <= i <= v@.len(),
            forall|k: int| start <= k < i ==> v@[k] != c,
        decreases v@.len() - i,
    {
        if v[i] == c {
            proof {
                lemma_first_index_found(v@.skip(start as int), c, i - start);
            }
            return Some(i);
        }
        i = i + 1;
    }
    proof {
        lemma_first_index_absent(v@.skip(start as int), c);
    }
    None
}

/// Whether `v` starts with `prefix`.
pub fn starts_with_chars(v: &[char], prefix: &[char]) -> (r: bool)
    ensures
        r == (prefix@.len() <= v@.len() && v@.take(prefix@.len() as int) == prefix@),
{
    if prefix.len() > v.len() {
        return false;
    }
    let mut i: usize = 0;
    while i < prefix.len()
        invariant
            prefix@.len() <= v@.len(),
            i <= prefix@.len(),
            forall|k: int| 0 <= k < i ==> v@[k] == prefix@[k],
        decreases prefix@.len() - i,
    {
        if v[i] != prefix[i] {
            assert(v@.take(prefix@.len() as int)[i as int] != prefix@[i as int]);
            return false;
        }
        i = i + 1;
    }
    assert(v@.take(prefix@.len() as int) =~= prefix@);
    true
}

/// A string without its trailing whitespace.
pub open spec fn trim_end(s: Seq<char>) -> Seq<char>
    decreases s.len(),
{
    if s.len() > 0 && crate::ext::unicode_whitespace(s.last()) {
        trim_end(s.drop_last())
    } else {
        s
    }
}

/// A string without its leading whitespace.
pub open spec fn trim_start(s: Seq<char>) -> Seq<char>
    decreases s.len(),
{
    if s.len() > 0 && crate::ext::unicode_whitespace(s[0]) {
        trim_start(s.drop_first())
    } else {
        s
    }
}

/// A string without leading and trailing whitespace.
pub open spec fn trim(s: Seq<char>) -> Seq<char> {
    trim_start(trim_end(s))
}

/// The length of `v[..end]` without its trailing whitespace.
pub fn trimmed_end(v: &[char], end: usize) -> (k: usize)
    requires
        end <= v@.len(),
    ensures
        k <= end,
        v@.subrange(0, k as int) == trim_end(v@.subrange(0, end as int)),
{
    let mut k = end;
    while k > 0 && crate::ext::char_is_whitespace(v[k - 1])
        invariant
            k <= end <= v@.len(),
            trim_end(v@.subrange(0, k as int)) == trim_end(v@.subrange(0, end as int)),
        decreases k,
    {
        assert(v@.subrange(0, k as int).drop_last() =~= v@.subrange(0, k - 1));
        k = k - 1;
    }
    k
}

/// The first index from `start` on that does not hold whitespace (at most `end`).
pub fn trimmed_start(v: &[char], start: usize, end: usize) -> (k: usize)
    requires
        start <= end <= v@.len(),
    ensures
        start <= k <= end,
        v@.subrange(k as int, end as int) == trim_start(v@.subrange(start as int, end as int)),
{
    let mut k = start;
    while k < end && crate::ext::char_is_whitespace(v[k])
        invariant
            start <= k <= end <= v@.len(),
            trim_start(v@.subrange(k as int, end as int)) == trim_start(v@.subrange(start as int, end as int)),
        decreases end - k,
    {
        assert(v@.subrange(k as int, end as int).drop_first() =~= v@.subrange(k + 1, end as int));
        k = k + 1;
    }
    k
}

/// `s` without leading and trailing whitespace.
pub fn trim_string(s: &str) -> (out: String)
    ensures
        out@ == trim(s@),
{
    let v = chars_of(s);
    let n = v.len();
    let e = trimmed_end(v.as_slice(), n);
    let b = trimmed_start(v.as_slice(), 0, e);
    assert(v@.subrange(0, n as int) =~= v@);
    assert(v@.subrange(0, e as int).subrange(b as int, e as int) =~= v@.subrange(b as int, e as int));
    assert(v@.subrange(0, e as int) =~= v@.subrange(0, e as int).subrange(0, e as int));
    proof {
        lemma_trim_start_sub(v@.subrange(0, e as int), b as int);
    }
    string_of_chars(v.as_slice(), b, e)
}

proof fn lemma_trim_start_sub(t: Seq<char>, b: int)
    requires
        0 <= b <= t.len(),
        t.subrange(b, t.len() as int) == trim_start(t.subrange(0, t.len() as int)),
    ensures
        t.subrange(b, t.len() as int) == trim_start(t),
{
    assert(t.subrange(0, t.len() as int) =~= t);
}

/// The bytes `v[from..to]`.
pub fn bytes_range(v: &[u8], from: usize, to: usize) -> (out: Vec<u8>)
    requires
        from <= to <= v@.len(),
    ensures
        out@ == v@.subrange(from as int, to as int),
{
    let mut out: Vec<u8> = Vec::new();
    let mut i = from;
    while i < to
        invariant
            from <= i <= to <= v@.len(),
            out@ == v@.subrange(from as int, i as int),
        decreases to - i,
    {
        out.push(v[i]);
        i = i + 1;
        assert(out@ =~= v@.subrange(from as int, i as int));
    }
    out
}

/// The characters `v[from..to]`.
pub fn chars_range(v: &[char], from: usize, to: usize) -> (out: Vec<char>)
    requires
        from <= to <= v@.len(),
    ensures
        out@ == v@.subrange(from as int, to as int),
{
    let mut out: Vec<char> = Vec::new();
    let mut i = from;
    while i < to
        invariant
            from <= i <= to <= v@.len(),
            out@ == v@.subrange(from as int, i as int),
        decreases to - i,
    {
        out.push(v[i]);
        i = i + 1;
        assert(out@ =~= v@.subrange(from as int, i as int));
    }
    out
}

/// The first position at or after `start` holding byte `b`.
pub fn find_byte_from(v: &[u8], start: usize, b: u8) -> (r: Option<usize>)
    requires
        start <= v@.len(),
    ensures
        match r {
            Some(i) => start <= i < v@.len() && first_index(v@.skip(start as int), b) == Some((i - start) as nat),
            None => first_index(v@.skip(start as int), b) is None,
        },
{
    let mut i = start;
    while i < v.len()
        invariant
            start <= i <= v@.len(),
            forall|k: int| start <= k < i ==> v@[k] != b,
        decreases v@.len() - i,
    {
        if v[i] == b {
            proof {
                lemma_first_index_found(v@.skip(start as int), b, i - start);
            }
            return Some(i);
        }
        i = i + 1;
    }
    proof {
        lemma_first_index_absent(v@.skip(start as int), b);
    }
    None
}

/// The bounds of `v[from..to]` without surrounding whitespace.
pub fn trim_bounds(v: &[char], from: usize, to: usize) -> (r: (usize, usize))
    requires
        from <= to <= v@.len(),
    ensures
        from <= r.0 <= r.1 <= to,
        v@.subrange(r.0 as int, r.1 as int) == trim(v@.subrange(from as int, to as int)),
{
    let mut e = to;
    while e > from && crate::ext::char_is_whitespace(v[e - 1])
        invariant
            from <= e <= to <= v@.len(),
            trim_end(v@.subrange(from as int, e as int)) == trim_end(v@.subrange(from as int, to as int)),
        decreases e,
    {
        assert(v@.subrange(from as int, e as int).drop_last() =~= v@.subrange(from as int, e - 1));
        e = e - 1;
    }
    let mut b = from;
    while b < e && crate::ext::char_is_whitespace(v[b])
        invariant
            from <= b <= e <= to <= v@.len(),
            trim_start(v@.subrange(b as int, e as int)) == trim_start(v@.subrange(from as int, e as int)),
        decreases e - b,
    {
        assert(v@.subrange(b as int, e as int).drop_first() =~= v@.subrange(b + 1, e as int));
        b = b + 1;
    }
    (b, e)
}

pub open spec fn char_digit(c: char) -> bool {
    '0' <= c <= '9'
}

pub open spec fn all_char_digits(s: Seq<char>) -> bool {
    forall|i: int| 0 <= i < s.len() ==> #[trigger] char_digit(s[i])
}

/// The value of a string of decimal digit characters.
pub open spec fn char_digits_value(s: Seq<char>) -> nat
    decreases s.len(),
{
    if s.len() == 0 {
        0
    } else {
        char_digits_value(s.drop_last()) * 10 + (s.last() as nat - 48) as nat
    }
}

/// An unsigned integer as `str::parse` reads it for a type whose largest value is
/// `max`: an optional `+` and at least one digit, the value at most `max`.
pub open spec fn parse_unsigned(s: Seq<char>, max: nat) -> Option<nat> {
    let body = if s.len() > 0 && s[0] == '+' { s.skip(1) } else { s };
    if body.len() == 0 || !all_char_digits(body) {
        None
    } else if char_digits_value(body) <= max {
        Some(char_digits_value(body))
    } else {
        None
    }
}

proof fn lemma_char_digits_prefix(s: Seq<char>, k: int)
    requires
        all_char_digits(s),
        0 <= k <= s.len(),
    ensures
        char_digits_value(s.take(k)) <= char_digits_value(s),
    decreases s.len(),
{
    if k < s.len() {
        assert(s.drop_last().take(k) =~= s.take(k));
        assert(all_char_digits(s.drop_last())) by {
            assert forall|i: int| 0 <= i < s.drop_last().len() implies #[trigger] char_digit(s.drop_last()[i]) by {
                assert(char_digit(s[i]));
            }
        }
        lemma_char_digits_prefix(s.drop_last(), k);
    } else {
        assert(s.take(k) =~= s);
    }
}

/// Parse `v[from..to]` as an unsigned integer of at most `max` (see [`parse_unsigned`]).
pub fn parse_unsigned_chars(v: &[char], from: usize, to: usize, max: u32) -> (r: Option<u32>)
    requires
        from <= to <= v@.len(),
    ensures
        match r {
            Some(x) => parse_unsigned(v@.subrange(from as int, to as int), max as nat) == Some(x as nat),
            None => parse_unsigned(v@.subrange(from as int, to as int), max as nat) is None,
        },
{
    let ghost s = v@.subrange(from as int, to as int);
    let start = if from < to && v[from] == '+' { from + 1 } else { from };
    let ghost body = if s.len() > 0 && s[0] == '+' { s.skip(1) } else { s };
    assert(body =~= v@.subrange(start as int, to as int));
    if start >= to {
        return None;
    }
    let mut acc: u64 = 0;
    let mut i = start;
    while i < to
        invariant
            start <= i <= to <= v@.len(),
            body == v@.subrange(start as int, to as int),
            body == (if s.len() > 0 && s[0] == '+' { s.skip(1) } else { s }),
            s == v@.subrange(from as int, to as int),
            forall|k: int| start <= k < i ==> #[trigger] char_digit(v@[k]),
            acc == char_digits_value(body.take(i - start)),
            acc <= max,
        decreases to - i,
    {
        let c = v[i];
        if c < '0' || c > '9' {
            assert(body[i - start] == v@[i as int]);
            assert(!char_digit(body[i - start]));
            assert(!all_char_digits(body));
            return None;
        }
        assert(body.take(i + 1 - start).drop_last() =~= body.take(i - start));
        assert(acc * 10 <= 0xffff_ffffu64 * 10) by (nonlinear_arith)
            requires
                acc <= 0xffff_ffffu64,
        ;
        let d: u64 = (c as u32 - 48) as u64;
        let next = acc * 10 + d;
        assert(next == char_digits_value(body.take(i + 1 - start)));
        if next > max as u64 {
            proof {
                if all_char_digits(body) {
                    lemma_char_digits_prefix(body, i + 1 - start);
                }
            }
            return None;
        }
        acc = next;
        i = i + 1;
    }
    assert(body.take(to - start) =~= body);
    assert(all_char_digits(body)) by {
        assert forall|k: int| 0 <= k < body.len() implies #[trigger] char_digit(body[k]) by {
            assert(char_digit(v@[start + k]));
        }
    }
    Some(acc as u32)
}

/// The first byte of the UTF-8 encoding of a string, or `d` for the empty string.
pub open spec fn first_byte(s: Seq<char>, d: u8) -> u8 {
    if s.len() > 0 { vstd::utf8::encode_scalar(s[0] as u32)[0] } else { d }
}

/// The first byte of the UTF-8 encoding of `v[from..to]`, or `d` when it is empty.
pub fn first_byte_of(v: &[char], from: usize, to: usize, d: u8) -> (b: u8)
    requires
        from <= to <= v@.len(),
    ensures
        b == first_byte(v@.subrange(from as int, to as int), d),
{
    if from == to {
        return d;
    }
    let s = string_of_chars(v, from, from + 1);
    let bytes = s.as_str().as_bytes();
    proof {
        let t = s@;
        assert(t.drop_first() =~= Seq::<char>::empty());
        assert(vstd::utf8::encode_utf8(t) =~= vstd::utf8::encode_scalar(t[0] as u32) + vstd::utf8::encode_utf8(t.drop_first()));
    }
    bytes[0]
}
/// Whether two character strings are equal.
pub fn chars_equal(a: &[char], b: &[char]) -> (r: bool)
    ensures
        r == (a@ == b@),
{
    if a.len() != b.len() {
        return false;
    }
    let mut i: usize = 0;
    while i < a.len()
        invariant
            a@.len() == b@.len(),
            i <= a@.len(),
            forall|k: int| 0 <= k < i ==> a@[k] == b@[k],
        decreases a@.len() - i,
    {
        if a[i] != b[i] {
            return false;
        }
        i = i + 1;
    }
    assert(a@ =~= b@);
    true
}

/// The lines of a text: split at `\n` (a `\r` before it is dropped); a final line break
/// ends the last line rather than starting an empty one.
pub open spec fn lines_of(s: Seq<char>) -> Seq<Seq<char>>
    decreases s.len(),
{
    if s.len() == 0 {
        Seq::empty()
    } else {
        match first_index(s, '\n') {
            Some(i) => if i < s.len() {
                let line = s.take(i as int);
                let line = if line.len() > 0 && line.last() == '\r' { line.drop_last() } else { line };
                seq![line] + lines_of(s.skip(i + 1int))
            } else {
                seq![s]
            },
            None => seq![s],
        }
    }
}


/// The line starting at `start` in `v`: its end (before any `\r\n` or `\n`) and where
/// the next line starts.
pub fn next_line(v: &[char], start: usize) -> (r: (usize, usize))
    requires
        start < v@.len(),
    ensures
        start <= r.0 <= r.1 <= v@.len(),
        r.1 > start,
        lines_of(v@.subrange(start as int, v@.len() as int))
            == seq![v@.subrange(start as int, r.0 as int)] + lines_of(v@.subrange(r.1 as int, v@.len() as int)),
{
    let n = v.len();
    let ghost seg = v@.subrange(start as int, n as int);
    assert(v@.skip(start as int) =~= seg);
    match find_char_from(v, start, '\n') {
        Some(i) => {
            let e = if i > start && v[i - 1] == '\r' { i - 1 } else { i };
            proof {
                let line = seg.take(i - start);
                assert(line =~= v@.subrange(start as int, i as int));
                if i > start && v@[i - 1] == '\r' {
                    assert(line.drop_last() =~= v@.subrange(start as int, e as int));
                }
                assert(seg.skip(i - start + 1) =~= v@.subrange(i + 1, n as int));
            }
            (e, i + 1)
        },
        None => {
            assert(v@.subrange(n as int, n as int) =~= Seq::<char>::empty());
            assert(seg =~= v@.subrange(start as int, n as int));
            (n, n)
        },
    }
}

/// `s` with every occurrence of `pat` (non-empty, found left to right without overlap)
/// replaced by `rep`.
pub open spec fn replace_all(s: Seq<char>, pat: Seq<char>, rep: Seq<char>) -> Seq<char>
    decreases s.len(),
{
    if s.len() == 0 {
        Seq::empty()
    } else if pat.len() > 0 && pat.len() <= s.len() && s.take(pat.len() as int) == pat {
        rep + replace_all(s.skip(pat.len() as int), pat, rep)
    } else {
        seq![s[0]] + replace_all(s.drop_first(), pat, rep)
    }
}

/// Whether `pat` occurs in `v` at `i`.
pub fn matches_at(v: &[char], i: usize, pat: &[char]) -> (r: bool)
    requires
        i <= v@.len(),
    ensures
        r == (pat@.len() <= v@.len() - i && v@.skip(i as int).take(pat@.len() as int) == pat@),
{
    let n = v.len();
    if pat.len() > n - i {
        return false;
    }
    let mut k: usize = 0;
    while k < pat.len()
        invariant
            pat@.len() <= n - i,
            n == v@.len(),
            i <= n,
            k <= pat@.len(),
            forall|q: int| 0 <= q < k ==> v@[i + q] == pat@[q],
        decreases pat@.len() - k,
    {
        if v[i + k] != pat[k] {
            assert(v@.skip(i as int).take(pat@.len() as int)[k as int] != pat@[k as int]);
            return false;
        }
        k = k + 1;
    }
    assert(v@.skip(i as int).take(pat@.len() as int) =~= pat@);
    true
}

/// Replace every occurrence of `pat` in `v` (see [`replace_all`]).
pub fn replace_all_chars(v: &[char], pat: &[char], rep: &[char]) -> (out: Vec<char>)
    ensures
        out@ == replace_all(v@, pat@, rep@),
{
    let n = v.len();
    let mut out: Vec<char> = Vec::new();
    let mut i: usize = 0;
    assert(v@.skip(0) =~= v@);
    while i < n
        invariant
            i <= n,
            n == v@.len(),
            out@ + replace_all(v@.skip(i as int), pat@, rep@) == replace_all(v@, pat@, rep@),
        decreases n - i,
    {
        let ghost rest = v@.skip(i as int);
        let ghost before = out@;
        if pat.len() > 0 && matches_at(v, i, pat) {
            let mut k: usize = 0;
            while k < rep.len()
                invariant
                    k <= rep@.len(),
                    out@ == before + rep@.take(k as int),
                decreases rep@.len() - k,
            {
                out.push(rep[k]);
                k = k + 1;
                assert(out@ =~= before + rep@.take(k as int));
            }
            assert(rep@.take(rep@.len() as int) =~= rep@);
            assert(rest.skip(pat@.len() as int) =~= v@.skip(i + pat@.len()));
            assert(out@ + replace_all(v@.skip(i + pat@.len()), pat@, rep@) =~= before + replace_all(rest, pat@, rep@));
            i = i + pat.len();
        } else {
            out.push(v[i]);
            assert(rest.drop_first() =~= v@.skip(i + 1));
            assert(out@ + replace_all(v@.skip(i + 1), pat@, rep@) =~= before + replace_all(rest, pat@, rep@));
            i = i + 1;
        }
    }
    assert(v@.skip(n as int) =~= Seq::<char>::empty());
    assert(out@ + Seq::<char>::empty() =~= out@);
    out
}

/// Parts joined with `sep` between them.
pub open spec fn join_with(parts: Seq<Seq<char>>, sep: Seq<char>) -> Seq<char>
    decreases parts.len(),
{
    if parts.len() == 0 {
        Seq::empty()
    } else if parts.len() == 1 {
        parts[0]
    } else {
        join_with(parts.drop_last(), sep) + sep + parts.last()
    }
}

pub open spec fn chars_views(v: Seq<Vec<char>>) -> Seq<Seq<char>> {
    v.map_values(|x: Vec<char>| x@)
}

/// Join parts with a separator (see [`join_with`]).
pub fn join_chars(parts: &Vec<Vec<char>>, sep: &[char]) -> (out: Vec<char>)
    ensures
        out@ == join_with(chars_views(parts@), sep@),
{
    let mut out: Vec<char> = Vec::new();
    let mut i: usize = 0;
    let ghost ps = chars_views(parts@);
    assert(ps.take(0) =~= Seq::<Seq<char>>::empty());
    while i < parts.len()
        invariant
            i <= parts@.len(),
            ps == chars_views(parts@),
            out@ == join_with(ps.take(i as int), sep@),
        decreases parts@.len() - i,
    {
        let ghost before = out@;
        if i > 0 {
            append_chars(&mut out, sep);
        }
        append_chars(&mut out, parts[i].as_slice());
        assert(ps.take(i + 1).drop_last() =~= ps.take(i as int));
        assert(parts@[i as int]@ == ps[i as int]);
        if i == 0 {
            assert(out@ =~= ps.take(1)[0]);
        }
        i = i + 1;
    }
    assert(ps.take(parts@.len() as int) =~= ps);
    out
}

/// Append characters to a character vector.
pub fn append_chars(out: &mut Vec<char>, v: &[char])
    ensures
        final(out)@ == old(out)@ + v@,
{
    let mut k: usize = 0;
    while k < v.len()
        invariant
            k <= v@.len(),
            out@ == old(out)@ + v@.take(k as int),
        decreases v@.len() - k,
    {
        out.push(v[k]);
        k = k + 1;
        assert(out@ =~= old(out)@ + v@.take(k as int));
    }
    assert(v@.take(v@.len() as int) =~= v@);
}

/// A decimal integer as `str::parse::<i64>` reads it: an optional sign and at least one
/// digit, within the range of `i64`.
pub open spec fn parse_i64(s: Seq<char>) -> Option<i64> {
    let neg = s.len() > 0 && s[0] == '-';
    let body = if s.len() > 0 && (s[0] == '-' || s[0] == '+') { s.skip(1) } else { s };
    if body.len() == 0 || !all_char_digits(body) {
        None
    } else {
        let v: int = if neg { -(char_digits_value(body) as int) } else { char_digits_value(body) as int };
        if i64::MIN <= v <= i64::MAX { Some(v as i64) } else { None }
    }
}

/// Parse a decimal `i64` (see [`parse_i64`]).
pub fn parse_i64_chars(v: &[char]) -> (r: Option<i64>)
    ensures
        r == parse_i64(v@),
{
    let n = v.len();
    let neg = n > 0 && v[0] == '-';
    let start: usize = if n > 0 && (v[0] == '-' || v[0] == '+') { 1 } else { 0 };
    let ghost body = if n > 0 && (v@[0] == '-' || v@[0] == '+') { v@.skip(1) } else { v@ };
    assert(body =~= v@.subrange(start as int, n as int));
    if start >= n {
        return None;
    }
    let limit: u128 = 0x8000_0000_0000_0000;
    let mut acc: u128 = 0;
    let mut i = start;
    while i < n
        invariant
            start <= i <= n,
            n == v@.len(),
            body == v@.subrange(start as int, n as int),
            body == (if n > 0 && (v@[0] == '-' || v@[0] == '+') { v@.skip(1) } else { v@ }),
            limit == 0x8000_0000_0000_0000u128,
            forall|k: int| start <= k < i ==> #[trigger] char_digit(v@[k]),
            acc == char_digits_value(body.take(i - start)),
            acc <= limit,
        decreases n - i,
    {
        let c = v[i];
        if c < '0' || c > '9' {
            assert(body[i - start] == v@[i as int]);
            assert(!char_digit(body[i - start]));
            assert(!all_char_digits(body));
            return None;
        }
        assert(body.take(i + 1 - start).drop_last() =~= body.take(i - start));
        assert(acc * 10 <= 0x8000_0000_0000_0000u128 * 10) by (nonlinear_arith)
            requires
                acc <= 0x8000_0000_0000_0000u128,
        ;
        let d: u128 = (c as u32 - 48) as u128;
        let next = acc * 10 + d;
        assert(next == char_digits_value(body.take(i + 1 - start)));
        if next > limit {
            proof {
                if all_char_digits(body) {
                    lemma_char_digits_prefix(body, i + 1 - start);
                }
            }
            return None;
        }
        acc = next;
        i = i + 1;
    }
    assert(body.take(n - start) =~= body);
    assert(all_char_digits(body)) by {
        assert forall|k: int| 0 <= k < body.len() implies #[trigger] char_digit(body[k]) by {
            assert(char_digit(v@[start + k]));
        }
    }
    if neg {
        Some((0 - acc as i128) as i64)
    } else if acc <= 0x7fff_ffff_ffff_ffff {
        Some(acc as i64)
    } else {
        None
    }
}

/// Append bytes to a byte string.
pub fn append_bytes(out: &mut Vec<u8>, b: &[u8])
    ensures
        final(out)@ == old(out)@ + b@,
{
    let mut i: usize = 0;
    while i < b.len()
        invariant
            i <= b@.len(),
            out@ == old(out)@ + b@.take(i as int),
        decreases b@.len() - i,
    {
        out.push(b[i]);
        i = i + 1;
        assert(out@ =~= old(out)@ + b@.take(i as int));
    }
    assert(b@.take(b@.len() as int) =~= b@);
}

} // verus!