use vstd::prelude::*;

verus! {

/// Lowercase hexadecimal digits, indexed by value.
pub open spec fn hex_alphabet() -> Seq<char> {
    seq!['0', '1', '2', '3', '4', '5', '6', '7', '8', '9', 'a', 'b', 'c', 'd', 'e', 'f']
}

/// Two lowercase hex digits per byte, most significant first.
pub open spec fn hex_lower(b: Seq<u8>) -> Seq<char>
    decreases b.len(),
{
    if b.len() == 0 {
        Seq::empty()
    } else {
        let last = b.last();
        hex_lower(b.drop_last()).push(hex_alphabet()[(last / 16) as int]).push(
            hex_alphabet()[(last % 16) as int],
        )
    }
}

/// The character for a decimal digit.
pub open spec fn digit_char(n: nat) -> char {
    hex_alphabet()[n as int]
}

/// Value of a decimal digit character.
pub open spec fn digit_value(c: char) -> nat {
    (c as u32 - '0' as u32) as nat
}

pub open spec fn is_digit(c: char) -> bool {
    '0' <= c && c <= '9'
}

/// Decimal digits of a natural number, without leading zeros.
pub open spec fn decimal_nat(n: nat) -> Seq<char>
    decreases n,
{
    if n < 10 {
        seq![digit_char(n)]
    } else {
        decimal_nat(n / 10).push(digit_char(n % 10))
    }
}

/// Decimal form of an integer, with a leading `-` when negative.
pub open spec fn decimal(i: int) -> Seq<char> {
    if i < 0 {
        seq!['-'] + decimal_nat((-i) as nat)
    } else {
        decimal_nat(i as nat)
    }
}

/// Value of a string of decimal digits.
pub open spec fn digits_value(s: Seq<char>) -> nat
    decreases s.len(),
{
    if s.len() == 0 {
        0
    } else {
        digits_value(s.drop_last()) * 10 + digit_value(s.last())
    }
}

pub open spec fn all_digits(s: Seq<char>) -> bool {
    forall|i: int| 0 <= i < s.len() ==> is_digit(#[trigger] s[i])
}

/// An optional sign followed by at least one digit, read as a signed integer.
pub open spec fn signed_value(s: Seq<char>) -> Option<int> {
    if s.len() > 0 && (s[0] == '-' || s[0] == '+') {
        let body = s.drop_first();
        if body.len() > 0 && all_digits(body) {
            if s[0] == '-' {
                Some(-(digits_value(body) as int))
            } else {
                Some(digits_value(body) as int)
            }
        } else {
            None
        }
    } else if s.len() > 0 && all_digits(s) {
        Some(digits_value(s) as int)
    } else {
        None
    }
}

/// A signed decimal that fits in an `i64`.
pub open spec fn i64_of(s: Seq<char>) -> Option<i64> {
    match signed_value(s) {
        Some(v) => if i64::MIN <= v <= i64::MAX {
            Some(v as i64)
        } else {
            None
        },
        None => None,
    }
}

/// Index of the first `c` in `s` at or after `start`, or the length of `s`.
pub open spec fn next_index_of(s: Seq<char>, c: char, start: int) -> int
    decreases s.len() - start,
{
    if start < 0 || start >= s.len() {
        s.len() as int
    } else if s[start] == c {
        start
    } else {
        next_index_of(s, c, start + 1)
    }
}

/// Index of the last `c` in `s`, if any.
pub open spec fn last_index_of(s: Seq<char>, c: char) -> Option<int>
    decreases s.len(),
{
    if s.len() == 0 {
        None
    } else if s.last() == c {
        Some(s.len() - 1)
    } else {
        last_index_of(s.drop_last(), c)
    }
}

pub proof fn lemma_hex_lower_len(b: Seq<u8>)
    ensures
        hex_lower(b).len() == 2 * b.len(),
    decreases b.len(),
{
    if b.len() > 0 {
        lemma_hex_lower_len(b.drop_last());
    }
}

/// No character of `hex_lower(b)` is `c` unless `c` is a hex digit.
pub proof fn lemma_hex_lower_alphabet(b: Seq<u8>, c: char)
    requires
        !hex_alphabet().contains(c),
    ensures
        !hex_lower(b).contains(c),
    decreases b.len(),
{
    if b.len() > 0 {
        lemma_hex_lower_alphabet(b.drop_last(), c);
        let last = b.last();
        let h = hex_lower(b.drop_last());
        assert(hex_alphabet().contains(hex_alphabet()[(last / 16) as int]));
        assert(hex_alphabet().contains(hex_alphabet()[(last % 16) as int]));
        assert forall|i: int| 0 <= i < hex_lower(b).len() implies hex_lower(b)[i] != c by {
            if i < h.len() {
                assert(hex_lower(b)[i] == h[i]);
                assert(!h.contains(c));
                if h[i] == c {
                    assert(h.contains(c));
                }
            }
        }
    }
}

pub proof fn lemma_decimal_nat(n: nat)
    ensures
        decimal_nat(n).len() > 0,
        all_digits(decimal_nat(n)),
        digits_value(decimal_nat(n)) == n,
    decreases n,
{
    if n >= 10 {
        lemma_decimal_nat(n / 10);
        let p = decimal_nat(n / 10);
        let s = p.push(digit_char(n % 10));
        assert(s.drop_last() =~= p);
        assert(digit_value(digit_char(n % 10)) == n % 10) by {
            assert(hex_alphabet()[(n % 10) as int] as u32 == '0' as u32 + n % 10);
        }
        assert(s.last() == digit_char(n % 10));
        assert(digits_value(s) == digits_value(p) * 10 + digit_value(s.last()));
        assert(is_digit(digit_char(n % 10)));
        assert forall|i: int| 0 <= i < s.len() implies is_digit(#[trigger] s[i]) by {
            if i < p.len() {
                assert(s[i] == p[i]);
            }
        }
    } else {
        let s = decimal_nat(n);
        assert(s.drop_last() =~= Seq::<char>::empty());
        assert(hex_alphabet()[n as int] as u32 == '0' as u32 + n);
        assert(digits_value(s.drop_last()) == 0);
        assert(digits_value(s) == digits_value(s.drop_last()) * 10 + digit_value(s.last()));
    }
}

/// Reading the decimal form of an `i64` gives the number back.
pub proof fn lemma_i64_decimal_round_trip(t: i64)
    ensures
        i64_of(decimal(t as int)) == Some(t),
        !decimal(t as int).contains('#'),
{
    let s = decimal(t as int);
    if t < 0 {
        let m = (-(t as int)) as nat;
        lemma_decimal_nat(m);
        assert(s.drop_first() =~= decimal_nat(m));
        let d = decimal_nat(m);
        assert(d[0] != '-' && d[0] != '+') by {
            assert(is_digit(d[0]));
        }
    } else {
        lemma_decimal_nat(t as nat);
        assert(is_digit(s[0]));
    }
    assert forall|i: int| 0 <= i < s.len() implies s[i] != '#' by {
        if t < 0 {
            if i > 0 {
                assert(s[i] == s.drop_first()[i - 1]);
                assert(is_digit(s.drop_first()[i - 1]));
            }
        } else {
            assert(is_digit(s[i]));
        }
    }
}

/// `next_index_of` finds `end` when no `c` stands in `[start, end)` and `c` or the end follows.
pub proof fn lemma_next_index_of(s: Seq<char>, c: char, start: int, end: int)
    requires
        0 <= start <= end <= s.len(),
        forall|j: int| start <= j < end ==> s[j] != c,
        end == s.len() || s[end] == c,
    ensures
        next_index_of(s, c, start) == end,
    decreases end - start,
{
    if start < end {
        lemma_next_index_of(s, c, start + 1, end);
    }
}

/// Lowercase hex of the bytes.
pub fn hex_string(b: &[u8]) -> (r: String)
    ensures
        r@ == hex_lower(b@),
{
    let digits = "0123456789abcdef";
    proof {
        reveal_strlit("0123456789abcdef");
        assert(digits@ =~= hex_alphabet());
    }
    let mut r = String::new();
    let mut i: usize = 0;
    while i < b.len()
        invariant
            0 <= i <= b@.len(),
            digits@ == hex_alphabet(),
            r@ == hex_lower(b@.subrange(0, i as int)),
        decreases b@.len() - i,
    {
        let x = b[i];
        let hi = (x / 16) as usize;
        let lo = (x % 16) as usize;
        r.append(digits.substring_char(hi, hi + 1));
        r.append(digits.substring_char(lo, lo + 1));
        proof {
            let p = b@.subrange(0, i as int + 1);
            assert(p.drop_last() =~= b@.subrange(0, i as int));
            assert(digits@.subrange(hi as int, hi + 1) =~= seq![hex_alphabet()[hi as int]]);
            assert(digits@.subrange(lo as int, lo + 1) =~= seq![hex_alphabet()[lo as int]]);
            assert(r@ =~= hex_lower(p));
        }
        i = i + 1;
    }
    assert(b@.subrange(0, b@.len() as int) =~= b@);
    r
}

/// Appends the decimal digits of `n` to `s`.
pub fn push_decimal(s: &mut String, n: u64)
    ensures
        final(s)@ == old(s)@ + decimal_nat(n as nat),
    decreases n,
{
    let digits = "0123456789";
    proof {
        reveal_strlit("0123456789");
        assert(forall|k: int| 0 <= k < 10 ==> digits@[k] == hex_alphabet()[k]);
    }
    if n >= 10 {
        push_decimal(s, n / 10);
    }
    let d = (n % 10) as usize;
    s.append(digits.substring_char(d, d + 1));
    proof {
        assert(digits@.subrange(d as int, d + 1) =~= seq![digit_char(d as nat)]);
        if n >= 10 {
            assert(old(s)@ + decimal_nat(n as nat) =~= old(s)@ + decimal_nat((n / 10) as nat)
                + seq![digit_char(d as nat)]);
        } else {
            assert(decimal_nat(n as nat) =~= seq![digit_char(d as nat)]);
        }
    }
}

/// Decimal form of `t`.
pub fn i64_to_decimal(t: i64) -> (r: String)
    ensures
        r@ == decimal(t as int),
{
    let mut s = String::new();
    if t < 0 {
        s.append("-");
        proof {
            reveal_strlit("-");
        }
        let m: u64 = ((-(t + 1)) as u64) + 1;
        push_decimal(&mut s, m);
        proof {
            assert(s@ =~= seq!['-'] + decimal_nat((-(t as int)) as nat));
        }
    } else {
        push_decimal(&mut s, t as u64);
        proof {
            assert(s@ =~= decimal_nat(t as nat));
        }
    }
    s
}

/// Value of the digits `s[from..]`, or `None` when one is not a digit or the value exceeds 2^63.
fn digits_from(s: &str, from: usize) -> (r: Option<u64>)
    requires
        from <= s@.len(),
    ensures
        match r {
            Some(v) => all_digits(s@.subrange(from as int, s@.len() as int)) && v as nat
                == digits_value(s@.subrange(from as int, s@.len() as int)) && v <= 0x8000_0000_0000_0000u64,
            None => !all_digits(s@.subrange(from as int, s@.len() as int)) || digits_value(
                s@.subrange(from as int, s@.len() as int),
            ) > 0x8000_0000_0000_0000u64,
        },
{
    let n = s.unicode_len();
    let mut acc: u64 = 0;
    let mut big = false;
    let mut i: usize = from;
    while i < n
        invariant
            n == s@.len(),
            from <= i <= n,
            all_digits(s@.subrange(from as int, i as int)),
            big ==> digits_value(s@.subrange(from as int, i as int)) > 0x8000_0000_0000_0000u64,
            !big ==> acc as nat == digits_value(s@.subrange(from as int, i as int)) && acc
                <= 0x8000_0000_0000_0000u64,
        decreases n - i,
    {
        let c = s.get_char(i);
        let p = Ghost(s@.subrange(from as int, i as int));
        let q = Ghost(s@.subrange(from as int, i as int + 1));
        proof {
            assert(q@.drop_last() =~= p@);
            assert(q@.last() == c);
        }
        if !('0' <= c && c <= '9') {
            proof {
                assert(!all_digits(s@.subrange(from as int, n as int))) by {
                    assert(s@.subrange(from as int, n as int)[i - from] == c);
                }
            }
            return None;
        }
        let d = (c as u32 - '0' as u32) as u64;
        if !big {
            if acc > 922_337_203_685_477_580u64 {
                big = true;
            } else {
                acc = acc * 10 + d;
                if acc > 0x8000_0000_0000_0000u64 {
                    big = true;
                }
            }
        }
        proof {
            assert forall|j: int| 0 <= j < q@.len() implies is_digit(#[trigger] q@[j]) by {
                if j < p@.len() {
                    assert(q@[j] == p@[j]);
                }
            }
        }
        i = i + 1;
    }
    assert(s@.subrange(from as int, i as int) =~= s@.subrange(from as int, n as int));
    if big {
        None
    } else {
        Some(acc)
    }
}

/// Reads an optionally signed decimal `i64`.
pub fn parse_i64(s: &str) -> (r: Option<i64>)
    ensures
        r == i64_of(s@),
{
    let n = s.unicode_len();
    if n == 0 {
        return None;
    }
    let c = s.get_char(0);
    let signed = c == '-' || c == '+';
    let from: usize = if signed { 1 } else { 0 };
    if signed && n == 1 {
        return None;
    }
    proof {
        assert(s@.subrange(1, s@.len() as int) =~= s@.drop_first());
        assert(s@.subrange(0, s@.len() as int) =~= s@);
    }
    match digits_from(s, from) {
        None => None,
        Some(v) => {
            if c == '-' {
                if v == 0x8000_0000_0000_0000u64 {
                    Some(i64::MIN)
                } else {
                    Some(-(v as i64))
                }
            } else if v <= 0x7fff_ffff_ffff_ffffu64 {
                Some(v as i64)
            } else {
                None
            }
        },
    }
}

/// Index of the first `c` at or after `start`, or the length of `s`.
pub fn find_char(s: &str, c: char, start: usize) -> (r: usize)
    requires
        start <= s@.len(),
    ensures
        r as int == next_index_of(s@, c, start as int),
        start <= r <= s@.len(),
{
    let n = s.unicode_len();
    let mut i: usize = start;
    while i < n
        invariant
            n == s@.len(),
            start <= i <= n,
            forall|j: int| start <= j < i ==> s@[j] != c,
        decreases n - i,
    {
        if s.get_char(i) == c {
            proof {
                lemma_next_index_of(s@, c, start as int, i as int);
            }
            return i;
        }
        i = i + 1;
    }
    proof {
        lemma_next_index_of(s@, c, start as int, n as int);
    }
    n
}

/// Index of the last `c` in `s`, if any.
pub fn rfind_char(s: &str, c: char) -> (r: Option<usize>)
    ensures
        r matches Some(i) ==> (last_index_of(s@, c) == Some(i as int) && i < s@.len()),
        r is None ==> last_index_of(s@, c) is None,
        r matches Some(i) ==> s@[i as int] == c,
{
    let n = s.unicode_len();
    let mut i: usize = n;
    assert(s@.subrange(0, n as int) =~= s@);
    while i > 0
        invariant
            n == s@.len(),
            0 <= i <= n,
            last_index_of(s@, c) == last_index_of(s@.subrange(0, i as int), c),
        decreases i,
    {
        let p = Ghost(s@.subrange(0, i as int));
        proof {
            assert(p@.drop_last() =~= s@.subrange(0, i - 1));
        }
        if s.get_char(i - 1) == c {
            return Some(i - 1);
        }
        i = i - 1;
    }
    None
}

} // verus!
