//! Character-level string operations used by routing, validation and
//! discovery, each stated over the `Seq<char>` view of its arguments.
use vstd::prelude::*;

verus! {

/// `p` is a prefix of `s`.
pub open spec fn is_prefix(p: Seq<char>, s: Seq<char>) -> bool {
    p.len() <= s.len() && s.subrange(0, p.len() as int) == p
}

/// `p` is a suffix of `s`.
pub open spec fn is_suffix(p: Seq<char>, s: Seq<char>) -> bool {
    p.len() <= s.len() && s.subrange(s.len() - p.len(), s.len() as int) == p
}

/// Number of occurrences of `c` in `s`.
pub open spec fn count_char(s: Seq<char>, c: char) -> nat
    decreases s.len(),
{
    if s.len() == 0 {
        0
    } else {
        count_char(s.drop_last(), c) + if s.last() == c {
            1nat
        } else {
            0nat
        }
    }
}

/// `s` with every trailing `'/'` removed.
pub open spec fn trim_trailing_slashes(s: Seq<char>) -> Seq<char>
    decreases s.len(),
{
    if s.len() > 0 && s.last() == '/' {
        trim_trailing_slashes(s.drop_last())
    } else {
        s
    }
}

/// The character of a decimal digit.
pub open spec fn digit_char(d: nat) -> char {
    if d == 0 {
        '0'
    } else if d == 1 {
        '1'
    } else if d == 2 {
        '2'
    } else if d == 3 {
        '3'
    } else if d == 4 {
        '4'
    } else if d == 5 {
        '5'
    } else if d == 6 {
        '6'
    } else if d == 7 {
        '7'
    } else if d == 8 {
        '8'
    } else {
        '9'
    }
}

/// Decimal notation of `n`, without leading zeros.
pub open spec fn decimal(n: nat) -> Seq<char>
    decreases n,
{
    if n < 10 {
        seq![digit_char(n)]
    } else {
        decimal(n / 10).push(digit_char(n % 10))
    }
}

/// `c` is a decimal digit.
pub open spec fn is_digit(c: char) -> bool {
    '0' <= c && c <= '9'
}

/// Every character of `s` is a decimal digit.
pub open spec fn all_digits(s: Seq<char>) -> bool {
    forall|i: int| 0 <= i < s.len() ==> is_digit(#[trigger] s[i])
}

/// Value of a string of decimal digits.
pub open spec fn digits_value(s: Seq<char>) -> nat
    decreases s.len(),
{
    if s.len() == 0 {
        0
    } else {
        digits_value(s.drop_last()) * 10 + ((s.last() as int - '0' as int) as nat)
    }
}

/// What `str::parse::<u16>` gives: an optional `+` followed by at least one
/// decimal digit, with a value at most 65535.
pub open spec fn parse_u16_spec(s: Seq<char>) -> Option<u16> {
    let d = if s.len() > 0 && s[0] == '+' {
        s.drop_first()
    } else {
        s
    };
    if d.len() > 0 && all_digits(d) && digits_value(d) <= 65535 {
        Some(digits_value(d) as u16)
    } else {
        None
    }
}

/// The characters of `s`, in order.
pub fn chars_of(s: &str) -> (r: Vec<char>)
    ensures
        r@ == s@,
{
    let mut out: Vec<char> = Vec::new();
    for c in it: s.chars()
        invariant
            out@ == it.seq().take(it.index() as int),
    {
        out.push(c);
    }
    out
}

/// Whether `s` starts with `prefix`.
pub fn starts_with(s: &str, prefix: &str) -> (r: bool)
    ensures
        r == is_prefix(prefix@, s@),
{
    let sv = chars_of(s);
    let pv = chars_of(prefix);
    if pv.len() > sv.len() {
        return false;
    }
    let mut i: usize = 0;
    while i < pv.len()
        invariant
            pv@ == prefix@,
            sv@ == s@,
            pv.len() <= sv.len(),
            i <= pv.len(),
            forall|j: int| 0 <= j < i ==> sv@[j] == pv@[j],
        decreases pv.len() - i,
    {
        if sv[i] != pv[i] {
            assert(s@.subrange(0, prefix@.len() as int)[i as int] != prefix@[i as int]);
            return false;
        }
        i = i + 1;
    }
    assert(s@.subrange(0, prefix@.len() as int) =~= prefix@);
    true
}

/// Whether `s` ends with `suffix`.
pub fn ends_with(s: &str, suffix: &str) -> (r: bool)
    ensures
        r == is_suffix(suffix@, s@),
{
    let sv = chars_of(s);
    let pv = chars_of(suffix);
    if pv.len() > sv.len() {
        return false;
    }
    let off: usize = sv.len() - pv.len();
    let mut i: usize = 0;
    while i < pv.len()
        invariant
            pv@ == suffix@,
            sv@ == s@,
            off == sv.len() - pv.len(),
            i <= pv.len(),
            forall|j: int| 0 <= j < i ==> sv@[off + j] == pv@[j],
        decreases pv.len() - i,
    {
        if sv[off + i] != pv[i] {
            assert(s@.subrange(off as int, s@.len() as int)[i as int] != suffix@[i as int]);
            return false;
        }
        i = i + 1;
    }
    assert(s@.subrange(off as int, s@.len() as int) =~= suffix@);
    true
}

/// Whether two strings hold the same characters.
pub fn str_eq(a: &str, b: &str) -> (r: bool)
    ensures
        r == (a@ == b@),
{
    let av = chars_of(a);
    let bv = chars_of(b);
    if av.len() != bv.len() {
        return false;
    }
    let mut i: usize = 0;
    while i < av.len()
        invariant
            av@ == a@,
            bv@ == b@,
            av.len() == bv.len(),
            i <= av.len(),
            forall|j: int| 0 <= j < i ==> av@[j] == bv@[j],
        decreases av.len() - i,
    {
        if av[i] != bv[i] {
            return false;
        }
        i = i + 1;
    }
    assert(a@ =~= b@);
    true
}

proof fn lemma_count_char_take(s: Seq<char>, c: char, i: int)
    requires
        0 <= i < s.len(),
    ensures
        count_char(s.take(i + 1), c) == count_char(s.take(i), c) + if s[i] == c {
            1nat
        } else {
            0nat
        },
{
    assert(s.take(i + 1).drop_last() =~= s.take(i));
}

/// Number of occurrences of `c` in `s`, together with the index of the first
/// one (the length of `s` when there is none).
pub fn count_and_find(s: &str, c: char) -> (r: (usize, usize))
    ensures
        r.0 == count_char(s@, c),
        r.1 <= s@.len(),
        r.1 < s@.len() ==> s@[r.1 as int] == c,
        forall|j: int| 0 <= j < r.1 ==> s@[j] != c,
        (r.1 == s@.len()) == (count_char(s@, c) == 0),
{
    let v = chars_of(s);
    let mut count: usize = 0;
    let mut first: usize = v.len();
    let mut i: usize = 0;
    while i < v.len()
        invariant
            v@ == s@,
            i <= v.len(),
            count == count_char(s@.take(i as int), c),
            count <= i,
            first == v.len() || (first < i && v@[first as int] == c),
            forall|j: int| 0 <= j < i && j < first ==> v@[j] != c,
            (first == v.len()) == (count == 0),
        decreases v.len() - i,
    {
        proof {
            lemma_count_char_take(s@, c, i as int);
        }
        if v[i] == c {
            if first == v.len() {
                first = i;
            }
            count = count + 1;
        }
        i = i + 1;
    }
    assert(s@.take(v.len() as int) =~= s@);
    (count, first)
}

proof fn lemma_trim_all_slashes(s: Seq<char>, j: int)
    requires
        0 <= j <= s.len(),
        forall|k: int| j <= k < s.len() ==> s[k] == '/',
    ensures
        trim_trailing_slashes(s) == trim_trailing_slashes(s.take(j)),
    decreases s.len() - j,
{
    if j < s.len() {
        assert(s.drop_last().take(j) =~= s.take(j));
        lemma_trim_all_slashes(s.drop_last(), j);
    } else {
        assert(s.take(j) =~= s);
    }
}

/// `s` with every trailing `'/'` removed.
pub fn trim_end_slashes(s: &str) -> (r: String)
    ensures
        r@ == trim_trailing_slashes(s@),
{
    let v = chars_of(s);
    let mut j: usize = v.len();
    while j > 0 && v[j - 1] == '/'
        invariant
            v@ == s@,
            j <= v.len(),
            forall|k: int| j <= k < v.len() ==> v@[k] == '/',
        decreases j,
    {
        j = j - 1;
    }
    proof {
        lemma_trim_all_slashes(s@, j as int);
        let t = s@.take(j as int);
        if j > 0 {
            assert(t.last() != '/');
        }
        assert(trim_trailing_slashes(t) == t);
    }
    let sub = s.substring_char(0, j);
    assert(sub@ =~= s@.take(j as int));
    String::from_str(sub)
}

/// The decimal notation of `n`.
pub fn decimal_string(n: u64) -> (r: String)
    ensures
        r@ == decimal(n as nat),
    decreases n,
{
    let digits = "0123456789";
    proof {
        reveal_strlit("0123456789");
    }
    let d: usize = (n % 10) as usize;
    let one = digits.substring_char(d, d + 1);
    assert(one@ =~= seq![digit_char(d as nat)]);
    if n < 10 {
        String::from_str(one)
    } else {
        let mut head = decimal_string(n / 10);
        head.append(one);
        head
    }
}

proof fn lemma_digits_value_take(s: Seq<char>, i: int)
    requires
        0 <= i < s.len(),
    ensures
        digits_value(s.take(i + 1)) == digits_value(s.take(i)) * 10 + ((s[i] as int
            - '0' as int) as nat),
{
    assert(s.take(i + 1).drop_last() =~= s.take(i));
}

/// What `str::parse::<u16>` gives on `s`.
pub fn parse_u16(s: &str) -> (r: Option<u16>)
    ensures
        r == parse_u16_spec(s@),
{
    let v = chars_of(s);
    let start: usize = if v.len() > 0 && v[0] == '+' {
        1
    } else {
        0
    };
    let ghost d = if s@.len() > 0 && s@[0] == '+' {
        s@.drop_first()
    } else {
        s@
    };
    assert(d =~= s@.subrange(start as int, s@.len() as int));
    if start == v.len() {
        return None;
    }
    let mut value: u32 = 0;
    let mut i: usize = start;
    while i < v.len()
        invariant
            v@ == s@,
            start <= i <= v.len(),
            d == s@.subrange(start as int, s@.len() as int),
            d == (if s@.len() > 0 && s@[0] == '+' {
                s@.drop_first()
            } else {
                s@
            }),
            all_digits(d.take(i - start)),
            value == digits_value(d.take(i - start)),
            value <= 65535,
        decreases v.len() - i,
    {
        let c = v[i];
        proof {
            lemma_digits_value_take(d, i - start);
            assert(d.take(i - start + 1) =~= d.take(i - start).push(c));
        }
        if !('0' <= c && c <= '9') {
            assert(!is_digit(d[i - start]));
            return None;
        }
        let dv: u32 = (c as u32) - ('0' as u32);
        value = value * 10 + dv;
        if value > 65535 {
            proof {
                if all_digits(d) {
                    lemma_digits_value_grows(d, (i - start + 1) as int);
                }
            }
            return None;
        }
        i = i + 1;
    }
    assert(d.take(i - start) =~= d);
    Some(value as u16)
}

proof fn lemma_digits_value_grows(s: Seq<char>, i: int)
    requires
        0 <= i <= s.len(),
        all_digits(s),
    ensures
        digits_value(s.take(i)) <= digits_value(s),
    decreases s.len() - i,
{
    if i < s.len() {
        lemma_digits_value_grows(s, i + 1);
        lemma_digits_value_take(s, i);
    } else {
        assert(s.take(i) =~= s);
    }
}


/// The views of a list of strings.
pub open spec fn texts(v: Seq<String>) -> Seq<Seq<char>> {
    v.map_values(|s: String| s@)
}

/// What `str::parse::<u64>` gives: an optional `+` followed by at least one
/// decimal digit, with a value that fits in 64 bits.
pub open spec fn parse_u64_spec(s: Seq<char>) -> Option<u64> {
    let d = if s.len() > 0 && s[0] == '+' {
        s.drop_first()
    } else {
        s
    };
    if d.len() > 0 && all_digits(d) && digits_value(d) <= u64::MAX {
        Some(digits_value(d) as u64)
    } else {
        None
    }
}

/// What `str::parse::<u64>` gives on `s`.
pub fn parse_u64(s: &str) -> (r: Option<u64>)
    ensures
        r == parse_u64_spec(s@),
{
    let v = chars_of(s);
    let start: usize = if v.len() > 0 && v[0] == '+' {
        1
    } else {
        0
    };
    let ghost d = if s@.len() > 0 && s@[0] == '+' {
        s@.drop_first()
    } else {
        s@
    };
    assert(d =~= s@.subrange(start as int, s@.len() as int));
    if start == v.len() {
        return None;
    }
    let mut value: u128 = 0;
    let mut i: usize = start;
    while i < v.len()
        invariant
            v@ == s@,
            start <= i <= v.len(),
            d == s@.subrange(start as int, s@.len() as int),
            d == (if s@.len() > 0 && s@[0] == '+' {
                s@.drop_first()
            } else {
                s@
            }),
            all_digits(d.take(i - start)),
            value == digits_value(d.take(i - start)),
            value <= u64::MAX,
        decreases v.len() - i,
    {
        let c = v[i];
        proof {
            lemma_digits_value_take(d, i - start);
            assert(d.take(i - start + 1) =~= d.take(i - start).push(c));
        }
        if !('0' <= c && c <= '9') {
            assert(!is_digit(d[i - start]));
            return None;
        }
        let dv: u128 = ((c as u32) - ('0' as u32)) as u128;
        value = value * 10 + dv;
        if value > 0xffff_ffff_ffff_ffffu128 {
            proof {
                if all_digits(d) {
                    lemma_digits_value_grows(d, (i - start + 1) as int);
                }
            }
            return None;
        }
        i = i + 1;
    }
    assert(d.take(i - start) =~= d);
    Some(value as u64)
}

/// A byte that a header value read as text may hold: visible ASCII or a tab.
pub open spec fn header_text_byte(b: u8) -> bool {
    (32 <= b && b < 127) || b == 9
}

/// Whether a header value can be read as text, as `http::HeaderValue::to_str`
/// decides it: every byte is visible ASCII or a tab.
pub fn header_value_is_text(bytes: &[u8]) -> (r: bool)
    ensures
        r == (forall|i: int| 0 <= i < bytes@.len() ==> header_text_byte(#[trigger] bytes@[i])),
{
    let mut i: usize = 0;
    while i < bytes.len()
        invariant
            i <= bytes@.len(),
            forall|k: int| 0 <= k < i ==> header_text_byte(#[trigger] bytes@[k]),
        decreases bytes@.len() - i,
    {
        let b = bytes[i];
        if !((32 <= b && b < 127) || b == 9) {
            return false;
        }
        i = i + 1;
    }
    true
}

} // verus!
