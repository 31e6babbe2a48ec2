//! Figures read from the kernel's per-process status files: the resident set
//! from `statm` and the CPU time from `stat`, both split into fields at
//! whitespace.
use crate::text::{chars_of, parse_u64_spec, parse_u64, texts};
use vstd::prelude::*;

verus! {

/// Whether `c` has the Unicode `White_Space` property, as `char::is_whitespace`
/// documents.
pub open spec fn is_whitespace(c: char) -> bool {
    ('\u{9}' <= c && c <= '\u{d}') || c == ' ' || c == '\u{85}' || c == '\u{a0}' || c == '\u{1680}'
        || ('\u{2000}' <= c && c <= '\u{200a}') || c == '\u{2028}' || c == '\u{2029}' || c
        == '\u{202f}' || c == '\u{205f}' || c == '\u{3000}'
}

/// The fields of `s` from position `i` on, where `cur` is the part of a field
/// already read and `acc` the fields already complete.
pub open spec fn fields_from(
    s: Seq<char>,
    i: int,
    cur: Seq<char>,
    acc: Seq<Seq<char>>,
) -> Seq<Seq<char>>
    decreases s.len() - i,
{
    if i >= s.len() {
        if cur.len() > 0 {
            acc.push(cur)
        } else {
            acc
        }
    } else if is_whitespace(s[i]) {
        fields_from(
            s,
            i + 1,
            Seq::empty(),
            if cur.len() > 0 {
                acc.push(cur)
            } else {
                acc
            },
        )
    } else {
        fields_from(s, i + 1, cur.push(s[i]), acc)
    }
}

/// What `str::split_whitespace` yields: the maximal runs of characters that
/// are not whitespace, in order.
pub open spec fn fields(s: Seq<char>) -> Seq<Seq<char>> {
    fields_from(s, 0, Seq::empty(), Seq::empty())
}

/// Whether `c` is whitespace (`char::is_whitespace`).
pub fn is_space(c: char) -> (r: bool)
    ensures
        r == is_whitespace(c),
{
    ('\u{9}' <= c && c <= '\u{d}') || c == ' ' || c == '\u{85}' || c == '\u{a0}' || c == '\u{1680}'
        || ('\u{2000}' <= c && c <= '\u{200a}') || c == '\u{2028}' || c == '\u{2029}' || c
        == '\u{202f}' || c == '\u{205f}' || c == '\u{3000}'
}

/// The whitespace-separated fields of `s`.
pub fn split_fields(s: &str) -> (r: Vec<String>)
    ensures
        texts(r@) == fields(s@),
{
    let v = chars_of(s);
    let mut out: Vec<String> = Vec::new();
    let mut start: usize = 0;
    let mut i: usize = 0;
    assert(texts(out@) =~= Seq::<Seq<char>>::empty());
    assert(s@.subrange(0, 0) =~= Seq::<char>::empty());
    while i < v.len()
        invariant
            v@ == s@,
            start <= i <= v@.len(),
            fields_from(s@, i as int, s@.subrange(start as int, i as int), texts(out@)) == fields(
                s@,
            ),
        decreases v@.len() - i,
    {
        let c = v[i];
        if is_space(c) {
            if start < i {
                let ghost prev = out@;
                let field = String::from_str(s.substring_char(start, i));
                out.push(field);
                assert(texts(out@) =~= texts(prev).push(s@.subrange(start as int, i as int)));
            }
            assert(s@.subrange((i + 1) as int, (i + 1) as int) =~= Seq::<char>::empty());
            start = i + 1;
        } else {
            assert(s@.subrange(start as int, i + 1) =~= s@.subrange(start as int, i as int).push(c));
        }
        i = i + 1;
    }
    if start < i {
        let ghost prev = out@;
        let field = String::from_str(s.substring_char(start, i));
        out.push(field);
        assert(texts(out@) =~= texts(prev).push(s@.subrange(start as int, i as int)));
    }
    out
}

/// The resident set size in pages: the second field of `statm`, when there
/// is one and it reads as a number.
pub fn resident_pages(statm: &str) -> (r: Option<u64>)
    ensures
        r == if fields(statm@).len() >= 2 {
            parse_u64_spec(fields(statm@)[1])
        } else {
            None
        },
{
    let parts = split_fields(statm);
    if parts.len() >= 2 {
        assert(parts@[1]@ == fields(statm@)[1]);
        parse_u64(parts[1].as_str())
    } else {
        None
    }
}

/// A field read as a number, zero when it does not read as one.
pub open spec fn number_or_zero(s: Seq<char>) -> u64 {
    match parse_u64_spec(s) {
        Some(n) => n,
        None => 0,
    }
}

/// The user and system CPU time in clock ticks: fields 14 and 15 of `stat`
/// (each zero when it does not read as a number), when `stat` has that many
/// fields.
pub fn cpu_times(stat: &str) -> (r: Option<(u64, u64)>)
    ensures
        r == if fields(stat@).len() >= 15 {
            Some((number_or_zero(fields(stat@)[13]), number_or_zero(fields(stat@)[14])))
        } else {
            None
        },
{
    let parts = split_fields(stat);
    if parts.len() >= 15 {
        assert(parts@[13]@ == fields(stat@)[13]);
        assert(parts@[14]@ == fields(stat@)[14]);
        let utime = match parse_u64(parts[13].as_str()) {
            Some(n) => n,
            None => 0,
        };
        let stime = match parse_u64(parts[14].as_str()) {
            Some(n) => n,
            None => 0,
        };
        Some((utime, stime))
    } else {
        None
    }
}

} // verus!
