//! Field parsers: small textual encodings of the feed converted to integer
//! millisecond counts. Every parser is total — malformed, empty, or
//! non-applicable input degrades to the neutral sentinel 0 instead of
//! surfacing an error.

use vstd::prelude::*;
use vstd::string::StrSliceExecFns;

verus! {

/// Largest whole-number part (seconds or minutes) a textual field may carry;
/// anything larger is treated as unparseable, so every millisecond result
/// fits comfortably in an `i64`.
pub const MAX_WHOLE: u64 = 1_000_000_000_000;

pub open spec fn is_digit(c: char) -> bool {
    48 <= c as int && c as int <= 57
}

pub open spec fn digit_val(c: char) -> int {
    c as int - 48
}

pub open spec fn all_digits(t: Seq<char>) -> bool {
    forall|i: int| 0 <= i < t.len() ==> is_digit(#[trigger] t[i])
}

/// Value of a string of decimal digits, most significant first.
pub open spec fn digits_val(t: Seq<char>) -> int
    decreases t.len(),
{
    if t.len() == 0 {
        0
    } else {
        digits_val(t.drop_last()) * 10 + digit_val(t.last())
    }
}

/// Sign carried by an optional leading `+` or `-`.
pub open spec fn sign_of(t: Seq<char>) -> int {
    if t.len() > 0 && t[0] == '-' {
        -1
    } else {
        1
    }
}

/// The input without its leading sign character, if it has one.
pub open spec fn signed_body(t: Seq<char>) -> Seq<char> {
    if t.len() > 0 && (t[0] == '+' || t[0] == '-') {
        t.subrange(1, t.len() as int)
    } else {
        t
    }
}

/// Digits before the first `.` of an unsigned decimal body.
pub open spec fn int_part(body: Seq<char>) -> Seq<char> {
    match body.index_of_first('.') {
        Some(i) => body.subrange(0, i),
        None => body,
    }
}

/// Digits after the first `.` of an unsigned decimal body.
pub open spec fn frac_part(body: Seq<char>) -> Seq<char> {
    match body.index_of_first('.') {
        Some(i) => body.subrange(i + 1, body.len() as int),
        None => Seq::empty(),
    }
}

/// Milliseconds contributed by a fraction-digit string: the first three
/// digits, scaled; further digits are truncated.
pub open spec fn frac_ms(f: Seq<char>) -> int {
    if f.len() >= 3 {
        digits_val(f.subrange(0, 3))
    } else if f.len() == 2 {
        10 * digits_val(f)
    } else if f.len() == 1 {
        100 * digits_val(f)
    } else {
        0
    }
}

/// A signed decimal seconds string (`[+-]? digits [. digits]`, at least one
/// digit) converted to milliseconds, truncated toward zero; `None` when the
/// string does not match the grammar or its whole part exceeds `MAX_WHOLE`.
pub open spec fn decimal_ms(t: Seq<char>) -> Option<int> {
    let body = signed_body(t);
    let ip = int_part(body);
    let fp = frac_part(body);
    if all_digits(ip) && all_digits(fp) && ip.len() + fp.len() >= 1 && digits_val(ip)
        <= MAX_WHOLE as int {
        Some(sign_of(t) * (1000 * digits_val(ip) + frac_ms(fp)))
    } else {
        None
    }
}

/// A signed whole-number string (`[+-]? digits`, at least one digit) as an
/// integer; `None` when it does not match or exceeds `MAX_WHOLE`.
pub open spec fn signed_int_val(t: Seq<char>) -> Option<int> {
    let body = signed_body(t);
    if all_digits(body) && body.len() >= 1 && digits_val(body) <= MAX_WHOLE as int {
        Some(sign_of(t) * digits_val(body))
    } else {
        None
    }
}

/// What `parse_gap` returns: empty and lap-count encodings (any string
/// holding the marker `L`) are not time gaps and yield 0; otherwise a
/// leading `+` is stripped and the rest is read as decimal seconds.
pub open spec fn gap_ms(t: Seq<char>) -> int {
    if t.len() == 0 {
        0
    } else if t.contains('L') {
        0
    } else {
        let stripped = if t[0] == '+' {
            t.subrange(1, t.len() as int)
        } else {
            t
        };
        match decimal_ms(stripped) {
            Some(v) => v,
            None => 0,
        }
    }
}

/// What `parse_laptime` returns: `minutes:seconds.fraction`, with exactly
/// one colon; any malformed part yields 0.
pub open spec fn laptime_ms(t: Seq<char>) -> int {
    if t.len() == 0 {
        0
    } else {
        match t.index_of_first(':') {
            Some(i) => {
                let mins = t.subrange(0, i);
                let secs = t.subrange(i + 1, t.len() as int);
                if secs.contains(':') {
                    0
                } else {
                    match (signed_int_val(mins), decimal_ms(secs)) {
                        (Some(m), Some(s)) => 60000 * m + s,
                        _ => 0,
                    }
                }
            },
            None => 0,
        }
    }
}

/// What `parse_sector` returns: plain decimal seconds; malformed yields 0.
pub open spec fn sector_ms(t: Seq<char>) -> int {
    if t.len() == 0 {
        0
    } else {
        match decimal_ms(t) {
            Some(v) => v,
            None => 0,
        }
    }
}

proof fn lemma_digits_val_nonneg(t: Seq<char>)
    requires
        all_digits(t),
    ensures
        digits_val(t) >= 0,
    decreases t.len(),
{
    if t.len() > 0 {
        assert(all_digits(t.drop_last())) by {
            assert(forall|i: int| 0 <= i < t.len() - 1 ==> t.drop_last()[i] == t[i]);
        }
        lemma_digits_val_nonneg(t.drop_last());
    }
}

/// For an all-digit string, the value of any prefix is no larger than the
/// value of the whole string.
proof fn lemma_digits_val_prefix_le(t: Seq<char>, i: int)
    requires
        all_digits(t),
        0 <= i <= t.len(),
    ensures
        digits_val(t.subrange(0, i)) <= digits_val(t),
    decreases t.len() - i,
{
    if i < t.len() {
        let a = t.subrange(0, i);
        let b = t.subrange(0, i + 1);
        assert(b.drop_last() =~= a);
        assert(all_digits(a)) by {
            assert(forall|k: int| 0 <= k < a.len() ==> a[k] == t[k]);
        }
        lemma_digits_val_nonneg(a);
        assert(digits_val(b) == digits_val(a) * 10 + digit_val(t[i]));
        assert(is_digit(t[i]));
        assert(digits_val(a) <= digits_val(b));
        lemma_digits_val_prefix_le(t, i + 1);
    } else {
        assert(t.subrange(0, i) =~= t);
    }
}

/// Scans `s[lo..hi]` as an unsigned digit string, bounded by `MAX_WHOLE`.
fn scan_digits(s: &str, lo: usize, hi: usize) -> (r: Option<u64>)
    requires
        lo <= hi <= s@.len(),
    ensures
        match r {
            Some(v) => all_digits(s@.subrange(lo as int, hi as int)) && v as int == digits_val(
                s@.subrange(lo as int, hi as int),
            ) && v <= MAX_WHOLE,
            None => !(all_digits(s@.subrange(lo as int, hi as int)) && digits_val(
                s@.subrange(lo as int, hi as int),
            ) <= MAX_WHOLE as int),
        },
{
    let ghost t = s@.subrange(lo as int, hi as int);
    let mut i: usize = lo;
    let mut acc: u64 = 0;
    while i < hi
        invariant
            lo <= i <= hi <= s@.len(),
            t == s@.subrange(lo as int, hi as int),
            all_digits(s@.subrange(lo as int, i as int)),
            acc as int == digits_val(s@.subrange(lo as int, i as int)),
            acc <= MAX_WHOLE,
        decreases hi - i,
    {
        let c = s.get_char(i);
        let u = c as u32;
        if u < 48 || u > 57 {
            proof {
                assert(t[i - lo] == s@[i as int]);
                assert(!is_digit(t[i - lo]));
            }
            return None;
        }
        let d = (u - 48) as u64;
        let next = acc * 10 + d;
        proof {
            let prev = s@.subrange(lo as int, i as int);
            let cur = s@.subrange(lo as int, i as int + 1);
            assert(cur.drop_last() =~= prev);
            assert(cur.last() == s@[i as int]);
            assert(digit_val(s@[i as int]) == d as int);
            assert(digits_val(cur) == digits_val(prev) * 10 + d as int);
            assert(all_digits(cur)) by {
                assert(forall|k: int| 0 <= k < cur.len() - 1 ==> cur[k] == prev[k]);
            }
        }
        if next > MAX_WHOLE {
            proof {
                if all_digits(t) {
                    let cur = s@.subrange(lo as int, i as int + 1);
                    assert(cur =~= t.subrange(0, i - lo + 1));
                    lemma_digits_val_prefix_le(t, i - lo + 1);
                }
            }
            return None;
        }
        acc = next;
        i += 1;
    }
    proof {
        assert(s@.subrange(lo as int, i as int) =~= t);
    }
    Some(acc)
}

/// Scans `s[lo..hi]` as the fraction digits of a decimal and yields their
/// millisecond contribution.
fn scan_frac_ms(s: &str, lo: usize, hi: usize) -> (r: Option<u64>)
    requires
        lo <= hi <= s@.len(),
    ensures
        match r {
            Some(v) => all_digits(s@.subrange(lo as int, hi as int)) && v as int == frac_ms(
                s@.subrange(lo as int, hi as int),
            ) && v <= 999,
            None => !all_digits(s@.subrange(lo as int, hi as int)),
        },
{
    let ghost t = s@.subrange(lo as int, hi as int);
    let mut i: usize = lo;
    let mut acc: u64 = 0;
    while i < hi
        invariant
            lo <= i <= hi <= s@.len(),
            t == s@.subrange(lo as int, hi as int),
            all_digits(s@.subrange(lo as int, i as int)),
            i - lo <= 3 ==> acc as int == digits_val(s@.subrange(lo as int, i as int)),
            i - lo >= 3 ==> acc as int == digits_val(s@.subrange(lo as int, lo as int + 3)),
            i - lo == 0 ==> acc == 0,
            i - lo == 1 ==> acc <= 9,
            i - lo == 2 ==> acc <= 99,
            acc <= 999,
        decreases hi - i,
    {
        let c = s.get_char(i);
        let u = c as u32;
        if u < 48 || u > 57 {
            proof {
                assert(t[i - lo] == s@[i as int]);
                assert(!is_digit(t[i - lo]));
            }
            return None;
        }
        let d = (u - 48) as u64;
        proof {
            let prev = s@.subrange(lo as int, i as int);
            let cur = s@.subrange(lo as int, i as int + 1);
            assert(cur.drop_last() =~= prev);
            assert(cur.last() == s@[i as int]);
            assert(digits_val(cur) == digits_val(prev) * 10 + d as int);
            assert(all_digits(cur)) by {
                assert(forall|k: int| 0 <= k < cur.len() - 1 ==> cur[k] == prev[k]);
            }
        }
        if i - lo < 3 {
            acc = acc * 10 + d;
        }
        i += 1;
    }
    let n = hi - lo;
    if n >= 3 {
        proof {
            assert(t.subrange(0, 3) =~= s@.subrange(lo as int, lo as int + 3));
        }
        Some(acc)
    } else if n == 2 {
        proof {
            assert(t =~= s@.subrange(lo as int, i as int));
        }
        Some(acc * 10)
    } else if n == 1 {
        proof {
            assert(t =~= s@.subrange(lo as int, i as int));
        }
        Some(acc * 100)
    } else {
        Some(0)
    }
}

/// Pins `index_of_first` to a found position.
proof fn lemma_index_of_first_is(t: Seq<char>, c: char, j: int)
    requires
        0 <= j < t.len(),
        t[j] == c,
        forall|k: int| 0 <= k < j ==> t[k] != c,
    ensures
        t.index_of_first(c) == Some(j),
{
    t.index_of_first_ensures(c);
    assert(t.contains(c));
    let idx = t.index_of_first(c).unwrap();
    assert(t[idx] == c);
    assert(idx >= j);
    assert(idx <= j);
}

/// Pins `index_of_first` to `None` when the character does not occur.
proof fn lemma_index_of_first_none(t: Seq<char>, c: char)
    requires
        forall|k: int| 0 <= k < t.len() ==> t[k] != c,
    ensures
        t.index_of_first(c) is None,
{
    t.index_of_first_ensures(c);
    if t.index_of_first(c) is Some {
        let idx = t.index_of_first(c).unwrap();
        assert(t[idx] == c);
        assert(false);
    }
}

/// Scans `s[lo..hi]` as a signed decimal seconds string and yields its
/// millisecond count, truncated toward zero.
fn parse_decimal_ms(s: &str, lo: usize, hi: usize) -> (r: Option<i64>)
    requires
        lo <= hi <= s@.len(),
    ensures
        match r {
            Some(v) => decimal_ms(s@.subrange(lo as int, hi as int)) == Some(v as int)
                && -1_000_000_000_000_999 <= v <= 1_000_000_000_000_999,
            None => decimal_ms(s@.subrange(lo as int, hi as int)) is None,
        },
{
    let ghost t = s@.subrange(lo as int, hi as int);
    let mut neg = false;
    let mut b: usize = lo;
    if lo < hi {
        let c0 = s.get_char(lo);
        if c0 == '-' {
            neg = true;
            b = lo + 1;
        } else if c0 == '+' {
            b = lo + 1;
        }
    }
    let ghost body = s@.subrange(b as int, hi as int);
    proof {
        assert(body =~= signed_body(t));
        assert(sign_of(t) == if neg { -1int } else { 1int });
    }
    let mut dot: usize = hi;
    let mut i: usize = b;
    while i < hi
        invariant
            b <= i <= hi <= s@.len(),
            dot <= hi,
            dot == hi ==> forall|k: int| b <= k < i ==> s@[k] != '.',
            dot < hi ==> b <= dot < i && s@[dot as int] == '.' && forall|k: int|
                b <= k < dot ==> s@[k] != '.',
        decreases hi - i,
    {
        if dot == hi {
            if s.get_char(i) == '.' {
                dot = i;
            }
        }
        i += 1;
    }
    proof {
        if dot < hi {
            assert(body[dot - b] == s@[dot as int]);
            assert(forall|k: int| 0 <= k < dot - b ==> body[k] == s@[k + b]);
            lemma_index_of_first_is(body, '.', dot - b);
            assert(int_part(body) =~= s@.subrange(b as int, dot as int));
            assert(frac_part(body) =~= s@.subrange(dot as int + 1, hi as int));
        } else {
            assert(forall|k: int| 0 <= k < body.len() ==> body[k] == s@[k + b]);
            lemma_index_of_first_none(body, '.');
            assert(int_part(body) == body);
            assert(int_part(body) =~= s@.subrange(b as int, dot as int));
            assert(frac_part(body) == Seq::<char>::empty());
        }
    }
    let ip = scan_digits(s, b, dot);
    let fp = if dot < hi {
        scan_frac_ms(s, dot + 1, hi)
    } else {
        proof {
            assert(all_digits(frac_part(body)));
            assert(frac_ms(frac_part(body)) == 0);
        }
        Some(0u64)
    };
    match (ip, fp) {
        (Some(ipv), Some(fpv)) => {
            let ilen = dot - b;
            let flen = if dot < hi {
                hi - dot - 1
            } else {
                0
            };
            if ilen + flen == 0 {
                return None;
            }
            let mag: u64 = ipv * 1000 + fpv;
            if neg {
                Some(-(mag as i64))
            } else {
                Some(mag as i64)
            }
        },
        _ => None,
    }
}

/// Scans `s[lo..hi]` as a signed whole-number string.
fn parse_signed_int(s: &str, lo: usize, hi: usize) -> (r: Option<i64>)
    requires
        lo <= hi <= s@.len(),
    ensures
        match r {
            Some(v) => signed_int_val(s@.subrange(lo as int, hi as int)) == Some(v as int)
                && -1_000_000_000_000 <= v <= 1_000_000_000_000,
            None => signed_int_val(s@.subrange(lo as int, hi as int)) is None,
        },
{
    let ghost t = s@.subrange(lo as int, hi as int);
    let mut neg = false;
    let mut b: usize = lo;
    if lo < hi {
        let c0 = s.get_char(lo);
        if c0 == '-' {
            neg = true;
            b = lo + 1;
        } else if c0 == '+' {
            b = lo + 1;
        }
    }
    let ghost body = s@.subrange(b as int, hi as int);
    proof {
        assert(body =~= signed_body(t));
        assert(sign_of(t) == if neg { -1int } else { 1int });
    }
    if b == hi {
        return None;
    }
    match scan_digits(s, b, hi) {
        Some(dv) => {
            if neg {
                Some(-(dv as i64))
            } else {
                Some(dv as i64)
            }
        },
        None => None,
    }
}

/// Converts an elapsed-gap encoding to milliseconds.
///
/// Empty input and lap-count encodings (any string holding the marker `L`)
/// carry no time gap and yield 0; otherwise a leading `+` is stripped and
/// the rest is read as decimal seconds, with parse failure yielding 0.
pub fn parse_gap(gap: String) -> (r: i64)
    ensures
        r == gap_ms(gap@),
{
    let s: &str = gap.as_str();
    let n = s.unicode_len();
    if n == 0 {
        return 0;
    }
    let mut i: usize = 0;
    while i < n
        invariant
            i <= n,
            n == s@.len(),
            s@ == gap@,
            forall|k: int| 0 <= k < i ==> s@[k] != 'L',
        decreases n - i,
    {
        if s.get_char(i) == 'L' {
            proof {
                assert(gap@[i as int] == 'L');
                assert(gap@.contains('L'));
            }
            return 0;
        }
        i += 1;
    }
    proof {
        assert(!gap@.contains('L'));
    }
    let lo: usize = if s.get_char(0) == '+' {
        1
    } else {
        0
    };
    proof {
        assert(s@.subrange(lo as int, n as int) =~= (if gap@[0] == '+' {
            gap@.subrange(1, gap@.len() as int)
        } else {
            gap@
        }));
    }
    match parse_decimal_ms(s, lo, n) {
        Some(v) => v,
        None => 0,
    }
}

/// Converts a `minutes:seconds.fraction` lap-time encoding to milliseconds.
///
/// The input must split into exactly two colon-separated parts, a whole
/// minute count and a decimal seconds value; empty or malformed input
/// yields 0.
pub fn parse_laptime(lap: String) -> (r: i64)
    ensures
        r == laptime_ms(lap@),
{
    let s: &str = lap.as_str();
    let n = s.unicode_len();
    if n == 0 {
        return 0;
    }
    let mut colon: usize = n;
    let mut i: usize = 0;
    while i < n
        invariant
            i <= n,
            n == s@.len(),
            s@ == lap@,
            colon <= n,
            colon == n ==> forall|k: int| 0 <= k < i ==> s@[k] != ':',
            colon < n ==> colon < i && s@[colon as int] == ':' && forall|k: int|
                0 <= k < colon ==> s@[k] != ':',
        decreases n - i,
    {
        if colon == n {
            if s.get_char(i) == ':' {
                colon = i;
            }
        }
        i += 1;
    }
    if colon == n {
        proof {
            lemma_index_of_first_none(lap@, ':');
        }
        return 0;
    }
    proof {
        lemma_index_of_first_is(lap@, ':', colon as int);
    }
    let ghost secs = lap@.subrange(colon as int + 1, n as int);
    let mut j: usize = colon + 1;
    while j < n
        invariant
            colon + 1 <= j <= n,
            n == s@.len(),
            s@ == lap@,
            colon < n,
            lap@.index_of_first(':') == Some(colon as int),
            secs == lap@.subrange(colon as int + 1, n as int),
            forall|k: int| colon + 1 <= k < j ==> s@[k] != ':',
        decreases n - j,
    {
        if s.get_char(j) == ':' {
            proof {
                assert(secs[j - colon - 1] == s@[j as int]);
                assert(secs.contains(':'));
            }
            return 0;
        }
        j += 1;
    }
    proof {
        assert(forall|k: int| 0 <= k < secs.len() ==> secs[k] == s@[k + colon + 1]);
        assert(!secs.contains(':'));
    }
    let mins = parse_signed_int(s, 0, colon);
    let secs_v = parse_decimal_ms(s, colon + 1, n);
    proof {
        assert(s@.subrange(0, colon as int) =~= lap@.subrange(0, colon as int));
    }
    match (mins, secs_v) {
        (Some(m), Some(sv)) => 60000 * m + sv,
        _ => 0,
    }
}

/// Converts a plain decimal-seconds sector-time encoding to milliseconds;
/// empty or malformed input yields 0.
pub fn parse_sector(sector: String) -> (r: i64)
    ensures
        r == sector_ms(sector@),
{
    let s: &str = sector.as_str();
    let n = s.unicode_len();
    if n == 0 {
        return 0;
    }
    proof {
        assert(s@.subrange(0, n as int) =~= sector@);
    }
    match parse_decimal_ms(s, 0, n) {
        Some(v) => v,
        None => 0,
    }
}

/// Every field parser maps the empty string to the neutral sentinel 0.
pub proof fn lemma_empty_parses_zero(s: Seq<char>)
    requires
        s.len() == 0,
    ensures
        gap_ms(s) == 0,
        laptime_ms(s) == 0,
        sector_ms(s) == 0,
{
}

} // verus!
