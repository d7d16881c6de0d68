//! Byte-level text utilities shared by the request renderer and the
//! response decoder: digit classification, decimal/hexadecimal parsing
//! with the exact acceptance rules of the standard integer parsers,
//! decimal rendering, CRLF splitting and joining, and whitespace
//! trimming over UTF-8 bytes.

use vstd::prelude::*;
use vstd::string::*;

verus! {

/// Decimal digit `0`..`9`.
pub open spec fn is_dec_digit(b: u8) -> bool {
    0x30 <= b <= 0x39
}

/// Hexadecimal digit `0`..`9`, `a`..`f` or `A`..`F`.
pub open spec fn is_hex_digit(b: u8) -> bool {
    is_dec_digit(b) || (0x41 <= b <= 0x46) || (0x61 <= b <= 0x66)
}

/// Numeric value of a hexadecimal digit byte.
pub open spec fn hex_digit_value(b: u8) -> nat {
    if is_dec_digit(b) {
        (b - 0x30) as nat
    } else if 0x41 <= b <= 0x46 {
        (b - 0x41 + 10) as nat
    } else {
        (b - 0x61 + 10) as nat
    }
}

/// Decimal rendering of a natural number, most significant digit first,
/// with no leading zeros (`0` renders as `"0"`).
pub open spec fn dec_bytes(n: nat) -> Seq<u8>
    decreases n,
{
    if n < 10 {
        seq![(0x30 + n) as u8]
    } else {
        dec_bytes(n / 10).push((0x30 + n % 10) as u8)
    }
}

/// Decimal rendering as characters (`dec_bytes` read as ASCII).
pub open spec fn dec_chars(n: nat) -> Seq<char> {
    dec_bytes(n).map_values(|b: u8| b as char)
}

/// Every byte of a decimal rendering is a digit (hence ASCII).
pub proof fn lemma_dec_bytes_digits(n: nat)
    ensures
        dec_bytes(n).len() >= 1,
        forall|i: int| 0 <= i < dec_bytes(n).len() ==> is_dec_digit(#[trigger] dec_bytes(n)[i]),
    decreases n,
{
    if n >= 10 {
        lemma_dec_bytes_digits(n / 10);
    }
}

/// Renders a number in decimal, matching `dec_bytes`.
pub fn render_dec(n: u64) -> (r: Vec<u8>)
    ensures
        r@ == dec_bytes(n as nat),
    decreases n,
{
    if n < 10 {
        let mut v: Vec<u8> = Vec::new();
        v.push(0x30 + (n as u8));
        assert(v@ =~= dec_bytes(n as nat));
        v
    } else {
        let mut v = render_dec(n / 10);
        v.push(0x30 + ((n % 10) as u8));
        v
    }
}

/// A leading `+` sign is stripped, as the standard integer parsers do.
pub open spec fn strip_plus(s: Seq<u8>) -> Seq<u8> {
    if s.len() > 0 && s[0] == 0x2b {
        s.drop_first()
    } else {
        s
    }
}

pub open spec fn all_dec_digits(s: Seq<u8>) -> bool {
    forall|i: int| 0 <= i < s.len() ==> is_dec_digit(#[trigger] s[i])
}

pub open spec fn all_hex_digits(s: Seq<u8>) -> bool {
    forall|i: int| 0 <= i < s.len() ==> is_hex_digit(#[trigger] s[i])
}

/// Value of a digit string read in decimal, most significant digit first.
pub open spec fn dec_value(s: Seq<u8>) -> nat
    decreases s.len(),
{
    if s.len() == 0 {
        0
    } else {
        dec_value(s.drop_last()) * 10 + (if is_dec_digit(s.last()) {
            (s.last() - 0x30) as nat
        } else {
            0
        })
    }
}

/// Value of a digit string read in hexadecimal, most significant digit first.
pub open spec fn hex_value(s: Seq<u8>) -> nat
    decreases s.len(),
{
    if s.len() == 0 {
        0
    } else {
        hex_value(s.drop_last()) * 16 + (if is_hex_digit(s.last()) {
            hex_digit_value(s.last())
        } else {
            0
        })
    }
}

/// What an unsigned decimal parse accepts: an optional `+`, then at least
/// one digit, and a value within `max`.
pub open spec fn spec_parse_dec(s: Seq<u8>, max: nat) -> Option<nat> {
    let d = strip_plus(s);
    if d.len() > 0 && all_dec_digits(d) && dec_value(d) <= max {
        Some(dec_value(d))
    } else {
        None
    }
}

/// What an unsigned hexadecimal parse accepts, in the same shape.
pub open spec fn spec_parse_hex(s: Seq<u8>, max: nat) -> Option<nat> {
    let d = strip_plus(s);
    if d.len() > 0 && all_hex_digits(d) && hex_value(d) <= max {
        Some(hex_value(d))
    } else {
        None
    }
}

proof fn lemma_dec_value_step(s: Seq<u8>, k: int)
    requires
        0 <= k < s.len(),
    ensures
        dec_value(s.take(k + 1)) == dec_value(s.take(k)) * 10 + (if is_dec_digit(s[k]) {
            (s[k] - 0x30) as nat
        } else {
            0
        }),
{
    assert(s.take(k + 1).drop_last() =~= s.take(k));
    assert(s.take(k + 1).last() == s[k]);
}

proof fn lemma_hex_value_step(s: Seq<u8>, k: int)
    requires
        0 <= k < s.len(),
    ensures
        hex_value(s.take(k + 1)) == hex_value(s.take(k)) * 16 + (if is_hex_digit(s[k]) {
            hex_digit_value(s[k])
        } else {
            0
        }),
{
    assert(s.take(k + 1).drop_last() =~= s.take(k));
    assert(s.take(k + 1).last() == s[k]);
}

proof fn lemma_dec_value_prefix_le(s: Seq<u8>, k: int)
    requires
        0 <= k <= s.len(),
    ensures
        dec_value(s.take(k)) <= dec_value(s),
    decreases s.len() - k,
{
    if k < s.len() {
        lemma_dec_value_step(s, k);
        assert(dec_value(s.take(k)) * 10 >= dec_value(s.take(k)) * 1) by (nonlinear_arith);
        lemma_dec_value_prefix_le(s, k + 1);
        assert(s.take(s.len() as int) =~= s);
    } else {
        assert(s.take(k) =~= s);
    }
}

proof fn lemma_hex_value_prefix_le(s: Seq<u8>, k: int)
    requires
        0 <= k <= s.len(),
    ensures
        hex_value(s.take(k)) <= hex_value(s),
    decreases s.len() - k,
{
    if k < s.len() {
        lemma_hex_value_step(s, k);
        assert(hex_value(s.take(k)) * 16 >= hex_value(s.take(k)) * 1) by (nonlinear_arith);
        lemma_hex_value_prefix_le(s, k + 1);
        assert(s.take(s.len() as int) =~= s);
    } else {
        assert(s.take(k) =~= s);
    }
}

/// Parses an unsigned decimal number bounded by `max`, with the acceptance
/// rules of `spec_parse_dec`.
pub fn parse_dec_u64(s: &[u8], max: u64) -> (r: Option<u64>)
    ensures
        match r {
            Some(v) => spec_parse_dec(s@, max as nat) == Some(v as nat),
            None => spec_parse_dec(s@, max as nat) is None,
        },
{
    let ghost d = strip_plus(s@);
    let start: usize = if s.len() > 0 && s[0] == 0x2b {
        1
    } else {
        0
    };
    assert(d =~= s@.skip(start as int));
    if s.len() == start {
        return None;
    }
    let mut acc: u64 = 0;
    let mut i: usize = start;
    while i < s.len()
        invariant
            start <= i <= s@.len(),
            d == strip_plus(s@),
            d =~= s@.skip(start as int),
            acc == dec_value(d.take(i - start)),
            acc <= max,
            forall|j: int| 0 <= j < i - start ==> is_dec_digit(#[trigger] d[j]),
        decreases s@.len() - i,
    {
        let b = s[i];
        if !(0x30 <= b && b <= 0x39) {
            assert(!is_dec_digit(d[i - start]));
            return None;
        }
        let digit = (b - 0x30) as u64;
        proof {
            lemma_dec_value_step(d, i - start);
        }
        if acc > max / 10 || (acc == max / 10 && digit > max % 10) {
            proof {
                assert(acc * 10 + digit > max) by (nonlinear_arith)
                    requires
                        acc > max / 10 || (acc == max / 10 && digit > max % 10),
                        max / 10 * 10 + max % 10 == max,
                        digit < 10,
                ;
                lemma_dec_value_prefix_le(d, i - start + 1);
            }
            return None;
        }
        assert(acc * 10 + digit <= max) by (nonlinear_arith)
            requires
                acc <= max / 10,
                acc == max / 10 ==> digit <= max % 10,
                max / 10 * 10 + max % 10 == max,
                digit < 10,
                max % 10 < 10,
        ;
        acc = acc * 10 + digit;
        i = i + 1;
    }
    assert(d.take(i - start) =~= d);
    Some(acc)
}

/// Parses an unsigned hexadecimal number bounded by `max`, with the
/// acceptance rules of `spec_parse_hex`.
pub fn parse_hex_u64(s: &[u8], max: u64) -> (r: Option<u64>)
    ensures
        match r {
            Some(v) => spec_parse_hex(s@, max as nat) == Some(v as nat),
            None => spec_parse_hex(s@, max as nat) is None,
        },
{
    let ghost d = strip_plus(s@);
    let start: usize = if s.len() > 0 && s[0] == 0x2b {
        1
    } else {
        0
    };
    assert(d =~= s@.skip(start as int));
    if s.len() == start {
        return None;
    }
    let mut acc: u64 = 0;
    let mut i: usize = start;
    while i < s.len()
        invariant
            start <= i <= s@.len(),
            d == strip_plus(s@),
            d =~= s@.skip(start as int),
            acc == hex_value(d.take(i - start)),
            acc <= max,
            forall|j: int| 0 <= j < i - start ==> is_hex_digit(#[trigger] d[j]),
        decreases s@.len() - i,
    {
        let b = s[i];
        let digit: u64 = if 0x30 <= b && b <= 0x39 {
            (b - 0x30) as u64
        } else if 0x41 <= b && b <= 0x46 {
            (b - 0x41 + 10) as u64
        } else if 0x61 <= b && b <= 0x66 {
            (b - 0x61 + 10) as u64
        } else {
            assert(!is_hex_digit(d[i - start]));
            return None;
        };
        assert(is_hex_digit(d[i - start]) && digit == hex_digit_value(d[i - start]));
        proof {
            lemma_hex_value_step(d, i - start);
        }
        if acc > max / 16 || (acc == max / 16 && digit > max % 16) {
            proof {
                assert(acc * 16 + digit > max) by (nonlinear_arith)
                    requires
                        acc > max / 16 || (acc == max / 16 && digit > max % 16),
                        max / 16 * 16 + max % 16 == max,
                        digit < 16,
                ;
                lemma_hex_value_prefix_le(d, i - start + 1);
            }
            return None;
        }
        assert(acc * 16 + digit <= max) by (nonlinear_arith)
            requires
                acc <= max / 16,
                acc == max / 16 ==> digit <= max % 16,
                max / 16 * 16 + max % 16 == max,
                digit < 16,
                max % 16 < 16,
        ;
        acc = acc * 16 + digit;
        i = i + 1;
    }
    assert(d.take(i - start) =~= d);
    Some(acc)
}

/// Index of the first occurrence of `b` in `s` at or after `from`;
/// `s.len()` when there is none.
pub open spec fn find_byte(s: Seq<u8>, b: u8, from: int) -> int
    decreases s.len() - from,
{
    if from < 0 || from >= s.len() {
        s.len() as int
    } else if s[from] == b {
        from
    } else {
        find_byte(s, b, from + 1)
    }
}

pub proof fn lemma_find_byte(s: Seq<u8>, b: u8, from: int)
    requires
        0 <= from <= s.len(),
    ensures
        from <= find_byte(s, b, from) <= s.len(),
        find_byte(s, b, from) < s.len() ==> s[find_byte(s, b, from)] == b,
        forall|j: int| from <= j < find_byte(s, b, from) ==> s[j] != b,
    decreases s.len() - from,
{
    if from < s.len() && s[from] != b {
        lemma_find_byte(s, b, from + 1);
    }
}

/// Finds the first occurrence of `b` at or after `from`, matching
/// `find_byte`.
pub fn find_byte_at(v: &[u8], b: u8, from: usize) -> (r: usize)
    requires
        from <= v@.len(),
    ensures
        r == find_byte(v@, b, from as int),
{
    let mut i: usize = from;
    while i < v.len()
        invariant
            from <= i <= v@.len(),
            find_byte(v@, b, from as int) == find_byte(v@, b, i as int),
        decreases v@.len() - i,
    {
        if v[i] == b {
            return i;
        }
        i = i + 1;
    }
    i
}

/// Index of the first CRLF pair in `s` at or after `from`; `s.len()`
/// when there is none.
pub open spec fn find_crlf(s: Seq<u8>, from: int) -> int
    decreases s.len() - from,
{
    if from < 0 || from + 2 > s.len() {
        s.len() as int
    } else if s[from] == 13 && s[from + 1] == 10 {
        from
    } else {
        find_crlf(s, from + 1)
    }
}

pub proof fn lemma_find_crlf(s: Seq<u8>, from: int)
    requires
        0 <= from <= s.len(),
    ensures
        from <= find_crlf(s, from) <= s.len(),
        find_crlf(s, from) < s.len() ==> find_crlf(s, from) + 2 <= s.len()
            && s[find_crlf(s, from)] == 13 && s[find_crlf(s, from) + 1] == 10,
    decreases s.len() - from,
{
    if from + 2 <= s.len() && !(s[from] == 13 && s[from + 1] == 10) {
        lemma_find_crlf(s, from + 1);
    }
}

/// Finds the first CRLF pair at or after `from`, matching `find_crlf`.
pub fn find_crlf_at(v: &[u8], from: usize) -> (r: usize)
    requires
        from <= v@.len(),
    ensures
        r == find_crlf(v@, from as int),
{
    let mut i: usize = from;
    while i < v.len()
        invariant
            from <= i <= v@.len(),
            find_crlf(v@, from as int) == find_crlf(v@, i as int),
        decreases v@.len() - i,
    {
        if i + 1 >= v.len() {
            return v.len();
        }
        if v[i] == 13 && v[i + 1] == 10 {
            return i;
        }
        i = i + 1;
    }
    v.len()
}

/// The lines of `s` from `from` on, split on CRLF. Splitting never yields
/// an empty sequence: with no separator left, the rest is the one line.
pub open spec fn split_crlf_from(s: Seq<u8>, from: int) -> Seq<Seq<u8>>
    decreases s.len() - from,
{
    let i = find_crlf(s, from);
    if from <= i && i + 2 <= s.len() {
        seq![s.subrange(from, i)] + split_crlf_from(s, i + 2)
    } else {
        seq![s.subrange(from, s.len() as int)]
    }
}

/// The lines of `s`, split on CRLF.
pub open spec fn spec_split_crlf(s: Seq<u8>) -> Seq<Seq<u8>> {
    split_crlf_from(s, 0)
}

/// Splits on CRLF, matching `spec_split_crlf`.
pub fn split_crlf(v: &[u8]) -> (r: Vec<Vec<u8>>)
    ensures
        r@.map_values(|x: Vec<u8>| x@) == spec_split_crlf(v@),
        r@.len() >= 1,
{
    let mut res: Vec<Vec<u8>> = Vec::new();
    let mut pos: usize = 0;
    let mut done: bool = false;
    while !done
        invariant
            pos <= v@.len(),
            !done ==> spec_split_crlf(v@) == res@.map_values(|x: Vec<u8>| x@) + split_crlf_from(
                v@,
                pos as int,
            ),
            done ==> spec_split_crlf(v@) == res@.map_values(|x: Vec<u8>| x@),
            done ==> res@.len() >= 1,
        decreases v@.len() - pos + (if done {
            0int
        } else {
            1int
        }),
    {
        let i = find_crlf_at(v, pos);
        proof {
            lemma_find_crlf(v@, pos as int);
        }
        if i < v.len() {
            let ghost prev = res@.map_values(|x: Vec<u8>| x@);
            let line = vstd::slice::slice_to_vec(vstd::slice::slice_subrange(v, pos, i));
            res.push(line);
            proof {
                assert(res@.map_values(|x: Vec<u8>| x@) =~= prev.push(
                    v@.subrange(pos as int, i as int),
                ));
                assert(prev + (seq![v@.subrange(pos as int, i as int)] + split_crlf_from(
                    v@,
                    i + 2,
                )) =~= prev.push(v@.subrange(pos as int, i as int)) + split_crlf_from(v@, i + 2));
            }
            pos = i + 2;
        } else {
            let ghost prev = res@.map_values(|x: Vec<u8>| x@);
            let line = vstd::slice::slice_to_vec(vstd::slice::slice_subrange(v, pos, v.len()));
            res.push(line);
            proof {
                assert(res@.map_values(|x: Vec<u8>| x@) =~= prev.push(
                    v@.subrange(pos as int, v@.len() as int),
                ));
                assert(prev + seq![v@.subrange(pos as int, v@.len() as int)] =~= prev.push(
                    v@.subrange(pos as int, v@.len() as int),
                ));
            }
            done = true;
        }
    }
    res
}

/// The lines from `from` on, rejoined with CRLF between them.
pub open spec fn spec_join_crlf(ls: Seq<Seq<u8>>) -> Seq<u8>
    decreases ls.len(),
{
    if ls.len() == 0 {
        Seq::empty()
    } else if ls.len() == 1 {
        ls[0]
    } else {
        spec_join_crlf(ls.drop_last()) + seq![13u8, 10u8] + ls.last()
    }
}

/// Joins `lines[from..]` with CRLF, matching `spec_join_crlf`.
pub fn join_crlf(lines: &Vec<Vec<u8>>, from: usize) -> (r: Vec<u8>)
    requires
        from <= lines@.len(),
    ensures
        r@ == spec_join_crlf(lines@.map_values(|x: Vec<u8>| x@).skip(from as int)),
{
    let ghost view = lines@.map_values(|x: Vec<u8>| x@);
    let mut acc: Vec<u8> = Vec::new();
    let mut i: usize = from;
    while i < lines.len()
        invariant
            from <= i <= lines@.len(),
            view == lines@.map_values(|x: Vec<u8>| x@),
            acc@ == spec_join_crlf(view.subrange(from as int, i as int)),
        decreases lines@.len() - i,
    {
        if i > from {
            acc.push(13);
            acc.push(10);
        }
        let line = &lines[i];
        let mut j: usize = 0;
        while j < line.len()
            invariant
                j <= line@.len(),
                line@ == view[i as int],
                i < view.len(),
                from <= i,
                view == lines@.map_values(|x: Vec<u8>| x@),
                acc@ == spec_join_crlf(view.subrange(from as int, i as int)) + (if i > from {
                    seq![13u8, 10u8]
                } else {
                    Seq::<u8>::empty()
                }) + line@.take(j as int),
            decreases line@.len() - j,
        {
            acc.push(line[j]);
            assert(line@.take(j + 1) =~= line@.take(j as int).push(line@[j as int]));
            j = j + 1;
        }
        proof {
            assert(line@.take(line@.len() as int) =~= line@);
            let sub = view.subrange(from as int, i + 1);
            assert(sub.drop_last() =~= view.subrange(from as int, i as int));
            assert(sub.last() == view[i as int]);
            if i > from {
                assert(acc@ == spec_join_crlf(sub.drop_last()) + seq![13u8, 10u8] + sub.last());
                assert(sub.len() >= 2);
                assert(spec_join_crlf(sub) == spec_join_crlf(sub.drop_last()) + seq![13u8, 10u8]
                    + sub.last());
            } else {
                assert(sub.len() == 1);
                assert(spec_join_crlf(sub) == sub[0]);
                assert(acc@ =~= spec_join_crlf(sub));
            }
        }
        i = i + 1;
    }
    proof {
        assert(view.subrange(from as int, i as int) =~= view.skip(from as int));
    }
    acc
}

/// A one-byte whitespace character: the six ASCII ones that
/// `char::is_whitespace` accepts.
pub open spec fn is_ws1(a: u8) -> bool {
    a == 0x20 || (0x09 <= a <= 0x0d)
}

/// A two-byte UTF-8 whitespace character: U+0085 (next line) or U+00A0
/// (no-break space).
pub open spec fn is_ws2(a: u8, b: u8) -> bool {
    a == 0xc2 && (b == 0x85 || b == 0xa0)
}

/// A three-byte UTF-8 whitespace character: U+1680, U+2000..U+200A,
/// U+2028, U+2029, U+202F, U+205F or U+3000 — with the two shorter runs,
/// exactly the set `char::is_whitespace` accepts.
pub open spec fn is_ws3(a: u8, b: u8, c: u8) -> bool {
    (a == 0xe1 && b == 0x9a && c == 0x80) || (a == 0xe2 && b == 0x80 && (0x80 <= c <= 0x8a || c
        == 0xa8 || c == 0xa9 || c == 0xaf)) || (a == 0xe2 && b == 0x81 && c == 0x9f) || (a == 0xe3
        && b == 0x80 && c == 0x80)
}

/// Length of the whitespace character whose encoding starts at `i`;
/// zero when none starts there.
pub open spec fn ws_len_at(s: Seq<u8>, i: int) -> int {
    if 0 <= i < s.len() && is_ws1(s[i]) {
        1
    } else if 0 <= i && i + 2 <= s.len() && is_ws2(s[i], s[i + 1]) {
        2
    } else if 0 <= i && i + 3 <= s.len() && is_ws3(s[i], s[i + 1], s[i + 2]) {
        3
    } else {
        0
    }
}

/// Length of the whitespace character whose encoding ends at `j`;
/// zero when none ends there.
pub open spec fn ws_len_before(s: Seq<u8>, j: int) -> int {
    if 1 <= j <= s.len() && is_ws1(s[j - 1]) {
        1
    } else if 2 <= j <= s.len() && is_ws2(s[j - 2], s[j - 1]) {
        2
    } else if 3 <= j <= s.len() && is_ws3(s[j - 3], s[j - 2], s[j - 1]) {
        3
    } else {
        0
    }
}

/// First index at or after `i` where no whitespace character starts.
pub open spec fn trim_front_idx(s: Seq<u8>, i: int) -> int
    decreases s.len() - i,
{
    let w = ws_len_at(s, i);
    if w > 0 {
        trim_front_idx(s, i + w)
    } else {
        i
    }
}

/// Last index at or before `j` where no whitespace character ends.
pub open spec fn trim_back_idx(s: Seq<u8>, j: int) -> int
    decreases j,
{
    let w = ws_len_before(s, j);
    if w > 0 {
        trim_back_idx(s, j - w)
    } else {
        j
    }
}

/// `s` with whitespace characters removed from both ends: on text this
/// is the standard trim, over the bytes of its UTF-8 encoding.
pub open spec fn spec_trim(s: Seq<u8>) -> Seq<u8> {
    let a = trim_front_idx(s, 0);
    let b = trim_back_idx(s, s.len() as int);
    if a < b {
        s.subrange(a, b)
    } else {
        Seq::empty()
    }
}

fn ws3_bytes(a: u8, b: u8, c: u8) -> (r: bool)
    ensures
        r == is_ws3(a, b, c),
{
    (a == 0xe1 && b == 0x9a && c == 0x80) || (a == 0xe2 && b == 0x80 && ((0x80 <= c && c <= 0x8a)
        || c == 0xa8 || c == 0xa9 || c == 0xaf)) || (a == 0xe2 && b == 0x81 && c == 0x9f) || (a
        == 0xe3 && b == 0x80 && c == 0x80)
}

fn ws_at(v: &[u8], i: usize) -> (w: usize)
    requires
        i <= v@.len(),
    ensures
        w == ws_len_at(v@, i as int),
{
    if i < v.len() && (v[i] == 0x20 || (0x09 <= v[i] && v[i] <= 0x0d)) {
        1
    } else if v.len() - i >= 2 && v[i] == 0xc2 && (v[i + 1] == 0x85 || v[i + 1] == 0xa0) {
        2
    } else if v.len() - i >= 3 && ws3_bytes(v[i], v[i + 1], v[i + 2]) {
        3
    } else {
        0
    }
}

fn ws_before(v: &[u8], j: usize) -> (w: usize)
    requires
        j <= v@.len(),
    ensures
        w == ws_len_before(v@, j as int),
{
    if j >= 1 && (v[j - 1] == 0x20 || (0x09 <= v[j - 1] && v[j - 1] <= 0x0d)) {
        1
    } else if j >= 2 && v[j - 2] == 0xc2 && (v[j - 1] == 0x85 || v[j - 1] == 0xa0) {
        2
    } else if j >= 3 && ws3_bytes(v[j - 3], v[j - 2], v[j - 1]) {
        3
    } else {
        0
    }
}

/// Trims whitespace characters from both ends, matching `spec_trim`.
pub fn trim_bytes(v: &[u8]) -> (r: Vec<u8>)
    ensures
        r@ == spec_trim(v@),
{
    let vlen = v.len();
    let mut a: usize = 0;
    while ws_at(v, a) > 0
        invariant
            a <= v@.len(),
            v@.len() == vlen,
            trim_front_idx(v@, 0) == trim_front_idx(v@, a as int),
        decreases v@.len() - a,
    {
        let w = ws_at(v, a);
        a = a + w;
    }
    assert(a == trim_front_idx(v@, 0));
    let mut b: usize = v.len();
    while ws_before(v, b) > 0
        invariant
            b <= v@.len(),
            trim_back_idx(v@, v@.len() as int) == trim_back_idx(v@, b as int),
        decreases b,
    {
        let w = ws_before(v, b);
        b = b - w;
    }
    assert(b == trim_back_idx(v@, v@.len() as int));
    if a < b {
        let r = vstd::slice::slice_to_vec(vstd::slice::slice_subrange(v, a, b));
        assert(r@ == spec_trim(v@));
        r
    } else {
        let r: Vec<u8> = Vec::new();
        assert(r@ =~= spec_trim(v@));
        r
    }
}

/// Byte-wise equality of two slices.
pub fn bytes_eq(a: &[u8], b: &[u8]) -> (r: bool)
    ensures
        r == (a@ == b@),
{
    if a.len() != b.len() {
        assert(a@ != b@) by {
            if a@ == b@ {
                assert(a@.len() == b@.len());
            }
        }
        return false;
    }
    let mut i: usize = 0;
    while i < a.len()
        invariant
            i <= a@.len(),
            a@.len() == b@.len(),
            forall|j: int| 0 <= j < i ==> a@[j] == b@[j],
        decreases a@.len() - i,
    {
        if a[i] != b[i] {
            return false;
        }
        i = i + 1;
    }
    assert(a@ =~= b@);
    true
}

/// Whether `n` occurs as a contiguous run inside `h`.
pub open spec fn contains_bytes(h: Seq<u8>, n: Seq<u8>) -> bool {
    exists|i: int| 0 <= i <= h.len() - n.len() && #[trigger] h.subrange(i, i + n.len()) == n
}

/// Decimal rendering of a number as a string.
pub fn dec_string(n: u64) -> (r: String)
    ensures
        r@ == dec_chars(n as nat),
{
    let bytes = render_dec(n);
    proof {
        lemma_dec_bytes_digits(n as nat);
    }
    let s = ascii_to_string(&bytes);
    assert(s@ =~= dec_chars(n as nat));
    s
}

/// Relies on `str::from_utf8`, which succeeds exactly on input that is
/// valid UTF-8 in the sense of `vstd::utf8::valid_utf8`, and returns a
/// view of the same bytes.
#[verifier::external_body]
pub fn utf8_to_str(v: &[u8]) -> (r: Option<&str>)
    ensures
        match r {
            Some(s) => vstd::utf8::valid_utf8(v@) && s.spec_bytes() == v@,
            None => !vstd::utf8::valid_utf8(v@),
        },
{
    core::str::from_utf8(v).ok()
}

/// What `str::to_lowercase` returns for a given character sequence.
pub uninterp spec fn lower_of(s: Seq<char>) -> Seq<char>;

/// Relies on `str::to_lowercase`: the result is Unicode's lowercase
/// mapping of the input, a function of the characters alone.
#[verifier::external_body]
pub fn lowercase_str(s: &str) -> (r: String)
    ensures
        r@ == lower_of(s@),
{
    s.to_lowercase()
}

/// Relies on `str::contains` with a string pattern: true exactly when
/// the pattern's bytes occur as a contiguous run of the subject's bytes
/// (UTF-8 is self-synchronizing, so byte and character containment
/// agree).
#[verifier::external_body]
pub fn str_contains(s: &str, pat: &str) -> (r: bool)
    ensures
        r == contains_bytes(s.spec_bytes(), pat.spec_bytes()),
{
    s.contains(pat)
}

/// Relies on `String::from_utf8`: an all-ASCII byte vector is valid UTF-8
/// and decodes to the string holding exactly those bytes, each byte being
/// one character of the same value.
#[verifier::external_body]
pub fn ascii_to_string(v: &Vec<u8>) -> (r: String)
    requires
        forall|i: int| 0 <= i < v@.len() ==> v@[i] < 0x80,
    ensures
        r@ == v@.map_values(|b: u8| b as char),
{
    String::from_utf8(v.clone()).unwrap()
}

} // verus!
