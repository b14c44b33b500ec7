//! The textual protocol of the brightness resource.
//!
//! The resource exposes one integer as whitespace-padded decimal text.
//! Reading means: take all the bytes, trim surrounding whitespace, and
//! parse a signed base-10 integer; any failure — empty content, a stray
//! byte, a value outside `i32` — yields "no value", never an error.
//! Writing means: the plain decimal form of the value, sign included,
//! no padding.

use vstd::prelude::*;

use vstd::arithmetic::div_mod::{lemma_div_is_strictly_smaller, lemma_fundamental_div_mod};

verus! {

/// ASCII whitespace: space, horizontal tab, line feed, vertical tab,
/// form feed, carriage return.
pub open spec fn is_ascii_ws(b: u8) -> bool {
    b == 32 || (9 <= b && b <= 13)
}

/// The two-byte UTF-8 encodings of whitespace: next line (U+0085) and
/// no-break space (U+00A0).
pub open spec fn is_two_byte_ws(a: u8, b: u8) -> bool {
    a == 0xC2 && (b == 0x85 || b == 0xA0)
}

/// The three-byte UTF-8 encodings of whitespace: ogham space mark
/// (U+1680), the typographic spaces U+2000 through U+200A, line and
/// paragraph separator (U+2028, U+2029), narrow no-break space
/// (U+202F), medium mathematical space (U+205F) and ideographic space
/// (U+3000). Together with the one- and two-byte forms these are all
/// the characters with the Unicode `White_Space` property, which is
/// what trimming the content as text removes.
pub open spec fn is_three_byte_ws(a: u8, b: u8, c: u8) -> bool {
    (a == 0xE1 && b == 0x9A && c == 0x80) || (a == 0xE2 && b == 0x80 && (0x80 <= c && c <= 0x8A))
        || (a == 0xE2 && b == 0x80 && (c == 0xA8 || c == 0xA9 || c == 0xAF)) || (a == 0xE2 && b
        == 0x81 && c == 0x9F) || (a == 0xE3 && b == 0x80 && c == 0x80)
}

/// How many bytes of a complete whitespace encoding stand at the front
/// of `s`: zero when none does. Continuation bytes of a longer
/// character never collide with a shorter match: ASCII whitespace is
/// below 0x80, and no whitespace encoding starts at a continuation
/// byte, so an incomplete encoding is simply not whitespace.
pub open spec fn ws_len_at_front(s: Seq<u8>) -> int {
    if s.len() >= 1 && is_ascii_ws(s[0]) {
        1
    } else if s.len() >= 2 && is_two_byte_ws(s[0], s[1]) {
        2
    } else if s.len() >= 3 && is_three_byte_ws(s[0], s[1], s[2]) {
        3
    } else {
        0
    }
}

/// How many bytes of a complete whitespace encoding end at the back of
/// `s`: zero when none does. The match is unambiguous on meaningful
/// content: the last byte of a multi-byte encoding is at least 0x80,
/// never ASCII whitespace, and the two-byte encodings start with 0xC2,
/// never a continuation byte of a three-byte one.
pub open spec fn ws_len_at_back(s: Seq<u8>) -> int {
    let n = s.len() as int;
    if s.len() >= 1 && is_ascii_ws(s[n - 1]) {
        1
    } else if s.len() >= 2 && is_two_byte_ws(s[n - 2], s[n - 1]) {
        2
    } else if s.len() >= 3 && is_three_byte_ws(s[n - 3], s[n - 2], s[n - 1]) {
        3
    } else {
        0
    }
}

/// An ASCII decimal digit.
pub open spec fn is_digit(b: u8) -> bool {
    48 <= b && b <= 57
}

/// The numeric value of a digit byte.
pub open spec fn digit_val(b: u8) -> int {
    b - 48
}

/// The bytes left after the leading whitespace.
pub open spec fn trim_front(s: Seq<u8>) -> Seq<u8>
    decreases s.len(),
{
    let k = ws_len_at_front(s);
    if k > 0 {
        trim_front(s.skip(k))
    } else {
        s
    }
}

/// The bytes left after the trailing whitespace.
pub open spec fn trim_back(s: Seq<u8>) -> Seq<u8>
    decreases s.len(),
{
    let k = ws_len_at_back(s);
    if k > 0 {
        trim_back(s.take(s.len() - k))
    } else {
        s
    }
}

/// The bytes left after whitespace on both sides.
pub open spec fn trimmed(s: Seq<u8>) -> Seq<u8> {
    trim_back(trim_front(s))
}

/// Every byte is a digit.
pub open spec fn all_digits(s: Seq<u8>) -> bool {
    forall|i: int| 0 <= i < s.len() ==> is_digit(s[i])
}

/// The number the digit bytes spell, most significant first.
pub open spec fn digits_value(s: Seq<u8>) -> int
    decreases s.len(),
{
    if s.len() == 0 {
        0
    } else {
        digits_value(s.drop_last()) * 10 + digit_val(s.last())
    }
}

/// The digit bytes of `s`, once a single leading sign is set aside.
pub open spec fn decimal_body(s: Seq<u8>) -> Seq<u8> {
    if s.len() > 0 && (s[0] == 43 || s[0] == 45) {
        s.drop_first()
    } else {
        s
    }
}

/// A well-formed signed decimal: an optional `+` or `-`, then at least
/// one digit, and nothing else.
pub open spec fn valid_decimal(s: Seq<u8>) -> bool {
    decimal_body(s).len() > 0 && all_digits(decimal_body(s))
}

/// The integer a well-formed signed decimal spells.
pub open spec fn decimal_value(s: Seq<u8>) -> int
    recommends
        valid_decimal(s),
{
    if s.len() > 0 && s[0] == 45 {
        -digits_value(decimal_body(s))
    } else {
        digits_value(decimal_body(s))
    }
}

/// What reading the resource yields for given raw content: the value of
/// the trimmed text where that is a well-formed decimal that fits in
/// `i32`, and nothing otherwise.
pub open spec fn parse_spec(s: Seq<u8>) -> Option<i32> {
    if valid_decimal(trimmed(s)) && i32::MIN <= decimal_value(trimmed(s)) <= i32::MAX {
        Some(decimal_value(trimmed(s)) as i32)
    } else {
        None
    }
}

/// How many bytes of a complete whitespace encoding stand at `pos` in
/// `buf[pos..end]`.
fn ws_front_len(buf: &Vec<u8>, pos: usize, end: usize) -> (k: usize)
    requires
        pos <= end <= buf@.len(),
    ensures
        k == ws_len_at_front(buf@.subrange(pos as int, end as int)),
        k <= end - pos,
{
    let avail = end - pos;
    if avail >= 1 {
        let a = buf[pos];
        if a == 32 || (9 <= a && a <= 13) {
            return 1;
        }
        if avail >= 2 {
            let b = buf[pos + 1];
            if a == 0xC2 && (b == 0x85 || b == 0xA0) {
                return 2;
            }
            if avail >= 3 {
                let c = buf[pos + 2];
                if (a == 0xE1 && b == 0x9A && c == 0x80) || (a == 0xE2 && b == 0x80 && (0x80 <= c
                    && c <= 0x8A)) || (a == 0xE2 && b == 0x80 && (c == 0xA8 || c == 0xA9 || c
                    == 0xAF)) || (a == 0xE2 && b == 0x81 && c == 0x9F) || (a == 0xE3 && b == 0x80
                    && c == 0x80) {
                    return 3;
                }
            }
        }
    }
    0
}

/// How many bytes of a complete whitespace encoding end at `hi` in
/// `buf[lo..hi]`.
fn ws_back_len(buf: &Vec<u8>, lo: usize, hi: usize) -> (k: usize)
    requires
        lo <= hi <= buf@.len(),
    ensures
        k == ws_len_at_back(buf@.subrange(lo as int, hi as int)),
        k <= hi - lo,
{
    let avail = hi - lo;
    if avail >= 1 {
        let z = buf[hi - 1];
        if z == 32 || (9 <= z && z <= 13) {
            return 1;
        }
        if avail >= 2 {
            let y = buf[hi - 2];
            if y == 0xC2 && (z == 0x85 || z == 0xA0) {
                return 2;
            }
            if avail >= 3 {
                let x = buf[hi - 3];
                if (x == 0xE1 && y == 0x9A && z == 0x80) || (x == 0xE2 && y == 0x80 && (0x80 <= z
                    && z <= 0x8A)) || (x == 0xE2 && y == 0x80 && (z == 0xA8 || z == 0xA9 || z
                    == 0xAF)) || (x == 0xE2 && y == 0x81 && z == 0x9F) || (x == 0xE3 && y == 0x80
                    && z == 0x80) {
                    return 3;
                }
            }
        }
    }
    0
}

/// A sequence of digits spells a non-negative number.
proof fn lemma_digits_value_nonneg(s: Seq<u8>)
    requires
        all_digits(s),
    ensures
        digits_value(s) >= 0,
    decreases s.len(),
{
    if s.len() > 0 {
        lemma_digits_value_nonneg(s.drop_last());
    }
}

/// Extending a digit sequence on the right never lowers its value.
proof fn lemma_digits_prefix_le(s: Seq<u8>, k: int)
    requires
        all_digits(s),
        0 <= k <= s.len(),
    ensures
        digits_value(s.take(k)) <= digits_value(s),
    decreases s.len(),
{
    if k == s.len() {
        assert(s.take(k) =~= s);
    } else {
        let rest = s.drop_last();
        lemma_digits_prefix_le(rest, k);
        assert(rest.take(k) =~= s.take(k));
        lemma_digits_value_nonneg(rest);
    }
}

/// Read the resource content: trim surrounding whitespace — any Unicode
/// white-space character, by its UTF-8 encoding — and parse what is
/// left as a signed base-10 integer. Anything else — nothing but
/// whitespace, a stray byte, a sign alone, a value outside `i32` —
/// yields `None`.
pub fn parse_reading(buf: &Vec<u8>) -> (r: Option<i32>)
    ensures
        r == parse_spec(buf@),
{
    let n = buf.len();
    let mut lo: usize = 0;
    proof {
        assert(buf@.subrange(0, n as int) =~= buf@);
    }
    let mut wf = ws_front_len(buf, lo, n);
    while wf > 0
        invariant
            lo <= n,
            n == buf@.len(),
            wf == ws_len_at_front(buf@.subrange(lo as int, n as int)),
            wf <= n - lo,
            trim_front(buf@) == trim_front(buf@.subrange(lo as int, n as int)),
        decreases n - lo,
    {
        proof {
            assert(buf@.subrange(lo as int, n as int).skip(wf as int) =~= buf@.subrange(
                lo + wf,
                n as int,
            ));
        }
        lo += wf;
        wf = ws_front_len(buf, lo, n);
    }
    let mut hi: usize = n;
    let mut wb = ws_back_len(buf, lo, hi);
    while wb > 0
        invariant
            lo <= hi <= n,
            n == buf@.len(),
            wb == ws_len_at_back(buf@.subrange(lo as int, hi as int)),
            wb <= hi - lo,
            trim_back(buf@.subrange(lo as int, n as int)) == trim_back(
                buf@.subrange(lo as int, hi as int),
            ),
        decreases hi,
    {
        proof {
            let s = buf@.subrange(lo as int, hi as int);
            assert(s.take(s.len() - wb) =~= buf@.subrange(lo as int, hi - wb));
        }
        hi -= wb;
        wb = ws_back_len(buf, lo, hi);
    }
    proof {
        assert(trimmed(buf@) == buf@.subrange(lo as int, hi as int));
    }
    if lo == hi {
        proof {
            assert(decimal_body(trimmed(buf@)).len() == 0);
        }
        return None;
    }
    let mut i = lo;
    let mut neg = false;
    let b0 = buf[lo];
    if b0 == 43 || b0 == 45 {
        neg = b0 == 45;
        i = lo + 1;
    }
    proof {
        assert(decimal_body(buf@.subrange(lo as int, hi as int)) =~= buf@.subrange(
            i as int,
            hi as int,
        ));
    }
    if i == hi {
        return None;
    }
    let mut acc: u64 = 0;
    let mut j = i;
    while j < hi
        invariant
            lo <= i <= j <= hi <= n,
            n == buf@.len(),
            i < hi,
            trimmed(buf@) == buf@.subrange(lo as int, hi as int),
            decimal_body(buf@.subrange(lo as int, hi as int)) == buf@.subrange(
                i as int,
                hi as int,
            ),
            i == lo || i == lo + 1,
            neg <==> (i == lo + 1 && buf@[lo as int] == 45),
            i == lo ==> buf@[lo as int] != 43 && buf@[lo as int] != 45,
            acc == digits_value(buf@.subrange(i as int, j as int)),
            all_digits(buf@.subrange(i as int, j as int)),
            acc <= 0x8000_0000u64,
        decreases hi - j,
    {
        let b = buf[j];
        if b < 48 || b > 57 {
            proof {
                let body = buf@.subrange(i as int, hi as int);
                assert(!is_digit(body[j - i]));
            }
            return None;
        }
        proof {
            let pre = buf@.subrange(i as int, j as int);
            let ext = buf@.subrange(i as int, j + 1);
            assert(ext.drop_last() =~= pre);
            assert(ext.last() == buf@[j as int]);
        }
        acc = acc * 10 + ((b - 48) as u64);
        j += 1;
        if acc > 0x8000_0000 {
            proof {
                let body = buf@.subrange(i as int, hi as int);
                if all_digits(body) {
                    assert(buf@.subrange(i as int, j as int) =~= body.take(j - i));
                    lemma_digits_prefix_le(body, j - i);
                }
            }
            return None;
        }
    }
    proof {
        let t = buf@.subrange(lo as int, hi as int);
        let body = buf@.subrange(i as int, hi as int);
        assert(body =~= buf@.subrange(i as int, j as int));
        assert(valid_decimal(t));
        if neg {
            assert(t[0] == 45);
            assert(decimal_value(t) == -(acc as int));
        } else {
            assert(t[0] != 45);
            assert(decimal_value(t) == acc as int);
        }
    }
    if neg {
        let v = -(acc as i64);
        Some(v as i32)
    } else {
        if acc > 0x7fff_ffff {
            return None;
        }
        Some(acc as i32)
    }
}

/// The daemon later re-reads what it wrote. Unpadded well-formed
/// decimal text whose value fits in `i32` — such as the text
/// [`render_value`] produces — reads back as exactly that value: there
/// is no whitespace to trim, so parsing sees the text as it stands.
pub proof fn lemma_decimal_text_reads_back(s: Seq<u8>)
    requires
        valid_decimal(s),
        i32::MIN <= decimal_value(s) <= i32::MAX,
    ensures
        parse_spec(s) == Some(decimal_value(s) as i32),
{
    let body = decimal_body(s);
    assert(is_digit(body[0]));
    assert(is_digit(body.last()));
    assert(body.last() == s.last());
    // The first byte is a sign or a digit and the last is a digit:
    // no whitespace encoding starts or ends there.
    assert(s[0] == 43 || s[0] == 45 || is_digit(s[0]));
    assert(ws_len_at_front(s) == 0);
    assert(ws_len_at_back(s) == 0);
    assert(trim_front(s) == s);
    assert(trim_back(s) == s);
}

/// Powers of ten.
pub open spec fn pow10(k: nat) -> int
    decreases k,
{
    if k == 0 {
        1
    } else {
        10 * pow10((k - 1) as nat)
    }
}

/// The canonical decimal spelling: a `-` only where one is needed, no
/// `+`, and no leading zero except for the single digit of zero itself.
pub open spec fn canonical_decimal(s: Seq<u8>) -> bool {
    valid_decimal(s) && s[0] != 43 && (decimal_body(s)[0] == 48 ==> decimal_body(s).len() == 1)
}

/// Putting a digit in front multiplies its weight by ten for every digit
/// already there.
proof fn lemma_digits_value_prepend(d: u8, s: Seq<u8>)
    ensures
        digits_value(seq![d] + s) == digit_val(d) * pow10(s.len()) + digits_value(s),
    decreases s.len(),
{
    let u = seq![d] + s;
    if s.len() == 0 {
        assert(u =~= seq![d]);
        assert(u.drop_last() =~= Seq::<u8>::empty());
        assert(u.last() == d);
        assert(digits_value(Seq::<u8>::empty()) == 0);
        assert(digits_value(u) == digits_value(u.drop_last()) * 10 + digit_val(u.last()));
        assert(pow10(0) == 1);
    } else {
        let s1 = s.drop_last();
        assert(u.drop_last() =~= seq![d] + s1);
        assert(u.last() == s.last());
        lemma_digits_value_prepend(d, s1);
        assert(digits_value(u) == digits_value(seq![d] + s1) * 10 + digit_val(s.last()));
        assert(pow10(s.len()) == 10 * pow10(s1.len()));
        assert((digit_val(d) * pow10(s1.len()) + digits_value(s1)) * 10 == digit_val(d) * (10
            * pow10(s1.len())) + digits_value(s1) * 10) by (nonlinear_arith);
        assert(digits_value(s) == digits_value(s1) * 10 + digit_val(s.last()));
    }
}

/// Write the resource content: the decimal form of `v`, sign included,
/// with no padding, no plus sign and no leading zeros — exactly the text
/// that parses back to `v`.
pub fn render_value(v: i32) -> (out: Vec<u8>)
    ensures
        canonical_decimal(out@),
        decimal_value(out@) == v as int,
        out@[0] == 45 <==> v < 0,
{
    let mut out: Vec<u8> = Vec::new();
    if v == 0 {
        out.push(48);
        proof {
            assert(out@ =~= seq![48u8]);
            assert(decimal_body(out@) =~= out@);
            assert(out@.drop_last() =~= Seq::<u8>::empty());
            assert(out@.last() == 48u8);
            assert(digits_value(Seq::<u8>::empty()) == 0);
            assert(digits_value(out@) == digits_value(out@.drop_last()) * 10 + digit_val(
                out@.last(),
            ));
        }
        return out;
    }
    let neg = v < 0;
    let m_start: u64 = if neg {
        (-(v as i64)) as u64
    } else {
        v as u64
    };
    let ghost m0 = m_start as int;
    let mut m = m_start;
    let mut tmp: Vec<u8> = Vec::new();
    while m > 0
        invariant
            1 <= m0 <= 0x8000_0000,
            m0 == m * pow10(tmp@.len()) + digits_value(tmp@.reverse()),
            all_digits(tmp@),
            m == 0 ==> tmp@.len() > 0 && digit_val(tmp@.last()) >= 1,
        decreases m,
    {
        let ghost m_old = m as int;
        let ghost t_old = tmp@;
        let ghost k = tmp@.len();
        let d = (m % 10) as u8 + 48;
        tmp.push(d);
        m = m / 10;
        proof {
            lemma_fundamental_div_mod(m_old, 10);
            lemma_div_is_strictly_smaller(m_old, 10);
            assert(digit_val(d) == m_old % 10);
            assert(tmp@.reverse() =~= seq![d] + t_old.reverse());
            lemma_digits_value_prepend(d, t_old.reverse());
            assert(t_old.reverse().len() == k);
            assert(pow10(k + 1) == 10 * pow10(k));
            assert((10 * (m as int) + digit_val(d)) * pow10(k) == (m as int) * (10 * pow10(k))
                + digit_val(d) * pow10(k)) by (nonlinear_arith);
            assert(m_old * pow10(k) == (m as int) * pow10(k + 1) + digit_val(d) * pow10(k));
        }
    }
    let len = tmp.len();
    if neg {
        out.push(45);
    }
    let mut idx: usize = 0;
    while idx < len
        invariant
            idx <= len,
            len == tmp@.len(),
            len >= 1,
            out@.len() == (if neg { 1int } else { 0int }) + idx,
            neg ==> out@.len() >= 1 && out@[0] == 45,
            forall|x: int|
                0 <= x < idx ==> out@[(if neg { 1int } else { 0int }) + x] == #[trigger] tmp@[len
                    - 1 - x],
        decreases len - idx,
    {
        let b = tmp[len - 1 - idx];
        out.push(b);
        idx += 1;
    }
    proof {
        let off: int = if neg { 1 } else { 0 };
        assert(out@.len() == off + len);
        assert(forall|x: int| 0 <= x < len ==> tmp@.reverse()[x] == #[trigger] tmp@[len - 1 - x]);
        assert(is_digit(tmp@[len - 1]));
        assert(out@[(if neg { 1int } else { 0int }) + 0] == tmp@[len - 1 - 0]);
        assert(out@[off] == tmp@[len - 1]);
        if neg {
            assert(out@[0] == 45);
            assert(out@.drop_first() =~= tmp@.reverse());
            assert(decimal_body(out@) == out@.drop_first());
        } else {
            assert(out@[0] == tmp@[len - 1]);
            assert(out@[0] != 43 && out@[0] != 45);
            assert(out@ =~= tmp@.reverse());
            assert(decimal_body(out@) == out@);
        }
        assert(digits_value(tmp@.reverse()) == m0);
        assert(decimal_body(out@)[0] == tmp@[len - 1]);
        assert(digit_val(tmp@[len - 1]) >= 1);
    }
    out
}

} // verus!
