//! Small string utilities: verified text-to-number parsing, whitespace
//! splitting, and hex rendering helpers for the memory dumps.

use vstd::prelude::*;

verus! {

use vstd::string::StrSliceExecFns;
use vstd::string::StringExecFns;

/// Character-for-character equality of two string slices.
pub fn str_eq(a: &str, b: &str) -> (r: bool)
    ensures
        r <==> a@ == b@,
{
    let la = a.unicode_len();
    let lb = b.unicode_len();
    if la != lb {
        return false;
    }
    let mut i: usize = 0;
    while i < la
        invariant
            i <= la,
            la == a@.len(),
            la == b@.len(),
            forall|j: int| 0 <= j < i ==> a@[j] == b@[j],
        decreases la - i,
    {
        if a.get_char(i) != b.get_char(i) {
            return false;
        }
        i += 1;
    }
    proof {
        assert(a@ =~= b@);
    }
    true
}

// ------------------------------------------------------------------
// Verified number parsing
// ------------------------------------------------------------------

pub open spec fn is_hex_digit(c: char) -> bool {
    ('0' <= c && c <= '9') || ('a' <= c && c <= 'f') || ('A' <= c && c <= 'F')
}

pub open spec fn hex_digit_val(c: char) -> u32 {
    if '0' <= c && c <= '9' {
        (c as u32 - '0' as u32) as u32
    } else if 'a' <= c && c <= 'f' {
        (c as u32 - 'a' as u32 + 10) as u32
    } else {
        (c as u32 - 'A' as u32 + 10) as u32
    }
}

pub open spec fn all_hex_digits(s: Seq<char>) -> bool {
    forall|i: int| 0 <= i < s.len() ==> is_hex_digit(#[trigger] s[i])
}

/// The number a string of hex digits denotes, most significant first.
pub open spec fn hex_value(s: Seq<char>) -> int
    decreases s.len(),
{
    if s.len() == 0 {
        0
    } else {
        hex_value(s.drop_last()) * 16 + hex_digit_val(s.last())
    }
}

/// The digits of the number: everything after one optional leading plus.
pub open spec fn hex_body(s: Seq<char>) -> Seq<char> {
    if s.len() > 0 && s[0] == '+' {
        s.drop_first()
    } else {
        s
    }
}

/// What hex parsing with errors collapsed to zero returns: the value when
/// the text is an optional plus before one or more hex digits denoting a
/// number that fits in 32 bits, and zero otherwise.
pub open spec fn parse_hex_spec(s: Seq<char>) -> u32 {
    let b = hex_body(s);
    if b.len() > 0 && all_hex_digits(b) && hex_value(b) <= u32::MAX {
        hex_value(b) as u32
    } else {
        0
    }
}

pub open spec fn is_dec_digit(c: char) -> bool {
    '0' <= c && c <= '9'
}

pub open spec fn all_dec_digits(s: Seq<char>) -> bool {
    forall|i: int| 0 <= i < s.len() ==> is_dec_digit(#[trigger] s[i])
}

pub open spec fn dec_value(s: Seq<char>) -> int
    decreases s.len(),
{
    if s.len() == 0 {
        0
    } else {
        dec_value(s.drop_last()) * 10 + (s.last() as u32 - '0' as u32)
    }
}

/// What signed decimal parsing with errors collapsed to `i32::MIN`
/// returns: the value when the text is an optional sign before one or more
/// digits denoting a number in the `i32` range, and `i32::MIN` otherwise.
pub open spec fn parse_i32_spec(s: Seq<char>) -> i32 {
    let neg = s.len() > 0 && s[0] == '-';
    let b = if s.len() > 0 && (s[0] == '+' || s[0] == '-') {
        s.drop_first()
    } else {
        s
    };
    if b.len() > 0 && all_dec_digits(b) {
        if neg {
            if dec_value(b) <= 0x80000000 {
                (-dec_value(b)) as i32
            } else {
                i32::MIN
            }
        } else {
            if dec_value(b) <= i32::MAX {
                dec_value(b) as i32
            } else {
                i32::MIN
            }
        }
    } else {
        i32::MIN
    }
}

/// Appending a digit multiplies the value by the radix and adds the digit.
proof fn lemma_hex_value_push(s: Seq<char>, c: char)
    ensures
        hex_value(s.push(c)) == hex_value(s) * 16 + hex_digit_val(c),
{
    assert(s.push(c).drop_last() =~= s);
    assert(s.push(c).last() == c);
}

proof fn lemma_dec_value_push(s: Seq<char>, c: char)
    ensures
        dec_value(s.push(c)) == dec_value(s) * 10 + (c as u32 - '0' as u32),
{
    assert(s.push(c).drop_last() =~= s);
    assert(s.push(c).last() == c);
}

/// Parse a hexadecimal number; any malformed or overflowing text parses as
/// zero.
#[verifier::rlimit(30)]
pub fn parse_hex_u32_err_to_0(n_str: &str) -> (r: u32)
    ensures
        r == parse_hex_spec(n_str@),
{
    let n = n_str.unicode_len();
    let start: usize = if n > 0 && n_str.get_char(0) == '+' {
        1
    } else {
        0
    };
    if n == start {
        return 0;
    }
    let ghost body = hex_body(n_str@);
    proof {
        assert(body =~= n_str@.subrange(start as int, n as int));
    }
    let mut i: usize = start;
    let mut acc: u32 = 0;
    let mut overflow = false;
    while i < n
        invariant
            start <= i <= n,
            n == n_str@.len(),
            body == hex_body(n_str@),
            body == n_str@.subrange(start as int, n as int),
            body.len() == n - start,
            forall|j: int| start <= j < i ==> is_hex_digit(#[trigger] n_str@[j]),
            !overflow ==> acc == hex_value(n_str@.subrange(start as int, i as int)),
            overflow ==> hex_value(n_str@.subrange(start as int, i as int)) > u32::MAX,
        decreases n - i,
    {
        let c = n_str.get_char(i);
        let u = c as u32;
        let d: u32 = if u >= 0x30 && u <= 0x39 {
            u - 0x30
        } else if u >= 0x61 && u <= 0x66 {
            u - 0x61 + 10
        } else if u >= 0x41 && u <= 0x46 {
            u - 0x41 + 10
        } else {
            proof {
                assert(!is_hex_digit(c));
                assert(body[i - start] == c);
                assert(!all_hex_digits(body));
            }
            return 0;
        };
        proof {
            assert(is_hex_digit(c) && d == hex_digit_val(c));
            assert(n_str@.subrange(start as int, i + 1) =~= n_str@.subrange(
                start as int,
                i as int,
            ).push(c));
            lemma_hex_value_push(n_str@.subrange(start as int, i as int), c);
        }
        if !overflow {
            if (acc as u64) * 16 + (d as u64) > 0xffffffffu64 {
                overflow = true;
            } else {
                acc = acc * 16 + d;
            }
        } else {
            proof {
                let prev = hex_value(n_str@.subrange(start as int, i as int));
                assert(prev * 16 >= prev + 15 * prev);
                assert(15 * prev >= 0);
            }
        }
        i += 1;
    }
    proof {
        assert(n_str@.subrange(start as int, n as int) == body);
        assert(all_hex_digits(body));
    }
    if overflow {
        0
    } else {
        acc
    }
}

/// Parse a signed decimal number; any malformed or overflowing text parses
/// as `i32::MIN`.
#[verifier::rlimit(30)]
pub fn parse_i32_err_to_min(n_str: &str) -> (r: i32)
    ensures
        r == parse_i32_spec(n_str@),
    {
    let n = n_str.unicode_len();
    let mut neg = false;
    let mut start: usize = 0;
    if n > 0 {
        let c0 = n_str.get_char(0);
        if c0 == '-' {
            neg = true;
            start = 1;
        } else if c0 == '+' {
            start = 1;
        }
    }
    if n == start {
        return i32::MIN;
    }
    let ghost body = if n_str@.len() > 0 && (n_str@[0] == '+' || n_str@[0] == '-') {
        n_str@.drop_first()
    } else {
        n_str@
    };
    proof {
        assert(body =~= n_str@.subrange(start as int, n as int));
    }
    let limit: u32 = if neg {
        0x80000000
    } else {
        0x7fffffff
    };
    let mut i: usize = start;
    let mut acc: u32 = 0;
    let mut overflow = false;
    while i < n
        invariant
            start <= i <= n,
            n == n_str@.len(),
            body == (if n_str@.len() > 0 && (n_str@[0] == '+' || n_str@[0] == '-') {
                n_str@.drop_first()
            } else {
                n_str@
            }),
            body == n_str@.subrange(start as int, n as int),
            body.len() == n - start,
            neg == (n_str@.len() > 0 && n_str@[0] == '-'),
            limit == (if neg {
                0x80000000u32
            } else {
                0x7fffffffu32
            }),
            forall|j: int| start <= j < i ==> is_dec_digit(#[trigger] n_str@[j]),
            !overflow ==> acc == dec_value(n_str@.subrange(start as int, i as int)) && acc
                <= limit,
            overflow ==> dec_value(n_str@.subrange(start as int, i as int)) > limit,
        decreases n - i,
    {
        let c = n_str.get_char(i);
        let u = c as u32;
        if !(u >= 0x30 && u <= 0x39) {
            proof {
                assert(!is_dec_digit(c));
                assert(body[i - start] == c);
                assert(!all_dec_digits(body));
            }
            return i32::MIN;
        }
        let d: u32 = u - 0x30;
        proof {
            assert(is_dec_digit(c));
            assert(n_str@.subrange(start as int, i + 1) =~= n_str@.subrange(
                start as int,
                i as int,
            ).push(c));
            lemma_dec_value_push(n_str@.subrange(start as int, i as int), c);
        }
        if !overflow {
            if (acc as u64) * 10 + (d as u64) > limit as u64 {
                overflow = true;
            } else {
                acc = acc * 10 + d;
            }
        } else {
            proof {
                let prev = dec_value(n_str@.subrange(start as int, i as int));
                assert(prev * 10 >= prev + 9 * prev);
                assert(9 * prev >= 0);
            }
        }
        i += 1;
    }
    proof {
        assert(n_str@.subrange(start as int, n as int) == body);
        assert(all_dec_digits(body));
    }
    if overflow {
        return i32::MIN;
    }
    if neg {
        if acc == 0x80000000 {
            return i32::MIN;
        }
        return -(acc as i32);
    }
    acc as i32
}

// ------------------------------------------------------------------
// Whitespace splitting
// ------------------------------------------------------------------

/// ASCII whitespace, as token separators.
pub open spec fn is_ascii_ws(c: char) -> bool {
    c == ' ' || c == '\t' || c == '\n' || c == '\r' || c == '\u{c}'
}

/// Unicode whitespace, trimmed from both ends before splitting.
pub open spec fn is_uni_ws(c: char) -> bool {
    let u = c as u32;
    (0x09 <= u && u <= 0x0d) || u == 0x20 || u == 0x85 || u == 0xa0 || u == 0x1680 || (0x2000 <= u
        && u <= 0x200a) || u == 0x2028 || u == 0x2029 || u == 0x202f || u == 0x205f || u == 0x3000
}

/// The length of the leading run of non-whitespace characters.
pub open spec fn token_len(s: Seq<char>) -> nat
    decreases s.len(),
{
    if s.len() == 0 || is_ascii_ws(s[0]) {
        0
    } else {
        1 + token_len(s.drop_first())
    }
}

/// The leading token is never longer than the text.
proof fn lemma_token_len_le(s: Seq<char>)
    ensures
        token_len(s) <= s.len(),
    decreases s.len(),
{
    if !(s.len() == 0 || is_ascii_ws(s[0])) {
        lemma_token_len_le(s.drop_first());
    }
}

#[via_fn]
proof fn tokens_of_decreases(s: Seq<char>) {
    lemma_token_len_le(s);
}

/// The maximal runs of non-whitespace characters, in order.
pub open spec fn tokens_of(s: Seq<char>) -> Seq<Seq<char>>
    decreases s.len(),
    via tokens_of_decreases
{
    if s.len() == 0 {
        Seq::empty()
    } else if is_ascii_ws(s[0]) {
        tokens_of(s.drop_first())
    } else {
        seq![s.take(token_len(s) as int)] + tokens_of(s.skip(token_len(s) as int))
    }
}

/// What is left after trimming whitespace from the front.
pub open spec fn trim_front(s: Seq<char>) -> Seq<char>
    decreases s.len(),
{
    if s.len() > 0 && is_uni_ws(s[0]) {
        trim_front(s.drop_first())
    } else {
        s
    }
}

/// What is left after trimming whitespace from the back.
pub open spec fn trim_back(s: Seq<char>) -> Seq<char>
    decreases s.len(),
{
    if s.len() > 0 && is_uni_ws(s.last()) {
        trim_back(s.drop_last())
    } else {
        s
    }
}

pub open spec fn trim_ws(s: Seq<char>) -> Seq<char> {
    trim_back(trim_front(s))
}

/// Executable twin of `is_uni_ws`.
fn uni_ws(c: char) -> (r: bool)
    ensures
        r == is_uni_ws(c),
{
    let u = c as u32;
    (0x09 <= u && u <= 0x0d) || u == 0x20 || u == 0x85 || u == 0xa0 || u == 0x1680 || (0x2000 <= u
        && u <= 0x200a) || u == 0x2028 || u == 0x2029 || u == 0x202f || u == 0x205f || u == 0x3000
}

/// Executable twin of `is_ascii_ws`.
fn ascii_ws(c: char) -> (r: bool)
    ensures
        r == is_ascii_ws(c),
{
    c == ' ' || c == '\t' || c == '\n' || c == '\r' || c == '\u{c}'
}

/// Trimming the front stops at the first non-whitespace character.
proof fn lemma_trim_front_at(s: Seq<char>, k: int)
    requires
        0 <= k <= s.len(),
        forall|j: int| 0 <= j < k ==> is_uni_ws(#[trigger] s[j]),
        k == s.len() || !is_uni_ws(s[k]),
    ensures
        trim_front(s) =~= s.skip(k),
    decreases k,
{
    if k == 0 {
        assert(s.skip(0) =~= s);
    } else {
        assert(is_uni_ws(s[0]));
        lemma_trim_front_at(s.drop_first(), k - 1);
        assert(forall|j: int| 0 <= j < s.len() - 1 ==> s.drop_first()[j] == s[j + 1]);
        assert(s.drop_first().skip(k - 1) =~= s.skip(k));
    }
}

/// Trimming the back stops at the last non-whitespace character.
proof fn lemma_trim_back_at(s: Seq<char>, k: int)
    requires
        0 <= k <= s.len(),
        forall|j: int| k <= j < s.len() ==> is_uni_ws(#[trigger] s[j]),
        k == 0 || !is_uni_ws(s[k - 1]),
    ensures
        trim_back(s) =~= s.take(k),
    decreases s.len() - k,
{
    if k == s.len() {
        if s.len() > 0 && is_uni_ws(s.last()) {
            assert(k - 1 < s.len());
            assert(false);
        }
        assert(s.take(k) =~= s);
    } else {
        assert(is_uni_ws(s.last()));
        lemma_trim_back_at(s.drop_last(), k);
        assert(s.drop_last().take(k) =~= s.take(k));
    }
}

/// The leading token runs to the first whitespace character.
proof fn lemma_token_len_at(s: Seq<char>, k: int)
    requires
        0 <= k <= s.len(),
        forall|j: int| 0 <= j < k ==> !is_ascii_ws(#[trigger] s[j]),
        k == s.len() || is_ascii_ws(s[k]),
    ensures
        token_len(s) == k,
    decreases k,
{
    if k == 0 {
    } else {
        lemma_token_len_at(s.drop_first(), k - 1);
        assert(forall|j: int| 0 <= j < s.len() - 1 ==> s.drop_first()[j] == s[j + 1]);
    }
}

/// Split on ASCII whitespace, after trimming whitespace at both ends: the
/// result lists exactly the maximal non-whitespace runs, in order.
pub fn split_string(line: String) -> (res: Vec<String>)
    ensures
        res@.len() == tokens_of(trim_ws(line@)).len(),
        forall|i: int|
            0 <= i < res@.len() ==> (#[trigger] res@[i])@ == tokens_of(trim_ws(line@))[i],
{
    let s = line.as_str();
    let n = s.unicode_len();
    let mut lo: usize = 0;
    while lo < n && uni_ws(s.get_char(lo))
        invariant
            lo <= n,
            n == s@.len(),
            forall|j: int| 0 <= j < lo ==> is_uni_ws(#[trigger] s@[j]),
        decreases n - lo,
    {
        lo += 1;
    }
    let mut hi: usize = n;
    while hi > lo && uni_ws(s.get_char(hi - 1))
        invariant
            lo <= hi <= n,
            n == s@.len(),
            forall|j: int| 0 <= j < lo ==> is_uni_ws(#[trigger] s@[j]),
            lo < n ==> !is_uni_ws(s@[lo as int]),
            forall|j: int| hi <= j < n ==> is_uni_ws(#[trigger] s@[j]),
        decreases hi,
    {
        hi -= 1;
    }
    let ghost trimmed = trim_ws(line@);
    proof {
        lemma_trim_front_at(s@, lo as int);
        if hi == lo {
            lemma_trim_back_at(s@.skip(lo as int), 0);
        } else {
            lemma_trim_back_at(s@.skip(lo as int), hi - lo);
        }
        assert(trimmed =~= s@.subrange(lo as int, hi as int));
    }
    let mut res: Vec<String> = Vec::new();
    let ghost done: Seq<Seq<char>> = Seq::empty();
    let mut p: usize = lo;
    proof {
        assert(trimmed.skip(0) =~= trimmed);
        assert(done + tokens_of(trimmed) =~= tokens_of(trimmed));
    }
    while p < hi
        invariant
            lo <= p <= hi <= n,
            n == s@.len(),
            trimmed == trim_ws(line@),
            trimmed == s@.subrange(lo as int, hi as int),
            s@ == line@,
            res@.len() == done.len(),
            forall|i: int| 0 <= i < res@.len() ==> (#[trigger] res@[i])@ == done[i],
            tokens_of(trimmed) == done + tokens_of(trimmed.skip(p - lo)),
            forall|j: int| hi <= j < n ==> is_uni_ws(#[trigger] s@[j]),
        decreases hi - p,
    {
        let ghost done0 = done;
        let ghost rest = trimmed.skip(p - lo);
        let c = s.get_char(p);
        proof {
            assert(rest[0] == s@[p as int]);
        }
        if ascii_ws(c) {
            p += 1;
            proof {
                assert(rest.drop_first() =~= trimmed.skip(p - lo));
                assert(tokens_of(rest) == tokens_of(trimmed.skip(p - lo)));
            }
        } else {
            let mut q: usize = p + 1;
            while q < hi && !ascii_ws(s.get_char(q))
                invariant
                    p < q <= hi <= n,
                    n == s@.len(),
                    forall|j: int| p <= j < q ==> !is_ascii_ws(#[trigger] s@[j]),
                decreases hi - q,
            {
                q += 1;
            }
            let tok = s.substring_char(p, q);
            res.push(String::from_str(tok));
            proof {
                assert(forall|j: int| 0 <= j < rest.len() ==> rest[j] == s@[p + j]);
                if q < hi {
                    assert(is_ascii_ws(s@[q as int]));
                } else {
                    assert(rest.len() == q - p);
                }
                lemma_token_len_at(rest, q - p);
                assert(rest.take(q - p) =~= s@.subrange(p as int, q as int));
                assert(rest.skip(q - p) =~= trimmed.skip(q - lo));
                assert(tokens_of(rest) == seq![rest.take(q - p)] + tokens_of(
                    trimmed.skip(q - lo),
                ));
                done = done0.push(tok@);
                assert(done0 + tokens_of(rest) =~= done + tokens_of(trimmed.skip(q - lo)));
            }
            p = q;
        }
    }
    proof {
        assert(trimmed.skip(hi - lo) =~= Seq::<char>::empty());
        assert(tokens_of(trimmed) =~= done);
    }
    res
}

/// One lower-case hex digit.
fn hex_digit(d: u8) -> &'static str
    requires
        d < 16,
{
    match d {
        0 => "0",
        1 => "1",
        2 => "2",
        3 => "3",
        4 => "4",
        5 => "5",
        6 => "6",
        7 => "7",
        8 => "8",
        9 => "9",
        10 => "a",
        11 => "b",
        12 => "c",
        13 => "d",
        14 => "e",
        _ => "f",
    }
}

/// Append a byte as two hex digits. The dump format itself is not part of
/// any contract.
pub(crate) fn push_hex_u8(s: &mut String, b: u8) {
    s.append(hex_digit(b / 16));
    s.append(hex_digit(b % 16));
}

/// Append a word as eight hex digits.
pub(crate) fn push_hex_u32(s: &mut String, v: u32) {
    s.append(hex_digit((v / 0x10000000 % 16) as u8));
    s.append(hex_digit((v / 0x1000000 % 16) as u8));
    s.append(hex_digit((v / 0x100000 % 16) as u8));
    s.append(hex_digit((v / 0x10000 % 16) as u8));
    s.append(hex_digit((v / 0x1000 % 16) as u8));
    s.append(hex_digit((v / 0x100 % 16) as u8));
    s.append(hex_digit((v / 0x10 % 16) as u8));
    s.append(hex_digit((v % 16) as u8));
}

} // verus!
