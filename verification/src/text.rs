//! Character-level helpers on strings: whitespace, trimming, numbers.

use vstd::prelude::*;

verus! {

/// The Unicode `White_Space` property, which `char::is_whitespace` tests.
pub open spec fn is_white_space(c: char) -> bool {
    ||| ('\u{9}' <= c && c <= '\u{d}')
    ||| c == ' '
    ||| c == '\u{85}'
    ||| c == '\u{a0}'
    ||| c == '\u{1680}'
    ||| ('\u{2000}' <= c && c <= '\u{200a}')
    ||| c == '\u{2028}'
    ||| c == '\u{2029}'
    ||| c == '\u{202f}'
    ||| c == '\u{205f}'
    ||| c == '\u{3000}'
}

/// `s` without its leading whitespace.
pub open spec fn trim_start(s: Seq<char>) -> Seq<char>
    decreases s.len(),
{
    if s.len() > 0 && is_white_space(s[0]) {
        trim_start(s.drop_first())
    } else {
        s
    }
}

/// `s` without its trailing whitespace.
pub open spec fn trim_end(s: Seq<char>) -> Seq<char>
    decreases s.len(),
{
    if s.len() > 0 && is_white_space(s.last()) {
        trim_end(s.drop_last())
    } else {
        s
    }
}

/// `s` without leading and trailing whitespace, as `str::trim` gives it.
pub open spec fn trimmed(s: Seq<char>) -> Seq<char> {
    trim_end(trim_start(s))
}

proof fn lemma_trim_start_idem(s: Seq<char>)
    ensures
        trim_start(trim_start(s)) == trim_start(s),
        trim_start(s).len() > 0 ==> !is_white_space(trim_start(s)[0]),
    decreases s.len(),
{
    if s.len() > 0 && is_white_space(s[0]) {
        lemma_trim_start_idem(s.drop_first());
    }
}

proof fn lemma_trim_end_keeps_start(s: Seq<char>)
    requires
        s.len() > 0 ==> !is_white_space(s[0]),
    ensures
        trim_start(trim_end(s)) == trim_end(s),
        trim_end(trim_end(s)) == trim_end(s),
    decreases s.len(),
{
    if s.len() > 0 && is_white_space(s.last()) {
        if s.len() > 1 {
            assert(s.drop_last()[0] == s[0]);
        }
        lemma_trim_end_keeps_start(s.drop_last());
    }
}

/// Trimming twice gives what trimming once gives.
pub proof fn law_trim_idempotent(s: Seq<char>)
    ensures
        trimmed(trimmed(s)) == trimmed(s),
{
    lemma_trim_start_idem(s);
    lemma_trim_end_keeps_start(trim_start(s));
}

/// Tests whether `c` has the Unicode `White_Space` property.
pub fn white_space(c: char) -> (b: bool)
    ensures
        b == is_white_space(c),
{
    ('\u{9}' <= c && c <= '\u{d}') || c == ' ' || c == '\u{85}' || c == '\u{a0}' || c
        == '\u{1680}' || ('\u{2000}' <= c && c <= '\u{200a}') || c == '\u{2028}' || c
        == '\u{2029}' || c == '\u{202f}' || c == '\u{205f}' || c == '\u{3000}'
}

/// `s` with leading and trailing whitespace removed.
pub fn trim(s: &str) -> (r: String)
    ensures
        r@ == trimmed(s@),
{
    let n = s.unicode_len();
    let mut i: usize = 0;
    assert(s@.subrange(0, n as int) =~= s@);
    while i < n && white_space(s.get_char(i))
        invariant
            n == s@.len(),
            i <= n,
            trim_start(s@) == trim_start(s@.subrange(i as int, n as int)),
        decreases n - i,
    {
        assert(s@.subrange(i as int, n as int).drop_first() =~= s@.subrange(i + 1, n as int));
        i = i + 1;
    }
    assert(trim_start(s@.subrange(i as int, n as int)) == s@.subrange(i as int, n as int));
    let mut j: usize = n;
    while j > i && white_space(s.get_char(j - 1))
        invariant
            n == s@.len(),
            i <= j <= n,
            trimmed(s@) == trim_end(s@.subrange(i as int, j as int)),
        decreases j,
    {
        assert(s@.subrange(i as int, j as int).drop_last() =~= s@.subrange(i as int, j - 1));
        j = j - 1;
    }
    let r = s.substring_char(i, j);
    String::from_str(r)
}

/// Appends one character to a string, as `String::push` does.
#[verifier::external_body]
pub fn push_char(s: &mut String, c: char)
    ensures
        final(s)@ == old(s)@.push(c),
{
    s.push(c);
}

/// The decimal digit character for `d`.
pub open spec fn digit_char(d: nat) -> char {
    (d + 48) as char
}

/// The decimal representation of `n`, without sign or leading zeros.
pub open spec fn decimal(n: nat) -> Seq<char>
    decreases n,
{
    if n < 10 {
        seq![digit_char(n)]
    } else {
        decimal(n / 10).push(digit_char(n % 10))
    }
}

fn digit(d: u8) -> (c: char)
    requires
        d < 10,
    ensures
        c == digit_char(d as nat),
{
    (48 + d) as char
}

pub(crate) proof fn lemma_decimal_digits(n: nat)
    ensures
        digits_value(decimal(n), 10) == Some(n),
        decimal(n).len() > 0,
        '0' <= decimal(n)[0] && decimal(n)[0] <= '9',
    decreases n,
{
    let d = n % 10;
    assert(digit_char(d) as int == d + 48);
    assert(digit_value(digit_char(d), 10) == Some(d));
    if n >= 10 {
        lemma_decimal_digits(n / 10);
        assert(decimal(n).drop_last() =~= decimal(n / 10));
        assert(decimal(n).last() == digit_char(d));
        assert((n / 10) * 10 + d == n) by (nonlinear_arith)
            requires
                d == n % 10,
        ;
        assert(decimal(n)[0] == decimal(n / 10)[0]);
        assert(digits_value(decimal(n).drop_last(), 10) == Some(n / 10));
        assert(digits_value(decimal(n), 10) == Some((n / 10) * 10 + d));
    } else {
        assert(decimal(n).drop_last() =~= Seq::<char>::empty());
        assert(digits_value(decimal(n).drop_last(), 10) == Some(0nat));
        assert(digits_value(decimal(n), 10) == Some(0 * 10 + d));
    }
}

/// A number written in decimal reads back as that number.
pub proof fn law_decimal_reads_back(n: nat)
    ensures
        unsigned_value(decimal(n), 10) == Some(n),
{
    lemma_decimal_digits(n);
}

/// The decimal representation of `n`, as `n.to_string()` writes it.
pub fn decimal_string(n: u128) -> (s: String)
    ensures
        s@ == decimal(n as nat),
    decreases n,
{
    if n < 10 {
        let mut s = String::new();
        push_char(&mut s, digit(n as u8));
        s
    } else {
        let mut s = decimal_string(n / 10);
        push_char(&mut s, digit((n % 10) as u8));
        s
    }
}

/// The upper-case hexadecimal digit character for `d < 16`.
pub open spec fn hex_char(d: nat) -> char {
    if d < 10 {
        (d + 48) as char
    } else {
        (d + 55) as char
    }
}

/// The last `width` hexadecimal digits of `n`, upper case, padded with zeros.
pub open spec fn hex_padded(n: nat, width: nat) -> Seq<char>
    decreases width,
{
    if width == 0 {
        seq![]
    } else {
        hex_padded(n / 16, (width - 1) as nat).push(hex_char(n % 16))
    }
}

fn hex_digit(d: u32) -> (c: char)
    requires
        d < 16,
    ensures
        c == hex_char(d as nat),
{
    if d < 10 {
        (48 + d as u8) as char
    } else {
        (55 + d as u8) as char
    }
}

fn hex_digits(n: u32, width: u32) -> (s: String)
    ensures
        s@ == hex_padded(n as nat, width as nat),
    decreases width,
{
    if width == 0 {
        String::new()
    } else {
        let mut s = hex_digits(n / 16, width - 1);
        push_char(&mut s, hex_digit(n % 16));
        s
    }
}

/// Sixteen to the power `w`.
pub open spec fn pow16(w: nat) -> nat
    decreases w,
{
    if w == 0 {
        1
    } else {
        16 * pow16((w - 1) as nat)
    }
}

proof fn lemma_hex_digits(n: nat, w: nat)
    requires
        n < pow16(w),
    ensures
        digits_value(hex_padded(n, w), 16) == Some(n),
        hex_padded(n, w).len() == w,
        forall|i: int| 0 <= i < w ==> #[trigger] hex_padded(n, w)[i] != '+',
    decreases w,
{
    if w > 0 {
        let d = n % 16;
        let q = n / 16;
        assert(q < pow16((w - 1) as nat) && q * 16 + d == n) by (nonlinear_arith)
            requires
                n < 16 * pow16((w - 1) as nat),
                d == n % 16,
                q == n / 16,
        ;
        lemma_hex_digits(q, (w - 1) as nat);
        let h = hex_padded(n, w);
        assert(h.drop_last() =~= hex_padded(q, (w - 1) as nat));
        assert(hex_char(d) as int == (if d < 10 { d + 48 } else { d + 55 }));
        assert(digit_value(hex_char(d), 16) == Some(d));
        assert forall|i: int| 0 <= i < w implies #[trigger] h[i] != '+' by {
            if i < w - 1 {
                assert(h[i] == hex_padded(q, (w - 1) as nat)[i]);
            }
        }
    } else {
        assert(n == 0);
    }
}

/// A number written as eight hexadecimal digits reads back as that number:
/// the checksum that an error message shows is the one a patch file gives.
pub proof fn law_hex8_reads_back(n: u32)
    ensures
        unsigned_value(hex_padded(n as nat, 8), 16) == Some(n as nat),
{
    reveal_with_fuel(pow16, 9);
    assert(pow16(8) == 0x1_0000_0000);
    lemma_hex_digits(n as nat, 8);
    assert(hex_padded(n as nat, 8)[0] != '+');
}

/// `n` as eight upper-case hexadecimal digits, as `format!("{:08X}", n)` writes it.
pub fn hex8(n: u32) -> (s: String)
    ensures
        s@ == hex_padded(n as nat, 8),
{
    hex_digits(n, 8)
}

/// The value of the digit `c` in base `radix`, if it is one: `0-9`, then
/// letters of either case from ten on.
pub open spec fn digit_value(c: char, radix: nat) -> Option<nat> {
    let v: int = if '0' <= c && c <= '9' {
        c as int - 48
    } else if 'a' <= c && c <= 'z' {
        c as int - 87
    } else if 'A' <= c && c <= 'Z' {
        c as int - 55
    } else {
        36
    };
    if v < radix {
        Some(v as nat)
    } else {
        None
    }
}

/// The value of the digit string `s` in base `radix`; `None` if a character
/// of it is no digit there. The empty string has value 0.
pub open spec fn digits_value(s: Seq<char>, radix: nat) -> Option<nat>
    decreases s.len(),
{
    if s.len() == 0 {
        Some(0)
    } else {
        match (digits_value(s.drop_last(), radix), digit_value(s.last(), radix)) {
            (Some(a), Some(d)) => Some(a * radix + d),
            _ => None,
        }
    }
}

/// What `from_str_radix` reads from `s` for an unsigned type, before the
/// range check: an optional `+` and at least one digit, nothing else.
pub open spec fn unsigned_value(s: Seq<char>, radix: nat) -> Option<nat> {
    let digits = if s.len() > 0 && s[0] == '+' {
        s.drop_first()
    } else {
        s
    };
    if digits.len() == 0 {
        None
    } else {
        digits_value(digits, radix)
    }
}

fn digit_of(c: char, radix: u64) -> (r: Option<u64>)
    requires
        2 <= radix <= 36,
    ensures
        r matches Some(v) ==> digit_value(c, radix as nat) == Some(v as nat),
        r is None ==> digit_value(c, radix as nat) is None,
{
    let v: u64 = if '0' <= c && c <= '9' {
        (c as u32 - 48) as u64
    } else if 'a' <= c && c <= 'z' {
        (c as u32 - 87) as u64
    } else if 'A' <= c && c <= 'Z' {
        (c as u32 - 55) as u64
    } else {
        36
    };
    if v < radix {
        Some(v)
    } else {
        None
    }
}

proof fn lemma_digits_grow(s: Seq<char>, radix: nat, i: int)
    requires
        radix >= 2,
        0 <= i <= s.len(),
        digits_value(s.take(i), radix) matches Some(p) && p > u64::MAX,
    ensures
        digits_value(s, radix) matches Some(v) ==> v > u64::MAX,
    decreases s.len() - i,
{
    if i < s.len() {
        let p = digits_value(s.take(i), radix).unwrap();
        assert(s.take(i + 1).drop_last() =~= s.take(i));
        match digit_value(s[i], radix) {
            Some(d) => {
                assert(p * radix + d >= p) by (nonlinear_arith)
                    requires
                        radix >= 2,
                        p >= 0,
                        d >= 0,
                ;
                lemma_digits_grow(s, radix, i + 1);
            },
            None => {
                lemma_digits_none(s, radix, i + 1);
            },
        }
    } else {
        assert(s.take(i) =~= s);
    }
}

proof fn lemma_digits_none(s: Seq<char>, radix: nat, i: int)
    requires
        0 <= i <= s.len(),
        digits_value(s.take(i), radix) is None,
    ensures
        digits_value(s, radix) is None,
    decreases s.len() - i,
{
    if i < s.len() {
        assert(s.take(i + 1).drop_last() =~= s.take(i));
        lemma_digits_none(s, radix, i + 1);
    } else {
        assert(s.take(i) =~= s);
    }
}

/// Reads an unsigned number in base `radix` as `from_str_radix` does for an
/// unsigned type: `None` where it fails or the value exceeds `u64::MAX`.
pub fn parse_unsigned(s: &str, radix: u64) -> (r: Option<u64>)
    requires
        2 <= radix <= 36,
    ensures
        r == (match unsigned_value(s@, radix as nat) {
            Some(v) => if v <= u64::MAX {
                Some(v as u64)
            } else {
                None
            },
            None => None,
        }),
{
    let n = s.unicode_len();
    let start: usize = if n > 0 && s.get_char(0) == '+' {
        1
    } else {
        0
    };
    let ghost digits = if s@.len() > 0 && s@[0] == '+' {
        s@.drop_first()
    } else {
        s@
    };
    assert(digits =~= s@.subrange(start as int, n as int));
    if start == n {
        return None;
    }
    let mut acc: u64 = 0;
    let mut i: usize = start;
    assert(digits.take(0) =~= Seq::<char>::empty());
    while i < n
        invariant
            n == s@.len(),
            start <= i <= n,
            2 <= radix <= 36,
            digits =~= s@.subrange(start as int, n as int),
            unsigned_value(s@, radix as nat) == digits_value(digits, radix as nat),
            digits_value(digits.take(i - start), radix as nat) == Some(acc as nat),
        decreases n - i,
    {
        let c = s.get_char(i);
        let ghost k = i - start;
        assert(digits.take(k + 1).drop_last() =~= digits.take(k));
        assert(digits[k] == c);
        match digit_of(c, radix) {
            None => {
                proof {
                    lemma_digits_none(digits, radix as nat, k + 1);
                }
                return None;
            },
            Some(d) => {
                let ghost next = acc as nat * radix as nat + d as nat;
                let lim = (u64::MAX - d) / radix;
                if acc > lim {
                    proof {
                        assert(next > u64::MAX) by (nonlinear_arith)
                            requires
                                acc > lim,
                                lim == (u64::MAX - d) as int / radix as int,
                                radix >= 2,
                                d < radix,
                                next == acc * radix + d,
                        ;
                        lemma_digits_grow(digits, radix as nat, k + 1);
                    }
                    return None;
                }
                assert(acc * radix + d <= u64::MAX) by (nonlinear_arith)
                    requires
                        acc <= lim,
                        lim == (u64::MAX - d) as int / radix as int,
                        radix >= 2,
                        d < radix,
                ;
                acc = acc * radix + d;
            },
        }
        i = i + 1;
    }
    assert(digits.take(n - start) =~= digits);
    Some(acc)
}

/// Reads a `usize` as `str::parse::<usize>` does: `None` where it fails.
pub fn parse_usize(s: &str) -> (r: Option<usize>)
    ensures
        r == (match unsigned_value(s@, 10) {
            Some(v) => if v <= usize::MAX {
                Some(v as usize)
            } else {
                None
            },
            None => None,
        }),
{
    match parse_unsigned(s, 10) {
        Some(v) => if v <= usize::MAX as u64 {
            Some(v as usize)
        } else {
            None
        },
        None => None,
    }
}

/// Reads a `u32` in hexadecimal as `u32::from_str_radix(s, 16)` does: `None`
/// where it fails.
pub fn parse_hex_u32(s: &str) -> (r: Option<u32>)
    ensures
        r == (match unsigned_value(s@, 16) {
            Some(v) => if v <= u32::MAX {
                Some(v as u32)
            } else {
                None
            },
            None => None,
        }),
{
    match parse_unsigned(s, 16) {
        Some(v) => if v <= u32::MAX as u64 {
            Some(v as u32)
        } else {
            None
        },
        None => None,
    }
}

/// The ASCII whitespace that `char::is_ascii_whitespace` accepts.
pub open spec fn is_ascii_white(c: char) -> bool {
    c == ' ' || c == '\t' || c == '\n' || c == '\u{c}' || c == '\r'
}

/// The words read so far from `s`, and the word still being read.
pub open spec fn words_state(s: Seq<char>) -> (Seq<Seq<char>>, Seq<char>)
    decreases s.len(),
{
    if s.len() == 0 {
        (seq![], seq![])
    } else {
        let (done, cur) = words_state(s.drop_last());
        if is_ascii_white(s.last()) {
            if cur.len() > 0 {
                (done.push(cur), seq![])
            } else {
                (done, cur)
            }
        } else {
            (done, cur.push(s.last()))
        }
    }
}

/// The maximal runs of characters of `s` that are not ASCII whitespace, in
/// order: what `str::split_ascii_whitespace` yields.
pub open spec fn ascii_words(s: Seq<char>) -> Seq<Seq<char>> {
    let (done, cur) = words_state(s);
    if cur.len() > 0 {
        done.push(cur)
    } else {
        done
    }
}

/// The views of a vector of strings.
pub open spec fn string_views(v: Seq<String>) -> Seq<Seq<char>> {
    v.map_values(|w: String| w@)
}

/// Splits `s` at runs of ASCII whitespace, dropping empty pieces.
pub fn split_ascii_words(s: &str) -> (r: Vec<String>)
    ensures
        string_views(r@) == ascii_words(s@),
{
    let n = s.unicode_len();
    let mut words: Vec<String> = Vec::new();
    let mut cur = String::new();
    let mut i: usize = 0;
    assert(s@.take(0) =~= Seq::<char>::empty());
    while i < n
        invariant
            n == s@.len(),
            i <= n,
            string_views(words@) =~= words_state(s@.take(i as int)).0,
            cur@ == words_state(s@.take(i as int)).1,
        decreases n - i,
    {
        let c = s.get_char(i);
        assert(s@.take(i + 1).drop_last() =~= s@.take(i as int));
        if c == ' ' || c == '\t' || c == '\n' || c == '\u{c}' || c == '\r' {
            if cur.unicode_len() > 0 {
                let w = cur;
                words.push(w);
                cur = String::new();
            }
        } else {
            push_char(&mut cur, c);
        }
        i = i + 1;
    }
    assert(s@.take(n as int) =~= s@);
    if cur.unicode_len() > 0 {
        words.push(cur);
    }
    words
}

/// Whether the first character of `s` is `c`.
pub fn starts_with_char(s: &str, c: char) -> (b: bool)
    ensures
        b == (s@.len() > 0 && s@[0] == c),
{
    s.unicode_len() > 0 && s.get_char(0) == c
}

/// Whether the last character of `s` is `c`.
pub fn ends_with_char(s: &str, c: char) -> (b: bool)
    ensures
        b == (s@.len() > 0 && s@.last() == c),
{
    let n = s.unicode_len();
    n > 0 && s.get_char(n - 1) == c
}

/// `s` followed by `t`.
pub fn concatenated(s: &str, t: &str) -> (r: String)
    ensures
        r@ == s@ + t@,
{
    let mut r = String::from_str(s);
    r.append(t);
    r
}

} // verus!
