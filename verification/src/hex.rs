//! Hexadecimal text: the digits, the text of a byte string and of a number,
//! and the padding rules that the code generator applies to them.

use vstd::prelude::*;
use vstd::string::*;

verus! {

/// The lower-case digit that stands for `d`, for `0 <= d < 16`.
pub open spec fn hex_digit(d: int) -> char {
    if d == 0 {
        '0'
    } else if d == 1 {
        '1'
    } else if d == 2 {
        '2'
    } else if d == 3 {
        '3'
    } else if d == 4 {
        '4'
    } else if d == 5 {
        '5'
    } else if d == 6 {
        '6'
    } else if d == 7 {
        '7'
    } else if d == 8 {
        '8'
    } else if d == 9 {
        '9'
    } else if d == 10 {
        'a'
    } else if d == 11 {
        'b'
    } else if d == 12 {
        'c'
    } else if d == 13 {
        'd'
    } else if d == 14 {
        'e'
    } else {
        'f'
    }
}

/// Whether `c` is a hexadecimal digit, in either case.
pub open spec fn is_hex_char(c: char) -> bool {
    ('0' <= c && c <= '9') || ('a' <= c && c <= 'f') || ('A' <= c && c <= 'F')
}

/// Whether `c` is a lower-case hexadecimal digit.
pub open spec fn is_lower_hex_char(c: char) -> bool {
    ('0' <= c && c <= '9') || ('a' <= c && c <= 'f')
}

/// The number that the hexadecimal digit `c` stands for.
pub open spec fn hex_digit_value(c: char) -> nat {
    if '0' <= c && c <= '9' {
        (c as nat - '0' as nat) as nat
    } else if 'a' <= c && c <= 'f' {
        (c as nat - 'a' as nat + 10) as nat
    } else if 'A' <= c && c <= 'F' {
        (c as nat - 'A' as nat + 10) as nat
    } else {
        0
    }
}

/// Whether every character of `s` is a hexadecimal digit.
pub open spec fn is_hex(s: Seq<char>) -> bool {
    forall|i: int| 0 <= i < s.len() ==> is_hex_char(#[trigger] s[i])
}

/// Whether every character of `s` is a lower-case hexadecimal digit.
pub open spec fn is_lower_hex(s: Seq<char>) -> bool {
    forall|i: int| 0 <= i < s.len() ==> is_lower_hex_char(#[trigger] s[i])
}

/// The number that the hexadecimal text `s` denotes, most significant digit first.
pub open spec fn hex_value(s: Seq<char>) -> nat
    decreases s.len(),
{
    if s.len() == 0 {
        0
    } else {
        16 * hex_value(s.drop_last()) + hex_digit_value(s.last())
    }
}

/// The two digits of one byte.
pub open spec fn hex_byte(b: u8) -> Seq<char> {
    seq![hex_digit(b as int / 16), hex_digit(b as int % 16)]
}

/// The text of a byte string: two digits for each byte, in order.
pub open spec fn hex_bytes(bs: Seq<u8>) -> Seq<char>
    decreases bs.len(),
{
    if bs.len() == 0 {
        Seq::empty()
    } else {
        hex_bytes(bs.drop_last()) + hex_byte(bs.last())
    }
}

/// The digits of `n` without leading zeros; the single digit `0` for zero.
pub open spec fn hex_nat(n: nat) -> Seq<char>
    decreases n,
{
    if n < 16 {
        seq![hex_digit(n as int)]
    } else {
        hex_nat(n / 16).push(hex_digit((n % 16) as int))
    }
}

/// `k` zero digits.
pub open spec fn zeros(k: nat) -> Seq<char> {
    Seq::new(k, |i: int| '0')
}

/// `s` with one zero digit in front where its length is odd.
pub open spec fn even_hex(s: Seq<char>) -> Seq<char> {
    if s.len() % 2 == 1 {
        seq!['0'] + s
    } else {
        s
    }
}

/// `s` with zero digits in front up to `2 * n` characters; `s` itself where it is
/// that long already.
pub open spec fn pad_hex(s: Seq<char>, n: nat) -> Seq<char> {
    if s.len() < 2 * n {
        zeros((2 * n - s.len()) as nat) + s
    } else {
        s
    }
}

/// The bytes of `bs` from its first non-zero byte on, and its last byte alone where
/// all are zero.
pub open spec fn significant(bs: Seq<u8>) -> Seq<u8>
    decreases bs.len(),
{
    if bs.len() <= 1 || bs[0] != 0 {
        bs
    } else {
        significant(bs.drop_first())
    }
}

/// The text of a literal: its significant bytes in hexadecimal.
pub open spec fn literal_hex(bs: Seq<u8>) -> Seq<char> {
    hex_bytes(significant(bs))
}

/// The text of a size or an offset: its digits, brought to an even length.
pub open spec fn size_hex(n: nat) -> Seq<char> {
    even_hex(hex_nat(n))
}

/// The text of a two-byte address.
pub open spec fn address_hex(n: nat) -> Seq<char> {
    pad_hex(hex_nat(n), 2)
}

/// The largest value that a two-byte address holds.
pub open spec fn max_address() -> nat {
    0xffff
}

/// The push instruction for the immediate `h`: the opcode `0x5f + N`, where `N` is the
/// number of bytes of `h`, followed by `h`.
pub open spec fn push_bytes(h: Seq<char>) -> Seq<char> {
    hex_byte((0x5f + h.len() / 2) as u8) + h
}

/// A digit is a lower-case hexadecimal character and stands for its number.
pub proof fn lemma_hex_digit_is_lower_hex(d: int)
    requires
        0 <= d < 16,
    ensures
        is_lower_hex_char(hex_digit(d)),
        is_hex_char(hex_digit(d)),
        hex_digit_value(hex_digit(d)) == d,
        hex_digit(d) != 'x',
{
}

/// The text of a byte has two lower-case digits and denotes the byte.
pub proof fn lemma_hex_byte(b: u8)
    ensures
        hex_byte(b).len() == 2,
        is_lower_hex(hex_byte(b)),
        hex_value(hex_byte(b)) == b,
{
    let s = hex_byte(b);
    lemma_hex_digit_is_lower_hex(b as int / 16);
    lemma_hex_digit_is_lower_hex(b as int % 16);
    assert(s.drop_last() =~= seq![hex_digit(b as int / 16)]);
    assert(s.drop_last().drop_last() =~= Seq::<char>::empty());
    assert(hex_value(s.drop_last().drop_last()) == 0);
    assert(hex_value(s.drop_last()) == b as int / 16);
}

/// The text of a byte string has two lower-case digits for each byte.
pub proof fn lemma_hex_bytes(bs: Seq<u8>)
    ensures
        hex_bytes(bs).len() == 2 * bs.len(),
        is_lower_hex(hex_bytes(bs)),
    decreases bs.len(),
{
    if bs.len() > 0 {
        lemma_hex_bytes(bs.drop_last());
        lemma_hex_byte(bs.last());
    }
}

/// The significant bytes of a byte string are no more than its bytes, and one at
/// least where it has any.
pub proof fn lemma_significant(bs: Seq<u8>)
    ensures
        significant(bs).len() <= bs.len(),
        bs.len() >= 1 ==> significant(bs).len() >= 1,
    decreases bs.len(),
{
    if !(bs.len() <= 1 || bs[0] != 0) {
        lemma_significant(bs.drop_first());
    }
}

/// The text of a literal of up to 32 bytes has an even length of 2 to 64 lower-case
/// digits.
pub proof fn lemma_literal_hex(bs: Seq<u8>)
    requires
        1 <= bs.len() <= 32,
    ensures
        2 <= literal_hex(bs).len() <= 64,
        literal_hex(bs).len() % 2 == 0,
        is_lower_hex(literal_hex(bs)),
{
    lemma_significant(bs);
    lemma_hex_bytes(significant(bs));
}

/// 16 to the power of `k`.
pub open spec fn pow16(k: nat) -> nat
    decreases k,
{
    if k == 0 {
        1
    } else {
        16 * pow16((k - 1) as nat)
    }
}

/// The digits of a number are lower-case and denote the number.
pub proof fn lemma_hex_nat(n: nat)
    ensures
        hex_nat(n).len() >= 1,
        is_lower_hex(hex_nat(n)),
        hex_value(hex_nat(n)) == n,
    decreases n,
{
    let s = hex_nat(n);
    if n < 16 {
        lemma_hex_digit_is_lower_hex(n as int);
        assert(s.drop_last() =~= Seq::<char>::empty());
        assert(hex_value(s.drop_last()) == 0);
        assert(s.last() == hex_digit(n as int));
        assert(hex_value(s) == 16 * hex_value(s.drop_last()) + hex_digit_value(s.last()));
    } else {
        lemma_hex_nat(n / 16);
        lemma_hex_digit_is_lower_hex((n % 16) as int);
        assert(s.drop_last() =~= hex_nat(n / 16));
        assert(s.last() == hex_digit((n % 16) as int));
        assert(hex_value(s) == 16 * hex_value(s.drop_last()) + hex_digit_value(s.last()));
    }
}

/// A number below `16^k` has at most `k` digits.
pub proof fn lemma_hex_nat_len(n: nat, k: nat)
    requires
        k >= 1,
        n < pow16(k),
    ensures
        hex_nat(n).len() <= k,
    decreases n,
{
    if n >= 16 {
        if k == 1 {
            assert(pow16(1) == 16) by {
                assert(pow16(0) == 1);
            }
        } else {
            assert(pow16(k) == 16 * pow16((k - 1) as nat));
            lemma_hex_nat_len(n / 16, (k - 1) as nat);
        }
    }
}

/// The powers of 16 that bound two bytes and eight bytes.
pub proof fn lemma_pow16_values()
    ensures
        pow16(4) == 0x10000,
        pow16(16) == 0x1_0000_0000_0000_0000,
{
    assert(pow16(0) == 1);
    assert(pow16(1) == 16);
    assert(pow16(2) == 0x100);
    assert(pow16(3) == 0x1000);
    assert(pow16(4) == 0x10000);
    assert(pow16(5) == 0x100000);
    assert(pow16(6) == 0x1000000);
    assert(pow16(7) == 0x10000000);
    assert(pow16(8) == 0x100000000);
    assert(pow16(9) == 0x1000000000);
    assert(pow16(10) == 0x10000000000);
    assert(pow16(11) == 0x100000000000);
    assert(pow16(12) == 0x1000000000000);
    assert(pow16(13) == 0x10000000000000);
    assert(pow16(14) == 0x100000000000000);
    assert(pow16(15) == 0x1000000000000000);
    assert(pow16(16) == 0x10000000000000000);
}

/// Zero digits denote zero.
pub proof fn lemma_zeros_value(k: nat)
    ensures
        hex_value(zeros(k)) == 0,
    decreases k,
{
    if k > 0 {
        assert(zeros(k).drop_last() =~= zeros((k - 1) as nat));
        lemma_zeros_value((k - 1) as nat);
    }
}

/// Digits in front of a text shift its value by nothing where they are zeros.
pub proof fn lemma_hex_value_concat(a: Seq<char>, b: Seq<char>)
    ensures
        hex_value(a + b) == hex_value(a) * pow16(b.len()) + hex_value(b),
    decreases b.len(),
{
    if b.len() == 0 {
        assert(a + b =~= a);
        assert(pow16(0) == 1);
        assert(hex_value(b) == 0);
        assert(hex_value(a) * 1 == hex_value(a));
    } else {
        assert((a + b).drop_last() =~= a + b.drop_last());
        lemma_hex_value_concat(a, b.drop_last());
        let p = pow16((b.len() - 1) as nat);
        assert(pow16(b.len()) == 16 * p);
        assert(hex_value(a) * (16 * p) == 16 * (hex_value(a) * p)) by (nonlinear_arith);
        assert((a + b).last() == b.last());
        assert(hex_value(a + b) == 16 * hex_value((a + b).drop_last()) + hex_digit_value(
            b.last(),
        ));
        assert(hex_value(b) == 16 * hex_value(b.drop_last()) + hex_digit_value(b.last()));
    }
}

/// The text of a size has an even length, holds lower-case digits only and denotes the
/// size.
pub proof fn lemma_size_hex(n: nat)
    ensures
        size_hex(n).len() % 2 == 0,
        size_hex(n).len() >= 2,
        is_lower_hex(size_hex(n)),
        hex_value(size_hex(n)) == n,
        n <= 0xffff_ffff_ffff_ffff ==> size_hex(n).len() <= 16,
{
    lemma_hex_nat(n);
    let h = hex_nat(n);
    if h.len() % 2 == 1 {
        assert(seq!['0'] =~= zeros(1));
        lemma_zeros_value(1);
        lemma_hex_value_concat(seq!['0'], h);
        assert(0 * pow16(h.len()) == 0) by (nonlinear_arith);
    }
    if n <= 0xffff_ffff_ffff_ffff {
        lemma_pow16_values();
        lemma_hex_nat_len(n, 16);
    }
}

/// Padding keeps the value, and brings the text of a number to exactly `2 * k`
/// characters where the number is below `16^(2k)`.
pub proof fn lemma_pad_hex(s: Seq<char>, k: nat)
    requires
        is_lower_hex(s),
    ensures
        is_lower_hex(pad_hex(s, k)),
        hex_value(pad_hex(s, k)) == hex_value(s),
        pad_hex(s, k).len() >= 2 * k,
        s.len() <= 2 * k ==> pad_hex(s, k).len() == 2 * k,
{
    if s.len() < 2 * k {
        let z = zeros((2 * k - s.len()) as nat);
        lemma_zeros_value((2 * k - s.len()) as nat);
        lemma_hex_value_concat(z, s);
        assert(0 * pow16(s.len()) == 0) by (nonlinear_arith);
    }
}

/// The text of a two-byte address has exactly four lower-case digits and denotes the
/// address.
pub proof fn lemma_address_hex(n: nat)
    requires
        n <= max_address(),
    ensures
        address_hex(n).len() == 4,
        is_lower_hex(address_hex(n)),
        hex_value(address_hex(n)) == n,
{
    lemma_hex_nat(n);
    lemma_pow16_values();
    lemma_hex_nat_len(n, 4);
    lemma_pad_hex(hex_nat(n), 2);
}


/// Whether every character of `s` may stand in generated code: a hexadecimal digit,
/// or the `x` of a placeholder that awaits its address.
pub open spec fn is_code_text(s: Seq<char>) -> bool {
    forall|i: int| 0 <= i < s.len() ==> (is_hex_char(#[trigger] s[i]) || s[i] == 'x')
}

/// The text of a jump that awaits its address: `PUSH2` and two unknown bytes.
pub open spec fn placeholder() -> Seq<char> {
    seq!['6', '1', 'x', 'x', 'x', 'x']
}

/// The text of the `JUMPDEST` opcode.
pub open spec fn jumpdest() -> Seq<char> {
    seq!['5', 'b']
}

/// A code text is ASCII.
pub proof fn lemma_code_text_is_ascii(s: Seq<char>)
    requires
        is_code_text(s),
    ensures
        vstd::utf8::is_ascii_chars(s),
{
    assert forall|i: int| 0 <= i < s.len() implies '\0' <= #[trigger] s[i] <= '\u{7f}' by {
        assert(is_hex_char(s[i]) || s[i] == 'x');
    }
}

/// Hexadecimal text is a code text, and lower-case hexadecimal text is hexadecimal
/// text.
pub proof fn lemma_hex_is_code_text(s: Seq<char>)
    requires
        is_hex(s) || is_lower_hex(s),
    ensures
        is_code_text(s),
        is_lower_hex(s) ==> is_hex(s),
{
    assert forall|i: int| 0 <= i < s.len() implies (is_hex_char(#[trigger] s[i]) || s[i] == 'x') by {
        if is_hex(s) {
            assert(is_hex_char(s[i]));
        } else {
            assert(is_lower_hex_char(s[i]));
        }
    }
    if is_lower_hex(s) {
        assert forall|i: int| 0 <= i < s.len() implies is_hex_char(#[trigger] s[i]) by {
            assert(is_lower_hex_char(s[i]));
        }
    }
}

/// Two texts, one after the other, are a code text (hexadecimal, lower-case
/// hexadecimal) exactly where both are.
pub proof fn lemma_code_text_concat(a: Seq<char>, b: Seq<char>)
    ensures
        is_code_text(a + b) <==> (is_code_text(a) && is_code_text(b)),
        is_hex(a + b) <==> (is_hex(a) && is_hex(b)),
        is_lower_hex(a + b) <==> (is_lower_hex(a) && is_lower_hex(b)),
{
    let c = a + b;
    if is_code_text(c) {
        assert forall|i: int| 0 <= i < a.len() implies (is_hex_char(#[trigger] a[i]) || a[i]
            == 'x') by {
            assert(c[i] == a[i]);
        }
        assert forall|i: int| 0 <= i < b.len() implies (is_hex_char(#[trigger] b[i]) || b[i]
            == 'x') by {
            assert(c[a.len() + i] == b[i]);
        }
    }
    if is_hex(c) {
        assert forall|i: int| 0 <= i < a.len() implies is_hex_char(#[trigger] a[i]) by {
            assert(c[i] == a[i]);
        }
        assert forall|i: int| 0 <= i < b.len() implies is_hex_char(#[trigger] b[i]) by {
            assert(c[a.len() + i] == b[i]);
        }
    }
    if is_lower_hex(c) {
        assert forall|i: int| 0 <= i < a.len() implies is_lower_hex_char(#[trigger] a[i]) by {
            assert(c[i] == a[i]);
        }
        assert forall|i: int| 0 <= i < b.len() implies is_lower_hex_char(#[trigger] b[i]) by {
            assert(c[a.len() + i] == b[i]);
        }
    }
}

/// The push instruction for an immediate of 1 to 32 bytes is lower-case hexadecimal
/// text of even length where the immediate is.
pub proof fn lemma_push_bytes(h: Seq<char>)
    requires
        h.len() % 2 == 0,
        h.len() <= 64,
    ensures
        push_bytes(h).len() == h.len() + 2,
        push_bytes(h).len() % 2 == 0,
        is_lower_hex(h) ==> is_lower_hex(push_bytes(h)),
        push_bytes(h).subrange(2, push_bytes(h).len() as int) == h,
        push_bytes(h).subrange(0, 2) == hex_byte((0x5f + h.len() / 2) as u8),
{
    let op = hex_byte((0x5f + h.len() / 2) as u8);
    lemma_hex_byte((0x5f + h.len() / 2) as u8);
    lemma_code_text_concat(op, h);
    assert(push_bytes(h).subrange(2, push_bytes(h).len() as int) =~= h);
    assert(push_bytes(h).subrange(0, 2) =~= op);
}

/// The number of characters of an ASCII string.
pub fn ascii_len(s: &str) -> (n: usize)
    requires
        vstd::utf8::is_ascii_chars(s@),
    ensures
        n == s@.len(),
{
    proof {
        is_ascii_spec_bytes(s);
    }
    s.as_bytes().len()
}

/// Whether two strings hold the same characters.
pub fn str_eq(a: &str, b: &str) -> (r: bool)
    ensures
        r == (a@ == b@),
{
    let n = a.unicode_len();
    if n != b.unicode_len() {
        return false;
    }
    let mut i: usize = 0;
    while i < n
        invariant
            n == a@.len(),
            n == b@.len(),
            i <= n,
            forall|j: int| 0 <= j < i ==> a@[j] == b@[j],
        decreases n - i,
    {
        if a.get_char(i) != b.get_char(i) {
            return false;
        }
        i += 1;
    }
    assert(a@ =~= b@);
    true
}

/// The digit that stands for `d`, as a string of one character.
pub fn hex_digit_str(d: u8) -> (r: &'static str)
    requires
        d < 16,
    ensures
        r@ == seq![hex_digit(d as int)],
{
    let digits = "0123456789abcdef";
    proof {
        reveal_strlit("0123456789abcdef");
        assert(vstd::utf8::is_ascii_chars(digits@));
    }
    let r = digits.substring_ascii(d as usize, d as usize + 1);
    assert(r@ =~= seq![hex_digit(d as int)]);
    r
}

/// The two digits of one byte.
pub fn byte_to_hex(b: u8) -> (r: String)
    ensures
        r@ == hex_byte(b),
{
    let mut r = String::from_str(hex_digit_str(b / 16));
    r.append(hex_digit_str(b % 16));
    assert(r@ =~= hex_byte(b));
    r
}

/// The text of a 32-byte literal: its bytes from the first non-zero one on, two
/// lower-case digits each; `00` for zero.
pub fn bytes32_to_string(bytes: &[u8; 32]) -> (r: String)
    ensures
        r@ == literal_hex(bytes@),
{
    let mut start: usize = 0;
    assert(bytes@.skip(0) =~= bytes@);
    while start < 31 && bytes[start] == 0
        invariant
            start <= 31,
            significant(bytes@) == significant(bytes@.skip(start as int)),
        decreases 31 - start,
    {
        proof {
            let cur = bytes@.skip(start as int);
            assert(cur.len() > 1 && cur[0] == 0);
            assert(cur.drop_first() =~= bytes@.skip(start as int + 1));
        }
        start += 1;
    }
    proof {
        let cur = bytes@.skip(start as int);
        assert(cur.len() <= 1 || cur[0] != 0);
        assert(significant(cur) == cur);
    }
    let mut r = String::new();
    let mut j: usize = start;
    while j < 32
        invariant
            start <= j <= 32,
            bytes@.len() == 32,
            r@ == hex_bytes(bytes@.subrange(start as int, j as int)),
        decreases 32 - j,
    {
        let h = byte_to_hex(bytes[j]);
        proof {
            let next = bytes@.subrange(start as int, j as int + 1);
            assert(next.drop_last() =~= bytes@.subrange(start as int, j as int));
            assert(next.last() == bytes@[j as int]);
        }
        r.append(h.as_str());
        j += 1;
    }
    assert(bytes@.subrange(start as int, 32) =~= bytes@.skip(start as int));
    r
}

/// The digits of `n` without leading zeros.
pub fn usize_to_hex(n: usize) -> (r: String)
    ensures
        r@ == hex_nat(n as nat),
    decreases n,
{
    if n < 16 {
        String::from_str(hex_digit_str(n as u8))
    } else {
        let mut r = usize_to_hex(n / 16);
        r.append(hex_digit_str((n % 16) as u8));
        assert(r@ =~= hex_nat(n as nat));
        r
    }
}

/// Puts one zero digit in front of a text of odd length.
pub fn format_even_bytes(hex: String) -> (r: String)
    ensures
        r@ == even_hex(hex@),
{
    let n = hex.as_str().unicode_len();
    if n % 2 == 1 {
        let mut r = String::from_str("0");
        proof {
            reveal_strlit("0");
            assert(r@ =~= seq!['0']);
        }
        r.append(hex.as_str());
        r
    } else {
        hex
    }
}

/// Puts zero digits in front of `hex` until it has `2 * num_bytes` characters; a text
/// that is as long as that or longer comes back as it is.
pub fn pad_n_bytes(hex: &str, num_bytes: usize) -> (r: String)
    ensures
        r@ == pad_hex(hex@, num_bytes as nat),
{
    let n = hex.unicode_len();
    let mut r = String::new();
    // the length reached so far, as a number of whole bytes and one odd digit
    let mut half: usize = n / 2;
    let mut odd: bool = n % 2 == 1;
    let ghost mut k: nat = 0;
    assert(r@ =~= zeros(0));
    while half < num_bytes
        invariant
            r@ == zeros(k),
            2 * half + (if odd { 1int } else { 0int }) == n + k,
            k == 0 || half <= num_bytes,
            (k > 0 && half == num_bytes) ==> !odd,
        decreases 2 * (num_bytes - half) - (if odd { 1int } else { 0int }),
    {
        proof {
            reveal_strlit("0");
        }
        r.append("0");
        assert(r@ =~= zeros(k + 1));
        proof {
            k = k + 1;
        }
        if odd {
            odd = false;
            half += 1;
        } else {
            odd = true;
        }
    }
    r.append(hex);
    proof {
        if k == 0 {
            assert(r@ =~= hex@);
        }
    }
    r
}

/// The text of a size or an offset: its digits, brought to an even length.
pub fn size_to_hex(n: usize) -> (r: String)
    ensures
        r@ == size_hex(n as nat),
{
    format_even_bytes(usize_to_hex(n))
}

/// The push instruction for the immediate `h` of 1 to 32 bytes.
pub fn push_for(h: &str) -> (r: String)
    requires
        2 <= h@.len() <= 64,
    ensures
        r@ == push_bytes(h@),
{
    let n = h.unicode_len();
    let mut r = byte_to_hex((0x5f + n / 2) as u8);
    r.append(h);
    r
}

/// The lower-case letter for an upper-case ASCII letter; any other character itself.
pub open spec fn lower_char(c: char) -> char {
    if 'A' <= c && c <= 'Z' {
        ((c as u8 + 32) as u8) as char
    } else {
        c
    }
}

/// `s` with its upper-case ASCII letters in lower case.
pub open spec fn lowercase(s: Seq<char>) -> Seq<char> {
    Seq::new(s.len(), |i: int| lower_char(s[i]))
}

/// A code text in lower case is a code text, and has no upper-case digit.
pub proof fn lemma_lowercase_code_text(s: Seq<char>)
    requires
        is_code_text(s),
    ensures
        is_code_text(lowercase(s)),
        lowercase(s).len() == s.len(),
        forall|i: int|
            0 <= i < s.len() ==> (is_lower_hex_char(#[trigger] lowercase(s)[i]) || lowercase(s)[i]
                == 'x'),
{
    assert forall|i: int| 0 <= i < s.len() implies (is_lower_hex_char(#[trigger] lowercase(s)[i])
        || lowercase(s)[i] == 'x') by {
        assert(is_hex_char(s[i]) || s[i] == 'x');
    }
    assert forall|i: int| 0 <= i < lowercase(s).len() implies (is_hex_char(
        #[trigger] lowercase(s)[i],
    ) || lowercase(s)[i] == 'x') by {
        assert(is_lower_hex_char(lowercase(s)[i]) || lowercase(s)[i] == 'x');
    }
}

/// The lower-case letter for the upper-case ASCII letter `b`, as a string.
pub fn lower_letter_str(b: u8) -> (r: &'static str)
    requires
        65 <= b <= 90,
    ensures
        r@ == seq![lower_char(b as char)],
{
    let letters = "abcdefghijklmnopqrstuvwxyz";
    proof {
        reveal_strlit("abcdefghijklmnopqrstuvwxyz");
        assert(vstd::utf8::is_ascii_chars(letters@));
    }
    let r = letters.substring_ascii((b - 65) as usize, (b - 64) as usize);
    assert(r@ =~= seq![lower_char(b as char)]);
    r
}

/// `s` with its upper-case letters in lower case.
pub fn ascii_lowercase(s: &str) -> (r: String)
    requires
        vstd::utf8::is_ascii_chars(s@),
    ensures
        r@ == lowercase(s@),
{
    let n = ascii_len(s);
    let mut r = String::new();
    let mut i: usize = 0;
    while i < n
        invariant
            i <= n,
            n == s@.len(),
            vstd::utf8::is_ascii_chars(s@),
            r@ == lowercase(s@.take(i as int)),
        decreases n - i,
    {
        let b = s.get_ascii(i);
        proof {
            assert('\0' <= s@[i as int] <= '\u{7f}');
            assert(s@[i as int] == b as char);
        }
        if 65 <= b && b <= 90 {
            r.append(lower_letter_str(b));
        } else {
            r.append(s.substring_ascii(i, i + 1));
        }
        assert(r@ =~= lowercase(s@.take(i as int + 1)));
        i += 1;
    }
    assert(s@.take(n as int) =~= s@);
    r
}

/// Whether every character of `s` is a hexadecimal digit.
pub fn is_hex_str(s: &str) -> (r: bool)
    ensures
        r == is_hex(s@),
{
    if !s.is_ascii() {
        proof {
            if is_hex(s@) {
                assert forall|i: int| 0 <= i < s@.len() implies '\0' <= #[trigger] s@[i]
                    <= '\u{7f}' by {
                    assert(is_hex_char(s@[i]));
                }
            }
        }
        return false;
    }
    let n = ascii_len(s);
    let mut i: usize = 0;
    while i < n
        invariant
            i <= n,
            n == s@.len(),
            vstd::utf8::is_ascii_chars(s@),
            forall|j: int| 0 <= j < i ==> is_hex_char(#[trigger] s@[j]),
        decreases n - i,
    {
        let b = s.get_ascii(i);
        proof {
            assert('\0' <= s@[i as int] <= '\u{7f}');
            assert(s@[i as int] == b as char);
        }
        let digit = (48 <= b && b <= 57) || (97 <= b && b <= 102) || (65 <= b && b <= 70);
        if !digit {
            assert(!is_hex_char(s@[i as int]));
            return false;
        }
        i += 1;
    }
    true
}

/// Whether every character of `s` is a hexadecimal digit or the `x` of a
/// placeholder.
pub fn is_code_str(s: &str) -> (r: bool)
    ensures
        r == is_code_text(s@),
{
    if !s.is_ascii() {
        proof {
            if is_code_text(s@) {
                lemma_code_text_is_ascii(s@);
            }
        }
        return false;
    }
    let n = ascii_len(s);
    let mut i: usize = 0;
    while i < n
        invariant
            i <= n,
            n == s@.len(),
            vstd::utf8::is_ascii_chars(s@),
            forall|j: int| 0 <= j < i ==> (is_hex_char(#[trigger] s@[j]) || s@[j] == 'x'),
        decreases n - i,
    {
        let b = s.get_ascii(i);
        proof {
            assert('\0' <= s@[i as int] <= '\u{7f}');
            assert(s@[i as int] == b as char);
        }
        let ok = (48 <= b && b <= 57) || (97 <= b && b <= 102) || (65 <= b && b <= 70) || b
            == 120;
        if !ok {
            assert(!(is_hex_char(s@[i as int]) || s@[i as int] == 'x'));
            return false;
        }
        i += 1;
    }
    true
}

} // verus!
