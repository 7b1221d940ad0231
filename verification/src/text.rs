//! Text helpers: comparison and ordering of strings, and decimal numbers.
use vstd::prelude::*;
use vstd::string::*;
use vstd::utf8::*;

verus! {

/// `String::push` appends the character to the end of the string.
pub assume_specification[ String::push ](s: &mut String, ch: char)
    ensures
        final(s)@ == old(s)@.push(ch),
;

/// Lexicographic order of character sequences.
pub open spec fn precedes(a: Seq<char>, b: Seq<char>) -> bool
    decreases a.len(),
{
    if b.len() == 0 {
        false
    } else if a.len() == 0 {
        true
    } else if a[0] == b[0] {
        precedes(a.drop_first(), b.drop_first())
    } else {
        (a[0] as int) < (b[0] as int)
    }
}

/// Of two different sequences one precedes the other.
pub proof fn lemma_order_total(a: Seq<char>, b: Seq<char>)
    ensures
        a == b || precedes(a, b) || precedes(b, a),
        !(precedes(a, b) && precedes(b, a)),
        !precedes(a, a),
    decreases a.len(),
{
    if a.len() > 0 && b.len() > 0 {
        if a[0] == b[0] {
            lemma_order_total(a.drop_first(), b.drop_first());
            if a.drop_first() == b.drop_first() {
                assert(a =~= seq![a[0]] + a.drop_first());
                assert(b =~= seq![b[0]] + b.drop_first());
            }
        } else {
            assert((a[0] as int) != (b[0] as int));
        }
        lemma_irreflexive(a);
    } else if a.len() == 0 && b.len() == 0 {
        assert(a =~= b);
    } else {
        lemma_irreflexive(a);
    }
}

proof fn lemma_irreflexive(a: Seq<char>)
    ensures
        !precedes(a, a),
    decreases a.len(),
{
    if a.len() > 0 {
        lemma_irreflexive(a.drop_first());
    }
}

/// The order is transitive.
pub proof fn lemma_order_transitive(a: Seq<char>, b: Seq<char>, c: Seq<char>)
    requires
        precedes(a, b),
        precedes(b, c),
    ensures
        precedes(a, c),
    decreases a.len(),
{
    if a.len() > 0 && a[0] == b[0] && b[0] == c[0] {
        lemma_order_transitive(a.drop_first(), b.drop_first(), c.drop_first());
    }
}

/// Where two sequences agree up to `i`, their order is that of the rests.
proof fn lemma_common_prefix(a: Seq<char>, b: Seq<char>, i: int)
    requires
        0 <= i <= a.len(),
        i <= b.len(),
        forall|j: int| 0 <= j < i ==> a[j] == b[j],
    ensures
        precedes(a, b) == precedes(a.skip(i), b.skip(i)),
    decreases i,
{
    if i == 0 {
        assert(a.skip(0) =~= a);
        assert(b.skip(0) =~= b);
    } else {
        lemma_common_prefix(a.drop_first(), b.drop_first(), i - 1);
        assert(a.drop_first().skip(i - 1) =~= a.skip(i));
        assert(b.drop_first().skip(i - 1) =~= b.skip(i));
    }
}

/// Whether the two strings have the same characters.
pub fn same(a: &str, b: &str) -> (r: bool)
    ensures
        r == (a@ == b@),
{
    let n: usize = a.unicode_len();
    if n != b.unicode_len() {
        return false;
    }
    let mut i: usize = 0;
    while i < n
        invariant
            n == a@.len(),
            n == b@.len(),
            i <= n,
            forall|j: int| 0 <= j < i ==> a@[j] == b@[j],
        decreases n - i,
    {
        if a.get_char(i) != b.get_char(i) {
            return false;
        }
        i += 1;
    }
    assert(a@ =~= b@);
    true
}

/// Whether `a` comes before `b`.
pub fn before(a: &str, b: &str) -> (r: bool)
    ensures
        r == precedes(a@, b@),
{
    let n: usize = a.unicode_len();
    let m: usize = b.unicode_len();
    let mut i: usize = 0;
    while i < n && i < m
        invariant
            n == a@.len(),
            m == b@.len(),
            i <= n,
            i <= m,
            forall|j: int| 0 <= j < i ==> a@[j] == b@[j],
        decreases n - i,
    {
        let x: char = a.get_char(i);
        let y: char = b.get_char(i);
        if x != y {
            proof {
                lemma_common_prefix(a@, b@, i as int);
            }
            return (x as u32) < (y as u32);
        }
        i += 1;
    }
    proof {
        lemma_common_prefix(a@, b@, i as int);
    }
    n < m
}

/// The decimal digit `d`.
pub open spec fn digit(d: nat) -> char {
    ('0' as u32 + d) as char
}

/// The number `n` in decimal, without leading zeros.
pub open spec fn decimal(n: nat) -> Seq<char>
    decreases n,
{
    if n < 10 {
        seq![digit(n)]
    } else {
        decimal(n / 10).push(digit(n % 10))
    }
}

/// `s` filled up on the left with `fill` to at least `width` characters.
pub open spec fn padded(s: Seq<char>, fill: char, width: nat) -> Seq<char> {
    if s.len() >= width {
        s
    } else {
        Seq::new((width - s.len()) as nat, |i: int| fill) + s
    }
}

/// Appends the decimal digit `d`.
fn push_digit(out: &mut String, d: u64)
    requires
        d < 10,
    ensures
        final(out)@ == old(out)@.push(digit(d as nat)),
{
    let s: &str = match d {
        0 => "0",
        1 => "1",
        2 => "2",
        3 => "3",
        4 => "4",
        5 => "5",
        6 => "6",
        7 => "7",
        8 => "8",
        _ => "9",
    };
    proof {
        reveal_strlit("0");
        reveal_strlit("1");
        reveal_strlit("2");
        reveal_strlit("3");
        reveal_strlit("4");
        reveal_strlit("5");
        reveal_strlit("6");
        reveal_strlit("7");
        reveal_strlit("8");
        reveal_strlit("9");
        assert(s@ =~= seq![digit(d as nat)]);
    }
    out.append(s);
    assert(old(out)@ + s@ =~= old(out)@.push(digit(d as nat)));
}

/// Appends `n` in decimal.
pub fn push_decimal(out: &mut String, n: u64)
    ensures
        final(out)@ == old(out)@ + decimal(n as nat),
    decreases n,
{
    if n >= 10 {
        push_decimal(out, n / 10);
    }
    let ghost mid = out@;
    push_digit(out, n % 10);
    proof {
        if n >= 10 {
            assert(mid.push(digit((n % 10) as nat)) =~= old(out)@ + decimal((n / 10) as nat).push(
                digit((n % 10) as nat),
            ));
        } else {
            assert(mid.push(digit(n as nat)) =~= old(out)@ + seq![digit(n as nat)]);
        }
    }
}

/// The hexadecimal digit `d`.
pub open spec fn hex_digit(d: nat) -> char {
    if d < 10 {
        digit(d)
    } else {
        ('a' as u32 + d - 10) as char
    }
}

/// The number `n` in hexadecimal, without leading zeros.
pub open spec fn hexadecimal(n: nat) -> Seq<char>
    decreases n,
{
    if n < 16 {
        seq![hex_digit(n)]
    } else {
        hexadecimal(n / 16).push(hex_digit(n % 16))
    }
}

/// Appends the hexadecimal digit `d`.
fn push_hex_digit(out: &mut String, d: u64)
    requires
        d < 16,
    ensures
        final(out)@ == old(out)@.push(hex_digit(d as nat)),
{
    if d < 10 {
        push_digit(out, d);
        return;
    }
    let s: &str = match d {
        10 => "a",
        11 => "b",
        12 => "c",
        13 => "d",
        14 => "e",
        _ => "f",
    };
    proof {
        reveal_strlit("a");
        reveal_strlit("b");
        reveal_strlit("c");
        reveal_strlit("d");
        reveal_strlit("e");
        reveal_strlit("f");
        assert(s@ =~= seq![hex_digit(d as nat)]);
    }
    out.append(s);
    assert(old(out)@ + s@ =~= old(out)@.push(hex_digit(d as nat)));
}

/// Appends `n` in hexadecimal.
pub fn push_hexadecimal(out: &mut String, n: u64)
    ensures
        final(out)@ == old(out)@ + hexadecimal(n as nat),
    decreases n,
{
    if n >= 16 {
        push_hexadecimal(out, n / 16);
    }
    let ghost mid = out@;
    push_hex_digit(out, n % 16);
    proof {
        let last = hex_digit((n % 16) as nat);
        if n >= 16 {
            assert(mid.push(last) =~= old(out)@ + hexadecimal((n / 16) as nat).push(last));
        } else {
            assert(mid.push(last) =~= old(out)@ + seq![last]);
        }
    }
}

/// `n` in decimal.
pub fn decimal_of(n: u64) -> (r: String)
    ensures
        r@ == decimal(n as nat),
{
    let mut s = String::new();
    push_decimal(&mut s, n);
    assert(Seq::<char>::empty() + decimal(n as nat) =~= decimal(n as nat));
    s
}

/// Appends `n` in decimal, filled up with zeros to `width` digits.
pub fn push_zero_padded(out: &mut String, n: u64, width: usize)
    ensures
        final(out)@ == old(out)@ + padded(decimal(n as nat), '0', width as nat),
{
    proof {
        reveal_strlit("0");
    }
    push_padded(out, n, width, "0");
}

/// Appends `n` in decimal, filled up with spaces to `width` characters.
pub fn push_space_padded(out: &mut String, n: u64, width: usize)
    ensures
        final(out)@ == old(out)@ + padded(decimal(n as nat), ' ', width as nat),
{
    proof {
        reveal_strlit(" ");
    }
    push_padded(out, n, width, " ");
}

/// Appends a text, right-aligned in `width` characters.
pub fn push_text_padded(out: &mut String, s: &str, width: usize)
    ensures
        final(out)@ == old(out)@ + padded(s@, ' ', width as nat),
{
    let n: usize = s.unicode_len();
    let mut k: usize = n;
    while k < width
        invariant
            n == s@.len(),
            n <= k,
            n >= width ==> k == n,
            n < width ==> k <= width,
            out@ == old(out)@ + Seq::new((k - n) as nat, |i: int| ' '),
        decreases width - k,
    {
        out.push(' ');
        k += 1;
        assert(out@ =~= old(out)@ + Seq::new((k - n) as nat, |i: int| ' '));
    }
    out.append(s);
    assert(out@ =~= old(out)@ + padded(s@, ' ', width as nat));
}

fn push_padded(out: &mut String, n: u64, width: usize, fill: &str)
    requires
        fill@.len() == 1,
    ensures
        final(out)@ == old(out)@ + padded(decimal(n as nat), fill@[0], width as nat),
{
    let digits = decimal_of(n);
    let len: usize = digits.as_str().unicode_len();
    let mut i: usize = len;
    let ghost pad: Seq<char> = Seq::empty();
    while i < width
        invariant
            len <= i,
            i <= width || i == len,
            fill@.len() == 1,
            pad == Seq::new((i - len) as nat, |k: int| fill@[0]),
            out@ == old(out)@ + pad,
        decreases width - i,
    {
        out.append(fill);
        proof {
            let next = Seq::new((i + 1 - len) as nat, |k: int| fill@[0]);
            assert(next =~= pad + fill@);
            assert(old(out)@ + pad + fill@ =~= old(out)@ + (pad + fill@));
            pad = next;
        }
        i += 1;
    }
    out.append(digits.as_str());
    proof {
        if len >= width {
            assert(pad =~= Seq::<char>::empty());
            assert(old(out)@ + pad + digits@ =~= old(out)@ + digits@);
        } else {
            assert(old(out)@ + pad + digits@ =~= old(out)@ + (pad + digits@));
        }
    }
}

/// A character takes one to four bytes.
pub proof fn lemma_encoded_len(s: Seq<char>)
    ensures
        s.len() <= encode_utf8(s).len() <= 4 * s.len(),
    decreases s.len(),
{
    if s.len() > 0 {
        lemma_encoded_len(s.drop_first());
    }
}

/// The bytes of two strings one after the other.
pub proof fn lemma_encoded_concat(a: Seq<char>, b: Seq<char>)
    ensures
        encode_utf8(a + b) == encode_utf8(a) + encode_utf8(b),
    decreases a.len(),
{
    if a.len() == 0 {
        assert(a + b =~= b);
        assert(encode_utf8(a) + encode_utf8(b) =~= encode_utf8(b));
    } else {
        lemma_encoded_concat(a.drop_first(), b);
        assert((a + b).drop_first() =~= a.drop_first() + b);
        assert(encode_utf8(a + b) =~= encode_utf8(a) + encode_utf8(b));
    }
}

/// The length of a string in bytes.
pub fn byte_len(s: &str) -> (r: usize)
    ensures
        r == encode_utf8(s@).len(),
{
    s.as_bytes().len()
}

/// How many bytes a character takes.
pub open spec fn width(c: char) -> int {
    let code = c as u32;
    if code < 0x80 {
        1
    } else if code < 0x800 {
        2
    } else if code < 0x1_0000 {
        3
    } else {
        4
    }
}

/// How many bytes the first `k` characters take.
pub open spec fn offset(s: Seq<char>, k: int) -> int {
    encode_utf8(s.take(k)).len() as int
}

/// A character starts at byte `at`, or the string ends there.
pub open spec fn is_boundary(s: Seq<char>, at: int) -> bool {
    exists|k: int| 0 <= k <= s.len() && #[trigger] offset(s, k) == at
}

/// How many characters stand before byte `at`.
pub open spec fn place(s: Seq<char>, at: int) -> int {
    choose|k: int| 0 <= k <= s.len() && #[trigger] offset(s, k) == at
}

/// Each character moves the offset on by its own width.
pub proof fn lemma_offset_step(s: Seq<char>, k: int)
    requires
        0 <= k < s.len(),
    ensures
        offset(s, k + 1) == offset(s, k) + width(s[k]),
{
    let one = seq![s[k]];
    assert(s.take(k + 1) =~= s.take(k) + one);
    lemma_encoded_concat(s.take(k), one);
    char_is_scalar(s[k]);
    assert(one.drop_first() =~= Seq::<char>::empty());
    reveal_with_fuel(encode_utf8, 2);
    assert(encode_utf8(one) =~= encode_scalar(s[k] as u32));
}

/// More characters take more bytes.
pub proof fn lemma_offset_grows(s: Seq<char>, j: int, k: int)
    requires
        0 <= j < k <= s.len(),
    ensures
        offset(s, j) + (k - j) <= offset(s, k),
    decreases k - j,
{
    lemma_offset_step(s, k - 1);
    if j < k - 1 {
        lemma_offset_grows(s, j, k - 1);
    }
}

/// A boundary has one place.
pub proof fn lemma_place(s: Seq<char>, k: int)
    requires
        0 <= k <= s.len(),
    ensures
        is_boundary(s, offset(s, k)),
        place(s, offset(s, k)) == k,
{
    let p = place(s, offset(s, k));
    if p < k {
        lemma_offset_grows(s, p, k);
    } else if k < p {
        lemma_offset_grows(s, k, p);
    }
}

/// The number of characters before a boundary.
pub fn char_index(s: &str, at: usize) -> (r: usize)
    requires
        is_boundary(s@, at as int),
    ensures
        r == place(s@, at as int),
        r <= s@.len(),
        offset(s@, r as int) == at,
{
    let mut k: usize = 0;
    let mut seen: usize = 0;
    let ghost goal = place(s@, at as int);
    proof {
        assert(s@.take(0) =~= Seq::<char>::empty());
    }
    for ch in it: s.chars()
        invariant
            it.seq() == s@,
            k == it.index(),
            k <= goal <= s@.len(),
            seen == offset(s@, k as int),
            at == offset(s@, goal),
            goal == place(s@, at as int),
    {
        proof {
            lemma_place(s@, k as int);
        }
        if seen == at {
            return k;
        }
        proof {
            lemma_offset_step(s@, k as int);
            lemma_offset_grows(s@, k as int, goal);
            if k + 1 < goal {
                lemma_offset_grows(s@, k + 1, goal);
            }
            lemma_offset_grows(s@, 0, goal);
        }
        let code: u32 = ch as u32;
        let w: usize = if code < 0x80 {
            1
        } else if code < 0x800 {
            2
        } else if code < 0x1_0000 {
            3
        } else {
            4
        };
        seen += w;
        k += 1;
    }
    k
}

/// The characters from place `from` up to place `to`.
pub fn part(s: &str, from: usize, to: usize) -> (r: String)
    requires
        from <= to <= s@.len(),
    ensures
        r@ == s@.subrange(from as int, to as int),
{
    let mut out = String::new();
    let mut k: usize = 0;
    assert(s@.subrange(from as int, from as int) =~= Seq::<char>::empty());
    for ch in it: s.chars()
        invariant
            it.seq() == s@,
            k == it.index(),
            from <= to <= s@.len(),
            k <= to,
            k <= from ==> out@ == Seq::<char>::empty(),
            from <= k ==> out@ == s@.subrange(from as int, k as int),
    {
        if k == to {
            return out;
        }
        if from <= k {
            out.push(ch);
            proof {
                assert(out@ =~= s@.subrange(from as int, k + 1));
            }
        }
        k += 1;
        proof {
            if k == from {
                assert(out@ =~= s@.subrange(from as int, k as int));
            }
        }
    }
    out
}

/// A number with its sign, where it is negative, in decimal digits.
pub open spec fn signed(n: int) -> Seq<char> {
    if n < 0 {
        seq!['-'] + decimal((-n) as nat)
    } else {
        decimal(n as nat)
    }
}

/// Appends a number with its sign.
pub fn push_signed(out: &mut String, n: i32)
    ensures
        final(out)@ == old(out)@ + signed(n as int),
{
    if n < 0 {
        out.push('-');
        push_decimal(out, (-(n as i64)) as u64);
        assert(out@ =~= old(out)@ + signed(n as int));
    } else {
        push_decimal(out, n as u64);
    }
}

/// The number that decimal digits stand for.
pub open spec fn value(s: Seq<char>) -> int
    decreases s.len(),
{
    if s.len() == 0 {
        0
    } else {
        value(s.drop_last()) * 10 + (s.last() as int - '0' as int)
    }
}

/// A number can be read back from its digits.
pub proof fn lemma_decimal_value(n: nat)
    ensures
        value(decimal(n)) == n,
    decreases n,
{
    reveal_with_fuel(value, 2);
    if n < 10 {
        assert(decimal(n).drop_last() =~= Seq::<char>::empty());
    } else {
        lemma_decimal_value(n / 10);
        assert(decimal(n).drop_last() =~= decimal(n / 10));
    }
}

/// Zeros in front change nothing.
proof fn lemma_zeros_value(k: nat, s: Seq<char>)
    ensures
        value(Seq::new(k, |i: int| '0') + s) == value(s),
    decreases k + s.len(),
{
    let zeros = Seq::new(k, |i: int| '0');
    if s.len() > 0 {
        lemma_zeros_value(k, s.drop_last());
        assert((zeros + s).drop_last() =~= zeros + s.drop_last());
        assert((zeros + s).last() == s.last());
    } else if k > 0 {
        let fewer = Seq::new((k - 1) as nat, |i: int| '0');
        lemma_zeros_value((k - 1) as nat, s);
        assert((zeros + s).drop_last() =~= fewer + s);
        assert((zeros + s).last() == '0');
    } else {
        assert(zeros + s =~= s);
    }
}

/// Different numbers have different digits, whatever zeros are in front.
pub proof fn lemma_zero_padded_differ(a: nat, b: nat, width: nat)
    requires
        a != b,
    ensures
        padded(decimal(a), '0', width) != padded(decimal(b), '0', width),
{
    lemma_decimal_value(a);
    lemma_decimal_value(b);
    if decimal(a).len() < width {
        lemma_zeros_value((width - decimal(a).len()) as nat, decimal(a));
    }
    if decimal(b).len() < width {
        lemma_zeros_value((width - decimal(b).len()) as nat, decimal(b));
    }
}

/// The quotient, rounded; a half is rounded to the even number.
pub open spec fn half_even(num: int, den: int) -> int {
    let (q, r) = (num / den, num % den);
    if 2 * r > den || (2 * r == den && q % 2 == 1) {
        q + 1
    } else {
        q
    }
}

/// Ten to the power of `places`.
pub open spec fn tens(places: nat) -> int
    decreases places,
{
    if places == 0 {
        1
    } else {
        10 * tens((places - 1) as nat)
    }
}

/// A quotient with that many decimal places.
pub open spec fn fixed(num: int, den: int, places: nat) -> Seq<char> {
    let q = half_even(num * tens(places), den);
    decimal((q / tens(places)) as nat) + "."@ + padded(
        decimal((q % tens(places)) as nat),
        '0',
        places,
    )
}

/// Appends a quotient with one or two decimal places.
pub fn push_fixed(out: &mut String, num: u128, den: u64, places: usize)
    requires
        den > 0,
        1 <= places <= 2,
        num * 100 <= u128::MAX,
        num / (den as u128) < u64::MAX,
    ensures
        final(out)@ == old(out)@ + fixed(num as int, den as int, places as nat),
{
    reveal_with_fuel(tens, 3);
    let unit: u128 = if places == 1 {
        10
    } else {
        100
    };
    assert(unit == tens(places as nat));
    assert(num * unit <= u128::MAX) by (nonlinear_arith)
        requires
            num * 100 <= u128::MAX,
            unit <= 100,
    ;
    let d: u128 = den as u128;
    let scaled: u128 = num * unit;
    let q: u128 = scaled / d;
    let r: u128 = scaled % d;
    let k: u128 = num / d;
    assert(q < (k + 1) * unit && q + 1 <= u128::MAX && r < d) by (nonlinear_arith)
        requires
            q == scaled / d,
            r == scaled % d,
            k == num / d,
            scaled == num * unit,
            num * 100 <= u128::MAX,
            10 <= unit <= 100,
            0 < d <= u64::MAX,
            k < u64::MAX,
    ;
    let n: u128 = if 2 * r > d || (2 * r == d && q % 2 == 1) {
        q + 1
    } else {
        q
    };
    assert(n == half_even(num * tens(places as nat), den as int));
    let whole: u128 = n / unit;
    let rest: u128 = n % unit;
    assert(whole <= k + 1 && rest < unit) by (nonlinear_arith)
        requires
            n <= (k + 1) * unit,
            whole == n / unit,
            rest == n % unit,
            unit > 0,
    ;
    push_decimal(out, whole as u64);
    out.append(".");
    push_zero_padded(out, rest as u64, places);
    assert(out@ =~= old(out)@ + fixed(num as int, den as int, places as nat));
}

/// What a digit stands for, from `0` to `9` and from `a` to `f`.
pub open spec fn digit_value(c: char) -> int {
    if '0' as int <= c as int <= '9' as int {
        c as int - '0' as int
    } else {
        c as int - 'a' as int + 10
    }
}

/// The number that digits stand for to a base.
pub open spec fn number(s: Seq<char>, base: int) -> int
    decreases s.len(),
{
    if s.len() == 0 {
        0
    } else {
        number(s.drop_last(), base) * base + digit_value(s.last())
    }
}

/// A number is written in decimal and in hexadecimal with the digits that stand for it, and
/// without a zero in front but for zero itself.
pub proof fn law_digits_stand_for_the_number(n: nat)
    ensures
        number(decimal(n), 10) == n,
        decimal(n).len() > 0,
        n > 0 ==> decimal(n)[0] != '0',
        n == 0 ==> decimal(n) == seq!['0'],
        forall|i: int|
            0 <= i < decimal(n).len() ==> '0' as int <= #[trigger] decimal(n)[i] as int
                <= '9' as int,
    decreases n,
{
    let d = decimal(n);
    if n < 10 {
        assert(d.drop_last() =~= Seq::<char>::empty());
        assert(number(d.drop_last(), 10) == 0);
        assert(d.last() == digit(n));
    } else {
        law_digits_stand_for_the_number(n / 10);
        assert(d.drop_last() =~= decimal(n / 10));
        assert(d[0] == decimal(n / 10)[0]);
    }
}

/// A number is written in hexadecimal with the small digits that stand for it, and without
/// a zero in front but for zero itself.
pub proof fn law_hex_digits_stand_for_the_number(n: nat)
    ensures
        number(hexadecimal(n), 16) == n,
        hexadecimal(n).len() > 0,
        n > 0 ==> hexadecimal(n)[0] != '0',
        forall|i: int|
            0 <= i < hexadecimal(n).len() ==> '0' as int <= #[trigger] hexadecimal(n)[i] as int
                <= '9' as int || 'a' as int <= hexadecimal(n)[i] as int <= 'f' as int,
    decreases n,
{
    let d = hexadecimal(n);
    if n < 16 {
        assert(d.drop_last() =~= Seq::<char>::empty());
        assert(number(d.drop_last(), 16) == 0);
        assert(d.last() == hex_digit(n));
    } else {
        law_hex_digits_stand_for_the_number(n / 16);
        assert(d.drop_last() =~= hexadecimal(n / 16));
        assert(d[0] == hexadecimal(n / 16)[0]);
    }
}

/// What is pushed to a text comes behind it: the decimal or hexadecimal digits of a number,
/// or a sign before them where it is below zero.
pub proof fn law_pushed_number_comes_behind(
    a: &mut String,
    n: u64,
    b: &mut String,
    c: &mut String,
    k: i32,
)
    requires
        call_ensures(push_decimal, (a, n), ()),
        call_ensures(push_hexadecimal, (b, n), ()),
        call_ensures(push_signed, (c, k), ()),
    ensures
        final(a)@.take(old(a)@.len() as int) == old(a)@,
        number(final(a)@.skip(old(a)@.len() as int), 10) == n,
        final(b)@.take(old(b)@.len() as int) == old(b)@,
        number(final(b)@.skip(old(b)@.len() as int), 16) == n,
        final(c)@.take(old(c)@.len() as int) == old(c)@,
        k >= 0 ==> number(final(c)@.skip(old(c)@.len() as int), 10) == k,
        k < 0 ==> final(c)@[old(c)@.len() as int] == '-' && number(
            final(c)@.skip(old(c)@.len() + 1 as int),
            10,
        ) == -k,
{
    law_digits_stand_for_the_number(n as nat);
    law_hex_digits_stand_for_the_number(n as nat);
    assert(final(a)@.take(old(a)@.len() as int) =~= old(a)@);
    assert(final(a)@.skip(old(a)@.len() as int) =~= decimal(n as nat));
    assert(final(b)@.take(old(b)@.len() as int) =~= old(b)@);
    assert(final(b)@.skip(old(b)@.len() as int) =~= hexadecimal(n as nat));
    assert(final(c)@.take(old(c)@.len() as int) =~= old(c)@);
    if k >= 0 {
        law_digits_stand_for_the_number(k as nat);
        assert(final(c)@.skip(old(c)@.len() as int) =~= decimal(k as nat));
    } else {
        let m = (-k) as nat;
        law_digits_stand_for_the_number(m);
        assert(final(c)@.skip(old(c)@.len() + 1 as int) =~= decimal(m));
    }
}

/// A text that is filled up in front has the width that was asked for, or its own where it
/// is wider; it stands at the end, behind the fill.
pub proof fn law_filled_text_stands_at_the_end(s: Seq<char>, fill: char, width: nat, i: int)
    ensures
        ({
            let p = padded(s, fill, width);
            &&& p.len() == (if s.len() < width {
                width
            } else {
                s.len()
            })
            &&& p.skip(p.len() - s.len()) == s
            &&& 0 <= i < p.len() - s.len() ==> p[i] == fill
        }),
{
    let p = padded(s, fill, width);
    assert(p.skip(p.len() - s.len()) =~= s);
}

/// Filled numbers are filled with zeros or with spaces, and filled texts with spaces.
pub proof fn law_fill_is_what_is_said(
    a: &mut String,
    b: &mut String,
    c: &mut String,
    n: u64,
    s: &str,
    width: usize,
    i: int,
)
    requires
        call_ensures(push_zero_padded, (a, n, width), ()),
        call_ensures(push_space_padded, (b, n, width), ()),
        call_ensures(push_text_padded, (c, s, width), ()),
    ensures
        ({
            let na = final(a)@.len() - old(a)@.len();
            let nb = final(b)@.len() - old(b)@.len();
            let nc = final(c)@.len() - old(c)@.len();
            let digits = decimal(n as nat).len();
            &&& na == nb
            &&& na >= width && na >= digits && (na == width || na == digits)
            &&& nc >= width && nc >= s@.len() && (nc == width || nc == s@.len())
            &&& 0 <= i < na - digits ==> final(a)@[old(a)@.len() + i] == '0' && final(b)@[old(
                b)@.len() + i] == ' '
            &&& 0 <= i < nc - s@.len() ==> final(c)@[old(c)@.len() + i] == ' '
            &&& final(c)@.skip(final(c)@.len() - s@.len()) == s@
            &&& final(a)@.skip(final(a)@.len() - digits) == decimal(n as nat)
            &&& final(b)@.skip(final(b)@.len() - digits) == decimal(n as nat)
        }),
{
    let d = decimal(n as nat);
    assert(final(a)@.skip(final(a)@.len() - d.len()) =~= d);
    assert(final(b)@.skip(final(b)@.len() - d.len()) =~= d);
    assert(final(c)@.skip(final(c)@.len() - s@.len()) =~= s@);
}

/// A quotient is rounded to the nearest whole number, and where two are as near to the even
/// one.
pub proof fn law_quotient_is_rounded_to_nearest(num: int, den: int)
    requires
        den > 0,
        num >= 0,
    ensures
        -den <= 2 * (half_even(num, den) * den - num) <= den,
        2 * (half_even(num, den) * den - num) == den || 2 * (half_even(num, den) * den - num)
            == -den ==> half_even(num, den) % 2 == 0,
{
    let (q, r) = (num / den, num % den);
    vstd::arithmetic::div_mod::lemma_fundamental_div_mod(num, den);
    assert(q * den == den * q) by (nonlinear_arith);
    assert((q + 1) * den == q * den + den) by (nonlinear_arith);
}

/// A fraction is written with as many places as are asked for behind the point, so that
/// without the point it is the quotient of tens or hundreds of the fraction, rounded to
/// nearest.
pub proof fn law_fraction_has_its_places(num: int, den: int, places: nat)
    requires
        den > 0,
        num >= 0,
        1 <= places <= 2,
    ensures
        ({
            let s = fixed(num, den, places);
            let point = s.len() - places - 1;
            let scale: int = if places == 1 {
                10
            } else {
                100
            };
            &&& point > 0
            &&& s[point] == '.'
            &&& number(s.take(point), 10) * scale + number(s.skip(point + 1), 10) == half_even(
                num * scale,
                den,
            )
        }),
{
    let scale: int = if places == 1 {
        10
    } else {
        100
    };
    reveal_with_fuel(tens, 3);
    assert(tens(places) == scale);
    let q = half_even(num * scale, den);
    assert(num * scale >= 0) by (nonlinear_arith)
        requires
            num >= 0,
            scale > 0,
    ;
    law_quotient_is_rounded_to_nearest(num * scale, den);
    assert(q >= 0) by (nonlinear_arith)
        requires
            2 * (q * den - num * scale) >= -den,
            num * scale >= 0,
            den > 0,
    ;
    let (whole, part) = ((q / scale) as nat, (q % scale) as nat);
    law_digits_stand_for_the_number(whole);
    law_digits_stand_for_the_number(part);
    let s = fixed(num, den, places);
    let p = padded(decimal(part), '0', places);
    reveal_strlit(".");
    lemma_few_digits(part);
    assert(p.len() == places);
    let point = s.len() - places - 1;
    assert(s =~= decimal(whole) + "."@ + p);
    assert(s.take(point) =~= decimal(whole));
    assert(s.skip(point + 1) =~= p);
    lemma_zeros_in_front(decimal(part), places);
    let w = number(s.take(point), 10);
    assert(w == whole);
    assert(w * scale == if places == 1 {
        w * 10
    } else {
        w * 100
    }) by (nonlinear_arith)
        requires
            scale == if places == 1 {
                10int
            } else {
                100int
            },
    ;
    assert(q == (q / 10) * 10 + q % 10);
    assert(q == (q / 100) * 100 + q % 100);
}

/// Numbers below ten have one digit and those below a hundred at most two.
proof fn lemma_few_digits(n: nat)
    ensures
        n < 10 ==> decimal(n).len() == 1,
        n < 100 ==> decimal(n).len() <= 2,
{
    reveal_with_fuel(decimal, 3);
}

/// Zeros in front of digits do not change the number.
proof fn lemma_zeros_in_front(s: Seq<char>, width: nat)
    ensures
        number(padded(s, '0', width), 10) == number(s, 10),
    decreases s.len() + width,
{
    let p = padded(s, '0', width);
    if s.len() < width {
        if s.len() == 0 {
            lemma_only_zeros(p);
        } else {
            let rest = padded(s.drop_last(), '0', (width - 1) as nat);
            assert(p.drop_last() =~= rest);
            assert(p.last() == s.last());
            lemma_zeros_in_front(s.drop_last(), (width - 1) as nat);
        }
    }
}

proof fn lemma_only_zeros(p: Seq<char>)
    requires
        forall|i: int| 0 <= i < p.len() ==> #[trigger] p[i] == '0',
    ensures
        number(p, 10) == 0,
    decreases p.len(),
{
    if p.len() > 0 {
        assert(p.last() == p[p.len() - 1]);
        lemma_only_zeros(p.drop_last());
    }
}

/// Texts are the same where their characters are, and of two others one comes first: the
/// one that has the lesser character where they first differ, or that ends there.
pub proof fn law_first_difference_decides(
    a: &str,
    b: &str,
    equal: bool,
    less: bool,
    k: int,
)
    requires
        call_ensures(same, (a, b), equal),
        call_ensures(before, (a, b), less),
        0 <= k <= a@.len(),
        k <= b@.len(),
        forall|i: int| 0 <= i < k ==> #[trigger] a@[i] == b@[i],
    ensures
        equal <==> a@ == b@,
        k < a@.len() && k < b@.len() && a@[k] != b@[k] ==> (less <==> (a@[k] as int) < (
        b@[k] as int)),
        k == a@.len() && k < b@.len() ==> less,
        k == b@.len() ==> !less,
{
    lemma_first_difference(a@, b@, k);
}

proof fn lemma_first_difference(a: Seq<char>, b: Seq<char>, k: int)
    requires
        0 <= k <= a.len(),
        k <= b.len(),
        forall|i: int| 0 <= i < k ==> #[trigger] a[i] == b[i],
    ensures
        k < a.len() && k < b.len() && a[k] != b[k] ==> (precedes(a, b) <==> (a[k] as int) < (
        b[k] as int)),
        k == a.len() && k < b.len() ==> precedes(a, b),
        k == b.len() ==> !precedes(a, b),
    decreases k,
{
    if k > 0 {
        assert(a[0] == b[0]);
        let (x, y) = (a.drop_first(), b.drop_first());
        assert forall|i: int| 0 <= i < k - 1 implies #[trigger] x[i] == y[i] by {
            assert(a[i + 1] == b[i + 1]);
        }
        lemma_first_difference(x, y, k - 1);
    }
}

/// A part of a text has the characters between its ends, and a place in a text in bytes is
/// behind as many characters as have so many bytes.
pub proof fn law_part_is_between_its_ends(
    s: &str,
    from: usize,
    to: usize,
    r: String,
    bytes: usize,
    i: int,
)
    requires
        from <= to <= s@.len(),
        call_ensures(part, (s, from, to), r),
        call_ensures(byte_len, (s,), bytes),
        0 <= i < to - from,
    ensures
        r@.len() == to - from,
        r@[i] == s@[from + i],
        bytes == encode_utf8(s@).len(),
{
}

/// The part stands somewhere in the text.
#[verifier::opaque]
pub open spec fn tells(text: Seq<char>, part: Seq<char>) -> bool {
    exists|i: int|
        0 <= i <= text.len() - part.len() && #[trigger] text.subrange(i, i + part.len()) == part
}

/// The first pieces of a text, one behind the other.
pub open spec fn put_together(pieces: Seq<Seq<char>>, n: int) -> Seq<char>
    decreases n,
{
    if n <= 1 {
        pieces[0]
    } else {
        put_together(pieces, n - 1) + pieces[n - 1]
    }
}

/// A text tells each two pieces together that it has one behind the other.
pub proof fn lemma_tells(pieces: Seq<Seq<char>>, n: int, i: int)
    requires
        0 <= i,
        i + 2 <= n,
    ensures
        tells(put_together(pieces, n), pieces[i] + pieces[i + 1]),
    decreases n,
{
    reveal(tells);
    let text = put_together(pieces, n);
    let rest = put_together(pieces, n - 1);
    let part = pieces[i] + pieces[i + 1];
    if i + 2 == n {
        let k = rest.len() - pieces[i].len();
        if i == 0 {
            assert(rest == pieces[0]);
        } else {
            assert(rest == put_together(pieces, n - 2) + pieces[i]);
        }
        assert(text.subrange(k, k + part.len()) =~= part);
    } else {
        lemma_tells(pieces, n - 1, i);
        let k = choose|k: int|
            0 <= k <= rest.len() - part.len() && #[trigger] rest.subrange(k, k + part.len())
                == part;
        assert(text.subrange(k, k + part.len()) =~= part);
    }
}

} // verus!
