use vstd::prelude::*;

verus! {

/// `c` is one of the decimal digits `0` to `9`.
pub open spec fn is_dec_digit(c: char) -> bool {
    48 <= c as u32 <= 57
}

/// Numeric value of the decimal digit `c`.
pub open spec fn dec_digit_val(c: char) -> nat {
    (c as u32 - 48) as nat
}

/// `c` is a hexadecimal digit, in either case.
pub open spec fn is_hex_digit(c: char) -> bool {
    is_dec_digit(c) || 97 <= c as u32 <= 102 || 65 <= c as u32 <= 70
}

/// Numeric value of the hexadecimal digit `c`.
pub open spec fn hex_digit_val(c: char) -> nat {
    if is_dec_digit(c) {
        dec_digit_val(c)
    } else if 97 <= c as u32 <= 102 {
        (c as u32 - 87) as nat
    } else {
        (c as u32 - 55) as nat
    }
}

/// Every character of `s` is a decimal digit.
pub open spec fn all_dec_digits(s: Seq<char>) -> bool {
    forall|i: int| 0 <= i < s.len() ==> is_dec_digit(#[trigger] s[i])
}

/// Every character of `s` is a hexadecimal digit.
pub open spec fn all_hex_digits(s: Seq<char>) -> bool {
    forall|i: int| 0 <= i < s.len() ==> is_hex_digit(#[trigger] s[i])
}

/// Ten to the power `k`.
pub open spec fn ten_pow(k: nat) -> nat
    decreases k,
{
    if k == 0 {
        1
    } else {
        10 * ten_pow((k - 1) as nat)
    }
}

/// Sixteen to the power `k`.
pub open spec fn sixteen_pow(k: nat) -> nat
    decreases k,
{
    if k == 0 {
        1
    } else {
        16 * sixteen_pow((k - 1) as nat)
    }
}

proof fn lemma_ten_pow_le(i: nat, j: nat)
    requires
        i <= j,
    ensures
        ten_pow(i) <= ten_pow(j),
    decreases j,
{
    if i < j {
        lemma_ten_pow_le(i, (j - 1) as nat);
    }
}

proof fn lemma_sixteen_pow_le(i: nat, j: nat)
    requires
        i <= j,
    ensures
        sixteen_pow(i) <= sixteen_pow(j),
    decreases j,
{
    if i < j {
        lemma_sixteen_pow_le(i, (j - 1) as nat);
    }
}

/// Value of `s` read as a decimal numeral, most significant digit first.
pub open spec fn dec_value(s: Seq<char>) -> nat
    decreases s.len(),
{
    if s.len() == 0 {
        0
    } else {
        dec_value(s.drop_last()) * 10 + dec_digit_val(s.last())
    }
}

/// Value of `s` read as a hexadecimal numeral, most significant digit first.
pub open spec fn hex_value(s: Seq<char>) -> nat
    decreases s.len(),
{
    if s.len() == 0 {
        0
    } else {
        hex_value(s.drop_last()) * 16 + hex_digit_val(s.last())
    }
}

/// Value of a one-digit numeral.
pub proof fn lemma_dec_value1(s: Seq<char>)
    requires
        s.len() == 1,
    ensures
        dec_value(s) == dec_digit_val(s[0]),
{
    assert(s.drop_last() =~= Seq::<char>::empty());
    assert(dec_value(Seq::<char>::empty()) == 0);
}

/// Value of a two-digit numeral.
pub proof fn lemma_dec_value2(s: Seq<char>)
    requires
        s.len() == 2,
    ensures
        dec_value(s) == dec_digit_val(s[0]) * 10 + dec_digit_val(s[1]),
{
    assert(s.drop_last() =~= s.subrange(0, 1));
    lemma_dec_value1(s.drop_last());
}

/// Value of a three-digit numeral.
pub proof fn lemma_dec_value3(s: Seq<char>)
    requires
        s.len() == 3,
    ensures
        dec_value(s) == (dec_digit_val(s[0]) * 10 + dec_digit_val(s[1])) * 10 + dec_digit_val(
            s[2],
        ),
{
    assert(s.drop_last() =~= s.subrange(0, 2));
    lemma_dec_value2(s.drop_last());
}

/// `c` is a decimal digit.
pub fn dec_digit(c: char) -> (r: bool)
    ensures
        r == is_dec_digit(c),
{
    let u = c as u32;
    48 <= u && u <= 57
}

/// `c` is a hexadecimal digit.
pub fn hex_digit(c: char) -> (r: bool)
    ensures
        r == is_hex_digit(c),
{
    let u = c as u32;
    (48 <= u && u <= 57) || (97 <= u && u <= 102) || (65 <= u && u <= 70)
}

/// Reads `s` as a decimal numeral of at most five digits.
/// Returns the value exactly when `s` is one to five decimal digits.
pub fn parse_dec_u32(s: &Vec<char>) -> (r: Option<u32>)
    ensures
        r matches Some(n) ==> 1 <= s@.len() <= 5 && all_dec_digits(s@) && n == dec_value(s@),
        r is None ==> !(1 <= s@.len() <= 5 && all_dec_digits(s@)),
{
    if s.len() < 1 || s.len() > 5 {
        return None;
    }
    let mut acc: u32 = 0;
    let mut i: usize = 0;
    while i < s.len()
        invariant
            i <= s@.len() <= 5,
            forall|j: int| 0 <= j < i ==> is_dec_digit(#[trigger] s@[j]),
            acc == dec_value(s@.subrange(0, i as int)),
            acc < ten_pow(i as nat),
            acc < 100000,
        decreases s@.len() - i,
    {
        let c = s[i];
        if !dec_digit(c) {
            return None;
        }
        let d = (c as u32) - 48;
        proof {
            let p = s@.subrange(0, i as int + 1);
            assert(p.drop_last() =~= s@.subrange(0, i as int));
            assert(p.last() == s@[i as int]);
        }
        proof {
            lemma_ten_pow_le(i as nat + 1, 5);
            assert(ten_pow(0) == 1);
            assert(ten_pow(1) == 10);
            assert(ten_pow(2) == 100);
            assert(ten_pow(3) == 1000);
            assert(ten_pow(4) == 10000);
            assert(ten_pow(5) == 100000);
        }
        acc = acc * 10 + d;
        i += 1;
    }
    proof {
        assert(s@.subrange(0, i as int) =~= s@);
    }
    Some(acc)
}

/// Reads `s` as a hexadecimal numeral of at most four digits.
/// Returns the value exactly when `s` is one to four hexadecimal digits.
pub fn parse_hex_u16(s: &Vec<char>) -> (r: Option<u16>)
    ensures
        r matches Some(n) ==> 1 <= s@.len() <= 4 && all_hex_digits(s@) && n == hex_value(s@),
        r is None ==> !(1 <= s@.len() <= 4 && all_hex_digits(s@)),
{
    if s.len() < 1 || s.len() > 4 {
        return None;
    }
    let mut acc: u32 = 0;
    let mut i: usize = 0;
    while i < s.len()
        invariant
            i <= s@.len() <= 4,
            forall|j: int| 0 <= j < i ==> is_hex_digit(#[trigger] s@[j]),
            acc == hex_value(s@.subrange(0, i as int)),
            acc < sixteen_pow(i as nat),
            acc < 65536,
        decreases s@.len() - i,
    {
        let c = s[i];
        if !hex_digit(c) {
            return None;
        }
        let u = c as u32;
        let d: u32 = if 48 <= u && u <= 57 {
            u - 48
        } else if 97 <= u && u <= 102 {
            u - 87
        } else {
            u - 55
        };
        proof {
            let p = s@.subrange(0, i as int + 1);
            assert(p.drop_last() =~= s@.subrange(0, i as int));
            assert(p.last() == s@[i as int]);
        }
        proof {
            lemma_sixteen_pow_le(i as nat + 1, 4);
            assert(sixteen_pow(0) == 1);
            assert(sixteen_pow(1) == 16);
            assert(sixteen_pow(2) == 256);
            assert(sixteen_pow(3) == 4096);
            assert(sixteen_pow(4) == 65536);
        }
        acc = acc * 16 + d;
        i += 1;
    }
    proof {
        assert(s@.subrange(0, i as int) =~= s@);
    }
    Some(acc as u16)
}

/// The decimal digit character for a value below ten.
pub open spec fn dec_char_of(d: nat) -> char {
    ((48 + d) as u8) as char
}

/// The lower-case hexadecimal digit character for a value below sixteen.
pub open spec fn hex_char_of(d: nat) -> char {
    if d < 10 {
        dec_char_of(d)
    } else {
        ((87 + d) as u8) as char
    }
}

/// Shortest decimal numeral of `n`, most significant digit first.
pub open spec fn dec_chars_of(n: nat) -> Seq<char>
    decreases n,
{
    if n < 10 {
        seq![dec_char_of(n)]
    } else {
        dec_chars_of(n / 10) + seq![dec_char_of(n % 10)]
    }
}

/// Shortest lower-case hexadecimal numeral of `n`, most significant digit
/// first.
pub open spec fn hex_chars_of(n: nat) -> Seq<char>
    decreases n,
{
    if n < 16 {
        seq![hex_char_of(n)]
    } else {
        hex_chars_of(n / 16) + seq![hex_char_of(n % 16)]
    }
}

/// Writes `n` as its shortest decimal numeral.
pub fn u16_to_dec_chars(n: u16) -> (r: Vec<char>)
    ensures
        r@ == dec_chars_of(n as nat),
    decreases n,
{
    if n < 10 {
        let c = (48 + n as u8) as char;
        let mut r: Vec<char> = Vec::new();
        r.push(c);
        proof {
            assert(r@ =~= seq![dec_char_of(n as nat)]);
        }
        r
    } else {
        let mut r = u16_to_dec_chars(n / 10);
        let c = (48 + (n % 10) as u8) as char;
        let ghost prefix = r@;
        r.push(c);
        proof {
            assert(r@ =~= prefix + seq![dec_char_of((n % 10) as nat)]);
        }
        r
    }
}

/// Writes `n` as its shortest lower-case hexadecimal numeral.
pub fn u16_to_hex_chars(n: u16) -> (r: Vec<char>)
    ensures
        r@ == hex_chars_of(n as nat),
    decreases n,
{
    if n < 16 {
        let d = n as u8;
        let c = if d < 10 {
            (48 + d) as char
        } else {
            (87 + d) as char
        };
        let mut r: Vec<char> = Vec::new();
        r.push(c);
        proof {
            assert(r@ =~= seq![hex_char_of(n as nat)]);
        }
        r
    } else {
        let mut r = u16_to_hex_chars(n / 16);
        let d = (n % 16) as u8;
        let c = if d < 10 {
            (48 + d) as char
        } else {
            (87 + d) as char
        };
        let ghost prefix = r@;
        r.push(c);
        proof {
            assert(r@ =~= prefix + seq![hex_char_of((n % 16) as nat)]);
        }
        r
    }
}

} // verus!
