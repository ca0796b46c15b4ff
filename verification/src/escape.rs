use crate::numbers::{dec_digit, dec_value, is_dec_digit};
use crate::numbers::{lemma_dec_value1, lemma_dec_value2, lemma_dec_value3};
use vstd::prelude::*;

verus! {

/// `s` with every `\.` pair replaced by a literal dot, scanning left to
/// right without overlap, as `str::replace` does.
pub open spec fn undot(s: Seq<char>) -> Seq<char>
    decreases s.len(),
{
    if s.len() == 0 {
        Seq::empty()
    } else if s.len() >= 2 && s[0] == '\\' && s[1] == '.' {
        seq!['.'] + undot(s.skip(2))
    } else {
        seq![s[0]] + undot(s.skip(1))
    }
}

/// How many decimal digits open `s`, capped at three.
pub open spec fn esc_digit_count(s: Seq<char>) -> int {
    if s.len() >= 1 && is_dec_digit(s[0]) {
        if s.len() >= 2 && is_dec_digit(s[1]) {
            if s.len() >= 3 && is_dec_digit(s[2]) {
                3
            } else {
                2
            }
        } else {
            1
        }
    } else {
        0
    }
}

/// Decodes every `\DDD` escape in `s`: a backslash followed by one to three
/// decimal digits (taken greedily) stands for the character with that code.
/// A code above 255 makes the whole decode fail; everything else is passed
/// through unchanged.
pub open spec fn unescape(s: Seq<char>) -> Option<Seq<char>>
    decreases s.len(),
{
    if s.len() == 0 {
        Some(Seq::empty())
    } else if s[0] == '\\' && s.len() >= 2 && is_dec_digit(s[1]) {
        let k = esc_digit_count(s.skip(1));
        let v = dec_value(s.subrange(1, 1 + k));
        if v <= 255 {
            match unescape(s.skip(1 + k)) {
                Some(t) => Some(seq![((v as u8) as char)] + t),
                None => None,
            }
        } else {
            None
        }
    } else {
        match unescape(s.skip(1)) {
            Some(t) => Some(seq![s[0]] + t),
            None => None,
        }
    }
}

/// `o` with `p` put in front of its contents, when it has any.
pub open spec fn opt_prepend(p: Seq<char>, o: Option<Seq<char>>) -> Option<Seq<char>> {
    match o {
        Some(t) => Some(p + t),
        None => None,
    }
}

/// `s` with every `\.` pair replaced by a literal dot.
pub fn undot_chars(v: &Vec<char>) -> (r: Vec<char>)
    ensures
        r@ == undot(v@),
{
    let n = v.len();
    let mut out: Vec<char> = Vec::new();
    let mut i: usize = 0;
    proof {
        assert(v@.skip(0) =~= v@);
        assert(out@ + undot(v@) =~= undot(v@));
    }
    while i < n
        invariant
            n == v@.len(),
            i <= n,
            undot(v@) == out@ + undot(v@.skip(i as int)),
        decreases n - i,
    {
        let ghost old_out = out@;
        let ghost rest = v@.skip(i as int);
        if v[i] == '\\' && i + 1 < n && v[i + 1] == '.' {
            proof {
                assert(rest[0] == '\\' && rest[1] == '.');
                assert(rest.skip(2) =~= v@.skip(i as int + 2));
                assert(undot(rest) == seq!['.'] + undot(v@.skip(i as int + 2)));
            }
            out.push('.');
            i += 2;
            proof {
                assert(out@ =~= old_out + seq!['.']);
                assert(out@ + undot(v@.skip(i as int)) =~= old_out + undot(rest));
            }
        } else {
            proof {
                assert(!(rest.len() >= 2 && rest[0] == '\\' && rest[1] == '.'));
                assert(rest.skip(1) =~= v@.skip(i as int + 1));
                assert(undot(rest) == seq![rest[0]] + undot(v@.skip(i as int + 1)));
            }
            let c = v[i];
            out.push(c);
            i += 1;
            proof {
                assert(out@ =~= old_out + seq![c]);
                assert(out@ + undot(v@.skip(i as int)) =~= old_out + undot(rest));
            }
        }
    }
    proof {
        assert(v@.skip(i as int) =~= Seq::<char>::empty());
        assert(out@ + undot(v@.skip(i as int)) =~= out@);
    }
    out
}

/// Decodes every `\DDD` escape in `v`, failing exactly when some escape
/// names a code above 255.
pub fn unescape_chars(v: &Vec<char>) -> (r: Option<Vec<char>>)
    ensures
        r is Some <==> unescape(v@) is Some,
        r matches Some(out) ==> Some(out@) == unescape(v@),
{
    let n = v.len();
    let mut out: Vec<char> = Vec::new();
    let mut i: usize = 0;
    proof {
        assert(v@.skip(0) =~= v@);
        match unescape(v@) {
            Some(t) => {
                assert(out@ + t =~= t);
            },
            None => {},
        }
        assert(opt_prepend(out@, unescape(v@.skip(0))) == unescape(v@));
    }
    while i < n
        invariant
            n == v@.len(),
            i <= n,
            unescape(v@) == opt_prepend(out@, unescape(v@.skip(i as int))),
        decreases n - i,
    {
        let ghost old_out = out@;
        let ghost rest = v@.skip(i as int);
        if v[i] == '\\' && i + 1 < n && dec_digit(v[i + 1]) {
            proof {
                assert(rest[0] == '\\' && is_dec_digit(rest[1]));
            }
            let d1 = (v[i + 1] as u32) - 48;
            let mut k: usize = 1;
            let mut val: u32 = d1;
            if i + 2 < n && dec_digit(v[i + 2]) {
                val = val * 10 + ((v[i + 2] as u32) - 48);
                k = 2;
                if i + 3 < n && dec_digit(v[i + 3]) {
                    val = val * 10 + ((v[i + 3] as u32) - 48);
                    k = 3;
                }
            }
            proof {
                assert(rest.skip(1) =~= v@.skip(i as int + 1));
                assert(esc_digit_count(rest.skip(1)) == k as int);
                let digits = rest.subrange(1, 1 + k as int);
                if k == 1 {
                    lemma_dec_value1(digits);
                    assert(dec_value(digits) == val);
                } else if k == 2 {
                    lemma_dec_value2(digits);
                    assert(dec_value(digits) == val);
                } else {
                    lemma_dec_value3(digits);
                    assert(dec_value(digits) == val);
                }
            }
            if val > 255 {
                proof {
                    assert(unescape(rest) is None);
                }
                return None;
            }
            let c = (val as u8) as char;
            proof {
                assert(rest.skip(1 + k as int) =~= v@.skip(i as int + 1 + k as int));
                assert(unescape(rest) == opt_prepend(
                    seq![c],
                    unescape(v@.skip(i as int + 1 + k as int)),
                ));
            }
            out.push(c);
            i += 1 + k;
            proof {
                assert(out@ =~= old_out + seq![c]);
                match unescape(v@.skip(i as int)) {
                    Some(t) => {
                        assert(old_out + (seq![c] + t) =~= out@ + t);
                    },
                    None => {},
                }
            }
        } else {
            proof {
                assert(!(rest[0] == '\\' && rest.len() >= 2 && is_dec_digit(rest[1])));
                assert(rest.skip(1) =~= v@.skip(i as int + 1));
                assert(unescape(rest) == opt_prepend(
                    seq![rest[0]],
                    unescape(v@.skip(i as int + 1)),
                ));
            }
            let c = v[i];
            out.push(c);
            i += 1;
            proof {
                assert(out@ =~= old_out + seq![c]);
                match unescape(v@.skip(i as int)) {
                    Some(t) => {
                        assert(old_out + (seq![c] + t) =~= out@ + t);
                    },
                    None => {},
                }
            }
        }
    }
    proof {
        assert(v@.skip(i as int) =~= Seq::<char>::empty());
        match unescape(v@) {
            Some(t) => {
                assert(t =~= out@);
            },
            None => {},
        }
    }
    Some(out)
}

} // verus!
