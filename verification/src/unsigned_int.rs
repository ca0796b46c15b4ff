use crate::numbers::{dec_chars_of, parse_dec_u32, u16_to_dec_chars};
use crate::text::{chars_to_string, str_to_chars};
use vstd::prelude::*;
use vstd::string::*;

verus! {

/// The message given back when a value falls outside `[s, e]`.
pub open spec fn range_message(s: u16, e: u16) -> Seq<char> {
    "Outside range ["@ + dec_chars_of(s as nat) + ", "@ + dec_chars_of(e as nat) + "]"@
}

/// Integer wrapper whose value is guaranteed to lie in the inclusive range
/// `[S, E]`.
#[derive(Debug, Clone, Copy, PartialEq, Eq)]
pub struct UnsignedInt<const S: u16, const E: u16>(u16);

/// Brightness of a key light, as a percentage.
pub type Brightness = UnsignedInt<0, 100>;

/// Colour temperature of a key light, in the device's internal unit.
pub type Temperature = UnsignedInt<143, 344>;

impl<const S: u16, const E: u16> UnsignedInt<S, E> {
    #[verifier::type_invariant]
    spec fn in_range(self) -> bool {
        S <= self.0 <= E
    }

    /// The wrapped integer.
    pub closed spec fn spec_value(self) -> u16 {
        self.0
    }

    /// Wraps `i`, succeeding exactly when `i` lies in `[S, E]`; the error
    /// names the range.
    pub fn new(i: u16) -> (r: Result<Self, String>)
        ensures
            r is Ok <==> S <= i <= E,
            r matches Ok(v) ==> v.spec_value() == i,
            r matches Err(m) ==> m@ == range_message(S, E),
    {
        if i < S || i > E {
            let mut msg = str_to_chars("Outside range [");
            let mut t = u16_to_dec_chars(S);
            msg.append(&mut t);
            let mut t = str_to_chars(", ");
            msg.append(&mut t);
            let mut t = u16_to_dec_chars(E);
            msg.append(&mut t);
            let mut t = str_to_chars("]");
            msg.append(&mut t);
            let m = chars_to_string(&msg);
            proof {
                assert(m@ =~= range_message(S, E));
            }
            Err(m)
        } else {
            Ok(UnsignedInt(i))
        }
    }

    /// Reads the wrapped integer back out; it is always in `[S, E]`.
    pub fn value(&self) -> (r: u16)
        ensures
            r == self.spec_value(),
            S <= r <= E,
    {
        proof {
            use_type_invariant(self);
        }
        self.0
    }
}

impl<const S: u16, const E: u16> core::str::FromStr for UnsignedInt<S, E> {
    type Err = String;

    fn from_str(s: &str) -> Result<Self, String> {
        let chars = str_to_chars(s);
        match parse_dec_u32(&chars) {
            None => Err("invalid digit found in string".to_owned()),
            Some(n) => {
                if n > 65535 {
                    Err("number too large to fit in target type".to_owned())
                } else {
                    UnsignedInt::new(n as u16)
                }
            },
        }
    }
}

} // verus!
