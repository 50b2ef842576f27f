//! Typed operand values: general-purpose register indices and bit-width
//! codes, each parsed from its textual form.

use vstd::prelude::*;
use vstd::string::*;
use crate::text::{dec_val, is_dec_string, parse_dec_upto, str_eq};

verus! {

/// Number of general-purpose registers; valid indices lie below it.
pub const NUM_REGS: u32 = 64;

/// A general-purpose register operand, an index in `[0, NUM_REGS)`.
#[derive(Clone, Copy, Debug, PartialEq, Eq, Structural)]
pub struct GPR(pub u32);

/// The register index denoted by a token, when the token is the letter `r`
/// followed by a decimal numeral whose value lies below [`NUM_REGS`].
pub open spec fn reg_of(s: Seq<char>) -> Option<u32> {
    if s.len() >= 1 && s[0] == 'r' && is_dec_string(s.skip(1)) && dec_val(s.skip(1)) < NUM_REGS {
        Some(dec_val(s.skip(1)) as u32)
    } else {
        None
    }
}

impl GPR {
    /// Parses `r<N>` with `N` a decimal numeral below [`NUM_REGS`]; any other
    /// form is rejected, the error carrying the offending text.
    pub fn from_str(s: &str) -> (r: Result<GPR, String>)
        ensures
            match r {
                Ok(g) => reg_of(s@) == Some(g.0),
                Err(e) => reg_of(s@) is None && e@ == s@,
            },
    {
        let n = s.unicode_len();
        if n == 0 || s.get_char(0) != 'r' {
            return Err(String::from_str(s));
        }
        let digits = s.substring_char(1, n);
        proof {
            assert(digits@ =~= s@.skip(1));
        }
        match parse_dec_upto(digits, NUM_REGS - 1) {
            Some(v) => Ok(GPR(v)),
            None => Err(String::from_str(s)),
        }
    }
}

/// One of the four operand bit widths.
#[derive(Clone, Copy, Debug, PartialEq, Eq, Structural)]
pub enum BitWidth {
    W8,
    W16,
    W32,
    W64,
}

/// The width denoted by a token: exactly `8`, `16`, `32` or `64`.
pub open spec fn width_of(s: Seq<char>) -> Option<BitWidth> {
    if s == "8"@ {
        Some(BitWidth::W8)
    } else if s == "16"@ {
        Some(BitWidth::W16)
    } else if s == "32"@ {
        Some(BitWidth::W32)
    } else if s == "64"@ {
        Some(BitWidth::W64)
    } else {
        None
    }
}

impl BitWidth {
    /// The fixed 2-bit code of each width: 8 maps to 0b00, 16 to 0b01,
    /// 32 to 0b10 and 64 to 0b11.
    pub open spec fn code_spec(self) -> u32 {
        match self {
            BitWidth::W8 => 0b00,
            BitWidth::W16 => 0b01,
            BitWidth::W32 => 0b10,
            BitWidth::W64 => 0b11,
        }
    }

    /// Executable form of [`BitWidth::code_spec`].
    pub fn code(self) -> (r: u32)
        ensures
            r == self.code_spec(),
            r < 4,
    {
        match self {
            BitWidth::W8 => 0b00,
            BitWidth::W16 => 0b01,
            BitWidth::W32 => 0b10,
            BitWidth::W64 => 0b11,
        }
    }

    /// Parses a width literal; anything but the four exact literals is
    /// rejected, the error carrying the offending text.
    pub fn from_str(s: &str) -> (r: Result<BitWidth, String>)
        ensures
            match r {
                Ok(w) => width_of(s@) == Some(w),
                Err(e) => width_of(s@) is None && e@ == s@,
            },
    {
        if str_eq(s, "8") {
            Ok(BitWidth::W8)
        } else if str_eq(s, "16") {
            Ok(BitWidth::W16)
        } else if str_eq(s, "32") {
            Ok(BitWidth::W32)
        } else if str_eq(s, "64") {
            Ok(BitWidth::W64)
        } else {
            Err(String::from_str(s))
        }
    }
}

} // verus!
