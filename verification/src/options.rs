//! The two closed option types a run is configured with: the quality tier
//! and the container format, each with a parser from its wire token and a
//! serializer back to the wire value.

use vstd::prelude::*;
use crate::text::str_eq;
use crate::numeric::{parse_u32, spec_parse_u32};

verus! {

/// Quality tier of a stream; maps to the numeric `qn` API parameter.
#[derive(Clone, Copy, PartialEq, Eq, Structural, Debug)]
pub enum Quality {
    Low,
    High,
}

impl Quality {
    /// What `from_str` returns, for every input.
    pub open spec fn spec_from_str(s: Seq<char>) -> Result<Quality, &'static str> {
        if s == "low"@ {
            Ok(Quality::Low)
        } else if s == "high"@ {
            Ok(Quality::High)
        } else {
            Err("")
        }
    }

    /// Numeric API value of the tier.
    pub open spec fn spec_value(self) -> u32 {
        match self {
            Quality::Low => 0,
            Quality::High => 10000,
        }
    }

    /// Parse a flag token: exactly `"low"` or `"high"`; anything else is
    /// rejected.
    pub fn from_str(s: &str) -> (r: Result<Self, &'static str>)
        ensures
            r is Ok <==> (s@ == "low"@ || s@ == "high"@),
            r == Self::spec_from_str(s@),
    {
        proof {
            reveal_strlit("low");
            reveal_strlit("high");
        }
        if str_eq(s, "low") {
            Ok(Quality::Low)
        } else if str_eq(s, "high") {
            Ok(Quality::High)
        } else {
            Err("")
        }
    }

    /// What `from_menu` returns, for every input.
    pub open spec fn spec_from_menu(s: Seq<char>) -> Result<Quality, &'static str> {
        match spec_parse_u32(s) {
            Some(n) => if n == 1 {
                Ok(Quality::Low)
            } else if n == 2 {
                Ok(Quality::High)
            } else {
                Err("")
            },
            None => Err(""),
        }
    }

    /// Parse an interactive menu selection: the numeral `1` is `Low`, `2`
    /// is `High`; anything else is rejected.
    pub fn from_menu(s: &str) -> (r: Result<Self, &'static str>)
        ensures
            r == Self::spec_from_menu(s@),
    {
        match parse_u32(s) {
            Some(n) => if n == 1 {
                Ok(Quality::Low)
            } else if n == 2 {
                Ok(Quality::High)
            } else {
                Err("")
            },
            None => Err(""),
        }
    }

    /// Numeric value sent as the `qn` query parameter.
    pub fn value(&self) -> (r: u32)
        ensures
            r == self.spec_value(),
    {
        match self {
            Quality::Low => 0,
            Quality::High => 10000,
        }
    }
}

/// Container format of a stream; maps to a lowercase wire token.
#[derive(Clone, Copy, PartialEq, Eq, Structural, Debug)]
pub enum Format {
    M3u8,
    Flv,
}

impl Format {
    /// What `from_str` returns, for every input.
    pub open spec fn spec_from_str(s: Seq<char>) -> Result<Format, &'static str> {
        if s == "m3u8"@ {
            Ok(Format::M3u8)
        } else if s == "flv"@ {
            Ok(Format::Flv)
        } else {
            Err("")
        }
    }

    /// Wire token of the format.
    pub open spec fn spec_value(self) -> Seq<char> {
        match self {
            Format::M3u8 => "m3u8"@,
            Format::Flv => "flv"@,
        }
    }

    /// Parse a flag token: exactly `"m3u8"` or `"flv"`; anything else is
    /// rejected.
    pub fn from_str(s: &str) -> (r: Result<Self, &'static str>)
        ensures
            r is Ok <==> (s@ == "m3u8"@ || s@ == "flv"@),
            r == Self::spec_from_str(s@),
    {
        proof {
            reveal_strlit("m3u8");
            reveal_strlit("flv");
        }
        if str_eq(s, "m3u8") {
            Ok(Format::M3u8)
        } else if str_eq(s, "flv") {
            Ok(Format::Flv)
        } else {
            Err("")
        }
    }

    /// What `from_menu` returns, for every input.
    pub open spec fn spec_from_menu(s: Seq<char>) -> Result<Format, &'static str> {
        match spec_parse_u32(s) {
            Some(n) => if n == 1 {
                Ok(Format::M3u8)
            } else if n == 2 {
                Ok(Format::Flv)
            } else {
                Err("")
            },
            None => Err(""),
        }
    }

    /// Parse an interactive menu selection: the numeral `1` is `M3u8`, `2`
    /// is `Flv`; anything else is rejected.
    pub fn from_menu(s: &str) -> (r: Result<Self, &'static str>)
        ensures
            r == Self::spec_from_menu(s@),
    {
        match parse_u32(s) {
            Some(n) => if n == 1 {
                Ok(Format::M3u8)
            } else if n == 2 {
                Ok(Format::Flv)
            } else {
                Err("")
            },
            None => Err(""),
        }
    }

    /// Lowercase token used both as the API query value and as the output
    /// filter substring.
    pub fn value(&self) -> (r: String)
        ensures
            r@ == self.spec_value(),
    {
        match self {
            Format::M3u8 => String::from_str("m3u8"),
            Format::Flv => String::from_str("flv"),
        }
    }
}

/// Parsing a format's own wire token returns that format: `from_str` and
/// `value` are inverses.
pub proof fn lemma_format_token_round_trip(f: Format)
    ensures
        Format::spec_from_str(f.spec_value()) == Ok::<Format, &'static str>(f),
{
    reveal_strlit("m3u8");
    reveal_strlit("flv");
    assert("m3u8"@.len() == 4);
    assert("flv"@.len() == 3);
}

} // verus!
