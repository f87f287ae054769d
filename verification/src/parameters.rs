use vstd::prelude::*;
use vstd::string::{StringExecFns, StringSliceAdditionalSpecFns};
use crate::chess::board::fen::{all_digits, digits_value, is_digit};

verus! {

/// Reverse futility pruning margin: bias.
#[allow(non_snake_case)]
pub fn RFP_BIAS() -> (r: i16)
    ensures r == 1,
{ 1 }

#[allow(non_snake_case)]
pub fn RFP_LINEAR() -> (r: i16)
    ensures r == 31,
{ 31 }

#[allow(non_snake_case)]
pub fn RFP_QUADRATIC() -> (r: i16)
    ensures r == 15,
{ 15 }

#[allow(non_snake_case)]
pub fn FUTILITY_BIAS() -> (r: i16)
    ensures r == 3,
{ 3 }

#[allow(non_snake_case)]
pub fn FUTILITY_LINEAR() -> (r: i16)
    ensures r == 22,
{ 22 }

#[allow(non_snake_case)]
pub fn FUTILITY_QUADRATIC() -> (r: i16)
    ensures r == 3,
{ 3 }

#[allow(non_snake_case)]
pub fn FUTILITY_DEPTH() -> (r: u8)
    ensures r == 5,
{ 5 }

#[allow(non_snake_case)]
pub fn PROB_MIN_DEPTH() -> (r: u8)
    ensures r == 5,
{ 5 }

#[allow(non_snake_case)]
pub fn PROB_DEPTH_REDUCTION() -> (r: u8)
    ensures r == 5,
{ 5 }

#[allow(non_snake_case)]
pub fn PROB_BIAS() -> (r: i16)
    ensures r == 55,
{ 55 }

#[allow(non_snake_case)]
pub fn PROB_LINEAR() -> (r: i16)
    ensures r == 10,
{ 10 }

#[allow(non_snake_case)]
pub fn PROB_QUADRATIC() -> (r: i16)
    ensures r == 4,
{ 4 }

#[allow(non_snake_case)]
pub fn RAZORING_MAX_DEPTH() -> (r: u8)
    ensures r == 2,
{ 2 }

#[allow(non_snake_case)]
pub fn RAZORING_BIAS() -> (r: i16)
    ensures r == 414,
{ 414 }

#[allow(non_snake_case)]
pub fn RAZORING_LINEAR() -> (r: i16)
    ensures r == 167,
{ 167 }

#[allow(non_snake_case)]
pub fn RAZORING_QUADRATIC() -> (r: i16)
    ensures r == 49,
{ 49 }

#[allow(non_snake_case)]
pub fn LMR_MIN_DEPTH() -> (r: u8)
    ensures r == 2,
{ 2 }

#[allow(non_snake_case)]
pub fn LMR_NUM_MOVES_PLAYED() -> (r: usize)
    ensures r == 11,
{ 11 }

/// The late move reduction factor, in hundredths (1.52).
#[allow(non_snake_case)]
pub fn LMR_FACTOR_PERCENT() -> (r: u32)
    ensures r == 152,
{ 152 }

#[allow(non_snake_case)]
pub fn CHECK_EXTENSION_MAX_PLY() -> (r: usize)
    ensures r == 38,
{ 38 }

#[allow(non_snake_case)]
pub fn DELTA_MARGIN() -> (r: i16)
    ensures r == 161,
{ 161 }

#[allow(non_snake_case)]
pub fn FIRST_WINDOW() -> (r: i16)
    ensures r == 33,
{ 33 }

#[allow(non_snake_case)]
pub fn SECOND_WINDOW() -> (r: i16)
    ensures r == 104,
{ 104 }

#[allow(non_snake_case)]
pub fn HISTORY_EXTENSION_SCORE() -> (r: i32)
    ensures r == 1625,
{ 1625 }

#[allow(non_snake_case)]
pub fn CAPTURE_HISTORY_EXTENSION_THRESHOLD() -> (r: i32)
    ensures r == 3762,
{ 3762 }

/// The kind of an engine option and its default.
pub enum UciOptionType {
    Spin { default: i64, min: i64, max: i64 },
    Check { default: bool },
    String { default: &'static str },
    Button,
}

impl UciOptionType {
    pub fn new_spin(default: i64, min: i64, max: i64) -> (t: Self)
        ensures
            t == (UciOptionType::Spin { default, min, max }),
    {
        UciOptionType::Spin { default, min, max }
    }
}

/// An engine option as announced to the GUI.
pub struct UciOption {
    pub name: &'static str,
    pub config: UciOptionType,
}

/// The decimal digits of `n`, most significant first.
pub open spec fn digits_text(n: nat) -> Seq<char>
    decreases n,
{
    if n < 10 {
        seq![((48 + n) as u8) as char]
    } else {
        digits_text(n / 10) + seq![((48 + n % 10) as u8) as char]
    }
}

/// `n` written in decimal, with a minus sign when negative.
pub open spec fn decimal_text(n: int) -> Seq<char> {
    if n < 0 { seq!['-'] + digits_text((-n) as nat) } else { digits_text(n as nat) }
}

fn digit_str(d: u64) -> (s: &'static str)
    requires
        d < 10,
    ensures
        s@ == seq![((48 + d) as u8) as char],
{
    if d == 0 {
        proof { reveal_strlit("0"); }
        "0"
    } else if d == 1 {
        proof { reveal_strlit("1"); }
        "1"
    } else if d == 2 {
        proof { reveal_strlit("2"); }
        "2"
    } else if d == 3 {
        proof { reveal_strlit("3"); }
        "3"
    } else if d == 4 {
        proof { reveal_strlit("4"); }
        "4"
    } else if d == 5 {
        proof { reveal_strlit("5"); }
        "5"
    } else if d == 6 {
        proof { reveal_strlit("6"); }
        "6"
    } else if d == 7 {
        proof { reveal_strlit("7"); }
        "7"
    } else if d == 8 {
        proof { reveal_strlit("8"); }
        "8"
    } else {
        proof { reveal_strlit("9"); }
        "9"
    }
}

fn push_digits(s: &mut String, n: u64)
    ensures
        final(s)@ == old(s)@ + digits_text(n as nat),
    decreases n,
{
    if n < 10 {
        s.append(digit_str(n));
    } else {
        push_digits(s, n / 10);
        s.append(digit_str(n % 10));
        assert(final(s)@ =~= old(s)@ + digits_text(n as nat));
    }
}

/// Appends `n` in decimal.
pub fn push_decimal(s: &mut String, n: i64)
    ensures
        final(s)@ == old(s)@ + decimal_text(n as int),
{
    if n < 0 {
        proof { reveal_strlit("-"); }
        s.append("-");
        let m: u64 = if n == i64::MIN { 9223372036854775808u64 } else { (-n) as u64 };
        push_digits(s, m);
        assert(final(s)@ =~= old(s)@ + decimal_text(n as int));
    } else {
        push_digits(s, n as u64);
    }
}

/// The signed number written in `b` as `str::parse::<i64>` reads it: an
/// optional sign, then at least one decimal digit, within range.
pub open spec fn parse_i64(b: Seq<u8>) -> Option<i64> {
    let neg = b.len() > 0 && b[0] == 45;
    let d = if b.len() > 0 && (b[0] == 43 || b[0] == 45) { b.drop_first() } else { b };
    if d.len() > 0 && all_digits(d) {
        let v = if neg { -digits_value(d) } else { digits_value(d) as int };
        if i64::MIN <= v <= i64::MAX { Some(v as i64) } else { None }
    } else {
        None
    }
}

pub open spec fn sat_big(v: nat) -> nat {
    if v > 0x8000_0000_0000_0000 { 0x8000_0000_0000_0001 } else { v }
}

/// Reads a signed number as `str::parse::<i64>` does.
pub fn parse_i64_bytes(b: &[u8]) -> (r: Option<i64>)
    ensures
        r == parse_i64(b@),
{
    let neg = b.len() > 0 && b[0] == 45;
    let start: usize = if b.len() > 0 && (b[0] == 43 || b[0] == 45) { 1 } else { 0 };
    let ghost d = if b@.len() > 0 && (b@[0] == 43 || b@[0] == 45) { b@.drop_first() } else { b@ };
    assert(d =~= b@.subrange(start as int, b@.len() as int));
    if start >= b.len() {
        return None;
    }
    let mut acc: u64 = 0;
    let mut k: usize = start;
    assert(b@.subrange(start as int, k as int) =~= Seq::<u8>::empty());
    while k < b.len()
        invariant
            start <= k <= b.len(),
            d == b@.subrange(start as int, b@.len() as int),
            d == (if b@.len() > 0 && (b@[0] == 43 || b@[0] == 45) { b@.drop_first() } else { b@ }),
            acc == sat_big(digits_value(b@.subrange(start as int, k as int))),
            all_digits(b@.subrange(start as int, k as int)),
        decreases b.len() - k,
    {
        let c = b[k];
        if c < 48 || c > 57 {
            assert(d[k - start] == c);
            assert(!is_digit(d[k - start]));
            assert(!all_digits(d));
            return None;
        }
        let ghost pre = b@.subrange(start as int, k as int);
        let ghost next = b@.subrange(start as int, k + 1);
        assert(next.drop_last() =~= pre);
        assert(next.last() == c);
        assert(forall|i: int| 0 <= i < next.len() ==> #[trigger] next[i] == if i < pre.len() { pre[i] } else { c });
        if acc > 0x0CCC_CCCC_CCCC_CCCCu64 {
            acc = 0x8000_0000_0000_0001u64;
        } else {
            let v = acc * 10 + (c - 48) as u64;
            acc = if v > 0x8000_0000_0000_0000u64 { 0x8000_0000_0000_0001u64 } else { v };
        }
        k += 1;
    }
    assert(b@.subrange(start as int, k as int) =~= d);
    if neg {
        if acc > 0x8000_0000_0000_0000u64 {
            None
        } else if acc == 0x8000_0000_0000_0000u64 {
            Some(i64::MIN)
        } else {
            Some(-(acc as i64))
        }
    } else {
        if acc > 0x7FFF_FFFF_FFFF_FFFFu64 {
            None
        } else {
            Some(acc as i64)
        }
    }
}

/// The text of a boolean.
pub open spec fn bool_text(b: bool) -> Seq<char> {
    if b { seq!['t', 'r', 'u', 'e'] } else { seq!['f', 'a', 'l', 's', 'e'] }
}

/// The message for a value outside the range of a spin option.
pub open spec fn range_message(min: i64, max: i64, default: i64) -> Seq<char> {
    "Option of type spin not in valid range ["@ + decimal_text(min as int) + ", "@ + decimal_text(max as int)
        + "], set to default "@ + decimal_text(default as int)
}

/// How the option announces itself to the GUI.
pub open spec fn uci_text(o: UciOption) -> Seq<char> {
    match o.config {
        UciOptionType::Spin { default, min, max } => "option name "@ + o.name@ + " type spin default "@
            + decimal_text(default as int) + " min "@ + decimal_text(min as int) + " max "@ + decimal_text(
            max as int,
        ),
        UciOptionType::Button => "option name "@ + o.name@ + " type button"@,
        UciOptionType::Check { default } => "option name "@ + o.name@ + " type default "@ + bool_text(default),
        UciOptionType::String { default } => "option name "@ + o.name@ + " type string default "@ + default@,
    }
}

impl UciOption {
    /// Checks a value for the option: a number outside the range of a spin
    /// option is an error (anything else passes).
    pub fn validate(&self, val: &str) -> (r: Result<(), String>)
        ensures
            match self.config {
                UciOptionType::Spin { default, min, max } => match parse_i64(val.spec_bytes()) {
                    Some(v) => if v < min || v > max {
                        r is Err && r->Err_0@ == range_message(min, max, default)
                    } else {
                        r is Ok
                    },
                    None => r is Ok,
                },
                _ => r is Ok,
            },
    {
        match self.config {
            UciOptionType::Spin { default, min, max } => {
                if let Some(parsed) = parse_i64_bytes(val.as_bytes()) {
                    if parsed < min || parsed > max {
                        let mut s = String::from_str("Option of type spin not in valid range [");
                        push_decimal(&mut s, min);
                        s.append(", ");
                        push_decimal(&mut s, max);
                        s.append("], set to default ");
                        push_decimal(&mut s, default);
                        assert(s@ =~= range_message(min, max, default));
                        return Err(s);
                    }
                }
            },
            _ => {},
        }
        Ok(())
    }

    /// The announcement of the option to the GUI.
    pub fn uci(&self) -> (s: String)
        ensures
            s@ == uci_text(*self),
    {
        let mut s = String::from_str("option name ");
        s.append(self.name);
        match self.config {
            UciOptionType::Spin { default, min, max } => {
                s.append(" type spin default ");
                push_decimal(&mut s, default);
                s.append(" min ");
                push_decimal(&mut s, min);
                s.append(" max ");
                push_decimal(&mut s, max);
            },
            UciOptionType::Button => {
                s.append(" type button");
            },
            UciOptionType::Check { default } => {
                s.append(" type default ");
                if default {
                    proof { reveal_strlit("true"); }
                    s.append("true");
                } else {
                    proof { reveal_strlit("false"); }
                    s.append("false");
                }
            },
            UciOptionType::String { default } => {
                s.append(" type string default ");
                s.append(default);
            },
        }
        assert(s@ =~= uci_text(*self));
        s
    }
}

/// The options the engine announces.
pub fn engine_settings() -> (v: Vec<UciOption>)
    ensures
        v@.len() == 1,
        v@[0].config == (UciOptionType::Spin { default: 100, min: 5, max: 1048576 }),
        v@[0].name@ == "Hash"@,
{
    let mut v = Vec::new();
    v.push(UciOption { name: "Hash", config: UciOptionType::Spin { default: 100, min: 5, max: 1024 * 1024 } });
    v
}

} // verus!
