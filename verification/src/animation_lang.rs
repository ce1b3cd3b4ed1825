//! Languages of the rendered status graphic, and the fullwidth numeral
//! rendering those graphics use.

use vstd::prelude::*;
use vstd::string::StringExecFns;

verus! {

/// A language the graphic renderer has text assets for, named by region and
/// ISO 639-1 code.
#[derive(Copy, Clone, Eq, PartialEq, Structural, Hash, Debug)]
pub enum AnimationLanguage {
    CNzh,
    EUde,
    EUen,
    EUes,
    EUfr,
    EUit,
    EUnl,
    EUru,
    JPja,
    KRko,
    TWzh,
    USen,
    USes,
    USfr,
}

impl Default for AnimationLanguage {
    /// The renderer's default text set.
    fn default() -> (r: Self)
        ensures
            r == AnimationLanguage::USen,
    {
        AnimationLanguage::USen
    }
}

impl AnimationLanguage {
    pub open spec fn spec_language_name(self) -> Seq<char> {
        match self {
            AnimationLanguage::CNzh => "中文 (中国)"@,
            AnimationLanguage::EUde => "Deutsch"@,
            AnimationLanguage::EUen => "English (United Kingdom)"@,
            AnimationLanguage::EUes => "español (España)"@,
            AnimationLanguage::EUfr => "français (France)"@,
            AnimationLanguage::EUit => "italiano"@,
            AnimationLanguage::EUnl => "Nederlands"@,
            AnimationLanguage::EUru => "русский"@,
            AnimationLanguage::JPja => "日本語"@,
            AnimationLanguage::KRko => "한국어"@,
            AnimationLanguage::TWzh => "中文 (台灣)"@,
            AnimationLanguage::USen => "English (United States)"@,
            AnimationLanguage::USes => "español (Latinoamérica)"@,
            AnimationLanguage::USfr => "français (Canada)"@,
        }
    }

    /// The language's own display name.
    pub fn language_name(&self) -> (r: &'static str)
        ensures
            r@ == self.spec_language_name(),
    {
        match self {
            AnimationLanguage::CNzh => "中文 (中国)",
            AnimationLanguage::EUde => "Deutsch",
            AnimationLanguage::EUen => "English (United Kingdom)",
            AnimationLanguage::EUes => "español (España)",
            AnimationLanguage::EUfr => "français (France)",
            AnimationLanguage::EUit => "italiano",
            AnimationLanguage::EUnl => "Nederlands",
            AnimationLanguage::EUru => "русский",
            AnimationLanguage::JPja => "日本語",
            AnimationLanguage::KRko => "한국어",
            AnimationLanguage::TWzh => "中文 (台灣)",
            AnimationLanguage::USen => "English (United States)",
            AnimationLanguage::USes => "español (Latinoamérica)",
            AnimationLanguage::USfr => "français (Canada)",
        }
    }
}

/// The fullwidth digit character for one digit value.
pub open spec fn fullwidth_digit_char(d: int) -> char {
    if d == 0 {
        '０'
    } else if d == 1 {
        '１'
    } else if d == 2 {
        '２'
    } else if d == 3 {
        '３'
    } else if d == 4 {
        '４'
    } else if d == 5 {
        '５'
    } else if d == 6 {
        '６'
    } else if d == 7 {
        '７'
    } else if d == 8 {
        '８'
    } else {
        '９'
    }
}

/// The fullwidth decimal rendering of a natural number, most significant
/// digit first.
pub open spec fn fullwidth_digits(n: nat) -> Seq<char>
    decreases n,
{
    if n < 10 {
        seq![fullwidth_digit_char(n as int)]
    } else {
        fullwidth_digits(n / 10).push(fullwidth_digit_char((n % 10) as int))
    }
}

fn push_fullwidth_digit(s: &mut String, d: u64)
    requires
        d < 10,
    ensures
        final(s)@ == old(s)@.push(fullwidth_digit_char(d as int)),
{
    let lit: &str = if d == 0 {
        "０"
    } else if d == 1 {
        "１"
    } else if d == 2 {
        "２"
    } else if d == 3 {
        "３"
    } else if d == 4 {
        "４"
    } else if d == 5 {
        "５"
    } else if d == 6 {
        "６"
    } else if d == 7 {
        "７"
    } else if d == 8 {
        "８"
    } else {
        "９"
    };
    proof {
        reveal_strlit("０");
        reveal_strlit("１");
        reveal_strlit("２");
        reveal_strlit("３");
        reveal_strlit("４");
        reveal_strlit("５");
        reveal_strlit("６");
        reveal_strlit("７");
        reveal_strlit("８");
        reveal_strlit("９");
    }
    s.append(lit);
    proof {
        assert(final(s)@ =~= old(s)@.push(fullwidth_digit_char(d as int)));
    }
}

fn append_fullwidth(s: &mut String, n: u64)
    ensures
        final(s)@ == old(s)@ + fullwidth_digits(n as nat),
    decreases n,
{
    if n < 10 {
        push_fullwidth_digit(s, n);
        proof {
            assert(old(s)@.push(fullwidth_digit_char(n as int)) =~= old(s)@ + fullwidth_digits(
                n as nat,
            ));
        }
    } else {
        append_fullwidth(s, n / 10);
        push_fullwidth_digit(s, n % 10);
        proof {
            assert((old(s)@ + fullwidth_digits((n / 10) as nat)).push(
                fullwidth_digit_char((n % 10) as int),
            ) =~= old(s)@ + fullwidth_digits(n as nat));
        }
    }
}

/// Encodes a number into fullwidth characters.
pub fn full_width_number(x: u64) -> (r: String)
    ensures
        r@ == fullwidth_digits(x as nat),
{
    let mut s = String::new();
    append_fullwidth(&mut s, x);
    proof {
        assert(Seq::<char>::empty() + fullwidth_digits(x as nat) =~= fullwidth_digits(x as nat));
    }
    s
}

/// A rating value in micro-units scaled down to tenths of a point, rounded
/// toward minus infinity, as an absolute value.
pub open spec fn power_tenths_abs(power: int) -> nat {
    let scaled = power / 100_000;
    if scaled < 0 {
        (0 - scaled) as nat
    } else {
        scaled as nat
    }
}

/// Splits a micro-unit rating value into the fullwidth integer part and the
/// single fullwidth fraction digit the graphic shows, flooring like the
/// renderer does.
pub fn format_power_num(power: i64, include_negative_sign: bool) -> (r: (String, String))
    requires
        power > i64::MIN,
    ensures
        ({
            let tenths = power_tenths_abs(power as int);
            &&& r.1@ == fullwidth_digits(tenths % 10)
            &&& (power >= 0 || !include_negative_sign) ==> r.0@ == fullwidth_digits(tenths / 10)
            &&& (power < 0 && include_negative_sign) ==> r.0@ == seq!['-'] + fullwidth_digits(
                tenths / 10,
            )
        }),
{
    let neg = power < 0;
    let mag: u64 = if neg {
        (-power) as u64
    } else {
        power as u64
    };
    let scaled: u64 = if neg {
        (mag + 99_999) / 100_000
    } else {
        mag / 100_000
    };
    proof {
        assert(scaled == power_tenths_abs(power as int)) by {
            if neg {
                // the ceiling of the magnitude is the absolute value of the
                // floor of the negative value
                assert(mag == 0 - power as int);
                assert((mag + 99_999) as int / 100_000 == 0 - (power as int / 100_000))
                    by (nonlinear_arith)
                    requires
                        mag == 0 - power as int,
                        power < 0,
                ;
            }
        }
    }
    let integer_part = full_width_number(scaled / 10);
    let fraction = full_width_number(scaled % 10);
    let integer = if include_negative_sign && neg {
        let mut s = String::from_str("-");
        s.append(integer_part.as_str());
        proof {
            reveal_strlit("-");
            assert(s@ =~= seq!['-'] + fullwidth_digits((power_tenths_abs(power as int) / 10)));
        }
        s
    } else {
        integer_part
    };
    (integer, fraction)
}

} // verus!
