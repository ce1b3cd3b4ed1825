//! Rendering ratings, rank changes and player summaries as text.
//!
//! Rating values are micro-units; they are shown with one decimal digit,
//! rounded to the nearest tenth of a point, ties away from zero.

use vstd::prelude::*;
use vstd::string::StringExecFns;
use crate::db::SwitzerlandPlayer;
use crate::strutil::{dec_digits, digit_char, u32_to_string, u64_to_string};

verus! {

/// A micro-unit value in tenths of a point, rounded to nearest, ties away
/// from zero.
pub open spec fn sp_tenths_abs(v: int) -> int {
    if v >= 0 {
        (v + 50_000) / 100_000
    } else {
        (0 - v + 50_000) / 100_000
    }
}

/// The rendering of a micro-unit rating value with one decimal digit.
pub open spec fn spec_sp(v: int) -> Seq<char> {
    let t = sp_tenths_abs(v);
    let sign: Seq<char> = if v < 0 {
        seq!['-']
    } else {
        Seq::empty()
    };
    sign + dec_digits((t / 10) as nat) + seq!['.'] + seq![digit_char(t % 10)]
}

/// The same rendering with an explicit sign, as rating changes are shown.
pub open spec fn spec_sp_signed(v: int) -> Seq<char> {
    let t = sp_tenths_abs(v);
    let sign: Seq<char> = if v < 0 {
        seq!['-']
    } else {
        seq!['+']
    };
    sign + dec_digits((t / 10) as nat) + seq!['.'] + seq![digit_char(t % 10)]
}

fn sp_parts(v: i64) -> (r: (String, String))
    requires
        v > i64::MIN,
    ensures
        r.0@ == dec_digits((sp_tenths_abs(v as int) / 10) as nat),
        r.1@ == seq![digit_char(sp_tenths_abs(v as int) % 10)],
{
    let mag: u64 = if v < 0 {
        (-v) as u64
    } else {
        v as u64
    };
    let t: u64 = (mag + 50_000) / 100_000;
    proof {
        assert(t == sp_tenths_abs(v as int));
    }
    let whole = u64_to_string(t / 10);
    let tenth = u64_to_string(t % 10);
    proof {
        assert(dec_digits((t % 10) as nat) =~= seq![digit_char((t % 10) as int)]);
    }
    (whole, tenth)
}

/// Renders a micro-unit rating value with one decimal digit.
pub fn format_sp(v: i64) -> (r: String)
    requires
        v > i64::MIN,
    ensures
        r@ == spec_sp(v as int),
{
    let parts = sp_parts(v);
    let mut s = if v < 0 {
        String::from_str("-")
    } else {
        String::new()
    };
    proof {
        reveal_strlit("-");
        reveal_strlit(".");
    }
    s.append(parts.0.as_str());
    s.append(".");
    s.append(parts.1.as_str());
    proof {
        assert(s@ =~= spec_sp(v as int));
    }
    s
}

/// Renders a micro-unit rating change with an explicit sign.
pub fn format_sp_signed(v: i64) -> (r: String)
    requires
        v > i64::MIN,
    ensures
        r@ == spec_sp_signed(v as int),
{
    let parts = sp_parts(v);
    let mut s = if v < 0 {
        String::from_str("-")
    } else {
        String::from_str("+")
    };
    proof {
        reveal_strlit("-");
        reveal_strlit("+");
        reveal_strlit(".");
    }
    s.append(parts.0.as_str());
    s.append(".");
    s.append(parts.1.as_str());
    proof {
        assert(s@ =~= spec_sp_signed(v as int));
    }
    s
}

/// How a rank change is shown: the new rank with an arrow for direction,
/// or both ranks when the rank moved.
pub open spec fn spec_rank_difference(old_rank: u32, new_rank: u32) -> Seq<char> {
    if new_rank == old_rank {
        seq!['#'] + dec_digits(new_rank as nat) + " ⇒"@
    } else if new_rank < old_rank {
        seq!['#'] + dec_digits(old_rank as nat) + " → #"@ + dec_digits(new_rank as nat) + " ⇑"@
    } else {
        seq!['#'] + dec_digits(old_rank as nat) + " → #"@ + dec_digits(new_rank as nat) + " ⇓"@
    }
}

/// Renders a rank change with a direction arrow.
pub fn format_rank_difference(old_rank: u32, new_rank: u32) -> (r: String)
    ensures
        r@ == spec_rank_difference(old_rank, new_rank),
{
    proof {
        reveal_strlit("#");
    }
    let mut s = String::from_str("#");
    if new_rank == old_rank {
        let num = u32_to_string(new_rank);
        s.append(num.as_str());
        s.append(" ⇒");
    } else {
        let old_num = u32_to_string(old_rank);
        s.append(old_num.as_str());
        s.append(" → #");
        let new_num = u32_to_string(new_rank);
        s.append(new_num.as_str());
        if new_rank < old_rank {
            s.append(" ⇑");
        } else {
            s.append(" ⇓");
        }
    }
    proof {
        assert(s@ =~= spec_rank_difference(old_rank, new_rank));
    }
    s
}

/// Ratings this far from zero keep every difference within the machine
/// range.
pub const SP_VALUE_BOUND: i64 = 0x2000_0000_0000_0000;

/// The rating-and-rank summary of one player, next to their previous state
/// if one is known.
pub open spec fn spec_rank_summary(
    old_player: Option<SwitzerlandPlayer>,
    new_player: SwitzerlandPlayer,
    show_rank: bool,
) -> Seq<char> {
    match old_player {
        Some(old) => {
            let base = spec_sp(old.rating.value as int) + " SP → "@ + spec_sp(
                new_player.rating.value as int,
            ) + " SP ("@ + spec_sp_signed(new_player.rating.value - old.rating.value) + ")"@;
            if show_rank {
                base + "; "@ + spec_rank_difference(
                    old.rank.unwrap(),
                    new_player.rank.unwrap(),
                )
            } else {
                base
            }
        },
        None => {
            let base = spec_sp(new_player.rating.value as int) + " SP"@;
            if show_rank {
                base + "; #"@ + dec_digits(new_player.rank.unwrap() as nat)
            } else {
                base
            }
        },
    }
}

/// Renders a player's rating move and rank move.
pub fn format_player_rank_summary(
    old_player: Option<&SwitzerlandPlayer>,
    new_player: &SwitzerlandPlayer,
    show_rank: bool,
) -> (r: String)
    requires
        -SP_VALUE_BOUND < new_player.rating.value < SP_VALUE_BOUND,
        old_player matches Some(old) ==> -SP_VALUE_BOUND < old.rating.value < SP_VALUE_BOUND,
        show_rank ==> new_player.has_valid_rank(),
        show_rank && old_player is Some ==> old_player.unwrap().has_valid_rank(),
    ensures
        r@ == spec_rank_summary(
            match old_player {
                Some(p) => Some(*p),
                None => None,
            },
            *new_player,
            show_rank,
        ),
{
    match old_player {
        Some(old) => {
            let mut s = format_sp(old.rating.value);
            s.append(" SP → ");
            let new_sp = format_sp(new_player.rating.value);
            s.append(new_sp.as_str());
            s.append(" SP (");
            let delta = format_sp_signed(new_player.rating.value - old.rating.value);
            s.append(delta.as_str());
            s.append(")");
            if show_rank {
                s.append("; ");
                let diff = format_rank_difference(
                    old.unwrap_rank(),
                    new_player.unwrap_rank(),
                );
                s.append(diff.as_str());
            }
            proof {
                assert(s@ =~= spec_rank_summary(Some(*old), *new_player, show_rank));
            }
            s
        },
        None => {
            let mut s = format_sp(new_player.rating.value);
            s.append(" SP");
            if show_rank {
                s.append("; #");
                let num = u32_to_string(new_player.unwrap_rank());
                s.append(num.as_str());
            }
            proof {
                assert(s@ =~= spec_rank_summary(None, *new_player, show_rank));
            }
            s
        },
    }
}

/// A player's summary as one list line.
pub open spec fn spec_player_simply(
    old_player: Option<SwitzerlandPlayer>,
    new_player: SwitzerlandPlayer,
    show_rank: bool,
) -> Seq<char> {
    "- "@ + new_player.spec_display_name() + ": "@ + spec_rank_summary(
        old_player,
        new_player,
        show_rank,
    )
}

/// Renders one player as a list line: name, then the rating summary.
pub fn format_player_simply(
    old_player: Option<&SwitzerlandPlayer>,
    new_player: &SwitzerlandPlayer,
    show_rank: bool,
) -> (r: String)
    requires
        -SP_VALUE_BOUND < new_player.rating.value < SP_VALUE_BOUND,
        old_player matches Some(old) ==> -SP_VALUE_BOUND < old.rating.value < SP_VALUE_BOUND,
        show_rank ==> new_player.has_valid_rank(),
        show_rank && old_player is Some ==> old_player.unwrap().has_valid_rank(),
    ensures
        r@ == spec_player_simply(
            match old_player {
                Some(p) => Some(*p),
                None => None,
            },
            *new_player,
            show_rank,
        ),
{
    let mut s = String::from_str("- ");
    let name = new_player.display_name();
    s.append(name.as_str());
    s.append(": ");
    let summary = format_player_rank_summary(old_player, new_player, show_rank);
    s.append(summary.as_str());
    proof {
        assert(s@ =~= spec_player_simply(
            match old_player {
                Some(p) => Some(*p),
                None => None,
            },
            *new_player,
            show_rank,
        ));
    }
    s
}

/// Relies on unic_emoji_char::is_emoji_presentation: whether a character
/// carries the Emoji_Presentation property; a table lookup on the character
/// alone.
pub uninterp spec fn emoji_presentation(c: char) -> bool;

/// Whether any character of the sequence has the Emoji_Presentation
/// property.
pub open spec fn has_emoji_presentation(s: Seq<char>) -> bool {
    exists|i: int| 0 <= i < s.len() && emoji_presentation(#[trigger] s[i])
}

/// Relies on unic_emoji_char::is_emoji_presentation, applied to each
/// character: whether any character of the slice has the property.
#[verifier::external_body]
fn str_any_emoji(s: &str) -> (r: bool)
    ensures
        r == has_emoji_presentation(s@),
        r ==> exists|i: int| 0 <= i < s@.len() && emoji_presentation(#[trigger] s@[i]),
{
    s.chars().any(unic_emoji_char::is_emoji_presentation)
}

/// Renders a chat link: markdown when the body has no emoji-presentation
/// character, body and bare link otherwise (the platform refuses emoji in
/// link text).
pub fn format_link(body: &str, link: &str) -> (r: String)
    ensures
        !has_emoji_presentation(body@) ==> r@ == seq!['['] + body@ + "]("@ + link@ + seq![')'],
        has_emoji_presentation(body@) ==> r@ == body@ + " ("@ + link@ + seq![')'],
{
    proof {
        reveal_strlit("[");
        reveal_strlit(")");
    }
    if !str_any_emoji(body) {
        let mut s = String::from_str("[");
        s.append(body);
        s.append("](");
        s.append(link);
        s.append(")");
        proof {
            assert(s@ =~= seq!['['] + body@ + "]("@ + link@ + seq![')']);
        }
        s
    } else {
        let mut s = String::from_str(body);
        s.append(" (");
        s.append(link);
        s.append(")");
        proof {
            assert(s@ =~= body@ + " ("@ + link@ + seq![')']);
        }
        s
    }
}

/// Relies on ansi_term: painting with the dimmed style wraps the text in
/// the dim escape sequence and the reset escape sequence.
#[verifier::external_body]
fn paint_dimmed(text: &str) -> (r: String)
    ensures
        r@ == "\u{1b}[2m"@ + text@ + "\u{1b}[0m"@,
{
    ansi_term::Style::new().dimmed().paint(text).to_string()
}

/// A console completion hint: the plain text to insert, and the same text
/// dimmed for display.
pub struct FormattedHint {
    text: String,
    formatted: String,
}

impl FormattedHint {
    pub closed spec fn spec_text(self) -> Seq<char> {
        self.text@
    }

    /// The display form is the text, dimmed.
    pub closed spec fn wf(self) -> bool {
        self.formatted@ == "\u{1b}[2m"@ + self.text@ + "\u{1b}[0m"@
    }

    pub fn new(text: String) -> (r: Self)
        ensures
            r.spec_text() == text@,
            r.wf(),
    {
        let formatted = paint_dimmed(text.as_str());
        FormattedHint { text, formatted }
    }

    /// The dimmed rendering, for display.
    pub fn display(&self) -> (r: &str)
        requires
            self.wf(),
        ensures
            r@ == "\u{1b}[2m"@ + self.spec_text() + "\u{1b}[0m"@,
    {
        self.formatted.as_str()
    }

    /// The plain text, offered as the completion.
    pub fn completion(&self) -> (r: Option<&str>)
        ensures
            r matches Some(s) && s@ == self.spec_text(),
    {
        Some(self.text.as_str())
    }
}

} // verus!
