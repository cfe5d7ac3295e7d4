//! The small stateless game commands' data: the terms of a dice-roll
//! expression and the rock-paper-scissors choices. Rolling and replying are
//! driven from outside; here live the shapes and the rules.
use vstd::prelude::*;
use vstd::string::StringExecFns;
use vstd::utf8::is_ascii_chars;

use crate::chars::{spec_trim, to_lower, trim_chars, chars_vec, str_eq, string_from_chars};

verus! {

/// One term of a dice-roll expression: a plain number, or a group of dice
/// with a side count.
#[derive(Debug)]
pub enum Item {
    Number { positive: bool, number: usize },
    Dices { positive: bool, amount: usize, sides: usize },
}

impl Item {
    /// Whether the term counts toward the total or against it.
    pub open spec fn spec_positive(self) -> bool {
        match self {
            Item::Number { positive, .. } => positive,
            Item::Dices { positive, .. } => positive,
        }
    }

    pub fn positive(&self) -> (r: bool)
        ensures
            r == self.spec_positive(),
    {
        match self {
            Item::Number { positive, .. } => *positive,
            Item::Dices { positive, .. } => *positive,
        }
    }

    /// How many dice the term rolls; a plain number counts as one roll.
    pub open spec fn spec_dice_count(self) -> usize {
        match self {
            Item::Number { .. } => 1,
            Item::Dices { amount, .. } => amount,
        }
    }

    pub fn dice_count(&self) -> (r: usize)
        ensures
            r == self.spec_dice_count(),
    {
        match self {
            Item::Number { .. } => 1,
            Item::Dices { amount, .. } => *amount,
        }
    }
}

/// A rock-paper-scissors choice.
#[derive(Clone, Copy, Debug, PartialEq, Eq, Structural)]
pub enum Rps {
    Rock,
    Paper,
    Scissors,
}

/// The Unicode lowercase mapping that `str::to_lowercase` computes; the
/// result depends on the characters alone.
pub uninterp spec fn lower_of(s: Seq<char>) -> Seq<char>;

/// The case folding of ASCII text: the letters A to Z to lower case, all
/// else unchanged.
pub open spec fn ascii_fold(s: Seq<char>) -> Seq<char> {
    s.map_values(|c: char| to_lower(c))
}

/// Relies on `str::to_lowercase`: the Unicode lowercase mapping of the
/// text, depending on its characters alone; on ASCII text that mapping is
/// exactly the ASCII case folding.
#[verifier::external_body]
fn lowercase(s: &str) -> (r: String)
    ensures
        r@ == lower_of(s@),
        is_ascii_chars(s@) ==> r@ == ascii_fold(s@),
{
    s.to_lowercase()
}

/// The choice a player's text denotes: lowercased (as `str::to_lowercase`
/// maps it) and trimmed, the text must spell one of the three choices.
pub open spec fn spec_rps_choice(s: Seq<char>) -> Option<Rps> {
    let t = spec_trim(lower_of(s));
    if t == "rock"@ {
        Some(Rps::Rock)
    } else if t == "paper"@ {
        Some(Rps::Paper)
    } else if t == "scissors"@ {
        Some(Rps::Scissors)
    } else {
        None
    }
}

impl Rps {
    /// How this choice fares against the other: rock blunts scissors,
    /// paper wraps rock, scissors cut paper, and like choices tie.
    pub open spec fn spec_defeats(self, other: Rps) -> core::cmp::Ordering {
        if self == other {
            core::cmp::Ordering::Equal
        } else {
            match (self, other) {
                (Rps::Rock, Rps::Scissors) => core::cmp::Ordering::Greater,
                (Rps::Paper, Rps::Rock) => core::cmp::Ordering::Greater,
                (Rps::Scissors, Rps::Paper) => core::cmp::Ordering::Greater,
                _ => core::cmp::Ordering::Less,
            }
        }
    }

    pub fn defeats(&self, other: &Self) -> (r: core::cmp::Ordering)
        ensures
            r == self.spec_defeats(*other),
    {
        if self == other {
            return core::cmp::Ordering::Equal;
        }
        match (self, other) {
            (Rps::Rock, Rps::Scissors) => core::cmp::Ordering::Greater,
            (Rps::Paper, Rps::Rock) => core::cmp::Ordering::Greater,
            (Rps::Scissors, Rps::Paper) => core::cmp::Ordering::Greater,
            _ => core::cmp::Ordering::Less,
        }
    }

    /// Reads a player's choice: the text, Unicode-lowercased and trimmed,
    /// must spell one of the three choices; anything else yields the fixed
    /// user-facing complaint.
    pub fn try_from_string(text: String) -> (r: Result<Self, String>)
        ensures
            match spec_rps_choice(text@) {
                Some(c) => r matches Ok(x) && x == c,
                None => r matches Err(e) && e@
                    == "Invalid choice. Please choose 'rock', 'paper', or 'scissors'."@,
            },
    {
        let lowered = lowercase(text.as_str());
        let v = chars_vec(lowered.as_str());
        let t = trim_chars(&v);
        let ts = string_from_chars(&t);
        if str_eq(ts.as_str(), "rock") {
            Ok(Rps::Rock)
        } else if str_eq(ts.as_str(), "paper") {
            Ok(Rps::Paper)
        } else if str_eq(ts.as_str(), "scissors") {
            Ok(Rps::Scissors)
        } else {
            Err(
                String::from_str("Invalid choice. Please choose 'rock', 'paper', or 'scissors'."),
            )
        }
    }
}

} // verus!
