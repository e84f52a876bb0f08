use vstd::prelude::*;
use bracket_lib::prelude::to_cp437;

verus! {

/// The code-page 437 code of a character, as `bracket-lib`'s `to_cp437`
/// gives it (0 for characters the code page lacks).
pub uninterp spec fn cp437(c: char) -> u16;

/// Calls `bracket_lib::prelude::to_cp437`, a fixed table from characters to
/// code-page 437 glyph codes. The contract only names the result.
#[verifier::external_body]
pub(crate) fn glyph_code(c: char) -> (g: u16)
    ensures
        g == cp437(c),
{
    to_cp437(c)
}

/// The kinds of monster that roam the dungeon.
#[derive(Clone, Copy, PartialEq, Eq, Structural, Debug)]
pub enum MonsterKind {
    Goblin,
    Orc,
}

/// The decimal digit for `d`.
pub open spec fn digit_char(d: int) -> char {
    if d == 0 { '0' }
    else if d == 1 { '1' }
    else if d == 2 { '2' }
    else if d == 3 { '3' }
    else if d == 4 { '4' }
    else if d == 5 { '5' }
    else if d == 6 { '6' }
    else if d == 7 { '7' }
    else if d == 8 { '8' }
    else { '9' }
}

/// The decimal notation of `n`, without leading zeros.
pub open spec fn decimal(n: nat) -> Seq<char>
    decreases n,
{
    if n < 10 {
        seq![digit_char(n as int)]
    } else {
        decimal(n / 10).push(digit_char((n % 10) as int))
    }
}

/// The one-character text of digit `d`.
fn digit_text(d: usize) -> (s: &'static str)
    requires
        d < 10,
    ensures
        s@ == seq![digit_char(d as int)],
{
    match d {
        0 => {
            proof { reveal_strlit("0"); }
            "0"
        },
        1 => {
            proof { reveal_strlit("1"); }
            "1"
        },
        2 => {
            proof { reveal_strlit("2"); }
            "2"
        },
        3 => {
            proof { reveal_strlit("3"); }
            "3"
        },
        4 => {
            proof { reveal_strlit("4"); }
            "4"
        },
        5 => {
            proof { reveal_strlit("5"); }
            "5"
        },
        6 => {
            proof { reveal_strlit("6"); }
            "6"
        },
        7 => {
            proof { reveal_strlit("7"); }
            "7"
        },
        8 => {
            proof { reveal_strlit("8"); }
            "8"
        },
        _ => {
            proof { reveal_strlit("9"); }
            "9"
        },
    }
}

/// Appends the decimal notation of `n` to `text`.
fn append_decimal(text: &mut String, n: usize)
    ensures
        final(text)@ == old(text)@ + decimal(n as nat),
    decreases n,
{
    if n >= 10 {
        append_decimal(text, n / 10);
    }
    text.append(digit_text(n % 10));
    proof {
        if n < 10 {
            assert(n % 10 == n);
        }
        assert(final(text)@ =~= old(text)@ + decimal(n as nat));
    }
}

impl MonsterKind {
    /// The kind a roll of one two-sided die gives: a one makes a goblin.
    pub open spec fn spec_from_roll(roll: i32) -> MonsterKind {
        if roll == 1 { MonsterKind::Goblin } else { MonsterKind::Orc }
    }

    /// The kind a roll of one two-sided die gives.
    pub fn from_roll(roll: i32) -> (kind: MonsterKind)
        ensures
            kind == MonsterKind::spec_from_roll(roll),
    {
        if roll == 1 {
            MonsterKind::Goblin
        } else {
            MonsterKind::Orc
        }
    }

    /// The character the kind is drawn with.
    pub open spec fn spec_symbol(self) -> char {
        match self {
            MonsterKind::Goblin => 'g',
            MonsterKind::Orc => 'o',
        }
    }

    /// The word the kind is named with.
    pub open spec fn spec_title(self) -> Seq<char> {
        match self {
            MonsterKind::Goblin => seq!['G', 'o', 'b', 'l', 'i', 'n', ' ', '#'],
            MonsterKind::Orc => seq!['O', 'r', 'c', ' ', '#'],
        }
    }

    /// The name of the `i`-th monster when it is of this kind, such as
    /// `Goblin #3`.
    pub fn name(&self, i: usize) -> (s: String)
        ensures
            s@ == self.spec_title() + decimal(i as nat),
    {
        let mut text = match self {
            MonsterKind::Goblin => {
                proof { reveal_strlit("Goblin #"); }
                String::from_str("Goblin #")
            },
            MonsterKind::Orc => {
                proof { reveal_strlit("Orc #"); }
                String::from_str("Orc #")
            },
        };
        append_decimal(&mut text, i);
        text
    }
}

} // verus!
