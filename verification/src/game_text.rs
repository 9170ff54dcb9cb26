//! Writing games out as text.

use vstd::prelude::*;
use vstd::string::StringExecFns;
use crate::game::{color_max, CubeColor, CubeSet, Cubes, Game, GameModel};
use crate::text::{all_decimal_digits, decimal_number, decimal_value, is_decimal_digit, written_number};

verus! {

/// The character that writes the digit `d`, for `d` from 0 to 9.
pub open spec fn digit_char(d: int) -> char {
    if d == 0 {
        '0'
    } else if d == 1 {
        '1'
    } else if d == 2 {
        '2'
    } else if d == 3 {
        '3'
    } else if d == 4 {
        '4'
    } else if d == 5 {
        '5'
    } else if d == 6 {
        '6'
    } else if d == 7 {
        '7'
    } else if d == 8 {
        '8'
    } else {
        '9'
    }
}

/// The decimal digits of `n`, the first counting most, without zeros in
/// front; a single '0' for zero.
pub open spec fn decimal_text(n: nat) -> Seq<char>
    decreases n,
{
    if n < 10 {
        seq![digit_char(n as int)]
    } else {
        decimal_text(n / 10).push(digit_char((n % 10) as int))
    }
}

/// The name under which a colour is written out.
pub open spec fn color_label(color: CubeColor) -> Seq<char> {
    match color {
        CubeColor::Red => "Red"@,
        CubeColor::Green => "Green"@,
        CubeColor::Blue => "Blue"@,
    }
}

/// A cube count written out: the count, a blank and the colour's name.
pub open spec fn cubes_text(cubes: Cubes) -> Seq<char> {
    decimal_text(cubes.count as nat) + " "@ + color_label(cubes.color)
}

/// A list of cube counts written out: each count followed by a comma and
/// a blank.
pub open spec fn cube_list_text(cubes: Seq<Cubes>) -> Seq<char>
    decreases cubes.len(),
{
    if cubes.len() == 0 {
        Seq::empty()
    } else {
        cube_list_text(cubes.drop_last()) + cubes_text(cubes.last()) + ", "@
    }
}

/// A set written out: its cube counts, then a semicolon and a blank.
pub open spec fn set_text(cubes: Seq<Cubes>) -> Seq<char> {
    cube_list_text(cubes) + "; "@
}

/// Sets written out, one after the other.
pub open spec fn set_list_text(sets: Seq<Seq<Cubes>>) -> Seq<char>
    decreases sets.len(),
{
    if sets.len() == 0 {
        Seq::empty()
    } else {
        set_list_text(sets.drop_last()) + set_text(sets.last())
    }
}

/// A game written out: a head with its number, its sets, and one line for
/// the largest number of cubes of each colour.
pub open spec fn game_text(game: GameModel) -> Seq<char> {
    "Game "@ + decimal_text(game.id) + ": "@ + set_list_text(game.sets) + "\n\tHigh Red:"@
        + decimal_text(color_max(game.sets, CubeColor::Red)) + ",\n\tHigh Green:"@ + decimal_text(
        color_max(game.sets, CubeColor::Green),
    ) + ",\n\tHigh Blue:"@ + decimal_text(color_max(game.sets, CubeColor::Blue)) + "\n"@
}

/// What `decimal_text` writes reads back as the number it was written
/// from.
pub proof fn lemma_decimal_text_reads_back(n: nat)
    ensures
        decimal_text(n).len() > 0,
        all_decimal_digits(decimal_text(n)),
        decimal_number(decimal_text(n)) == n,
        written_number(decimal_text(n)) == Some(n),
    decreases n,
{
    if n >= 10 {
        lemma_decimal_text_reads_back(n / 10);
        let earlier = decimal_text(n / 10);
        let text = decimal_text(n);
        assert(text.drop_last() =~= earlier);
        assert(text.last() == digit_char((n % 10) as int));
        assert forall|i: int| 0 <= i < text.len() implies is_decimal_digit(#[trigger] text[i]) by {
            if i < earlier.len() {
                assert(text[i] == earlier[i]);
            }
        }
        assert(decimal_value(text.last()) == n % 10);
    } else {
        let text = decimal_text(n);
        assert(text.drop_last() =~= Seq::<char>::empty());
        assert(decimal_number(text.drop_last()) == 0);
        assert(decimal_value(text.last()) == n);
    }
    assert(is_decimal_digit(decimal_text(n)[0]));
}

/// The text of the digit `d`.
fn digit_text(d: usize) -> (text: &'static str)
    requires
        d < 10,
    ensures
        text@ == seq![digit_char(d as int)],
{
    proof {
        reveal_strlit("0");
        reveal_strlit("1");
        reveal_strlit("2");
        reveal_strlit("3");
        reveal_strlit("4");
        reveal_strlit("5");
        reveal_strlit("6");
        reveal_strlit("7");
        reveal_strlit("8");
        reveal_strlit("9");
    }
    let text = if d == 0 {
        "0"
    } else if d == 1 {
        "1"
    } else if d == 2 {
        "2"
    } else if d == 3 {
        "3"
    } else if d == 4 {
        "4"
    } else if d == 5 {
        "5"
    } else if d == 6 {
        "6"
    } else if d == 7 {
        "7"
    } else if d == 8 {
        "8"
    } else {
        "9"
    };
    assert(text@ =~= seq![digit_char(d as int)]);
    text
}

/// Writes `n` in decimal digits.
pub fn number_text(n: usize) -> (text: String)
    ensures
        text@ == decimal_text(n as nat),
    decreases n,
{
    if n < 10 {
        String::from_str(digit_text(n))
    } else {
        let mut text = number_text(n / 10);
        text.append(digit_text(n % 10));
        assert(text@ =~= decimal_text(n as nat));
        text
    }
}

impl CubeColor {
    /// The name under which the colour is written out.
    pub fn label(&self) -> (label: &'static str)
        ensures
            label@ == color_label(*self),
    {
        match self {
            CubeColor::Red => "Red",
            CubeColor::Green => "Green",
            CubeColor::Blue => "Blue",
        }
    }
}

impl Cubes {
    /// Writes the cube count out, as in `3 Blue`.
    pub fn to_text(&self) -> (text: String)
        ensures
            text@ == cubes_text(*self),
    {
        let mut text = number_text(self.count);
        text.append(" ");
        text.append(self.color.label());
        text
    }
}

impl CubeSet {
    /// Writes the set out, as in `3 Blue, 4 Red, ; `.
    pub fn to_text(&self) -> (text: String)
        ensures
            text@ == set_text(self@),
    {
        let cubes = self.cubes();
        let mut text = String::new();
        let mut i: usize = 0;
        assert(cubes@.take(0) =~= Seq::<Cubes>::empty());
        while i < cubes.len()
            invariant
                i <= cubes.len(),
                text@ == cube_list_text(cubes@.take(i as int)),
            decreases cubes.len() - i,
        {
            assert(cubes@.take(i + 1).drop_last() =~= cubes@.take(i as int));
            assert(cubes@.take(i + 1).last() == cubes@[i as int]);
            let one = cubes[i].to_text();
            text.append(one.as_str());
            text.append(", ");
            i += 1;
        }
        assert(cubes@.take(cubes@.len() as int) =~= cubes@);
        text.append("; ");
        text
    }
}

impl Game {
    /// Writes the game out: the head `Game 7: `, the sets, and the lines
    /// `High Red:`, `High Green:` and `High Blue:` with the largest numbers
    /// of cubes, each line starting with a tab.
    pub fn to_text(&self) -> (text: String)
        ensures
            text@ == game_text(self@),
    {
        let sets = self.sets();
        let mut text = String::from_str("Game ");
        text.append(number_text(self.id()).as_str());
        text.append(": ");
        let ghost head = text@;
        let ghost views = self@.sets;
        let mut i: usize = 0;
        assert(views.take(0) =~= Seq::<Seq<Cubes>>::empty());
        assert(head + Seq::<char>::empty() =~= head);
        while i < sets.len()
            invariant
                i <= sets.len(),
                views == crate::game::set_views(sets@),
                text@ == head + set_list_text(views.take(i as int)),
            decreases sets.len() - i,
        {
            assert(views.take(i + 1).drop_last() =~= views.take(i as int));
            assert(views.take(i + 1).last() == sets@[i as int]@);
            let one = sets[i].to_text();
            text.append(one.as_str());
            assert(text@ =~= head + set_list_text(views.take(i + 1)));
            i += 1;
        }
        assert(views.take(sets@.len() as int) =~= views);
        text.append("\n\tHigh Red:");
        text.append(number_text(self.red_max()).as_str());
        text.append(",\n\tHigh Green:");
        text.append(number_text(self.green_max()).as_str());
        text.append(",\n\tHigh Blue:");
        text.append(number_text(self.blue_max()).as_str());
        text.append("\n");
        text
    }
}

} // verus!
