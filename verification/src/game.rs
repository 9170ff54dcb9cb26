//! Games of coloured cubes: reading a game from a line of text, and the
//! largest number of cubes of each colour that one of its sets shows.
//!
//! A line has the form `Game 7: 3 blue, 4 red; 1 red, 2 green`: a head that
//! ends in the game's number, a colon, and the sets, which semicolons part.
//! A set is a list of cube counts, which commas part; a cube count is a
//! number, a blank and a colour.

use vstd::prelude::*;
use crate::text::{
    chars_of, parse_number, piece_texts, split, split_chars, trim, trim_chars, written_number,
};

verus! {

/// The colour of a cube.
#[derive(Clone, Copy, Debug, PartialEq, Eq, Structural)]
pub enum CubeColor {
    Red,
    Green,
    Blue,
}

/// Why a text is no list of cube counts.
#[derive(Clone, Copy, Debug, PartialEq, Eq, Structural)]
pub enum CubeError {
    /// What stands where the count belongs is no number that fits a `usize`.
    InvalidCount,
    /// Nothing follows the count.
    MissingColor,
    /// What follows the count is none of "red", "green" and "blue".
    UndefinedColor,
}

/// A number of cubes of one colour.
#[derive(Clone, Copy, Debug, PartialEq, Eq, Structural)]
pub struct Cubes {
    pub count: usize,
    pub color: CubeColor,
}

/// The colour that `text` names, if it names one.
pub open spec fn color_named(text: Seq<char>) -> Option<CubeColor> {
    if text == "red"@ {
        Some(CubeColor::Red)
    } else if text == "green"@ {
        Some(CubeColor::Green)
    } else if text == "blue"@ {
        Some(CubeColor::Blue)
    } else {
        None
    }
}

/// The count that `text` writes, if it writes a number that fits a `usize`.
pub open spec fn count_written(text: Seq<char>) -> Option<usize> {
    match written_number(text) {
        Some(n) => if n <= usize::MAX {
            Some(n as usize)
        } else {
            None
        },
        None => None,
    }
}

/// The cube count that `piece` writes: trimmed and cut at every blank, its
/// first word is the count and its second the colour; further words are not
/// looked at.
pub open spec fn cube_written(piece: Seq<char>) -> Result<Cubes, CubeError> {
    let words = split(trim(piece), ' ');
    match count_written(words[0]) {
        None => Err(CubeError::InvalidCount),
        Some(count) => if words.len() < 2 {
            Err(CubeError::MissingColor)
        } else {
            match color_named(words[1]) {
                None => Err(CubeError::UndefinedColor),
                Some(color) => Ok(Cubes { count, color }),
            }
        },
    }
}

/// The cube counts that `pieces` write, in order; the error of the first
/// piece that writes none.
pub open spec fn cubes_of_pieces(pieces: Seq<Seq<char>>) -> Result<Seq<Cubes>, CubeError>
    decreases pieces.len(),
{
    if pieces.len() == 0 {
        Ok(Seq::empty())
    } else {
        match cubes_of_pieces(pieces.drop_last()) {
            Err(e) => Err(e),
            Ok(earlier) => match cube_written(pieces.last()) {
                Err(e) => Err(e),
                Ok(cubes) => Ok(earlier.push(cubes)),
            },
        }
    }
}

/// The list of cube counts that `text` writes: the cube counts of the
/// pieces into which the commas cut it.
pub open spec fn cubes_written(text: Seq<char>) -> Result<Seq<Cubes>, CubeError> {
    cubes_of_pieces(split(text, ','))
}

/// Whether `text` is the same text as `word`.
fn same_text(text: &[char], word: &str) -> (same: bool)
    ensures
        same == (text@ == word@),
{
    let letters = chars_of(word);
    if text.len() != letters.len() {
        return false;
    }
    let mut i: usize = 0;
    while i < text.len()
        invariant
            i <= text.len(),
            text@.len() == letters@.len(),
            letters@ == word@,
            forall|k: int| 0 <= k < i ==> text@[k] == letters@[k],
        decreases text.len() - i,
    {
        if text[i] != letters[i] {
            return false;
        }
        i += 1;
    }
    assert(text@ =~= letters@);
    true
}

/// The colour that `text` names.
fn parse_color(text: &[char]) -> (color: Result<CubeColor, CubeError>)
    ensures
        color == match color_named(text@) {
            Some(c) => Ok::<CubeColor, CubeError>(c),
            None => Err(CubeError::UndefinedColor),
        },
{
    if same_text(text, "red") {
        Ok(CubeColor::Red)
    } else if same_text(text, "green") {
        Ok(CubeColor::Green)
    } else if same_text(text, "blue") {
        Ok(CubeColor::Blue)
    } else {
        Err(CubeError::UndefinedColor)
    }
}

/// The cube count that `piece` writes.
fn parse_cube(piece: &[char]) -> (cubes: Result<Cubes, CubeError>)
    ensures
        cubes == cube_written(piece@),
{
    let words = split_chars(trim_chars(piece), ' ');
    assert(piece_texts(words@)[0] == words@[0]@);
    let count = match parse_number(words[0]) {
        Some(count) => count,
        None => {
            return Err(CubeError::InvalidCount);
        },
    };
    if words.len() < 2 {
        return Err(CubeError::MissingColor);
    }
    assert(piece_texts(words@)[1] == words@[1]@);
    match parse_color(words[1]) {
        Ok(color) => Ok(Cubes { count, color }),
        Err(e) => Err(e),
    }
}

/// The list of cube counts that `text` writes.
fn parse_cubes(text: &[char]) -> (cubes: Result<Vec<Cubes>, CubeError>)
    ensures
        match cubes {
            Ok(list) => cubes_written(text@) == Ok::<Seq<Cubes>, CubeError>(list@),
            Err(e) => cubes_written(text@) == Err::<Seq<Cubes>, CubeError>(e),
        },
{
    let pieces = split_chars(text, ',');
    let ghost texts = piece_texts(pieces@);
    let mut list: Vec<Cubes> = Vec::new();
    let mut i: usize = 0;
    assert(texts.take(0) =~= Seq::<Seq<char>>::empty());
    while i < pieces.len()
        invariant
            i <= pieces.len(),
            texts == piece_texts(pieces@),
            texts == split(text@, ','),
            cubes_of_pieces(texts.take(i as int)) == Ok::<Seq<Cubes>, CubeError>(list@),
        decreases pieces.len() - i,
    {
        assert(texts.take(i + 1).drop_last() =~= texts.take(i as int));
        assert(texts.take(i + 1).last() == pieces@[i as int]@);
        match parse_cube(pieces[i]) {
            Ok(cubes) => {
                list.push(cubes);
            },
            Err(e) => {
                proof {
                    lemma_cubes_error_stays(texts, i + 1);
                }
                return Err(e);
            },
        }
        i += 1;
    }
    assert(texts.take(pieces@.len() as int) =~= texts);
    Ok(list)
}

/// Once a piece has written no cube count, the pieces that follow do not
/// change the error.
pub proof fn lemma_cubes_error_stays(pieces: Seq<Seq<char>>, count: int)
    requires
        0 <= count <= pieces.len(),
        cubes_of_pieces(pieces.take(count)) is Err,
    ensures
        cubes_of_pieces(pieces) == cubes_of_pieces(pieces.take(count)),
    decreases pieces.len() - count,
{
    if count < pieces.len() {
        assert(pieces.take(count + 1).drop_last() =~= pieces.take(count));
        lemma_cubes_error_stays(pieces, count + 1);
    } else {
        assert(pieces.take(count) =~= pieces);
    }
}

impl CubeColor {
    /// The colour that `text` names: "red", "green" or "blue", written
    /// exactly so.
    pub fn new(text: &str) -> (color: Result<CubeColor, CubeError>)
        ensures
            color == match color_named(text@) {
                Some(c) => Ok::<CubeColor, CubeError>(c),
                None => Err(CubeError::UndefinedColor),
            },
    {
        let letters = chars_of(text);
        parse_color(letters.as_slice())
    }
}

impl Cubes {
    /// Reads a list of cube counts, such as `3 blue, 4 red`.
    pub fn new(cubes_text: &str) -> (cubes: Result<Vec<Cubes>, CubeError>)
        ensures
            match cubes {
                Ok(list) => cubes_written(cubes_text@) == Ok::<Seq<Cubes>, CubeError>(list@),
                Err(e) => cubes_written(cubes_text@) == Err::<Seq<Cubes>, CubeError>(e),
            },
    {
        let letters = chars_of(cubes_text);
        parse_cubes(letters.as_slice())
    }
}

/// The number of cubes of `color` among `cubes`: the sum of the counts
/// of that colour.
pub open spec fn color_total(cubes: Seq<Cubes>, color: CubeColor) -> nat
    decreases cubes.len(),
{
    if cubes.len() == 0 {
        0
    } else {
        color_total(cubes.drop_last(), color) + if cubes.last().color == color {
            cubes.last().count as nat
        } else {
            0
        }
    }
}

/// The largest number of cubes of `color` that one of `sets` shows; zero
/// where there is no set.
pub open spec fn color_max(sets: Seq<Seq<Cubes>>, color: CubeColor) -> nat
    decreases sets.len(),
{
    if sets.len() == 0 {
        0
    } else {
        let earlier = color_max(sets.drop_last(), color);
        let last = color_total(sets.last(), color);
        if last > earlier {
            last
        } else {
            earlier
        }
    }
}

/// Whether the number of cubes of `color` fits a `usize` in each of `sets`.
pub open spec fn color_fits(sets: Seq<Seq<Cubes>>, color: CubeColor) -> bool {
    forall|k: int| 0 <= k < sets.len() ==> color_total(#[trigger] sets[k], color) <= usize::MAX
}

/// Whether the number of cubes of each colour fits a `usize` in each of
/// `sets`.
pub open spec fn totals_fit(sets: Seq<Seq<Cubes>>) -> bool {
    &&& color_fits(sets, CubeColor::Red)
    &&& color_fits(sets, CubeColor::Green)
    &&& color_fits(sets, CubeColor::Blue)
}

/// The sets that `pieces` write, in order; the error of the first piece
/// that writes no list of cube counts.
pub open spec fn sets_of_pieces(pieces: Seq<Seq<char>>) -> Result<Seq<Seq<Cubes>>, CubeError>
    decreases pieces.len(),
{
    if pieces.len() == 0 {
        Ok(Seq::empty())
    } else {
        match sets_of_pieces(pieces.drop_last()) {
            Err(e) => Err(e),
            Ok(earlier) => match cubes_written(pieces.last()) {
                Err(e) => Err(e),
                Ok(cubes) => Ok(earlier.push(cubes)),
            },
        }
    }
}

/// The sets that `text` writes: the lists of cube counts of the pieces into
/// which the semicolons cut it.
pub open spec fn sets_written(text: Seq<char>) -> Result<Seq<Seq<Cubes>>, CubeError> {
    sets_of_pieces(split(text, ';'))
}

/// Once a piece has written no set, the pieces that follow do not change
/// the error.
pub proof fn lemma_sets_error_stays(pieces: Seq<Seq<char>>, count: int)
    requires
        0 <= count <= pieces.len(),
        sets_of_pieces(pieces.take(count)) is Err,
    ensures
        sets_of_pieces(pieces) == sets_of_pieces(pieces.take(count)),
    decreases pieces.len() - count,
{
    if count < pieces.len() {
        assert(pieces.take(count + 1).drop_last() =~= pieces.take(count));
        lemma_sets_error_stays(pieces, count + 1);
    } else {
        assert(pieces.take(count) =~= pieces);
    }
}

/// The first cube counts of a set hold no more cubes of a colour than the
/// whole set.
pub proof fn lemma_color_total_grows(cubes: Seq<Cubes>, color: CubeColor, count: int)
    requires
        0 <= count <= cubes.len(),
    ensures
        color_total(cubes.take(count), color) <= color_total(cubes, color),
    decreases cubes.len() - count,
{
    if count < cubes.len() {
        lemma_color_total_grows(cubes, color, count + 1);
        assert(cubes.take(count + 1).drop_last() =~= cubes.take(count));
    } else {
        assert(cubes.take(count) =~= cubes);
    }
}

/// One set of a game: the cube counts that were shown together. Its view
/// is the list of these counts.
#[derive(Debug, PartialEq, Eq)]
pub struct CubeSet {
    cubes: Vec<Cubes>,
}

impl View for CubeSet {
    type V = Seq<Cubes>;

    closed spec fn view(&self) -> Seq<Cubes> {
        self.cubes@
    }
}

/// The views of `sets`, in the same order.
pub open spec fn set_views(sets: Seq<CubeSet>) -> Seq<Seq<Cubes>> {
    sets.map_values(|s: CubeSet| s@)
}

/// The sets that `text` writes.
fn parse_sets(text: &[char]) -> (sets: Result<Vec<CubeSet>, CubeError>)
    ensures
        match sets {
            Ok(list) => sets_written(text@) == Ok::<Seq<Seq<Cubes>>, CubeError>(
                set_views(list@),
            ),
            Err(e) => sets_written(text@) == Err::<Seq<Seq<Cubes>>, CubeError>(e),
        },
{
    let pieces = split_chars(text, ';');
    let ghost texts = piece_texts(pieces@);
    let mut list: Vec<CubeSet> = Vec::new();
    let mut i: usize = 0;
    assert(texts.take(0) =~= Seq::<Seq<char>>::empty());
    assert(set_views(list@) =~= Seq::<Seq<Cubes>>::empty());
    while i < pieces.len()
        invariant
            i <= pieces.len(),
            texts == piece_texts(pieces@),
            texts == split(text@, ';'),
            sets_of_pieces(texts.take(i as int)) == Ok::<Seq<Seq<Cubes>>, CubeError>(
                set_views(list@),
            ),
        decreases pieces.len() - i,
    {
        assert(texts.take(i + 1).drop_last() =~= texts.take(i as int));
        assert(texts.take(i + 1).last() == pieces@[i as int]@);
        match parse_cubes(pieces[i]) {
            Ok(cubes) => {
                let ghost earlier = list@;
                let set = CubeSet { cubes };
                list.push(set);
                assert(set_views(list@) =~= set_views(earlier).push(set@));
            },
            Err(e) => {
                proof {
                    lemma_sets_error_stays(texts, i + 1);
                }
                return Err(e);
            },
        }
        i += 1;
    }
    assert(texts.take(pieces@.len() as int) =~= texts);
    Ok(list)
}

impl CubeSet {
    /// Reads the sets of a game, such as `3 blue, 4 red; 1 red, 2 green`.
    pub fn new(set_text: &str) -> (sets: Result<Vec<CubeSet>, CubeError>)
        ensures
            match sets {
                Ok(list) => sets_written(set_text@) == Ok::<Seq<Seq<Cubes>>, CubeError>(
                    set_views(list@),
                ),
                Err(e) => sets_written(set_text@) == Err::<Seq<Seq<Cubes>>, CubeError>(e),
            },
    {
        let letters = chars_of(set_text);
        parse_sets(letters.as_slice())
    }

    /// The cube counts of the set, in the order in which they were written.
    pub fn cubes(&self) -> (cubes: &Vec<Cubes>)
        ensures
            cubes@ == self@,
    {
        &self.cubes
    }

    /// The number of cubes of `color` in the set, or nothing where that
    /// number does not fit a `usize`.
    pub fn checked_cube_color_count(&self, color: CubeColor) -> (count: Option<usize>)
        ensures
            match count {
                Some(n) => n == color_total(self@, color),
                None => color_total(self@, color) > usize::MAX,
            },
    {
        let mut color_count: usize = 0;
        let mut i: usize = 0;
        assert(self.cubes@.take(0) =~= Seq::<Cubes>::empty());
        while i < self.cubes.len()
            invariant
                i <= self.cubes.len(),
                color_count == color_total(self.cubes@.take(i as int), color),
            decreases self.cubes.len() - i,
        {
            let cube = self.cubes[i];
            proof {
                assert(self.cubes@.take(i + 1).drop_last() =~= self.cubes@.take(i as int));
                assert(self.cubes@.take(i + 1).last() == cube);
                lemma_color_total_grows(self.cubes@, color, i + 1);
            }
            if cube.color == color {
                color_count = match color_count.checked_add(cube.count) {
                    Some(sum) => sum,
                    None => {
                        return None;
                    },
                };
            }
            i += 1;
        }
        assert(self.cubes@.take(self.cubes@.len() as int) =~= self.cubes@);
        Some(color_count)
    }

    /// The number of cubes of `color` in the set, which must fit a `usize`.
    pub fn cube_color_count(&self, color: CubeColor) -> (count: usize)
        requires
            color_total(self@, color) <= usize::MAX,
        ensures
            count == color_total(self@, color),
    {
        let count = self.checked_cube_color_count(color);
        count.unwrap()
    }
}

/// A game as the contracts speak of it: its number and its sets.
pub struct GameModel {
    pub id: nat,
    pub sets: Seq<Seq<Cubes>>,
}

/// The game that `line` writes. Cut at every colon, the first piece of the
/// line is the head and the second holds the sets; further pieces are not
/// looked at. The last word of the head, cut at every blank, is the game's
/// number. There is no game where that word writes no number that fits a
/// `usize`, where the line has no colon, where the second piece writes no
/// sets, or where a set holds more cubes of one colour than fit a `usize`.
pub open spec fn game_written(line: Seq<char>) -> Option<GameModel> {
    let parts = split(line, ':');
    let head = split(parts[0], ' ');
    match count_written(head.last()) {
        None => None,
        Some(id) => if parts.len() < 2 {
            None
        } else {
            match sets_written(parts[1]) {
                Err(_) => None,
                Ok(sets) => if totals_fit(sets) {
                    Some(GameModel { id: id as nat, sets })
                } else {
                    None
                },
            }
        },
    }
}

/// The largest number of cubes of a colour is at least what each set
/// shows of it, and some set shows as many, unless there is no set.
pub proof fn lemma_color_max(sets: Seq<Seq<Cubes>>, color: CubeColor)
    ensures
        forall|k: int|
            0 <= k < sets.len() ==> color_total(#[trigger] sets[k], color) <= color_max(
                sets,
                color,
            ),
        sets.len() == 0 ==> color_max(sets, color) == 0,
        sets.len() > 0 ==> exists|k: int|
            0 <= k < sets.len() && color_total(#[trigger] sets[k], color) == color_max(
                sets,
                color,
            ),
    decreases sets.len(),
{
    if sets.len() > 0 {
        let earlier = sets.drop_last();
        lemma_color_max(earlier, color);
        assert forall|k: int| 0 <= k < sets.len() implies color_total(
            #[trigger] sets[k],
            color,
        ) <= color_max(sets, color) by {
            if k < earlier.len() {
                assert(sets[k] == earlier[k]);
            }
        }
        if color_total(sets.last(), color) > color_max(earlier, color) || earlier.len() == 0 {
            assert(color_total(sets[sets.len() - 1], color) == color_max(sets, color));
        } else {
            let k = choose|k: int|
                0 <= k < earlier.len() && color_total(#[trigger] earlier[k], color) == color_max(
                    earlier,
                    color,
                );
            assert(sets[k] == earlier[k]);
        }
    }
}

/// The largest number of cubes of `color` that one of `sets` shows, or
/// nothing where a set holds more of them than fit a `usize`.
fn max_color_count(sets: &Vec<CubeSet>, color: CubeColor) -> (max: Option<usize>)
    ensures
        match max {
            Some(m) => color_fits(set_views(sets@), color) && m == color_max(
                set_views(sets@),
                color,
            ),
            None => !color_fits(set_views(sets@), color),
        },
{
    let ghost views = set_views(sets@);
    let mut max: usize = 0;
    let mut i: usize = 0;
    assert(views.take(0) =~= Seq::<Seq<Cubes>>::empty());
    while i < sets.len()
        invariant
            i <= sets.len(),
            views == set_views(sets@),
            max == color_max(views.take(i as int), color),
            forall|k: int| 0 <= k < i ==> color_total(#[trigger] views[k], color) <= usize::MAX,
        decreases sets.len() - i,
    {
        assert(views.take(i + 1).drop_last() =~= views.take(i as int));
        assert(views.take(i + 1).last() == sets@[i as int]@);
        match sets[i].checked_cube_color_count(color) {
            Some(count) => {
                if count > max {
                    max = count;
                }
            },
            None => {
                assert(color_total(views[i as int], color) > usize::MAX);
                return None;
            },
        }
        i += 1;
    }
    assert(views.take(sets@.len() as int) =~= views);
    Some(max)
}

/// The largest numbers of cubes that a game may show of each colour.
#[derive(Clone, Copy, Debug, PartialEq, Eq, Structural)]
pub struct Parameters {
    pub target_red: usize,
    pub target_green: usize,
    pub target_blue: usize,
}

/// Whether no set of `sets` shows more cubes of a colour than `parameters`
/// allow.
pub open spec fn within_targets(parameters: Parameters, sets: Seq<Seq<Cubes>>) -> bool {
    &&& color_max(sets, CubeColor::Red) <= parameters.target_red
    &&& color_max(sets, CubeColor::Green) <= parameters.target_green
    &&& color_max(sets, CubeColor::Blue) <= parameters.target_blue
}

impl Parameters {
    /// The limits `target_red`, `target_green` and `target_blue`.
    pub fn new(target_red: usize, target_green: usize, target_blue: usize) -> (parameters:
        Parameters)
        ensures
            parameters == (Parameters { target_red, target_green, target_blue }),
    {
        Parameters { target_red, target_green, target_blue }
    }
}

/// A game that was read from a line: its number, its sets, and the largest
/// number of cubes of each colour that one of its sets shows.
#[derive(Debug)]
pub struct Game {
    id: usize,
    sets: Vec<CubeSet>,
    red_max: usize,
    green_max: usize,
    blue_max: usize,
}

impl View for Game {
    type V = GameModel;

    closed spec fn view(&self) -> GameModel {
        GameModel { id: self.id as nat, sets: set_views(self.sets@) }
    }
}

impl Game {
    #[verifier::type_invariant]
    spec fn consistent(self) -> bool {
        &&& totals_fit(set_views(self.sets@))
        &&& self.red_max == color_max(set_views(self.sets@), CubeColor::Red)
        &&& self.green_max == color_max(set_views(self.sets@), CubeColor::Green)
        &&& self.blue_max == color_max(set_views(self.sets@), CubeColor::Blue)
    }

    /// Reads a game from a line such as
    /// `Game 7: 3 blue, 4 red; 1 red, 2 green`. There is a game exactly
    /// where the line writes one.
    pub fn new(line: &str) -> (game: Option<Game>)
        ensures
            match game {
                Some(g) => game_written(line@) == Some(g@),
                None => game_written(line@) is None,
            },
    {
        let letters = chars_of(line);
        let parts = split_chars(letters.as_slice(), ':');
        assert(piece_texts(parts@)[0] == parts@[0]@);
        let head = split_chars(parts[0], ' ');
        assert(piece_texts(head@).last() == head@[head@.len() - 1]@);
        let id = match parse_number(head[head.len() - 1]) {
            Some(id) => id,
            None => {
                return None;
            },
        };
        if parts.len() < 2 {
            return None;
        }
        assert(piece_texts(parts@)[1] == parts@[1]@);
        let sets = match parse_sets(parts[1]) {
            Ok(sets) => sets,
            Err(_) => {
                return None;
            },
        };
        let red_max = match max_color_count(&sets, CubeColor::Red) {
            Some(max) => max,
            None => {
                return None;
            },
        };
        let green_max = match max_color_count(&sets, CubeColor::Green) {
            Some(max) => max,
            None => {
                return None;
            },
        };
        let blue_max = match max_color_count(&sets, CubeColor::Blue) {
            Some(max) => max,
            None => {
                return None;
            },
        };
        Some(Game { id, sets, red_max, green_max, blue_max })
    }

    /// Reads a game from a line and keeps it only if none of its sets shows
    /// more cubes of a colour than `parameters` allow.
    pub fn new_within(parameters: &Parameters, line: &str) -> (game: Option<Game>)
        ensures
            match game {
                Some(g) => game_written(line@) == Some(g@) && within_targets(
                    *parameters,
                    g@.sets,
                ),
                None => game_written(line@) matches Some(m) ==> !within_targets(
                    *parameters,
                    m.sets,
                ),
            },
    {
        match Game::new(line) {
            Some(game) => {
                if game.red_max() > parameters.target_red || game.green_max()
                    > parameters.target_green || game.blue_max() > parameters.target_blue {
                    None
                } else {
                    Some(game)
                }
            },
            None => None,
        }
    }

    /// The game's number.
    pub fn id(&self) -> (id: usize)
        ensures
            id == self@.id,
    {
        self.id
    }

    /// The sets of the game, in the order in which they were written.
    pub fn sets(&self) -> (sets: &Vec<CubeSet>)
        ensures
            set_views(sets@) == self@.sets,
    {
        &self.sets
    }

    /// The largest number of red cubes that one set of the game shows.
    pub fn red_max(&self) -> (max: usize)
        ensures
            max == color_max(self@.sets, CubeColor::Red),
    {
        proof {
            use_type_invariant(self);
        }
        self.red_max
    }

    /// The largest number of green cubes that one set of the game shows.
    pub fn green_max(&self) -> (max: usize)
        ensures
            max == color_max(self@.sets, CubeColor::Green),
    {
        proof {
            use_type_invariant(self);
        }
        self.green_max
    }

    /// The largest number of blue cubes that one set of the game shows.
    pub fn blue_max(&self) -> (max: usize)
        ensures
            max == color_max(self@.sets, CubeColor::Blue),
    {
        proof {
            use_type_invariant(self);
        }
        self.blue_max
    }

    /// The power of the game: the product of the largest numbers of red,
    /// blue and green cubes, or nothing where it does not fit a `usize`.
    pub fn power(&self) -> (power: Option<usize>)
        ensures
            match power {
                Some(p) => p == color_max(self@.sets, CubeColor::Red) * color_max(
                    self@.sets,
                    CubeColor::Blue,
                ) * color_max(self@.sets, CubeColor::Green),
                None => color_max(self@.sets, CubeColor::Red) * color_max(
                    self@.sets,
                    CubeColor::Blue,
                ) * color_max(self@.sets, CubeColor::Green) > usize::MAX,
            },
    {
        let red = self.red_max();
        let blue = self.blue_max();
        let green = self.green_max();
        if red == 0 || blue == 0 || green == 0 {
            assert(red * blue * green == 0) by (nonlinear_arith)
                requires
                    red == 0 || blue == 0 || green == 0,
            ;
            return Some(0);
        }
        let red_blue = match red.checked_mul(blue) {
            Some(product) => product,
            None => {
                assert(red * blue * green > usize::MAX) by (nonlinear_arith)
                    requires
                        red * blue > usize::MAX,
                        green >= 1,
                ;
                return None;
            },
        };
        red_blue.checked_mul(green)
    }
}

} // verus!
