//! Sanitizing and classifying player input: the normal form of raw input,
//! the phrase dictionaries for yes-no answers, directions and control
//! commands, and the dictionary lookup used by choice keywords.

use vstd::prelude::*;

use crate::strutil::{push_char, str_eq, trim_spaces};
use crate::strutil::trim_str;

verus! {

/// Yes, no, or unsure: the three readings of a free-form answer.
#[derive(Debug, PartialEq, Eq, Structural)]
pub enum Answer {
    /// Yes, y, yeah, sure, and the like.
    Yes,
    /// No, n, nah, nope, and the like.
    No,
    /// Not sure, idk, maybe, and the like.
    Unsure,
}

/// The cardinal directions, together with up, down, and turning back.
#[derive(Debug, PartialEq, Eq, Structural)]
pub enum Direction {
    /// North, n, forward, and the like.
    North,
    /// East, e, right, and the like.
    East,
    /// South, s, backward, and the like.
    South,
    /// West, w, left, and the like.
    West,
    /// Up, u, ascend, and the like.
    Up,
    /// Down, d, descend, and the like.
    Down,
    /// Return, r, go back, and the like.
    Return,
}

/// Whether a character is alphanumeric.
///
/// Relies on `char::is_alphanumeric`: a property of the character alone.
pub uninterp spec fn is_alnum(c: char) -> bool;

#[verifier::external_body]
fn char_is_alphanumeric(c: char) -> (r: bool)
    ensures
        r == is_alnum(c),
{
    c.is_alphanumeric()
}

/// The lowercase form of a character sequence.
///
/// Relies on `str::to_lowercase`: the result depends on the characters alone.
pub uninterp spec fn lower_of(s: Seq<char>) -> Seq<char>;

#[verifier::external_body]
fn str_to_lowercase(s: &str) -> (r: String)
    ensures
        r@ == lower_of(s@),
{
    s.to_lowercase()
}

/// The characters of `s` that are alphanumeric or spaces, in order.
pub open spec fn keep_alnum_space(s: Seq<char>) -> Seq<char>
    decreases s.len(),
{
    if s.len() == 0 {
        Seq::empty()
    } else {
        let rest = keep_alnum_space(s.drop_last());
        if is_alnum(s.last()) || s.last() == ' ' {
            rest.push(s.last())
        } else {
            rest
        }
    }
}

/// The normal form of raw input: everything but alphanumerics and spaces
/// dropped, surrounding spaces trimmed, and the rest lowercased.
pub open spec fn sanitize_spec(s: Seq<char>) -> Seq<char> {
    lower_of(trim_spaces(keep_alnum_space(s)))
}

/// Normalizes raw input to lowercase alphanumerics and inner spaces.
pub fn sanitize(input: String) -> (r: String)
    ensures
        r@ == sanitize_spec(input@),
{
    let n = input.as_str().unicode_len();
    let mut kept = String::new();
    let mut i: usize = 0;
    while i < n
        invariant
            i <= n,
            n == input@.len(),
            kept@ == keep_alnum_space(input@.subrange(0, i as int)),
        decreases n - i,
    {
        let c = input.as_str().get_char(i);
        if char_is_alphanumeric(c) || c == ' ' {
            push_char(&mut kept, c);
        }
        proof {
            assert(input@.subrange(0, i + 1).drop_last() =~= input@.subrange(0, i as int));
            assert(input@.subrange(0, i + 1).last() == input@[i as int]);
        }
        i += 1;
    }
    proof {
        assert(input@.subrange(0, n as int) =~= input@);
    }
    let trimmed = trim_str(kept.as_str());
    str_to_lowercase(trimmed)
}

/// The phrases understood as an affirmative answer.
pub open spec fn is_affirmative_word_spec(w: Seq<char>) -> bool {
    w == "10-4"@
    || w == "affirmative"@
    || w == "alright"@
    || w == "aye"@
    || w == "fuck yeah"@
    || w == "fuck yes"@
    || w == "hell yeah"@
    || w == "hell yes"@
    || w == "ok"@
    || w == "okay"@
    || w == "please"@
    || w == "positive"@
    || w == "sure"@
    || w == "y"@
    || w == "yay"@
    || w == "ye"@
    || w == "yeah"@
    || w == "yeah ok"@
    || w == "yeah sure"@
    || w == "yep"@
    || w == "yes"@
    || w == "yes please"@
    || w == "yup"@
}

/// Whether the input is one of the phrases understood as an affirmative answer.
pub fn is_affirmative_word(w: &str) -> (r: bool)
    ensures
        r == is_affirmative_word_spec(w@),
{
    str_eq(w, "10-4")
    || str_eq(w, "affirmative")
    || str_eq(w, "alright")
    || str_eq(w, "aye")
    || str_eq(w, "fuck yeah")
    || str_eq(w, "fuck yes")
    || str_eq(w, "hell yeah")
    || str_eq(w, "hell yes")
    || str_eq(w, "ok")
    || str_eq(w, "okay")
    || str_eq(w, "please")
    || str_eq(w, "positive")
    || str_eq(w, "sure")
    || str_eq(w, "y")
    || str_eq(w, "yay")
    || str_eq(w, "ye")
    || str_eq(w, "yeah")
    || str_eq(w, "yeah ok")
    || str_eq(w, "yeah sure")
    || str_eq(w, "yep")
    || str_eq(w, "yes")
    || str_eq(w, "yes please")
    || str_eq(w, "yup")
}

/// The phrases understood as a negative answer.
pub open spec fn is_negative_word_spec(w: Seq<char>) -> bool {
    w == "fuck nah"@
    || w == "fuck no"@
    || w == "hell nah"@
    || w == "hell no"@
    || w == "n"@
    || w == "nah"@
    || w == "nay"@
    || w == "negative"@
    || w == "never"@
    || w == "no"@
    || w == "nope"@
    || w == "no please"@
    || w == "not ok"@
    || w == "not okay"@
    || w == "no way"@
}

/// Whether the input is one of the phrases understood as a negative answer.
pub fn is_negative_word(w: &str) -> (r: bool)
    ensures
        r == is_negative_word_spec(w@),
{
    str_eq(w, "fuck nah")
    || str_eq(w, "fuck no")
    || str_eq(w, "hell nah")
    || str_eq(w, "hell no")
    || str_eq(w, "n")
    || str_eq(w, "nah")
    || str_eq(w, "nay")
    || str_eq(w, "negative")
    || str_eq(w, "never")
    || str_eq(w, "no")
    || str_eq(w, "nope")
    || str_eq(w, "no please")
    || str_eq(w, "not ok")
    || str_eq(w, "not okay")
    || str_eq(w, "no way")
}

/// The phrases understood as an unsure answer.
pub open spec fn is_unsure_word_spec(w: Seq<char>) -> bool {
    w == "dunno"@
    || w == "huh"@
    || w == "idk"@
    || w == "i dont know"@
    || w == "i dunno"@
    || w == "i guess"@
    || w == "maybe"@
    || w == "no clue"@
    || w == "no idea"@
    || w == "not sure"@
    || w == "que"@
    || w == "shrug"@
    || w == "unsure"@
    || w == "what"@
}

/// Whether the input is one of the phrases understood as an unsure answer.
pub fn is_unsure_word(w: &str) -> (r: bool)
    ensures
        r == is_unsure_word_spec(w@),
{
    str_eq(w, "dunno")
    || str_eq(w, "huh")
    || str_eq(w, "idk")
    || str_eq(w, "i dont know")
    || str_eq(w, "i dunno")
    || str_eq(w, "i guess")
    || str_eq(w, "maybe")
    || str_eq(w, "no clue")
    || str_eq(w, "no idea")
    || str_eq(w, "not sure")
    || str_eq(w, "que")
    || str_eq(w, "shrug")
    || str_eq(w, "unsure")
    || str_eq(w, "what")
}

/// The phrases understood as travel to the north.
pub open spec fn is_north_word_spec(w: Seq<char>) -> bool {
    w == "forward"@
    || w == "go forward"@
    || w == "go north"@
    || w == "n"@
    || w == "north"@
    || w == "northbound"@
    || w == "northward"@
}

/// Whether the input is one of the phrases understood as travel to the north.
pub fn is_north_word(w: &str) -> (r: bool)
    ensures
        r == is_north_word_spec(w@),
{
    str_eq(w, "forward")
    || str_eq(w, "go forward")
    || str_eq(w, "go north")
    || str_eq(w, "n")
    || str_eq(w, "north")
    || str_eq(w, "northbound")
    || str_eq(w, "northward")
}

/// The phrases understood as travel to the east.
pub open spec fn is_east_word_spec(w: Seq<char>) -> bool {
    w == "e"@
    || w == "east"@
    || w == "eastbound"@
    || w == "eastward"@
    || w == "go east"@
    || w == "go right"@
    || w == "right"@
}

/// Whether the input is one of the phrases understood as travel to the east.
pub fn is_east_word(w: &str) -> (r: bool)
    ensures
        r == is_east_word_spec(w@),
{
    str_eq(w, "e")
    || str_eq(w, "east")
    || str_eq(w, "eastbound")
    || str_eq(w, "eastward")
    || str_eq(w, "go east")
    || str_eq(w, "go right")
    || str_eq(w, "right")
}

/// The phrases understood as travel to the south.
pub open spec fn is_south_word_spec(w: Seq<char>) -> bool {
    w == "backward"@
    || w == "go backward"@
    || w == "go south"@
    || w == "s"@
    || w == "south"@
    || w == "southbound"@
    || w == "southward"@
}

/// Whether the input is one of the phrases understood as travel to the south.
pub fn is_south_word(w: &str) -> (r: bool)
    ensures
        r == is_south_word_spec(w@),
{
    str_eq(w, "backward")
    || str_eq(w, "go backward")
    || str_eq(w, "go south")
    || str_eq(w, "s")
    || str_eq(w, "south")
    || str_eq(w, "southbound")
    || str_eq(w, "southward")
}

/// The phrases understood as travel to the west.
pub open spec fn is_west_word_spec(w: Seq<char>) -> bool {
    w == "go left"@
    || w == "go west"@
    || w == "left"@
    || w == "w"@
    || w == "west"@
    || w == "westbound"@
    || w == "westward"@
}

/// Whether the input is one of the phrases understood as travel to the west.
pub fn is_west_word(w: &str) -> (r: bool)
    ensures
        r == is_west_word_spec(w@),
{
    str_eq(w, "go left")
    || str_eq(w, "go west")
    || str_eq(w, "left")
    || str_eq(w, "w")
    || str_eq(w, "west")
    || str_eq(w, "westbound")
    || str_eq(w, "westward")
}

/// The phrases understood as travel upward.
pub open spec fn is_up_word_spec(w: Seq<char>) -> bool {
    w == "ascend"@
    || w == "climb"@
    || w == "climb up"@
    || w == "fly"@
    || w == "fly up"@
    || w == "go up"@
    || w == "rise"@
    || w == "u"@
    || w == "up"@
}

/// Whether the input is one of the phrases understood as travel upward.
pub fn is_up_word(w: &str) -> (r: bool)
    ensures
        r == is_up_word_spec(w@),
{
    str_eq(w, "ascend")
    || str_eq(w, "climb")
    || str_eq(w, "climb up")
    || str_eq(w, "fly")
    || str_eq(w, "fly up")
    || str_eq(w, "go up")
    || str_eq(w, "rise")
    || str_eq(w, "u")
    || str_eq(w, "up")
}

/// The phrases understood as travel downward.
pub open spec fn is_down_word_spec(w: Seq<char>) -> bool {
    w == "climb down"@
    || w == "d"@
    || w == "descend"@
    || w == "down"@
    || w == "fall"@
    || w == "glide"@
    || w == "go down"@
}

/// Whether the input is one of the phrases understood as travel downward.
pub fn is_down_word(w: &str) -> (r: bool)
    ensures
        r == is_down_word_spec(w@),
{
    str_eq(w, "climb down")
    || str_eq(w, "d")
    || str_eq(w, "descend")
    || str_eq(w, "down")
    || str_eq(w, "fall")
    || str_eq(w, "glide")
    || str_eq(w, "go down")
}

/// The phrases understood as turning back.
pub open spec fn is_return_word_spec(w: Seq<char>) -> bool {
    w == "b"@
    || w == "back"@
    || w == "fall back"@
    || w == "go back"@
    || w == "r"@
    || w == "retreat"@
    || w == "return"@
    || w == "run"@
    || w == "run away"@
}

/// Whether the input is one of the phrases understood as turning back.
pub fn is_return_word(w: &str) -> (r: bool)
    ensures
        r == is_return_word_spec(w@),
{
    str_eq(w, "b")
    || str_eq(w, "back")
    || str_eq(w, "fall back")
    || str_eq(w, "go back")
    || str_eq(w, "r")
    || str_eq(w, "retreat")
    || str_eq(w, "return")
    || str_eq(w, "run")
    || str_eq(w, "run away")
}

/// The phrases understood as the command to quit the game.
pub open spec fn is_exit_word_spec(w: Seq<char>) -> bool {
    w == "exit"@
    || w == "exit game"@
    || w == "quit"@
    || w == "quit game"@
}

/// Whether the input is one of the phrases understood as the command to quit the game.
pub fn is_exit_word(w: &str) -> (r: bool)
    ensures
        r == is_exit_word_spec(w@),
{
    str_eq(w, "exit")
    || str_eq(w, "exit game")
    || str_eq(w, "quit")
    || str_eq(w, "quit game")
}

/// The phrases understood as the command to save the game.
pub open spec fn is_save_word_spec(w: Seq<char>) -> bool {
    w == "save"@
    || w == "save game"@
}

/// Whether the input is one of the phrases understood as the command to save the game.
pub fn is_save_word(w: &str) -> (r: bool)
    ensures
        r == is_save_word_spec(w@),
{
    str_eq(w, "save")
    || str_eq(w, "save game")
}

/// The phrases understood as the command to load the saved game.
pub open spec fn is_load_word_spec(w: Seq<char>) -> bool {
    w == "load"@
    || w == "load game"@
}

/// Whether the input is one of the phrases understood as the command to load the saved game.
pub fn is_load_word(w: &str) -> (r: bool)
    ensures
        r == is_load_word_spec(w@),
{
    str_eq(w, "load")
    || str_eq(w, "load game")
}

/// The reading of a normalized input as a yes-no answer, through the answer
/// dictionaries in their order: affirmatives, then negatives, then unsure.
pub open spec fn parse_answer_spec(w: Seq<char>) -> Option<Answer> {
    if is_affirmative_word_spec(w) {
        Some(Answer::Yes)
    } else if is_negative_word_spec(w) {
        Some(Answer::No)
    } else if is_unsure_word_spec(w) {
        Some(Answer::Unsure)
    } else {
        None
    }
}

/// Reads a normalized input as a yes-no answer, if any dictionary lists it.
pub fn parse_answer(input: &str) -> (r: Option<Answer>)
    ensures
        r == parse_answer_spec(input@),
{
    if is_affirmative_word(input) {
        Some(Answer::Yes)
    } else if is_negative_word(input) {
        Some(Answer::No)
    } else if is_unsure_word(input) {
        Some(Answer::Unsure)
    } else {
        None
    }
}

/// The reading of a normalized input as a direction, through the direction
/// dictionaries in their order.
pub open spec fn parse_direction_spec(w: Seq<char>) -> Option<Direction> {
    if is_north_word_spec(w) {
        Some(Direction::North)
    } else if is_east_word_spec(w) {
        Some(Direction::East)
    } else if is_south_word_spec(w) {
        Some(Direction::South)
    } else if is_west_word_spec(w) {
        Some(Direction::West)
    } else if is_up_word_spec(w) {
        Some(Direction::Up)
    } else if is_down_word_spec(w) {
        Some(Direction::Down)
    } else if is_return_word_spec(w) {
        Some(Direction::Return)
    } else {
        None
    }
}

/// Reads a normalized input as a direction, if any dictionary lists it.
pub fn parse_direction(input: &str) -> (r: Option<Direction>)
    ensures
        r == parse_direction_spec(input@),
{
    if is_north_word(input) {
        Some(Direction::North)
    } else if is_east_word(input) {
        Some(Direction::East)
    } else if is_south_word(input) {
        Some(Direction::South)
    } else if is_west_word(input) {
        Some(Direction::West)
    } else if is_up_word(input) {
        Some(Direction::Up)
    } else if is_down_word(input) {
        Some(Direction::Down)
    } else if is_return_word(input) {
        Some(Direction::Return)
    } else {
        None
    }
}

/// The membership a dictionary reference settles: which named dictionary is
/// meant, and whether it lists the given phrase. An unknown reference lists
/// nothing.
pub open spec fn query_spec(dict: Seq<char>, name: Seq<char>) -> bool {
    if dict == "@AFFIRMATIVES"@ {
        is_affirmative_word_spec(name)
    } else if dict == "@NEGATIVES"@ {
        is_negative_word_spec(name)
    } else if dict == "@UNSURATIVES"@ {
        is_unsure_word_spec(name)
    } else if dict == "@NORTHS"@ {
        is_north_word_spec(name)
    } else if dict == "@EASTS"@ {
        is_east_word_spec(name)
    } else if dict == "@SOUTHS"@ {
        is_south_word_spec(name)
    } else if dict == "@WESTS"@ {
        is_west_word_spec(name)
    } else if dict == "@UPS"@ {
        is_up_word_spec(name)
    } else if dict == "@DOWNS"@ {
        is_down_word_spec(name)
    } else if dict == "@RETURNS"@ {
        is_return_word_spec(name)
    } else if dict == "@SAVES"@ {
        is_save_word_spec(name)
    } else if dict == "@LOADS"@ {
        is_load_word_spec(name)
    } else if dict == "@EXITS"@ {
        is_exit_word_spec(name)
    } else {
        false
    }
}

/// Whether the named dictionary lists the given phrase. Dictionaries are
/// referenced with a leading `@`, as in the keyword field of a choice.
pub fn query(dict: &str, name: &str) -> (r: bool)
    ensures
        r == query_spec(dict@, name@),
{
    if str_eq(dict, "@AFFIRMATIVES") {
        is_affirmative_word(name)
    } else if str_eq(dict, "@NEGATIVES") {
        is_negative_word(name)
    } else if str_eq(dict, "@UNSURATIVES") {
        is_unsure_word(name)
    } else if str_eq(dict, "@NORTHS") {
        is_north_word(name)
    } else if str_eq(dict, "@EASTS") {
        is_east_word(name)
    } else if str_eq(dict, "@SOUTHS") {
        is_south_word(name)
    } else if str_eq(dict, "@WESTS") {
        is_west_word(name)
    } else if str_eq(dict, "@UPS") {
        is_up_word(name)
    } else if str_eq(dict, "@DOWNS") {
        is_down_word(name)
    } else if str_eq(dict, "@RETURNS") {
        is_return_word(name)
    } else if str_eq(dict, "@SAVES") {
        is_save_word(name)
    } else if str_eq(dict, "@LOADS") {
        is_load_word(name)
    } else if str_eq(dict, "@EXITS") {
        is_exit_word(name)
    } else {
        false
    }
}

} // verus!
