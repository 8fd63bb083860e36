use intfic::game_state::GameState;
use intfic::parse_input::{parse_answer, parse_direction, query, sanitize, Answer, Direction};
use intfic::story_block::{check_counter, read_line};
use intfic::strutil::{i32_to_string, parse_i32, str_contains, trim_str};
use intfic::write_out::{contains_quote, highlight_mask, Color};

#[test]
fn plain_line_renders_white() {
    let game = GameState::new("T");
    let line = read_line("Just some narration.", &game).unwrap();
    assert_eq!(line.text, String::from("Just some narration."));
    assert_eq!(line.color, Color::White);
    assert!(!line.question);
}

#[test]
fn color_marks_strip_and_color() {
    let game = GameState::new("T");
    let y = read_line("-y A yellow line", &game).unwrap();
    assert_eq!(y.text, String::from("A yellow line"));
    assert_eq!(y.color, Color::Yellow);
    let b = read_line("-b blue", &game).unwrap();
    assert_eq!(b.color, Color::Blue);
    let g = read_line("-g green", &game).unwrap();
    assert_eq!(g.color, Color::Green);
    let r = read_line("-r red", &game).unwrap();
    assert_eq!(r.color, Color::Red);
}

#[test]
fn question_lines_keep_their_spaces() {
    let game = GameState::new("T");
    let q = read_line("  What do you do?", &game).unwrap();
    assert_eq!(q.text, String::from("  What do you do?"));
    assert_eq!(q.color, Color::Cyan);
    assert!(q.question);
}

#[test]
fn flag_conditional_picks_then_or_else() {
    let mut game = GameState::new("T");
    let line = "?- saved_work => Thank goodness you saved. => All that work, gone.";
    let miss = read_line(line, &game).unwrap();
    assert_eq!(miss.text, String::from("All that work, gone."));
    game.set_flag("saved_work", true);
    let hit = read_line(line, &game).unwrap();
    assert_eq!(hit.text, String::from("Thank goodness you saved."));
}

#[test]
fn flag_conditional_without_else_renders_nothing() {
    let game = GameState::new("T");
    assert!(read_line("?- unset_flag => hidden text", &game).is_none());
}

#[test]
fn conditional_branches_resolve_recursively() {
    let mut game = GameState::new("T");
    let nested = "?- lantern_lit => -y The hall glows. => -b All is dark.";
    let dark = read_line(nested, &game).unwrap();
    assert_eq!(dark.text, String::from("All is dark."));
    assert_eq!(dark.color, Color::Blue);
    game.set_flag("lantern_lit", true);
    let lit = read_line(nested, &game).unwrap();
    assert_eq!(lit.text, String::from("The hall glows."));
    assert_eq!(lit.color, Color::Yellow);
}

#[test]
fn counter_conditional_compares_values() {
    let mut game = GameState::new("T");
    let line = "#- score >= 50 => -y He seems calm. => -r He yells back.";
    let low = read_line(line, &game).unwrap();
    assert_eq!(low.text, String::from("He yells back."));
    assert_eq!(low.color, Color::Red);
    game.add_score(50);
    let high = read_line(line, &game).unwrap();
    assert_eq!(high.text, String::from("He seems calm."));
    assert_eq!(high.color, Color::Yellow);
}

#[test]
fn check_counter_handles_each_operator() {
    let mut game = GameState::new("T");
    game.update_counter("gold", 10);
    assert!(check_counter("#- gold < 11", &game));
    assert!(!check_counter("#- gold < 10", &game));
    assert!(check_counter("#- gold <= 10", &game));
    assert!(check_counter("#- gold == 10", &game));
    assert!(!check_counter("#- gold == 9", &game));
    assert!(check_counter("#- gold >= 10", &game));
    assert!(check_counter("#- gold > 9", &game));
    assert!(!check_counter("#- gold > 10", &game));
    assert!(!check_counter("#- gold ~ 10", &game));
    assert!(!check_counter("#- gold >=", &game));
    assert!(!check_counter("#- gold >= lots", &game));
}

#[test]
fn sanitize_normalizes_input() {
    assert_eq!(
        sanitize(String::from("OH mOst DefiniTEly!?!")),
        String::from("oh most definitely")
    );
    assert_eq!(sanitize(String::from("  spaced   out  ")), String::from("spaced   out"));
    assert_eq!(sanitize(String::from("?!.,;")), String::from(""));
}

#[test]
fn query_looks_up_named_dictionaries() {
    assert_eq!(query("@AFFIRMATIVES", "sure"), true);
    assert_eq!(query("@AFFIRMATIVES", "nope"), false);
    assert_eq!(query("@NEGATIVES", "nope"), true);
    assert_eq!(query("@EXITS", "quit game"), true);
    assert_eq!(query("@SAVES", "save"), true);
    assert_eq!(query("@LOADS", "load game"), true);
    assert_eq!(query("@NO_SUCH_DICTIONARY", "sure"), false);
    assert_eq!(query("AFFIRMATIVES", "sure"), false);
}

#[test]
fn parse_answer_reads_the_dictionaries() {
    assert_eq!(parse_answer("yes please"), Some(Answer::Yes));
    assert_eq!(parse_answer("hell no"), Some(Answer::No));
    assert_eq!(parse_answer("idk"), Some(Answer::Unsure));
    assert_eq!(parse_answer("potato"), None);
}

#[test]
fn parse_direction_reads_the_dictionaries() {
    assert_eq!(parse_direction("northward"), Some(Direction::North));
    assert_eq!(parse_direction("go right"), Some(Direction::East));
    assert_eq!(parse_direction("s"), Some(Direction::South));
    assert_eq!(parse_direction("left"), Some(Direction::West));
    assert_eq!(parse_direction("climb up"), Some(Direction::Up));
    assert_eq!(parse_direction("descend"), Some(Direction::Down));
    assert_eq!(parse_direction("run away"), Some(Direction::Return));
    assert_eq!(parse_direction("sideways"), None);
}

#[test]
fn ambiguous_words_follow_dictionary_order() {
    assert_eq!(parse_direction("n"), Some(Direction::North));
    assert_eq!(parse_direction("run"), Some(Direction::Return));
    assert_eq!(parse_answer("n"), Some(Answer::No));
}

#[test]
fn parse_i32_accepts_exactly_integer_literals() {
    assert_eq!(parse_i32("0"), Some(0));
    assert_eq!(parse_i32("42"), Some(42));
    assert_eq!(parse_i32("+7"), Some(7));
    assert_eq!(parse_i32("-13"), Some(-13));
    assert_eq!(parse_i32("2147483647"), Some(2147483647));
    assert_eq!(parse_i32("-2147483648"), Some(-2147483648));
    assert_eq!(parse_i32("2147483648"), None);
    assert_eq!(parse_i32("-2147483649"), None);
    assert_eq!(parse_i32(""), None);
    assert_eq!(parse_i32("-"), None);
    assert_eq!(parse_i32("12a"), None);
    assert_eq!(parse_i32(" 12"), None);
}

#[test]
fn i32_to_string_writes_decimal() {
    assert_eq!(i32_to_string(0), String::from("0"));
    assert_eq!(i32_to_string(7), String::from("7"));
    assert_eq!(i32_to_string(120), String::from("120"));
    assert_eq!(i32_to_string(-45), String::from("-45"));
    assert_eq!(i32_to_string(2147483647), String::from("2147483647"));
    assert_eq!(i32_to_string(-2147483648), String::from("-2147483648"));
}

#[test]
fn string_helpers_behave_like_std() {
    assert!(str_contains("take walk, run", "walk"));
    assert!(str_contains("anything", ""));
    assert!(!str_contains("short", "longer than it"));
    assert_eq!(trim_str("  padded  "), "padded");
    assert_eq!(trim_str("    "), "");
}

#[test]
fn quotes_decide_highlighting() {
    assert!(!contains_quote("no quotes here"));
    assert!(!contains_quote("just one \" mark"));
    assert!(contains_quote("\"Hello,\" she said."));

    let mask = highlight_mask("a\"bc\"d");
    assert_eq!(mask, vec![false, true, true, true, true, false]);
    let all_plain = highlight_mask("plain");
    assert!(all_plain.iter().all(|h| !h));
}
