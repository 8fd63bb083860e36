use intfic::game_state::GameState;
use intfic::parse_file::parse_lines;
use intfic::story_block::{
    filter_options, find_block, option_labels, play_next, select_choice, start_block,
    start_blocks, Choice, RunOutcome, StoryBlock,
};
use intfic::write_out::Color;

fn lines(raw: &[&str]) -> Vec<String> {
    raw.iter().map(|s| String::from(*s)).collect()
}

#[test]
fn hello_story_runs_to_its_end() {
    let blocks = parse_lines(&lines(&[":- start", "Hello", "-> end", ":- end"])).unwrap();
    let mut game = GameState::new("Hello");
    let (out, outcome) = start_blocks(&blocks, &mut game);

    // The start block renders "Hello" and its closing blank line, the
    // single choice is followed without a prompt, and the empty end block
    // renders only its closing blank line.
    assert_eq!(outcome, RunOutcome::End);
    assert_eq!(out.len(), 3);
    assert_eq!(out[0].text, String::from("Hello"));
    assert_eq!(out[0].color, Color::White);
    assert_eq!(out[1].text, String::from(""));
    assert_eq!(out[2].text, String::from(""));
    assert_eq!(game.progress.1, String::from("end"));
    assert_eq!(game.get_flag("saved"), false);
}

#[test]
fn effects_apply_after_text_and_before_choices() {
    let blocks = parse_lines(&lines(&[
        ":- start",
        "?- bell_rung => The bell has rung. => Silence so far.",
        "=- bell_rung = true",
        "+- score + 10",
        ":- after",
    ]))
    .unwrap();
    let mut game = GameState::new("Effects");
    let (out, outcome) = start_block(String::from("start"), &blocks, &mut game);

    // The text is rendered against the state at block entry, so the flag
    // the block itself sets is not yet visible to its own conditional.
    assert_eq!(outcome, RunOutcome::End);
    assert_eq!(out[0].text, String::from("Silence so far."));
    assert_eq!(game.get_flag("bell_rung"), true);
    assert_eq!(game.get_counter("score"), 10);
}

#[test]
fn missing_block_reports_not_found() {
    let blocks = parse_lines(&lines(&[":- start", "Hi"])).unwrap();
    let mut game = GameState::new("Missing");
    let (out, outcome) = start_block(String::from("nowhere"), &blocks, &mut game);
    assert_eq!(outcome, RunOutcome::BlockNotFound(String::from("nowhere")));
    assert!(out.is_empty());
}

#[test]
fn missing_target_reports_not_found() {
    let blocks = parse_lines(&lines(&[":- start", "-> gone"])).unwrap();
    let mut game = GameState::new("Missing");
    let (_, outcome) = start_blocks(&blocks, &mut game);
    assert_eq!(outcome, RunOutcome::TargetNotFound(String::from("gone")));
}

#[test]
fn single_choice_to_story_file_loads_without_prompt() {
    let blocks = parse_lines(&lines(&[":- start", "Leaving.", "-> next_chapter.txt"])).unwrap();
    let mut game = GameState::new("Load");
    game.set_flag("saved", true);
    let (_, outcome) = start_blocks(&blocks, &mut game);
    assert_eq!(outcome, RunOutcome::LoadStory(String::from("next_chapter.txt")));
    // Moving on clears the saved-progress safety flag.
    assert_eq!(game.get_flag("saved"), false);
}

#[test]
fn gated_choice_appears_only_when_predicate_holds() {
    let blocks = parse_lines(&lines(&[
        ":- start",
        "*- #- score >= 50 => Punch your dad. -> punch him, violence -> fight.txt",
        "*- Leave the house. -> take walk, run -> wander.txt",
        "*- Go to bed. ->  -> sleep",
    ]))
    .unwrap();
    let mut game = GameState::new("Gate");

    let low = filter_options(&blocks[0].options, &game);
    assert_eq!(low.len(), 2);
    assert_eq!(low[0].text, String::from("Leave the house."));

    game.add_score(50);
    let high = filter_options(&blocks[0].options, &game);
    assert_eq!(high.len(), 3);
    assert_eq!(high[0].text, String::from("Punch your dad."));
    assert_eq!(high[0].result, String::from("fight.txt"));
}

#[test]
fn flag_gated_choice_takes_its_then_label() {
    let blocks = parse_lines(&lines(&[
        ":- start",
        "*- ?- have_time_machine => Go back in time -> time travel -> time_fix",
        "*- Accept it. -> accept -> moping",
    ]))
    .unwrap();
    let mut game = GameState::new("Gate");
    assert_eq!(filter_options(&blocks[0].options, &game).len(), 1);
    game.set_flag("have_time_machine", true);
    let both = filter_options(&blocks[0].options, &game);
    assert_eq!(both.len(), 2);
    assert_eq!(both[0].text, String::from("Go back in time"));
}

#[test]
fn two_choices_prompt_in_filtered_order() {
    let blocks = parse_lines(&lines(&[
        ":- start",
        "  What do you do?",
        "*- Keep walking -> walk -> walk_on",
        "*- Hide from the car -> hide -> hide_away",
        ":- walk_on",
        ":- hide_away",
    ]))
    .unwrap();
    let mut game = GameState::new("Prompt");
    let (out, outcome) = start_blocks(&blocks, &mut game);

    let question = &out[0];
    assert_eq!(question.text, String::from("  What do you do?"));
    assert_eq!(question.color, Color::Cyan);
    assert!(question.question);

    match outcome {
        RunOutcome::Prompt(choices) => {
            assert_eq!(choices.len(), 2);
            let labels = option_labels(&choices);
            assert_eq!(labels[0], String::from("1) Keep walking"));
            assert_eq!(labels[1], String::from("2) Hide from the car"));
        }
        other => panic!("expected a prompt, got {:?}", other),
    }
}

#[test]
fn ordinal_input_matches_presented_position() {
    let choices = vec![
        Choice {
            text: String::from("Keep walking"),
            typed: String::from("walk"),
            result: String::from("walk_on"),
        },
        Choice {
            text: String::from("Hide from the car"),
            typed: String::from("hide"),
            result: String::from("hide_away"),
        },
    ];
    // "2" selects the second presented choice whatever its content.
    assert_eq!(select_choice(&choices, "2"), Some(1));
    assert_eq!(select_choice(&choices, "1"), Some(0));
    // Input equal to a choice's raw target also matches it.
    assert_eq!(select_choice(&choices, "hide_away"), Some(1));
    // Keyword substring matching.
    assert_eq!(select_choice(&choices, "walk"), Some(0));
    assert_eq!(select_choice(&choices, "hid"), Some(1));
    // The sanitized label matches.
    assert_eq!(select_choice(&choices, "keep walking"), Some(0));
    // Nothing matches.
    assert_eq!(select_choice(&choices, "fly away"), None);
}

#[test]
fn dictionary_keywords_match_through_query() {
    let choices = vec![
        Choice {
            text: String::from("Yeah I guess."),
            typed: String::from("@AFFIRMATIVES"),
            result: String::from("neat"),
        },
        Choice {
            text: String::from("Not really."),
            typed: String::from("@NEGATIVES"),
            result: String::from("not_neat"),
        },
    ];
    assert_eq!(select_choice(&choices, "sure"), Some(0));
    assert_eq!(select_choice(&choices, "nah"), Some(1));
    assert_eq!(select_choice(&choices, "perhaps"), None);
}

#[test]
fn play_next_distinguishes_files_blocks_and_misses() {
    let blocks = parse_lines(&lines(&[":- lobby", "A quiet lobby."])).unwrap();
    let mut game = GameState::new("Follow");

    let (_, to_file) = play_next("elsewhere.txt", &blocks, &mut game);
    assert_eq!(to_file, RunOutcome::LoadStory(String::from("elsewhere.txt")));

    let (out, ran) = play_next("lobby", &blocks, &mut game);
    assert_eq!(ran, RunOutcome::End);
    assert_eq!(out[0].text, String::from("A quiet lobby."));
    assert_eq!(game.progress.1, String::from("lobby"));

    let (_, missed) = play_next("cellar", &blocks, &mut game);
    assert_eq!(missed, RunOutcome::TargetNotFound(String::from("cellar")));
}

#[test]
fn find_block_returns_first_match() {
    let blocks = parse_lines(&lines(&[":- a", ":- b", ":- a"])).unwrap();
    assert_eq!(find_block("a", &blocks), Some(0));
    assert_eq!(find_block("b", &blocks), Some(1));
    assert_eq!(find_block("c", &blocks), None);
}

#[test]
fn block_chain_renders_in_order() {
    let blocks = parse_lines(&lines(&[
        ":- one",
        "First.",
        "-> two",
        ":- two",
        "Second.",
        "-> three",
        ":- three",
        "Third.",
    ]))
    .unwrap();
    let mut game = GameState::new("Chain");
    let (out, outcome) = start_blocks(&blocks, &mut game);
    assert_eq!(outcome, RunOutcome::End);
    let texts: Vec<&str> = out.iter().map(|l| l.text.as_str()).collect();
    assert_eq!(texts, vec!["First.", "", "Second.", "", "Third.", ""]);
    assert_eq!(game.progress.1, String::from("three"));
}

#[test]
fn empty_block_struct_is_fresh() {
    let block = StoryBlock::new(String::from("Test GameState"));
    assert_eq!(block.name, String::from("Test GameState"));
    assert!(block.text.is_empty());
    assert!(block.options.is_empty());
}
