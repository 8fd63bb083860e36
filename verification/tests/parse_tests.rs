use intfic::parse_file::{parse_lines, DirectiveFault};
use intfic::story_block::Choice;
use intfic::strmap::StrMap;

fn lines(raw: &[&str]) -> Vec<String> {
    raw.iter().map(|s| String::from(*s)).collect()
}

fn test_fixture() -> Vec<String> {
    lines(&[
        ":- test_0",
        "Welcome to the test story.",
        "*- Pick test one -> one -> test_1",
        "*- Pick test five -> five -> test_5",
        ":- test_1",
        "",
        "You picked test 1!",
        "?- impossible_condition => this should never be seen",
        "?- test_condition => this should always be seen",
        "=- test_condition = false",
        "",
        "-> test_5",
    ])
}

#[test]
fn test_storyblocks() {
    if let Ok(test_blocks) = parse_lines(&test_fixture()) {
        assert_eq!(test_blocks.len(), 2);

        assert_eq!(test_blocks[1].name, "test_1");

        assert_eq!(
            test_blocks[1].text,
            vec!(
                String::from(""),
                String::from("You picked test 1!"),
                String::from("?- impossible_condition => this should never be seen"),
                String::from("?- test_condition => this should always be seen"),
                String::from("")
            )
        );

        assert_eq!(
            test_blocks[1].options,
            vec!(Choice {
                text: String::default(),
                typed: String::default(),
                result: String::from("test_5"),
            })
        );

        let mut test_flags: StrMap<bool> = StrMap::new();
        test_flags.insert("test_condition", false);
        assert_eq!(test_blocks[1].flags, test_flags);

        let test_counters: StrMap<i32> = StrMap::new();
        assert_eq!(test_blocks[1].counters, test_counters);
    } else {
        panic!("Couldn't parse the test story into StoryBlocks");
    }
}

#[test]
fn first_block_collects_choices() {
    let blocks = parse_lines(&test_fixture()).unwrap();
    assert_eq!(blocks[0].name, "test_0");
    assert_eq!(blocks[0].text, vec![String::from("Welcome to the test story.")]);
    assert_eq!(
        blocks[0].options,
        vec![
            Choice {
                text: String::from("Pick test one"),
                typed: String::from("one"),
                result: String::from("test_1"),
            },
            Choice {
                text: String::from("Pick test five"),
                typed: String::from("five"),
                result: String::from("test_5"),
            },
        ]
    );
}

#[test]
fn file_without_block_start_yields_one_unnamed_block() {
    let blocks = parse_lines(&lines(&["Just text.", "More text."])).unwrap();
    assert_eq!(blocks.len(), 1);
    assert_eq!(blocks[0].name, "");
    assert_eq!(
        blocks[0].text,
        vec![String::from("Just text."), String::from("More text.")]
    );
}

#[test]
fn counter_effect_parses_delta() {
    let blocks = parse_lines(&lines(&[":- b", "+- shame + 1", "+- score + -3"])).unwrap();
    assert_eq!(blocks.len(), 1);
    let mut expected: StrMap<i32> = StrMap::new();
    expected.insert("shame", 1);
    expected.insert("score", -3);
    assert_eq!(blocks[0].counters, expected);
}

#[test]
fn block_start_without_space_is_malformed() {
    let err = parse_lines(&lines(&[":-oops"])).unwrap_err();
    assert_eq!(err.line, 1);
    assert_eq!(err.fault, DirectiveFault::MissingSpace);
}

#[test]
fn flag_without_delimiter_is_malformed() {
    let err = parse_lines(&lines(&[":- a", "=- flagname"])).unwrap_err();
    assert_eq!(err.line, 2);
    assert_eq!(err.fault, DirectiveFault::MissingDelimiter);
}

#[test]
fn flag_with_bad_bool_is_malformed() {
    let err = parse_lines(&lines(&[":- a", "=- flagname = maybe"])).unwrap_err();
    assert_eq!(err.line, 2);
    assert_eq!(err.fault, DirectiveFault::BadBool);
}

#[test]
fn counter_with_bad_int_is_malformed() {
    let err = parse_lines(&lines(&[":- a", "+- gold + lots"])).unwrap_err();
    assert_eq!(err.line, 2);
    assert_eq!(err.fault, DirectiveFault::BadInt);

    let err = parse_lines(&lines(&[":- a", "+- gold + 99999999999"])).unwrap_err();
    assert_eq!(err.fault, DirectiveFault::BadInt);
}

#[test]
fn choice_with_missing_field_is_malformed() {
    let err = parse_lines(&lines(&[":- a", "*- Only a label"])).unwrap_err();
    assert_eq!(err.line, 2);
    assert_eq!(err.fault, DirectiveFault::MissingField);

    let err = parse_lines(&lines(&[":- a", "*- Label -> keywords"])).unwrap_err();
    assert_eq!(err.line, 2);
    assert_eq!(err.fault, DirectiveFault::MissingField);
}

#[test]
fn direct_transition_parses_to_anonymous_choice() {
    let blocks = parse_lines(&lines(&[":- a", "-> next_block"])).unwrap();
    assert_eq!(
        blocks[0].options,
        vec![Choice {
            text: String::new(),
            typed: String::new(),
            result: String::from("next_block"),
        }]
    );
}

#[test]
fn empty_input_yields_one_empty_block() {
    let blocks = parse_lines(&Vec::new()).unwrap();
    assert_eq!(blocks.len(), 1);
    assert_eq!(blocks[0].name, "");
    assert!(blocks[0].text.is_empty());
    assert!(blocks[0].options.is_empty());
}

#[test]
fn repeated_effect_keys_keep_the_last_value() {
    let blocks = parse_lines(&lines(&[
        ":- b",
        "=- lamp = true",
        "=- lamp = false",
        "+- gold + 2",
        "+- gold + 9",
    ]))
    .unwrap();
    let mut expected_flags: StrMap<bool> = StrMap::new();
    expected_flags.insert("lamp", false);
    assert_eq!(blocks[0].flags, expected_flags);
    let mut expected_counters: StrMap<i32> = StrMap::new();
    expected_counters.insert("gold", 9);
    assert_eq!(blocks[0].counters, expected_counters);
}

#[test]
fn later_duplicate_names_are_accepted() {
    let blocks = parse_lines(&lines(&[":- twin", "First.", ":- twin", "Second."])).unwrap();
    assert_eq!(blocks.len(), 2);
    assert_eq!(blocks[0].name, "twin");
    assert_eq!(blocks[1].name, "twin");
}
