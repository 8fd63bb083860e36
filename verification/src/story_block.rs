//! Story blocks and the machinery that runs them: block lookup, the
//! conditional-text resolver, choice filtering, input matching, effect
//! application, and the interpreter that advances from block to block until
//! the story ends, another story file is needed, or player input is awaited.

use vstd::map::*;
use vstd::prelude::*;

use crate::game_state::{counter_of, flag_of, with_flag, GameState, GameStateV};
use crate::parse_input::{query, query_spec, sanitize, sanitize_spec};
use crate::strmap::StrMap;
use crate::strutil::{
    contains_sub, has_prefix, has_suffix, head_before, i32_to_string, int_dec_str,
    lemma_find_from_props, parse_i32, parse_i32_spec, split_first, str_contains, str_ends_with,
    str_eq, str_starts_with, tail_after,
};
use crate::write_out::{Color, LineV, RenderLine};

verus! {

/// An option connecting a block to a target: the label shown to the player,
/// a free-text keyword field matched against input, and the name of the
/// block or story file to play when chosen.
#[derive(Debug, Clone, PartialEq)]
pub struct Choice {
    /// The label presented to the player; it may begin with a conditional
    /// directive that gates the whole choice.
    pub text: String,
    /// Keywords matched against input: a phrase, or a `@`-prefixed reference
    /// to a named dictionary.
    pub typed: String,
    /// The name of a block in the same story, or of another story file.
    pub result: String,
}

/// The value of a choice.
pub struct ChoiceV {
    /// The label presented to the player.
    pub text: Seq<char>,
    /// The keyword field.
    pub typed: Seq<char>,
    /// The target name.
    pub result: Seq<char>,
}

impl View for Choice {
    type V = ChoiceV;

    open spec fn view(&self) -> ChoiceV {
        ChoiceV { text: self.text@, typed: self.typed@, result: self.result@ }
    }
}

/// An atomic chunk of narrative: a name, the text lines presented in order,
/// the choices offered afterwards, and the flag and counter effects applied
/// to the play state on entry.
///
/// Conditional text and conditional choices are evaluated against the play
/// state as it stands when the block is entered: effects are applied only
/// after the block's own text has been rendered, so a block never reads a
/// value it is itself about to set.
#[derive(Debug, Clone, PartialEq)]
pub struct StoryBlock {
    /// The block's name, referenced as the target of choices.
    pub name: String,
    /// The text lines, in order; a line may carry a directive resolved when
    /// the block is rendered.
    pub text: Vec<String>,
    /// The choices offered to the player.
    pub options: Vec<Choice>,
    /// The flags set when the block is entered.
    pub flags: StrMap<bool>,
    /// The counter deltas applied when the block is entered.
    pub counters: StrMap<i32>,
}

/// The value of a story block.
pub struct BlockV {
    /// The block's name.
    pub name: Seq<char>,
    /// The text lines, in order.
    pub text: Seq<Seq<char>>,
    /// The choices offered.
    pub options: Seq<ChoiceV>,
    /// The flag effects.
    pub flags: Map<Seq<char>, bool>,
    /// The counter effects.
    pub counters: Map<Seq<char>, i32>,
}

impl View for StoryBlock {
    type V = BlockV;

    open spec fn view(&self) -> BlockV {
        BlockV {
            name: self.name@,
            text: self.text@.map_values(|s: String| s@),
            options: self.options@.map_values(|c: Choice| c@),
            flags: self.flags@,
            counters: self.counters@,
        }
    }
}

impl StoryBlock {
    /// Well-formed: both effect stores are well-formed maps.
    pub open spec fn wf(self) -> bool {
        self.flags.wf() && self.counters.wf()
    }

    /// An empty story block with the given name.
    pub fn new(name_in: String) -> (r: StoryBlock)
        ensures
            r.wf(),
            r@.name == name_in@,
            r@.text == Seq::<Seq<char>>::empty(),
            r@.options == Seq::<ChoiceV>::empty(),
            r@.flags == Map::<Seq<char>, bool>::empty(),
            r@.counters == Map::<Seq<char>, i32>::empty(),
    {
        let r = StoryBlock {
            name: name_in,
            text: Vec::new(),
            options: Vec::new(),
            flags: StrMap::new(),
            counters: StrMap::new(),
        };
        proof {
            assert(r@.text =~= Seq::<Seq<char>>::empty());
            assert(r@.options =~= Seq::<ChoiceV>::empty());
        }
        r
    }
}

/// The values of a sequence of blocks.
pub open spec fn blocks_view(blocks: Seq<StoryBlock>) -> Seq<BlockV> {
    blocks.map_values(|b: StoryBlock| b@)
}

/// Every block of the sequence is well-formed.
pub open spec fn blocks_wf(blocks: Seq<StoryBlock>) -> bool {
    forall|i: int| 0 <= i < blocks.len() ==> (#[trigger] blocks[i]).wf()
}

/// The first position at or after `i` of a block with the given name.
pub open spec fn find_block_from(blocks: Seq<BlockV>, name: Seq<char>, i: int) -> Option<int>
    decreases blocks.len() - i,
{
    if i < 0 || i >= blocks.len() {
        None
    } else if blocks[i].name == name {
        Some(i)
    } else {
        find_block_from(blocks, name, i + 1)
    }
}

/// The position of the first block with the given name; lookup is exact and
/// case-sensitive, and duplicates resolve to the first in order.
pub open spec fn find_block_spec(blocks: Seq<BlockV>, name: Seq<char>) -> Option<int> {
    find_block_from(blocks, name, 0)
}

/// Searches the blocks for the first one with the given name.
pub fn find_block(name: &str, blocks: &Vec<StoryBlock>) -> (r: Option<usize>)
    ensures
        match r {
            Some(i) => i < blocks@.len() && find_block_spec(blocks_view(blocks@), name@) == Some(
                i as int,
            ),
            None => find_block_spec(blocks_view(blocks@), name@) is None,
        },
{
    let n = blocks.len();
    let mut i: usize = 0;
    while i < n
        invariant
            i <= n,
            n == blocks@.len(),
            find_block_from(blocks_view(blocks@), name@, 0) == find_block_from(
                blocks_view(blocks@),
                name@,
                i as int,
            ),
        decreases n - i,
    {
        if str_eq(blocks[i].name.as_str(), name) {
            proof {
                assert(blocks_view(blocks@)[i as int].name == name@);
            }
            return Some(i);
        }
        proof {
            assert(blocks_view(blocks@)[i as int].name == blocks@[i as int].name@);
        }
        i += 1;
    }
    None
}

/// The truth of a counter predicate of the shape `#- name OP int` with `OP`
/// one of `<`, `<=`, `==`, `>=`, `>`, read against the play state. A
/// predicate whose pieces are missing, whose number does not parse, or whose
/// operator is not recognized is false.
pub open spec fn check_counter_spec(cond: Seq<char>, st: GameStateV) -> bool {
    match tail_after(cond, " "@) {
        None => false,
        Some(r1) => {
            let name = head_before(r1, " "@);
            match tail_after(r1, " "@) {
                None => false,
                Some(r2) => {
                    let op = head_before(r2, " "@);
                    match tail_after(r2, " "@) {
                        None => false,
                        Some(r3) => {
                            let numstr = head_before(r3, " "@);
                            match parse_i32_spec(numstr) {
                                None => false,
                                Some(rhs) => {
                                    let lhs = counter_of(st, name);
                                    if op == "<"@ {
                                        lhs < rhs
                                    } else if op == "<="@ {
                                        lhs <= rhs
                                    } else if op == "=="@ {
                                        lhs == rhs
                                    } else if op == ">="@ {
                                        lhs >= rhs
                                    } else if op == ">"@ {
                                        lhs > rhs
                                    } else {
                                        false
                                    }
                                },
                            }
                        },
                    }
                },
            }
        },
    }
}

/// Evaluates a counter predicate of the shape `#- name OP int` against the
/// play state.
pub fn check_counter(cond: &str, game: &GameState) -> (r: bool)
    requires
        game.wf(),
    ensures
        r == check_counter_spec(cond@, game@),
{
    let (_, rest1) = split_first(cond, " ");
    let r1 = match rest1 {
        Some(r) => r,
        None => {
            return false;
        },
    };
    let (name, rest2) = split_first(r1, " ");
    let r2 = match rest2 {
        Some(r) => r,
        None => {
            return false;
        },
    };
    let (op, rest3) = split_first(r2, " ");
    let r3 = match rest3 {
        Some(r) => r,
        None => {
            return false;
        },
    };
    let (numstr, _) = split_first(r3, " ");
    let rhs = match parse_i32(numstr) {
        Some(v) => v,
        None => {
            return false;
        },
    };
    let lhs = game.get_counter(name);
    if str_eq(op, "<") {
        lhs < rhs
    } else if str_eq(op, "<=") {
        lhs <= rhs
    } else if str_eq(op, "==") {
        lhs == rhs
    } else if str_eq(op, ">=") {
        lhs >= rhs
    } else if str_eq(op, ">") {
        lhs > rhs
    } else {
        false
    }
}

/// The flag named by the condition piece of a flag-conditional line: the
/// characters after the `?- ` prefix, or the empty (and hence unset) name
/// when the piece is shorter than the prefix.
pub open spec fn cond_flag_name(head: Seq<char>) -> Seq<char> {
    if head.len() >= 3 {
        head.subrange(3, head.len() as int)
    } else {
        Seq::empty()
    }
}

/// What a text line resolves to against the play state: at most one line to
/// render.
///
/// A line opening with `?- flag => then [=> else]` renders its then-branch
/// when the flag is set and its else-branch, if present, when not; a line
/// opening with `#- counter OP int => then [=> else]` does the same for a
/// counter predicate. The chosen branch is resolved again, so branches may
/// nest conditionals and color marks. A conditional whose chosen branch is
/// missing renders nothing. A `-y `, `-b `, `-g ` or `-r ` mark colors the
/// rest of the line; two leading spaces mark a question prompt; any other
/// line renders as plain text.
pub open spec fn resolve_line_spec(line: Seq<char>, st: GameStateV) -> Option<LineV>
    decreases line.len(),
    via resolve_line_decreases
{
    if has_prefix(line, "?-"@) {
        let head = head_before(line, " => "@);
        if flag_of(st, cond_flag_name(head)) {
            match tail_after(line, " => "@) {
                Some(rest) => resolve_line_spec(head_before(rest, " => "@), st),
                None => None,
            }
        } else {
            match tail_after(line, " => "@) {
                Some(rest) => match tail_after(rest, " => "@) {
                    Some(rest2) => resolve_line_spec(head_before(rest2, " => "@), st),
                    None => None,
                },
                None => None,
            }
        }
    } else if has_prefix(line, "#-"@) {
        if check_counter_spec(head_before(line, " => "@), st) {
            match tail_after(line, " => "@) {
                Some(rest) => resolve_line_spec(head_before(rest, " => "@), st),
                None => None,
            }
        } else {
            match tail_after(line, " => "@) {
                Some(rest) => match tail_after(rest, " => "@) {
                    Some(rest2) => resolve_line_spec(head_before(rest2, " => "@), st),
                    None => None,
                },
                None => None,
            }
        }
    } else if has_prefix(line, "-y "@) {
        Some(
            LineV {
                text: line.subrange(3, line.len() as int),
                color: Color::Yellow,
                question: false,
            },
        )
    } else if has_prefix(line, "-b "@) {
        Some(
            LineV { text: line.subrange(3, line.len() as int), color: Color::Blue, question: false },
        )
    } else if has_prefix(line, "-g "@) {
        Some(
            LineV {
                text: line.subrange(3, line.len() as int),
                color: Color::Green,
                question: false,
            },
        )
    } else if has_prefix(line, "-r "@) {
        Some(
            LineV { text: line.subrange(3, line.len() as int), color: Color::Red, question: false },
        )
    } else if has_prefix(line, "  "@) {
        Some(LineV { text: line, color: Color::Cyan, question: true })
    } else {
        Some(LineV { text: line, color: Color::White, question: false })
    }
}

#[via_fn]
proof fn resolve_line_decreases(line: Seq<char>, st: GameStateV) {
    reveal_strlit(" => ");
    lemma_branch_shorter(line);
}

/// The pieces a conditional line resolves into are strictly shorter than the
/// line: each lies after a separator occurrence within it.
proof fn lemma_branch_shorter(line: Seq<char>)
    ensures
        match tail_after(line, " => "@) {
            Some(rest) => {
                &&& rest.len() < line.len()
                &&& head_before(rest, " => "@).len() < line.len()
                &&& match tail_after(rest, " => "@) {
                    Some(rest2) => {
                        &&& rest2.len() < line.len()
                        &&& head_before(rest2, " => "@).len() < line.len()
                    },
                    None => true,
                }
            },
            None => true,
        },
{
    reveal_strlit(" => ");
    let sep = " => "@;
    lemma_find_from_props(line, sep, 0);
    match tail_after(line, sep) {
        Some(rest) => {
            lemma_find_from_props(rest, sep, 0);
            match tail_after(rest, sep) {
                Some(rest2) => {
                    lemma_find_from_props(rest2, sep, 0);
                },
                None => {},
            }
        },
        None => {},
    }
}

/// Resolves one text line against the play state, returning the line to
/// render, if the line renders at all.
pub fn read_line(line: &str, game: &GameState) -> (r: Option<RenderLine>)
    requires
        game.wf(),
    ensures
        match r {
            Some(l) => resolve_line_spec(line@, game@) == Some(l@),
            None => resolve_line_spec(line@, game@) is None,
        },
    decreases line@.len(),
{
    if str_starts_with(line, "?-") {
        let (head, rest) = split_first(line, " => ");
        let flag_set = if head.unicode_len() >= 3 {
            let fname = head.substring_char(3, head.unicode_len());
            proof {
                assert(cond_flag_name(head@) == fname@);
            }
            game.get_flag(fname)
        } else {
            proof {
                assert(Seq::<char>::empty() =~= ""@) by {
                    reveal_strlit("");
                }
            }
            game.get_flag("")
        };
        proof {
            lemma_branch_shorter(line@);
        }
        if flag_set {
            match rest {
                Some(r) => {
                    let (then_branch, _) = split_first(r, " => ");
                    read_line(then_branch, game)
                },
                None => None,
            }
        } else {
            match rest {
                Some(r) => {
                    let (_, rest2) = split_first(r, " => ");
                    match rest2 {
                        Some(r2) => {
                            let (else_branch, _) = split_first(r2, " => ");
                            read_line(else_branch, game)
                        },
                        None => None,
                    }
                },
                None => None,
            }
        }
    } else if str_starts_with(line, "#-") {
        let (head, rest) = split_first(line, " => ");
        let cond = check_counter(head, game);
        proof {
            lemma_branch_shorter(line@);
        }
        if cond {
            match rest {
                Some(r) => {
                    let (then_branch, _) = split_first(r, " => ");
                    read_line(then_branch, game)
                },
                None => None,
            }
        } else {
            match rest {
                Some(r) => {
                    let (_, rest2) = split_first(r, " => ");
                    match rest2 {
                        Some(r2) => {
                            let (else_branch, _) = split_first(r2, " => ");
                            read_line(else_branch, game)
                        },
                        None => None,
                    }
                },
                None => None,
            }
        }
    } else if str_starts_with(line, "-y ") {
        proof {
            reveal_strlit("-y ");
        }
        Some(
            RenderLine {
                text: line.substring_char(3, line.unicode_len()).to_owned(),
                color: Color::Yellow,
                question: false,
            },
        )
    } else if str_starts_with(line, "-b ") {
        proof {
            reveal_strlit("-b ");
        }
        Some(
            RenderLine {
                text: line.substring_char(3, line.unicode_len()).to_owned(),
                color: Color::Blue,
                question: false,
            },
        )
    } else if str_starts_with(line, "-g ") {
        proof {
            reveal_strlit("-g ");
        }
        Some(
            RenderLine {
                text: line.substring_char(3, line.unicode_len()).to_owned(),
                color: Color::Green,
                question: false,
            },
        )
    } else if str_starts_with(line, "-r ") {
        proof {
            reveal_strlit("-r ");
        }
        Some(
            RenderLine {
                text: line.substring_char(3, line.unicode_len()).to_owned(),
                color: Color::Red,
                question: false,
            },
        )
    } else if str_starts_with(line, "  ") {
        Some(RenderLine { text: line.to_owned(), color: Color::Cyan, question: true })
    } else {
        Some(RenderLine { text: line.to_owned(), color: Color::White, question: false })
    }
}

/// What filtering does to one choice: a choice whose label opens with a
/// flag-conditional or counter-conditional directive is kept, with the
/// then-branch as its label, exactly when the condition holds against the
/// play state — there is no else-branch for choices; an unconditional
/// choice is kept as it is.
pub open spec fn filter_choice_spec(c: ChoiceV, st: GameStateV) -> Option<ChoiceV> {
    if has_prefix(c.text, "?-"@) {
        if flag_of(st, cond_flag_name(head_before(c.text, " => "@))) {
            match tail_after(c.text, " => "@) {
                Some(rest) => Some(
                    ChoiceV { text: head_before(rest, " => "@), typed: c.typed, result: c.result },
                ),
                None => None,
            }
        } else {
            None
        }
    } else if has_prefix(c.text, "#-"@) {
        if check_counter_spec(head_before(c.text, " => "@), st) {
            match tail_after(c.text, " => "@) {
                Some(rest) => Some(
                    ChoiceV { text: head_before(rest, " => "@), typed: c.typed, result: c.result },
                ),
                None => None,
            }
        } else {
            None
        }
    } else {
        Some(c)
    }
}

/// The choices that pass filtering, in their original order, each with its
/// resolved label.
pub open spec fn filter_options_spec(opts: Seq<ChoiceV>, st: GameStateV) -> Seq<ChoiceV>
    decreases opts.len(),
{
    if opts.len() == 0 {
        Seq::empty()
    } else {
        let rest = filter_options_spec(opts.drop_last(), st);
        match filter_choice_spec(opts.last(), st) {
            Some(c) => rest.push(c),
            None => rest,
        }
    }
}

/// A copy of a choice.
fn clone_choice(c: &Choice) -> (r: Choice)
    ensures
        r@ == c@,
{
    Choice { text: c.text.clone(), typed: c.typed.clone(), result: c.result.clone() }
}

/// Filters one choice against the play state.
fn filter_choice(c: &Choice, game: &GameState) -> (r: Option<Choice>)
    requires
        game.wf(),
    ensures
        match r {
            Some(kept) => filter_choice_spec(c@, game@) == Some(kept@),
            None => filter_choice_spec(c@, game@) is None,
        },
{
    if str_starts_with(c.text.as_str(), "?-") {
        let (head, rest) = split_first(c.text.as_str(), " => ");
        let flag_set = if head.unicode_len() >= 3 {
            let fname = head.substring_char(3, head.unicode_len());
            proof {
                assert(cond_flag_name(head@) == fname@);
            }
            game.get_flag(fname)
        } else {
            proof {
                assert(Seq::<char>::empty() =~= ""@) by {
                    reveal_strlit("");
                }
            }
            game.get_flag("")
        };
        if flag_set {
            match rest {
                Some(r) => {
                    let (then_branch, _) = split_first(r, " => ");
                    Some(
                        Choice {
                            text: then_branch.to_owned(),
                            typed: c.typed.clone(),
                            result: c.result.clone(),
                        },
                    )
                },
                None => None,
            }
        } else {
            None
        }
    } else if str_starts_with(c.text.as_str(), "#-") {
        let (head, rest) = split_first(c.text.as_str(), " => ");
        if check_counter(head, game) {
            match rest {
                Some(r) => {
                    let (then_branch, _) = split_first(r, " => ");
                    Some(
                        Choice {
                            text: then_branch.to_owned(),
                            typed: c.typed.clone(),
                            result: c.result.clone(),
                        },
                    )
                },
                None => None,
            }
        } else {
            None
        }
    } else {
        Some(clone_choice(c))
    }
}

/// The view of a vector of choices.
pub open spec fn choices_view(cs: Seq<Choice>) -> Seq<ChoiceV> {
    cs.map_values(|c: Choice| c@)
}

/// Keeps the choices whose conditions hold against the play state, in their
/// original order, each with its resolved label.
pub fn filter_options(options: &Vec<Choice>, game: &GameState) -> (r: Vec<Choice>)
    requires
        game.wf(),
    ensures
        choices_view(r@) == filter_options_spec(choices_view(options@), game@),
{
    let n = options.len();
    let mut filtered: Vec<Choice> = Vec::new();
    proof {
        assert(choices_view(options@.subrange(0, 0)) =~= Seq::<ChoiceV>::empty());
        assert(choices_view(filtered@) =~= Seq::<ChoiceV>::empty());
    }
    let mut i: usize = 0;
    while i < n
        invariant
            i <= n,
            n == options@.len(),
            game.wf(),
            choices_view(filtered@) == filter_options_spec(
                choices_view(options@.subrange(0, i as int)),
                game@,
            ),
        decreases n - i,
    {
        let ghost pre = choices_view(options@.subrange(0, i as int));
        let ghost pre1 = choices_view(options@.subrange(0, i + 1));
        proof {
            assert(pre1.drop_last() =~= pre);
            assert(pre1.last() == options@[i as int]@);
        }
        match filter_choice(&options[i], game) {
            Some(kept) => {
                let ghost filtered0 = filtered@;
                filtered.push(kept);
                proof {
                    assert(choices_view(filtered@) =~= choices_view(filtered0).push(kept@));
                }
            },
            None => {},
        }
        i += 1;
    }
    proof {
        assert(options@.subrange(0, n as int) =~= options@);
    }
    filtered
}

/// Whether a normalized input selects a choice presented at 1-based position
/// `num`: the input equals the sanitized label, or the raw target name, or
/// the decimal ordinal, or occurs inside the keyword field, or the keyword
/// field is a `@`-prefixed dictionary reference whose dictionary lists the
/// input.
pub open spec fn match_option_spec(c: ChoiceV, input: Seq<char>, num: int) -> bool {
    ||| sanitize_spec(c.text) == input
    ||| c.result == input
    ||| int_dec_str(num) == input
    ||| contains_sub(c.typed, input)
    ||| (c.typed.len() > 0 && c.typed[0] == '@' && query_spec(c.typed, input))
}

impl Choice {
    /// Whether the given normalized input selects this choice, presented at
    /// 1-based position `num`.
    pub fn match_option(&self, input: &str, num: i32) -> (r: bool)
        ensures
            r == match_option_spec(self@, input@, num as int),
    {
        let sanitized = sanitize(self.text.clone());
        if str_eq(sanitized.as_str(), input) {
            return true;
        }
        if str_eq(self.result.as_str(), input) {
            return true;
        }
        let ordinal = i32_to_string(num);
        if str_eq(ordinal.as_str(), input) {
            return true;
        }
        if str_contains(self.typed.as_str(), input) {
            return true;
        }
        if self.typed.as_str().unicode_len() > 0 && self.typed.as_str().get_char(0) == '@' {
            return query(self.typed.as_str(), input);
        }
        false
    }
}

/// The label under which the choice at 0-based position `i` is presented:
/// its 1-based number, a closing parenthesis and a space, then its text.
pub open spec fn numbered_label(c: ChoiceV, i: int) -> Seq<char> {
    int_dec_str(i + 1) + ") "@ + c.text
}

/// The numbered labels under which the given choices are presented.
pub fn option_labels(options: &Vec<Choice>) -> (r: Vec<String>)
    requires
        options@.len() <= 0x7fff_ffff,
    ensures
        r@.len() == options@.len(),
        forall|i: int| 0 <= i < r@.len() ==> r@[i]@ == numbered_label(options@[i]@, i),
{
    let n = options.len();
    let mut labels: Vec<String> = Vec::new();
    let mut i: usize = 0;
    while i < n
        invariant
            i <= n,
            n == options@.len(),
            n <= 0x7fff_ffff,
            labels@.len() == i,
            forall|j: int| 0 <= j < i ==> labels@[j]@ == numbered_label(options@[j]@, j),
        decreases n - i,
    {
        let mut label = i32_to_string((i as i32) + 1);
        label.append(") ");
        label.append(options[i].text.as_str());
        labels.push(label);
        i += 1;
    }
    labels
}

/// The first presented choice that the input selects, if any: the choice at
/// the returned position matches and no earlier one does.
pub fn select_choice(options: &Vec<Choice>, input: &str) -> (r: Option<usize>)
    requires
        options@.len() <= 0x7fff_ffff,
    ensures
        match r {
            Some(i) => i < options@.len() && match_option_spec(options@[i as int]@, input@, i + 1)
                && forall|j: int|
                0 <= j < i ==> !match_option_spec(options@[j]@, input@, j + 1),
            None => forall|j: int|
                0 <= j < options@.len() ==> !match_option_spec(options@[j]@, input@, j + 1),
        },
{
    let n = options.len();
    let mut i: usize = 0;
    while i < n
        invariant
            i <= n,
            n == options@.len(),
            n <= 0x7fff_ffff,
            forall|j: int| 0 <= j < i ==> !match_option_spec(options@[j]@, input@, j + 1),
        decreases n - i,
    {
        if options[i].match_option(input, (i as i32) + 1) {
            return Some(i);
        }
        i += 1;
    }
    None
}

/// Some entry among the first `n` binds the key `k`.
pub open spec fn key_among<V>(pairs: Seq<(Seq<char>, V)>, n: int, k: Seq<char>) -> bool {
    exists|j: int| 0 <= j < n && (#[trigger] pairs[j]).0 == k
}

/// The play state after a block's flag effects: every flag the block sets
/// takes the block's value, and all other flags are unchanged.
pub open spec fn apply_flags_spec(st: GameStateV, eff: Map<Seq<char>, bool>) -> GameStateV {
    GameStateV { flags: st.flags.union_prefer_right(eff), ..st }
}

/// The play state after a block's counter effects: every counter the block
/// touches has the block's delta added to its value, an unset counter
/// reading zero and the sum wrapping on overflow; all other counters are
/// unchanged.
pub open spec fn apply_counters_spec(st: GameStateV, eff: Map<Seq<char>, i32>) -> GameStateV {
    GameStateV {
        counters: Map::new(
            |k: Seq<char>| st.counters.contains_key(k) || eff.contains_key(k),
            |k: Seq<char>|
                if eff.contains_key(k) {
                    vstd::wrapping::i32_specs::wrapping_add(counter_of(st, k), eff[k])
                } else {
                    st.counters[k]
                },
        ),
        ..st
    }
}

/// The play state after a block's effects: its flags applied first, then its
/// counter deltas.
pub open spec fn apply_effects_spec(b: BlockV, st: GameStateV) -> GameStateV {
    apply_counters_spec(apply_flags_spec(st, b.flags), b.counters)
}

impl StoryBlock {
    /// Applies this block's effects to the play state: every flag entry
    /// through `set_flag`, then every counter entry through
    /// `update_counter`.
    pub fn apply_effects(&self, game: &mut GameState)
        requires
            self.wf(),
            old(game).wf(),
        ensures
            final(game).wf(),
            final(game)@ == apply_effects_spec(self@, old(game)@),
    {
        let ghost st0 = game@;
        let ghost fpairs = self.flags.spec_pairs();
        let nf = self.flags.len();
        let mut i: usize = 0;
        while i < nf
            invariant
                i <= nf,
                self.wf(),
                game.wf(),
                nf == fpairs.len(),
                fpairs == self.flags.spec_pairs(),
                game@.name == st0.name,
                game@.story == st0.story,
                game@.block == st0.block,
                game@.counters == st0.counters,
                forall|j: int|
                    0 <= j < i ==> game@.flags.contains_key(#[trigger] fpairs[j].0)
                        && game@.flags[fpairs[j].0] == fpairs[j].1,
                forall|k: Seq<char>|
                    !key_among(fpairs, i as int, k) ==> game@.flags.contains_key(k)
                        == st0.flags.contains_key(k) && (game@.flags.contains_key(k)
                        ==> game@.flags[k] == st0.flags[k]),
            decreases nf - i,
        {
            proof {
                self.flags.lemma_pairs();
            }
            let entry = self.flags.entry_at(i);
            let ghost pre = game@;
            game.set_flag(entry.0.as_str(), entry.1);
            let ghost iprev = i as int;
            i += 1;
            proof {
                assert forall|j: int|
                    0 <= j < i as int implies game@.flags.contains_key(#[trigger] fpairs[j].0)
                    && game@.flags[fpairs[j].0] == fpairs[j].1 by {
                    if j < iprev {
                        assert(fpairs[j].0 != fpairs[iprev].0);
                    }
                }
                assert forall|k: Seq<char>| !key_among(fpairs, i as int, k) implies game@
                    .flags.contains_key(k) == st0.flags.contains_key(k) && (game@
                    .flags.contains_key(k) ==> game@.flags[k] == st0.flags[k]) by {
                    assert(!key_among(fpairs, iprev, k));
                    assert(k != fpairs[iprev].0);
                }
            }
        }
        let ghost st1 = game@;
        proof {
            self.flags.lemma_pairs();
            assert_maps_equal!(st1.flags, st0.flags.union_prefer_right(self.flags@), k => {
                if self.flags@.contains_key(k) {
                    let j = choose|j: int|
                        0 <= j < fpairs.len() && (#[trigger] fpairs[j]).0 == k;
                    assert(st1.flags.contains_key(k) && st1.flags[k] == fpairs[j].1);
                    assert(self.flags@[k] == fpairs[j].1);
                } else {
                    if key_among(fpairs, nf as int, k) {
                        let j = choose|j: int| 0 <= j < nf && (#[trigger] fpairs[j]).0 == k;
                        assert(self.flags@.contains_key(fpairs[j].0));
                        assert(false);
                    }
                }
            });
            assert(st1 == apply_flags_spec(st0, self.flags@));
        }
        let ghost cpairs = self.counters.spec_pairs();
        let nc = self.counters.len();
        let mut i2: usize = 0;
        while i2 < nc
            invariant
                i2 <= nc,
                self.wf(),
                game.wf(),
                nc == cpairs.len(),
                cpairs == self.counters.spec_pairs(),
                game@.name == st1.name,
                game@.story == st1.story,
                game@.block == st1.block,
                game@.flags == st1.flags,
                forall|j: int|
                    0 <= j < i2 ==> game@.counters.contains_key(#[trigger] cpairs[j].0)
                        && game@.counters[cpairs[j].0]
                        == vstd::wrapping::i32_specs::wrapping_add(
                        counter_of(st1, cpairs[j].0),
                        cpairs[j].1,
                    ),
                forall|k: Seq<char>|
                    !key_among(cpairs, i2 as int, k) ==> game@.counters.contains_key(k)
                        == st1.counters.contains_key(k) && (game@.counters.contains_key(k)
                        ==> game@.counters[k] == st1.counters[k]),
            decreases nc - i2,
        {
            proof {
                self.counters.lemma_pairs();
            }
            let entry = self.counters.entry_at(i2);
            proof {
                assert(!key_among(cpairs, i2 as int, cpairs[i2 as int].0));
                assert(counter_of(game@, cpairs[i2 as int].0) == counter_of(
                    st1,
                    cpairs[i2 as int].0,
                ));
            }
            game.update_counter(entry.0.as_str(), entry.1);
            let ghost iprev = i2 as int;
            i2 += 1;
            proof {
                assert forall|j: int|
                    0 <= j < i2 as int implies game@.counters.contains_key(#[trigger] cpairs[j].0)
                    && game@.counters[cpairs[j].0] == vstd::wrapping::i32_specs::wrapping_add(
                    counter_of(st1, cpairs[j].0),
                    cpairs[j].1,
                ) by {
                    if j < iprev {
                        assert(cpairs[j].0 != cpairs[iprev].0);
                    }
                }
                assert forall|k: Seq<char>| !key_among(cpairs, i2 as int, k) implies game@
                    .counters.contains_key(k) == st1.counters.contains_key(k) && (game@
                    .counters.contains_key(k) ==> game@.counters[k] == st1.counters[k]) by {
                    assert(!key_among(cpairs, iprev, k));
                    assert(k != cpairs[iprev].0);
                }
            }
        }
        proof {
            self.counters.lemma_pairs();
            let target = apply_counters_spec(st1, self.counters@);
            assert_maps_equal!(game@.counters, target.counters, k => {
                if self.counters@.contains_key(k) {
                    let j = choose|j: int|
                        0 <= j < cpairs.len() && (#[trigger] cpairs[j]).0 == k;
                    assert(game@.counters.contains_key(k));
                    assert(game@.counters[k] == vstd::wrapping::i32_specs::wrapping_add(
                        counter_of(st1, k),
                        cpairs[j].1,
                    ));
                    assert(self.counters@[k] == cpairs[j].1);
                } else {
                    if key_among(cpairs, nc as int, k) {
                        let j = choose|j: int| 0 <= j < nc && (#[trigger] cpairs[j]).0 == k;
                        assert(self.counters@.contains_key(cpairs[j].0));
                        assert(false);
                    }
                }
            });
            assert(game@ == apply_effects_spec(self@, st0));
        }
    }
}

/// The values of a sequence of render lines.
pub open spec fn lines_view(ls: Seq<RenderLine>) -> Seq<LineV> {
    ls.map_values(|l: RenderLine| l@)
}

/// The blank line written after a block's text.
pub open spec fn blank_line() -> LineV {
    LineV { text: Seq::empty(), color: Color::White, question: false }
}

/// The lines that a block's text resolves to against the play state, in
/// order, lines whose condition fails and has no else-branch omitted.
pub open spec fn render_lines_spec(texts: Seq<Seq<char>>, st: GameStateV) -> Seq<LineV>
    decreases texts.len(),
{
    if texts.len() == 0 {
        Seq::empty()
    } else {
        let rest = render_lines_spec(texts.drop_last(), st);
        match resolve_line_spec(texts.last(), st) {
            Some(l) => rest.push(l),
            None => rest,
        }
    }
}

/// A block's rendered text: its resolved lines followed by a blank line.
pub open spec fn block_lines_spec(texts: Seq<Seq<char>>, st: GameStateV) -> Seq<LineV> {
    render_lines_spec(texts, st).push(blank_line())
}

impl StoryBlock {
    /// Resolves this block's text lines in order, keeping those that render,
    /// and closes with the blank line that follows a block's text.
    pub fn read_text(&self, game: &GameState) -> (r: Vec<RenderLine>)
        requires
            game.wf(),
        ensures
            lines_view(r@) == block_lines_spec(self@.text, game@),
    {
        let ghost ts = self@.text;
        let n = self.text.len();
        let mut out: Vec<RenderLine> = Vec::new();
        proof {
            assert(ts.subrange(0, 0) =~= Seq::<Seq<char>>::empty());
            assert(lines_view(out@) =~= Seq::<LineV>::empty());
        }
        let mut i: usize = 0;
        while i < n
            invariant
                i <= n,
                game.wf(),
                n == self.text@.len(),
                ts == self@.text,
                ts.len() == n,
                lines_view(out@) == render_lines_spec(ts.subrange(0, i as int), game@),
            decreases n - i,
        {
            proof {
                assert(ts.subrange(0, i + 1).drop_last() =~= ts.subrange(0, i as int));
                assert(ts.subrange(0, i + 1).last() == ts[i as int]);
                assert(ts[i as int] == self.text@[i as int]@);
            }
            match read_line(self.text[i].as_str(), game) {
                Some(l) => {
                    let ghost out0 = out@;
                    out.push(l);
                    proof {
                        assert(lines_view(out@) =~= lines_view(out0).push(l@));
                    }
                },
                None => {},
            }
            i += 1;
        }
        proof {
            assert(ts.subrange(0, n as int) =~= ts);
        }
        let ghost out0 = out@;
        out.push(RenderLine { text: String::new(), color: Color::White, question: false });
        proof {
            assert(lines_view(out@) =~= lines_view(out0).push(blank_line()));
        }
        out
    }
}

/// How a run pauses or ends.
#[derive(Debug, PartialEq)]
pub enum RunOutcome {
    /// The block offered no remaining choices: the narrative branch ends.
    End,
    /// No block with the sought name exists: the branch ends, to be
    /// reported.
    BlockNotFound(String),
    /// A chosen target names neither a block nor a story file: the branch
    /// ends, to be reported.
    TargetNotFound(String),
    /// The chosen target names another story file; the caller loads it and
    /// plays on from its first block.
    LoadStory(String),
    /// Two or more choices remain: the caller presents them, in this order,
    /// and reads input.
    Prompt(Vec<Choice>),
    /// The run exceeded the transition budget that guards against an
    /// endless chain of blocks.
    StepLimit,
}

/// The value of a run outcome.
pub enum RunOutcomeV {
    /// The branch ends with no choices left.
    End,
    /// No block with the sought name exists.
    BlockNotFound(Seq<char>),
    /// A chosen target resolves to nothing.
    TargetNotFound(Seq<char>),
    /// Another story file is to be loaded.
    LoadStory(Seq<char>),
    /// The remaining choices are presented and input is awaited.
    Prompt(Seq<ChoiceV>),
    /// The transition budget was exceeded.
    StepLimit,
}

impl View for RunOutcome {
    type V = RunOutcomeV;

    open spec fn view(&self) -> RunOutcomeV {
        match self {
            RunOutcome::End => RunOutcomeV::End,
            RunOutcome::BlockNotFound(n) => RunOutcomeV::BlockNotFound(n@),
            RunOutcome::TargetNotFound(n) => RunOutcomeV::TargetNotFound(n@),
            RunOutcome::LoadStory(n) => RunOutcomeV::LoadStory(n@),
            RunOutcome::Prompt(cs) => RunOutcomeV::Prompt(choices_view(cs@)),
            RunOutcome::StepLimit => RunOutcomeV::StepLimit,
        }
    }
}

/// How many block-to-block transitions one run may take before it is
/// stopped defensively: enough for any story that ever finishes.
pub open spec fn step_limit() -> nat {
    0xffff_ffff_ffff_ffff
}

/// The play state with another current block name.
pub open spec fn with_block_name(st: GameStateV, b: Seq<char>) -> GameStateV {
    GameStateV { block: b, ..st }
}

/// Prepends already-rendered lines to a run result.
pub open spec fn run_prepend(
    pre: Seq<LineV>,
    r: Option<(Seq<LineV>, GameStateV, RunOutcomeV)>,
) -> Option<(Seq<LineV>, GameStateV, RunOutcomeV)> {
    match r {
        None => None,
        Some((l, s, oc)) => Some((pre + l, s, oc)),
    }
}

/// What running from the named block yields, with fuel for the block-to-
/// block transitions taken: the lines rendered in order, the play state
/// reached, and how the run pauses or ends.
///
/// A found block first records its name as the current position, then
/// renders its text against that state, then applies its effects, then
/// filters its choices against the updated state. No remaining choice ends
/// the branch; a single remaining choice is followed at once, without any
/// prompt; two or more are handed out to be presented.
pub open spec fn run_spec(
    blocks: Seq<BlockV>,
    name: Seq<char>,
    st: GameStateV,
    fuel: nat,
) -> Option<(Seq<LineV>, GameStateV, RunOutcomeV)>
    decreases fuel, 1int,
{
    match find_block_spec(blocks, name) {
        None => Some((Seq::empty(), st, RunOutcomeV::BlockNotFound(name))),
        Some(bi) => {
            let b = blocks[bi];
            let st1 = with_block_name(st, b.name);
            let lines = block_lines_spec(b.text, st1);
            let st2 = apply_effects_spec(b, st1);
            let filtered = filter_options_spec(b.options, st2);
            if filtered.len() == 0 {
                Some((lines, st2, RunOutcomeV::End))
            } else if filtered.len() == 1 {
                run_prepend(lines, follow_spec(blocks, filtered[0].result, st2, fuel))
            } else {
                Some((lines, st2, RunOutcomeV::Prompt(filtered)))
            }
        },
    }
}

/// What following a chosen target yields: a target with the story-file
/// suffix asks for that story to be loaded; a target naming a block of this
/// story clears the `saved` safety flag and runs that block; any other
/// target is reported as not found.
pub open spec fn follow_spec(
    blocks: Seq<BlockV>,
    target: Seq<char>,
    st: GameStateV,
    fuel: nat,
) -> Option<(Seq<LineV>, GameStateV, RunOutcomeV)>
    decreases fuel, 0int,
{
    if has_suffix(target, ".txt"@) {
        Some((Seq::empty(), with_flag(st, "saved"@, false), RunOutcomeV::LoadStory(target)))
    } else {
        match find_block_spec(blocks, target) {
            None => Some((Seq::empty(), st, RunOutcomeV::TargetNotFound(target))),
            Some(_) => if fuel == 0 {
                None
            } else {
                run_spec(blocks, target, with_flag(st, "saved"@, false), (fuel - 1) as nat)
            },
        }
    }
}

/// Runs the story from the block with the given name: renders text, applies
/// effects, and follows single remaining choices from block to block, until
/// the branch ends, another story file is needed, input is awaited, or a
/// name resolves to nothing. Returns the rendered lines in order together
/// with the outcome; the play state records the last block entered.
#[verifier::rlimit(100)]
pub fn start_block(name: String, blocks: &Vec<StoryBlock>, game: &mut GameState) -> (out: (
    Vec<RenderLine>,
    RunOutcome,
))
    requires
        blocks_wf(blocks@),
        old(game).wf(),
    ensures
        final(game).wf(),
        (exists|fuel: nat|
            run_spec(blocks_view(blocks@), name@, old(game)@, fuel) == Some(
                (lines_view(out.0@), final(game)@, out.1@),
            )) || (out.1@ == RunOutcomeV::StepLimit && run_spec(
            blocks_view(blocks@),
            name@,
            old(game)@,
            step_limit(),
        ) is None),
{
    let ghost bv = blocks_view(blocks@);
    let ghost st_init = old(game)@;
    let ghost name0 = name@;
    let mut lines: Vec<RenderLine> = Vec::new();
    let mut current = name;
    let mut remaining: u64 = 0xffff_ffff_ffff_ffff;
    let ghost mut steps: nat = 0;
    proof {
        assert forall|f: nat|
            run_prepend(lines_view(lines@), #[trigger] run_spec(bv, current@, game@, f))
                == run_spec(bv, name0, st_init, (steps + f) as nat) by {
            assert(lines_view(lines@) =~= Seq::<LineV>::empty());
            match run_spec(bv, current@, game@, f) {
                None => {},
                Some((l, s, oc)) => {
                    assert(Seq::<LineV>::empty() + l =~= l);
                },
            }
        }
    }
    loop
        invariant
            blocks_wf(blocks@),
            game.wf(),
            bv == blocks_view(blocks@),
            st_init == old(game)@,
            name0 == name@,
            steps + remaining == step_limit(),
            forall|f: nat|
                run_prepend(lines_view(lines@), #[trigger] run_spec(bv, current@, game@, f))
                    == run_spec(bv, name0, st_init, (steps + f) as nat),
        decreases remaining,
    {
        match find_block(current.as_str(), blocks) {
            None => {
                proof {
                    assert(run_spec(bv, current@, game@, 0) == Some(
                        (Seq::<LineV>::empty(), game@, RunOutcomeV::BlockNotFound(current@)),
                    ));
                    assert(lines_view(lines@) + Seq::<LineV>::empty() =~= lines_view(lines@));
                    assert(run_spec(bv, name0, st_init, steps) == Some(
                        (lines_view(lines@), game@, RunOutcomeV::BlockNotFound(current@)),
                    ));
                }
                return (lines, RunOutcome::BlockNotFound(current));
            },
            Some(bi) => {
                let ghost st_in = game@;
                let b = &blocks[bi];
                proof {
                    assert(bv[bi as int] == b@);
                }
                game.progress.1 = b.name.clone();
                let ghost st1 = game@;
                proof {
                    assert(st1 == with_block_name(st_in, b@.name));
                }
                let mut newlines = b.read_text(game);
                let ghost nl = lines_view(newlines@);
                b.apply_effects(game);
                let ghost st2 = game@;
                let filtered = filter_options(&b.options, game);
                let ghost filteredv = choices_view(filtered@);
                let ghost l0 = lines_view(lines@);
                lines.append(&mut newlines);
                proof {
                    assert(lines_view(lines@) =~= l0 + nl);
                }
                if filtered.len() == 0 {
                    proof {
                        assert(run_spec(bv, current@, st_in, 0) == Some(
                            (nl, game@, RunOutcomeV::End),
                        ));
                        assert(run_spec(bv, name0, st_init, steps) == Some(
                            (lines_view(lines@), game@, RunOutcomeV::End),
                        ));
                    }
                    return (lines, RunOutcome::End);
                } else if filtered.len() == 1 {
                    let target = filtered[0].result.clone();
                    proof {
                        assert(filteredv[0] == filtered@[0]@);
                        assert(target@ == filteredv[0].result);
                    }
                    if str_ends_with(target.as_str(), ".txt") {
                        game.set_flag("saved", false);
                        proof {
                            assert(follow_spec(bv, target@, st2, 0) == Some(
                                (Seq::<LineV>::empty(), game@, RunOutcomeV::LoadStory(target@)),
                            ));
                            assert(nl + Seq::<LineV>::empty() =~= nl);
                            assert(run_spec(bv, current@, st_in, 0) == Some(
                                (nl, game@, RunOutcomeV::LoadStory(target@)),
                            ));
                            assert(run_spec(bv, name0, st_init, steps) == Some(
                                (lines_view(lines@), game@, RunOutcomeV::LoadStory(target@)),
                            ));
                        }
                        return (lines, RunOutcome::LoadStory(target));
                    } else {
                        match find_block(target.as_str(), blocks) {
                            None => {
                                proof {
                                    assert(follow_spec(bv, target@, st2, 0) == Some(
                                        (
                                            Seq::<LineV>::empty(),
                                            game@,
                                            RunOutcomeV::TargetNotFound(target@),
                                        ),
                                    ));
                                    assert(nl + Seq::<LineV>::empty() =~= nl);
                                    assert(run_spec(bv, current@, st_in, 0) == Some(
                                        (nl, game@, RunOutcomeV::TargetNotFound(target@)),
                                    ));
                                    assert(run_spec(bv, name0, st_init, steps) == Some(
                                        (lines_view(lines@), game@, RunOutcomeV::TargetNotFound(
                                            target@,
                                        )),
                                    ));
                                }
                                return (lines, RunOutcome::TargetNotFound(target));
                            },
                            Some(_) => {
                                if remaining == 0 {
                                    proof {
                                        assert(follow_spec(bv, target@, st2, 0) is None);
                                        assert(run_spec(bv, current@, st_in, 0) is None);
                                        assert(run_spec(bv, name0, st_init, steps) is None);
                                    }
                                    return (lines, RunOutcome::StepLimit);
                                }
                                remaining = remaining - 1;
                                game.set_flag("saved", false);
                                let ghost cur_old = current@;
                                let ghost steps_old = steps;
                                proof {
                                    steps = (steps + 1) as nat;
                                }
                                current = target;
                                proof {
                                    assert forall|f: nat|
                                        run_prepend(
                                            lines_view(lines@),
                                            #[trigger] run_spec(bv, current@, game@, f),
                                        ) == run_spec(bv, name0, st_init, (steps + f) as nat) by {
                                        assert(run_prepend(
                                            l0,
                                            run_spec(bv, cur_old, st_in, (f + 1) as nat),
                                        ) == run_spec(
                                            bv,
                                            name0,
                                            st_init,
                                            (steps_old + (f + 1) as nat) as nat,
                                        ));
                                        assert(follow_spec(bv, current@, st2, (f + 1) as nat)
                                            == run_spec(bv, current@, game@, f));
                                        assert(run_spec(bv, cur_old, st_in, (f + 1) as nat)
                                            == run_prepend(
                                            nl,
                                            run_spec(bv, current@, game@, f),
                                        ));
                                        match run_spec(bv, current@, game@, f) {
                                            None => {},
                                            Some((l, s, oc)) => {
                                                assert(l0 + (nl + l) =~= (l0 + nl) + l);
                                            },
                                        }
                                    }
                                }
                            },
                        }
                    }
                } else {
                    proof {
                        assert(run_spec(bv, current@, st_in, 0) == Some(
                            (nl, game@, RunOutcomeV::Prompt(filteredv)),
                        ));
                        assert(run_spec(bv, name0, st_init, steps) == Some(
                            (lines_view(lines@), game@, RunOutcomeV::Prompt(filteredv)),
                        ));
                    }
                    return (lines, RunOutcome::Prompt(filtered));
                }
            },
        }
    }
}

/// Runs the story from its first block.
pub fn start_blocks(blocks: &Vec<StoryBlock>, game: &mut GameState) -> (out: (
    Vec<RenderLine>,
    RunOutcome,
))
    requires
        blocks@.len() > 0,
        blocks_wf(blocks@),
        old(game).wf(),
    ensures
        final(game).wf(),
        (exists|fuel: nat|
            run_spec(blocks_view(blocks@), blocks@[0]@.name, old(game)@, fuel) == Some(
                (lines_view(out.0@), final(game)@, out.1@),
            )) || (out.1@ == RunOutcomeV::StepLimit && run_spec(
            blocks_view(blocks@),
            blocks@[0]@.name,
            old(game)@,
            step_limit(),
        ) is None),
{
    let first = blocks[0].name.clone();
    start_block(first, blocks, game)
}

/// Follows a chosen target: asks for another story file to be loaded, runs
/// the named block of this story after clearing the `saved` safety flag, or
/// reports a target that resolves to nothing.
pub fn play_next(name: &str, blocks: &Vec<StoryBlock>, game: &mut GameState) -> (out: (
    Vec<RenderLine>,
    RunOutcome,
))
    requires
        blocks_wf(blocks@),
        old(game).wf(),
    ensures
        final(game).wf(),
        (exists|fuel: nat|
            follow_spec(blocks_view(blocks@), name@, old(game)@, fuel) == Some(
                (lines_view(out.0@), final(game)@, out.1@),
            )) || (out.1@ == RunOutcomeV::StepLimit && follow_spec(
            blocks_view(blocks@),
            name@,
            old(game)@,
            (step_limit() + 1) as nat,
        ) is None),
{
    let ghost bv = blocks_view(blocks@);
    if str_ends_with(name, ".txt") {
        game.set_flag("saved", false);
        let out: Vec<RenderLine> = Vec::new();
        proof {
            assert(lines_view(out@) =~= Seq::<LineV>::empty());
            assert(follow_spec(bv, name@, old(game)@, 0) == Some(
                (lines_view(out@), game@, RunOutcomeV::LoadStory(name@)),
            ));
        }
        (out, RunOutcome::LoadStory(name.to_owned()))
    } else {
        match find_block(name, blocks) {
            None => {
                let out: Vec<RenderLine> = Vec::new();
                proof {
                    assert(lines_view(out@) =~= Seq::<LineV>::empty());
                    assert(follow_spec(bv, name@, old(game)@, 0) == Some(
                        (lines_view(out@), game@, RunOutcomeV::TargetNotFound(name@)),
                    ));
                }
                (out, RunOutcome::TargetNotFound(name.to_owned()))
            },
            Some(_) => {
                game.set_flag("saved", false);
                let out = start_block(name.to_owned(), blocks, game);
                proof {
                    if exists|f: nat|
                        run_spec(bv, name@, with_flag(old(game)@, "saved"@, false), f) == Some(
                            (lines_view(out.0@), game@, out.1@),
                        ) {
                        let f = choose|f: nat|
                            run_spec(bv, name@, with_flag(old(game)@, "saved"@, false), f) == Some(
                                (lines_view(out.0@), game@, out.1@),
                            );
                        assert(follow_spec(bv, name@, old(game)@, (f + 1) as nat) == Some(
                            (lines_view(out.0@), game@, out.1@),
                        ));
                    } else {
                        assert(follow_spec(bv, name@, old(game)@, (step_limit() + 1) as nat)
                            is None);
                    }
                }
                out
            },
        }
    }
}

/// A choice gated by a counter predicate is dropped entirely when the
/// predicate fails against the play state, and kept with its then-branch as
/// its label when the predicate holds and the label has a then-branch; a
/// gated choice has no else-branch to fall back on.
pub proof fn lemma_gated_choice(c: ChoiceV, st: GameStateV)
    requires
        has_prefix(c.text, "#-"@),
    ensures
        !check_counter_spec(head_before(c.text, " => "@), st) ==> filter_choice_spec(c, st)
            is None,
        (check_counter_spec(head_before(c.text, " => "@), st) && tail_after(c.text, " => "@)
            matches Some(rest)) ==> filter_choice_spec(c, st) == Some(
            ChoiceV {
                text: head_before(tail_after(c.text, " => "@)->Some_0, " => "@),
                typed: c.typed,
                result: c.result,
            },
        ),
{
    reveal_strlit("#-");
    reveal_strlit("?-");
    assert(c.text.subrange(0, 2)[0] == c.text[0]);
    assert(!has_prefix(c.text, "?-"@));
}

/// A choice that filtering drops contributes nothing: the filtered list is
/// the same as if the choice were not there at all.
pub proof fn lemma_dropped_choice_absent(opts: Seq<ChoiceV>, st: GameStateV, i: int)
    requires
        0 <= i < opts.len(),
        filter_choice_spec(opts[i], st) is None,
    ensures
        filter_options_spec(opts, st) == filter_options_spec(opts.remove(i), st),
    decreases opts.len(),
{
    if i == opts.len() - 1 {
        assert(opts.remove(i) =~= opts.drop_last());
    } else {
        lemma_dropped_choice_absent(opts.drop_last(), st, i);
        assert(opts.remove(i).drop_last() =~= opts.drop_last().remove(i));
        assert(opts.remove(i).last() == opts.last());
    }
}

/// When filtering leaves exactly one choice, the run follows that choice's
/// target at once: the block produces no prompt, and no input is awaited
/// before the target is taken up.
pub proof fn lemma_auto_advance(blocks: Seq<BlockV>, name: Seq<char>, st: GameStateV, fuel: nat)
    requires
        find_block_spec(blocks, name) matches Some(bi) && ({
            let b = blocks[bi];
            filter_options_spec(
                b.options,
                apply_effects_spec(b, with_block_name(st, b.name)),
            ).len() == 1
        }),
    ensures
        ({
            let bi = find_block_spec(blocks, name)->Some_0;
            let b = blocks[bi];
            let st1 = with_block_name(st, b.name);
            let st2 = apply_effects_spec(b, st1);
            let filtered = filter_options_spec(b.options, st2);
            run_spec(blocks, name, st, fuel) == run_prepend(
                block_lines_spec(b.text, st1),
                follow_spec(blocks, filtered[0].result, st2, fuel),
            )
        }),
{
}

/// The decimal ordinal under which a choice is presented always selects it,
/// whatever its label, keywords or target hold.
pub proof fn lemma_ordinal_matches(c: ChoiceV, input: Seq<char>, num: int)
    requires
        input == int_dec_str(num),
    ensures
        match_option_spec(c, input, num),
{
}

/// Input equal to a choice's raw target string selects the choice, at
/// whatever position it is presented.
pub proof fn lemma_target_matches(c: ChoiceV, input: Seq<char>, num: int)
    requires
        input == c.result,
    ensures
        match_option_spec(c, input, num),
{
}

/// Giving a run more fuel than it needed changes nothing: a result reached
/// with some fuel is the result for every larger fuel, so the fuel in the
/// interpreter's contract is only a bound on the transitions taken.
pub proof fn lemma_run_fuel_monotone(
    blocks: Seq<BlockV>,
    name: Seq<char>,
    st: GameStateV,
    fuel1: nat,
    fuel2: nat,
)
    requires
        fuel1 <= fuel2,
        run_spec(blocks, name, st, fuel1) is Some,
    ensures
        run_spec(blocks, name, st, fuel2) == run_spec(blocks, name, st, fuel1),
    decreases fuel1, 1int,
{
    match find_block_spec(blocks, name) {
        None => {},
        Some(bi) => {
            let b = blocks[bi];
            let st1 = with_block_name(st, b.name);
            let st2 = apply_effects_spec(b, st1);
            let filtered = filter_options_spec(b.options, st2);
            if filtered.len() == 1 {
                lemma_follow_fuel_monotone(blocks, filtered[0].result, st2, fuel1, fuel2);
            }
        },
    }
}

/// The same, for following a chosen target.
pub proof fn lemma_follow_fuel_monotone(
    blocks: Seq<BlockV>,
    target: Seq<char>,
    st: GameStateV,
    fuel1: nat,
    fuel2: nat,
)
    requires
        fuel1 <= fuel2,
        follow_spec(blocks, target, st, fuel1) is Some,
    ensures
        follow_spec(blocks, target, st, fuel2) == follow_spec(blocks, target, st, fuel1),
    decreases fuel1, 0int,
{
    if !has_suffix(target, ".txt"@) {
        match find_block_spec(blocks, target) {
            None => {},
            Some(_) => {
                lemma_run_fuel_monotone(
                    blocks,
                    target,
                    with_flag(st, "saved"@, false),
                    (fuel1 - 1) as nat,
                    (fuel2 - 1) as nat,
                );
            },
        }
    }
}

} // verus!
