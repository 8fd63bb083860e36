//! The story-file parser: one pass over the raw lines of a story file,
//! classifying each line by its leading characters and accumulating story
//! blocks.
//!
//! A line opening with `:- ` starts a new block of the given name, sealing
//! the one under construction (unless no block start was seen yet, in which
//! case lines so far belong to an initial unnamed block). `=- name = bool`
//! records a flag effect, `+- name + int` a counter effect,
//! `*- label -> keywords -> target` a choice, and `-> target` a choice with
//! empty label and keywords. Any other line is plain text; conditional and
//! color directives inside text are left unresolved until the block is
//! rendered. At the end of input the block under construction is sealed
//! unconditionally, so a file without block starts yields exactly one block.

use vstd::prelude::*;

use crate::story_block::{blocks_view, blocks_wf, BlockV, Choice, ChoiceV, StoryBlock};
use crate::strutil::{
    has_prefix, head_before, parse_i32, parse_i32_spec, split_first, str_eq, str_starts_with,
    tail_after,
};

verus! {

/// Why a directive line is malformed.
#[derive(Debug, Clone, Copy, PartialEq, Eq, Structural)]
pub enum DirectiveFault {
    /// A directive prefix is not followed by the space it requires.
    MissingSpace,
    /// A flag or counter directive lacks its value delimiter.
    MissingDelimiter,
    /// A flag directive's value is neither `true` nor `false`.
    BadBool,
    /// A counter directive's value is not an integer in range.
    BadInt,
    /// A choice directive has fewer than three arrow-separated fields.
    MissingField,
}

/// A line that matches a directive prefix but violates that directive's
/// required shape: the 1-based line number and the fault found there.
#[derive(Debug, PartialEq)]
pub struct MalformedDirective {
    /// The 1-based number of the offending line.
    pub line: usize,
    /// What is wrong with the directive.
    pub fault: DirectiveFault,
}

/// The values of a sequence of strings.
pub open spec fn strings_view(ss: Seq<String>) -> Seq<Seq<char>> {
    ss.map_values(|s: String| s@)
}

/// The block an unnamed leading section accumulates into.
pub open spec fn empty_block_v() -> BlockV {
    BlockV {
        name: Seq::empty(),
        text: Seq::empty(),
        options: Seq::empty(),
        flags: Map::empty(),
        counters: Map::empty(),
    }
}

/// The value of `true` or `false`, and nothing else.
pub open spec fn parse_bool_spec(s: Seq<char>) -> Option<bool> {
    if s == "true"@ {
        Some(true)
    } else if s == "false"@ {
        Some(false)
    } else {
        None
    }
}

/// Reads `s` as a boolean literal.
pub fn parse_bool(s: &str) -> (r: Option<bool>)
    ensures
        r == parse_bool_spec(s@),
{
    if str_eq(s, "true") {
        Some(true)
    } else if str_eq(s, "false") {
        Some(false)
    } else {
        None
    }
}

/// What one line does to the parse state: the sealed blocks, the block
/// under construction, and whether a block start was seen yet.
pub open spec fn parse_line_spec(
    text: Seq<char>,
    blocks: Seq<BlockV>,
    cur: BlockV,
    seen: bool,
) -> Result<(Seq<BlockV>, BlockV, bool), DirectiveFault> {
    if has_prefix(text, ":-"@) {
        if !has_prefix(text, ":- "@) {
            Err(DirectiveFault::MissingSpace)
        } else {
            let sealed = if seen {
                blocks.push(cur)
            } else {
                blocks
            };
            let fresh = BlockV { name: text.subrange(3, text.len() as int), ..empty_block_v() };
            Ok((sealed, fresh, true))
        }
    } else if has_prefix(text, "=-"@) {
        let piece0 = head_before(text, " = "@);
        if !has_prefix(piece0, "=- "@) {
            Err(DirectiveFault::MissingSpace)
        } else {
            match tail_after(text, " = "@) {
                None => Err(DirectiveFault::MissingDelimiter),
                Some(rest) => {
                    let name = piece0.subrange(3, piece0.len() as int);
                    match parse_bool_spec(head_before(rest, " = "@)) {
                        None => Err(DirectiveFault::BadBool),
                        Some(v) => Ok(
                            (blocks, BlockV { flags: cur.flags.insert(name, v), ..cur }, seen),
                        ),
                    }
                },
            }
        }
    } else if has_prefix(text, "+-"@) {
        let piece0 = head_before(text, " + "@);
        if !has_prefix(piece0, "+- "@) {
            Err(DirectiveFault::MissingSpace)
        } else {
            match tail_after(text, " + "@) {
                None => Err(DirectiveFault::MissingDelimiter),
                Some(rest) => {
                    let name = piece0.subrange(3, piece0.len() as int);
                    match parse_i32_spec(head_before(rest, " + "@)) {
                        None => Err(DirectiveFault::BadInt),
                        Some(v) => Ok(
                            (blocks, BlockV { counters: cur.counters.insert(name, v), ..cur }, seen),
                        ),
                    }
                },
            }
        }
    } else if has_prefix(text, "*-"@) {
        let piece0 = head_before(text, " -> "@);
        if !has_prefix(piece0, "*- "@) {
            Err(DirectiveFault::MissingSpace)
        } else {
            match tail_after(text, " -> "@) {
                None => Err(DirectiveFault::MissingField),
                Some(rest) => match tail_after(rest, " -> "@) {
                    None => Err(DirectiveFault::MissingField),
                    Some(rest2) => {
                        let c = ChoiceV {
                            text: piece0.subrange(3, piece0.len() as int),
                            typed: head_before(rest, " -> "@),
                            result: head_before(rest2, " -> "@),
                        };
                        Ok((blocks, BlockV { options: cur.options.push(c), ..cur }, seen))
                    },
                },
            }
        }
    } else if has_prefix(text, "->"@) {
        if !has_prefix(text, "-> "@) {
            Err(DirectiveFault::MissingSpace)
        } else {
            let c = ChoiceV {
                text: Seq::empty(),
                typed: Seq::empty(),
                result: text.subrange(3, text.len() as int),
            };
            Ok((blocks, BlockV { options: cur.options.push(c), ..cur }, seen))
        }
    } else {
        Ok((blocks, BlockV { text: cur.text.push(text), ..cur }, seen))
    }
}

/// The blocks that the lines from position `i` on parse into, carried on
/// from the given state; at the end of input the block under construction
/// is sealed unconditionally. An error reports the 0-based position of the
/// offending line.
pub open spec fn parse_lines_from(
    lines: Seq<Seq<char>>,
    i: int,
    blocks: Seq<BlockV>,
    cur: BlockV,
    seen: bool,
) -> Result<Seq<BlockV>, (int, DirectiveFault)>
    decreases lines.len() - i,
{
    if i < 0 || i >= lines.len() {
        Ok(blocks.push(cur))
    } else {
        match parse_line_spec(lines[i], blocks, cur, seen) {
            Err(f) => Err((i, f)),
            Ok((b, c, s)) => parse_lines_from(lines, i + 1, b, c, s),
        }
    }
}

/// The blocks a story file's lines parse into, or the first malformed
/// directive. A file always yields at least one block: a file without
/// block-start lines yields a single unnamed block holding all its lines.
pub open spec fn parse_lines_spec(lines: Seq<Seq<char>>) -> Result<
    Seq<BlockV>,
    (int, DirectiveFault),
> {
    parse_lines_from(lines, 0, Seq::empty(), empty_block_v(), false)
}

/// A successful parse yields at least one block.
pub proof fn lemma_parse_yields_blocks(lines: Seq<Seq<char>>, res: Seq<BlockV>)
    requires
        parse_lines_spec(lines) == Ok::<Seq<BlockV>, (int, DirectiveFault)>(res),
    ensures
        res.len() > 0,
{
    lemma_parse_from_yields(lines, 0, Seq::empty(), empty_block_v(), false, res);
}

proof fn lemma_parse_from_yields(
    lines: Seq<Seq<char>>,
    i: int,
    blocks: Seq<BlockV>,
    cur: BlockV,
    seen: bool,
    res: Seq<BlockV>,
)
    requires
        parse_lines_from(lines, i, blocks, cur, seen) == Ok::<Seq<BlockV>, (int, DirectiveFault)>(
            res,
        ),
    ensures
        res.len() > blocks.len(),
    decreases lines.len() - i,
{
    if i < 0 || i >= lines.len() {
    } else {
        match parse_line_spec(lines[i], blocks, cur, seen) {
            Err(_) => {},
            Ok((b, c, s)) => {
                lemma_parse_from_yields(lines, i + 1, b, c, s, res);
            },
        }
    }
}

/// Handles one line against the parse state, exactly as `parse_line_spec`
/// reads it.
fn parse_line(
    text: &String,
    blocks: &mut Vec<StoryBlock>,
    current: &mut StoryBlock,
    seen_block: &mut bool,
) -> (r: Result<(), DirectiveFault>)
    requires
        old(current).wf(),
        blocks_wf(old(blocks)@),
    ensures
        final(current).wf(),
        blocks_wf(final(blocks)@),
        match r {
            Ok(()) => parse_line_spec(
                text@,
                blocks_view(old(blocks)@),
                old(current)@,
                *old(seen_block),
            ) == Ok::<_, DirectiveFault>(
                (blocks_view(final(blocks)@), final(current)@, *final(seen_block)),
            ),
            Err(f) => {
                &&& parse_line_spec(
                    text@,
                    blocks_view(old(blocks)@),
                    old(current)@,
                    *old(seen_block),
                ) == Err::<(Seq<BlockV>, BlockV, bool), _>(f)
                &&& final(blocks)@ == old(blocks)@
                &&& final(current)@ == old(current)@
                &&& *final(seen_block) == *old(seen_block)
            },
        },
{
    let line = text.as_str();
    if str_starts_with(line, ":-") {
        if !str_starts_with(line, ":- ") {
            return Err(DirectiveFault::MissingSpace);
        }
        proof {
            reveal_strlit(":- ");
        }
        let name = line.substring_char(3, line.unicode_len()).to_owned();
        let fresh = StoryBlock::new(name);
        let old_cur = core_replace_block(current, fresh);
        if *seen_block {
            let ghost b0 = blocks@;
            blocks.push(old_cur);
            proof {
                assert(blocks_view(blocks@) =~= blocks_view(b0).push(old_cur@));
            }
        } else {
            *seen_block = true;
        }
        proof {
            assert(current@ == BlockV {
                name: text@.subrange(3, text@.len() as int),
                ..empty_block_v()
            });
        }
        Ok(())
    } else if str_starts_with(line, "=-") {
        let (piece0, rest) = split_first(line, " = ");
        if !str_starts_with(piece0, "=- ") {
            return Err(DirectiveFault::MissingSpace);
        }
        proof {
            reveal_strlit("=- ");
        }
        match rest {
            None => Err(DirectiveFault::MissingDelimiter),
            Some(r) => {
                let name = piece0.substring_char(3, piece0.unicode_len());
                let (val_str, _) = split_first(r, " = ");
                match parse_bool(val_str) {
                    None => Err(DirectiveFault::BadBool),
                    Some(v) => {
                        current.flags.insert(name, v);
                        Ok(())
                    },
                }
            },
        }
    } else if str_starts_with(line, "+-") {
        let (piece0, rest) = split_first(line, " + ");
        if !str_starts_with(piece0, "+- ") {
            return Err(DirectiveFault::MissingSpace);
        }
        proof {
            reveal_strlit("+- ");
        }
        match rest {
            None => Err(DirectiveFault::MissingDelimiter),
            Some(r) => {
                let name = piece0.substring_char(3, piece0.unicode_len());
                let (val_str, _) = split_first(r, " + ");
                match parse_i32(val_str) {
                    None => Err(DirectiveFault::BadInt),
                    Some(v) => {
                        current.counters.insert(name, v);
                        Ok(())
                    },
                }
            },
        }
    } else if str_starts_with(line, "*-") {
        let (piece0, rest) = split_first(line, " -> ");
        if !str_starts_with(piece0, "*- ") {
            return Err(DirectiveFault::MissingSpace);
        }
        proof {
            reveal_strlit("*- ");
        }
        match rest {
            None => Err(DirectiveFault::MissingField),
            Some(r) => {
                let (typed, rest2) = split_first(r, " -> ");
                match rest2 {
                    None => Err(DirectiveFault::MissingField),
                    Some(r2) => {
                        let (result, _) = split_first(r2, " -> ");
                        let ghost opts0 = current.options@;
                        let c = Choice {
                            text: piece0.substring_char(3, piece0.unicode_len()).to_owned(),
                            typed: typed.to_owned(),
                            result: result.to_owned(),
                        };
                        current.options.push(c);
                        proof {
                            assert(current.options@.map_values(|c: Choice| c@)
                                =~= opts0.map_values(|c: Choice| c@).push(
                                current.options@.last()@,
                            ));
                        }
                        Ok(())
                    },
                }
            },
        }
    } else if str_starts_with(line, "->") {
        if !str_starts_with(line, "-> ") {
            return Err(DirectiveFault::MissingSpace);
        }
        proof {
            reveal_strlit("-> ");
        }
        let ghost opts0 = current.options@;
        let c = Choice {
            text: String::new(),
            typed: String::new(),
            result: line.substring_char(3, line.unicode_len()).to_owned(),
        };
        current.options.push(c);
        proof {
            assert(current.options@.map_values(|c: Choice| c@) =~= opts0.map_values(
                |c: Choice| c@,
            ).push(current.options@.last()@));
        }
        Ok(())
    } else {
        let ghost texts0 = current.text@;
        current.text.push(text.clone());
        proof {
            assert(current.text@.map_values(|s: String| s@) =~= texts0.map_values(
                |s: String| s@,
            ).push(text@));
        }
        Ok(())
    }
}

/// Swaps the block under construction for a fresh one, handing the old one
/// back to be sealed.
fn core_replace_block(current: &mut StoryBlock, fresh: StoryBlock) -> (r: StoryBlock)
    ensures
        r == *old(current),
        *final(current) == fresh,
{
    let mut taken = fresh;
    core::mem::swap(current, &mut taken);
    taken
}

/// Parses the raw lines of a story file into its blocks, or reports the
/// first malformed directive with its 1-based line number.
pub fn parse_lines(lines: &Vec<String>) -> (r: Result<Vec<StoryBlock>, MalformedDirective>)
    requires
        lines@.len() < usize::MAX,
    ensures
        match r {
            Ok(blocks) => {
                &&& parse_lines_spec(strings_view(lines@)) == Ok::<_, (int, DirectiveFault)>(
                    blocks_view(blocks@),
                )
                &&& blocks_wf(blocks@)
                &&& blocks@.len() > 0
            },
            Err(e) => {
                &&& 1 <= e.line <= lines@.len()
                &&& parse_lines_spec(strings_view(lines@)) == Err::<Seq<BlockV>, _>(
                    (e.line - 1, e.fault),
                )
            },
        },
{
    let ghost lv = strings_view(lines@);
    let n = lines.len();
    let mut blocks: Vec<StoryBlock> = Vec::new();
    let mut current: StoryBlock = StoryBlock::new(String::new());
    let mut seen_block = false;
    proof {
        assert(blocks_view(blocks@) =~= Seq::<BlockV>::empty());
        assert(current@ == empty_block_v());
    }
    let mut i: usize = 0;
    while i < n
        invariant
            i <= n,
            n == lines@.len(),
            n < usize::MAX,
            lv == strings_view(lines@),
            current.wf(),
            blocks_wf(blocks@),
            parse_lines_from(lv, 0, Seq::empty(), empty_block_v(), false) == parse_lines_from(
                lv,
                i as int,
                blocks_view(blocks@),
                current@,
                seen_block,
            ),
        decreases n - i,
    {
        proof {
            assert(lv[i as int] == lines@[i as int]@);
        }
        let ghost bv0 = blocks_view(blocks@);
        let ghost cur0 = current@;
        let ghost seen0 = seen_block;
        match parse_line(&lines[i], &mut blocks, &mut current, &mut seen_block) {
            Ok(()) => {},
            Err(f) => {
                proof {
                    assert(parse_lines_from(lv, i as int, bv0, cur0, seen0) == Err::<
                        Seq<BlockV>,
                        _,
                    >((i as int, f)));
                }
                return Err(MalformedDirective { line: i + 1, fault: f });
            },
        }
        i += 1;
    }
    let ghost bvfin = blocks_view(blocks@);
    let ghost curfin = current@;
    blocks.push(current);
    proof {
        assert(blocks_view(blocks@) =~= bvfin.push(curfin));
        lemma_parse_yields_blocks(lv, blocks_view(blocks@));
    }
    Ok(blocks)
}

} // verus!
