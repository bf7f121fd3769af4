//! The commands to evaluate that stand in the comments of a source.

use crate::text::{has_prefix, join, joined, lines, same_text, split_lines, strip_prefix, texts, trim, trimmed};
use vstd::prelude::*;

verus! {

/// What is known of a source after some of its lines.
pub struct EvalScan {
    /// The commands so far.
    pub commands: Seq<Seq<char>>,
    /// The lines of the command that is not closed yet.
    pub block: Option<Seq<Seq<char>>>,
}

/// What is known of a source after these lines. A command follows `-- $>` on its line, or stands on the
/// lines between `{- $>` and `<$ -}`.
pub open spec fn eval_scan(ls: Seq<Seq<char>>) -> EvalScan
    decreases ls.len(),
{
    if ls.len() == 0 {
        EvalScan { commands: seq![], block: None }
    } else {
        let before = eval_scan(ls.drop_last());
        let line = ls.last();
        match before.block {
            Some(block) => if trimmed(line) == "<$ -}"@ {
                EvalScan { commands: before.commands.push(joined(block, "\n"@)), block: None }
            } else {
                EvalScan { block: Some(block.push(line)), ..before }
            },
            None => if trimmed(line) == "{- $>"@ {
                EvalScan { block: Some(seq![]), ..before }
            } else if has_prefix(line, "-- $>"@) {
                EvalScan { commands: before.commands.push(trimmed(line.skip("-- $>"@.len() as int))), block: None }
            } else {
                before
            },
        }
    }
}

spec fn block_texts(block: Option<Vec<String>>) -> Option<Seq<Seq<char>>> {
    match block {
        Some(lines) => Some(texts(lines@)),
        None => None,
    }
}

/// Reads the commands to evaluate in a source. A command that is not closed does not count.
pub fn parse_eval_commands(contents: &str) -> (r: Vec<String>)
    ensures
        texts(r@) == eval_scan(lines(contents@)).commands,
{
    let all = split_lines(contents);
    let ghost ls = texts(all@);
    let mut commands: Vec<String> = Vec::new();
    let mut block: Option<Vec<String>> = None;
    let mut i: usize = 0;
    proof {
        assert(texts(commands@) =~= eval_scan(ls.take(0)).commands);
    }
    while i < all.len()
        invariant
            i <= all@.len(),
            ls == texts(all@),
            texts(commands@) == eval_scan(ls.take(i as int)).commands,
            block_texts(block) == eval_scan(ls.take(i as int)).block,
        decreases all@.len() - i,
    {
        let ghost before = eval_scan(ls.take(i as int));
        let ghost line = all@[i as int]@;
        proof {
            assert(ls.take(i + 1).drop_last() =~= ls.take(i as int));
            assert(ls.take(i + 1).last() == line);
        }
        let text = trim(all[i].as_str());
        match block {
            Some(mut open) => {
                if same_text(text.as_str(), "<$ -}") {
                    commands.push(join(&open, "\n"));
                    block = None;
                    proof {
                        assert(texts(commands@) =~= before.commands.push(joined(before.block->0, "\n"@)));
                    }
                } else {
                    let ghost held = texts(open@);
                    open.push(all[i].clone());
                    proof {
                        assert(texts(open@) =~= held.push(line));
                    }
                    block = Some(open);
                }
            },
            None => {
                block = None;
                if same_text(text.as_str(), "{- $>") {
                    let open: Vec<String> = Vec::new();
                    proof {
                        assert(texts(open@) =~= seq![]);
                    }
                    block = Some(open);
                } else {
                    match strip_prefix(all[i].as_str(), "-- $>") {
                        Some(rest) => {
                            commands.push(trim(rest.as_str()));
                            proof {
                                assert(texts(commands@) =~= before.commands.push(trimmed(rest@)));
                            }
                        },
                        None => {},
                    }
                }
            },
        }
        i = i + 1;
    }
    proof {
        assert(ls.take(ls.len() as int) =~= ls);
    }
    commands
}

/// A command on a line of its own is taken without the white space around it; any other line outside a block changes
/// nothing.
pub proof fn commands_stand_on_their_lines(ls: Seq<Seq<char>>, line: Seq<char>, command: Seq<char>)
    requires
        eval_scan(ls).block is None,
    ensures
        trimmed("-- $>"@ + command) != "{- $>"@ ==> eval_scan(ls.push("-- $>"@ + command)).commands == eval_scan(
            ls,
        ).commands.push(trimmed(command)) && eval_scan(ls.push("-- $>"@ + command)).block is None,
        trimmed(line) != "{- $>"@ && !has_prefix(line, "-- $>"@) ==> eval_scan(ls.push(line)) == eval_scan(ls),
        eval_scan(seq![]).commands.len() == 0,
        eval_scan(seq![]).block is None,
{
    let one = "-- $>"@ + command;
    assert(ls.push(one).drop_last() =~= ls);
    assert(ls.push(line).drop_last() =~= ls);
    assert(one.take("-- $>"@.len() as int) =~= "-- $>"@);
    assert(one.skip("-- $>"@.len() as int) =~= command);
}

proof fn lemma_block(ls: Seq<Seq<char>>, open: Seq<char>, body: Seq<Seq<char>>)
    requires
        eval_scan(ls).block is None,
        trimmed(open) == "{- $>"@,
        forall|i: int| 0 <= i < body.len() ==> trimmed(#[trigger] body[i]) != "<$ -}"@,
    ensures
        eval_scan(ls.push(open) + body) == (EvalScan { commands: eval_scan(ls).commands, block: Some(body) }),
    decreases body.len(),
{
    let all = ls.push(open) + body;
    if body.len() == 0 {
        assert(all =~= ls.push(open));
        assert(all.drop_last() =~= ls);
        assert(body =~= seq![]);
    } else {
        let rest = body.drop_last();
        assert forall|i: int| 0 <= i < rest.len() implies trimmed(#[trigger] rest[i]) != "<$ -}"@ by {
            assert(rest[i] == body[i]);
        }
        lemma_block(ls, open, rest);
        assert(all.drop_last() =~= ls.push(open) + rest);
        assert(all.last() == body[body.len() - 1]);
        assert(rest.push(body.last()) =~= body);
    }
}

/// A block is one command: its lines as they are, in order. One that is not closed is none. Inside a block nothing else
/// is a command.
pub proof fn blocks_are_commands(ls: Seq<Seq<char>>, open: Seq<char>, body: Seq<Seq<char>>, close: Seq<char>)
    requires
        eval_scan(ls).block is None,
        trimmed(open) == "{- $>"@,
        trimmed(close) == "<$ -}"@,
        forall|i: int| 0 <= i < body.len() ==> trimmed(#[trigger] body[i]) != "<$ -}"@,
    ensures
        eval_scan((ls.push(open) + body).push(close)).commands == eval_scan(ls).commands.push(joined(body, "\n"@)),
        eval_scan((ls.push(open) + body).push(close)).block is None,
        eval_scan(ls.push(open) + body).commands == eval_scan(ls).commands,
{
    lemma_block(ls, open, body);
    assert((ls.push(open) + body).push(close).drop_last() =~= ls.push(open) + body);
}

} // verus!
