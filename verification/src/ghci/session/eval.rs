//! Evaluating the commands in the sources.

use crate::ghci::session::Ghci;
use crate::path::{NormalPath, NormalPathView};
use crate::sorted::{path_key, Key};
use crate::text::{duplicate_texts, texts};
use vstd::prelude::*;

verus! {

/// A source and the commands to evaluate in it.
#[derive(Debug)]
pub struct Evaluation {
    pub path: NormalPath,
    pub commands: Vec<String>,
}

impl View for Evaluation {
    type V = (NormalPathView, Seq<Seq<char>>);

    open spec fn view(&self) -> (NormalPathView, Seq<Seq<char>>) {
        (self.path@, texts(self.commands@))
    }
}

/// The sources with commands to evaluate, each with its commands.
pub open spec fn evaluations(paths: Seq<NormalPathView>, commands: Map<Key, Vec<String>>) -> Seq<
    (NormalPathView, Seq<Seq<char>>),
>
    decreases paths.len(),
{
    if paths.len() == 0 {
        seq![]
    } else {
        let before = evaluations(paths.drop_last(), commands);
        let found = commands[path_key(paths.last().absolute)];
        if found@.len() == 0 {
            before
        } else {
            before.push((paths.last(), texts(found@)))
        }
    }
}

/// The views of a sequence of evaluations.
pub open spec fn evaluation_views(items: Seq<Evaluation>) -> Seq<(NormalPathView, Seq<Seq<char>>)> {
    Seq::new(items.len(), |i: int| items[i]@)
}

impl Ghci {
    /// The commands to evaluate after a compilation, in the order of their sources; none if commands
    /// in sources are not evaluated.
    pub fn eval(&self) -> (r: Vec<Evaluation>)
        ensures
            evaluation_views(r@) == (if self@.enable_eval {
                evaluations(self@.eval_paths, self@.eval_commands)
            } else {
                seq![]
            }),
    {
        let mut r: Vec<Evaluation> = Vec::new();
        proof {
            assert(evaluation_views(r@) =~= seq![]);
        }
        if !self.enable_eval {
            return r;
        }
        let ghost keys = self.eval_commands.key_list();
        let ghost values = self.eval_commands.value_list();
        let ghost commands_by_path = self.eval_commands@;
        self.eval_commands.order();
        let mut i: usize = 0;
        let n: usize = self.eval_commands.len();
        while i < n
            invariant
                i <= n == keys.len() == values.len(),
                keys == self.eval_commands.key_list(),
                values == self.eval_commands.value_list(),
                forall|j: int|
                    0 <= j < keys.len() ==> commands_by_path[path_key((#[trigger] keys[j]).absolute)] == values[j],
                evaluation_views(r@) == evaluations(keys.take(i as int), commands_by_path),
            decreases n - i,
        {
            let ghost before = evaluation_views(r@);
            proof {
                assert(keys.take(i + 1).drop_last() =~= keys.take(i as int));
            }
            let commands = self.eval_commands.value_at(i);
            if commands.len() > 0 {
                let one = Evaluation {
                    path: self.eval_commands.key_at(i).clone(),
                    commands: duplicate_texts(commands),
                };
                let ghost v = one@;
                r.push(one);
                proof {
                    assert(evaluation_views(r@) =~= before.push(v));
                }
            }
            i = i + 1;
        }
        proof {
            assert(keys.take(n as int) =~= keys);
        }
        r
    }
}

/// What the evaluation of the commands in a source waits for.
#[derive(Clone, Copy, Debug, PartialEq, Eq, Structural)]
pub enum EvalPhase {
    /// The module was to be interpreted.
    Interpreting,
    /// Its top level was to be brought into scope.
    Opening,
    /// The command at this place was to run.
    Running(usize),
    /// Its top level was to be taken out of scope.
    Closing,
    Over,
}

/// What is to be done next to evaluate the commands in a source.
#[derive(Clone, Copy, Debug, PartialEq, Eq, Structural)]
pub enum EvalAction {
    /// Bring the top level of the module into scope.
    AddToScope,
    /// Run the command at this place.
    Run(usize),
    /// Take the top level of the module out of scope.
    RemoveFromScope,
    /// Go on with the next source.
    Finish,
    /// Return the error that was just reported.
    Fail,
}

/// What happens next to the commands in a source, `count` of them. It begins with interpreting the
/// module: a compiled one has no top level to bring into scope.
pub open spec fn eval_next(count: usize, phase: EvalPhase, succeeded: bool) -> Option<(EvalPhase, EvalAction)> {
    match phase {
        EvalPhase::Over => None,
        _ => Some(
            if !succeeded {
                (EvalPhase::Over, EvalAction::Fail)
            } else {
                match phase {
                    EvalPhase::Interpreting => (EvalPhase::Opening, EvalAction::AddToScope),
                    EvalPhase::Opening => if count > 0 {
                        (EvalPhase::Running(0), EvalAction::Run(0))
                    } else {
                        (EvalPhase::Closing, EvalAction::RemoveFromScope)
                    },
                    EvalPhase::Running(i) => if i + 1 < count {
                        (EvalPhase::Running((i + 1) as usize), EvalAction::Run((i + 1) as usize))
                    } else {
                        (EvalPhase::Closing, EvalAction::RemoveFromScope)
                    },
                    _ => (EvalPhase::Over, EvalAction::Finish),
                }
            },
        ),
    }
}

/// Takes whether what was last to be done with the commands in a source succeeded, and says what is
/// to be done next.
pub fn eval_step(count: usize, phase: EvalPhase, succeeded: bool) -> (r: Option<(EvalPhase, EvalAction)>)
    ensures
        r == eval_next(count, phase, succeeded),
{
    match phase {
        EvalPhase::Over => None,
        _ => if !succeeded {
            Some((EvalPhase::Over, EvalAction::Fail))
        } else {
            match phase {
                EvalPhase::Interpreting => Some((EvalPhase::Opening, EvalAction::AddToScope)),
                EvalPhase::Opening => if count > 0 {
                    Some((EvalPhase::Running(0), EvalAction::Run(0)))
                } else {
                    Some((EvalPhase::Closing, EvalAction::RemoveFromScope))
                },
                EvalPhase::Running(i) => if i < count && i + 1 < count {
                    Some((EvalPhase::Running(i + 1), EvalAction::Run(i + 1)))
                } else {
                    Some((EvalPhase::Closing, EvalAction::RemoveFromScope))
                },
                _ => Some((EvalPhase::Over, EvalAction::Finish)),
            }
        },
    }
}

/// A source has its commands evaluated exactly if it has some, and they are all of its commands.
pub proof fn commands_are_evaluated_in_their_sources(
    paths: Seq<NormalPathView>,
    commands: Map<Key, Vec<String>>,
    item: (NormalPathView, Seq<Seq<char>>),
)
    ensures
        evaluations(paths, commands).contains(item) <==> paths.contains(item.0) && commands[path_key(
            item.0.absolute,
        )]@.len() > 0 && item.1 == texts(commands[path_key(item.0.absolute)]@),
    decreases paths.len(),
{
    if paths.len() > 0 {
        let rest = paths.drop_last();
        let before = evaluations(rest, commands);
        let all = evaluations(paths, commands);
        commands_are_evaluated_in_their_sources(rest, commands, item);
        if before.contains(item) {
            let i = choose|i: int| 0 <= i < before.len() && before[i] == item;
            assert(all[i] == item);
            let n = choose|n: int| 0 <= n < rest.len() && rest[n] == item.0;
            assert(paths[n] == item.0);
        }
        if paths.contains(item.0) {
            let n = choose|n: int| 0 <= n < paths.len() && paths[n] == item.0;
            if n < rest.len() {
                assert(rest[n] == item.0);
            } else if commands[path_key(item.0.absolute)]@.len() > 0 && item.1 == texts(
                commands[path_key(item.0.absolute)]@,
            ) {
                assert(all[before.len() as int] == item);
            }
        }
        if all.contains(item) {
            let i = choose|i: int| 0 <= i < all.len() && all[i] == item;
            if i < before.len() {
                assert(before[i] == item);
            } else {
                assert(paths[paths.len() - 1] == item.0);
            }
        }
    }
}

/// The commands of a source run one by one, with its top level in scope only for them. A step that fails is returned.
pub proof fn commands_run_one_by_one(count: usize, i: usize)
    requires
        i < count,
    ensures
        eval_next(count, EvalPhase::Interpreting, true) == Some((EvalPhase::Opening, EvalAction::AddToScope)),
        eval_next(count, EvalPhase::Opening, true) == Some((EvalPhase::Running(0), EvalAction::Run(0))),
        eval_next(0, EvalPhase::Opening, true) == Some((EvalPhase::Closing, EvalAction::RemoveFromScope)),
        i + 1 < count ==> eval_next(count, EvalPhase::Running(i), true) == Some(
            (EvalPhase::Running((i + 1) as usize), EvalAction::Run((i + 1) as usize)),
        ),
        i + 1 == count ==> eval_next(count, EvalPhase::Running(i), true) == Some(
            (EvalPhase::Closing, EvalAction::RemoveFromScope),
        ),
        eval_next(count, EvalPhase::Closing, true) == Some((EvalPhase::Over, EvalAction::Finish)),
{
}

/// Whatever fails, its error is returned.
pub proof fn failed_evaluations_return_their_error(count: usize, phase: EvalPhase)
    ensures
        !(phase is Over) ==> eval_next(count, phase, false) == Some((EvalPhase::Over, EvalAction::Fail)),
        phase is Over ==> eval_next(count, phase, false) is None,
{
}

/// An evaluation waits for the end of what it does, and is over exactly when it returns.
pub proof fn evaluation_waits_for_what_it_does(count: usize, phase: EvalPhase, succeeded: bool)
    requires
        eval_next(count, phase, succeeded) is Some,
    ensures
        (eval_next(count, phase, succeeded)->0).0 is Over <==> (eval_next(count, phase, succeeded)->0).1 is Finish || (eval_next(count, phase, succeeded)->0).1 is Fail,
        (eval_next(count, phase, succeeded)->0).0 is Opening <==> (eval_next(count, phase, succeeded)->0).1 is AddToScope,
        (eval_next(count, phase, succeeded)->0).0 is Running <==> (eval_next(count, phase, succeeded)->0).1 is Run,
        (eval_next(count, phase, succeeded)->0).0 is Closing <==> (eval_next(count, phase, succeeded)->0).1 is RemoveFromScope,
{
}

} // verus!
