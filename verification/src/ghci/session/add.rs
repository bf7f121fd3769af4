//! Adding sources to the targets of a session.

use crate::ghci::compilation_log::{CompilationLog, LogView};
use crate::ghci::module_set::{has_source, LoadedModule, ModuleSet, ModuleView};
use crate::ghci::session::Ghci;
use crate::path::{NormalPath, NormalPathView};
use crate::sorted::views;
use vstd::prelude::*;

verus! {

/// The paths that are no targets.
pub open spec fn unresolved(paths: Seq<NormalPathView>, targets: Seq<ModuleView>) -> Seq<NormalPathView>
    decreases paths.len(),
{
    if paths.len() == 0 {
        seq![]
    } else {
        let before = unresolved(paths.drop_last(), targets);
        if has_source(targets, paths.last()) {
            before
        } else {
            before.push(paths.last())
        }
    }
}

/// The paths that are targets.
pub open spec fn accepted(paths: Seq<NormalPathView>, targets: Seq<ModuleView>) -> Seq<NormalPathView>
    decreases paths.len(),
{
    if paths.len() == 0 {
        seq![]
    } else {
        let before = accepted(paths.drop_last(), targets);
        if has_source(targets, paths.last()) {
            before.push(paths.last())
        } else {
            before
        }
    }
}

/// Divides the paths into those that are targets and those that are not.
pub fn divide_paths(paths: &Vec<NormalPath>, targets: &ModuleSet) -> (r: (Vec<NormalPath>, Vec<NormalPath>))
    ensures
        views(r.0@) == accepted(views(paths@), targets@),
        views(r.1@) == unresolved(views(paths@), targets@),
{
    let ghost all = views(paths@);
    let mut inside: Vec<NormalPath> = Vec::new();
    let mut outside: Vec<NormalPath> = Vec::new();
    let mut i: usize = 0;
    proof {
        assert(views(inside@) =~= seq![]);
        assert(views(outside@) =~= seq![]);
    }
    while i < paths.len()
        invariant
            i <= paths@.len(),
            all == views(paths@),
            views(inside@) == accepted(all.take(i as int), targets@),
            views(outside@) == unresolved(all.take(i as int), targets@),
        decreases paths@.len() - i,
    {
        let ghost a = views(inside@);
        let ghost b = views(outside@);
        proof {
            assert(all.take(i + 1).drop_last() =~= all.take(i as int));
            assert(all[i as int] == paths@[i as int]@);
        }
        if targets.contains_source_path(&paths[i]) {
            inside.push(paths[i].clone());
            proof {
                assert(views(inside@) =~= a.push(all[i as int]));
            }
        } else {
            outside.push(paths[i].clone());
            proof {
                assert(views(outside@) =~= b.push(all[i as int]));
            }
        }
        i = i + 1;
    }
    proof {
        assert(all.take(all.len() as int) =~= all);
    }
    (inside, outside)
}

/// The modules with a name, by that name.
pub open spec fn named_modules(paths: Seq<NormalPathView>, names: Seq<Option<String>>) -> Seq<ModuleView>
    decreases paths.len(),
{
    if paths.len() == 0 || names.len() == 0 {
        seq![]
    } else {
        let before = named_modules(paths.drop_last(), names.drop_last());
        match names.last() {
            Some(name) => before.push(ModuleView { path: paths.last(), name: Some(name@) }),
            None => before,
        }
    }
}

/// What adding sources waits for.
#[derive(Clone, Copy, Debug, PartialEq, Eq, Structural)]
pub enum AddPhase {
    /// Standard error was to be hidden.
    Hiding,
    /// The modules were to be added by name.
    AddingNames,
    /// The targets were to be listed after that.
    ListingNames,
    /// What was hidden was to be shown after an error.
    Replaying,
    /// Standard error was to be shown again.
    Showing,
    /// The modules that are no targets yet were to be added by path.
    AddingPaths,
    /// The targets were to be listed after that.
    ListingPaths,
    /// The commands to evaluate in the added sources were to be read.
    Refreshing,
    Over,
}

/// What is to be done next to add sources.
#[derive(Clone, Copy, Debug, PartialEq, Eq, Structural)]
pub enum AddAction {
    /// Show or hide standard error. `replay` tells whether what was hidden is shown now.
    SetForwarding { enabled: bool, replay: bool },
    /// Add the modules that have a name by their names.
    AddNames,
    /// Add the modules that are no targets yet by their paths.
    AddPaths,
    /// List the search paths and the targets.
    RefreshTargets,
    /// Read the commands to evaluate in the sources that are targets now.
    RefreshEvalCommands,
    /// Return the sources that are no targets.
    Finish,
    /// Return the error that ended the additions.
    FailFirst,
    /// Return the error that was just reported.
    Fail,
}

/// What came of it.
#[derive(Clone, Copy, Debug, PartialEq, Eq, Structural)]
pub enum AddInput {
    /// What was to be done is done.
    Ready,
    /// What was to be done failed.
    Failed,
}

/// Sources that are being added.
#[derive(Debug)]
pub struct AddModules {
    pub paths: Vec<NormalPath>,
    /// The modules whose names are known.
    pub named: Vec<LoadedModule>,
    /// What was reported while they were added by name.
    pub named_log: CompilationLog,
    pub phase: AddPhase,
}

/// The model of [`AddModules`].
pub struct AddView {
    pub paths: Seq<NormalPathView>,
    pub named: Seq<ModuleView>,
    pub named_log: LogView,
    pub phase: AddPhase,
}

impl View for AddModules {
    type V = AddView;

    open spec fn view(&self) -> AddView {
        AddView {
            paths: views(self.paths@),
            named: views(self.named@),
            named_log: self.named_log@,
            phase: self.phase,
        }
    }
}

impl AddView {
    /// These additions in another phase.
    pub open spec fn at(self, phase: AddPhase) -> AddView {
        AddView { phase, ..self }
    }

    /// Whether all modules with a name are targets.
    pub open spec fn names_resolved(self, targets: Seq<ModuleView>) -> bool {
        forall|i: int| 0 <= i < self.named.len() ==> has_source(targets, (#[trigger] self.named[i]).path)
    }

    /// The end of the additions: the log tells of a failure if some source is no target.
    pub open spec fn concluded(self, targets: Seq<ModuleView>, log: LogView) -> (AddView, LogView, AddAction) {
        (
            self.at(AddPhase::Refreshing),
            if unresolved(self.paths, targets).len() == 0 {
                log.filled()
            } else {
                log.failed()
            },
            AddAction::RefreshEvalCommands,
        )
    }

    /// What follows when the names were tried. If they made all sources targets, what was reported
    /// then is the result. If they did not, it is dropped, and adding the others by path gives the
    /// result.
    pub open spec fn after_names(self, targets: Seq<ModuleView>, log: LogView) -> (AddView, LogView, AddAction) {
        if unresolved(self.paths, targets).len() == 0 {
            let (after, log, action) = self.concluded(targets, log.joined(self.named_log));
            (AddView { named_log: LogView::empty(), ..after }, log, action)
        } else {
            (self.at(AddPhase::AddingPaths), log, AddAction::AddPaths)
        }
    }

    /// What happens next. Nothing, if the input does not answer what was last to be done.
    pub open spec fn next(self, targets: Seq<ModuleView>, log: LogView, input: AddInput) -> Option<
        (AddView, LogView, AddAction),
    > {
        match (self.phase, input) {
            (AddPhase::Hiding, AddInput::Ready) => Some((self.at(AddPhase::AddingNames), log, AddAction::AddNames)),
            (AddPhase::AddingNames, AddInput::Ready) => Some(
                (self.at(AddPhase::ListingNames), log, AddAction::RefreshTargets),
            ),
            (AddPhase::ListingNames, AddInput::Ready) => Some(
                (
                    self.at(AddPhase::Showing),
                    log,
                    AddAction::SetForwarding { enabled: true, replay: self.names_resolved(targets) },
                ),
            ),
            (AddPhase::AddingNames, AddInput::Failed) => Some(
                (
                    self.at(AddPhase::Replaying),
                    log,
                    AddAction::SetForwarding { enabled: true, replay: true },
                ),
            ),
            (AddPhase::ListingNames, AddInput::Failed) => Some(
                (
                    self.at(AddPhase::Replaying),
                    log,
                    AddAction::SetForwarding { enabled: true, replay: true },
                ),
            ),
            (AddPhase::Replaying, AddInput::Ready) => Some((self.at(AddPhase::Over), log, AddAction::FailFirst)),
            (AddPhase::Showing, AddInput::Ready) => Some(self.after_names(targets, log)),
            (AddPhase::AddingPaths, AddInput::Ready) => Some(
                (self.at(AddPhase::ListingPaths), log, AddAction::RefreshTargets),
            ),
            (AddPhase::ListingPaths, AddInput::Ready) => Some(self.concluded(targets, log)),
            (AddPhase::Refreshing, AddInput::Ready) => Some((self.at(AddPhase::Over), log, AddAction::Finish)),
            (AddPhase::Over, _) => None,
            (_, AddInput::Failed) => Some((self.at(AddPhase::Over), log, AddAction::Fail)),
        }
    }
}

fn all_resolved(modules: &Vec<LoadedModule>, targets: &ModuleSet) -> (r: bool)
    ensures
        r == (forall|i: int|
            0 <= i < modules@.len() ==> has_source(targets@, (#[trigger] views(modules@)[i]).path)),
{
    let ghost all = views(modules@);
    let mut i: usize = 0;
    while i < modules.len()
        invariant
            i <= modules@.len(),
            all == views(modules@),
            forall|n: int| 0 <= n < i ==> has_source(targets@, (#[trigger] all[n]).path),
        decreases modules@.len() - i,
    {
        proof {
            assert(all[i as int] == modules@[i as int]@);
        }
        if !targets.contains_source_path(modules[i].path()) {
            return false;
        }
        i = i + 1;
    }
    true
}

fn name_modules(paths: &Vec<NormalPath>, names: &Vec<Option<String>>) -> (r: Vec<LoadedModule>)
    requires
        names@.len() == paths@.len(),
    ensures
        views(r@) == named_modules(views(paths@), names@),
{
    let ghost all = views(paths@);
    let mut r: Vec<LoadedModule> = Vec::new();
    let mut i: usize = 0;
    proof {
        assert(views(r@) =~= seq![]);
    }
    while i < paths.len()
        invariant
            i <= paths@.len() == names@.len(),
            all == views(paths@),
            views(r@) == named_modules(all.take(i as int), names@.take(i as int)),
        decreases paths@.len() - i,
    {
        let ghost before = views(r@);
        proof {
            assert(all.take(i + 1).drop_last() =~= all.take(i as int));
            assert(names@.take(i + 1).drop_last() =~= names@.take(i as int));
            assert(all[i as int] == paths@[i as int]@);
        }
        match &names[i] {
            Some(name) => {
                let module = LoadedModule::with_name(paths[i].clone(), name.clone());
                let ghost v = module@;
                r.push(module);
                proof {
                    assert(views(r@) =~= before.push(v));
                }
            },
            None => {},
        }
        i = i + 1;
    }
    proof {
        assert(all.take(all.len() as int) =~= all);
        assert(names@.take(names@.len() as int) =~= names@);
    }
    r
}

impl AddModules {
    fn conclude(&mut self, targets: &ModuleSet, log: &mut CompilationLog) -> (r: AddAction)
        ensures
            (final(self)@, final(log)@, r) == old(self)@.concluded(targets@, old(log)@),
    {
        let (_, rest) = divide_paths(&self.paths, targets);
        proof {
            assert(views(rest@).len() == rest@.len());
        }
        if rest.len() == 0 {
            log.fill_empty_summary();
        } else {
            log.mark_failed();
        }
        self.phase = AddPhase::Refreshing;
        AddAction::RefreshEvalCommands
    }

    fn try_paths(&mut self, targets: &ModuleSet, log: &mut CompilationLog) -> (r: AddAction)
        ensures
            (final(self)@, final(log)@, r) == old(self)@.after_names(targets@, old(log)@),
    {
        let (_, rest) = divide_paths(&self.paths, targets);
        proof {
            assert(views(rest@).len() == rest@.len());
        }
        if rest.len() == 0 {
            let mut named_log = CompilationLog::default();
            std::mem::swap(&mut named_log, &mut self.named_log);
            log.append(named_log);
            self.conclude(targets, log)
        } else {
            self.phase = AddPhase::AddingPaths;
            AddAction::AddPaths
        }
    }
}

impl Ghci {
    /// Begins to add sources. `names` holds the module name of each path, where there is one. Names
    /// come first: a name that the session can resolve keeps the module in its configured unit. It is
    /// an error if some path is a target already; then nothing is to be done.
    pub fn begin_additions(&self, paths: Vec<NormalPath>, names: &Vec<Option<String>>, log: &mut CompilationLog) -> (r:
        Option<(AddModules, AddAction)>)
        requires
            names@.len() == paths@.len(),
        ensures
            match r {
                Some((run, action)) => {
                    let start = AddView {
                        paths: views(paths@),
                        named: named_modules(views(paths@), names@),
                        named_log: LogView::empty(),
                        phase: AddPhase::Hiding,
                    };
                    &&& accepted(views(paths@), self@.targets).len() == 0
                    &&& if start.named.len() > 0 {
                        run@ == start && action == (AddAction::SetForwarding { enabled: false, replay: false })
                            && final(log)@ == old(log)@
                    } else {
                        (run@, final(log)@, action) == start.after_names(self@.targets, old(log)@)
                    }
                },
                None => accepted(views(paths@), self@.targets).len() > 0 && final(log)@ == old(log)@,
            },
    {
        let (inside, _) = divide_paths(&paths, &self.targets);
        proof {
            assert(views(inside@).len() == inside@.len());
        }
        if inside.len() > 0 {
            return None;
        }
        let named = name_modules(&paths, names);
        proof {
            assert(views(named@).len() == named@.len());
        }
        let some = named.len() > 0;
        let mut run = AddModules { paths, named, named_log: CompilationLog::default(), phase: AddPhase::Hiding };
        let action = if some {
            AddAction::SetForwarding { enabled: false, replay: false }
        } else {
            run.try_paths(&self.targets, log)
        };
        Some((run, action))
    }

    /// Takes what came of what was last to be done to add sources and says what is to be done next.
    /// Nothing changes, and nothing is to be done, once the additions are over.
    pub fn add_modules(&self, run: &mut AddModules, log: &mut CompilationLog, input: AddInput) -> (r: Option<AddAction>)
        ensures
            match r {
                Some(action) => old(run)@.next(self@.targets, old(log)@, input) == Some(
                    (final(run)@, final(log)@, action),
                ),
                None => old(run)@.next(self@.targets, old(log)@, input) is None && final(run)@ == old(run)@
                    && final(log)@ == old(log)@,
            },
    {
        match (run.phase, input) {
            (AddPhase::Hiding, AddInput::Ready) => {
                run.phase = AddPhase::AddingNames;
                Some(AddAction::AddNames)
            },
            (AddPhase::AddingNames, AddInput::Ready) => {
                run.phase = AddPhase::ListingNames;
                Some(AddAction::RefreshTargets)
            },
            (AddPhase::ListingNames, AddInput::Ready) => {
                let replay = all_resolved(&run.named, &self.targets);
                run.phase = AddPhase::Showing;
                Some(AddAction::SetForwarding { enabled: true, replay })
            },
            (AddPhase::AddingNames, AddInput::Failed) => {
                run.phase = AddPhase::Replaying;
                Some(AddAction::SetForwarding { enabled: true, replay: true })
            },
            (AddPhase::ListingNames, AddInput::Failed) => {
                run.phase = AddPhase::Replaying;
                Some(AddAction::SetForwarding { enabled: true, replay: true })
            },
            (AddPhase::Replaying, AddInput::Ready) => {
                run.phase = AddPhase::Over;
                Some(AddAction::FailFirst)
            },
            (AddPhase::Showing, AddInput::Ready) => Some(run.try_paths(&self.targets, log)),
            (AddPhase::AddingPaths, AddInput::Ready) => {
                run.phase = AddPhase::ListingPaths;
                Some(AddAction::RefreshTargets)
            },
            (AddPhase::ListingPaths, AddInput::Ready) => Some(run.conclude(&self.targets, log)),
            (AddPhase::Refreshing, AddInput::Ready) => {
                run.phase = AddPhase::Over;
                Some(AddAction::Finish)
            },
            (AddPhase::Over, _) => None,
            (_, AddInput::Failed) => {
                run.phase = AddPhase::Over;
                Some(AddAction::Fail)
            },
        }
    }
}

/// Standard error is hidden only while names are tried: unless showing it again itself fails, it is
/// shown again before anything else follows.
pub proof fn hidden_output_is_shown_again(run: AddView, targets: Seq<ModuleView>, log: LogView, input: AddInput)
    requires
        run.next(targets, log, input) is Some,
        run.phase is AddingNames || run.phase is ListingNames,
    ensures
        ({
            let (after, _, action) = run.next(targets, log, input)->0;
            ||| after.phase is ListingNames && action is RefreshTargets
            ||| action is SetForwarding && action->enabled
        }),
{
}

/// A source that GHCi did not accept makes the result a failure, whatever an earlier operation
/// reported.
pub proof fn rejected_source_is_a_failure(run: AddView, targets: Seq<ModuleView>, log: LogView, input: AddInput)
    requires
        run.next(targets, log, input) is Some,
        (run.next(targets, log, input)->0).2 is RefreshEvalCommands,
    ensures
        unresolved(run.paths, targets).len() > 0 ==> (run.next(targets, log, input)->0).1.result() == Some(
            crate::ghci::parse::ghc_message::compilation_summary::CompilationResult::Failure,
        ),
        (run.next(targets, log, input)->0).1.result() is Some,
{
}

proof fn lemma_in_push<T>(s: Seq<T>, x: T, y: T)
    ensures
        s.push(x).contains(y) <==> s.contains(y) || y == x,
{
    if s.contains(y) {
        let i = choose|i: int| 0 <= i < s.len() && s[i] == y;
        assert(s.push(x)[i] == y);
    }
    if y == x {
        assert(s.push(x)[s.len() as int] == y);
    }
    if s.push(x).contains(y) {
        let i = choose|i: int| 0 <= i < s.push(x).len() && s.push(x)[i] == y;
        if i < s.len() {
            assert(s[i] == y);
        }
    }
}

/// Each source is either accepted or not: it is accepted exactly if one of the targets has it.
pub proof fn sources_are_accepted_or_not(paths: Seq<NormalPathView>, targets: Seq<ModuleView>, p: NormalPathView)
    ensures
        accepted(paths, targets).contains(p) <==> paths.contains(p) && has_source(targets, p),
        unresolved(paths, targets).contains(p) <==> paths.contains(p) && !has_source(targets, p),
        accepted(paths, targets).len() + unresolved(paths, targets).len() == paths.len(),
    decreases paths.len(),
{
    if paths.len() > 0 {
        let rest = paths.drop_last();
        sources_are_accepted_or_not(rest, targets, p);
        assert(rest.push(paths.last()) =~= paths);
        lemma_in_push(rest, paths.last(), p);
        lemma_in_push(accepted(rest, targets), paths.last(), p);
        lemma_in_push(unresolved(rest, targets), paths.last(), p);
    }
}

/// The modules that are added by name are exactly those whose names are known.
pub proof fn modules_are_named_by_their_sources(
    paths: Seq<NormalPathView>,
    names: Seq<Option<String>>,
    v: ModuleView,
)
    requires
        paths.len() == names.len(),
    ensures
        named_modules(paths, names).contains(v) <==> exists|i: int|
            0 <= i < paths.len() && names[i] is Some && #[trigger] paths[i] == v.path && v.name == Some(
                names[i]->0@,
            ),
    decreases paths.len(),
{
    if paths.len() > 0 {
        let last = paths.len() - 1;
        let before = named_modules(paths.drop_last(), names.drop_last());
        modules_are_named_by_their_sources(paths.drop_last(), names.drop_last(), v);
        if names.last() is Some {
            lemma_in_push(before, ModuleView { path: paths.last(), name: Some(names.last()->0@) }, v);
        }
        if before.contains(v) {
            let i = choose|i: int|
                0 <= i < last && names.drop_last()[i] is Some && #[trigger] paths.drop_last()[i] == v.path && v.name
                    == Some(names.drop_last()[i]->0@);
            assert(paths[i] == v.path);
        }
        if exists|i: int|
            0 <= i < paths.len() && names[i] is Some && #[trigger] paths[i] == v.path && v.name == Some(
                names[i]->0@,
            ) {
            let i = choose|i: int|
                0 <= i < paths.len() && names[i] is Some && #[trigger] paths[i] == v.path && v.name == Some(
                    names[i]->0@,
                );
            if i < last {
                assert(paths.drop_last()[i] == paths[i]);
                assert(names.drop_last()[i] == names[i]);
                assert(before.contains(v));
            }
        }
        if names.last() is Some && v == (ModuleView { path: paths.last(), name: Some(names.last()->0@) }) {
            assert(paths[last] == v.path);
        }
    }
}

/// Names are tried with standard error hidden; what was hidden is shown exactly if they made all named modules
/// targets. If all sources are targets then, the commands in them are read and that is the end; if not, the sources
/// are added by path first.
pub proof fn names_are_tried_first(run: AddView, targets: Seq<ModuleView>, log: LogView)
    requires
        run.phase is Hiding,
    ensures
        ({
            let added = run.next(targets, log, AddInput::Ready)->0;
            let listed = added.0.next(targets, log, AddInput::Ready)->0;
            let shown = listed.0.next(targets, log, AddInput::Ready)->0;
            let tried = shown.0.next(targets, log, AddInput::Ready)->0;
            let all = forall|i: int| 0 <= i < run.paths.len() ==> has_source(targets, #[trigger] run.paths[i]);
            let all_named = forall|i: int|
                0 <= i < run.named.len() ==> has_source(targets, (#[trigger] run.named[i]).path);
            &&& added.2 is AddNames && added.1 == log
            &&& listed.2 is RefreshTargets && listed.1 == log
            &&& shown.2 == (AddAction::SetForwarding { enabled: true, replay: all_named }) && shown.1 == log
            &&& tried.2 is RefreshEvalCommands <==> all
            &&& tried.2 is AddPaths <==> !all
            &&& all ==> tried.1 == log.joined(run.named_log).filled()
            &&& !all ==> tried.1 == log && tried.0.phase is AddingPaths
        }),
{
    lemma_all_resolved(run.paths, targets);
}

proof fn lemma_all_resolved(paths: Seq<NormalPathView>, targets: Seq<ModuleView>)
    ensures
        unresolved(paths, targets).len() == 0 <==> forall|i: int|
            0 <= i < paths.len() ==> has_source(targets, #[trigger] paths[i]),
{
    let rest = unresolved(paths, targets);
    if rest.len() == 0 {
        assert forall|i: int| 0 <= i < paths.len() implies has_source(targets, #[trigger] paths[i]) by {
            sources_are_accepted_or_not(paths, targets, paths[i]);
            assert(paths.contains(paths[i]));
        }
    } else {
        assert(rest.contains(rest[0]));
        sources_are_accepted_or_not(paths, targets, rest[0]);
        let i = choose|i: int| 0 <= i < paths.len() && paths[i] == rest[0];
        assert(!has_source(targets, paths[i]));
    }
}

/// After the sources were added by path the targets are listed, the commands in the sources are read, and that is the
/// end. The result is a failure if one of the sources is no target.
pub proof fn paths_are_tried_then(run: AddView, targets: Seq<ModuleView>, log: LogView)
    requires
        run.phase is AddingPaths,
    ensures
        ({
            let listed = run.next(targets, log, AddInput::Ready)->0;
            let read = listed.0.next(targets, log, AddInput::Ready)->0;
            let end = read.0.next(targets, read.1, AddInput::Ready)->0;
            let all = forall|i: int| 0 <= i < run.paths.len() ==> has_source(targets, #[trigger] run.paths[i]);
            &&& listed.2 is RefreshTargets && listed.1 == log
            &&& read.2 is RefreshEvalCommands
            &&& all ==> read.1 == log.filled()
            &&& !all ==> read.1 == log.failed()
            &&& end.2 is Finish && end.1 == read.1
        }),
{
    lemma_all_resolved(run.paths, targets);
}

/// A step that fails ends the additions with its error; while names are tried, what was hidden is shown before.
pub proof fn failed_additions_return_their_error(run: AddView, targets: Seq<ModuleView>, log: LogView)
    requires
        !(run.phase is Over),
    ensures
        ({
            let failed = run.next(targets, log, AddInput::Failed);
            let hidden = run.phase is AddingNames || run.phase is ListingNames;
            &&& failed is Some && (failed->0).1 == log
            &&& (failed->0).2 is Fail <==> !hidden
            &&& hidden ==> (failed->0).2 == (AddAction::SetForwarding { enabled: true, replay: true })
            &&& hidden ==> ((failed->0).0.next(targets, log, AddInput::Ready) matches Some((_, after, action)) && action is FailFirst
                && after == log)
        }),
{
}

/// An addition waits for the end of what it does, and is over exactly when it returns.
pub proof fn addition_waits_for_what_it_does(run: AddView, targets: Seq<ModuleView>, log: LogView, input: AddInput)
    requires
        run.next(targets, log, input) is Some,
    ensures
        (run.next(targets, log, input)->0).0.phase is Over <==> (run.next(targets, log, input)->0).2 is Finish || (run.next(targets, log, input)->0).2 is FailFirst || (run.next(targets, log, input)->0).2 is Fail,
        (run.next(targets, log, input)->0).0.phase is AddingNames <==> (run.next(targets, log, input)->0).2 is AddNames,
        (run.next(targets, log, input)->0).0.phase is AddingPaths <==> (run.next(targets, log, input)->0).2 is AddPaths,
        (run.next(targets, log, input)->0).0.phase is Refreshing <==> (run.next(targets, log, input)->0).2 is RefreshEvalCommands,
{
}

} // verus!
