//! The remote build as a state machine, in mathematical terms.
//!
//! A remote build follows the same discipline as a build from an adjacency
//! list, but it learns the direct dependencies of a package, and the version
//! under which a dependency is expanded, from the registry. It cannot ask the
//! registry itself. It says which listing it needs next, and goes on when the
//! answer is handed to it. Both kinds of answer are remembered for the length
//! of the build.

use crate::registry::{
    dependency_outcome, version_outcome, DependencyRecord, RegistryErrorView, Reply,
    VersionRecord,
};
use crate::remote::Event;
use crate::traversal::at_bound;
use vstd::prelude::*;

verus! {

/// A fatal error, with the package and version whose dependency listing
/// failed.
pub struct FaultView {
    pub package: Seq<char>,
    pub version: Seq<char>,
    pub error: RegistryErrorView,
}

/// A version lookup that failed, with the dependency that stays unexpanded.
pub struct WarningView {
    pub package: Seq<char>,
    pub error: RegistryErrorView,
}

/// What the caller of a build is to do next.
pub enum ActionView {
    /// Fetch the direct dependencies of `version` of `package`.
    FetchDependencies { package: Seq<char>, version: Seq<char> },
    /// Fetch the versions of `package`.
    FetchVersions { package: Seq<char> },
    /// The graph is complete.
    Finish,
    /// The build has failed.
    Abort { fault: FaultView },
}

/// The result of one step: the next action, and a warning where the step
/// gave up on a dependency.
pub struct StepView {
    pub action: ActionView,
    pub warning: Option<WarningView>,
}

/// What a build is waiting for.
pub enum PhaseView {
    /// The dependency listing of `package` at `version`, which was taken
    /// from the work stack at `depth`.
    AwaitingDependencies { package: Seq<char>, version: Seq<char>, depth: nat },
    /// The version listing of `deps[next]`. The dependencies before it are
    /// dealt with; all of them go on the work stack at `depth`.
    AwaitingVersions { deps: Seq<Seq<char>>, next: nat, depth: nat },
    /// Nothing: the graph is complete.
    Finished,
    /// Nothing: the build has failed.
    Failed { fault: FaultView },
}

/// What a build has gathered, apart from what it is waiting for.
pub struct Progress {
    /// The package whose graph is built.
    pub root: Seq<char>,
    /// The entries recorded so far.
    pub graph: Map<Seq<char>, Seq<Seq<char>>>,
    /// The names taken from the work stack for expansion so far.
    pub visited: Set<Seq<char>>,
    /// The work stack of `(name, version, depth)`, top last.
    pub stack: Seq<(Seq<char>, Seq<char>, nat)>,
    /// The depth bound.
    pub bound: Option<nat>,
    /// The latest version of each package that was looked up with success.
    pub latest: Map<Seq<char>, Seq<char>>,
    /// The dependency list of each `(package, version)` that was fetched
    /// with success.
    pub responses: Map<(Seq<char>, Seq<char>), Seq<Seq<char>>>,
}

/// The state of a remote build.
pub struct BuildState {
    /// What the build has gathered.
    pub progress: Progress,
    /// What the build is waiting for.
    pub phase: PhaseView,
}

/// The state in which a build of `package` at `version` starts: the root is
/// taken from the work stack at depth 0 and its dependency listing is called
/// for.
pub open spec fn initial_state(package: Seq<char>, version: Seq<char>, bound: Option<nat>)
    -> BuildState {
    BuildState {
        progress: Progress {
            root: package,
            graph: Map::empty(),
            visited: set![package],
            stack: Seq::empty(),
            bound,
            latest: Map::empty(),
            responses: Map::empty(),
        },
        phase: PhaseView::AwaitingDependencies { package, version, depth: 0 },
    }
}

/// The action that answers what a build in `phase` is waiting for.
pub open spec fn pending_action(phase: PhaseView) -> ActionView {
    match phase {
        PhaseView::AwaitingDependencies { package, version, .. } => ActionView::FetchDependencies {
            package,
            version,
        },
        PhaseView::AwaitingVersions { deps, next, .. } => ActionView::FetchVersions {
            package: deps[next as int],
        },
        PhaseView::Finished => ActionView::Finish,
        PhaseView::Failed { fault } => ActionView::Abort { fault },
    }
}

/// The remembered dependency listings of packages that were not expanded
/// yet. Only these can be expanded without asking the registry.
pub open spec fn usable_responses(p: Progress) -> Set<(Seq<char>, Seq<char>)> {
    p.responses.dom().filter(|k: (Seq<char>, Seq<char>)| !p.visited.contains(k.0))
}

/// How many of `deps` are left from `next` on.
pub open spec fn left(deps: Seq<Seq<char>>, next: nat) -> nat {
    if next <= deps.len() {
        (deps.len() - next) as nat
    } else {
        0
    }
}

/// Puts the dependencies `deps[next..]` of an expanded package on the work
/// stack at `depth`, each under its latest version, then goes on with the
/// work stack. A dependency whose latest version is not remembered stops the
/// build until its version listing arrives.
pub open spec fn resolve(p: Progress, deps: Seq<Seq<char>>, next: nat, depth: nat) -> (
    BuildState,
    ActionView,
)
    decreases usable_responses(p).len(), p.stack.len() + left(deps, next), left(deps, next) + 1,
    when p.responses.dom().finite()
{
    if next >= deps.len() {
        expand(p)
    } else {
        let dep = deps[next as int];
        if p.latest.dom().contains(dep) {
            resolve(
                Progress { stack: p.stack.push((dep, p.latest[dep], depth)), ..p },
                deps,
                next + 1,
                depth,
            )
        } else {
            (
                BuildState { progress: p, phase: PhaseView::AwaitingVersions { deps, next, depth } },
                ActionView::FetchVersions { package: dep },
            )
        }
    }
}

/// Takes work from the stack until a package has to be expanded whose
/// dependency listing is not remembered, or the stack is empty. A name that
/// was visited before is dropped.
pub open spec fn expand(p: Progress) -> (BuildState, ActionView)
    decreases usable_responses(p).len(), p.stack.len(), 0nat,
    when p.responses.dom().finite()
{
    if p.stack.len() == 0 {
        (BuildState { progress: p, phase: PhaseView::Finished }, ActionView::Finish)
    } else {
        let (package, version, depth) = p.stack.last();
        let rest = p.stack.drop_last();
        if p.visited.contains(package) {
            expand(Progress { stack: rest, ..p })
        } else {
            let taken = Progress { stack: rest, visited: p.visited.insert(package), ..p };
            if p.responses.dom().contains((package, version)) {
                proof {
                    lemma_visit_uses_response(p, package, version);
                }
                settle(taken, package, p.responses[(package, version)], depth)
            } else {
                (
                    BuildState {
                        progress: taken,
                        phase: PhaseView::AwaitingDependencies { package, version, depth },
                    },
                    ActionView::FetchDependencies { package, version },
                )
            }
        }
    }
}

/// Records `deps` as the dependency list of `package`, which was taken from
/// the work stack at `depth`, and goes on: with its dependencies unless the
/// package sits at the depth bound, and then with the work stack.
pub open spec fn settle(p: Progress, package: Seq<char>, deps: Seq<Seq<char>>, depth: nat) -> (
    BuildState,
    ActionView,
)
    decreases usable_responses(p).len(), p.stack.len() + deps.len() + 1, 0nat,
    when p.responses.dom().finite()
{
    let recorded = Progress { graph: p.graph.insert(package, deps), ..p };
    if at_bound(p.bound, depth) {
        expand(recorded)
    } else {
        resolve(recorded, deps, 0, depth + 1)
    }
}

/// Visiting a package whose dependency listing is remembered leaves fewer
/// remembered listings of packages that were not expanded.
pub proof fn lemma_visit_uses_response(p: Progress, package: Seq<char>, version: Seq<char>)
    requires
        p.responses.dom().finite(),
        !p.visited.contains(package),
        p.responses.dom().contains((package, version)),
    ensures
        usable_responses(Progress { visited: p.visited.insert(package), ..p }).len()
            < usable_responses(p).len(),
{
    let before = usable_responses(p);
    let after = usable_responses(Progress { visited: p.visited.insert(package), ..p });
    vstd::set_lib::lemma_len_subset(after, before.remove((package, version)));
}

/// The state and the step that follow when `event` is handed to a build in
/// state `s`.
///
/// A dependency listing that fails makes the build fail. A version listing
/// that fails costs only the dependency it was asked for: the dependency
/// stays in the recorded list of its parent, is never expanded, and the step
/// carries a warning. An event that does not answer what the build is
/// waiting for changes nothing.
pub open spec fn transition(s: BuildState, event: Event) -> (BuildState, StepView) {
    let p = s.progress;
    match (s.phase, event) {
        (
            PhaseView::AwaitingDependencies { package, version, depth },
            Event::Dependencies(reply),
        ) => match dependency_outcome(reply) {
            Err(error) => {
                let fault = FaultView { package, version, error };
                (
                    BuildState { progress: p, phase: PhaseView::Failed { fault } },
                    StepView { action: ActionView::Abort { fault }, warning: None },
                )
            },
            Ok(deps) => {
                let remembered = Progress {
                    responses: p.responses.insert((package, version), deps),
                    ..p
                };
                let (end, action) = settle(remembered, package, deps, depth);
                (end, StepView { action, warning: None })
            },
        },
        (PhaseView::AwaitingVersions { deps, next, depth }, Event::Versions(reply)) => {
            let dep = deps[next as int];
            match version_outcome(reply) {
                Ok(version) => {
                    let pushed = Progress {
                        latest: p.latest.insert(dep, version),
                        stack: p.stack.push((dep, version, depth)),
                        ..p
                    };
                    let (end, action) = resolve(pushed, deps, next + 1, depth);
                    (end, StepView { action, warning: None })
                },
                Err(error) => {
                    let (end, action) = resolve(p, deps, next + 1, depth);
                    (end, StepView { action, warning: Some(WarningView { package: dep, error }) })
                },
            }
        },
        _ => (s, StepView { action: pending_action(s.phase), warning: None }),
    }
}

/// Whether `event` is the answer that a build in `phase` is waiting for.
pub open spec fn answers(phase: PhaseView, event: Event) -> bool {
    match (phase, event) {
        (PhaseView::AwaitingDependencies { .. }, Event::Dependencies(_)) => true,
        (PhaseView::AwaitingVersions { .. }, Event::Versions(_)) => true,
        _ => false,
    }
}

/// What holds of the gathered data at every point of a build.
///
/// The sets are finite. Only visited names have entries, and only of visited
/// names a dependency listing is remembered. The root is visited, and every
/// other visited name was put on the work stack under its remembered latest
/// version, as is every name still on the stack. No work item lies deeper
/// than the number of names visited.
pub open spec fn sound(p: Progress) -> bool {
    &&& p.visited.finite()
    &&& p.responses.dom().finite()
    &&& p.graph.dom().subset_of(p.visited)
    &&& forall|k: (Seq<char>, Seq<char>)| #[trigger]
        p.responses.dom().contains(k) ==> p.visited.contains(k.0)
    &&& p.visited.contains(p.root)
    &&& forall|n: Seq<char>| #[trigger]
        p.visited.contains(n) ==> n == p.root || p.latest.dom().contains(n)
    &&& forall|i: int|
        0 <= i < p.stack.len() ==> {
            &&& (#[trigger] p.stack[i]).2 <= p.visited.len()
            &&& p.latest.dom().contains(p.stack[i].0)
            &&& p.latest[p.stack[i].0] == p.stack[i].1
        }
}

/// What holds of every state of a build.
pub open spec fn well_formed(s: BuildState) -> bool {
    &&& sound(s.progress)
    &&& match s.phase {
        PhaseView::AwaitingDependencies { package, version, depth } => {
            &&& s.progress.visited.contains(package)
            &&& !s.progress.graph.dom().contains(package)
            &&& !s.progress.responses.dom().contains((package, version))
            &&& depth < s.progress.visited.len()
        },
        PhaseView::AwaitingVersions { deps, next, depth } => {
            &&& next < deps.len()
            &&& !s.progress.latest.dom().contains(deps[next as int])
            &&& depth <= s.progress.visited.len()
        },
        PhaseView::Finished => s.progress.stack.len() == 0,
        PhaseView::Failed { .. } => true,
    }
}

/// How the state `end` and the action `action`, reached by going on from the
/// gathered data `p`, relate to `p`.
///
/// The build is well formed and has not failed, and the action is the one
/// that the new phase calls for. Visited names stay visited; the entries,
/// the caches and the depth bound are as they were. A dependency listing is
/// only asked for a package that had not been visited.
pub open spec fn goes_on(p: Progress, end: BuildState, action: ActionView) -> bool {
    &&& well_formed(end)
    &&& action == pending_action(end.phase)
    &&& !(end.phase is Failed)
    &&& p.visited.subset_of(end.progress.visited)
    &&& p.graph == end.progress.graph
    &&& p.latest == end.progress.latest
    &&& p.responses == end.progress.responses
    &&& p.bound == end.progress.bound
    &&& p.root == end.progress.root
    &&& action matches ActionView::FetchDependencies { package, .. } ==> !p.visited.contains(
        package,
    )
}

/// No remembered dependency listing is ever needed again: what is
/// remembered belongs to visited packages, and a package is expanded once.
/// So every entry of a graph comes from a listing that was handed to the
/// build in the step that recorded it.
pub proof fn lemma_no_listing_is_reused(p: Progress)
    requires
        sound(p),
    ensures
        usable_responses(p) == Set::<(Seq<char>, Seq<char>)>::empty(),
{
}

/// Going on with the dependencies of an expanded package keeps a build well
/// formed and records nothing.
pub proof fn lemma_resolve_goes_on(p: Progress, deps: Seq<Seq<char>>, next: nat, depth: nat)
    requires
        sound(p),
        depth <= p.visited.len(),
    ensures
        goes_on(p, resolve(p, deps, next, depth).0, resolve(p, deps, next, depth).1),
    decreases left(deps, next),
{
    if next >= deps.len() {
        lemma_expand_goes_on(p);
    } else {
        let dep = deps[next as int];
        if p.latest.dom().contains(dep) {
            let pushed = Progress { stack: p.stack.push((dep, p.latest[dep], depth)), ..p };
            lemma_resolve_goes_on(pushed, deps, next + 1, depth);
        }
    }
}

/// Going on with the work stack keeps a build well formed and records
/// nothing: it stops at the first name that was not visited.
pub proof fn lemma_expand_goes_on(p: Progress)
    requires
        sound(p),
    ensures
        goes_on(p, expand(p).0, expand(p).1),
    decreases p.stack.len(),
{
    if p.stack.len() > 0 && p.visited.contains(p.stack.last().0) {
        lemma_expand_goes_on(Progress { stack: p.stack.drop_last(), ..p });
    }
}

/// Recording the dependency list of a visited package that has no entry yet
/// keeps a build well formed, and records nothing else.
pub proof fn lemma_settle_goes_on(
    p: Progress,
    package: Seq<char>,
    deps: Seq<Seq<char>>,
    depth: nat,
)
    requires
        sound(p),
        p.visited.contains(package),
        depth < p.visited.len(),
    ensures
        goes_on(
            Progress { graph: p.graph.insert(package, deps), ..p },
            settle(p, package, deps, depth).0,
            settle(p, package, deps, depth).1,
        ),
{
    let recorded = Progress { graph: p.graph.insert(package, deps), ..p };
    if at_bound(p.bound, depth) {
        lemma_expand_goes_on(recorded);
    } else {
        lemma_resolve_goes_on(recorded, deps, 0, depth + 1);
    }
}

/// The entries of a build after `event` was handed to it in state `s`: the
/// entries it had, and the dependency list of the package it was waiting
/// for where the event brings it.
pub open spec fn recorded_after(s: BuildState, event: Event) -> Map<Seq<char>, Seq<Seq<char>>> {
    match (s.phase, event) {
        (PhaseView::AwaitingDependencies { package, .. }, Event::Dependencies(reply)) => {
            match dependency_outcome(reply) {
                Ok(deps) => s.progress.graph.insert(package, deps),
                Err(_) => s.progress.graph,
            }
        },
        _ => s.progress.graph,
    }
}

/// A build starts well formed.
pub proof fn lemma_initial_well_formed(package: Seq<char>, version: Seq<char>, bound: Option<nat>)
    ensures
        well_formed(initial_state(package, version, bound)),
{
}

/// Every step keeps a build well formed, keeps what was visited, recorded
/// and remembered, and returns the action that the new state calls for.
///
/// A step records at most one entry: that of the package whose dependency
/// listing it was handed. A step that answers the build's request asks for
/// a dependency listing only of a package that was not visited before the
/// step and is visited after it. Since visited names stay visited, no
/// package's dependency listing is asked for twice in one build, and each
/// package with an entry was expanded exactly once, however many packages
/// depend on it.
pub proof fn lemma_step_goes_on(s: BuildState, event: Event)
    requires
        well_formed(s),
    ensures
        well_formed(transition(s, event).0),
        transition(s, event).1.action == pending_action(transition(s, event).0.phase),
        s.progress.visited.subset_of(transition(s, event).0.progress.visited),
        transition(s, event).0.progress.graph == recorded_after(s, event),
        s.progress.graph.submap_of(transition(s, event).0.progress.graph),
        s.progress.latest.submap_of(transition(s, event).0.progress.latest),
        s.progress.responses.submap_of(transition(s, event).0.progress.responses),
        s.progress.bound == transition(s, event).0.progress.bound,
        s.progress.root == transition(s, event).0.progress.root,
        answers(s.phase, event) ==> (transition(s, event).1.action matches ActionView::FetchDependencies {
            package,
            ..
        } ==> !s.progress.visited.contains(package) && transition(
            s,
            event,
        ).0.progress.visited.contains(package)),
{
    let p = s.progress;
    match (s.phase, event) {
        (
            PhaseView::AwaitingDependencies { package, version, depth },
            Event::Dependencies(reply),
        ) => match dependency_outcome(reply) {
            Err(error) => {},
            Ok(deps) => {
                let remembered = Progress {
                    responses: p.responses.insert((package, version), deps),
                    ..p
                };
                lemma_settle_goes_on(remembered, package, deps, depth);
            },
        },
        (PhaseView::AwaitingVersions { deps, next, depth }, Event::Versions(reply)) => {
            let dep = deps[next as int];
            match version_outcome(reply) {
                Ok(version) => {
                    let pushed = Progress {
                        latest: p.latest.insert(dep, version),
                        stack: p.stack.push((dep, version, depth)),
                        ..p
                    };
                    lemma_resolve_goes_on(pushed, deps, next + 1, depth);
                },
                Err(error) => {
                    lemma_resolve_goes_on(p, deps, next + 1, depth);
                },
            }
        },
        _ => {},
    }
}

/// A dependency listing that cannot be had ends the build: the build has
/// failed with that error, keeps what it had gathered, and tells its caller
/// to abort. No tree can come of it, since only a finished build gives its
/// graph.
pub proof fn lemma_failed_listing_aborts(s: BuildState, reply: Reply<Vec<DependencyRecord>>)
    requires
        s.phase is AwaitingDependencies,
        dependency_outcome(reply) is Err,
    ensures
        ({
            let (end, step) = transition(s, Event::Dependencies(reply));
            &&& s.phase matches PhaseView::AwaitingDependencies { package, version, .. }
            &&& dependency_outcome(reply) matches Err(error)
            &&& end.phase == PhaseView::Failed { fault: FaultView { package, version, error } }
            &&& end.progress == s.progress
            &&& step.action == ActionView::Abort {
                fault: FaultView { package, version, error },
            }
            &&& step.warning is None
        }),
{
}

/// A build that has failed or finished stays as it is, whatever is handed
/// to it.
pub proof fn lemma_ended_build_stays(s: BuildState, event: Event)
    requires
        s.phase is Failed || s.phase is Finished,
    ensures
        transition(s, event).0 == s,
        transition(s, event).1 == (StepView { action: pending_action(s.phase), warning: None }),
{
}

/// A version listing that cannot be had costs only the dependency it was
/// asked for.
///
/// The step carries a warning that names the dependency and the error, and
/// the build goes on with the dependencies listed after it. The build does
/// not fail, the graph stays as it is (so the dependency stays in the list
/// of its parent), and nothing is remembered as its version. Unless it is
/// the root, the dependency is left unexpanded: it is not visited and has
/// no entry.
pub proof fn lemma_failed_version_is_skipped(s: BuildState, reply: Reply<Vec<VersionRecord>>)
    requires
        well_formed(s),
        s.phase is AwaitingVersions,
        version_outcome(reply) is Err,
    ensures
        ({
            let (end, step) = transition(s, Event::Versions(reply));
            &&& s.phase matches PhaseView::AwaitingVersions { deps, next, depth }
            &&& version_outcome(reply) matches Err(error)
            &&& step.warning == Some(WarningView { package: deps[next as int], error })
            &&& (end, step.action) == resolve(s.progress, deps, next + 1, depth)
            &&& !(end.phase is Failed)
            &&& end.progress.graph == s.progress.graph
            &&& end.progress.latest == s.progress.latest
            &&& deps[next as int] != s.progress.root ==> {
                &&& !end.progress.visited.contains(deps[next as int])
                &&& !end.progress.graph.dom().contains(deps[next as int])
            }
        }),
{
    match s.phase {
        PhaseView::AwaitingVersions { deps, next, depth } => {
            lemma_resolve_goes_on(s.progress, deps, next + 1, depth);
        },
        _ => {},
    }
}

} // verus!
