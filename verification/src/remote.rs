//! Building the transitive graph from the registry.
//!
//! A [`RemoteBuild`] holds everything one build gathers: the graph, the set
//! of visited names, the work stack and the two caches. It performs no
//! request itself. Its caller performs the [`Action`] it names and hands the
//! answer to [`RemoteBuild::step`], until the action is [`Action::Finish`] or
//! [`Action::Abort`].

use crate::graph::GraphStore;
use crate::names::{clone_names, names_of, NameSet};
use crate::registry::{
    read_dependencies, read_latest_version, DependencyRecord, RegistryError, Reply, VersionRecord,
};
use crate::remote_model::{
    expand, initial_state, lemma_step_goes_on, left, pending_action, resolve, sound, transition,
    well_formed, ActionView, BuildState, FaultView, PhaseView, Progress, StepView, WarningView,
};
use crate::table::Table;
use crate::traversal::{at_bound, bound_of};
use vstd::prelude::*;

verus! {

/// A fatal error of a build: the dependency listing of `version` of
/// `package` could not be had.
#[derive(Debug)]
pub struct Fault {
    pub package: String,
    pub version: String,
    pub error: RegistryError,
}

impl View for Fault {
    type V = FaultView;

    open spec fn view(&self) -> FaultView {
        FaultView { package: self.package@, version: self.version@, error: self.error@ }
    }
}

impl Fault {
    /// A copy of this fault.
    pub fn duplicate(&self) -> (copy: Fault)
        ensures
            copy@ == self@,
    {
        Fault {
            package: self.package.clone(),
            version: self.version.clone(),
            error: self.error.duplicate(),
        }
    }
}

/// A version lookup that failed: the dependency `package` stays in the list
/// of its parent and is not expanded.
#[derive(Debug)]
pub struct Warning {
    pub package: String,
    pub error: RegistryError,
}

impl View for Warning {
    type V = WarningView;

    open spec fn view(&self) -> WarningView {
        WarningView { package: self.package@, error: self.error@ }
    }
}

/// An answer handed to a build.
#[derive(Debug)]
pub enum Event {
    /// The answer to [`Action::FetchDependencies`].
    Dependencies(Reply<Vec<DependencyRecord>>),
    /// The answer to [`Action::FetchVersions`].
    Versions(Reply<Vec<VersionRecord>>),
}

/// What the caller of a build is to do next.
#[derive(Debug)]
pub enum Action {
    /// Fetch the direct dependencies of `version` of `package` and hand the
    /// answer back as [`Event::Dependencies`].
    FetchDependencies { package: String, version: String },
    /// Fetch the versions of `package` and hand the answer back as
    /// [`Event::Versions`].
    FetchVersions { package: String },
    /// The graph is complete.
    Finish,
    /// The build has failed; there is no graph.
    Abort { fault: Fault },
}

impl View for Action {
    type V = ActionView;

    open spec fn view(&self) -> ActionView {
        match *self {
            Action::FetchDependencies { package, version } => ActionView::FetchDependencies {
                package: package@,
                version: version@,
            },
            Action::FetchVersions { package } => ActionView::FetchVersions { package: package@ },
            Action::Finish => ActionView::Finish,
            Action::Abort { fault } => ActionView::Abort { fault: fault@ },
        }
    }
}

/// The result of one step of a build.
#[derive(Debug)]
pub struct Step {
    /// What to do next.
    pub action: Action,
    /// The version lookup that this step gave up on, if it did.
    pub warning: Option<Warning>,
}

impl View for Step {
    type V = StepView;

    open spec fn view(&self) -> StepView {
        StepView {
            action: self.action@,
            warning: match self.warning {
                Some(warning) => Some(warning@),
                None => None,
            },
        }
    }
}

/// The work stack as the model sees it.
pub open spec fn work_items(stack: Seq<(String, String, usize)>) -> Seq<
    (Seq<char>, Seq<char>, nat),
> {
    Seq::new(stack.len(), |i: int| (stack[i].0@, stack[i].1@, stack[i].2 as nat))
}

/// What a build is waiting for.
enum Phase {
    AwaitingDependencies { package: String, version: String, depth: usize },
    AwaitingVersions { deps: Vec<String>, next: usize, depth: usize },
    Finished,
    Failed { fault: Fault },
}

impl View for Phase {
    type V = PhaseView;

    closed spec fn view(&self) -> PhaseView {
        match *self {
            Phase::AwaitingDependencies { package, version, depth } => {
                PhaseView::AwaitingDependencies {
                    package: package@,
                    version: version@,
                    depth: depth as nat,
                }
            },
            Phase::AwaitingVersions { deps, next, depth } => PhaseView::AwaitingVersions {
                deps: names_of(deps@),
                next: next as nat,
                depth: depth as nat,
            },
            Phase::Finished => PhaseView::Finished,
            Phase::Failed { fault } => PhaseView::Failed { fault: fault@ },
        }
    }
}

/// The dependencies of an expanded package that still have to be put on the
/// work stack: the list, the place of the next one, and their depth.
type Job = Option<(Vec<String>, usize, usize)>;

spec fn job_view(job: Job) -> Option<(Seq<Seq<char>>, nat, nat)> {
    match job {
        Some((deps, next, depth)) => Some((names_of(deps@), next as nat, depth as nat)),
        None => None,
    }
}

spec fn job_left(job: Job) -> nat {
    match job {
        Some((deps, next, _)) => left(names_of(deps@), next as nat),
        None => 0,
    }
}

spec fn job_rank(job: Job) -> nat {
    match job {
        Some((deps, next, _)) => left(names_of(deps@), next as nat) + 1,
        None => 0,
    }
}

/// Where a build ends up when it goes on from `p` with `job`.
spec fn outcome(p: Progress, job: Option<(Seq<Seq<char>>, nat, nat)>) -> (BuildState, ActionView) {
    match job {
        Some((deps, next, depth)) => resolve(p, deps, next, depth),
        None => expand(p),
    }
}

/// What a build has gathered.
struct Work {
    root: String,
    graph: GraphStore,
    visited: NameSet,
    stack: Vec<(String, String, usize)>,
    max_depth: Option<usize>,
    latest: Table<String, String>,
    responses: Table<(String, String), Vec<String>>,
}

impl View for Work {
    type V = Progress;

    closed spec fn view(&self) -> Progress {
        Progress {
            root: self.root@,
            graph: self.graph@,
            visited: self.visited@,
            stack: work_items(self.stack@),
            bound: bound_of(self.max_depth),
            latest: self.latest@,
            responses: self.responses@,
        }
    }
}

impl Work {
    /// Records `deps` as the dependency list of `package`, taken from the
    /// work stack at `depth`, and says which of them are to be put on the
    /// work stack: all, one level deeper, unless the package sits at the
    /// depth bound.
    fn record(&mut self, package: String, deps: Vec<String>, depth: usize) -> (job: Job)
        requires
            old(self)@.visited.finite(),
            depth < old(self)@.visited.len(),
        ensures
            final(self)@ == (Progress {
                graph: old(self)@.graph.insert(package@, names_of(deps@)),
                ..old(self)@
            }),
            job_view(job) == if at_bound(old(self)@.bound, depth as nat) {
                None
            } else {
                Some((names_of(deps@), 0nat, (depth + 1) as nat))
            },
    {
        let seen = self.visited.len();
        assert(depth < seen);
        self.graph.insert(package, clone_names(&deps));
        let descend = match self.max_depth {
            Some(max) => depth < max,
            None => true,
        };
        if descend {
            Some((deps, 0, depth + 1))
        } else {
            None
        }
    }

    /// Goes on with `job` and then with the work stack, as far as the caches
    /// allow: until the build needs a listing that is not remembered, or the
    /// work stack is empty.
    ///
    /// Both caches are asked before the registry is. The cache of latest
    /// versions answers whenever a package is met as a dependency again. The
    /// cache of dependency listings never does within one build, since a
    /// package is expanded once.
    fn advance(&mut self, first_job: Job) -> (res: (Phase, Action))
        requires
            sound(old(self)@),
            first_job matches Some((_, _, depth)) ==> depth <= old(self)@.visited.len(),
        ensures
            (BuildState { progress: final(self)@, phase: res.0@ }, res.1@) == outcome(
                old(self)@,
                job_view(first_job),
            ),
    {
        let ghost start = self@;
        let ghost first = job_view(first_job);
        let mut job = first_job;
        loop
            invariant
                start == old(self)@,
                first == job_view(first_job),
                sound(self@),
                job matches Some((_, _, depth)) ==> depth <= self@.visited.len(),
                outcome(self@, job_view(job)) == outcome(start, first),
            decreases self.stack.len() + job_left(job), job_rank(job),
        {
            let ghost p = self@;
            match job {
                Some((deps, next, depth)) => {
                    if next >= deps.len() {
                        job = None;
                    } else {
                        let dep = deps[next].clone();
                        let known = match self.latest.get(&dep) {
                            Some(version) => Some(version.clone()),
                            None => None,
                        };
                        match known {
                            Some(version) => {
                                self.stack.push((dep, version, depth));
                                assert(self@.stack =~= p.stack.push(
                                    (dep@, p.latest[dep@], depth as nat),
                                ));
                                job = Some((deps, next + 1, depth));
                            },
                            None => {
                                return (
                                    Phase::AwaitingVersions { deps, next, depth },
                                    Action::FetchVersions { package: dep },
                                );
                            },
                        }
                    }
                },
                None => {
                    match self.stack.pop() {
                        None => {
                            return (Phase::Finished, Action::Finish);
                        },
                        Some((package, version, depth)) => {
                            assert(self@.stack =~= p.stack.drop_last());
                            if self.visited.contains(&package) {
                                job = None;
                            } else {
                                self.visited.insert(package.clone());
                                let key = (package, version);
                                let cached = match self.responses.get(&key) {
                                    Some(list) => Some(clone_names(list)),
                                    None => None,
                                };
                                let (package, version) = key;
                                match cached {
                                    Some(deps) => {
                                        job = self.record(package, deps, depth);
                                    },
                                    None => {
                                        let action = Action::FetchDependencies {
                                            package: package.clone(),
                                            version: version.clone(),
                                        };
                                        return (
                                            Phase::AwaitingDependencies { package, version, depth },
                                            action,
                                        );
                                    },
                                }
                            }
                        },
                    }
                },
            }
        }
    }
}

/// One build of the transitive graph of a package from the registry.
///
/// Its view is the [`BuildState`] of the model; each step is a
/// [`transition`] of it.
pub struct RemoteBuild {
    work: Work,
    phase: Phase,
}

impl View for RemoteBuild {
    type V = BuildState;

    closed spec fn view(&self) -> BuildState {
        BuildState { progress: self.work@, phase: self.phase@ }
    }
}

impl RemoteBuild {
    /// Starts a build of `package` at `version`, following dependencies no
    /// deeper than `max_depth` where one is given. All caches start empty.
    /// The first thing the build waits for is the root's dependency listing.
    pub fn new(package: &str, version: &str, max_depth: Option<usize>) -> (build: RemoteBuild)
        ensures
            build@ == initial_state(package@, version@, bound_of(max_depth)),
            well_formed(build@),
    {
        let mut visited = NameSet::new();
        visited.insert(package.to_string());
        let work = Work {
            root: package.to_string(),
            graph: GraphStore::new(),
            visited,
            stack: Vec::new(),
            max_depth,
            latest: Table::new(),
            responses: Table::new(),
        };
        assert(work_items(work.stack@) =~= Seq::empty());
        RemoteBuild {
            work,
            phase: Phase::AwaitingDependencies {
                package: package.to_string(),
                version: version.to_string(),
                depth: 0,
            },
        }
    }

    /// The action that answers what the build is waiting for.
    pub fn pending(&self) -> (action: Action)
        requires
            well_formed(self@),
        ensures
            action@ == pending_action(self@.phase),
    {
        match &self.phase {
            Phase::AwaitingDependencies { package, version, .. } => Action::FetchDependencies {
                package: package.clone(),
                version: version.clone(),
            },
            Phase::AwaitingVersions { deps, next, .. } => Action::FetchVersions {
                package: deps[*next].clone(),
            },
            Phase::Finished => Action::Finish,
            Phase::Failed { fault } => Action::Abort { fault: fault.duplicate() },
        }
    }

    /// Hands `event` to the build and returns what to do next.
    ///
    /// The build goes on as far as its caches allow. A dependency listing
    /// that cannot be had ends the build with [`Action::Abort`]. A version
    /// listing that cannot be had is reported in the step's warning, and the
    /// build goes on without expanding that dependency.
    pub fn step(&mut self, event: Event) -> (step: Step)
        requires
            well_formed(old(self)@),
        ensures
            well_formed(final(self)@),
            (final(self)@, step@) == transition(old(self)@, event),
    {
        let ghost before = self@;
        let mut phase = Phase::Finished;
        core::mem::swap(&mut self.phase, &mut phase);
        let step = match phase {
            Phase::AwaitingDependencies { package, version, depth } => match event {
                Event::Dependencies(reply) => match read_dependencies(reply) {
                    Err(error) => {
                        let fault = Fault { package, version, error };
                        let copy = fault.duplicate();
                        self.phase = Phase::Failed { fault };
                        Step { action: Action::Abort { fault: copy }, warning: None }
                    },
                    Ok(deps) => {
                        let key = (package.clone(), version);
                        let list = clone_names(&deps);
                        assert(list.deep_view() =~= names_of(deps@));
                        self.work.responses.insert(key, list);
                        proof {
                            self.work.responses.lemma_finite();
                        }
                        let job = self.work.record(package, deps, depth);
                        let (next, action) = self.work.advance(job);
                        self.phase = next;
                        Step { action, warning: None }
                    },
                },
                Event::Versions(_) => {
                    self.phase = Phase::AwaitingDependencies { package, version, depth };
                    Step { action: self.pending(), warning: None }
                },
            },
            Phase::AwaitingVersions { deps, next, depth } => match event {
                Event::Versions(reply) => {
                    assert(next < deps.len());
                    let dep = deps[next].clone();
                    match read_latest_version(reply) {
                        Ok(version) => {
                            let ghost p = self.work@;
                            self.work.latest.insert(dep.clone(), version.clone());
                            self.work.stack.push((dep, version, depth));
                            assert(self.work@.stack =~= p.stack.push(
                                (dep@, version@, depth as nat),
                            ));
                            let (next, action) = self.work.advance(Some((deps, next + 1, depth)));
                            self.phase = next;
                            Step { action, warning: None }
                        },
                        Err(error) => {
                            let (next, action) = self.work.advance(Some((deps, next + 1, depth)));
                            self.phase = next;
                            Step { action, warning: Some(Warning { package: dep, error }) }
                        },
                    }
                },
                Event::Dependencies(_) => {
                    self.phase = Phase::AwaitingVersions { deps, next, depth };
                    Step { action: self.pending(), warning: None }
                },
            },
            Phase::Finished => {
                Step { action: Action::Finish, warning: None }
            },
            Phase::Failed { fault } => {
                let copy = fault.duplicate();
                self.phase = Phase::Failed { fault };
                Step { action: Action::Abort { fault: copy }, warning: None }
            },
        };
        proof {
            lemma_step_goes_on(before, event);
        }
        step
    }

    /// The graph of a build that has finished; nothing of a build that has
    /// failed or is still waiting for an answer.
    pub fn into_graph(self) -> (graph: Option<GraphStore>)
        ensures
            graph is Some == (self@.phase is Finished),
            graph matches Some(g) ==> g@ == self@.progress.graph,
    {
        match self.phase {
            Phase::Finished => Some(self.work.graph),
            _ => None,
        }
    }
}

} // verus!
