//! A remote build follows the traversal discipline.
//!
//! When every request of a build is answered, and answered alike each time,
//! the registry is an adjacency list: each package with the dependency list
//! of the version under which the build expands it. The laws here say that
//! a build that finishes then holds the graph that the traversal discipline
//! builds from that list.

use crate::registry::{dependency_outcome, version_outcome};
use crate::remote::Event;
use crate::remote_model::{
    expand, initial_state, lemma_expand_goes_on, lemma_resolve_goes_on, lemma_settle_goes_on,
    lemma_step_goes_on, left, pending_action, resolve, settle, sound, transition, well_formed,
    ActionView, BuildState, PhaseView, Progress,
};
use crate::traversal::{
    at_bound, built_graph, children_at, direct_deps, lemma_expansion_decreases, traverse,
};
use vstd::prelude::*;

verus! {

/// A registry that answers every request: the dependencies of each package
/// at each version, without those for development only, and the newest
/// version of each package.
pub struct Registry {
    pub listing: spec_fn(Seq<char>, Seq<char>) -> Seq<Seq<char>>,
    pub newest: spec_fn(Seq<char>) -> Seq<char>,
}

impl Registry {
    /// The dependencies of `package` at `version`.
    pub open spec fn deps(self, package: Seq<char>, version: Seq<char>) -> Seq<Seq<char>> {
        (self.listing)(package, version)
    }

    /// The newest version of `package`.
    pub open spec fn latest(self, package: Seq<char>) -> Seq<char> {
        (self.newest)(package)
    }

    /// The version under which a build of `root` at `start` expands `name`:
    /// the root at the version the build was started with, every other
    /// package at its newest.
    pub open spec fn expanded_version(self, root: Seq<char>, start: Seq<char>, name: Seq<char>)
        -> Seq<char> {
        if name == root {
            start
        } else {
            self.latest(name)
        }
    }

    /// Whether `source` is this registry's adjacency list for a build of
    /// `root` at `start`: each package with the dependencies of the version
    /// under which the build expands it.
    pub open spec fn described_by(
        self,
        source: Map<Seq<char>, Seq<Seq<char>>>,
        root: Seq<char>,
        start: Seq<char>,
    ) -> bool {
        &&& source.dom().finite()
        &&& forall|n: Seq<char>| #[trigger]
            direct_deps(source, n) == self.deps(n, self.expanded_version(root, start, n))
    }

    /// Whether `event` is this registry's answer to `action`.
    pub open spec fn serves(self, action: ActionView, event: Event) -> bool {
        match action {
            ActionView::FetchDependencies { package, version } => {
                &&& event matches Event::Dependencies(reply)
                &&& dependency_outcome(reply) matches Ok(deps)
                &&& deps == self.deps(package, version)
            },
            ActionView::FetchVersions { package } => {
                &&& event matches Event::Versions(reply)
                &&& version_outcome(reply) matches Ok(version)
                &&& version == self.latest(package)
            },
            _ => true,
        }
    }

    /// Whether what `p` remembers is what this registry answers.
    pub open spec fn remembered_in(self, p: Progress) -> bool {
        &&& forall|n: Seq<char>| #[trigger]
            p.latest.dom().contains(n) ==> p.latest[n] == self.latest(n)
        &&& forall|k: (Seq<char>, Seq<char>)| #[trigger]
            p.responses.dom().contains(k) ==> p.responses[k] == self.deps(k.0, k.1)
    }
}

/// Every finite adjacency list is the list of some registry: of the one
/// that gives each package the list's dependencies at every version.
pub proof fn lemma_list_has_registry(
    source: Map<Seq<char>, Seq<Seq<char>>>,
    root: Seq<char>,
    start: Seq<char>,
)
    requires
        source.dom().finite(),
    ensures
        (Registry {
            listing: |package: Seq<char>, version: Seq<char>| direct_deps(source, package),
            newest: |package: Seq<char>| start,
        }).described_by(source, root, start),
{
}

/// A work stack without the versions.
pub open spec fn plain(stack: Seq<(Seq<char>, Seq<char>, nat)>) -> Seq<(Seq<char>, nat)> {
    Seq::new(stack.len(), |i: int| (stack[i].0, stack[i].2))
}

/// The work that a build in state `s` has before it, as a work stack of the
/// traversal discipline: its own stack, and on top of it what it is waiting
/// to expand or to put on the stack.
pub open spec fn work_ahead(s: BuildState) -> Seq<(Seq<char>, nat)> {
    match s.phase {
        PhaseView::AwaitingDependencies { package, depth, .. } => plain(s.progress.stack).push(
            (package, depth),
        ),
        PhaseView::AwaitingVersions { deps, next, depth } => plain(s.progress.stack) + children_at(
            deps.skip(next as int),
            depth,
        ),
        _ => plain(s.progress.stack),
    }
}

/// Whether the build in state `s` has no name visited but those that have
/// an entry and the one whose listing it is waiting for, which it expands at
/// the version that `registry` gives for it.
pub open spec fn in_step(s: BuildState, registry: Registry, start: Seq<char>) -> bool {
    let p = s.progress;
    match s.phase {
        PhaseView::AwaitingDependencies { package, version, .. } => {
            &&& p.visited == p.graph.dom().insert(package)
            &&& version == registry.expanded_version(p.root, start, package)
        },
        PhaseView::Failed { .. } => false,
        _ => p.visited == p.graph.dom(),
    }
}

/// Whether the build in state `s`, started at version `start` and served by
/// `registry`, is on the way to the graph that the traversal discipline
/// builds from `source`.
pub open spec fn on_track(
    s: BuildState,
    registry: Registry,
    source: Map<Seq<char>, Seq<Seq<char>>>,
    start: Seq<char>,
) -> bool {
    let p = s.progress;
    &&& well_formed(s)
    &&& registry.described_by(source, p.root, start)
    &&& registry.remembered_in(p)
    &&& in_step(s, registry, start)
    &&& traverse(source, p.bound, work_ahead(s), p.graph) == built_graph(source, p.root, p.bound)
}

/// What a build in state `s` has before it, in three numbers: the entries
/// of `source` that it has not recorded, the length of the work ahead, and
/// the dependencies that it still has to put on its stack.
pub open spec fn effort(s: BuildState, source: Map<Seq<char>, Seq<Seq<char>>>) -> (nat, nat, nat) {
    (
        source.dom().difference(s.progress.graph.dom()).len(),
        work_ahead(s).len(),
        match s.phase {
            PhaseView::AwaitingVersions { deps, next, .. } => left(deps, next),
            _ => 0,
        },
    )
}

/// Whether `a` comes before `b` when the first numbers decide, then the
/// second, then the third.
pub open spec fn less(a: (nat, nat, nat), b: (nat, nat, nat)) -> bool {
    a.0 < b.0 || (a.0 == b.0 && (a.1 < b.1 || (a.1 == b.1 && a.2 < b.2)))
}

/// Whether `a` is `b` or comes before it.
pub open spec fn at_most(a: (nat, nat, nat), b: (nat, nat, nat)) -> bool {
    a == b || less(a, b)
}

/// The entries of `source` that `p` has not recorded.
spec fn unrecorded(p: Progress, source: Map<Seq<char>, Seq<Seq<char>>>) -> nat {
    source.dom().difference(p.graph.dom()).len()
}

/// How the state `end`, reached by going on from `p`, relates to the work
/// stack `ahead` that `p` had before it.
spec fn keeps_track(
    p: Progress,
    ahead: Seq<(Seq<char>, nat)>,
    end: BuildState,
    registry: Registry,
    source: Map<Seq<char>, Seq<Seq<char>>>,
    start: Seq<char>,
) -> bool {
    &&& well_formed(end)
    &&& end.progress.root == p.root
    &&& end.progress.bound == p.bound
    &&& registry.remembered_in(end.progress)
    &&& in_step(end, registry, start)
    &&& traverse(source, p.bound, work_ahead(end), end.progress.graph) == traverse(
        source,
        p.bound,
        ahead,
        p.graph,
    )
}

/// Going on with the dependencies of an expanded package keeps track of the
/// traversal that has those dependencies on top of its work stack, and adds
/// nothing to what the build has before it.
proof fn lemma_resolve_keeps_track(
    p: Progress,
    deps: Seq<Seq<char>>,
    next: nat,
    depth: nat,
    registry: Registry,
    source: Map<Seq<char>, Seq<Seq<char>>>,
    start: Seq<char>,
)
    requires
        sound(p),
        depth <= p.visited.len(),
        next <= deps.len(),
        p.visited == p.graph.dom(),
        registry.described_by(source, p.root, start),
        registry.remembered_in(p),
    ensures
        keeps_track(
            p,
            plain(p.stack) + children_at(deps.skip(next as int), depth),
            resolve(p, deps, next, depth).0,
            registry,
            source,
            start,
        ),
        at_most(
            effort(resolve(p, deps, next, depth).0, source),
            (unrecorded(p, source), p.stack.len() + left(deps, next), left(deps, next)),
        ),
    decreases left(deps, next),
{
    let ahead = plain(p.stack) + children_at(deps.skip(next as int), depth);
    lemma_resolve_goes_on(p, deps, next, depth);
    if next >= deps.len() {
        lemma_expand_keeps_track(p, registry, source, start);
    } else {
        let dep = deps[next as int];
        if p.latest.dom().contains(dep) {
            let more = Progress { stack: p.stack.push((dep, p.latest[dep], depth)), ..p };
            lemma_resolve_keeps_track(more, deps, next + 1, depth, registry, source, start);
            assert(plain(more.stack) + children_at(deps.skip(next as int + 1), depth) =~= ahead);
        }
    }
}

/// Going on with the work stack keeps track of the traversal with the same
/// work stack, and adds nothing to what the build has before it.
proof fn lemma_expand_keeps_track(
    p: Progress,
    registry: Registry,
    source: Map<Seq<char>, Seq<Seq<char>>>,
    start: Seq<char>,
)
    requires
        sound(p),
        p.visited == p.graph.dom(),
        registry.described_by(source, p.root, start),
        registry.remembered_in(p),
    ensures
        keeps_track(p, plain(p.stack), expand(p).0, registry, source, start),
        at_most(effort(expand(p).0, source), (unrecorded(p, source), p.stack.len(), 0nat)),
    decreases p.stack.len(),
{
    lemma_expand_goes_on(p);
    if p.stack.len() > 0 {
        let (package, version, depth) = p.stack.last();
        let rest = p.stack.drop_last();
        let ahead = plain(p.stack);
        assert(ahead.drop_last() =~= plain(rest));
        if p.visited.contains(package) {
            lemma_expand_keeps_track(Progress { stack: rest, ..p }, registry, source, start);
        } else {
            assert(plain(rest).push((package, depth)) =~= ahead);
        }
    }
}

/// Recording the registry's dependency list of a package keeps track of the
/// traversal that has the package on top of its work stack, and leaves the
/// build with less before it.
proof fn lemma_settle_keeps_track(
    p: Progress,
    package: Seq<char>,
    deps: Seq<Seq<char>>,
    depth: nat,
    registry: Registry,
    source: Map<Seq<char>, Seq<Seq<char>>>,
    start: Seq<char>,
)
    requires
        sound(p),
        !p.graph.dom().contains(package),
        p.visited == p.graph.dom().insert(package),
        depth < p.visited.len(),
        deps == direct_deps(source, package),
        registry.described_by(source, p.root, start),
        registry.remembered_in(p),
    ensures
        keeps_track(
            p,
            plain(p.stack).push((package, depth)),
            settle(p, package, deps, depth).0,
            registry,
            source,
            start,
        ),
        less(
            effort(settle(p, package, deps, depth).0, source),
            (unrecorded(p, source), p.stack.len() + 1, 0nat),
        ),
{
    let ahead = plain(p.stack).push((package, depth));
    let recorded = Progress { graph: p.graph.insert(package, deps), ..p };
    lemma_settle_goes_on(p, package, deps, depth);
    lemma_expansion_decreases(source, p.bound, p.graph, package, depth);
    assert(ahead.drop_last() =~= plain(p.stack));
    if at_bound(p.bound, depth) {
        lemma_expand_keeps_track(recorded, registry, source, start);
    } else {
        assert(deps.skip(0) =~= deps);
        lemma_resolve_keeps_track(recorded, deps, 0, depth + 1, registry, source, start);
    }
}

/// Remembering the registry's dependency listing keeps what is remembered
/// true to the registry.
proof fn lemma_remembers_listing(
    p: Progress,
    package: Seq<char>,
    version: Seq<char>,
    registry: Registry,
)
    requires
        registry.remembered_in(p),
    ensures
        registry.remembered_in(
            Progress {
                responses: p.responses.insert((package, version), registry.deps(package, version)),
                ..p
            },
        ),
{
}

/// Remembering the registry's newest version of a dependency, and putting
/// the dependency on the work stack under it, keeps the gathered data sound
/// and true to the registry.
proof fn lemma_remembers_version(p: Progress, dep: Seq<char>, depth: nat, registry: Registry)
    requires
        sound(p),
        registry.remembered_in(p),
        !p.latest.dom().contains(dep),
        depth <= p.visited.len(),
    ensures
        ({
            let more = Progress {
                latest: p.latest.insert(dep, registry.latest(dep)),
                stack: p.stack.push((dep, registry.latest(dep), depth)),
                ..p
            };
            sound(more) && registry.remembered_in(more)
        }),
{
}

/// A build starts on track.
pub proof fn lemma_initial_on_track(
    registry: Registry,
    source: Map<Seq<char>, Seq<Seq<char>>>,
    root: Seq<char>,
    start: Seq<char>,
    bound: Option<nat>,
)
    requires
        registry.described_by(source, root, start),
    ensures
        on_track(initial_state(root, start, bound), registry, source, start),
{
}

/// A step whose event is the registry's answer to the pending action keeps
/// a build on track.
pub proof fn lemma_step_on_track(
    s: BuildState,
    event: Event,
    registry: Registry,
    source: Map<Seq<char>, Seq<Seq<char>>>,
    start: Seq<char>,
)
    requires
        on_track(s, registry, source, start),
        registry.serves(pending_action(s.phase), event),
    ensures
        on_track(transition(s, event).0, registry, source, start),
{
    let p = s.progress;
    lemma_step_goes_on(s, event);
    match s.phase {
        PhaseView::AwaitingDependencies { package, version, depth } => {
            let deps = registry.deps(package, version);
            let remembered = Progress {
                responses: p.responses.insert((package, version), deps),
                ..p
            };
            lemma_remembers_listing(p, package, version, registry);
            lemma_settle_keeps_track(remembered, package, deps, depth, registry, source, start);
        },
        PhaseView::AwaitingVersions { deps, next, depth } => {
            let dep = deps[next as int];
            let version = registry.latest(dep);
            let more = Progress {
                latest: p.latest.insert(dep, version),
                stack: p.stack.push((dep, version, depth)),
                ..p
            };
            lemma_remembers_version(p, dep, depth, registry);
            lemma_resolve_keeps_track(more, deps, next + 1, depth, registry, source, start);
            assert(plain(more.stack) + children_at(deps.skip(next as int + 1), depth) =~= work_ahead(s));
        },
        _ => {},
    }
}

/// A step whose event is the registry's answer to the pending action
/// leaves a build that has not finished with less before it. Since that
/// cannot go on for ever, a build that is served by a registry finishes
/// after finitely many steps, cycles among the packages or not.
pub proof fn lemma_step_makes_progress(
    s: BuildState,
    event: Event,
    registry: Registry,
    source: Map<Seq<char>, Seq<Seq<char>>>,
    start: Seq<char>,
)
    requires
        on_track(s, registry, source, start),
        registry.serves(pending_action(s.phase), event),
        !(s.phase is Finished),
    ensures
        less(effort(transition(s, event).0, source), effort(s, source)),
{
    let p = s.progress;
    match s.phase {
        PhaseView::AwaitingDependencies { package, version, depth } => {
            let deps = registry.deps(package, version);
            let remembered = Progress {
                responses: p.responses.insert((package, version), deps),
                ..p
            };
            lemma_remembers_listing(p, package, version, registry);
            lemma_settle_keeps_track(remembered, package, deps, depth, registry, source, start);
        },
        PhaseView::AwaitingVersions { deps, next, depth } => {
            let dep = deps[next as int];
            let more = Progress {
                latest: p.latest.insert(dep, registry.latest(dep)),
                stack: p.stack.push((dep, registry.latest(dep), depth)),
                ..p
            };
            lemma_remembers_version(p, dep, depth, registry);
            lemma_resolve_keeps_track(more, deps, next + 1, depth, registry, source, start);
        },
        _ => {},
    }
}

/// A build on track that has finished holds the graph that the traversal
/// discipline builds from the registry's adjacency list: the same entries as
/// a build from that list would give, for the same root and depth bound.
pub proof fn lemma_finished_on_track(
    s: BuildState,
    registry: Registry,
    source: Map<Seq<char>, Seq<Seq<char>>>,
    start: Seq<char>,
)
    requires
        on_track(s, registry, source, start),
        s.phase is Finished,
    ensures
        s.progress.graph == built_graph(source, s.progress.root, s.progress.bound),
{
}

} // verus!
