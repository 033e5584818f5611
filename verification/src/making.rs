//! The update-state store and the build engine.
//!
//! The engine walks the dependency graph rooted at one requested target,
//! depth first, deciding from the rule store and the update-state store what
//! is stale and must be rebuilt.  It performs no I/O itself: every
//! filesystem question (a modification time, an existence check) and every
//! command run surfaces as a [`Query`], and the driver answers with an
//! [`Event`].  The walk is the sequence of [`advance`](Engine::advance)
//! calls; each is a single, fully specified transition.

use vstd::prelude::*;

use crate::mkfile::CTargetV;
use crate::mkfile::ConcreteTarget;
use crate::mkfile::MkFile;
use crate::mkfile::RuleV;
use crate::mkfile::Target;
use crate::mkfile::TargetV;
use crate::mkfile::string_views;
use crate::mkfile::target_views;

verus! {

/// The persisted record: each concrete target maps to the modification time
/// recorded when it was last brought up to date.  Records are kept in
/// recording order; a later record for the same target shadows an earlier
/// one.
#[derive(Debug)]
pub struct UpdateState {
    records: Vec<(ConcreteTarget, u128)>,
}

/// The views of the store's records.
pub open spec fn record_views(s: Seq<(ConcreteTarget, u128)>) -> Seq<(CTargetV, u128)> {
    s.map_values(|p: (ConcreteTarget, u128)| (p.0@, p.1))
}

/// The mapping a record sequence denotes: later records win.
pub open spec fn records_map(s: Seq<(CTargetV, u128)>) -> Map<CTargetV, u128>
    decreases s.len(),
{
    if s.len() == 0 {
        Map::empty()
    } else {
        records_map(s.drop_last()).insert(s.last().0, s.last().1)
    }
}

impl View for UpdateState {
    type V = Map<CTargetV, u128>;

    closed spec fn view(&self) -> Map<CTargetV, u128> {
        records_map(record_views(self.records@))
    }
}

/// The last record for `k`, scanning from the back.
pub open spec fn record_lookup(s: Seq<(CTargetV, u128)>, k: CTargetV) -> Option<u128>
    decreases s.len(),
{
    if s.len() == 0 {
        None
    } else if s.last().0 == k {
        Some(s.last().1)
    } else {
        record_lookup(s.drop_last(), k)
    }
}

pub proof fn lemma_record_lookup(s: Seq<(CTargetV, u128)>, k: CTargetV)
    ensures
        match record_lookup(s, k) {
            Some(t) => records_map(s).contains_key(k) && records_map(s)[k] == t,
            None => !records_map(s).contains_key(k),
        },
    decreases s.len(),
{
    if s.len() > 0 {
        lemma_record_lookup(s.drop_last(), k);
    }
}

impl UpdateState {
    /// An empty store: no target has a recorded state.
    pub fn new() -> (r: UpdateState)
        ensures
            r@ == Map::<CTargetV, u128>::empty(),
    {
        UpdateState { records: Vec::new() }
    }

    /// The recorded modification time of this exact target, if any.
    fn find_record(&self, path: &ConcreteTarget) -> (r: Option<u128>)
        ensures
            match r {
                Some(t) => self@.contains_key(path@) && self@[path@] == t,
                None => !self@.contains_key(path@),
            },
    {
        let ghost es = record_views(self.records@);
        let mut i = self.records.len();
        proof {
            assert(es.take(i as int) =~= es);
        }
        while i > 0
            invariant
                i <= self.records.len(),
                es == record_views(self.records@),
                record_lookup(es, path@) == record_lookup(es.take(i as int), path@),
            decreases i,
        {
            i -= 1;
            proof {
                assert(es.take(i + 1).last() == es[i as int]);
                assert(es.take(i + 1).drop_last() =~= es.take(i as int));
            }
            let e = &self.records[i];
            if e.0.same_as(path) {
                proof {
                    lemma_record_lookup(es, path@);
                }
                return Some(e.1);
            }
        }
        proof {
            assert(es.take(0).len() == 0);
            lemma_record_lookup(es, path@);
        }
        None
    }

    /// Whether a state was ever recorded for this exact target.
    pub fn has_record(&self, path: &ConcreteTarget) -> (r: bool)
        ensures
            r == self@.contains_key(path@),
    {
        match self.find_record(path) {
            Some(_) => true,
            None => false,
        }
    }

    /// Whether the target is up to date: a state was recorded for it, and
    /// the current modification time is not strictly after the recorded one.
    pub fn is_up_to_date(&self, path: &ConcreteTarget, current: u128) -> (r: bool)
        ensures
            r == (self@.contains_key(path@) && current <= self@[path@]),
    {
        match self.find_record(path) {
            Some(t) => current <= t,
            None => false,
        }
    }

    /// Overwrites (or inserts) the record for this exact target with the
    /// current modification time.
    pub fn update_state(&mut self, path: &ConcreteTarget, current: u128)
        ensures
            final(self)@ == old(self)@.insert(path@, current),
    {
        self.records.push((path.clone(), current));
        proof {
            assert(record_views(self.records@).drop_last() =~= record_views(old(self).records@));
            assert(record_views(self.records@).last() == (path@, current));
        }
    }

    /// The raw records, oldest first; a later record for a target shadows an
    /// earlier one.  The driver persists them.
    pub fn entries(&self) -> (r: &Vec<(ConcreteTarget, u128)>)
        ensures
            records_map(record_views(r@)) == self@,
    {
        &self.records
    }
}

impl Default for UpdateState {
    fn default() -> (r: Self)
        ensures
            r@ == Map::<CTargetV, u128>::empty(),
    {
        UpdateState::new()
    }
}

/// The latest of a directory's own modification time and those below it.
pub open spec fn spec_subtree_time(own: u128, children: Seq<u128>) -> u128
    decreases children.len(),
{
    if children.len() == 0 {
        own
    } else {
        let rest = spec_subtree_time(own, children.drop_last());
        if children.last() > rest {
            children.last()
        } else {
            rest
        }
    }
}

/// The deep modification time of a directory: its own time, or the latest
/// time found below it, whichever is later.  The driver walks the subtree
/// and hands in the times it read.
pub fn subtree_update_time(own: u128, children: &Vec<u128>) -> (r: u128)
    ensures
        r == spec_subtree_time(own, children@),
        r >= own,
        forall|i: int| 0 <= i < children@.len() ==> r >= children@[i],
{
    let mut latest = own;
    let mut i: usize = 0;
    proof {
        assert(children@.take(0) =~= Seq::<u128>::empty());
    }
    while i < children.len()
        invariant
            i <= children.len(),
            latest == spec_subtree_time(own, children@.take(i as int)),
            latest >= own,
            forall|k: int| 0 <= k < i ==> latest >= children@[k],
        decreases children.len() - i,
    {
        proof {
            assert(children@.take(i + 1).drop_last() =~= children@.take(i as int));
            assert(children@.take(i + 1).last() == children@[i as int]);
        }
        let c = children[i];
        if c > latest {
            latest = c;
        }
        i += 1;
    }
    proof {
        assert(children@.take(children@.len() as int) =~= children@);
    }
    latest
}

/// A question the engine needs answered before it can go on.
#[derive(Debug, PartialEq, Eq)]
pub enum Query {
    /// The target's current modification time (deepest in the subtree for a
    /// deep target).
    ModTime(ConcreteTarget),
    /// Whether the target's path currently exists.
    Exists(ConcreteTarget),
    /// Run this command: did it exit successfully?
    Run(String),
}

/// The driver's answer to the matching query.
#[derive(Debug, PartialEq, Eq)]
pub enum Event {
    /// The modification time read, or nothing if the filesystem failed.
    ModTime(Option<u128>),
    /// Whether the path exists.
    Exists(bool),
    /// Whether the command exited successfully.
    Ran(bool),
}

/// Why a build aborted.  Any of these ends the whole walk at once.
#[derive(Debug, PartialEq, Eq)]
pub enum BuildError {
    /// A virtual target without a rule was requested.
    MissingRule(String),
    /// A command exited with failure; carries the command's text.
    CommandFailure(String),
    /// All commands succeeded, but the concrete target's path still does not
    /// exist.
    TargetNotProduced(ConcreteTarget),
    /// The filesystem could not report a modification time for the target.
    StateAccessFailure(ConcreteTarget),
}

/// What the engine reports after a transition.
#[derive(Debug, PartialEq, Eq)]
pub enum Step {
    /// Keep going: advance again with no event.
    Continue,
    /// Answer the query, then advance with the matching event.
    Ask(Query),
    /// The build finished; whether the requested target was (re)built.
    Done(bool),
    /// The build aborted.
    Failed(BuildError),
}

/// Mathematical value of a [`Query`].
#[verifier::ext_equal]
pub enum QueryV {
    ModTime(CTargetV),
    Exists(CTargetV),
    Run(Seq<char>),
}

/// Mathematical value of an [`Event`].
#[verifier::ext_equal]
pub enum EventV {
    ModTime(Option<u128>),
    Exists(bool),
    Ran(bool),
}

/// Mathematical value of a [`BuildError`].
#[verifier::ext_equal]
pub enum BuildErrorV {
    MissingRule(Seq<char>),
    CommandFailure(Seq<char>),
    TargetNotProduced(CTargetV),
    StateAccessFailure(CTargetV),
}

/// Mathematical value of a [`Step`].
#[verifier::ext_equal]
pub enum StepV {
    Continue,
    Ask(QueryV),
    Done(bool),
    Failed(BuildErrorV),
}

impl View for Query {
    type V = QueryV;

    open spec fn view(&self) -> QueryV {
        match self {
            Query::ModTime(ct) => QueryV::ModTime(ct@),
            Query::Exists(ct) => QueryV::Exists(ct@),
            Query::Run(cmd) => QueryV::Run(cmd@),
        }
    }
}

impl View for Event {
    type V = EventV;

    open spec fn view(&self) -> EventV {
        match self {
            Event::ModTime(t) => EventV::ModTime(*t),
            Event::Exists(b) => EventV::Exists(*b),
            Event::Ran(b) => EventV::Ran(*b),
        }
    }
}

impl View for BuildError {
    type V = BuildErrorV;

    open spec fn view(&self) -> BuildErrorV {
        match self {
            BuildError::MissingRule(n) => BuildErrorV::MissingRule(n@),
            BuildError::CommandFailure(c) => BuildErrorV::CommandFailure(c@),
            BuildError::TargetNotProduced(ct) => BuildErrorV::TargetNotProduced(ct@),
            BuildError::StateAccessFailure(ct) => BuildErrorV::StateAccessFailure(ct@),
        }
    }
}

impl View for Step {
    type V = StepV;

    open spec fn view(&self) -> StepV {
        match self {
            Step::Continue => StepV::Continue,
            Step::Ask(q) => StepV::Ask(q@),
            Step::Done(b) => StepV::Done(*b),
            Step::Failed(e) => StepV::Failed(e@),
        }
    }
}

/// The view of an optional event.
pub open spec fn ev_view(input: Option<Event>) -> Option<EventV> {
    match input {
        Some(e) => Some(e@),
        None => None,
    }
}

/// Where a frame of the walk stands.
#[derive(Debug, Clone, Copy, PartialEq, Eq, Structural)]
pub enum Phase {
    /// The target has not been examined yet.
    Start,
    /// Its dependencies are being made, `idx` of them done so far.
    Deps { idx: usize, any_changed: bool },
    /// Dependencies done; waiting to hear whether the concrete target's path
    /// exists.
    ExistsCheck { any_changed: bool },
    /// Stale: its commands are running, number `idx` awaited.
    Commands { idx: usize },
    /// All commands ran; waiting to hear whether the path now exists.
    ProducedCheck,
    /// Rebuilt; waiting for the modification time to record.
    RecordMade,
    /// Found up to date; waiting for the modification time to record.
    RecordSame,
    /// Ruleless concrete leaf with a record; waiting for the current time.
    LeafCheck,
    /// Ruleless concrete leaf found stale; waiting for the time to record.
    LeafRecord,
}

/// One node of the depth-first walk: a target, the parts of its rule (both
/// empty for a ruleless leaf), and where it stands.
#[derive(Debug)]
pub struct Frame {
    target: Target,
    deps: Vec<Target>,
    commands: Vec<String>,
    phase: Phase,
}

/// Mathematical value of a [`Frame`].
#[verifier::ext_equal]
pub struct FrameV {
    pub target: TargetV,
    pub deps: Seq<TargetV>,
    pub commands: Seq<Seq<char>>,
    pub phase: Phase,
}

impl View for Frame {
    type V = FrameV;

    closed spec fn view(&self) -> FrameV {
        FrameV {
            target: self.target@,
            deps: target_views(self.deps@),
            commands: string_views(self.commands@),
            phase: self.phase,
        }
    }
}

/// The views of a frame stack, bottom first.
pub open spec fn frame_views(s: Seq<Frame>) -> Seq<FrameV> {
    s.map_values(|f: Frame| f@)
}

/// The build engine.  It owns the rule store, the update state, and the
/// stack of the walk; the driver owns the filesystem and the shell.
#[derive(Debug)]
pub struct Engine {
    file: MkFile,
    state: UpdateState,
    stack: Vec<Frame>,
}

/// Mathematical value of an [`Engine`].
#[verifier::ext_equal]
pub struct EngineV {
    pub file: Map<TargetV, RuleV>,
    pub state: Map<CTargetV, u128>,
    pub stack: Seq<FrameV>,
}

impl View for Engine {
    type V = EngineV;

    closed spec fn view(&self) -> EngineV {
        EngineV { file: self.file@, state: self.state@, stack: frame_views(self.stack@) }
    }
}

/// A frame that is consistent in itself.
pub open spec fn frame_wf(f: FrameV) -> bool {
    match f.phase {
        Phase::Start => true,
        Phase::Deps { idx, .. } => idx <= f.deps.len(),
        Phase::Commands { idx } => idx < f.commands.len(),
        Phase::ExistsCheck { .. } => f.target is Concrete,
        Phase::ProducedCheck => f.target is Concrete,
        Phase::RecordMade => f.target is Concrete,
        Phase::RecordSame => f.target is Concrete,
        Phase::LeafCheck => f.target is Concrete,
        Phase::LeafRecord => f.target is Concrete,
    }
}

/// A frame below the top is always waiting on the dependency the frame
/// above it makes.
pub open spec fn frame_waiting(f: FrameV) -> bool {
    match f.phase {
        Phase::Deps { idx, .. } => idx < f.deps.len(),
        _ => false,
    }
}

/// A well-formed engine.
pub open spec fn engine_wf(e: EngineV) -> bool {
    &&& forall|i: int| 0 <= i < e.stack.len() ==> frame_wf(#[trigger] e.stack[i])
    &&& forall|i: int| 0 <= i < e.stack.len() - 1 ==> frame_waiting(#[trigger] e.stack[i])
}

/// The kind of event the top frame's phase awaits, if any.
pub open spec fn expected_input(ph: Phase, input: Option<EventV>) -> bool {
    match ph {
        Phase::Start => input is None,
        Phase::Deps { .. } => input is None,
        Phase::Commands { .. } => input matches Some(EventV::Ran(_)),
        Phase::ExistsCheck { .. } => input matches Some(EventV::Exists(_)),
        Phase::ProducedCheck => input matches Some(EventV::Exists(_)),
        Phase::RecordMade => input matches Some(EventV::ModTime(_)),
        Phase::RecordSame => input matches Some(EventV::ModTime(_)),
        Phase::LeafCheck => input matches Some(EventV::ModTime(_)),
        Phase::LeafRecord => input matches Some(EventV::ModTime(_)),
    }
}

/// A finished frame was popped: its result reaches the waiting parent, or,
/// with nothing left, ends the walk.
pub open spec fn finish_spec(stack: Seq<FrameV>, changed: bool) -> (Seq<FrameV>, StepV) {
    if stack.len() == 0 {
        (stack, StepV::Done(changed))
    } else {
        let p = stack.last();
        match p.phase {
            Phase::Deps { idx, any_changed } => (
                stack.drop_last().push(
                    FrameV {
                        phase: Phase::Deps {
                            idx: (idx + 1) as usize,
                            any_changed: any_changed || changed,
                        },
                        ..p
                    },
                ),
                StepV::Continue,
            ),
            _ => (stack, StepV::Continue),
        }
    }
}

/// Whether a stale target needs making: a dependency changed, or a concrete
/// target's path is missing, or a virtual target has no dependencies at all.
pub open spec fn spec_needs_making(
    target: TargetV,
    n_deps: int,
    any_changed: bool,
    path_exists: bool,
) -> bool {
    match target {
        TargetV::Concrete(_) => any_changed || !path_exists,
        TargetV::Virtual(_) => any_changed || n_deps == 0,
    }
}

/// One transition of the engine: from its state and the answer to its
/// pending query (if one was pending) to its next state and its report.
pub open spec fn advance_spec(e: EngineV, input: Option<EventV>) -> (EngineV, StepV) {
    if e.stack.len() == 0 {
        (e, StepV::Continue)
    } else {
        let fr = e.stack.last();
        let rest = e.stack.drop_last();
        match fr.phase {
            Phase::Start => {
                if e.file.contains_key(fr.target) {
                    let rule = e.file[fr.target];
                    (
                        EngineV {
                            stack: rest.push(
                                FrameV {
                                    target: fr.target,
                                    deps: rule.dependencies,
                                    commands: rule.commands,
                                    phase: Phase::Deps { idx: 0, any_changed: false },
                                },
                            ),
                            ..e
                        },
                        StepV::Continue,
                    )
                } else {
                    match fr.target {
                        TargetV::Virtual(name) => (
                            EngineV { stack: Seq::empty(), ..e },
                            StepV::Failed(BuildErrorV::MissingRule(name)),
                        ),
                        TargetV::Concrete(ct) => {
                            if e.state.contains_key(ct) {
                                (
                                    EngineV {
                                        stack: rest.push(FrameV { phase: Phase::LeafCheck, ..fr }),
                                        ..e
                                    },
                                    StepV::Ask(QueryV::ModTime(ct)),
                                )
                            } else {
                                (
                                    EngineV {
                                        stack: rest.push(FrameV { phase: Phase::LeafRecord, ..fr }),
                                        ..e
                                    },
                                    StepV::Ask(QueryV::ModTime(ct)),
                                )
                            }
                        },
                    }
                }
            },
            Phase::Deps { idx, any_changed } => {
                if idx < fr.deps.len() {
                    (
                        EngineV {
                            stack: e.stack.push(
                                FrameV {
                                    target: fr.deps[idx as int],
                                    deps: Seq::empty(),
                                    commands: Seq::empty(),
                                    phase: Phase::Start,
                                },
                            ),
                            ..e
                        },
                        StepV::Continue,
                    )
                } else {
                    match fr.target {
                        TargetV::Virtual(_) => {
                            if spec_needs_making(fr.target, fr.deps.len() as int, any_changed, true) {
                                if fr.commands.len() > 0 {
                                    (
                                        EngineV {
                                            stack: rest.push(
                                                FrameV { phase: Phase::Commands { idx: 0 }, ..fr },
                                            ),
                                            ..e
                                        },
                                        StepV::Ask(QueryV::Run(fr.commands[0])),
                                    )
                                } else {
                                    let fs = finish_spec(rest, true);
                                    (EngineV { stack: fs.0, ..e }, fs.1)
                                }
                            } else {
                                let fs = finish_spec(rest, false);
                                (EngineV { stack: fs.0, ..e }, fs.1)
                            }
                        },
                        TargetV::Concrete(ct) => (
                            EngineV {
                                stack: rest.push(
                                    FrameV { phase: Phase::ExistsCheck { any_changed }, ..fr },
                                ),
                                ..e
                            },
                            StepV::Ask(QueryV::Exists(ct)),
                        ),
                    }
                }
            },
            Phase::ExistsCheck { any_changed } => {
                match (input, fr.target) {
                    (Some(EventV::Exists(ex)), TargetV::Concrete(ct)) => {
                        if spec_needs_making(fr.target, fr.deps.len() as int, any_changed, ex) {
                            if fr.commands.len() > 0 {
                                (
                                    EngineV {
                                        stack: rest.push(
                                            FrameV { phase: Phase::Commands { idx: 0 }, ..fr },
                                        ),
                                        ..e
                                    },
                                    StepV::Ask(QueryV::Run(fr.commands[0])),
                                )
                            } else {
                                (
                                    EngineV {
                                        stack: rest.push(
                                            FrameV { phase: Phase::ProducedCheck, ..fr },
                                        ),
                                        ..e
                                    },
                                    StepV::Ask(QueryV::Exists(ct)),
                                )
                            }
                        } else {
                            (
                                EngineV {
                                    stack: rest.push(FrameV { phase: Phase::RecordSame, ..fr }),
                                    ..e
                                },
                                StepV::Ask(QueryV::ModTime(ct)),
                            )
                        }
                    },
                    _ => (e, StepV::Continue),
                }
            },
            Phase::Commands { idx } => {
                match input {
                    Some(EventV::Ran(ok)) => {
                        if !ok {
                            (
                                EngineV { stack: Seq::empty(), ..e },
                                StepV::Failed(BuildErrorV::CommandFailure(fr.commands[idx as int])),
                            )
                        } else if idx + 1 < fr.commands.len() {
                            (
                                EngineV {
                                    stack: rest.push(
                                        FrameV {
                                            phase: Phase::Commands { idx: (idx + 1) as usize },
                                            ..fr
                                        },
                                    ),
                                    ..e
                                },
                                StepV::Ask(QueryV::Run(fr.commands[idx + 1])),
                            )
                        } else {
                            match fr.target {
                                TargetV::Virtual(_) => {
                                    let fs = finish_spec(rest, true);
                                    (EngineV { stack: fs.0, ..e }, fs.1)
                                },
                                TargetV::Concrete(ct) => (
                                    EngineV {
                                        stack: rest.push(
                                            FrameV { phase: Phase::ProducedCheck, ..fr },
                                        ),
                                        ..e
                                    },
                                    StepV::Ask(QueryV::Exists(ct)),
                                ),
                            }
                        }
                    },
                    _ => (e, StepV::Continue),
                }
            },
            Phase::ProducedCheck => {
                match (input, fr.target) {
                    (Some(EventV::Exists(ex)), TargetV::Concrete(ct)) => {
                        if ex {
                            (
                                EngineV {
                                    stack: rest.push(FrameV { phase: Phase::RecordMade, ..fr }),
                                    ..e
                                },
                                StepV::Ask(QueryV::ModTime(ct)),
                            )
                        } else {
                            (
                                EngineV { stack: Seq::empty(), ..e },
                                StepV::Failed(BuildErrorV::TargetNotProduced(ct)),
                            )
                        }
                    },
                    _ => (e, StepV::Continue),
                }
            },
            Phase::RecordMade => {
                match (input, fr.target) {
                    (Some(EventV::ModTime(Some(t))), TargetV::Concrete(ct)) => {
                        let fs = finish_spec(rest, true);
                        (EngineV { state: e.state.insert(ct, t), stack: fs.0, ..e }, fs.1)
                    },
                    (Some(EventV::ModTime(None)), TargetV::Concrete(ct)) => (
                        EngineV { stack: Seq::empty(), ..e },
                        StepV::Failed(BuildErrorV::StateAccessFailure(ct)),
                    ),
                    _ => (e, StepV::Continue),
                }
            },
            Phase::RecordSame => {
                match (input, fr.target) {
                    (Some(EventV::ModTime(Some(t))), TargetV::Concrete(ct)) => {
                        let fs = finish_spec(rest, false);
                        (EngineV { state: e.state.insert(ct, t), stack: fs.0, ..e }, fs.1)
                    },
                    (Some(EventV::ModTime(None)), TargetV::Concrete(ct)) => (
                        EngineV { stack: Seq::empty(), ..e },
                        StepV::Failed(BuildErrorV::StateAccessFailure(ct)),
                    ),
                    _ => (e, StepV::Continue),
                }
            },
            Phase::LeafCheck => {
                match (input, fr.target) {
                    (Some(EventV::ModTime(Some(t))), TargetV::Concrete(ct)) => {
                        if e.state.contains_key(ct) && t <= e.state[ct] {
                            let fs = finish_spec(rest, false);
                            (EngineV { stack: fs.0, ..e }, fs.1)
                        } else {
                            (
                                EngineV {
                                    stack: rest.push(FrameV { phase: Phase::LeafRecord, ..fr }),
                                    ..e
                                },
                                StepV::Ask(QueryV::ModTime(ct)),
                            )
                        }
                    },
                    (Some(EventV::ModTime(None)), TargetV::Concrete(ct)) => (
                        EngineV { stack: Seq::empty(), ..e },
                        StepV::Failed(BuildErrorV::StateAccessFailure(ct)),
                    ),
                    _ => (e, StepV::Continue),
                }
            },
            Phase::LeafRecord => {
                match (input, fr.target) {
                    (Some(EventV::ModTime(Some(t))), TargetV::Concrete(ct)) => {
                        let fs = finish_spec(rest, true);
                        (EngineV { state: e.state.insert(ct, t), stack: fs.0, ..e }, fs.1)
                    },
                    (Some(EventV::ModTime(None)), TargetV::Concrete(ct)) => (
                        EngineV { stack: Seq::empty(), ..e },
                        StepV::Failed(BuildErrorV::StateAccessFailure(ct)),
                    ),
                    _ => (e, StepV::Continue),
                }
            },
        }
    }
}

/// Idempotence for a ruleless concrete leaf: a first build records the
/// modification time it is handed and reports the leaf changed; a second
/// build over the resulting state, handed the same time again (no
/// intervening filesystem change), reports it unchanged and leaves the
/// recorded state as it was.
pub proof fn lemma_leaf_idempotent(
    file: Map<TargetV, RuleV>,
    state: Map<CTargetV, u128>,
    ct: CTargetV,
    t: u128,
)
    requires
        !file.contains_key(TargetV::Concrete(ct)),
        !state.contains_key(ct),
    ensures
        ({
            let start = FrameV {
                target: TargetV::Concrete(ct),
                deps: Seq::empty(),
                commands: Seq::empty(),
                phase: Phase::Start,
            };
            let e0 = EngineV { file, state, stack: seq![start] };
            let (e1, s1) = advance_spec(e0, None);
            let (e2, s2) = advance_spec(e1, Some(EventV::ModTime(Some(t))));
            let f0 = EngineV { file, state: e2.state, stack: seq![start] };
            let (f1, r1) = advance_spec(f0, None);
            let (f2, r2) = advance_spec(f1, Some(EventV::ModTime(Some(t))));
            &&& s1 == StepV::Ask(QueryV::ModTime(ct))
            &&& s2 == StepV::Done(true)
            &&& e2.state == state.insert(ct, t)
            &&& r1 == StepV::Ask(QueryV::ModTime(ct))
            &&& r2 == StepV::Done(false)
            &&& f2.state == e2.state
        }),
{
    let start = FrameV {
        target: TargetV::Concrete(ct),
        deps: Seq::empty(),
        commands: Seq::empty(),
        phase: Phase::Start,
    };
    let e0 = EngineV { file, state, stack: seq![start] };
    assert(e0.stack.last() == start);
    assert(e0.stack.drop_last() =~= Seq::<FrameV>::empty());
    let (e1, s1) = advance_spec(e0, None);
    assert(e1.stack.last().phase == Phase::LeafRecord);
    assert(e1.stack.drop_last() =~= Seq::<FrameV>::empty());
    let (e2, s2) = advance_spec(e1, Some(EventV::ModTime(Some(t))));
    assert(e2.state == state.insert(ct, t));
    let f0 = EngineV { file, state: e2.state, stack: seq![start] };
    assert(f0.stack.last() == start);
    assert(f0.stack.drop_last() =~= Seq::<FrameV>::empty());
    let (f1, r1) = advance_spec(f0, None);
    assert(f1.stack.last().phase == Phase::LeafCheck);
    assert(f1.stack.drop_last() =~= Seq::<FrameV>::empty());
    let (f2, r2) = advance_spec(f1, Some(EventV::ModTime(Some(t))));
    assert(r2 == StepV::Done(false));
}

/// Propagation: once a rule's dependency walk is done with at least one
/// dependency reporting a change, the rule's commands run.  For a virtual
/// target the engine asks at once to run the first command; for a concrete
/// one it first asks whether the path exists, and then — whatever the
/// answer — asks to run the first command.
pub proof fn lemma_propagation(e: EngineV)
    requires
        engine_wf(e),
        e.stack.len() > 0,
        e.stack.last().phase matches Phase::Deps { idx, any_changed } && any_changed && idx
            == e.stack.last().deps.len(),
        e.stack.last().commands.len() > 0,
    ensures
        ({
            let fr = e.stack.last();
            let (e1, s1) = advance_spec(e, None);
            match fr.target {
                TargetV::Virtual(_) => s1 == StepV::Ask(QueryV::Run(fr.commands[0])),
                TargetV::Concrete(ct) => {
                    &&& s1 == StepV::Ask(QueryV::Exists(ct))
                    &&& forall|ex: bool|
                        advance_spec(e1, Some(EventV::Exists(ex))).1 == StepV::Ask(
                            QueryV::Run(fr.commands[0]),
                        )
                },
            }
        }),
{
    let fr = e.stack.last();
    let (e1, s1) = advance_spec(e, None);
    match fr.target {
        TargetV::Virtual(_) => {},
        TargetV::Concrete(ct) => {
            assert(e1.stack.last() == FrameV {
                phase: Phase::ExistsCheck {
                    any_changed: true,
                },
                ..fr
            });
            assert forall|ex: bool|
                advance_spec(e1, Some(EventV::Exists(ex))).1 == StepV::Ask(
                    QueryV::Run(fr.commands[0]),
                ) by {
                assert(spec_needs_making(fr.target, fr.deps.len() as int, true, ex));
            }
        },
    }
}

/// A virtual target with an empty dependency list is stale on every
/// invocation: when its (empty) dependency walk completes, the engine
/// either starts the rule's commands, or — with no commands — completes the
/// target as changed, finishing the build with `Done(true)` or handing
/// `changed = true` to the waiting parent.
pub proof fn lemma_virtual_leaf_always_stale(e: EngineV)
    requires
        engine_wf(e),
        e.stack.len() > 0,
        e.stack.last().target matches TargetV::Virtual(_),
        e.stack.last().deps.len() == 0,
        e.stack.last().phase matches Phase::Deps { idx, .. } && idx == 0,
    ensures
        ({
            let fr = e.stack.last();
            let (e1, s1) = advance_spec(e, None);
            if fr.commands.len() > 0 {
                s1 == StepV::Ask(QueryV::Run(fr.commands[0]))
            } else if e.stack.len() == 1 {
                s1 == StepV::Done(true)
            } else {
                &&& s1 == StepV::Continue
                &&& e1.stack.last().phase matches Phase::Deps { any_changed, .. } && any_changed
            }
        }),
{
    let fr = e.stack.last();
    assert(spec_needs_making(fr.target, 0, fr.phase->Deps_any_changed, true));
    let (e1, s1) = advance_spec(e, None);
    if fr.commands.len() == 0 && e.stack.len() > 1 {
        let rest = e.stack.drop_last();
        assert(frame_waiting(e.stack[e.stack.len() - 2]));
        assert(rest.last() == e.stack[e.stack.len() - 2]);
    }
}

impl Engine {
    /// Sets up a build of `target` against the parsed rules and the prior
    /// state.  Drive it by calling `advance` until `Done` or `Failed`.
    pub fn new(file: MkFile, state: UpdateState, target: Target) -> (r: Engine)
        ensures
            r@.file == file@,
            r@.state == state@,
            r@.stack =~= seq![
                FrameV {
                    target: target@,
                    deps: Seq::empty(),
                    commands: Seq::empty(),
                    phase: Phase::Start,
                },
            ],
            engine_wf(r@),
    {
        let mut stack: Vec<Frame> = Vec::new();
        stack.push(Frame { target, deps: Vec::new(), commands: Vec::new(), phase: Phase::Start });
        proof {
            assert(frame_views(stack@) =~= frame_views(stack@.drop_last()).push(
                stack@.last()@,
            ));
            assert(target_views(Seq::<Target>::empty()) =~= Seq::<TargetV>::empty());
            assert(string_views(Seq::<String>::empty()) =~= Seq::<Seq<char>>::empty());
        }
        Engine { file, state, stack }
    }

    /// Whether the walk still has work; `advance` may be called only while
    /// it does.
    pub fn is_active(&self) -> (r: bool)
        ensures
            r == (self@.stack.len() > 0),
    {
        self.stack.len() > 0
    }

    /// Hands the accumulated state back for persisting; the driver saves it
    /// after success and failure alike.
    pub fn into_state(self) -> (r: UpdateState)
        ensures
            r@ == self@.state,
    {
        self.state
    }

    /// Delivers a finished frame's result to the waiting parent, or ends
    /// the walk.  The finished frame was already popped.
    fn finish_frame(&mut self, changed: bool) -> (r: Step)
        requires
            engine_wf(old(self)@),
            old(self)@.stack.len() > 0 ==> frame_waiting(old(self)@.stack.last()),
        ensures
            engine_wf(final(self)@),
            final(self)@.stack == finish_spec(old(self)@.stack, changed).0,
            r@ == finish_spec(old(self)@.stack, changed).1,
            final(self)@.file == old(self)@.file,
            final(self)@.state == old(self)@.state,
    {
        if self.stack.len() == 0 {
            Step::Done(changed)
        } else {
            let mut p = self.stack.pop().unwrap();
            proof {
                assert(frame_views(old(self).stack@).last() == p@);
                assert(frame_views(self.stack@) =~= frame_views(old(self).stack@).drop_last());
            }
            match p.phase {
                Phase::Deps { idx, any_changed } => {
                    let n_deps = p.deps.len();
                    proof {
                        assert(frame_waiting(old(self)@.stack.last()));
                        assert(idx < n_deps);
                    }
                    p.phase = Phase::Deps { idx: idx + 1, any_changed: any_changed || changed };
                    self.stack.push(p);
                    proof {
                        assert(frame_views(self.stack@) =~= frame_views(
                            self.stack@.drop_last(),
                        ).push(self.stack@.last()@));
                        assert(self@.stack =~= finish_spec(old(self)@.stack, changed).0);
                        assert(forall|i: int|
                            0 <= i < self@.stack.len() - 1 ==> self@.stack[i]
                                == old(self)@.stack[i]);
                    }
                    Step::Continue
                },
                _ => vstd::pervasive::unreached(),
            }
        }
    }

    /// One transition of the walk.  While a query is pending (the last
    /// report was `Ask`), the matching event must be handed in; otherwise
    /// nothing.  The transition taken is exactly [`advance_spec`].
    pub fn advance(&mut self, input: Option<Event>) -> (r: Step)
        requires
            engine_wf(old(self)@),
            old(self)@.stack.len() > 0,
            expected_input(old(self)@.stack.last().phase, ev_view(input)),
        ensures
            engine_wf(final(self)@),
            final(self)@ == advance_spec(old(self)@, ev_view(input)).0,
            r@ == advance_spec(old(self)@, ev_view(input)).1,
    {
        let ghost e0 = old(self)@;
        let fr = self.stack.pop().unwrap();
        proof {
            assert(frame_views(old(self).stack@).last() == fr@);
            assert(frame_views(self.stack@) =~= frame_views(old(self).stack@).drop_last());
        }
        match fr.phase {
            Phase::Start => {
                if self.file.has_target(&fr.target) {
                    let parts = self.file.rule_parts(&fr.target);
                    self.stack.push(
                        Frame {
                            target: fr.target,
                            deps: parts.0,
                            commands: parts.1,
                            phase: Phase::Deps { idx: 0, any_changed: false },
                        },
                    );
                    proof {
                        assert(frame_views(self.stack@) =~= frame_views(
                            self.stack@.drop_last(),
                        ).push(self.stack@.last()@));
                        assert(self@ =~= advance_spec(e0, ev_view(input)).0);
                    }
                    Step::Continue
                } else {
                    match fr.target {
                        Target::Virtual(name) => {
                            self.stack = Vec::new();
                            proof {
                                assert(frame_views(self.stack@) =~= Seq::<FrameV>::empty());
                                assert(self@ =~= advance_spec(e0, ev_view(input)).0);
                            }
                            Step::Failed(BuildError::MissingRule(name))
                        },
                        Target::Concrete(ct) => {
                            let ph = if self.state.has_record(&ct) {
                                Phase::LeafCheck
                            } else {
                                Phase::LeafRecord
                            };
                            let q = ct.clone();
                            self.stack.push(
                                Frame {
                                    target: Target::Concrete(ct),
                                    deps: fr.deps,
                                    commands: fr.commands,
                                    phase: ph,
                                },
                            );
                            proof {
                                assert(frame_views(self.stack@) =~= frame_views(
                                    self.stack@.drop_last(),
                                ).push(self.stack@.last()@));
                                assert(self@ =~= advance_spec(e0, ev_view(input)).0);
                            }
                            Step::Ask(Query::ModTime(q))
                        },
                    }
                }
            },
            Phase::Deps { idx, any_changed } => {
                if idx < fr.deps.len() {
                    let child = fr.deps[idx].clone();
                    self.stack.push(fr);
                    proof {
                        assert(frame_views(self.stack@) =~= frame_views(
                            self.stack@.drop_last(),
                        ).push(self.stack@.last()@));
                        assert(frame_views(self.stack@) =~= e0.stack);
                    }
                    self.stack.push(
                        Frame {
                            target: child,
                            deps: Vec::new(),
                            commands: Vec::new(),
                            phase: Phase::Start,
                        },
                    );
                    proof {
                        assert(target_views(Seq::<Target>::empty()) =~= Seq::<TargetV>::empty());
                        assert(string_views(Seq::<String>::empty()) =~= Seq::<Seq<char>>::empty());
                        assert(frame_views(self.stack@) =~= frame_views(
                            self.stack@.drop_last(),
                        ).push(self.stack@.last()@));
                        assert(self@ =~= advance_spec(e0, ev_view(input)).0);
                    }
                    Step::Continue
                } else {
                    match fr.target {
                        Target::Virtual(_) => {
                            if any_changed || fr.deps.len() == 0 {
                                if fr.commands.len() > 0 {
                                    let cmd = fr.commands[0].clone();
                                    let mut fr2 = fr;
                                    fr2.phase = Phase::Commands { idx: 0 };
                                    self.stack.push(fr2);
                                    proof {
                                        assert(frame_views(self.stack@) =~= frame_views(
                                            self.stack@.drop_last(),
                                        ).push(self.stack@.last()@));
                                        assert(self@ =~= advance_spec(e0, ev_view(input)).0);
                                    }
                                    Step::Ask(Query::Run(cmd))
                                } else {
                                    let r = self.finish_frame(true);
                                    proof {
                                        assert(self@ =~= advance_spec(e0, ev_view(input)).0);
                                    }
                                    r
                                }
                            } else {
                                let r = self.finish_frame(false);
                                proof {
                                    assert(self@ =~= advance_spec(e0, ev_view(input)).0);
                                }
                                r
                            }
                        },
                        Target::Concrete(ct) => {
                            let q = ct.clone();
                            self.stack.push(
                                Frame {
                                    target: Target::Concrete(ct),
                                    deps: fr.deps,
                                    commands: fr.commands,
                                    phase: Phase::ExistsCheck { any_changed },
                                },
                            );
                            proof {
                                assert(frame_views(self.stack@) =~= frame_views(
                                    self.stack@.drop_last(),
                                ).push(self.stack@.last()@));
                                assert(self@ =~= advance_spec(e0, ev_view(input)).0);
                            }
                            Step::Ask(Query::Exists(q))
                        },
                    }
                }
            },
            Phase::ExistsCheck { any_changed } => {
                let ex = match input {
                    Some(Event::Exists(b)) => b,
                    _ => vstd::pervasive::unreached(),
                };
                let ct = match &fr.target {
                    Target::Concrete(c) => c.clone(),
                    Target::Virtual(_) => vstd::pervasive::unreached(),
                };
                let needs = any_changed || !ex;
                if needs {
                    if fr.commands.len() > 0 {
                        let cmd = fr.commands[0].clone();
                        let mut fr2 = fr;
                        fr2.phase = Phase::Commands { idx: 0 };
                        self.stack.push(fr2);
                        proof {
                            assert(frame_views(self.stack@) =~= frame_views(
                                self.stack@.drop_last(),
                            ).push(self.stack@.last()@));
                            assert(self@ =~= advance_spec(e0, ev_view(input)).0);
                        }
                        Step::Ask(Query::Run(cmd))
                    } else {
                        let mut fr2 = fr;
                        fr2.phase = Phase::ProducedCheck;
                        self.stack.push(fr2);
                        proof {
                            assert(frame_views(self.stack@) =~= frame_views(
                                self.stack@.drop_last(),
                            ).push(self.stack@.last()@));
                            assert(self@ =~= advance_spec(e0, ev_view(input)).0);
                        }
                        Step::Ask(Query::Exists(ct))
                    }
                } else {
                    let mut fr2 = fr;
                    fr2.phase = Phase::RecordSame;
                    self.stack.push(fr2);
                    proof {
                        assert(frame_views(self.stack@) =~= frame_views(
                            self.stack@.drop_last(),
                        ).push(self.stack@.last()@));
                        assert(self@ =~= advance_spec(e0, ev_view(input)).0);
                    }
                    Step::Ask(Query::ModTime(ct))
                }
            },
            Phase::Commands { idx } => {
                let n_cmds = fr.commands.len();
                proof {
                    assert(frame_wf(e0.stack.last()));
                    assert(idx < n_cmds);
                }
                let ok = match input {
                    Some(Event::Ran(b)) => b,
                    _ => vstd::pervasive::unreached(),
                };
                if !ok {
                    let cmd = fr.commands[idx].clone();
                    self.stack = Vec::new();
                    proof {
                        assert(frame_views(self.stack@) =~= Seq::<FrameV>::empty());
                        assert(self@ =~= advance_spec(e0, ev_view(input)).0);
                    }
                    Step::Failed(BuildError::CommandFailure(cmd))
                } else if idx + 1 < n_cmds {
                    let cmd = fr.commands[idx + 1].clone();
                    let mut fr2 = fr;
                    fr2.phase = Phase::Commands { idx: idx + 1 };
                    self.stack.push(fr2);
                    proof {
                        assert(frame_views(self.stack@) =~= frame_views(
                            self.stack@.drop_last(),
                        ).push(self.stack@.last()@));
                        assert(self@ =~= advance_spec(e0, ev_view(input)).0);
                    }
                    Step::Ask(Query::Run(cmd))
                } else {
                    match fr.target {
                        Target::Virtual(_) => {
                            let r = self.finish_frame(true);
                            proof {
                                assert(self@ =~= advance_spec(e0, ev_view(input)).0);
                            }
                            r
                        },
                        Target::Concrete(ct) => {
                            let q = ct.clone();
                            self.stack.push(
                                Frame {
                                    target: Target::Concrete(ct),
                                    deps: fr.deps,
                                    commands: fr.commands,
                                    phase: Phase::ProducedCheck,
                                },
                            );
                            proof {
                                assert(frame_views(self.stack@) =~= frame_views(
                                    self.stack@.drop_last(),
                                ).push(self.stack@.last()@));
                                assert(self@ =~= advance_spec(e0, ev_view(input)).0);
                            }
                            Step::Ask(Query::Exists(q))
                        },
                    }
                }
            },
            Phase::ProducedCheck => {
                let ex = match input {
                    Some(Event::Exists(b)) => b,
                    _ => vstd::pervasive::unreached(),
                };
                let ct = match &fr.target {
                    Target::Concrete(c) => c.clone(),
                    Target::Virtual(_) => vstd::pervasive::unreached(),
                };
                if ex {
                    let mut fr2 = fr;
                    fr2.phase = Phase::RecordMade;
                    self.stack.push(fr2);
                    proof {
                        assert(frame_views(self.stack@) =~= frame_views(
                            self.stack@.drop_last(),
                        ).push(self.stack@.last()@));
                        assert(self@ =~= advance_spec(e0, ev_view(input)).0);
                    }
                    Step::Ask(Query::ModTime(ct))
                } else {
                    self.stack = Vec::new();
                    proof {
                        assert(frame_views(self.stack@) =~= Seq::<FrameV>::empty());
                        assert(self@ =~= advance_spec(e0, ev_view(input)).0);
                    }
                    Step::Failed(BuildError::TargetNotProduced(ct))
                }
            },
            Phase::RecordMade => {
                let t = match input {
                    Some(Event::ModTime(t)) => t,
                    _ => vstd::pervasive::unreached(),
                };
                let ct = match &fr.target {
                    Target::Concrete(c) => c.clone(),
                    Target::Virtual(_) => vstd::pervasive::unreached(),
                };
                match t {
                    Some(t) => {
                        self.state.update_state(&ct, t);
                        let r = self.finish_frame(true);
                        proof {
                            assert(self@ =~= advance_spec(e0, ev_view(input)).0);
                        }
                        r
                    },
                    None => {
                        self.stack = Vec::new();
                        proof {
                            assert(frame_views(self.stack@) =~= Seq::<FrameV>::empty());
                            assert(self@ =~= advance_spec(e0, ev_view(input)).0);
                        }
                        Step::Failed(BuildError::StateAccessFailure(ct))
                    },
                }
            },
            Phase::RecordSame => {
                let t = match input {
                    Some(Event::ModTime(t)) => t,
                    _ => vstd::pervasive::unreached(),
                };
                let ct = match &fr.target {
                    Target::Concrete(c) => c.clone(),
                    Target::Virtual(_) => vstd::pervasive::unreached(),
                };
                match t {
                    Some(t) => {
                        self.state.update_state(&ct, t);
                        let r = self.finish_frame(false);
                        proof {
                            assert(self@ =~= advance_spec(e0, ev_view(input)).0);
                        }
                        r
                    },
                    None => {
                        self.stack = Vec::new();
                        proof {
                            assert(frame_views(self.stack@) =~= Seq::<FrameV>::empty());
                            assert(self@ =~= advance_spec(e0, ev_view(input)).0);
                        }
                        Step::Failed(BuildError::StateAccessFailure(ct))
                    },
                }
            },
            Phase::LeafCheck => {
                let t = match input {
                    Some(Event::ModTime(t)) => t,
                    _ => vstd::pervasive::unreached(),
                };
                let ct = match &fr.target {
                    Target::Concrete(c) => c.clone(),
                    Target::Virtual(_) => vstd::pervasive::unreached(),
                };
                match t {
                    Some(t) => {
                        if self.state.is_up_to_date(&ct, t) {
                            let r = self.finish_frame(false);
                            proof {
                                assert(self@ =~= advance_spec(e0, ev_view(input)).0);
                            }
                            r
                        } else {
                            let mut fr2 = fr;
                            fr2.phase = Phase::LeafRecord;
                            self.stack.push(fr2);
                            proof {
                                assert(frame_views(self.stack@) =~= frame_views(
                                    self.stack@.drop_last(),
                                ).push(self.stack@.last()@));
                                assert(self@ =~= advance_spec(e0, ev_view(input)).0);
                            }
                            Step::Ask(Query::ModTime(ct))
                        }
                    },
                    None => {
                        self.stack = Vec::new();
                        proof {
                            assert(frame_views(self.stack@) =~= Seq::<FrameV>::empty());
                            assert(self@ =~= advance_spec(e0, ev_view(input)).0);
                        }
                        Step::Failed(BuildError::StateAccessFailure(ct))
                    },
                }
            },
            Phase::LeafRecord => {
                let t = match input {
                    Some(Event::ModTime(t)) => t,
                    _ => vstd::pervasive::unreached(),
                };
                let ct = match &fr.target {
                    Target::Concrete(c) => c.clone(),
                    Target::Virtual(_) => vstd::pervasive::unreached(),
                };
                match t {
                    Some(t) => {
                        self.state.update_state(&ct, t);
                        let r = self.finish_frame(true);
                        proof {
                            assert(self@ =~= advance_spec(e0, ev_view(input)).0);
                        }
                        r
                    },
                    None => {
                        self.stack = Vec::new();
                        proof {
                            assert(frame_views(self.stack@) =~= Seq::<FrameV>::empty());
                            assert(self@ =~= advance_spec(e0, ev_view(input)).0);
                        }
                        Step::Failed(BuildError::StateAccessFailure(ct))
                    },
                }
            },
        }
    }
}

} // verus!

