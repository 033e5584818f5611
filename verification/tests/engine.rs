use minimake::making::BuildError;
use minimake::making::Engine;
use minimake::making::Event;
use minimake::making::Query;
use minimake::making::Step;
use minimake::making::UpdateState;
use minimake::making::subtree_update_time;
use minimake::mkfile::ConcreteTarget;
use minimake::mkfile::MkFile;
use minimake::mkfile::Target;

/// Advances the engine until it asks a question or stops.
fn advance_free(e: &mut Engine) -> Step {
    let mut s = e.advance(None);
    loop {
        match s {
            Step::Continue => {
                s = e.advance(None);
            }
            other => return other,
        }
    }
}

/// Hands the engine the answer to its pending question, then advances it
/// until the next question or stop.
fn advance_with(e: &mut Engine, ev: Event) -> Step {
    let mut s = e.advance(Some(ev));
    loop {
        match s {
            Step::Continue => {
                s = e.advance(None);
            }
            other => return other,
        }
    }
}

const RULES: &str = "out.txt: in.txt\n\techo hi > out.txt\n";

#[test]
fn scenario_build_missing_output() {
    let mk = MkFile::parse(RULES);
    let mut engine = Engine::new(mk, UpdateState::new(), Target::parse("out.txt"));
    let input = ConcreteTarget::Shallow("in.txt".to_string());
    let output = ConcreteTarget::Shallow("out.txt".to_string());

    // the leaf dependency has no record: its time is read and recorded
    assert_eq!(
        advance_free(&mut engine),
        Step::Ask(Query::ModTime(input.clone()))
    );
    assert_eq!(
        advance_with(&mut engine, Event::ModTime(Some(100))),
        Step::Ask(Query::Exists(output.clone()))
    );
    // out.txt does not exist yet: the command must run
    assert_eq!(
        advance_with(&mut engine, Event::Exists(false)),
        Step::Ask(Query::Run("echo hi > out.txt".to_string()))
    );
    // the command succeeds and the file is there afterwards
    assert_eq!(
        advance_with(&mut engine, Event::Ran(true)),
        Step::Ask(Query::Exists(output.clone()))
    );
    assert_eq!(
        advance_with(&mut engine, Event::Exists(true)),
        Step::Ask(Query::ModTime(output.clone()))
    );
    assert_eq!(
        advance_with(&mut engine, Event::ModTime(Some(105))),
        Step::Done(true)
    );

    let state = engine.into_state();
    assert!(state.is_up_to_date(&input, 100));
    assert!(state.is_up_to_date(&output, 105));
}

#[test]
fn scenario_rerun_unchanged() {
    // the state a successful first build leaves behind
    let input = ConcreteTarget::Shallow("in.txt".to_string());
    let output = ConcreteTarget::Shallow("out.txt".to_string());
    let mut state = UpdateState::new();
    state.update_state(&input, 100);
    state.update_state(&output, 105);

    let mk = MkFile::parse(RULES);
    let mut engine = Engine::new(mk, state, Target::parse("out.txt"));
    assert_eq!(
        advance_free(&mut engine),
        Step::Ask(Query::ModTime(input.clone()))
    );
    // in.txt unchanged: its time equals the recorded one
    assert_eq!(
        advance_with(&mut engine, Event::ModTime(Some(100))),
        Step::Ask(Query::Exists(output.clone()))
    );
    // the engine never asks to run the command: it re-records and finishes
    assert_eq!(
        advance_with(&mut engine, Event::Exists(true)),
        Step::Ask(Query::ModTime(output.clone()))
    );
    assert_eq!(
        advance_with(&mut engine, Event::ModTime(Some(105))),
        Step::Done(false)
    );
}

#[test]
fn scenario_rebuild_after_touch() {
    let input = ConcreteTarget::Shallow("in.txt".to_string());
    let output = ConcreteTarget::Shallow("out.txt".to_string());
    let mut state = UpdateState::new();
    state.update_state(&input, 100);
    state.update_state(&output, 105);

    let mk = MkFile::parse(RULES);
    let mut engine = Engine::new(mk, state, Target::parse("out.txt"));
    assert_eq!(
        advance_free(&mut engine),
        Step::Ask(Query::ModTime(input.clone()))
    );
    // in.txt's time advanced past the recorded one: it is stale
    assert_eq!(
        advance_with(&mut engine, Event::ModTime(Some(200))),
        Step::Ask(Query::ModTime(input.clone()))
    );
    assert_eq!(
        advance_with(&mut engine, Event::ModTime(Some(200))),
        Step::Ask(Query::Exists(output.clone()))
    );
    // the echo must run again, the output file notwithstanding
    assert_eq!(
        advance_with(&mut engine, Event::Exists(true)),
        Step::Ask(Query::Run("echo hi > out.txt".to_string()))
    );
    assert_eq!(
        advance_with(&mut engine, Event::Ran(true)),
        Step::Ask(Query::Exists(output.clone()))
    );
    assert_eq!(
        advance_with(&mut engine, Event::Exists(true)),
        Step::Ask(Query::ModTime(output.clone()))
    );
    assert_eq!(
        advance_with(&mut engine, Event::ModTime(Some(210))),
        Step::Done(true)
    );
}

#[test]
fn scenario_deep_directory_stale() {
    // a deep leaf target over a directory, recorded at its latest subtree
    // time
    let dir = ConcreteTarget::Deep("assets".to_string());
    let mut state = UpdateState::new();
    let recorded = subtree_update_time(100, &vec![90, 80]);
    assert_eq!(recorded, 100);
    state.update_state(&dir, recorded);

    // a new file appears inside the directory, younger than the record
    let now = subtree_update_time(100, &vec![90, 150, 80]);
    assert_eq!(now, 150);

    let mk = MkFile::parse("");
    let mut engine = Engine::new(mk, state, Target::parse("^assets"));
    assert_eq!(
        advance_free(&mut engine),
        Step::Ask(Query::ModTime(dir.clone()))
    );
    // stale: the deep time is after the recorded one, so it is re-recorded
    assert_eq!(
        advance_with(&mut engine, Event::ModTime(Some(now))),
        Step::Ask(Query::ModTime(dir.clone()))
    );
    assert_eq!(
        advance_with(&mut engine, Event::ModTime(Some(now))),
        Step::Done(true)
    );
    assert!(engine.into_state().is_up_to_date(&dir, now));
}

#[test]
fn scenario_missing_virtual_rule() {
    let mk = MkFile::parse(RULES);
    let mut engine = Engine::new(mk, UpdateState::new(), Target::parse("$clean"));
    assert_eq!(
        advance_free(&mut engine),
        Step::Failed(BuildError::MissingRule("clean".to_string()))
    );
    assert!(!engine.is_active());
}

#[test]
fn leaf_idempotent() {
    let ct = ConcreteTarget::Shallow("data.txt".to_string());

    let mk = MkFile::parse("");
    let mut engine = Engine::new(mk, UpdateState::new(), Target::parse("data.txt"));
    assert_eq!(
        advance_free(&mut engine),
        Step::Ask(Query::ModTime(ct.clone()))
    );
    assert_eq!(
        advance_with(&mut engine, Event::ModTime(Some(7))),
        Step::Done(true)
    );
    let state = engine.into_state();

    // second invocation, no filesystem change: at most one "changed"
    let mk = MkFile::parse("");
    let mut engine = Engine::new(mk, state, Target::parse("data.txt"));
    assert_eq!(
        advance_free(&mut engine),
        Step::Ask(Query::ModTime(ct.clone()))
    );
    assert_eq!(
        advance_with(&mut engine, Event::ModTime(Some(7))),
        Step::Done(false)
    );
}

#[test]
fn virtual_leaf_always_rebuilt() {
    let mut state = UpdateState::new();
    for _ in 0..2 {
        let mk = MkFile::parse("$all:\n\techo hello\n");
        let mut engine = Engine::new(mk, state, Target::parse("$all"));
        assert_eq!(
            advance_free(&mut engine),
            Step::Ask(Query::Run("echo hello".to_string()))
        );
        assert_eq!(advance_with(&mut engine, Event::Ran(true)), Step::Done(true));
        state = engine.into_state();
    }
}

#[test]
fn propagation_runs_commands() {
    let mk = MkFile::parse("$app: lib.c\n\tcc lib.c\n");
    let mut engine = Engine::new(mk, UpdateState::new(), Target::parse("$app"));
    let lib = ConcreteTarget::Shallow("lib.c".to_string());
    // the leaf dependency has no record, so it reports changed
    assert_eq!(
        advance_free(&mut engine),
        Step::Ask(Query::ModTime(lib.clone()))
    );
    // the change propagates: the rule's command runs
    assert_eq!(
        advance_with(&mut engine, Event::ModTime(Some(5))),
        Step::Ask(Query::Run("cc lib.c".to_string()))
    );
    assert_eq!(advance_with(&mut engine, Event::Ran(true)), Step::Done(true));
}

#[test]
fn command_failure_aborts() {
    let mk = MkFile::parse("$all:\n\tfalse\n\techo never\n");
    let mut engine = Engine::new(mk, UpdateState::new(), Target::parse("$all"));
    assert_eq!(
        advance_free(&mut engine),
        Step::Ask(Query::Run("false".to_string()))
    );
    // the first command fails: the second never runs
    assert_eq!(
        advance_with(&mut engine, Event::Ran(false)),
        Step::Failed(BuildError::CommandFailure("false".to_string()))
    );
    assert!(!engine.is_active());
}

#[test]
fn target_not_produced() {
    let mk = MkFile::parse("out:\n\techo no\n");
    let mut engine = Engine::new(mk, UpdateState::new(), Target::parse("out"));
    let out = ConcreteTarget::Shallow("out".to_string());
    assert_eq!(
        advance_free(&mut engine),
        Step::Ask(Query::Exists(out.clone()))
    );
    assert_eq!(
        advance_with(&mut engine, Event::Exists(false)),
        Step::Ask(Query::Run("echo no".to_string()))
    );
    assert_eq!(
        advance_with(&mut engine, Event::Ran(true)),
        Step::Ask(Query::Exists(out.clone()))
    );
    // the command succeeded but the path still is not there
    assert_eq!(
        advance_with(&mut engine, Event::Exists(false)),
        Step::Failed(BuildError::TargetNotProduced(out.clone()))
    );
}

#[test]
fn state_access_failure() {
    let ct = ConcreteTarget::Shallow("gone".to_string());
    let mut state = UpdateState::new();
    state.update_state(&ct, 10);
    let mk = MkFile::parse("");
    let mut engine = Engine::new(mk, state, Target::parse("gone"));
    assert_eq!(
        advance_free(&mut engine),
        Step::Ask(Query::ModTime(ct.clone()))
    );
    assert_eq!(
        advance_with(&mut engine, Event::ModTime(None)),
        Step::Failed(BuildError::StateAccessFailure(ct.clone()))
    );
}

#[test]
fn partial_progress_survives_failure() {
    // the dependency is recorded before the parent's command fails, and
    // the record is still there afterwards
    let mk = MkFile::parse("$app: lib.c\n\tcc lib.c\n");
    let mut engine = Engine::new(mk, UpdateState::new(), Target::parse("$app"));
    let lib = ConcreteTarget::Shallow("lib.c".to_string());
    assert_eq!(
        advance_free(&mut engine),
        Step::Ask(Query::ModTime(lib.clone()))
    );
    assert_eq!(
        advance_with(&mut engine, Event::ModTime(Some(42))),
        Step::Ask(Query::Run("cc lib.c".to_string()))
    );
    assert_eq!(
        advance_with(&mut engine, Event::Ran(false)),
        Step::Failed(BuildError::CommandFailure("cc lib.c".to_string()))
    );
    let state = engine.into_state();
    assert!(state.is_up_to_date(&lib, 42));
}

#[test]
fn update_state_records() {
    let mut st = UpdateState::new();
    let ct = ConcreteTarget::Shallow("f".to_string());
    assert!(!st.has_record(&ct));
    assert!(!st.is_up_to_date(&ct, 0));
    st.update_state(&ct, 10);
    // equal times count as up to date; only strictly-after is stale
    assert!(st.is_up_to_date(&ct, 10));
    assert!(st.is_up_to_date(&ct, 9));
    assert!(!st.is_up_to_date(&ct, 11));
    st.update_state(&ct, 20);
    assert!(st.is_up_to_date(&ct, 20));
    // deep and shallow targets over one path are distinct entries
    let deep = ConcreteTarget::Deep("f".to_string());
    assert!(!st.has_record(&deep));
}

#[test]
fn subtree_time_is_latest() {
    assert_eq!(subtree_update_time(100, &vec![]), 100);
    assert_eq!(subtree_update_time(100, &vec![90, 150, 120]), 150);
    assert_eq!(subtree_update_time(200, &vec![90, 150]), 200);
}
