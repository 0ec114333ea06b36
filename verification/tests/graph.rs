//! Tests for the task graph: id issuance, lookup, deletion, dependency
//! edges, the flattened forms, and the event selector.

use ayudame_wrapper::AppState;
use ayudame_wrapper::InputTypes;

#[test]
fn app_state_create_task() {
    let mut state = AppState::new();

    assert!(state.create_task(false, Some(0), 1).is_err());

    let _ = state.create_function("f1".to_string());

    assert!(state.create_task(false, Some(0), 0).is_ok());
}

#[test]
fn create_task_without_functions_is_not_found() {
    let mut state = AppState::new();
    let r = state.create_task(false, Some(0), 0);
    assert!(r.is_err());
    assert_eq!(state.task_id_count, 0);
    assert!(state.get_task(0).is_none());
}

#[test]
fn task_ids_increase_and_are_never_reused() {
    let mut state = AppState::new();
    let t0 = state.create_task(false, None, 0).unwrap();
    let t1 = state.create_task(false, None, 0).unwrap();
    assert_eq!(t0.get_id(), 0);
    assert_eq!(t1.get_id(), 1);

    assert!(state.delete_task(0).is_some());
    // the deleted id stays gone
    assert!(state.get_task(0).is_none());
    assert!(!state.does_task_exist(0));
    assert!(state.delete_task(0).is_none());

    // a new task never resurrects the deleted id
    let t2 = state.create_task(false, None, 0).unwrap();
    assert_eq!(t2.get_id(), 2);
}

#[test]
fn get_task_finds_live_tasks() {
    let mut state = AppState::new();
    state.create_task(true, None, 3).unwrap();
    state.create_task(false, None, 4).unwrap();
    let t = state.get_task(1).unwrap();
    assert_eq!(t.get_id(), 1);
    assert!(state.does_task_exist(0));
    assert!(!state.does_task_exist(2));
}

#[test]
fn add_dependency_records_pair_once() {
    let mut state = AppState::new();
    state.create_task(false, None, 0).unwrap();
    state.create_task(false, None, 0).unwrap();
    assert!(state.add_dependency(0, 1).is_some());
    assert_eq!(state.get_dependencies(), vec![(0, 1)]);
}

#[test]
fn add_dependency_twice_keeps_duplicates() {
    let mut state = AppState::new();
    state.create_task(false, None, 0).unwrap();
    state.create_task(false, None, 0).unwrap();
    assert!(state.add_dependency(0, 1).is_some());
    assert!(state.add_dependency(0, 1).is_some());
    assert_eq!(state.get_dependencies(), vec![(0, 1), (0, 1)]);
}

#[test]
fn add_dependency_missing_id_changes_nothing() {
    let mut state = AppState::new();
    state.create_task(false, None, 0).unwrap();
    assert!(state.add_dependency(0, 7).is_none());
    assert!(state.add_dependency(7, 0).is_none());
    assert!(state.get_dependencies().is_empty());
}

#[test]
fn add_dependency_accepts_caller_level_cycle() {
    let mut state = AppState::new();
    state.create_task(false, None, 0).unwrap();
    state.create_task(false, None, 0).unwrap();
    assert!(state.add_dependency(0, 1).is_some());
    assert!(state.add_dependency(1, 0).is_some());
    assert_eq!(state.get_dependencies(), vec![(0, 1), (1, 0)]);
}

#[test]
fn deleting_parent_removes_its_edges() {
    let mut state = AppState::new();
    state.create_task(false, None, 0).unwrap();
    state.create_task(false, None, 0).unwrap();
    state.create_task(false, None, 0).unwrap();
    state.add_dependency(0, 1).unwrap();
    state.add_dependency(1, 2).unwrap();
    assert!(state.delete_task(0).is_some());
    let deps = state.get_dependencies();
    assert_eq!(deps, vec![(1, 2)]);
    assert!(deps.iter().all(|&(p, c)| p != 0 && c != 0));
}

#[test]
fn deleting_child_hides_the_edge() {
    let mut state = AppState::new();
    state.create_task(false, None, 0).unwrap();
    state.create_task(false, None, 0).unwrap();
    state.add_dependency(0, 1).unwrap();
    assert!(state.delete_task(1).is_some());
    assert!(state.get_dependencies().is_empty());
}

#[test]
fn task_raw_parts_use_function_id_when_present() {
    let mut state = AppState::new();
    state.create_function("label".to_string()).unwrap();
    let t = state.create_task(true, Some(0), 9).unwrap();
    assert_eq!(t.into_raw_parts(), (0, 0, 1, 9));
}

#[test]
fn task_raw_parts_fall_back_to_own_id() {
    let mut state = AppState::new();
    let t0 = state.create_task(false, None, 2).unwrap();
    let t1 = state.create_task(false, None, 2).unwrap();
    assert_eq!(t0.into_raw_parts(), (0, 0, 0, 2));
    // without a function reference the second slot repeats the task's id
    assert_eq!(t1.into_raw_parts(), (1, 1, 0, 2));
}

#[test]
fn init_flags_are_one_shot() {
    let mut state = AppState::new();
    assert!(!state.is_pre_init);
    assert!(state.mark_pre_init().is_some());
    assert!(state.is_pre_init);
    assert!(state.mark_pre_init().is_none());
    assert!(state.mark_init().is_some());
    assert!(state.mark_init().is_none());
    assert!(state.is_init);
}

#[test]
fn app_state_default_is_empty() {
    let state = AppState::default();
    assert!(!state.is_pre_init);
    assert!(!state.is_init);
    assert_eq!(state.task_id_count, 0);
    assert!(state.tasks.is_empty());
    assert!(state.functions.is_empty());
}

#[test]
fn event_selector_maps_every_index() {
    assert!(matches!(InputTypes::try_from(0), Ok(InputTypes::PreInit)));
    assert!(matches!(InputTypes::try_from(1), Ok(InputTypes::Init)));
    assert!(matches!(InputTypes::try_from(2), Ok(InputTypes::AddTask)));
    assert!(matches!(InputTypes::try_from(3), Ok(InputTypes::RegisterFunction)));
    assert!(matches!(InputTypes::try_from(4), Ok(InputTypes::AddDependency)));
    assert!(matches!(InputTypes::try_from(5), Ok(InputTypes::AddTaskToQueue)));
    assert!(matches!(InputTypes::try_from(6), Ok(InputTypes::AddTask)));
    assert!(matches!(InputTypes::try_from(7), Ok(InputTypes::PreRunTask)));
    assert!(matches!(InputTypes::try_from(8), Ok(InputTypes::RunTask)));
    assert!(matches!(InputTypes::try_from(9), Ok(InputTypes::PostRunTask)));
    assert!(matches!(InputTypes::try_from(10), Ok(InputTypes::RemoveTask)));
    assert!(matches!(InputTypes::try_from(11), Ok(InputTypes::Barrier)));
    assert!(matches!(InputTypes::try_from(12), Ok(InputTypes::WaitOn)));
    assert!(matches!(InputTypes::try_from(13), Ok(InputTypes::Finish)));
    assert!(InputTypes::try_from(14).is_err());
    assert!(InputTypes::try_from(u64::MAX).is_err());
}
