use aba_protection::library::StateTransition;
use aba_protection::{BookEvent, BookState, LibraryError, LibrarySystem};

fn setup_test_system() -> LibrarySystem {
    let mut system = LibrarySystem::new(BookState::Available, "test-book", 0);

    let available_idx = 0;
    let reserved_idx = system.add_state(BookState::Reserved("Test User".to_string()));
    let checked_out_idx = system.add_state(BookState::CheckedOut("Test User".to_string()));

    system.add_transition(available_idx, BookEvent::Reserve("Test User".to_string()), reserved_idx);
    system.add_transition(reserved_idx, BookEvent::CancelReservation, available_idx);
    system.add_transition(reserved_idx, BookEvent::CheckOut("Test User".to_string()), checked_out_idx);
    system.add_transition(checked_out_idx, BookEvent::Return, available_idx);

    system
}

#[test]
fn test_initial_state() {
    let system = setup_test_system();
    assert_eq!(*system.current_state(), BookState::Available);
}

#[test]
fn test_valid_transitions() {
    let mut system = setup_test_system();

    let result = system.process_event(BookEvent::Reserve("Test User".to_string()), 1);
    assert!(result.is_ok());
    assert!(matches!(*system.current_state(), BookState::Reserved(ref name) if name == "Test User"));

    let result = system.process_event(BookEvent::CheckOut("Test User".to_string()), 2);
    assert!(result.is_ok());
    assert!(matches!(*system.current_state(), BookState::CheckedOut(ref name) if name == "Test User"));

    let result = system.process_event(BookEvent::Return, 3);
    assert!(result.is_ok());
    assert_eq!(*system.current_state(), BookState::Available);
}

#[test]
fn tests_test_invalid_transition() {
    let mut system = setup_test_system();

    let result = system.process_event(BookEvent::Return, 1);
    assert!(result.is_err());

    assert_eq!(*system.current_state(), BookState::Available);
}

#[test]
fn test_history_tracking() {
    let mut system = setup_test_system();

    assert!(system.get_history().is_empty());

    let _ = system.process_event(BookEvent::Reserve("Test User".to_string()), 1);
    let _ = system.process_event(BookEvent::CheckOut("Test User".to_string()), 2);

    assert_eq!(system.get_history().len(), 2);

    let first: &StateTransition = system.get_history().get(0).expect("History should have an entry");
    assert_eq!(first.from, BookState::Available);
    assert!(matches!(first.to, BookState::Reserved(ref name) if name == "Test User"));
    assert!(matches!(first.event, BookEvent::Reserve(ref name) if name == "Test User"));
}

// The state's clock is driven by the times handed to `process_event`.
#[test]
fn test_timing_constraints() {
    let mut system = LibrarySystem::new(BookState::Available, "test-book", 0);

    let available_idx = 0;
    let reserved_idx = system.add_state(BookState::Reserved("Test User".to_string()));

    system.add_transition(available_idx, BookEvent::Reserve("Test User".to_string()), reserved_idx);
    system.add_transition(reserved_idx, BookEvent::CancelReservation, available_idx);
    system.add_timing_constraint(reserved_idx, 1000, BookEvent::CancelReservation);

    let result = system.process_event(BookEvent::Reserve("Test User".to_string()), 0);
    assert!(result.is_ok());
    assert!(matches!(system.current_state(), BookState::Reserved(name) if name == "Test User"));

    let now = 10_000;
    if let Some(timeout_event) = system.check_timeout(now) {
        assert_eq!(timeout_event, BookEvent::CancelReservation);
        let manual_result = system.process_event(BookEvent::CheckOut("Test User".to_string()), now);
        assert!(manual_result.is_ok());
        assert_eq!(*system.current_state(), BookState::Available);
    } else {
        panic!("Timeout should have been detected");
    }
}

#[test]
fn test_simple_timing() {
    let mut system = setup_test_system();

    let result = system.process_event(BookEvent::Reserve("Test User".to_string()), 1);
    assert!(result.is_ok());
    assert!(matches!(system.current_state(), BookState::Reserved(name) if name == "Test User"));

    let result = system.process_event(BookEvent::CheckOut("Test User".to_string()), 2);
    assert!(result.is_ok());
    assert!(matches!(system.current_state(), BookState::CheckedOut(name) if name == "Test User"));
}

#[test]
fn no_timeout_within_the_limit() {
    let mut system = LibrarySystem::new(BookState::Available, "b", 100);
    system.add_timing_constraint(0, 50, BookEvent::SendToRepair);
    assert_eq!(system.check_timeout(150), None);
    assert_eq!(system.check_timeout(151), Some(BookEvent::SendToRepair));
}

#[test]
fn invalid_transition_reports_state_and_event() {
    let mut system = setup_test_system();
    match system.process_event(BookEvent::ReportLost, 5) {
        Err(LibraryError::InvalidTransition { from_state, event }) => {
            assert_eq!(from_state, BookState::Available);
            assert_eq!(event, BookEvent::ReportLost);
        }
        other => panic!("unexpected: {:?}", other),
    }
    assert!(system.get_history().is_empty());
}

#[test]
fn add_state_returns_existing_index() {
    let mut system = setup_test_system();
    assert_eq!(system.add_state(BookState::Reserved("Test User".to_string())), 1);
    assert_eq!(system.add_state(BookState::Lost), 3);
    assert_eq!(system.get_states().len(), 4);
    assert_eq!(system.get_state_idx(&BookState::Lost), Some(3));
    assert_eq!(system.get_state_idx(&BookState::InTransit), None);
}

#[test]
fn redefining_a_transition_replaces_it() {
    let mut system = setup_test_system();
    let lost = system.add_state(BookState::Lost);
    system.add_transition(0, BookEvent::Reserve("Test User".to_string()), lost);
    assert_eq!(system.get_all_transitions().len(), 4);
    system.process_event(BookEvent::Reserve("Test User".to_string()), 1).unwrap();
    assert_eq!(system.get_current_state_idx(), lost);
}

#[test]
fn history_keeps_the_latest_hundred() {
    let mut system = setup_test_system();
    for t in 0..60u64 {
        system.process_event(BookEvent::Reserve("Test User".to_string()), 2 * t).unwrap();
        system.process_event(BookEvent::CancelReservation, 2 * t + 1).unwrap();
    }
    let history = system.get_history();
    assert_eq!(history.len(), 100);
    assert_eq!(history[0].timestamp, 20);
    assert_eq!(history[99].timestamp, 119);
}

#[test]
fn descriptions() {
    assert_eq!(BookState::Available.get_description(), "Book is available for checkout");
    assert_eq!(BookState::Reserved("Ann".to_string()).get_description(), "Book is reserved by Ann");
    assert_eq!(BookState::CheckedOut("Bo".to_string()).get_description(), "Book is checked out by Bo");
    assert_eq!(BookState::Lost.get_description(), "Book is marked as lost");
}
