use aba_protection::library::setup_library_system;
use aba_protection::observers::{NotificationService, StateObserver, TransitionLogger};
use aba_protection::visualization::StateVisualization;
use aba_protection::{BookEvent, BookState, LibraryError, LibrarySystem};

fn small_system() -> LibrarySystem {
    let mut system = LibrarySystem::new(BookState::Available, "b", 0);
    let reserved = system.add_state(BookState::Reserved("Ann".to_string()));
    system.add_transition(0, BookEvent::Reserve("Ann".to_string()), reserved);
    system.add_transition(reserved, BookEvent::CancelReservation, 0);
    system.process_event(BookEvent::Reserve("Ann".to_string()), 1).unwrap();
    system.process_event(BookEvent::CancelReservation, 2).unwrap();
    system
}

#[test]
fn dot_graph_of_a_small_system() {
    let system = small_system();
    let expected = "digraph state_machine {\n  rankdir=LR;\n  node [shape=circle, style=filled, fillcolor=lightblue];\n  s0 [label=\"Available\", fillcolor=palegreen, peripheries=2];\n  s1 [label=\"Reserved(Ann)\"];\n  s0 -> s1 [label=\"Reserve(\\\"Ann\\\")\", color=black];\n  s1 -> s0 [label=\"CancelReservation\", color=black];\n}\n";
    assert_eq!(StateVisualization::generate_dot(&system, false), expected);
}

#[test]
fn dot_graph_highlights_all_but_the_last_step() {
    let system = small_system();
    let expected = "digraph state_machine {\n  rankdir=LR;\n  node [shape=circle, style=filled, fillcolor=lightblue];\n  s0 [label=\"Available\", fillcolor=palegreen, peripheries=2];\n  s1 [label=\"Reserved(Ann)\"];\n  s0 -> s1 [label=\"Reserve(\\\"Ann\\\")\", color=red, penwidth=2.0];\n  s1 -> s0 [label=\"CancelReservation\", color=black];\n}\n";
    assert_eq!(StateVisualization::generate_dot(&system, true), expected);
}

#[test]
fn history_table_rows() {
    let system = small_system();
    let expected = "| # | From | Event | To |\n|---|------|-------|----|\n| 1 | 📚 Available | Reserve(\"Ann\") | 🔖 Reserved(Ann) |\n| 2 | 🔖 Reserved(Ann) | CancelReservation | 📚 Available |\n";
    assert_eq!(StateVisualization::history_table(system.get_history()), expected);
    assert_eq!(StateVisualization::history_table(&[]), "No transitions recorded yet.");
}

#[test]
fn format_state_marks() {
    assert_eq!(StateVisualization::format_state(&BookState::Lost), "❓ Lost");
    assert_eq!(StateVisualization::format_state(&BookState::CheckedOut("Cy".to_string())), "📖 CheckedOut(Cy)");
}

#[test]
fn observers_messages() {
    let from = BookState::Reserved("Ann".to_string());
    let to = BookState::CheckedOut("Ann".to_string());
    let event = BookEvent::CheckOut("Ann".to_string());
    assert_eq!(
        TransitionLogger.on_state_change(&from, &to, &event),
        Some("LOGGER: Transition occurred: Reserved(\"Ann\") --(CheckOut(\"Ann\"))--> CheckedOut(\"Ann\")".to_string())
    );
    assert_eq!(
        NotificationService.on_state_change(&from, &to, &event),
        Some("NOTIFICATION: Book has been checked out!".to_string())
    );
    assert_eq!(NotificationService.on_state_change(&to, &from, &BookEvent::Return), None);
    assert_eq!(
        NotificationService::message(&BookState::UnderRepair, &BookState::Available, &BookEvent::CompleteRepair),
        Some("NOTIFICATION: Book has been repaired!".to_string())
    );
}

#[test]
fn error_messages() {
    let e = LibraryError::InvalidTransition { from_state: BookState::Available, event: BookEvent::Return };
    assert_eq!(e.message(), "Cannot process event Return from current state Available");
    assert_eq!(LibraryError::LoadError("gone".to_string()).message(), "Load error: gone");
}

#[test]
fn full_library_setup_runs_a_loan() {
    let mut system = LibrarySystem::new(BookState::Available, "book-1234", 0);
    setup_library_system(&mut system);
    assert_eq!(system.get_states().len(), 8);
    assert_eq!(system.get_all_transitions().len(), 22);
    system.process_event(BookEvent::Reserve("Alice".to_string()), 10).unwrap();
    assert_eq!(system.describe(), "Book is reserved by Alice");
    // Four days later the reservation has lapsed: the next event is the cancellation.
    let four_days = 4 * 86_400_000;
    system.process_event(BookEvent::CheckOut("Alice".to_string()), four_days).unwrap();
    assert_eq!(*system.current_state(), BookState::Available);
    system.process_event(BookEvent::CheckOut("Bob".to_string()), four_days + 1).unwrap();
    assert_eq!(system.describe(), "Book is checked out by Bob");
}

#[test]
fn visit_counts() {
    let system = small_system();
    assert_eq!(StateVisualization::visit_count(system.get_history(), &BookState::Available), 1);
    assert_eq!(StateVisualization::visit_count(system.get_history(), &BookState::Reserved("Ann".to_string())), 1);
    assert_eq!(StateVisualization::visit_count(system.get_history(), &BookState::Lost), 0);
}

#[test]
fn saved_parts_restore_the_system() {
    let system = small_system();
    let restored = LibrarySystem::restore(
        system.get_states().clone(),
        system.get_all_transitions().clone(),
        system.get_current_state_idx(),
        system.get_history().clone(),
        system.get_max_history_size(),
        system.get_timing_constraints().clone(),
        system.get_system_id().clone(),
        50,
    )
    .unwrap();
    assert_eq!(restored.get_states(), system.get_states());
    assert_eq!(restored.get_history().len(), 2);
    assert!(matches!(
        LibrarySystem::restore(vec![], vec![], 0, vec![], 100, vec![], "x".to_string(), 0),
        Err(LibraryError::LoadError(_))
    ));
}
