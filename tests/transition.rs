use aba_protection::{Guard, TransitionBuilder, TransitionError, TransitionSystem};

#[derive(Debug, Clone, PartialEq)]
enum TrafficLight {
    Red,
    Yellow,
    Green,
}

#[derive(Debug, Clone, PartialEq)]
enum TrafficEvent {
    Timer,
    Emergency,
    Reset,
}

/// Lets only timer events through.
struct TimerOnly;

impl Guard<TrafficLight, TrafficEvent> for TimerOnly {
    fn allows(&self, _state: &TrafficLight, event: &TrafficEvent) -> bool {
        matches!(event, TrafficEvent::Timer)
    }

    fn reason(&self, _state: &TrafficLight, _event: &TrafficEvent) -> String {
        "Not a timer event".to_string()
    }

    fn check(&self, _state: &TrafficLight, event: &TrafficEvent) -> Result<(), String> {
        if let TrafficEvent::Timer = event {
            Ok(())
        } else {
            Err("Not a timer event".to_string())
        }
    }
}

/// Refuses everything.
struct Closed;

impl Guard<TrafficLight, TrafficEvent> for Closed {
    fn allows(&self, _state: &TrafficLight, _event: &TrafficEvent) -> bool {
        false
    }

    fn reason(&self, _state: &TrafficLight, _event: &TrafficEvent) -> String {
        "closed".to_string()
    }

    fn check(&self, _state: &TrafficLight, _event: &TrafficEvent) -> Result<(), String> {
        Err("closed".to_string())
    }
}

#[test]
fn test_basic_transitions() {
    let mut system = TransitionSystem::new(TrafficLight::Red);

    let red_to_green = TransitionBuilder::new()
        .from(TrafficLight::Red)
        .to(TrafficLight::Green)
        .on_event(TrafficEvent::Timer)
        .build();

    let green_to_yellow = TransitionBuilder::new()
        .from(TrafficLight::Green)
        .to(TrafficLight::Yellow)
        .on_event(TrafficEvent::Timer)
        .build();

    let yellow_to_red = TransitionBuilder::new()
        .from(TrafficLight::Yellow)
        .to(TrafficLight::Red)
        .on_event(TrafficEvent::Timer)
        .build();

    let emergency = TransitionBuilder::new()
        .from(TrafficLight::Red)
        .from(TrafficLight::Yellow)
        .from(TrafficLight::Green)
        .to(TrafficLight::Red)
        .on_event(TrafficEvent::Emergency)
        .build();

    system.register_transition(red_to_green);
    system.register_transition(green_to_yellow);
    system.register_transition(yellow_to_red);
    system.register_transition(emergency);

    assert_eq!(*system.current_state(), TrafficLight::Red);
    system.apply_event(TrafficEvent::Timer).unwrap();
    assert_eq!(*system.current_state(), TrafficLight::Green);
    system.apply_event(TrafficEvent::Timer).unwrap();
    assert_eq!(*system.current_state(), TrafficLight::Yellow);
    system.apply_event(TrafficEvent::Timer).unwrap();
    assert_eq!(*system.current_state(), TrafficLight::Red);

    system.apply_event(TrafficEvent::Timer).unwrap();
    assert_eq!(*system.current_state(), TrafficLight::Green);
    system.apply_event(TrafficEvent::Emergency).unwrap();
    assert_eq!(*system.current_state(), TrafficLight::Red);
}

#[test]
fn example_test_invalid_transition() {
    let mut system = TransitionSystem::new(TrafficLight::Red);

    let red_to_green = TransitionBuilder::new()
        .from(TrafficLight::Red)
        .to(TrafficLight::Green)
        .on_event(TrafficEvent::Timer)
        .build();

    system.register_transition(red_to_green);

    system.apply_event(TrafficEvent::Timer).unwrap();
    assert_eq!(*system.current_state(), TrafficLight::Green);

    let result = system.apply_event(TrafficEvent::Reset);
    assert!(result.is_err());
    assert!(matches!(result.unwrap_err(), TransitionError::InvalidTransition));
}

#[test]
fn test_guard_conditions() {
    let mut system = TransitionSystem::new(TrafficLight::Red);

    let red_to_green = TransitionBuilder::new()
        .from(TrafficLight::Red)
        .to(TrafficLight::Green)
        .on_event(TrafficEvent::Timer)
        .guard(TimerOnly)
        .build();

    system.register_transition(red_to_green);

    system.apply_event(TrafficEvent::Timer).unwrap();
    assert_eq!(*system.current_state(), TrafficLight::Green);
}

#[test]
fn test_possible_transitions() {
    let mut system = TransitionSystem::new(TrafficLight::Red);

    let red_to_green = TransitionBuilder::new()
        .from(TrafficLight::Red)
        .to(TrafficLight::Green)
        .on_event(TrafficEvent::Timer)
        .build();

    let red_emergency = TransitionBuilder::new()
        .from(TrafficLight::Red)
        .to(TrafficLight::Red)
        .on_event(TrafficEvent::Emergency)
        .build();

    system.register_transition(red_to_green);
    system.register_transition(red_emergency);

    let all_events = vec![TrafficEvent::Timer, TrafficEvent::Emergency, TrafficEvent::Reset];

    let possible = system.possible_transitions(&all_events);
    assert_eq!(possible.len(), 2);
    assert!(possible.contains(&TrafficEvent::Timer));
    assert!(possible.contains(&TrafficEvent::Emergency));
    assert!(!possible.contains(&TrafficEvent::Reset));
}

#[test]
fn refusing_guard_blocks_and_reports() {
    let rule = TransitionBuilder::new()
        .from(TrafficLight::Red)
        .to(TrafficLight::Green)
        .on_event(TrafficEvent::Timer)
        .guard(TimerOnly)
        .guard(Closed)
        .build();
    assert_eq!(
        rule.fire(&TrafficLight::Red, &TrafficEvent::Timer),
        Err(TransitionError::GuardFailed("closed".to_string()))
    );
    assert_eq!(rule.fire(&TrafficLight::Yellow, &TrafficEvent::Timer), Err(TransitionError::InvalidTransition));

    let mut system = TransitionSystem::new(TrafficLight::Red);
    system.register_transition(rule);
    assert!(!system.can_transition(&TrafficEvent::Timer));
    assert_eq!(system.apply_event(TrafficEvent::Timer), Err(TransitionError::InvalidTransition));
    assert_eq!(*system.current_state(), TrafficLight::Red);
}

#[test]
fn rule_without_sources_fires_from_any_state() {
    let reset = TransitionBuilder::new().to(TrafficLight::Red).on_event(TrafficEvent::Reset).build();
    let mut system = TransitionSystem::new(TrafficLight::Yellow);
    system.register_transition(reset);
    assert!(system.can_transition(&TrafficEvent::Reset));
    assert!(!system.can_transition(&TrafficEvent::Timer));
    assert_eq!(system.apply_event(TrafficEvent::Reset), Ok(&TrafficLight::Red));
}
