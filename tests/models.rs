use helpdesk::models::{Category, State, Technician, Ticket};

#[test]
fn technician_new_starts_available() {
    let t = Technician::new(10, "Ana".to_string(), Category::Network);
    assert_eq!(t.id, 10);
    assert_eq!(t.name, "Ana");
    assert_eq!(t.specialty, Category::Network);
    assert_eq!(t.assigned_ticket_id, None);
    assert!(t.is_available);
    assert!(t.can_accept_ticket());
}

#[test]
fn technician_holding_a_ticket_cannot_accept() {
    let mut t = Technician::new(10, "Ana".to_string(), Category::Network);
    t.assigned_ticket_id = Some(3);
    t.is_available = false;
    assert!(!t.can_accept_ticket());
    t.is_available = true;
    assert!(!t.can_accept_ticket());
    t.assigned_ticket_id = None;
    t.is_available = false;
    assert!(!t.can_accept_ticket());
}

#[test]
fn ticket_starts_new_and_unresolved() {
    let t = Ticket::created_at_time(4, "printer".to_string(), Category::Hardware, 100, 1_000);
    assert_eq!(t.id, 4);
    assert_eq!(t.description, "printer");
    assert_eq!(t.category, Category::Hardware);
    assert_eq!(t.state, State::New);
    assert_eq!(t.client_id, 100);
    assert_eq!(t.technician_id, None);
    assert_eq!(t.created_at, 1_000);
    assert_eq!(t.resolved_at, None);
}

#[test]
fn ticket_new_uses_the_clock() {
    let t = Ticket::new(1, "vpn".to_string(), Category::Network, 7);
    assert_eq!(t.state, State::New);
    assert!(t.created_at > 1_600_000_000);
    assert!(t.time_elapsed() < 60);
}

#[test]
fn elapsed_runs_to_now_while_open() {
    let t = Ticket::created_at_time(1, "x".to_string(), Category::Network, 1, 1_000);
    assert_eq!(t.elapsed_at(1_250), 250);
    assert_eq!(t.elapsed_at(1_000), 0);
}

#[test]
fn elapsed_stops_at_resolution() {
    let mut t = Ticket::created_at_time(1, "x".to_string(), Category::Network, 1, 1_000);
    t.state = State::Resolved;
    t.resolved_at = Some(1_600);
    assert_eq!(t.elapsed_at(99_999), 600);
    assert_eq!(t.time_elapsed(), 600);
}

#[test]
fn elapsed_is_zero_when_clock_is_behind() {
    let t = Ticket::created_at_time(1, "x".to_string(), Category::Network, 1, 1_000);
    assert_eq!(t.elapsed_at(400), 0);
}

#[test]
fn minutes_round_down() {
    let t = Ticket::created_at_time(1, "x".to_string(), Category::Network, 1, 1_000);
    assert_eq!(t.minutes_elapsed_at(1_000 + 179), 2);
    assert_eq!(t.minutes_elapsed_at(1_000 + 59), 0);
    assert_eq!(t.minutes_elapsed_at(1_000 + 60), 1);
}

#[test]
fn labels() {
    assert_eq!(Category::Network.as_str(), "NETWORK");
    assert_eq!(Category::Application.as_str(), "APPLICATION");
    assert_eq!(Category::Security.as_str(), "SECURITY");
    assert_eq!(Category::Hardware.as_str(), "HARDWARE");
    assert_eq!(State::New.as_str(), "NEW");
    assert_eq!(State::Assigned.as_str(), "ASSIGNED");
    assert_eq!(State::InProgress.as_str(), "IN PROGRESS");
    assert_eq!(State::Resolved.as_str(), "RESOLVED");
    assert_eq!(State::Closed.as_str(), "CLOSED");
}
