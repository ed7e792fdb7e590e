use helpdesk::models::{Category, Technician, Ticket};
use helpdesk::patterns::{AssignmentStrategy, BySpecialty, RoundRobin, StatsObserver, TicketObserver};

fn pool(ids: &[(u32, Category)]) -> Vec<Technician> {
    ids.iter().map(|(id, c)| Technician::new(*id, format!("tech {}", id), *c)).collect()
}

fn ticket(category: Category) -> Ticket {
    Ticket::created_at_time(1, "issue".to_string(), category, 100, 0)
}

#[test]
fn round_robin_cycles_in_id_order_and_wraps() {
    let techs = pool(&[(10, Category::Network), (11, Category::Network), (12, Category::Network)]);
    let t = ticket(Category::Network);
    let mut rr = RoundRobin { last_id: 0 };
    assert_eq!(rr.assign_technician(&t, &techs), Some(10));
    assert_eq!(rr.assign_technician(&t, &techs), Some(11));
    assert_eq!(rr.assign_technician(&t, &techs), Some(12));
    assert_eq!(rr.assign_technician(&t, &techs), Some(10));
    assert_eq!(rr.last_id, 10);
}

#[test]
fn round_robin_skips_ineligible_technician() {
    let mut techs = pool(&[(10, Category::Network), (11, Category::Network), (12, Category::Network)]);
    techs[1].assigned_ticket_id = Some(5);
    techs[1].is_available = false;
    let t = ticket(Category::Network);
    let mut rr = RoundRobin { last_id: 10 };
    assert_eq!(rr.assign_technician(&t, &techs), Some(12));
    assert_eq!(rr.last_id, 12);
}

#[test]
fn round_robin_ignores_pool_order() {
    let techs = pool(&[(12, Category::Network), (10, Category::Network), (11, Category::Network)]);
    let t = ticket(Category::Network);
    let mut rr = RoundRobin::new();
    assert_eq!(rr.assign_technician(&t, &techs), Some(10));
    assert_eq!(rr.assign_technician(&t, &techs), Some(11));
    assert_eq!(rr.assign_technician(&t, &techs), Some(12));
}

#[test]
fn round_robin_ignores_category() {
    let techs = pool(&[(10, Category::Hardware)]);
    let t = ticket(Category::Network);
    let mut rr = RoundRobin::new();
    assert_eq!(rr.assign_technician(&t, &techs), Some(10));
}

#[test]
fn round_robin_declines_when_nobody_is_eligible() {
    let mut techs = pool(&[(10, Category::Network)]);
    techs[0].assigned_ticket_id = Some(1);
    techs[0].is_available = false;
    let t = ticket(Category::Network);
    let mut rr = RoundRobin { last_id: 7 };
    assert_eq!(rr.assign_technician(&t, &techs), None);
    assert_eq!(rr.last_id, 7);
    let empty: Vec<Technician> = Vec::new();
    assert_eq!(rr.assign_technician(&t, &empty), None);
}

#[test]
fn by_specialty_picks_first_matching_eligible() {
    let mut techs = pool(&[
        (10, Category::Network),
        (11, Category::Application),
        (12, Category::Application),
    ]);
    let t = ticket(Category::Application);
    let mut s = BySpecialty;
    assert_eq!(s.assign_technician(&t, &techs), Some(11));
    techs[1].assigned_ticket_id = Some(9);
    techs[1].is_available = false;
    assert_eq!(s.assign_technician(&t, &techs), Some(12));
}

#[test]
fn by_specialty_declines_without_specialist() {
    let techs = pool(&[(10, Category::Network), (11, Category::Hardware)]);
    let t = ticket(Category::Security);
    let mut s = BySpecialty;
    assert_eq!(s.assign_technician(&t, &techs), None);
}

#[test]
fn stats_observer_counts_each_event() {
    let mut s = StatsObserver::new();
    let t = ticket(Category::Network);
    s.on_ticket_created(&t);
    s.on_ticket_created(&t);
    s.on_ticket_assigned(&t, "Ana");
    s.on_ticket_resolved(&t);
    assert_eq!(s.created_count, 2);
    assert_eq!(s.assigned_count, 1);
    assert_eq!(s.resolved_count, 1);
}

#[test]
fn stats_observer_holds_at_max() {
    let mut s = StatsObserver::new();
    s.created_count = u32::MAX;
    s.on_ticket_created(&ticket(Category::Network));
    assert_eq!(s.created_count, u32::MAX);
}
