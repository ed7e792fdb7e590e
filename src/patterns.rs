use vstd::prelude::*;
use crate::models::{Category, Technician, Ticket};

verus! {

/// Technician `i` of the pool is eligible and its id lies above `floor`.
pub open spec fn eligible_above(pool: Seq<Technician>, i: int, floor: int) -> bool {
    &&& 0 <= i < pool.len()
    &&& pool[i].eligible()
    &&& pool[i].id > floor
}

/// `id` is the least id among eligible technicians above `floor`.
pub open spec fn least_eligible_above(pool: Seq<Technician>, floor: int, id: u32) -> bool {
    &&& exists|i: int| eligible_above(pool, i, floor) && pool[i].id == id
    &&& forall|j: int| eligible_above(pool, j, floor) ==> id <= pool[j].id
}

/// Technician `i` of the pool is eligible and has the given specialty.
pub open spec fn matches_specialty(pool: Seq<Technician>, i: int, category: Category) -> bool {
    &&& 0 <= i < pool.len()
    &&& pool[i].eligible()
    &&& pool[i].specialty == category
}

/// The first eligible technician of the pool, in pool order, with the given
/// specialty.
pub open spec fn first_specialist(pool: Seq<Technician>, category: Category) -> Option<u32> {
    if exists|i: int| matches_specialty(pool, i, category) {
        let i = choose|i: int|
            matches_specialty(pool, i, category) && forall|j: int| 0 <= j < i ==> !matches_specialty(pool, j, category);
        Some(pool[i].id)
    } else {
        None
    }
}

/// The least id among eligible technicians above `floor`, if any.
pub open spec fn least_eligible(pool: Seq<Technician>, floor: int) -> Option<u32> {
    if exists|i: int| eligible_above(pool, i, floor) {
        Some(choose|id: u32| least_eligible_above(pool, floor, id))
    } else {
        None
    }
}

/// Round-robin pick after cursor `last`: the least eligible id above it, else
/// the least eligible id overall.
pub open spec fn round_robin_choice(pool: Seq<Technician>, last: u32) -> Option<u32> {
    match least_eligible(pool, last as int) {
        Some(id) => Some(id),
        None => least_eligible(pool, -1),
    }
}

/// The least eligible id above a floor is the one `least_eligible` names.
pub proof fn lemma_least_eligible(pool: Seq<Technician>, floor: int, id: u32)
    requires
        least_eligible_above(pool, floor, id),
    ensures
        least_eligible(pool, floor) == Some(id),
{
    let c = choose|c: u32| least_eligible_above(pool, floor, c);
    assert(least_eligible_above(pool, floor, c));
    let i = choose|i: int| eligible_above(pool, i, floor) && pool[i].id == id;
    let k = choose|k: int| eligible_above(pool, k, floor) && pool[k].id == c;
    assert(c <= pool[i].id);
    assert(id <= pool[k].id);
}

/// A policy that picks a technician for a ticket, or declines.
pub trait AssignmentStrategy {
    /// What the strategy, in its present state, picks for `ticket` from
    /// `technicians`.
    spec fn choice(&self, ticket: Ticket, technicians: Seq<Technician>) -> Option<u32>;

    /// `next` is what the strategy becomes after picking for `ticket` from
    /// `technicians`.
    spec fn advances_to(&self, next: &Self, ticket: Ticket, technicians: Seq<Technician>) -> bool;

    /// Picks an eligible technician of `technicians` for `ticket`, by id.
    fn assign_technician(&mut self, ticket: &Ticket, technicians: &Vec<Technician>) -> (r: Option<u32>)
        ensures
            r == old(self).choice(*ticket, technicians@),
            old(self).advances_to(final(self), *ticket, technicians@),
            r matches Some(id) ==> exists|i: int|
                0 <= i < technicians@.len() && technicians@[i].id == id && technicians@[i].eligible(),
    ;
}

/// Picks the first eligible technician, in pool order, whose specialty is the
/// ticket's category.
pub struct BySpecialty;

impl AssignmentStrategy for BySpecialty {
    open spec fn choice(&self, ticket: Ticket, technicians: Seq<Technician>) -> Option<u32> {
        first_specialist(technicians, ticket.category)
    }

    open spec fn advances_to(&self, next: &Self, ticket: Ticket, technicians: Seq<Technician>) -> bool {
        true
    }

    fn assign_technician(&mut self, ticket: &Ticket, technicians: &Vec<Technician>) -> (r: Option<u32>)
        ensures
            r is None <==> forall|i: int| !matches_specialty(technicians@, i, ticket.category),
            r matches Some(id) ==> exists|i: int|
                matches_specialty(technicians@, i, ticket.category) && technicians@[i].id == id
                    && forall|j: int| 0 <= j < i ==> !matches_specialty(technicians@, j, ticket.category),
    {
        let mut i: usize = 0;
        while i < technicians.len()
            invariant
                i <= technicians@.len(),
                forall|j: int| 0 <= j < i ==> !matches_specialty(technicians@, j, ticket.category),
            decreases technicians@.len() - i,
        {
            let t = &technicians[i];
            if t.specialty == ticket.category && t.can_accept_ticket() {
                proof {
                    let pool = technicians@;
                    let c = ticket.category;
                    assert(matches_specialty(pool, i as int, c));
                    let f = choose|f: int| matches_specialty(pool, f, c) && forall|j: int| 0 <= j < f ==> !matches_specialty(pool, j, c);
                    assert(matches_specialty(pool, f, c) && forall|j: int| 0 <= j < f ==> !matches_specialty(pool, j, c));
                    if f < i {
                        assert(!matches_specialty(pool, f, c));
                    } else if f > i {
                        assert(!matches_specialty(pool, i as int, c));
                    }
                }
                return Some(t.id);
            }
            i = i + 1;
        }
        None
    }
}

/// Cycles through eligible technicians in ascending id order, remembering the
/// last id it handed out; ignores the ticket's category.
pub struct RoundRobin {
    pub last_id: u32,
}

impl RoundRobin {
    pub fn new() -> (r: Self)
        ensures
            r.last_id == 0,
    {
        RoundRobin { last_id: 0 }
    }
}

impl AssignmentStrategy for RoundRobin {
    open spec fn choice(&self, ticket: Ticket, technicians: Seq<Technician>) -> Option<u32> {
        round_robin_choice(technicians, self.last_id)
    }

    open spec fn advances_to(&self, next: &Self, ticket: Ticket, technicians: Seq<Technician>) -> bool {
        next.last_id == match round_robin_choice(technicians, self.last_id) {
            Some(id) => id,
            None => self.last_id,
        }
    }

    fn assign_technician(&mut self, ticket: &Ticket, technicians: &Vec<Technician>) -> (r: Option<u32>)
        ensures
            (exists|i: int| eligible_above(technicians@, i, old(self).last_id as int))
                ==> (r matches Some(id) && least_eligible_above(technicians@, old(self).last_id as int, id)),
            !(exists|i: int| eligible_above(technicians@, i, old(self).last_id as int))
                ==> (r is None <==> forall|i: int| !#[trigger] eligible_above(technicians@, i, -1)),
            !(exists|i: int| eligible_above(technicians@, i, old(self).last_id as int)) && r is Some
                ==> least_eligible_above(technicians@, -1, r->0),
            final(self).last_id == match r {
                Some(id) => id,
                None => old(self).last_id,
            },
    {
        let last = self.last_id;
        let mut above: Option<u32> = None;
        let mut lowest: Option<u32> = None;
        let mut i: usize = 0;
        while i < technicians.len()
            invariant
                i <= technicians@.len(),
                last == old(self).last_id,
                above is None <==> forall|j: int| 0 <= j < i ==> !eligible_above(technicians@, j, last as int),
                above matches Some(b) ==> (exists|k: int| 0 <= k < i && eligible_above(technicians@, k, last as int) && technicians@[k].id == b)
                    && forall|j: int| 0 <= j < i && eligible_above(technicians@, j, last as int) ==> b <= technicians@[j].id,
                lowest is None <==> forall|j: int| 0 <= j < i ==> !#[trigger] eligible_above(technicians@, j, -1),
                lowest matches Some(b) ==> (exists|k: int| 0 <= k < i && #[trigger] eligible_above(technicians@, k, -1) && technicians@[k].id == b)
                    && forall|j: int| 0 <= j < i && #[trigger] eligible_above(technicians@, j, -1) ==> b <= technicians@[j].id,
            decreases technicians@.len() - i,
        {
            let t = &technicians[i];
            proof {
                assert(eligible_above(technicians@, i as int, -1) == t.eligible());
                assert(eligible_above(technicians@, i as int, last as int) == (t.eligible() && t.id > last));
            }
            if t.can_accept_ticket() {
                match lowest {
                    Some(b) if b <= t.id => {},
                    _ => { lowest = Some(t.id); },
                }
                if t.id > last {
                    match above {
                        Some(b) if b <= t.id => {},
                        _ => { above = Some(t.id); },
                    }
                }
            }
            i = i + 1;
        }
        proof {
            let pool = technicians@;
            match above {
                Some(b) => {
                    lemma_least_eligible(pool, last as int, b);
                },
                None => {},
            }
            match lowest {
                Some(b) => {
                    lemma_least_eligible(pool, -1, b);
                },
                None => {},
            }
        }
        let pick = match above {
            Some(b) => Some(b),
            None => lowest,
        };
        if let Some(id) = pick {
            self.last_id = id;
        }
        pick
    }
}

/// Listener told of ticket creation, assignment and resolution.
pub trait TicketObserver {
    fn on_ticket_created(&mut self, ticket: &Ticket);

    fn on_ticket_assigned(&mut self, ticket: &Ticket, tech_name: &str);

    fn on_ticket_resolved(&mut self, ticket: &Ticket);
}

/// Counts the events it is told of; each count stops at `u32::MAX`.
pub struct StatsObserver {
    pub created_count: u32,
    pub assigned_count: u32,
    pub resolved_count: u32,
}

/// `n + 1`, held at `u32::MAX`.
pub open spec fn bumped(n: u32) -> u32 {
    if n < u32::MAX { (n + 1) as u32 } else { n }
}

impl StatsObserver {
    pub fn new() -> (r: Self)
        ensures
            r.created_count == 0,
            r.assigned_count == 0,
            r.resolved_count == 0,
    {
        StatsObserver { created_count: 0, assigned_count: 0, resolved_count: 0 }
    }
}

impl TicketObserver for StatsObserver {
    fn on_ticket_created(&mut self, ticket: &Ticket)
        ensures
            final(self).created_count == bumped(old(self).created_count),
            final(self).assigned_count == old(self).assigned_count,
            final(self).resolved_count == old(self).resolved_count,
    {
        self.created_count = self.created_count.saturating_add(1);
    }

    fn on_ticket_assigned(&mut self, ticket: &Ticket, tech_name: &str)
        ensures
            final(self).created_count == old(self).created_count,
            final(self).assigned_count == bumped(old(self).assigned_count),
            final(self).resolved_count == old(self).resolved_count,
    {
        self.assigned_count = self.assigned_count.saturating_add(1);
    }

    fn on_ticket_resolved(&mut self, ticket: &Ticket)
        ensures
            final(self).created_count == old(self).created_count,
            final(self).assigned_count == old(self).assigned_count,
            final(self).resolved_count == bumped(old(self).resolved_count),
    {
        self.resolved_count = self.resolved_count.saturating_add(1);
    }
}

} // verus!
