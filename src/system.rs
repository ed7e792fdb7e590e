use vstd::prelude::*;
use std::collections::VecDeque;
use crate::models::{Category, Client, State, Technician, Ticket, now_seconds};
use crate::patterns::{AssignmentStrategy, TicketObserver};

verus! {

/// Why an operation of the ticket system was refused.
#[derive(Clone, Copy, PartialEq, Eq, Structural, Debug)]
pub enum TicketError {
    /// No client is registered under this id.
    ClientNotFound(u32),
    /// No ticket has this id.
    TicketNotFound(u32),
    /// The requested state change is not a legal transition.
    InvalidTransition { from: State, to: State },
}

/// A snapshot of the system's counts.
#[derive(Clone, Copy, PartialEq, Eq, Structural, Debug)]
pub struct Statistics {
    pub total_tickets: usize,
    pub pending_tickets: usize,
    pub in_progress_tickets: usize,
    pub resolved_tickets: usize,
    pub available_technicians: usize,
}

/// Number of tickets of `s` in state `st`.
pub open spec fn count_in_state(s: Seq<Ticket>, st: State) -> nat
    decreases s.len(),
{
    if s.len() == 0 {
        0
    } else {
        count_in_state(s.drop_last(), st) + if s.last().state == st { 1nat } else { 0nat }
    }
}

/// Number of technicians of `s` marked available.
pub open spec fn count_available(s: Seq<Technician>) -> nat
    decreases s.len(),
{
    if s.len() == 0 {
        0
    } else {
        count_available(s.drop_last()) + if s.last().is_available { 1nat } else { 0nat }
    }
}

/// Technician ids strictly ascend along the sequence.
pub open spec fn ids_ascending(s: Seq<Technician>) -> bool {
    forall|a: int, b: int| 0 <= a < b < s.len() ==> s[a].id < s[b].id
}

/// Client ids are pairwise distinct.
pub open spec fn client_ids_unique(s: Seq<Client>) -> bool {
    forall|a: int, b: int| 0 <= a < b < s.len() ==> s[a].id != s[b].id
}

/// The ticket stored at index `i` carries id `i + 1` and is internally consistent.
pub open spec fn ticket_in_place(t: Ticket, i: int) -> bool {
    &&& t.id == i + 1
    &&& t.is_consistent()
    &&& (t.state == State::New <==> t.technician_id is None)
}

/// `t` now holds ticket `ticket_id` and is no longer available.
pub open spec fn holding(t: Technician, ticket_id: u32) -> Technician {
    Technician {
        id: t.id,
        name: t.name,
        specialty: t.specialty,
        assigned_ticket_id: Some(ticket_id),
        is_available: false,
    }
}

/// `t` holds no ticket and is available.
pub open spec fn released(t: Technician) -> Technician {
    Technician {
        id: t.id,
        name: t.name,
        specialty: t.specialty,
        assigned_ticket_id: None,
        is_available: true,
    }
}

/// Every technician with id `tech_id` now holds ticket `ticket_id`.
pub open spec fn give_ticket(s: Seq<Technician>, tech_id: u32, ticket_id: u32) -> Seq<Technician> {
    s.map_values(|t: Technician| if t.id == tech_id { holding(t, ticket_id) } else { t })
}

/// Every technician with id `tech_id` is freed.
pub open spec fn release_technician(s: Seq<Technician>, tech_id: u32) -> Seq<Technician> {
    s.map_values(|t: Technician| if t.id == tech_id { released(t) } else { t })
}

/// `t` assigned to technician `tech_id`.
pub open spec fn assigned_ticket(t: Ticket, tech_id: u32) -> Ticket {
    Ticket {
        id: t.id,
        description: t.description,
        category: t.category,
        state: State::Assigned,
        client_id: t.client_id,
        technician_id: Some(tech_id),
        created_at: t.created_at,
        resolved_at: t.resolved_at,
    }
}

/// `t` moved to state `to`, stamped with `now` when `to` is Resolved.
pub open spec fn moved_ticket(t: Ticket, to: State, now: u64) -> Ticket {
    Ticket {
        id: t.id,
        description: t.description,
        category: t.category,
        state: to,
        client_id: t.client_id,
        technician_id: t.technician_id,
        created_at: t.created_at,
        resolved_at: if to == State::Resolved { Some(now) } else { t.resolved_at },
    }
}

/// The abstract contents of a ticket system.
pub struct SystemModel {
    /// All tickets; the one with id `k` sits at index `k - 1`.
    pub tickets: Seq<Ticket>,
    pub technicians: Seq<Technician>,
    pub clients: Seq<Client>,
    /// Ids of tickets awaiting assignment, oldest first.
    pub pending: Seq<u32>,
    pub next_ticket_id: u32,
}


impl SystemModel {
    pub open spec fn has_client(self, id: u32) -> bool {
        exists|i: int| 0 <= i < self.clients.len() && self.clients[i].id == id
    }

    pub open spec fn has_technician(self, id: u32) -> bool {
        exists|i: int| 0 <= i < self.technicians.len() && self.technicians[i].id == id
    }

    pub open spec fn has_eligible_technician(self, id: u32) -> bool {
        exists|i: int|
            0 <= i < self.technicians.len() && self.technicians[i].id == id
                && self.technicians[i].eligible()
    }

    pub open spec fn has_ticket(self, id: u32) -> bool {
        1 <= id <= self.tickets.len()
    }

    pub open spec fn ticket(self, id: u32) -> Ticket {
        self.tickets[id - 1]
    }

    /// A technician holding a ticket is the one that ticket names, and the
    /// ticket is Assigned or InProgress. The converse is not kept: registering
    /// a technician under an id in use replaces it, and a ticket that named
    /// the old record keeps its technician id.
    pub open spec fn holds_linked_ticket(self, t: Technician) -> bool {
        t.assigned_ticket_id matches Some(k) ==> {
            &&& self.has_ticket(k)
            &&& self.ticket(k).technician_id == Some(t.id)
            &&& (self.ticket(k).state == State::Assigned || self.ticket(k).state == State::InProgress)
        }
    }

    /// The invariant that every operation keeps.
    pub open spec fn wf(self) -> bool {
        &&& self.next_ticket_id == self.tickets.len() + 1
        &&& forall|i: int| 0 <= i < self.tickets.len() ==> ticket_in_place(#[trigger] self.tickets[i], i)
        &&& ids_ascending(self.technicians)
        &&& forall|i: int| 0 <= i < self.technicians.len() ==> (#[trigger] self.technicians[i]).is_consistent()
        &&& forall|i: int| 0 <= i < self.technicians.len() ==> self.holds_linked_ticket(#[trigger] self.technicians[i])
        &&& client_ids_unique(self.clients)
        &&& forall|k: int| 0 <= k < self.pending.len() ==> {
            &&& self.has_ticket(#[trigger] self.pending[k])
            &&& self.ticket(self.pending[k]).state == State::New
        }
        &&& forall|a: int, b: int| 0 <= a < b < self.pending.len() ==> self.pending[a] < self.pending[b]
    }

    /// The head of the queue, `ticket_id`, handed to technician `tech_id`.
    pub open spec fn after_assignment(self, ticket_id: u32, tech_id: u32) -> SystemModel {
        SystemModel {
            tickets: self.tickets.update(ticket_id - 1, assigned_ticket(self.ticket(ticket_id), tech_id)),
            technicians: give_ticket(self.technicians, tech_id, ticket_id),
            pending: self.pending.drop_first(),
            ..self
        }
    }

    /// Ticket `ticket_id` moved to state `to` at time `now`; entering Resolved
    /// frees its technician.
    pub open spec fn after_transition(self, ticket_id: u32, to: State, now: u64) -> SystemModel {
        let t = self.ticket(ticket_id);
        SystemModel {
            tickets: self.tickets.update(ticket_id - 1, moved_ticket(t, to, now)),
            technicians: if to == State::Resolved && t.technician_id is Some {
                release_technician(self.technicians, t.technician_id->0)
            } else {
                self.technicians
            },
            ..self
        }
    }

    pub open spec fn statistics(self) -> Statistics {
        Statistics {
            total_tickets: self.tickets.len() as usize,
            pending_tickets: self.pending.len() as usize,
            in_progress_tickets: count_in_state(self.tickets, State::InProgress) as usize,
            resolved_tickets: count_in_state(self.tickets, State::Resolved) as usize,
            available_technicians: count_available(self.technicians) as usize,
        }
    }
}

/// Every state that `TicketSystem::new` and the operations reach satisfies
/// `wf`; in such a state each technician is available exactly when it holds
/// no ticket.
pub proof fn technician_availability_matches_assignment(m: SystemModel)
    requires
        m.wf(),
    ensures
        forall|i: int| 0 <= i < m.technicians.len()
            ==> (#[trigger] m.technicians[i]).is_available == (m.technicians[i].assigned_ticket_id is None),
{
    assert forall|i: int| 0 <= i < m.technicians.len()
        implies (#[trigger] m.technicians[i]).is_available == (m.technicians[i].assigned_ticket_id is None) by {
        assert(m.technicians[i].is_consistent());
    }
}

/// In every reachable state a ticket has a resolution time exactly when it
/// is Resolved or Closed.
pub proof fn resolution_time_matches_state(m: SystemModel)
    requires
        m.wf(),
    ensures
        forall|i: int| 0 <= i < m.tickets.len() ==> ((#[trigger] m.tickets[i]).resolved_at is Some
            <==> (m.tickets[i].state == State::Resolved || m.tickets[i].state == State::Closed)),
{
    assert forall|i: int| 0 <= i < m.tickets.len() implies ((#[trigger] m.tickets[i]).resolved_at is Some
        <==> (m.tickets[i].state == State::Resolved || m.tickets[i].state == State::Closed)) by {
        assert(ticket_in_place(m.tickets[i], i));
    }
}

/// In every reachable state a technician holding a ticket is the technician
/// that ticket names, and that ticket is Assigned or InProgress.
pub proof fn held_tickets_point_back(m: SystemModel)
    requires
        m.wf(),
    ensures
        forall|i: int| 0 <= i < m.technicians.len() && (#[trigger] m.technicians[i]).assigned_ticket_id is Some
            ==> {
                let k = m.technicians[i].assigned_ticket_id->0;
                &&& m.has_ticket(k)
                &&& m.ticket(k).technician_id == Some(m.technicians[i].id)
                &&& (m.ticket(k).state == State::Assigned || m.ticket(k).state == State::InProgress)
            },
{
    assert forall|i: int| 0 <= i < m.technicians.len() && (#[trigger] m.technicians[i]).assigned_ticket_id is Some
        implies {
            let k = m.technicians[i].assigned_ticket_id->0;
            &&& m.has_ticket(k)
            &&& m.ticket(k).technician_id == Some(m.technicians[i].id)
            &&& (m.ticket(k).state == State::Assigned || m.ticket(k).state == State::InProgress)
        } by {
        assert(m.holds_linked_ticket(m.technicians[i]));
    }
}

/// Two readings of the statistics of the same contents agree: the counts are
/// recomputed from the contents, not carried over from earlier events.
pub proof fn statistics_are_repeatable(m: SystemModel, first: Statistics, second: Statistics)
    requires
        first == m.statistics(),
        second == m.statistics(),
    ensures
        first == second,
{
}

/// Owns clients, technicians, tickets, the queue of pending tickets and the
/// registered observers.
pub struct TicketSystem {
    tickets: Vec<Ticket>,
    technicians: Vec<Technician>,
    clients: Vec<Client>,
    pending_queue: VecDeque<u32>,
    next_ticket_id: u32,
    observers: Vec<Box<dyn TicketObserver>>,
}

impl View for TicketSystem {
    type V = SystemModel;

    closed spec fn view(&self) -> SystemModel {
        SystemModel {
            tickets: self.tickets@,
            technicians: self.technicians@,
            clients: self.clients@,
            pending: self.pending_queue@,
            next_ticket_id: self.next_ticket_id,
        }
    }
}

fn find_technician(techs: &Vec<Technician>, id: u32) -> (r: Option<usize>)
    ensures
        r matches Some(k) ==> k < techs@.len() && techs@[k as int].id == id,
        r is None ==> forall|i: int| 0 <= i < techs@.len() ==> techs@[i].id != id,
{
    let mut i: usize = 0;
    while i < techs.len()
        invariant
            i <= techs@.len(),
            forall|j: int| 0 <= j < i ==> techs@[j].id != id,
        decreases techs@.len() - i,
    {
        if techs[i].id == id {
            return Some(i);
        }
        i = i + 1;
    }
    None
}

fn find_client(clients: &Vec<Client>, id: u32) -> (r: Option<usize>)
    ensures
        r matches Some(k) ==> k < clients@.len() && clients@[k as int].id == id,
        r is None ==> forall|i: int| 0 <= i < clients@.len() ==> clients@[i].id != id,
{
    let mut i: usize = 0;
    while i < clients.len()
        invariant
            i <= clients@.len(),
            forall|j: int| 0 <= j < i ==> clients@[j].id != id,
        decreases clients@.len() - i,
    {
        if clients[i].id == id {
            return Some(i);
        }
        i = i + 1;
    }
    None
}

fn notify_created(observers: &mut Vec<Box<dyn TicketObserver>>, ticket: &Ticket)
    ensures
        final(observers)@.len() == old(observers)@.len(),
{
    let mut i: usize = 0;
    while i < observers.len()
        invariant
            i <= observers@.len(),
            observers@.len() == old(observers)@.len(),
        decreases observers@.len() - i,
    {
        observers[i].on_ticket_created(ticket);
        i = i + 1;
    }
}

fn notify_assigned(observers: &mut Vec<Box<dyn TicketObserver>>, ticket: &Ticket, tech_name: &str)
    ensures
        final(observers)@.len() == old(observers)@.len(),
{
    let mut i: usize = 0;
    while i < observers.len()
        invariant
            i <= observers@.len(),
            observers@.len() == old(observers)@.len(),
        decreases observers@.len() - i,
    {
        observers[i].on_ticket_assigned(ticket, tech_name);
        i = i + 1;
    }
}

fn notify_resolved(observers: &mut Vec<Box<dyn TicketObserver>>, ticket: &Ticket)
    ensures
        final(observers)@.len() == old(observers)@.len(),
{
    let mut i: usize = 0;
    while i < observers.len()
        invariant
            i <= observers@.len(),
            observers@.len() == old(observers)@.len(),
        decreases observers@.len() - i,
    {
        observers[i].on_ticket_resolved(ticket);
        i = i + 1;
    }
}

impl TicketSystem {
    /// The registered observers, in registration order.
    pub closed spec fn observers(&self) -> Seq<Box<dyn TicketObserver>> {
        self.observers@
    }

    pub fn new() -> (r: Self)
        ensures
            r@.wf(),
            r.observers() == Seq::<Box<dyn TicketObserver>>::empty(),
            r@.tickets.len() == 0,
            r@.technicians.len() == 0,
            r@.clients.len() == 0,
            r@.pending.len() == 0,
            r@.next_ticket_id == 1,
    {
        TicketSystem {
            tickets: Vec::new(),
            technicians: Vec::new(),
            clients: Vec::new(),
            pending_queue: VecDeque::new(),
            next_ticket_id: 1,
            observers: Vec::new(),
        }
    }

    /// The id the next created ticket will get.
    pub fn next_ticket_id(&self) -> (r: u32)
        ensures
            r == self@.next_ticket_id,
    {
        self.next_ticket_id
    }

    /// Registers a technician; one already registered under the same id is
    /// replaced. Technicians are kept in ascending id order.
    pub fn add_technician(&mut self, tech: Technician)
        requires
            old(self)@.wf(),
            tech.is_consistent(),
            old(self)@.holds_linked_ticket(tech),
        ensures
            final(self)@.wf(),
            final(self)@ == (SystemModel { technicians: final(self)@.technicians, ..old(self)@ }),
            final(self).observers() == old(self).observers(),
            old(self)@.has_technician(tech.id) ==> exists|k: int|
                0 <= k < old(self)@.technicians.len() && old(self)@.technicians[k].id == tech.id
                    && final(self)@.technicians == old(self)@.technicians.update(k, tech),
            !old(self)@.has_technician(tech.id) ==> exists|k: int|
                0 <= k <= old(self)@.technicians.len()
                    && final(self)@.technicians == old(self)@.technicians.insert(k, tech)
                    && (forall|j: int| 0 <= j < k ==> old(self)@.technicians[j].id < tech.id)
                    && (forall|j: int| k <= j < old(self)@.technicians.len() ==> old(self)@.technicians[j].id > tech.id),
    {
        let ghost before = self.technicians@;
        match find_technician(&self.technicians, tech.id) {
            Some(k) => {
                self.technicians[k] = tech;
                proof {
                    let after = self.technicians@;
                    assert forall|a: int, b: int| 0 <= a < b < after.len() implies after[a].id < after[b].id by {
                        assert(before[a].id < before[b].id);
                    }
                    assert(after == before.update(k as int, tech));
                }
            },
            None => {
                let mut p: usize = 0;
                while p < self.technicians.len() && self.technicians[p].id < tech.id
                    invariant
                        self.technicians@ == before,
                        p <= before.len(),
                        forall|j: int| 0 <= j < p ==> before[j].id < tech.id,
                    decreases before.len() - p,
                {
                    p = p + 1;
                }
                let ghost tid = tech.id;
                let ghost t0 = tech;
                self.technicians.insert(p, tech);
                proof {
                    let after = self.technicians@;
                    assert(forall|j: int| p <= j < before.len() ==> before[j].id > tid) by {
                        if p < before.len() {
                            assert(before[p as int].id != tid);
                            assert forall|j: int| p <= j < before.len() implies before[j].id > tid by {
                                if j > p {
                                    assert(before[p as int].id < before[j].id);
                                }
                            }
                        }
                    }
                    assert forall|a: int| 0 <= a < after.len() implies #[trigger] after[a] == (if a < p {
                        before[a]
                    } else if a == p {
                        t0
                    } else {
                        before[a - 1]
                    }) by {}
                    assert forall|a: int, b: int| 0 <= a < b < after.len() implies after[a].id < after[b].id by {
                        assert(after[a] == (if a < p { before[a] } else if a == p { t0 } else { before[a - 1] }));
                        assert(after[b] == (if b < p { before[b] } else if b == p { t0 } else { before[b - 1] }));
                        if b < p {
                            assert(before[a].id < before[b].id);
                        } else if a > p {
                            assert(before[a - 1].id < before[b - 1].id);
                        }
                    }
                    assert forall|i: int| 0 <= i < after.len() implies (#[trigger] after[i]).is_consistent() by {
                        assert(after[i] == (if i < p { before[i] } else if i == p { t0 } else { before[i - 1] }));
                        if i < p {
                            assert(before[i].is_consistent());
                        } else if i > p {
                            assert(before[i - 1].is_consistent());
                        }
                    }
                }
            },
        }
    }

    /// Registers a client; one already registered under the same id is
    /// replaced.
    pub fn add_client(&mut self, client: Client)
        requires
            old(self)@.wf(),
        ensures
            final(self)@.wf(),
            final(self)@ == (SystemModel { clients: final(self)@.clients, ..old(self)@ }),
            final(self).observers() == old(self).observers(),
            old(self)@.has_client(client.id) ==> exists|k: int|
                0 <= k < old(self)@.clients.len() && old(self)@.clients[k].id == client.id
                    && final(self)@.clients == old(self)@.clients.update(k, client),
            !old(self)@.has_client(client.id) ==> final(self)@.clients == old(self)@.clients.push(client),
    {
        let ghost before = self.clients@;
        let ghost c0 = client;
        match find_client(&self.clients, client.id) {
            Some(k) => {
                self.clients[k] = client;
                proof {
                    let after = self.clients@;
                    assert(after == before.update(k as int, c0));
                    assert forall|a: int, b: int| 0 <= a < b < after.len() implies after[a].id != after[b].id by {
                        assert(before[a].id != before[b].id);
                    }
                }
            },
            None => {
                self.clients.push(client);
                proof {
                    let after = self.clients@;
                    assert forall|a: int, b: int| 0 <= a < b < after.len() implies after[a].id != after[b].id by {
                        if b < before.len() {
                            assert(before[a].id != before[b].id);
                        } else {
                            assert(after[a] == before[a]);
                        }
                    }
                }
            },
        }
    }

    /// Files a ticket for `client_id`, created at `now`, and queues it.
    pub fn create_ticket_at(
        &mut self,
        description: String,
        category: Category,
        client_id: u32,
        now: u64,
    ) -> (r: Result<u32, TicketError>)
        requires
            old(self)@.wf(),
            old(self)@.next_ticket_id < u32::MAX,
        ensures
            final(self)@.wf(),
            !old(self)@.has_client(client_id) ==> r == Err::<u32, TicketError>(TicketError::ClientNotFound(client_id))
                && final(self)@ == old(self)@ && final(self).observers() == old(self).observers(),
            final(self).observers().len() == old(self).observers().len(),
            old(self)@.has_client(client_id) ==> {
                let id = old(self)@.next_ticket_id;
                let t = final(self)@.tickets.last();
                &&& r == Ok::<u32, TicketError>(id)
                &&& t.is_fresh(id, description, category, client_id)
                &&& t.created_at == now
                &&& final(self)@ == (SystemModel {
                    tickets: old(self)@.tickets.push(t),
                    pending: old(self)@.pending.push(id),
                    next_ticket_id: (id + 1) as u32,
                    ..old(self)@
                })
            },
    {
        if find_client(&self.clients, client_id).is_none() {
            return Err(TicketError::ClientNotFound(client_id));
        }
        let id = self.next_ticket_id;
        self.next_ticket_id = id + 1;
        let ticket = Ticket::created_at_time(id, description, category, client_id, now);
        notify_created(&mut self.observers, &ticket);
        let ghost before = self@;
        self.tickets.push(ticket);
        self.pending_queue.push_back(id);
        proof {
            let after = self@;
            assert(after.tickets.last() == ticket);
            assert forall|i: int| 0 <= i < after.tickets.len() implies ticket_in_place(#[trigger] after.tickets[i], i) by {
                if i < before.tickets.len() {
                    assert(after.tickets[i] == before.tickets[i]);
                }
            }
            assert forall|k: int| 0 <= k < after.pending.len() implies {
                &&& after.has_ticket(#[trigger] after.pending[k])
                &&& after.ticket(after.pending[k]).state == State::New
            } by {
                if k < before.pending.len() {
                    assert(after.pending[k] == before.pending[k]);
                    assert(before.has_ticket(before.pending[k]));
                }
            }
            assert forall|a: int, b: int| 0 <= a < b < after.pending.len() implies after.pending[a] < after.pending[b] by {
                if b < before.pending.len() {
                    assert(before.pending[a] < before.pending[b]);
                } else {
                    assert(before.has_ticket(before.pending[a]));
                }
            }
        }
        Ok(id)
    }

    /// Files a ticket for `client_id`, stamped with the current time, and
    /// queues it.
    pub fn create_ticket(&mut self, description: String, category: Category, client_id: u32) -> (r: Result<u32, TicketError>)
        requires
            old(self)@.wf(),
            old(self)@.next_ticket_id < u32::MAX,
        ensures
            final(self)@.wf(),
            !old(self)@.has_client(client_id) ==> r == Err::<u32, TicketError>(TicketError::ClientNotFound(client_id))
                && final(self)@ == old(self)@ && final(self).observers() == old(self).observers(),
            final(self).observers().len() == old(self).observers().len(),
            old(self)@.has_client(client_id) ==> {
                let id = old(self)@.next_ticket_id;
                let t = final(self)@.tickets.last();
                &&& r == Ok::<u32, TicketError>(id)
                &&& t.is_fresh(id, description, category, client_id)
                &&& final(self)@ == (SystemModel {
                    tickets: old(self)@.tickets.push(t),
                    pending: old(self)@.pending.push(id),
                    next_ticket_id: (id + 1) as u32,
                    ..old(self)@
                })
            },
    {
        let now = now_seconds();
        self.create_ticket_at(description, category, client_id, now)
    }

    /// Hands the ticket at the head of the pending queue to technician
    /// `tech_id`, provided that technician is registered and eligible; returns
    /// the ticket's id, or `None` and changes nothing.
    pub fn assign_next_ticket_to(&mut self, tech_id: u32) -> (r: Option<u32>)
        requires
            old(self)@.wf(),
        ensures
            final(self)@.wf(),
            r is Some <==> old(self)@.pending.len() > 0 && old(self)@.has_eligible_technician(tech_id),
            r is None ==> final(self)@ == old(self)@ && final(self).observers() == old(self).observers(),
            r matches Some(h) ==> h == old(self)@.pending[0]
                && final(self)@ == old(self)@.after_assignment(h, tech_id),
            final(self).observers().len() == old(self).observers().len(),
    {
        if self.pending_queue.len() == 0 {
            return None;
        }
        let h = self.pending_queue[0];
        let k = match find_technician(&self.technicians, tech_id) {
            Some(k) => k,
            None => {
                return None;
            },
        };
        proof {
            assert forall|i: int| 0 <= i < self.technicians@.len() && self.technicians@[i].id == tech_id implies i == k by {
                if i < k {
                    assert(self.technicians@[i].id < self.technicians@[k as int].id);
                } else if i > k {
                    assert(self.technicians@[k as int].id < self.technicians@[i].id);
                }
            }
        }
        if !self.technicians[k].can_accept_ticket() {
            return None;
        }
        let ghost before = self@;
        proof {
            assert(before.has_ticket(before.pending[0]));
        }
        self.pending_queue.pop_front();
        let ti = (h - 1) as usize;
        self.tickets[ti].technician_id = Some(tech_id);
        self.tickets[ti].state = State::Assigned;
        self.technicians[k].assigned_ticket_id = Some(h);
        self.technicians[k].is_available = false;
        notify_assigned(&mut self.observers, &self.tickets[ti], self.technicians[k].name.as_str());
        proof {
            let after = self@;
            let t_old = before.ticket(h);
            assert(after.tickets =~= before.tickets.update(ti as int, assigned_ticket(t_old, tech_id)));
            assert forall|j: int| 0 <= j < after.technicians.len() implies #[trigger] after.technicians[j]
                == give_ticket(before.technicians, tech_id, h)[j] by {
                if j < k {
                    assert(before.technicians[j].id < before.technicians[k as int].id);
                } else if j > k {
                    assert(before.technicians[k as int].id < before.technicians[j].id);
                }
            }
            assert(after.technicians =~= give_ticket(before.technicians, tech_id, h));
            assert(after.pending =~= before.pending.drop_first());
            assert forall|i: int| 0 <= i < after.tickets.len() implies ticket_in_place(#[trigger] after.tickets[i], i) by {
                assert(ticket_in_place(before.tickets[i], i));
            }
            assert forall|i: int| 0 <= i < after.technicians.len() implies (#[trigger] after.technicians[i]).is_consistent() by {
                assert(before.technicians[i].is_consistent());
            }
            assert forall|q: int| 0 <= q < after.pending.len() implies {
                &&& after.has_ticket(#[trigger] after.pending[q])
                &&& after.ticket(after.pending[q]).state == State::New
            } by {
                assert(after.pending[q] == before.pending[q + 1]);
                assert(before.pending[0] < before.pending[q + 1]);
                assert(before.has_ticket(before.pending[q + 1]));
            }
            assert forall|a: int, b: int| 0 <= a < b < after.pending.len() implies after.pending[a] < after.pending[b] by {
                assert(before.pending[a + 1] < before.pending[b + 1]);
            }
            assert forall|a: int, b: int| 0 <= a < b < after.technicians.len() implies after.technicians[a].id < after.technicians[b].id by {
                assert(before.technicians[a].id < before.technicians[b].id);
            }
        }
        Some(h)
    }

    /// Offers the ticket at the head of the pending queue, still queued, with
    /// the whole technician pool to `strategy`. If it picks a technician, the
    /// ticket leaves the queue, becomes Assigned to that technician, and its id
    /// is returned; if it declines, nothing changes.
    pub fn assign_next_ticket<S: AssignmentStrategy>(&mut self, strategy: &mut S) -> (r: Option<u32>)
        requires
            old(self)@.wf(),
        ensures
            final(self)@.wf(),
            old(self)@.pending.len() == 0 ==> r is None && final(self)@ == old(self)@
                && final(self).observers() == old(self).observers() && *final(strategy) == *old(strategy),
            old(self)@.pending.len() > 0 ==> {
                let h = old(self)@.pending[0];
                let c = old(strategy).choice(old(self)@.ticket(h), old(self)@.technicians);
                &&& old(strategy).advances_to(final(strategy), old(self)@.ticket(h), old(self)@.technicians)
                &&& c is None ==> r is None && final(self)@ == old(self)@
                    && final(self).observers() == old(self).observers()
                &&& c matches Some(k) ==> (r == Some(h) && final(self)@ == old(self)@.after_assignment(h, k)
                    && final(self).observers().len() == old(self).observers().len())
            },
    {
        if self.pending_queue.len() == 0 {
            return None;
        }
        let h = self.pending_queue[0];
        proof {
            assert(self@.has_ticket(self@.pending[0]));
        }
        let ti = (h - 1) as usize;
        match strategy.assign_technician(&self.tickets[ti], &self.technicians) {
            Some(tech_id) => self.assign_next_ticket_to(tech_id),
            None => None,
        }
    }

    /// Moves ticket `ticket_id` to `new_state` at time `now`. Only
    /// Assigned to InProgress, InProgress to Resolved and Resolved to Closed
    /// are allowed; entering Resolved stamps the ticket with `now`, frees its
    /// technician and tells the observers.
    pub fn update_ticket_state_at(&mut self, ticket_id: u32, new_state: State, now: u64) -> (r: Result<(), TicketError>)
        requires
            old(self)@.wf(),
        ensures
            final(self)@.wf(),
            !old(self)@.has_ticket(ticket_id) ==> r == Err::<(), TicketError>(TicketError::TicketNotFound(ticket_id))
                && final(self)@ == old(self)@ && final(self).observers() == old(self).observers(),
            old(self)@.has_ticket(ticket_id) && !old(self)@.ticket(ticket_id).state.can_move_to(new_state)
                ==> r == Err::<(), TicketError>(TicketError::InvalidTransition {
                    from: old(self)@.ticket(ticket_id).state,
                    to: new_state,
                }) && final(self)@ == old(self)@ && final(self).observers() == old(self).observers(),
            final(self).observers().len() == old(self).observers().len(),
            old(self)@.has_ticket(ticket_id) && old(self)@.ticket(ticket_id).state.can_move_to(new_state)
                ==> r is Ok && final(self)@ == old(self)@.after_transition(ticket_id, new_state, now),
    {
        if ticket_id == 0 || ticket_id as usize > self.tickets.len() {
            return Err(TicketError::TicketNotFound(ticket_id));
        }
        let ti = (ticket_id - 1) as usize;
        let from = self.tickets[ti].state;
        let legal = match (from, new_state) {
            (State::Assigned, State::InProgress) => true,
            (State::InProgress, State::Resolved) => true,
            (State::Resolved, State::Closed) => true,
            _ => false,
        };
        if !legal {
            return Err(TicketError::InvalidTransition { from, to: new_state });
        }
        let ghost before = self@;
        proof {
            assert(ticket_in_place(before.tickets[ti as int], ti as int));
        }
        self.tickets[ti].state = new_state;
        if new_state == State::Resolved {
            self.tickets[ti].resolved_at = Some(now);
            if let Some(tid) = self.tickets[ti].technician_id {
                match find_technician(&self.technicians, tid) {
                    Some(k) => {
                        self.technicians[k].assigned_ticket_id = None;
                        self.technicians[k].is_available = true;
                        proof {
                            let ts = self.technicians@;
                            assert forall|j: int| 0 <= j < ts.len() implies #[trigger] ts[j]
                                == release_technician(before.technicians, tid)[j] by {
                                if j < k {
                                    assert(before.technicians[j].id < before.technicians[k as int].id);
                                } else if j > k {
                                    assert(before.technicians[k as int].id < before.technicians[j].id);
                                }
                            }
                            assert(ts =~= release_technician(before.technicians, tid));
                        }
                    },
                    None => {
                        assert(self.technicians@ =~= release_technician(before.technicians, tid));
                    },
                }
            }
            notify_resolved(&mut self.observers, &self.tickets[ti]);
        }
        proof {
            let after = self@;
            assert(after.tickets =~= before.tickets.update(ti as int, moved_ticket(before.ticket(ticket_id), new_state, now)));
            assert(after == before.after_transition(ticket_id, new_state, now));
            assert forall|i: int| 0 <= i < after.tickets.len() implies ticket_in_place(#[trigger] after.tickets[i], i) by {
                assert(ticket_in_place(before.tickets[i], i));
            }
            assert forall|i: int| 0 <= i < after.technicians.len() implies (#[trigger] after.technicians[i]).is_consistent() by {
                assert(before.technicians[i].is_consistent());
            }
            assert forall|q: int| 0 <= q < after.pending.len() implies {
                &&& after.has_ticket(#[trigger] after.pending[q])
                &&& after.ticket(after.pending[q]).state == State::New
            } by {
                assert(before.has_ticket(before.pending[q]));
            }
            assert forall|a: int, b: int| 0 <= a < b < after.technicians.len() implies after.technicians[a].id < after.technicians[b].id by {
                assert(before.technicians[a].id < before.technicians[b].id);
            }
        }
        Ok(())
    }

    /// Moves ticket `ticket_id` to `new_state`, stamping a resolution with the
    /// current time.
    pub fn update_ticket_state(&mut self, ticket_id: u32, new_state: State) -> (r: Result<(), TicketError>)
        requires
            old(self)@.wf(),
        ensures
            final(self)@.wf(),
            !old(self)@.has_ticket(ticket_id) ==> r == Err::<(), TicketError>(TicketError::TicketNotFound(ticket_id))
                && final(self)@ == old(self)@ && final(self).observers() == old(self).observers(),
            old(self)@.has_ticket(ticket_id) && !old(self)@.ticket(ticket_id).state.can_move_to(new_state)
                ==> r == Err::<(), TicketError>(TicketError::InvalidTransition {
                    from: old(self)@.ticket(ticket_id).state,
                    to: new_state,
                }) && final(self)@ == old(self)@ && final(self).observers() == old(self).observers(),
            final(self).observers().len() == old(self).observers().len(),
            old(self)@.has_ticket(ticket_id) && old(self)@.ticket(ticket_id).state.can_move_to(new_state)
                ==> r is Ok && exists|now: u64| final(self)@ == old(self)@.after_transition(ticket_id, new_state, now),
    {
        let now = now_seconds();
        self.update_ticket_state_at(ticket_id, new_state, now)
    }

    /// Counts computed from the current contents.
    pub fn get_statistics(&self) -> (r: Statistics)
        ensures
            r == self@.statistics(),
    {
        let ghost ts = self.tickets@;
        let mut in_progress: usize = 0;
        let mut resolved: usize = 0;
        let mut i: usize = 0;
        while i < self.tickets.len()
            invariant
                ts == self.tickets@,
                i <= ts.len(),
                in_progress <= i,
                resolved <= i,
                in_progress as nat == count_in_state(ts.subrange(0, i as int), State::InProgress),
                resolved as nat == count_in_state(ts.subrange(0, i as int), State::Resolved),
            decreases ts.len() - i,
        {
            proof {
                assert(ts.subrange(0, i + 1).drop_last() =~= ts.subrange(0, i as int));
            }
            if self.tickets[i].state == State::InProgress {
                in_progress = in_progress + 1;
            }
            if self.tickets[i].state == State::Resolved {
                resolved = resolved + 1;
            }
            i = i + 1;
        }
        proof {
            assert(ts.subrange(0, ts.len() as int) =~= ts);
        }
        let ghost ps = self.technicians@;
        let mut available: usize = 0;
        let mut j: usize = 0;
        while j < self.technicians.len()
            invariant
                ps == self.technicians@,
                j <= ps.len(),
                available <= j,
                available as nat == count_available(ps.subrange(0, j as int)),
            decreases ps.len() - j,
        {
            proof {
                assert(ps.subrange(0, j + 1).drop_last() =~= ps.subrange(0, j as int));
            }
            if self.technicians[j].is_available {
                available = available + 1;
            }
            j = j + 1;
        }
        proof {
            assert(ps.subrange(0, ps.len() as int) =~= ps);
        }
        Statistics {
            total_tickets: self.tickets.len(),
            pending_tickets: self.pending_queue.len(),
            in_progress_tickets: in_progress,
            resolved_tickets: resolved,
            available_technicians: available,
        }
    }

    /// The name of the technician registered under `id`.
    pub fn get_technician_name(&self, id: u32) -> (r: Option<String>)
        ensures
            r is None <==> !self@.has_technician(id),
            r matches Some(n) ==> exists|k: int|
                0 <= k < self@.technicians.len() && self@.technicians[k].id == id
                    && n@ == self@.technicians[k].name@,
    {
        match find_technician(&self.technicians, id) {
            Some(k) => Some(self.technicians[k].name.clone()),
            None => None,
        }
    }

    /// The ticket with id `id`.
    pub fn ticket(&self, id: u32) -> (r: Option<&Ticket>)
        ensures
            r is None <==> !self@.has_ticket(id),
            r matches Some(t) ==> *t == self@.ticket(id),
    {
        if id == 0 || id as usize > self.tickets.len() {
            None
        } else {
            Some(&self.tickets[(id - 1) as usize])
        }
    }

    /// The technician registered under `id`.
    pub fn technician(&self, id: u32) -> (r: Option<&Technician>)
        ensures
            r is None <==> !self@.has_technician(id),
            r matches Some(t) ==> exists|k: int|
                0 <= k < self@.technicians.len() && self@.technicians[k] == *t && t.id == id,
    {
        match find_technician(&self.technicians, id) {
            Some(k) => Some(&self.technicians[k]),
            None => None,
        }
    }

    pub fn add_observer(&mut self, observer: Box<dyn TicketObserver>)
        requires
            old(self)@.wf(),
        ensures
            final(self)@ == old(self)@,
            final(self).observers() == old(self).observers().push(observer),
    {
        self.observers.push(observer);
    }
}

} // verus!
