use vstd::prelude::*;

verus! {

/// Classification of a ticket, and the specialty of a technician.
#[derive(Clone, Copy, PartialEq, Eq, Structural, Debug, Hash)]
pub enum Category {
    Network,
    Application,
    Security,
    Hardware,
}

impl Category {
    pub open spec fn label(self) -> Seq<char> {
        match self {
            Category::Network => "NETWORK"@,
            Category::Application => "APPLICATION"@,
            Category::Security => "SECURITY"@,
            Category::Hardware => "HARDWARE"@,
        }
    }

    /// Upper-case display name of the category.
    pub fn as_str(&self) -> (r: &'static str)
        ensures
            r@ == self.label(),
    {
        match self {
            Category::Network => "NETWORK",
            Category::Application => "APPLICATION",
            Category::Security => "SECURITY",
            Category::Hardware => "HARDWARE",
        }
    }
}

/// Lifecycle of a ticket: New, Assigned, InProgress, Resolved, Closed.
#[derive(Clone, Copy, PartialEq, Eq, Structural, Debug, Hash)]
pub enum State {
    New,
    Assigned,
    InProgress,
    Resolved,
    Closed,
}

impl State {
    pub open spec fn label(self) -> Seq<char> {
        match self {
            State::New => "NEW"@,
            State::Assigned => "ASSIGNED"@,
            State::InProgress => "IN PROGRESS"@,
            State::Resolved => "RESOLVED"@,
            State::Closed => "CLOSED"@,
        }
    }

    /// Upper-case display name of the state.
    pub fn as_str(&self) -> (r: &'static str)
        ensures
            r@ == self.label(),
    {
        match self {
            State::New => "NEW",
            State::Assigned => "ASSIGNED",
            State::InProgress => "IN PROGRESS",
            State::Resolved => "RESOLVED",
            State::Closed => "CLOSED",
        }
    }

    /// A ticket in this state carries a resolution time.
    pub open spec fn is_settled(self) -> bool {
        self == State::Resolved || self == State::Closed
    }

    /// The transitions that can be requested explicitly; New to Assigned
    /// happens only through assignment.
    pub open spec fn can_move_to(self, to: State) -> bool {
        ||| (self == State::Assigned && to == State::InProgress)
        ||| (self == State::InProgress && to == State::Resolved)
        ||| (self == State::Resolved && to == State::Closed)
    }
}

/// A customer who files tickets.
pub struct Client {
    pub id: u32,
    pub name: String,
    pub email: String,
    pub company: Option<String>,
    pub phone: Option<String>,
}

/// A technician, holding at most one ticket at a time.
pub struct Technician {
    pub id: u32,
    pub name: String,
    pub specialty: Category,
    pub assigned_ticket_id: Option<u32>,
    pub is_available: bool,
}

impl Technician {
    /// Availability agrees with the assignment.
    pub open spec fn is_consistent(&self) -> bool {
        self.is_available == (self.assigned_ticket_id is None)
    }

    /// Free to take a new ticket.
    pub open spec fn eligible(&self) -> bool {
        self.is_available && self.assigned_ticket_id is None
    }

    pub fn new(id: u32, name: String, specialty: Category) -> (r: Self)
        ensures
            r.id == id,
            r.name == name,
            r.specialty == specialty,
            r.assigned_ticket_id is None,
            r.is_available,
    {
        Technician { id, name, specialty, assigned_ticket_id: None, is_available: true }
    }

    pub fn can_accept_ticket(&self) -> (r: bool)
        ensures
            r == self.eligible(),
    {
        self.is_available && self.assigned_ticket_id.is_none()
    }
}

/// A support request. Times are whole seconds since the Unix epoch.
pub struct Ticket {
    pub id: u32,
    pub description: String,
    pub category: Category,
    pub state: State,
    pub client_id: u32,
    pub technician_id: Option<u32>,
    pub created_at: u64,
    pub resolved_at: Option<u64>,
}

/// Relies on std::time::SystemTime::elapsed, measured from the Unix epoch:
/// the system clock now, in whole seconds; `None` when the clock reads
/// earlier than the epoch.
#[verifier::external_body]
pub(crate) fn clock_seconds() -> (r: Option<u64>) {
    std::time::UNIX_EPOCH.elapsed().ok().map(|d| d.as_secs())
}

/// The current time in seconds since the Unix epoch, or 0 when the clock
/// reads earlier than the epoch.
pub fn now_seconds() -> (r: u64) {
    match clock_seconds() {
        Some(s) => s,
        None => 0,
    }
}

/// `a - b`, or 0 when `b` is later than `a`.
pub open spec fn seconds_between(b: u64, a: u64) -> u64 {
    if a >= b { (a - b) as u64 } else { 0 }
}

impl Ticket {
    /// The resolution time is set exactly in the settled states.
    pub open spec fn is_consistent(&self) -> bool {
        self.resolved_at is Some <==> self.state.is_settled()
    }

    /// A fresh ticket in state New, created at `created_at`.
    pub open spec fn is_fresh(&self, id: u32, description: String, category: Category, client_id: u32) -> bool {
        &&& self.id == id
        &&& self.description == description
        &&& self.category == category
        &&& self.state == State::New
        &&& self.client_id == client_id
        &&& self.technician_id is None
        &&& self.resolved_at is None
    }

    /// Seconds from creation to resolution, or to `now` while unresolved.
    pub open spec fn elapsed_spec(&self, now: u64) -> u64 {
        let end = match self.resolved_at {
            Some(t) => t,
            None => now,
        };
        seconds_between(self.created_at, end)
    }

    /// A new ticket stamped with the current time.
    pub fn new(id: u32, description: String, category: Category, client_id: u32) -> (r: Self)
        ensures
            r.is_fresh(id, description, category, client_id),
    {
        Ticket::created_at_time(id, description, category, client_id, now_seconds())
    }

    /// A new ticket stamped with `created_at`.
    pub fn created_at_time(
        id: u32,
        description: String,
        category: Category,
        client_id: u32,
        created_at: u64,
    ) -> (r: Self)
        ensures
            r.is_fresh(id, description, category, client_id),
            r.created_at == created_at,
    {
        Ticket {
            id,
            description,
            category,
            state: State::New,
            client_id,
            technician_id: None,
            created_at,
            resolved_at: None,
        }
    }

    /// Seconds from creation to resolution, or to `now` while unresolved;
    /// 0 if the end lies before the creation time.
    pub fn elapsed_at(&self, now: u64) -> (r: u64)
        ensures
            r == self.elapsed_spec(now),
    {
        let end = match self.resolved_at {
            Some(t) => t,
            None => now,
        };
        if end >= self.created_at {
            end - self.created_at
        } else {
            0
        }
    }

    /// Whole minutes (rounded down) from creation to resolution, or to `now`.
    pub fn minutes_elapsed_at(&self, now: u64) -> (r: u64)
        ensures
            r == self.elapsed_spec(now) / 60,
    {
        self.elapsed_at(now) / 60
    }

    /// Seconds from creation to resolution, or to the current time while
    /// unresolved.
    pub fn time_elapsed(&self) -> (r: u64)
        ensures
            exists|now: u64| r == self.elapsed_spec(now),
            self.resolved_at is Some ==> r == self.elapsed_spec(0),
    {
        let now = now_seconds();
        self.elapsed_at(now)
    }
}

} // verus!
