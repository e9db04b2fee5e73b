//! The states a library book can be in and the events that move it.
use vstd::prelude::*;
use vstd::string::StringExecFns;

verus! {

/// The status of a library book.
#[derive(Debug, Clone, Default, Hash)]
pub enum BookState {
    /// Available for checkout.
    #[default]
    Available,
    /// Reserved by a patron.
    Reserved(String),
    /// Checked out by a patron.
    CheckedOut(String),
    /// In transit between branches.
    InTransit,
    /// Being repaired.
    UnderRepair,
    /// Reported lost.
    Lost,
}

/// What identifies a state: the variant and, for a patron's state, the name.
pub open spec fn state_key(s: BookState) -> (u8, Seq<char>) {
    match s {
        BookState::Available => (0u8, Seq::empty()),
        BookState::Reserved(p) => (1u8, p@),
        BookState::CheckedOut(p) => (2u8, p@),
        BookState::InTransit => (3u8, Seq::empty()),
        BookState::UnderRepair => (4u8, Seq::empty()),
        BookState::Lost => (5u8, Seq::empty()),
    }
}

impl PartialEq for BookState {
    fn eq(&self, other: &BookState) -> (r: bool) {
        match self {
            BookState::Available => matches!(other, BookState::Available),
            BookState::Reserved(a) => match other {
                BookState::Reserved(b) => a.eq(b),
                _ => false,
            },
            BookState::CheckedOut(a) => match other {
                BookState::CheckedOut(b) => a.eq(b),
                _ => false,
            },
            BookState::InTransit => matches!(other, BookState::InTransit),
            BookState::UnderRepair => matches!(other, BookState::UnderRepair),
            BookState::Lost => matches!(other, BookState::Lost),
        }
    }
}

impl vstd::std_specs::cmp::PartialEqSpecImpl for BookState {
    open spec fn obeys_eq_spec() -> bool {
        true
    }

    open spec fn eq_spec(&self, other: &BookState) -> bool {
        state_key(*self) == state_key(*other)
    }
}

impl Eq for BookState {
}

impl BookState {
    /// An equal copy.
    pub fn duplicate(&self) -> (r: BookState)
        ensures
            state_key(r) == state_key(*self),
    {
        match self {
            BookState::Available => BookState::Available,
            BookState::Reserved(p) => BookState::Reserved(p.clone()),
            BookState::CheckedOut(p) => BookState::CheckedOut(p.clone()),
            BookState::InTransit => BookState::InTransit,
            BookState::UnderRepair => BookState::UnderRepair,
            BookState::Lost => BookState::Lost,
        }
    }

    /// A sentence that describes the state.
    pub fn get_description(&self) -> (r: String)
        ensures
            r@ == description(*self),
    {
        match self {
            BookState::Available => String::from_str("Book is available for checkout"),
            BookState::Reserved(patron) => String::from_str("Book is reserved by ").concat(patron.as_str()),
            BookState::CheckedOut(patron) => String::from_str("Book is checked out by ").concat(patron.as_str()),
            BookState::InTransit => String::from_str("Book is in transit between library branches"),
            BookState::UnderRepair => String::from_str("Book is currently being repaired"),
            BookState::Lost => String::from_str("Book is marked as lost"),
        }
    }
}

pub open spec fn description(s: BookState) -> Seq<char> {
    match s {
        BookState::Available => "Book is available for checkout"@,
        BookState::Reserved(p) => "Book is reserved by "@ + p@,
        BookState::CheckedOut(p) => "Book is checked out by "@ + p@,
        BookState::InTransit => "Book is in transit between library branches"@,
        BookState::UnderRepair => "Book is currently being repaired"@,
        BookState::Lost => "Book is marked as lost"@,
    }
}

/// Something that happens to a book.
#[derive(Debug, Clone, Default, Hash)]
pub enum BookEvent {
    /// A patron reserves the book.
    Reserve(String),
    /// The reservation is cancelled.
    CancelReservation,
    /// A patron checks the book out.
    CheckOut(String),
    /// The book comes back.
    Return,
    /// The book goes to repair.
    SendToRepair,
    /// The repair is done.
    CompleteRepair,
    /// The book is sent to another branch.
    Transfer,
    /// The book arrived at the other branch.
    TransferComplete,
    /// The book is reported lost.
    ReportLost,
    /// A lost book turned up.
    #[default]
    Found,
}

/// What identifies an event: the variant and, for a patron's event, the name.
pub open spec fn event_key(e: BookEvent) -> (u8, Seq<char>) {
    match e {
        BookEvent::Reserve(p) => (0u8, p@),
        BookEvent::CancelReservation => (1u8, Seq::empty()),
        BookEvent::CheckOut(p) => (2u8, p@),
        BookEvent::Return => (3u8, Seq::empty()),
        BookEvent::SendToRepair => (4u8, Seq::empty()),
        BookEvent::CompleteRepair => (5u8, Seq::empty()),
        BookEvent::Transfer => (6u8, Seq::empty()),
        BookEvent::TransferComplete => (7u8, Seq::empty()),
        BookEvent::ReportLost => (8u8, Seq::empty()),
        BookEvent::Found => (9u8, Seq::empty()),
    }
}

impl PartialEq for BookEvent {
    fn eq(&self, other: &BookEvent) -> (r: bool) {
        match self {
            BookEvent::Reserve(a) => match other {
                BookEvent::Reserve(b) => a.eq(b),
                _ => false,
            },
            BookEvent::CancelReservation => matches!(other, BookEvent::CancelReservation),
            BookEvent::CheckOut(a) => match other {
                BookEvent::CheckOut(b) => a.eq(b),
                _ => false,
            },
            BookEvent::Return => matches!(other, BookEvent::Return),
            BookEvent::SendToRepair => matches!(other, BookEvent::SendToRepair),
            BookEvent::CompleteRepair => matches!(other, BookEvent::CompleteRepair),
            BookEvent::Transfer => matches!(other, BookEvent::Transfer),
            BookEvent::TransferComplete => matches!(other, BookEvent::TransferComplete),
            BookEvent::ReportLost => matches!(other, BookEvent::ReportLost),
            BookEvent::Found => matches!(other, BookEvent::Found),
        }
    }
}

impl vstd::std_specs::cmp::PartialEqSpecImpl for BookEvent {
    open spec fn obeys_eq_spec() -> bool {
        true
    }

    open spec fn eq_spec(&self, other: &BookEvent) -> bool {
        event_key(*self) == event_key(*other)
    }
}

impl Eq for BookEvent {
}

impl BookEvent {
    /// An equal copy.
    pub fn duplicate(&self) -> (r: BookEvent)
        ensures
            event_key(r) == event_key(*self),
    {
        match self {
            BookEvent::Reserve(p) => BookEvent::Reserve(p.clone()),
            BookEvent::CancelReservation => BookEvent::CancelReservation,
            BookEvent::CheckOut(p) => BookEvent::CheckOut(p.clone()),
            BookEvent::Return => BookEvent::Return,
            BookEvent::SendToRepair => BookEvent::SendToRepair,
            BookEvent::CompleteRepair => BookEvent::CompleteRepair,
            BookEvent::Transfer => BookEvent::Transfer,
            BookEvent::TransferComplete => BookEvent::TransferComplete,
            BookEvent::ReportLost => BookEvent::ReportLost,
            BookEvent::Found => BookEvent::Found,
        }
    }
}

/// The debug text of a state (a patron's name is written as it is).
pub open spec fn state_debug(s: BookState) -> Seq<char> {
    match s {
        BookState::Available => "Available"@,
        BookState::Reserved(p) => "Reserved("@ + "\""@ + p@ + "\""@ + ")"@,
        BookState::CheckedOut(p) => "CheckedOut("@ + "\""@ + p@ + "\""@ + ")"@,
        BookState::InTransit => "InTransit"@,
        BookState::UnderRepair => "UnderRepair"@,
        BookState::Lost => "Lost"@,
    }
}

/// The debug text of an event (a patron's name is written as it is).
pub open spec fn event_debug(e: BookEvent) -> Seq<char> {
    match e {
        BookEvent::Reserve(p) => "Reserve("@ + "\""@ + p@ + "\""@ + ")"@,
        BookEvent::CancelReservation => "CancelReservation"@,
        BookEvent::CheckOut(p) => "CheckOut("@ + "\""@ + p@ + "\""@ + ")"@,
        BookEvent::Return => "Return"@,
        BookEvent::SendToRepair => "SendToRepair"@,
        BookEvent::CompleteRepair => "CompleteRepair"@,
        BookEvent::Transfer => "Transfer"@,
        BookEvent::TransferComplete => "TransferComplete"@,
        BookEvent::ReportLost => "ReportLost"@,
        BookEvent::Found => "Found"@,
    }
}

fn quoted(name: &String) -> (r: String)
    ensures
        r@ == "\""@ + name@ + "\""@,
{
    let mut out = String::from_str("\"");
    out.append(name.as_str());
    out.append("\"");
    out
}

impl BookState {
    /// The debug text of the state.
    pub fn debug_text(&self) -> (r: String)
        ensures
            r@ == state_debug(*self),
    {
        match self {
            BookState::Available => String::from_str("Available"),
            BookState::Reserved(p) => {
                let q = quoted(p);
                String::from_str("Reserved(").concat(q.as_str()).concat(")")
            },
            BookState::CheckedOut(p) => {
                let q = quoted(p);
                String::from_str("CheckedOut(").concat(q.as_str()).concat(")")
            },
            BookState::InTransit => String::from_str("InTransit"),
            BookState::UnderRepair => String::from_str("UnderRepair"),
            BookState::Lost => String::from_str("Lost"),
        }
    }
}

impl BookEvent {
    /// The debug text of the event.
    pub fn debug_text(&self) -> (r: String)
        ensures
            r@ == event_debug(*self),
    {
        match self {
            BookEvent::Reserve(p) => {
                let q = quoted(p);
                String::from_str("Reserve(").concat(q.as_str()).concat(")")
            },
            BookEvent::CancelReservation => String::from_str("CancelReservation"),
            BookEvent::CheckOut(p) => {
                let q = quoted(p);
                String::from_str("CheckOut(").concat(q.as_str()).concat(")")
            },
            BookEvent::Return => String::from_str("Return"),
            BookEvent::SendToRepair => String::from_str("SendToRepair"),
            BookEvent::CompleteRepair => String::from_str("CompleteRepair"),
            BookEvent::Transfer => String::from_str("Transfer"),
            BookEvent::TransferComplete => String::from_str("TransferComplete"),
            BookEvent::ReportLost => String::from_str("ReportLost"),
            BookEvent::Found => String::from_str("Found"),
        }
    }
}

} // verus!
