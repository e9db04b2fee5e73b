//! Text renderings of a library system: a DOT graph of its states and
//! transitions, and a markdown table of a transition history.
use vstd::prelude::*;
use vstd::string::StringExecFns;
use crate::book::{state_key, BookEvent, BookState};
use crate::library::{first_index_of, LibrarySystem, StateTransition};
use crate::text::{decimal, decimal_text};

verus! {

/// The label of a state in the graph.
pub open spec fn state_label(s: BookState) -> Seq<char> {
    match s {
        BookState::Available => "Available"@,
        BookState::Reserved(p) => "Reserved("@ + p@ + ")"@,
        BookState::CheckedOut(p) => "CheckedOut("@ + p@ + ")"@,
        BookState::InTransit => "InTransit"@,
        BookState::UnderRepair => "UnderRepair"@,
        BookState::Lost => "Lost"@,
    }
}

/// The label of an event in the graph: its debug text with the quotes
/// around a patron's name escaped (the name itself is written as it is).
pub open spec fn event_label(e: BookEvent) -> Seq<char> {
    match e {
        BookEvent::Reserve(p) => "Reserve("@ + "\\\""@ + p@ + "\\\""@ + ")"@,
        BookEvent::CancelReservation => "CancelReservation"@,
        BookEvent::CheckOut(p) => "CheckOut("@ + "\\\""@ + p@ + "\\\""@ + ")"@,
        BookEvent::Return => "Return"@,
        BookEvent::SendToRepair => "SendToRepair"@,
        BookEvent::CompleteRepair => "CompleteRepair"@,
        BookEvent::Transfer => "Transfer"@,
        BookEvent::TransferComplete => "TransferComplete"@,
        BookEvent::ReportLost => "ReportLost"@,
        BookEvent::Found => "Found"@,
    }
}

/// The debug text of an event (a patron's name is written as it is).
pub open spec fn event_text(e: BookEvent) -> Seq<char> {
    match e {
        BookEvent::Reserve(p) => "Reserve("@ + "\""@ + p@ + "\""@ + ")"@,
        BookEvent::CancelReservation => "CancelReservation"@,
        BookEvent::CheckOut(p) => "CheckOut("@ + "\""@ + p@ + "\""@ + ")"@,
        BookEvent::Return => "Return"@,
        BookEvent::SendToRepair => "SendToRepair"@,
        BookEvent::CompleteRepair => "CompleteRepair"@,
        BookEvent::Transfer => "Transfer"@,
        BookEvent::TransferComplete => "TransferComplete"@,
        BookEvent::ReportLost => "ReportLost"@,
        BookEvent::Found => "Found"@,
    }
}

/// A state as shown in the history views.
pub open spec fn state_text(s: BookState) -> Seq<char> {
    match s {
        BookState::Available => "📚 Available"@,
        BookState::Reserved(p) => "🔖 Reserved("@ + p@ + ")"@,
        BookState::CheckedOut(p) => "📖 CheckedOut("@ + p@ + ")"@,
        BookState::InTransit => "🚚 InTransit"@,
        BookState::UnderRepair => "🔧 UnderRepair"@,
        BookState::Lost => "❓ Lost"@,
    }
}

pub open spec fn dot_header() -> Seq<char> {
    "digraph state_machine {\n"@ + "  rankdir=LR;\n"@ + "  node [shape=circle, style=filled, fillcolor=lightblue];\n"@
}

pub open spec fn node_line(idx: nat, s: BookState, current: bool) -> Seq<char> {
    if current {
        "  s"@ + decimal_text(idx) + " [label=\""@ + state_label(s) + "\", fillcolor=palegreen, peripheries=2];\n"@
    } else {
        "  s"@ + decimal_text(idx) + " [label=\""@ + state_label(s) + "\"];\n"@
    }
}

/// The node lines of the first `k` states.
pub open spec fn node_lines(states: Seq<BookState>, current: nat, k: nat) -> Seq<char>
    decreases k,
{
    if k == 0 {
        Seq::empty()
    } else {
        node_lines(states, current, (k - 1) as nat) + node_line((k - 1) as nat, states[k - 1], k - 1 == current)
    }
}

/// Some entry of the history other than the last moved from the first
/// state equal to `from`'s to the first state equal to `to`'s.
pub open spec fn on_path(sys: LibrarySystem, from: usize, to: usize) -> bool {
    exists|i: int|
        0 <= i < sys.history().len() - 1 && first_index_of(sys.states(), #[trigger] sys.history()[i].from) == Some(from)
            && first_index_of(sys.states(), sys.history()[i].to) == Some(to)
}

pub open spec fn edge_line(from: usize, to: usize, e: BookEvent, highlighted: bool) -> Seq<char> {
    "  s"@ + decimal_text(from as nat) + " -> s"@ + decimal_text(to as nat) + " [label=\""@ + event_label(e) + "\", "@
        + (if highlighted { "color=red, penwidth=2.0"@ } else { "color=black"@ }) + "];\n"@
}

/// The edge lines of the first `k` transitions.
pub open spec fn edge_lines(sys: LibrarySystem, highlight: bool, k: nat) -> Seq<char>
    decreases k,
{
    if k == 0 {
        Seq::empty()
    } else {
        let t = sys.transitions()[k - 1];
        edge_lines(sys, highlight, (k - 1) as nat) + edge_line(t.0.0, t.1, t.0.1, highlight && on_path(sys, t.0.0, t.1))
    }
}

/// The whole DOT graph.
pub open spec fn dot_text(sys: LibrarySystem, highlight: bool) -> Seq<char> {
    dot_header() + node_lines(sys.states(), sys.current_idx() as nat, sys.states().len()) + edge_lines(
        sys,
        highlight,
        sys.transitions().len(),
    ) + "}\n"@
}

pub open spec fn table_row(i: nat, t: StateTransition) -> Seq<char> {
    "| "@ + decimal_text(i + 1) + " | "@ + state_text(t.from) + " | "@ + event_text(t.event) + " | "@ + state_text(t.to)
        + " |\n"@
}

/// The rows of the first `k` history entries.
pub open spec fn table_rows(ts: Seq<StateTransition>, k: nat) -> Seq<char>
    decreases k,
{
    if k == 0 {
        Seq::empty()
    } else {
        table_rows(ts, (k - 1) as nat) + table_row((k - 1) as nat, ts[k - 1])
    }
}

pub open spec fn table_header() -> Seq<char> {
    "| # | From | Event | To |\n"@ + "|---|------|-------|----|\n"@
}

pub open spec fn history_text(ts: Seq<StateTransition>) -> Seq<char> {
    if ts.len() == 0 {
        "No transitions recorded yet."@
    } else {
        table_header() + table_rows(ts, ts.len())
    }
}

fn push_state_label(out: &mut String, s: &BookState)
    ensures
        final(out)@ == old(out)@ + state_label(*s),
{
    match s {
        BookState::Available => out.append("Available"),
        BookState::Reserved(p) => {
            out.append("Reserved(");
            out.append(p.as_str());
            out.append(")");
        },
        BookState::CheckedOut(p) => {
            out.append("CheckedOut(");
            out.append(p.as_str());
            out.append(")");
        },
        BookState::InTransit => out.append("InTransit"),
        BookState::UnderRepair => out.append("UnderRepair"),
        BookState::Lost => out.append("Lost"),
    }
}

fn push_event(out: &mut String, e: &BookEvent, quote: &str)
    ensures
        final(out)@ == old(out)@ + match *e {
            BookEvent::Reserve(p) => "Reserve("@ + quote@ + p@ + quote@ + ")"@,
            BookEvent::CancelReservation => "CancelReservation"@,
            BookEvent::CheckOut(p) => "CheckOut("@ + quote@ + p@ + quote@ + ")"@,
            BookEvent::Return => "Return"@,
            BookEvent::SendToRepair => "SendToRepair"@,
            BookEvent::CompleteRepair => "CompleteRepair"@,
            BookEvent::Transfer => "Transfer"@,
            BookEvent::TransferComplete => "TransferComplete"@,
            BookEvent::ReportLost => "ReportLost"@,
            BookEvent::Found => "Found"@,
        },
{
    match e {
        BookEvent::Reserve(p) => {
            out.append("Reserve(");
            out.append(quote);
            out.append(p.as_str());
            out.append(quote);
            out.append(")");
        },
        BookEvent::CancelReservation => out.append("CancelReservation"),
        BookEvent::CheckOut(p) => {
            out.append("CheckOut(");
            out.append(quote);
            out.append(p.as_str());
            out.append(quote);
            out.append(")");
        },
        BookEvent::Return => out.append("Return"),
        BookEvent::SendToRepair => out.append("SendToRepair"),
        BookEvent::CompleteRepair => out.append("CompleteRepair"),
        BookEvent::Transfer => out.append("Transfer"),
        BookEvent::TransferComplete => out.append("TransferComplete"),
        BookEvent::ReportLost => out.append("ReportLost"),
        BookEvent::Found => out.append("Found"),
    }
}

fn push_state_text(out: &mut String, s: &BookState)
    ensures
        final(out)@ == old(out)@ + state_text(*s),
{
    match s {
        BookState::Available => out.append("📚 Available"),
        BookState::Reserved(p) => {
            out.append("🔖 Reserved(");
            out.append(p.as_str());
            out.append(")");
        },
        BookState::CheckedOut(p) => {
            out.append("📖 CheckedOut(");
            out.append(p.as_str());
            out.append(")");
        },
        BookState::InTransit => out.append("🚚 InTransit"),
        BookState::UnderRepair => out.append("🔧 UnderRepair"),
        BookState::Lost => out.append("❓ Lost"),
    }
}

fn node_text(idx: usize, s: &BookState, current: bool) -> (r: String)
    ensures
        r@ == node_line(idx as nat, *s, current),
{
    let mut line = String::from_str("  s");
    let num = decimal(idx);
    line.append(num.as_str());
    line.append(" [label=\"");
    push_state_label(&mut line, s);
    if current {
        line.append("\", fillcolor=palegreen, peripheries=2];\n");
    } else {
        line.append("\"];\n");
    }
    line
}

fn edge_text(from: usize, to: usize, e: &BookEvent, highlighted: bool) -> (r: String)
    ensures
        r@ == edge_line(from, to, *e, highlighted),
{
    let mut line = String::from_str("  s");
    let a = decimal(from);
    line.append(a.as_str());
    line.append(" -> s");
    let b = decimal(to);
    line.append(b.as_str());
    line.append(" [label=\"");
    push_event(&mut line, e, "\\\"");
    line.append("\", ");
    if highlighted {
        line.append("color=red, penwidth=2.0");
    } else {
        line.append("color=black");
    }
    line.append("];\n");
    line
}

fn row_text(i: usize, t: &StateTransition) -> (r: String)
    requires
        i < usize::MAX,
    ensures
        r@ == table_row(i as nat, *t),
{
    let mut line = String::from_str("| ");
    let num = decimal(i + 1);
    line.append(num.as_str());
    line.append(" | ");
    push_state_text(&mut line, &t.from);
    line.append(" | ");
    push_event(&mut line, &t.event, "\"");
    line.append(" | ");
    push_state_text(&mut line, &t.to);
    line.append(" |\n");
    line
}

/// How many of the first `k` entries led to a state equal to `s`.
pub open spec fn visits(ts: Seq<StateTransition>, s: BookState, k: nat) -> nat
    decreases k,
{
    if k == 0 {
        0
    } else {
        visits(ts, s, (k - 1) as nat) + if state_key(ts[k - 1].to) == state_key(s) { 1nat } else { 0nat }
    }
}

/// Rendering of a library system.
#[derive(Debug)]
pub struct StateVisualization;

impl StateVisualization {
    /// A state as shown in the history views.
    pub fn format_state(state: &BookState) -> (r: String)
        ensures
            r@ == state_text(*state),
    {
        let mut out = String::new();
        push_state_text(&mut out, state);
        out
    }

    fn highlighted(system: &LibrarySystem, from: usize, to: usize) -> (r: bool)
        requires
            system.history().len() >= 1,
        ensures
            r == on_path(*system, from, to),
    {
        let history = system.get_history();
        let n = history.len() - 1;
        let mut i: usize = 0;
        while i < n
            invariant
                n == system.history().len() - 1,
                history@ == system.history(),
                0 <= i <= n,
                forall|k: int| 0 <= k < i ==> !(first_index_of(system.states(), #[trigger] system.history()[k].from) == Some(from)
                    && first_index_of(system.states(), system.history()[k].to) == Some(to)),
            decreases n - i,
        {
            let f = system.get_state_idx(&history[i].from);
            let t = system.get_state_idx(&history[i].to);
            if f == Some(from) && t == Some(to) {
                return true;
            }
            i += 1;
        }
        false
    }

    /// A DOT graph of the system: every state (the current one filled
    /// green with a double border), every transition labelled with its
    /// event, and, with `highlight_path`, the transitions the history took
    /// (all entries but the last) in red.
    pub fn generate_dot(system: &LibrarySystem, highlight_path: bool) -> (r: String)
        requires
            system.wf(),
        ensures
            r@ == dot_text(*system, highlight_path),
    {
        let mut dot = String::from_str("digraph state_machine {\n");
        dot.append("  rankdir=LR;\n");
        dot.append("  node [shape=circle, style=filled, fillcolor=lightblue];\n");
        proof {
            assert(dot@ =~= dot_header());
        }
        let states = system.get_states();
        let current = system.get_current_state_idx();
        let n = states.len();
        let mut idx: usize = 0;
        while idx < n
            invariant
                n == states@.len(),
                states@ == system.states(),
                current == system.current_idx(),
                0 <= idx <= n,
                dot@ == dot_header() + node_lines(system.states(), current as nat, idx as nat),
            decreases n - idx,
        {
            let line = node_text(idx, &states[idx], idx == current);
            dot.append(line.as_str());
            proof {
                assert(dot@ =~= dot_header() + node_lines(system.states(), current as nat, (idx + 1) as nat));
            }
            idx += 1;
        }
        let highlight = highlight_path && system.get_history().len() > 0;
        let transitions = system.get_all_transitions();
        let m = transitions.len();
        let mut k: usize = 0;
        while k < m
            invariant
                m == transitions@.len(),
                transitions@ == system.transitions(),
                highlight == (highlight_path && system.history().len() > 0),
                0 <= k <= m,
                dot@ == dot_header() + node_lines(system.states(), current as nat, n as nat) + edge_lines(*system, highlight_path, k as nat),
            decreases m - k,
        {
            let from = transitions[k].0.0;
            let to = transitions[k].1;
            let lit = highlight && Self::highlighted(system, from, to);
            proof {
                if highlight_path && system.history().len() == 0 {
                    assert(!on_path(*system, from, to));
                }
            }
            let line = edge_text(from, to, &transitions[k].0.1, lit);
            dot.append(line.as_str());
            proof {
                assert(dot@ =~= dot_header() + node_lines(system.states(), current as nat, n as nat) + edge_lines(*system, highlight_path, (k + 1) as nat));
            }
            k += 1;
        }
        dot.append("}\n");
        dot
    }

    /// How many entries of `transitions` led to a state equal to `state`.
    pub fn visit_count(transitions: &[StateTransition], state: &BookState) -> (r: usize)
        ensures
            r == visits(transitions@, *state, transitions@.len()),
    {
        let n = transitions.len();
        let mut count: usize = 0;
        let mut i: usize = 0;
        while i < n
            invariant
                n == transitions@.len(),
                0 <= i <= n,
                count == visits(transitions@, *state, i as nat),
                count <= i,
            decreases n - i,
        {
            if transitions[i].to.eq(state) {
                count = count + 1;
            }
            i += 1;
        }
        count
    }

    /// A markdown table of `transitions`, one numbered row each.
    pub fn history_table(transitions: &[StateTransition]) -> (r: String)
        ensures
            r@ == history_text(transitions@),
    {
        if transitions.len() == 0 {
            return String::from_str("No transitions recorded yet.");
        }
        let mut table = String::from_str("| # | From | Event | To |\n");
        table.append("|---|------|-------|----|\n");
        proof {
            assert(table@ =~= table_header() + table_rows(transitions@, 0));
        }
        let n = transitions.len();
        let mut i: usize = 0;
        while i < n
            invariant
                n == transitions@.len(),
                0 <= i <= n,
                table@ == table_header() + table_rows(transitions@, i as nat),
            decreases n - i,
        {
            let line = row_text(i, &transitions[i]);
            table.append(line.as_str());
            proof {
                assert(table@ =~= table_header() + table_rows(transitions@, (i + 1) as nat));
            }
            i += 1;
        }
        table
    }
}

} // verus!
