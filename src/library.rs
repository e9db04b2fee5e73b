//! A state machine for one library book: a list of states, transitions
//! keyed by (state index, event), timing limits per state, and a bounded
//! history of the transitions taken. Times are milliseconds on a clock the
//! caller reads.
use vstd::prelude::*;
use vstd::string::StringExecFns;
use crate::book::{description, event_debug, event_key, state_debug, state_key, BookEvent, BookState};

verus! {

/// The history keeps at most this many entries unless told otherwise.
pub const DEFAULT_MAX_HISTORY: usize = 100;

/// Why a library operation failed.
#[derive(Debug, Clone)]
pub enum LibraryError {
    /// No transition is defined for this event from the current state.
    InvalidTransition { from_state: BookState, event: BookEvent },
    /// Saving the state failed.
    PersistenceError(String),
    /// Loading the state failed.
    LoadError(String),
}

/// One transition taken.
#[derive(Debug, Clone)]
pub struct StateTransition {
    pub from: BookState,
    pub to: BookState,
    pub event: BookEvent,
    /// When it happened, in milliseconds.
    pub timestamp: u64,
}

/// How long a state may last before an event is raised.
#[derive(Debug, Clone)]
pub struct TimingConstraints {
    /// The longest time allowed in the state, in milliseconds.
    pub max_duration: u64,
    /// The event processed in place of the next one once the time is exceeded.
    pub timeout_event: BookEvent,
}

/// A point in time as seconds and nanoseconds since the Unix epoch.
#[derive(Debug, Clone, Copy, Default)]
pub struct TimeStamp {
    pub seconds: u64,
    pub nanos: u32,
}

/// `i` is a transition of `trans` from state `from` on an event with key `ev`.
pub open spec fn is_rule(trans: Seq<((usize, BookEvent), usize)>, from: usize, ev: (u8, Seq<char>), i: int) -> bool {
    0 <= i < trans.len() && trans[i].0.0 == from && event_key(trans[i].0.1) == ev
}

/// Where a transition from `from` on `ev` leads, if one is defined.
pub open spec fn rule_target(trans: Seq<((usize, BookEvent), usize)>, from: usize, ev: (u8, Seq<char>)) -> Option<usize> {
    if exists|i: int| is_rule(trans, from, ev, i) {
        Some(trans[choose|i: int| is_rule(trans, from, ev, i)].1)
    } else {
        None
    }
}

pub open spec fn unique_rules(trans: Seq<((usize, BookEvent), usize)>) -> bool {
    forall|i: int, j: int|
        0 <= i < j < trans.len() ==> !(#[trigger] trans[i].0.0 == #[trigger] trans[j].0.0 && event_key(trans[i].0.1)
            == event_key(trans[j].0.1))
}

/// `i` is the constraint of `cons` on state `idx`.
pub open spec fn is_constraint(cons: Seq<(usize, TimingConstraints)>, idx: usize, i: int) -> bool {
    0 <= i < cons.len() && cons[i].0 == idx
}

pub open spec fn constraint_on(cons: Seq<(usize, TimingConstraints)>, idx: usize) -> Option<TimingConstraints> {
    if exists|i: int| is_constraint(cons, idx, i) {
        Some(cons[choose|i: int| is_constraint(cons, idx, i)].1)
    } else {
        None
    }
}

pub open spec fn unique_constraints(cons: Seq<(usize, TimingConstraints)>) -> bool {
    forall|i: int, j: int| 0 <= i < j < cons.len() ==> #[trigger] cons[i].0 != #[trigger] cons[j].0
}

/// `i` is the first index of a state equal to `s`.
pub open spec fn is_first_index(states: Seq<BookState>, s: BookState, i: int) -> bool {
    &&& 0 <= i < states.len()
    &&& state_key(states[i]) == state_key(s)
    &&& forall|j: int| 0 <= j < i ==> state_key(#[trigger] states[j]) != state_key(s)
}

/// The first index of a state equal to `s`, if any.
pub open spec fn first_index_of(states: Seq<BookState>, s: BookState) -> Option<usize> {
    if exists|i: int| is_first_index(states, s, i) {
        Some((choose|i: int| is_first_index(states, s, i)) as usize)
    } else {
        None
    }
}

/// A record of a transition from `from` to `to` on `event` at `time`.
pub open spec fn records(t: StateTransition, from: BookState, to: BookState, event: BookEvent, time: u64) -> bool {
    &&& state_key(t.from) == state_key(from)
    &&& state_key(t.to) == state_key(to)
    &&& event_key(t.event) == event_key(event)
    &&& t.timestamp == time
}

/// The history after appending one record, dropping the oldest entry when over `max`.
pub open spec fn trimmed(h: Seq<StateTransition>, max: usize) -> Seq<StateTransition> {
    if h.len() > max { h.drop_first() } else { h }
}

proof fn lemma_rule_target_at(trans: Seq<((usize, BookEvent), usize)>, from: usize, ev: (u8, Seq<char>), k: int)
    requires
        unique_rules(trans),
        is_rule(trans, from, ev, k),
    ensures
        rule_target(trans, from, ev) == Some(trans[k].1),
{
    let c = choose|i: int| is_rule(trans, from, ev, i);
    assert(is_rule(trans, from, ev, c));
    if c < k {
        assert(!(trans[c].0.0 == trans[k].0.0 && event_key(trans[c].0.1) == event_key(trans[k].0.1)));
    } else if c > k {
        assert(!(trans[k].0.0 == trans[c].0.0 && event_key(trans[k].0.1) == event_key(trans[c].0.1)));
    }
}

proof fn lemma_constraint_at(cons: Seq<(usize, TimingConstraints)>, idx: usize, k: int)
    requires
        unique_constraints(cons),
        is_constraint(cons, idx, k),
    ensures
        constraint_on(cons, idx) == Some(cons[k].1),
{
    let c = choose|i: int| is_constraint(cons, idx, i);
    assert(is_constraint(cons, idx, c));
    if c < k {
        assert(cons[c].0 != cons[k].0);
    } else if c > k {
        assert(cons[k].0 != cons[c].0);
    }
}

/// At time `now`, the state `idx` entered at `entry` has lasted longer than its limit.
pub open spec fn timed_out(cons: Seq<(usize, TimingConstraints)>, idx: usize, entry: u64, now: u64) -> bool {
    constraint_on(cons, idx) is Some && now > entry && now - entry > constraint_on(cons, idx)->0.max_duration
}

/// What taking `event` at `now` does to `before`, giving `after` and `r`.
pub open spec fn step_result(
    before: LibrarySystem,
    after: LibrarySystem,
    event: BookEvent,
    now: u64,
    r: Result<&BookState, LibraryError>,
) -> bool {
    let target = rule_target(before.transitions(), before.current_idx(), event_key(event));
    &&& after.states() == before.states()
    &&& after.transitions() == before.transitions()
    &&& after.constraints() == before.constraints()
    &&& after.max_history() == before.max_history()
    &&& after.id() == before.id()
    &&& match target {
        None => {
            &&& after.current_idx() == before.current_idx()
            &&& after.history() == before.history()
            &&& after.entry_time() == before.entry_time()
            &&& r matches Err(LibraryError::InvalidTransition { from_state, event: e }) && state_key(from_state)
                == state_key(before.current()) && event_key(e) == event_key(event)
        },
        Some(next) => {
            &&& after.current_idx() == next
            &&& after.entry_time() == now
            &&& after.history().len() >= 1
            &&& records(after.history().last(), before.current(), before.states()[next as int], event, now)
            &&& after.history() == trimmed(before.history().push(after.history().last()), before.max_history())
            &&& r is Ok && *r->Ok_0 == after.current()
        },
    }
}

/// The state machine of one library book.
#[derive(Debug)]
pub struct LibrarySystem {
    states: Vec<BookState>,
    transitions: Vec<((usize, BookEvent), usize)>,
    current_state_idx: usize,
    history: Vec<StateTransition>,
    max_history_size: usize,
    state_entry_time: u64,
    timing_constraints: Vec<(usize, TimingConstraints)>,
    system_id: String,
}

impl LibrarySystem {
    pub closed spec fn states(&self) -> Seq<BookState> {
        self.states@
    }

    pub closed spec fn transitions(&self) -> Seq<((usize, BookEvent), usize)> {
        self.transitions@
    }

    pub closed spec fn current_idx(&self) -> usize {
        self.current_state_idx
    }

    pub closed spec fn history(&self) -> Seq<StateTransition> {
        self.history@
    }

    pub closed spec fn max_history(&self) -> usize {
        self.max_history_size
    }

    /// When the current state was entered.
    pub closed spec fn entry_time(&self) -> u64 {
        self.state_entry_time
    }

    pub closed spec fn constraints(&self) -> Seq<(usize, TimingConstraints)> {
        self.timing_constraints@
    }

    pub closed spec fn id(&self) -> Seq<char> {
        self.system_id@
    }

    pub open spec fn current(&self) -> BookState {
        self.states()[self.current_idx() as int]
    }

    pub closed spec fn wf(&self) -> bool {
        &&& self.states@.len() >= 1
        &&& self.current_state_idx < self.states@.len()
        &&& forall|i: int| 0 <= i < self.transitions@.len() ==> #[trigger] self.transitions@[i].1 < self.states@.len()
        &&& unique_rules(self.transitions@)
        &&& unique_constraints(self.timing_constraints@)
        &&& self.max_history_size >= 1
        &&& self.history@.len() <= self.max_history_size
    }

    /// A system in `initial_state` (index 0), entered at `now`, with no
    /// transitions, no constraints and an empty history.
    pub fn new(initial_state: BookState, system_id: &str, now: u64) -> (r: LibrarySystem)
        ensures
            r.wf(),
            r.states() == seq![initial_state],
            r.current_idx() == 0,
            r.transitions() == Seq::<((usize, BookEvent), usize)>::empty(),
            r.constraints() == Seq::<(usize, TimingConstraints)>::empty(),
            r.history() == Seq::<StateTransition>::empty(),
            r.max_history() == DEFAULT_MAX_HISTORY,
            r.entry_time() == now,
            r.id() == system_id@,
    {
        let mut states: Vec<BookState> = Vec::new();
        states.push(initial_state);
        let r = LibrarySystem {
            states,
            transitions: Vec::new(),
            current_state_idx: 0,
            history: Vec::new(),
            max_history_size: DEFAULT_MAX_HISTORY,
            state_entry_time: now,
            timing_constraints: Vec::new(),
            system_id: String::from_str(system_id),
        };
        assert(r.states@ =~= seq![initial_state]);
        r
    }

    /// The index of the first state equal to `state`, if any.
    pub fn get_state_idx(&self, state: &BookState) -> (r: Option<usize>)
        ensures
            r == first_index_of(self.states(), *state),
    {
        let n = self.states.len();
        let mut i: usize = 0;
        while i < n
            invariant
                n == self.states@.len(),
                0 <= i <= n,
                forall|j: int| 0 <= j < i ==> state_key(#[trigger] self.states@[j]) != state_key(*state),
            decreases n - i,
        {
            if self.states[i].eq(state) {
                proof {
                    assert(is_first_index(self.states@, *state, i as int));
                    let k = choose|k: int| is_first_index(self.states@, *state, k);
                    assert(k == i) by {
                        if k > i {
                            assert(state_key(self.states@[i as int]) == state_key(*state));
                        }
                    }
                }
                return Some(i);
            }
            i += 1;
        }
        None
    }

    /// Adds `state` unless an equal one is there; returns its index either way.
    pub fn add_state(&mut self, state: BookState) -> (r: usize)
        requires
            old(self).wf(),
        ensures
            final(self).wf(),
            first_index_of(old(self).states(), state) is Some ==> r == first_index_of(old(self).states(), state)->0
                && final(self).states() == old(self).states(),
            first_index_of(old(self).states(), state) is None ==> r == old(self).states().len()
                && final(self).states() == old(self).states().push(state),
            final(self).current_idx() == old(self).current_idx(),
            final(self).transitions() == old(self).transitions(),
            final(self).constraints() == old(self).constraints(),
            final(self).history() == old(self).history(),
            final(self).entry_time() == old(self).entry_time(),
            final(self).max_history() == old(self).max_history(),
            final(self).id() == old(self).id(),
    {
        match self.get_state_idx(&state) {
            Some(pos) => pos,
            None => {
                self.states.push(state);
                self.states.len() - 1
            },
        }
    }

    /// Defines (or redefines) the transition from state `from_state_idx` on
    /// `event` to state `to_state_idx`.
    pub fn add_transition(&mut self, from_state_idx: usize, event: BookEvent, to_state_idx: usize)
        requires
            old(self).wf(),
            to_state_idx < old(self).states().len(),
        ensures
            final(self).wf(),
            rule_target(final(self).transitions(), from_state_idx, event_key(event)) == Some(to_state_idx),
            forall|f: usize, e: (u8, Seq<char>)|
                !(f == from_state_idx && e == event_key(event)) ==> #[trigger] rule_target(final(self).transitions(), f, e)
                    == rule_target(old(self).transitions(), f, e),
            final(self).states() == old(self).states(),
            final(self).current_idx() == old(self).current_idx(),
            final(self).constraints() == old(self).constraints(),
            final(self).history() == old(self).history(),
            final(self).entry_time() == old(self).entry_time(),
            final(self).max_history() == old(self).max_history(),
            final(self).id() == old(self).id(),
    {
        let ghost before = self.transitions@;
        let ghost ev = event_key(event);
        let n = self.transitions.len();
        let mut i: usize = 0;
        while i < n
            invariant
                n == before.len(),
                self.transitions@ == before,
                before == old(self).transitions@,
                self.states@ == old(self).states@,
                self.wf(),
                to_state_idx < self.states@.len(),
                self.current_state_idx == old(self).current_state_idx,
                self.timing_constraints@ == old(self).timing_constraints@,
                self.history@ == old(self).history@,
                self.state_entry_time == old(self).state_entry_time,
                self.max_history_size == old(self).max_history_size,
                self.system_id == old(self).system_id,
                ev == event_key(event),
                0 <= i <= n,
                forall|k: int| 0 <= k < i ==> !#[trigger] is_rule(before, from_state_idx, ev, k),
            decreases n - i,
        {
            if self.transitions[i].0.0 == from_state_idx && self.transitions[i].0.1.eq(&event) {
                self.transitions.set(i, ((from_state_idx, event), to_state_idx));
                proof {
                    let after = self.transitions@;
                    assert(after =~= before.update(i as int, ((from_state_idx, event), to_state_idx)));
                    assert(unique_rules(after)) by {
                        assert forall|a: int, b: int| 0 <= a < b < after.len() implies !(#[trigger] after[a].0.0 == #[trigger] after[b].0.0
                            && event_key(after[a].0.1) == event_key(after[b].0.1)) by {
                            assert(!(before[a].0.0 == before[b].0.0 && event_key(before[a].0.1) == event_key(before[b].0.1)));
                        }
                    }
                    assert forall|k: int| 0 <= k < after.len() implies #[trigger] after[k].1 < self.states@.len() by {
                        if k != i {
                            assert(after[k] == before[k]);
                        }
                    }
                    assert(is_rule(after, from_state_idx, ev, i as int));
                    lemma_rule_target_at(after, from_state_idx, ev, i as int);
                    assert forall|f: usize, e: (u8, Seq<char>)| !(f == from_state_idx && e == ev) implies #[trigger] rule_target(after, f, e)
                        == rule_target(before, f, e) by {
                        if exists|k: int| is_rule(after, f, e, k) {
                            let k = choose|k: int| is_rule(after, f, e, k);
                            assert(k != i);
                            assert(is_rule(before, f, e, k));
                            lemma_rule_target_at(after, f, e, k);
                            lemma_rule_target_at(before, f, e, k);
                        } else {
                            assert forall|k: int| !is_rule(before, f, e, k) by {
                                if is_rule(before, f, e, k) {
                                    if k != i {
                                        assert(is_rule(after, f, e, k));
                                    }
                                }
                            }
                        }
                    }
                }
                return;
            }
            i += 1;
        }
        self.transitions.push(((from_state_idx, event), to_state_idx));
        proof {
            let after = self.transitions@;
            let last = before.len() as int;
            assert(unique_rules(after)) by {
                assert forall|a: int, b: int| 0 <= a < b < after.len() implies !(#[trigger] after[a].0.0 == #[trigger] after[b].0.0
                    && event_key(after[a].0.1) == event_key(after[b].0.1)) by {
                    if b == last {
                        assert(!is_rule(before, from_state_idx, ev, a));
                    } else {
                        assert(!(before[a].0.0 == before[b].0.0 && event_key(before[a].0.1) == event_key(before[b].0.1)));
                    }
                }
            }
            assert(is_rule(after, from_state_idx, ev, last));
            lemma_rule_target_at(after, from_state_idx, ev, last);
            assert forall|f: usize, e: (u8, Seq<char>)| !(f == from_state_idx && e == ev) implies #[trigger] rule_target(after, f, e)
                == rule_target(before, f, e) by {
                if exists|k: int| is_rule(after, f, e, k) {
                    let k = choose|k: int| is_rule(after, f, e, k);
                    assert(k != last);
                    assert(is_rule(before, f, e, k));
                    lemma_rule_target_at(after, f, e, k);
                    lemma_rule_target_at(before, f, e, k);
                } else {
                    assert forall|k: int| !is_rule(before, f, e, k) by {
                        if is_rule(before, f, e, k) {
                            assert(is_rule(after, f, e, k));
                        }
                    }
                }
            }
        }
    }

    /// Sets (or replaces) the time limit of state `state_idx`: once the
    /// current state has lasted longer than `max_duration` milliseconds, the
    /// next event processed is `timeout_event` instead.
    pub fn add_timing_constraint(&mut self, state_idx: usize, max_duration: u64, timeout_event: BookEvent)
        requires
            old(self).wf(),
        ensures
            final(self).wf(),
            constraint_on(final(self).constraints(), state_idx) == Some(
                TimingConstraints { max_duration, timeout_event },
            ),
            forall|s: usize| s != state_idx ==> #[trigger] constraint_on(final(self).constraints(), s) == constraint_on(
                old(self).constraints(),
                s,
            ),
            final(self).states() == old(self).states(),
            final(self).current_idx() == old(self).current_idx(),
            final(self).transitions() == old(self).transitions(),
            final(self).history() == old(self).history(),
            final(self).entry_time() == old(self).entry_time(),
            final(self).max_history() == old(self).max_history(),
            final(self).id() == old(self).id(),
    {
        let ghost before = self.timing_constraints@;
        let c = TimingConstraints { max_duration, timeout_event };
        let n = self.timing_constraints.len();
        let mut i: usize = 0;
        while i < n
            invariant
                n == before.len(),
                self.timing_constraints@ == before,
                before == old(self).timing_constraints@,
                c == (TimingConstraints { max_duration, timeout_event }),
                self.states@ == old(self).states@,
                self.transitions@ == old(self).transitions@,
                self.current_state_idx == old(self).current_state_idx,
                self.history@ == old(self).history@,
                self.state_entry_time == old(self).state_entry_time,
                self.max_history_size == old(self).max_history_size,
                self.system_id == old(self).system_id,
                self.wf(),
                0 <= i <= n,
                forall|k: int| 0 <= k < i ==> !#[trigger] is_constraint(before, state_idx, k),
            decreases n - i,
        {
            if self.timing_constraints[i].0 == state_idx {
                self.timing_constraints.set(i, (state_idx, c));
                proof {
                    let after = self.timing_constraints@;
                    assert(after =~= before.update(i as int, (state_idx, c)));
                    assert forall|a: int, b: int| 0 <= a < b < after.len() implies #[trigger] after[a].0 != #[trigger] after[b].0 by {
                        assert(before[a].0 != before[b].0);
                    }
                    assert(is_constraint(after, state_idx, i as int));
                    lemma_constraint_at(after, state_idx, i as int);
                    assert forall|s: usize| s != state_idx implies #[trigger] constraint_on(after, s) == constraint_on(before, s) by {
                        if exists|k: int| is_constraint(after, s, k) {
                            let k = choose|k: int| is_constraint(after, s, k);
                            assert(is_constraint(before, s, k));
                            lemma_constraint_at(after, s, k);
                            lemma_constraint_at(before, s, k);
                        } else {
                            assert forall|k: int| !is_constraint(before, s, k) by {
                                if is_constraint(before, s, k) && k != i {
                                    assert(is_constraint(after, s, k));
                                }
                            }
                        }
                    }
                }
                return;
            }
            i += 1;
        }
        self.timing_constraints.push((state_idx, c));
        proof {
            let after = self.timing_constraints@;
            let last = before.len() as int;
            assert forall|a: int, b: int| 0 <= a < b < after.len() implies #[trigger] after[a].0 != #[trigger] after[b].0 by {
                if b == last {
                    assert(!is_constraint(before, state_idx, a));
                } else {
                    assert(before[a].0 != before[b].0);
                }
            }
            assert(is_constraint(after, state_idx, last));
            lemma_constraint_at(after, state_idx, last);
            assert forall|s: usize| s != state_idx implies #[trigger] constraint_on(after, s) == constraint_on(before, s) by {
                if exists|k: int| is_constraint(after, s, k) {
                    let k = choose|k: int| is_constraint(after, s, k);
                    assert(k != last);
                    assert(is_constraint(before, s, k));
                    lemma_constraint_at(after, s, k);
                    lemma_constraint_at(before, s, k);
                } else {
                    assert forall|k: int| !is_constraint(before, s, k) by {
                        if is_constraint(before, s, k) {
                            assert(is_constraint(after, s, k));
                        }
                    }
                }
            }
        }
    }

    /// The timeout event of the current state if, at time `now`, the state
    /// has lasted longer than its limit.
    pub fn check_timeout(&self, now: u64) -> (r: Option<BookEvent>)
        requires
            self.wf(),
        ensures
            r is Some <==> timed_out(self.constraints(), self.current_idx(), self.entry_time(), now),
            r is Some ==> event_key(r->0) == event_key(constraint_on(self.constraints(), self.current_idx())->0.timeout_event),
    {
        let n = self.timing_constraints.len();
        let mut i: usize = 0;
        while i < n
            invariant
                n == self.timing_constraints@.len(),
                self.wf(),
                0 <= i <= n,
                forall|k: int| 0 <= k < i ==> !#[trigger] is_constraint(self.timing_constraints@, self.current_state_idx, k),
            decreases n - i,
        {
            if self.timing_constraints[i].0 == self.current_state_idx {
                proof {
                    lemma_constraint_at(self.timing_constraints@, self.current_state_idx, i as int);
                }
                let limit = self.timing_constraints[i].1.max_duration;
                if now > self.state_entry_time && now - self.state_entry_time > limit {
                    return Some(self.timing_constraints[i].1.timeout_event.duplicate());
                }
                return None;
            }
            i += 1;
        }
        None
    }

    /// Looks up the transition from the current state on `event` and takes it
    /// at time `now`: records it in the history (dropping the oldest entry
    /// beyond the limit) and restarts the state's clock.
    fn take_transition(&mut self, event: BookEvent, now: u64) -> (r: Result<&BookState, LibraryError>)
        requires
            old(self).wf(),
        ensures
            final(self).wf(),
            step_result(*old(self), *final(self), event, now, r),
    {
        let ghost ev = event_key(event);
        let n = self.transitions.len();
        let mut i: usize = 0;
        while i < n
            invariant
                n == self.transitions@.len(),
                self.wf(),
                *self == *old(self),
                ev == event_key(event),
                0 <= i <= n,
                forall|k: int| 0 <= k < i ==> !#[trigger] is_rule(self.transitions@, self.current_state_idx, ev, k),
            decreases n - i,
        {
            if self.transitions[i].0.0 == self.current_state_idx && self.transitions[i].0.1.eq(&event) {
                proof {
                    lemma_rule_target_at(self.transitions@, self.current_state_idx, ev, i as int);
                }
                let next = self.transitions[i].1;
                let from = self.states[self.current_state_idx].duplicate();
                self.current_state_idx = next;
                let to = self.states[next].duplicate();
                let record = StateTransition { from, to, event, timestamp: now };
                self.history.push(record);
                if self.history.len() > self.max_history_size {
                    self.history.remove(0);
                }
                self.state_entry_time = now;
                proof {
                    let h = old(self).history@.push(record);
                    assert(self.history@ == trimmed(h, self.max_history_size)) by {
                        if h.len() > self.max_history_size {
                            assert(self.history@ =~= h.drop_first());
                        }
                    }
                }
                return Ok(&self.states[next]);
            }
            i += 1;
        }
        Err(LibraryError::InvalidTransition { from_state: self.states[self.current_state_idx].duplicate(), event })
    }

    /// Processes `event` at time `now`. If the current state has outlasted
    /// its limit, its timeout event is processed instead. Fails with
    /// `InvalidTransition` (state unchanged) when no transition is defined
    /// for the event processed from the current state.
    pub fn process_event(&mut self, event: BookEvent, now: u64) -> (r: Result<&BookState, LibraryError>)
        requires
            old(self).wf(),
        ensures
            final(self).wf(),
            !timed_out(old(self).constraints(), old(self).current_idx(), old(self).entry_time(), now) ==> step_result(
                *old(self),
                *final(self),
                event,
                now,
                r,
            ),
            timed_out(old(self).constraints(), old(self).current_idx(), old(self).entry_time(), now) ==> exists|te: BookEvent|
                event_key(te) == event_key(constraint_on(old(self).constraints(), old(self).current_idx())->0.timeout_event)
                    && #[trigger] step_result(*old(self), *final(self), te, now, r),
    {
        match self.check_timeout(now) {
            Some(timeout_event) => self.take_transition(timeout_event, now),
            None => self.take_transition(event, now),
        }
    }

    /// The current state.
    pub fn current_state(&self) -> (r: &BookState)
        requires
            self.wf(),
        ensures
            *r == self.current(),
    {
        &self.states[self.current_state_idx]
    }

    /// The transitions taken, oldest first.
    pub fn get_history(&self) -> (r: &Vec<StateTransition>)
        ensures
            r@ == self.history(),
    {
        &self.history
    }

    /// All states, by index.
    pub fn get_states(&self) -> (r: &Vec<BookState>)
        ensures
            r@ == self.states(),
    {
        &self.states
    }

    pub fn get_current_state_idx(&self) -> (r: usize)
        ensures
            r == self.current_idx(),
    {
        self.current_state_idx
    }

    /// The defined transitions as ((from, event), to), in definition order.
    pub fn get_all_transitions(&self) -> (r: &Vec<((usize, BookEvent), usize)>)
        ensures
            r@ == self.transitions(),
    {
        &self.transitions
    }

    /// The time limits as (state index, limit), in definition order.
    pub fn get_timing_constraints(&self) -> (r: &Vec<(usize, TimingConstraints)>)
        ensures
            r@ == self.constraints(),
    {
        &self.timing_constraints
    }
}

/// The parts describe a well-formed system: at least one state, the
/// current index and every transition target in range, one transition per
/// (state, event), one limit per state, and a history within its bound
/// (which is at least one).
pub open spec fn restorable(
    states: Seq<BookState>,
    transitions: Seq<((usize, BookEvent), usize)>,
    current_state_idx: usize,
    history_len: nat,
    max_history_size: usize,
    timing_constraints: Seq<(usize, TimingConstraints)>,
) -> bool {
    &&& states.len() >= 1
    &&& current_state_idx < states.len()
    &&& forall|i: int| 0 <= i < transitions.len() ==> #[trigger] transitions[i].1 < states.len()
    &&& unique_rules(transitions)
    &&& unique_constraints(timing_constraints)
    &&& max_history_size >= 1
    &&& history_len <= max_history_size
}

fn rules_unique(transitions: &Vec<((usize, BookEvent), usize)>) -> (r: bool)
    ensures
        r == unique_rules(transitions@),
{
    let n = transitions.len();
    let mut j: usize = 0;
    while j < n
        invariant
            n == transitions@.len(),
            0 <= j <= n,
            forall|a: int, b: int|
                0 <= a < b < j ==> !(#[trigger] transitions@[a].0.0 == #[trigger] transitions@[b].0.0 && event_key(
                    transitions@[a].0.1,
                ) == event_key(transitions@[b].0.1)),
        decreases n - j,
    {
        let mut i: usize = 0;
        while i < j
            invariant
                n == transitions@.len(),
                0 <= i <= j < n,
                forall|a: int, b: int|
                    0 <= a < b < j ==> !(#[trigger] transitions@[a].0.0 == #[trigger] transitions@[b].0.0 && event_key(
                        transitions@[a].0.1,
                    ) == event_key(transitions@[b].0.1)),
                forall|a: int|
                    0 <= a < i ==> !(#[trigger] transitions@[a].0.0 == transitions@[j as int].0.0 && event_key(
                        transitions@[a].0.1,
                    ) == event_key(transitions@[j as int].0.1)),
            decreases j - i,
        {
            if transitions[i].0.0 == transitions[j].0.0 && transitions[i].0.1.eq(&transitions[j].0.1) {
                return false;
            }
            i += 1;
        }
        j += 1;
    }
    true
}

fn constraints_unique(cons: &Vec<(usize, TimingConstraints)>) -> (r: bool)
    ensures
        r == unique_constraints(cons@),
{
    let n = cons.len();
    let mut j: usize = 0;
    while j < n
        invariant
            n == cons@.len(),
            0 <= j <= n,
            forall|a: int, b: int| 0 <= a < b < j ==> #[trigger] cons@[a].0 != #[trigger] cons@[b].0,
        decreases n - j,
    {
        let mut i: usize = 0;
        while i < j
            invariant
                n == cons@.len(),
                0 <= i <= j < n,
                forall|a: int, b: int| 0 <= a < b < j ==> #[trigger] cons@[a].0 != #[trigger] cons@[b].0,
                forall|a: int| 0 <= a < i ==> #[trigger] cons@[a].0 != cons@[j as int].0,
            decreases j - i,
        {
            if cons[i].0 == cons[j].0 {
                return false;
            }
            i += 1;
        }
        j += 1;
    }
    true
}

fn targets_in_range(transitions: &Vec<((usize, BookEvent), usize)>, n_states: usize) -> (r: bool)
    ensures
        r == forall|i: int| 0 <= i < transitions@.len() ==> #[trigger] transitions@[i].1 < n_states,
{
    let n = transitions.len();
    let mut i: usize = 0;
    while i < n
        invariant
            n == transitions@.len(),
            0 <= i <= n,
            forall|k: int| 0 <= k < i ==> #[trigger] transitions@[k].1 < n_states,
        decreases n - i,
    {
        if transitions[i].1 >= n_states {
            return false;
        }
        i += 1;
    }
    true
}

impl LibrarySystem {
    /// The parts of a well-formed system can be restored: saving a system
    /// and restoring what was saved gives it back.
    pub proof fn lemma_parts_restorable(&self)
        requires
            self.wf(),
        ensures
            restorable(
                self.states(),
                self.transitions(),
                self.current_idx(),
                self.history().len(),
                self.max_history(),
                self.constraints(),
            ),
    {
    }

    /// Rebuilds a system from saved parts, with the current state entered at
    /// `now`; `LoadError` when the parts do not describe a well-formed system.
    pub fn restore(
        states: Vec<BookState>,
        transitions: Vec<((usize, BookEvent), usize)>,
        current_state_idx: usize,
        history: Vec<StateTransition>,
        max_history_size: usize,
        timing_constraints: Vec<(usize, TimingConstraints)>,
        system_id: String,
        now: u64,
    ) -> (r: Result<LibrarySystem, LibraryError>)
        ensures
            r is Ok <==> restorable(
                states@,
                transitions@,
                current_state_idx,
                history@.len(),
                max_history_size,
                timing_constraints@,
            ),
            r is Err ==> r->Err_0 is LoadError,
            r is Ok ==> {
                let s = r->Ok_0;
                &&& s.wf()
                &&& s.states() == states@
                &&& s.transitions() == transitions@
                &&& s.current_idx() == current_state_idx
                &&& s.history() == history@
                &&& s.max_history() == max_history_size
                &&& s.constraints() == timing_constraints@
                &&& s.id() == system_id@
                &&& s.entry_time() == now
            },
    {
        let ok = states.len() >= 1 && current_state_idx < states.len() && targets_in_range(&transitions, states.len())
            && rules_unique(&transitions) && constraints_unique(&timing_constraints) && max_history_size >= 1
            && history.len() <= max_history_size;
        if !ok {
            return Err(LibraryError::LoadError(String::from_str("saved state is inconsistent")));
        }
        Ok(
            LibrarySystem {
                states,
                transitions,
                current_state_idx,
                history,
                max_history_size,
                state_entry_time: now,
                timing_constraints,
                system_id,
            },
        )
    }

    pub fn get_max_history_size(&self) -> (r: usize)
        ensures
            r == self.max_history(),
    {
        self.max_history_size
    }

    pub fn get_system_id(&self) -> (r: &String)
        ensures
            r@ == self.id(),
    {
        &self.system_id
    }
}

pub open spec fn error_text(e: LibraryError) -> Seq<char> {
    match e {
        LibraryError::InvalidTransition { from_state, event } => "Cannot process event "@ + event_debug(event)
            + " from current state "@ + state_debug(from_state),
        LibraryError::PersistenceError(m) => "Persistence error: "@ + m@,
        LibraryError::LoadError(m) => "Load error: "@ + m@,
    }
}

impl LibraryError {
    /// The error as one line of text.
    pub fn message(&self) -> (r: String)
        ensures
            r@ == error_text(*self),
    {
        match self {
            LibraryError::InvalidTransition { from_state, event } => {
                let e = event.debug_text();
                let s = from_state.debug_text();
                String::from_str("Cannot process event ").concat(e.as_str()).concat(" from current state ").concat(
                    s.as_str(),
                )
            },
            LibraryError::PersistenceError(m) => String::from_str("Persistence error: ").concat(m.as_str()),
            LibraryError::LoadError(m) => String::from_str("Load error: ").concat(m.as_str()),
        }
    }
}

impl LibrarySystem {
    /// The description of the current state.
    pub fn describe(&self) -> (r: String)
        requires
            self.wf(),
        ensures
            r@ == description(self.current()),
    {
        self.current_state().get_description()
    }
}

fn slot(system: &mut LibrarySystem, state: BookState) -> (r: usize)
    requires
        old(system).wf(),
    ensures
        final(system).wf(),
        r < final(system).states().len(),
        final(system).states().len() >= old(system).states().len(),
        final(system).current_idx() == old(system).current_idx(),
        final(system).history() == old(system).history(),
        final(system).max_history() == old(system).max_history(),
        final(system).id() == old(system).id(),
{
    system.add_state(state)
}

fn link(system: &mut LibrarySystem, from: usize, event: BookEvent, to: usize)
    requires
        old(system).wf(),
        to < old(system).states().len(),
    ensures
        final(system).wf(),
        final(system).states() == old(system).states(),
        final(system).current_idx() == old(system).current_idx(),
        final(system).history() == old(system).history(),
        final(system).max_history() == old(system).max_history(),
        final(system).id() == old(system).id(),
{
    system.add_transition(from, event, to);
}

fn limit(system: &mut LibrarySystem, idx: usize, ms: u64, event: BookEvent)
    requires
        old(system).wf(),
    ensures
        final(system).wf(),
        final(system).states() == old(system).states(),
        final(system).current_idx() == old(system).current_idx(),
        final(system).history() == old(system).history(),
        final(system).max_history() == old(system).max_history(),
        final(system).id() == old(system).id(),
{
    system.add_timing_constraint(idx, ms, event);
}

/// Milliseconds in a day.
pub const DAY_MS: u64 = 86_400_000;

/// Fills `system` (whose state 0 is `Available`) with the full lending
/// cycle for two patrons, Alice and Bob: reservations, check-outs, returns,
/// transfers, repairs, losses, and time limits of three days on a
/// reservation and fourteen on a loan.
pub fn setup_library_system(system: &mut LibrarySystem)
    requires
        old(system).wf(),
    ensures
        final(system).wf(),
        final(system).current_idx() == old(system).current_idx(),
        final(system).history() == old(system).history(),
        final(system).states().len() >= old(system).states().len(),
        final(system).max_history() == old(system).max_history(),
        final(system).id() == old(system).id(),
{
    let available_idx: usize = 0;
    let reserved_alice_idx = slot(system, BookState::Reserved(String::from_str("Alice")));
    let checked_out_alice_idx = slot(system, BookState::CheckedOut(String::from_str("Alice")));
    let reserved_bob_idx = slot(system, BookState::Reserved(String::from_str("Bob")));
    let checked_out_bob_idx = slot(system, BookState::CheckedOut(String::from_str("Bob")));
    let in_transit_idx = slot(system, BookState::InTransit);
    let under_repair_idx = slot(system, BookState::UnderRepair);
    let lost_idx = slot(system, BookState::Lost);

    link(system, available_idx, BookEvent::Reserve(String::from_str("Alice")), reserved_alice_idx);
    link(system, available_idx, BookEvent::Reserve(String::from_str("Bob")), reserved_bob_idx);
    link(system, available_idx, BookEvent::CheckOut(String::from_str("Alice")), checked_out_alice_idx);
    link(system, available_idx, BookEvent::CheckOut(String::from_str("Bob")), checked_out_bob_idx);
    link(system, available_idx, BookEvent::Transfer, in_transit_idx);
    link(system, available_idx, BookEvent::SendToRepair, under_repair_idx);
    link(system, available_idx, BookEvent::ReportLost, lost_idx);

    link(system, reserved_alice_idx, BookEvent::CancelReservation, available_idx);
    link(system, reserved_alice_idx, BookEvent::CheckOut(String::from_str("Alice")), checked_out_alice_idx);
    link(system, reserved_alice_idx, BookEvent::ReportLost, lost_idx);

    link(system, reserved_bob_idx, BookEvent::CancelReservation, available_idx);
    link(system, reserved_bob_idx, BookEvent::CheckOut(String::from_str("Bob")), checked_out_bob_idx);
    link(system, reserved_bob_idx, BookEvent::ReportLost, lost_idx);

    link(system, checked_out_alice_idx, BookEvent::Return, available_idx);
    link(system, checked_out_alice_idx, BookEvent::ReportLost, lost_idx);

    link(system, checked_out_bob_idx, BookEvent::Return, available_idx);
    link(system, checked_out_bob_idx, BookEvent::ReportLost, lost_idx);

    link(system, in_transit_idx, BookEvent::TransferComplete, available_idx);
    link(system, in_transit_idx, BookEvent::ReportLost, lost_idx);

    link(system, under_repair_idx, BookEvent::CompleteRepair, available_idx);
    link(system, under_repair_idx, BookEvent::ReportLost, lost_idx);

    link(system, lost_idx, BookEvent::Found, available_idx);

    limit(system, reserved_alice_idx, 3 * DAY_MS, BookEvent::CancelReservation);
    limit(system, reserved_bob_idx, 3 * DAY_MS, BookEvent::CancelReservation);
    limit(system, checked_out_alice_idx, 14 * DAY_MS, BookEvent::Return);
    limit(system, checked_out_bob_idx, 14 * DAY_MS, BookEvent::Return);
}

} // verus!
