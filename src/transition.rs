//! A generic transition system: rules that move from any of their source
//! states to a target state on one event, subject to a guard, tried in the
//! order they were registered.
use vstd::prelude::*;
use vstd::std_specs::cmp::PartialEqSpec;

verus! {

/// What the states of a transition system offer: copies, debug output and comparison.
pub trait State: Clone + core::fmt::Debug + PartialEq {
}

impl<T: Clone + core::fmt::Debug + PartialEq> State for T {
}

/// Why a transition did not happen.
#[derive(Debug, Clone, PartialEq)]
pub enum TransitionError {
    /// No registered rule moves from the current state on this event.
    InvalidTransition,
    /// A guard refused, with its reason.
    GuardFailed(String),
    /// Any other failure, with its reason.
    Custom(String),
}

/// A condition on the state and the event that a rule must meet to fire.
pub trait Guard<S, E> {
    /// The guard lets the transition through.
    spec fn allows(&self, state: &S, event: &E) -> bool;

    /// The reason the guard gives when it refuses.
    spec fn reason(&self, state: &S, event: &E) -> String;

    fn check(&self, state: &S, event: &E) -> (r: Result<(), String>)
        ensures
            r is Ok <==> self.allows(state, event),
            r is Err ==> r->Err_0 == self.reason(state, event),
    ;
}

/// The guard of a rule built without one: it always lets the transition through.
#[derive(Debug, Clone, Copy)]
pub struct NoGuard;

impl<S, E> Guard<S, E> for NoGuard {
    open spec fn allows(&self, state: &S, event: &E) -> bool {
        true
    }

    open spec fn reason(&self, state: &S, event: &E) -> String {
        arbitrary()
    }

    fn check(&self, state: &S, event: &E) -> (r: Result<(), String>) {
        Ok(())
    }
}

/// Two guards, checked in order; the first refusal is the answer.
#[derive(Debug, Clone, Copy)]
pub struct BothGuards<A, B> {
    pub first: A,
    pub second: B,
}

impl<S, E, A: Guard<S, E>, B: Guard<S, E>> Guard<S, E> for BothGuards<A, B> {
    open spec fn allows(&self, state: &S, event: &E) -> bool {
        self.first.allows(state, event) && self.second.allows(state, event)
    }

    open spec fn reason(&self, state: &S, event: &E) -> String {
        if self.first.allows(state, event) {
            self.second.reason(state, event)
        } else {
            self.first.reason(state, event)
        }
    }

    fn check(&self, state: &S, event: &E) -> (r: Result<(), String>) {
        match self.first.check(state, event) {
            Ok(()) => self.second.check(state, event),
            Err(msg) => Err(msg),
        }
    }
}

/// Something that moves a state along on an event.
pub trait Transition<S> {
    type Event;

    type Error;

    /// The contract below pins the outcome down (for a rule: where states
    /// and events compare as their `eq_spec` says).
    spec fn exact() -> bool;

    /// The transition applies from `state` on `event`.
    spec fn valid(&self, state: &S, event: &Self::Event) -> bool;

    /// The state this transition leads to from `state` on `event`, or why it does not apply.
    fn apply(&self, state: &S, event: Self::Event) -> (r: Result<S, Self::Error>)
        ensures
            Self::exact() ==> (r is Ok <==> self.valid(state, &event)),
    ;

    /// Whether `apply` would succeed.
    fn is_valid(&self, state: &S, event: &Self::Event) -> (r: bool)
        ensures
            Self::exact() ==> r == self.valid(state, event),
    ;
}

/// A rule: from any of `sources` (any state at all when there are none)
/// to `target`, on `event`, when `guard` allows.
#[derive(Debug, Clone)]
pub struct TypedTransition<S, E, G> {
    sources: Vec<S>,
    target: S,
    event: E,
    guard: G,
}

impl<S: PartialEq + Clone, E: PartialEq, G: Guard<S, E>> TypedTransition<S, E, G> {
    pub closed spec fn sources(&self) -> Seq<S> {
        self.sources@
    }

    pub closed spec fn target(&self) -> S {
        self.target
    }

    pub closed spec fn event(&self) -> E {
        self.event
    }

    pub closed spec fn guard(&self) -> G {
        self.guard
    }

    /// `state` is one of the sources, or the rule has none.
    pub open spec fn source_ok(&self, state: &S) -> bool {
        self.sources().len() == 0 || exists|i: int|
            0 <= i < self.sources().len() && #[trigger] self.sources()[i].eq_spec(state)
    }

    /// The rule fires from `state` on `event`.
    pub open spec fn fires(&self, state: &S, event: &E) -> bool {
        self.source_ok(state) && self.event().eq_spec(event) && self.guard().allows(state, event)
    }

    pub fn new(sources: Vec<S>, target: S, event: E, guard: G) -> (r: Self)
        ensures
            r.sources() == sources@,
            r.target() == target,
            r.event() == event,
            r.guard() == guard,
    {
        TypedTransition { sources, target, event, guard }
    }

    fn source_matches(&self, state: &S) -> (r: bool)
        ensures
            S::obeys_eq_spec() ==> r == self.source_ok(state),
    {
        let n = self.sources.len();
        if n == 0 {
            return true;
        }
        let mut i: usize = 0;
        while i < n
            invariant
                n == self.sources@.len(),
                n > 0,
                0 <= i <= n,
                S::obeys_eq_spec() ==> forall|k: int| 0 <= k < i ==> !(#[trigger] self.sources@[k].eq_spec(state)),
            decreases n - i,
        {
            if self.sources[i].eq(state) {
                return true;
            }
            i += 1;
        }
        false
    }

    /// The target if the rule fires from `state` on `event`; otherwise
    /// `InvalidTransition` (wrong state or event) or `GuardFailed` (the guard refused).
    /// Where the state and event types compare as their `eq_spec` says (as
    /// derived `PartialEq` does), the contract pins the outcome down.
    pub fn fire(&self, state: &S, event: &E) -> (r: Result<S, TransitionError>)
        ensures
            r is Ok ==> cloned(self.target(), r->Ok_0),
            S::obeys_eq_spec() && E::obeys_eq_spec() ==> {
                &&& (r is Ok <==> self.fires(state, event))
                &&& (!self.source_ok(state) || !self.event().eq_spec(event) ==> r == Err::<S, TransitionError>(
                    TransitionError::InvalidTransition,
                ))
                &&& (self.source_ok(state) && self.event().eq_spec(event) && !self.guard().allows(state, event) ==> r
                    == Err::<S, TransitionError>(TransitionError::GuardFailed(self.guard().reason(state, event))))
            },
    {
        if !self.source_matches(state) {
            return Err(TransitionError::InvalidTransition);
        }
        if !self.event.eq(event) {
            return Err(TransitionError::InvalidTransition);
        }
        match self.guard.check(state, event) {
            Ok(()) => Ok(self.target.clone()),
            Err(msg) => Err(TransitionError::GuardFailed(msg)),
        }
    }
}

impl<S: PartialEq + Clone, E: PartialEq, G: Guard<S, E>> Transition<S> for TypedTransition<S, E, G> {
    type Event = E;

    type Error = TransitionError;

    open spec fn exact() -> bool {
        eq_obeyed::<S, E>()
    }

    open spec fn valid(&self, state: &S, event: &E) -> bool {
        self.fires(state, event)
    }

    fn apply(&self, state: &S, event: E) -> Result<S, TransitionError> {
        self.fire(state, &event)
    }

    fn is_valid(&self, state: &S, event: &E) -> bool {
        self.fire(state, event).is_ok()
    }
}

/// Builds a `TypedTransition` step by step.
#[derive(Debug, Clone)]
pub struct TransitionBuilder<S, E, G> {
    source_states: Vec<S>,
    target_state: Option<S>,
    event: Option<E>,
    guard: G,
}

impl<S: PartialEq + Clone, E: PartialEq> TransitionBuilder<S, E, NoGuard> {
    /// No sources, no target, no event, no guard.
    pub fn new() -> (r: Self)
        ensures
            r.sources() == Seq::<S>::empty(),
            r.target() is None,
            r.event() is None,
    {
        TransitionBuilder { source_states: Vec::new(), target_state: None, event: None, guard: NoGuard }
    }
}

impl<S: PartialEq + Clone, E: PartialEq, G: Guard<S, E>> TransitionBuilder<S, E, G> {
    pub closed spec fn sources(&self) -> Seq<S> {
        self.source_states@
    }

    pub closed spec fn target(&self) -> Option<S> {
        self.target_state
    }

    pub closed spec fn event(&self) -> Option<E> {
        self.event
    }

    pub closed spec fn guard_spec(&self) -> G {
        self.guard
    }

    /// Adds a source state.
    pub fn from(self, state: S) -> (r: Self)
        ensures
            r.sources() == self.sources().push(state),
            r.target() == self.target(),
            r.event() == self.event(),
            r.guard_spec() == self.guard_spec(),
    {
        let mut b = self;
        b.source_states.push(state);
        b
    }

    /// Sets the target state.
    pub fn to(self, state: S) -> (r: Self)
        ensures
            r.sources() == self.sources(),
            r.target() == Some(state),
            r.event() == self.event(),
            r.guard_spec() == self.guard_spec(),
    {
        let mut b = self;
        b.target_state = Some(state);
        b
    }

    /// Sets the triggering event.
    pub fn on_event(self, event: E) -> (r: Self)
        ensures
            r.sources() == self.sources(),
            r.target() == self.target(),
            r.event() == Some(event),
            r.guard_spec() == self.guard_spec(),
    {
        let mut b = self;
        b.event = Some(event);
        b
    }

    /// Adds a guard, checked after the ones added before it.
    pub fn guard<H: Guard<S, E>>(self, guard: H) -> (r: TransitionBuilder<S, E, BothGuards<G, H>>)
        ensures
            r.sources() == self.sources(),
            r.target() == self.target(),
            r.event() == self.event(),
            r.guard_spec() == (BothGuards { first: self.guard_spec(), second: guard }),
    {
        TransitionBuilder {
            source_states: self.source_states,
            target_state: self.target_state,
            event: self.event,
            guard: BothGuards { first: self.guard, second: guard },
        }
    }

    /// The rule described so far. Target and event must have been set.
    pub fn build(self) -> (r: TypedTransition<S, E, G>)
        requires
            self.target() is Some,
            self.event() is Some,
        ensures
            r.sources() == self.sources(),
            r.target() == self.target()->0,
            r.event() == self.event()->0,
            r.guard() == self.guard_spec(),
    {
        let target = self.target_state.unwrap();
        let event = self.event.unwrap();
        TypedTransition::new(self.source_states, target, event, self.guard)
    }
}

/// A current state and the rules that move it, tried in registration order.
#[derive(Debug, Clone)]
pub struct TransitionSystem<S, E, G> {
    current_state: S,
    transitions: Vec<TypedTransition<S, E, G>>,
}

/// Some rule fires from `state` on `event`.
pub open spec fn some_rule_fires<S: PartialEq + Clone, E: PartialEq, G: Guard<S, E>>(
    rules: Seq<TypedTransition<S, E, G>>,
    state: &S,
    event: &E,
) -> bool {
    exists|i: int| 0 <= i < rules.len() && #[trigger] rules[i].fires(state, event)
}

/// `k` is the first rule that fires from `state` on `event`.
pub open spec fn first_to_fire<S: PartialEq + Clone, E: PartialEq, G: Guard<S, E>>(
    rules: Seq<TypedTransition<S, E, G>>,
    state: &S,
    event: &E,
    k: int,
) -> bool {
    &&& 0 <= k < rules.len()
    &&& rules[k].fires(state, event)
    &&& forall|j: int| 0 <= j < k ==> !(#[trigger] rules[j].fires(state, event))
}

/// The state and event types compare as their `eq_spec` says.
pub open spec fn eq_obeyed<S: PartialEq, E: PartialEq>() -> bool {
    S::obeys_eq_spec() && E::obeys_eq_spec()
}

impl<S: PartialEq + Clone, E: PartialEq, G: Guard<S, E>> TransitionSystem<S, E, G> {
    pub closed spec fn current(&self) -> S {
        self.current_state
    }

    pub closed spec fn rules(&self) -> Seq<TypedTransition<S, E, G>> {
        self.transitions@
    }

    /// A system in `initial_state` with no rules.
    pub fn new(initial_state: S) -> (r: Self)
        ensures
            r.current() == initial_state,
            r.rules() == Seq::<TypedTransition<S, E, G>>::empty(),
    {
        TransitionSystem { current_state: initial_state, transitions: Vec::new() }
    }

    /// Adds a rule after the existing ones.
    pub fn register_transition(&mut self, transition: TypedTransition<S, E, G>)
        ensures
            final(self).current() == old(self).current(),
            final(self).rules() == old(self).rules().push(transition),
    {
        self.transitions.push(transition);
    }

    /// Moves to the target of the first rule that fires from the current
    /// state on `event`; `InvalidTransition`, with the state unchanged, when none does.
    pub fn apply_event(&mut self, event: E) -> (r: Result<&S, TransitionError>)
        ensures
            final(self).rules() == old(self).rules(),
            r is Ok ==> *r->Ok_0 == final(self).current(),
            r is Err ==> final(self).current() == old(self).current(),
            eq_obeyed::<S, E>() ==> {
                &&& !some_rule_fires(old(self).rules(), &old(self).current(), &event) ==> r == Err::<&S, TransitionError>(
                    TransitionError::InvalidTransition,
                )
                &&& some_rule_fires(old(self).rules(), &old(self).current(), &event) ==> r is Ok
                &&& r is Ok ==> exists|k: int| #[trigger] first_to_fire(old(self).rules(), &old(self).current(), &event, k)
                    && cloned(old(self).rules()[k].target(), final(self).current())
            },
    {
        let n = self.transitions.len();
        let mut i: usize = 0;
        while i < n
            invariant
                n == self.transitions@.len(),
                self.transitions@ == old(self).transitions@,
                self.current_state == old(self).current_state,
                0 <= i <= n,
                eq_obeyed::<S, E>() ==> forall|j: int| 0 <= j < i ==> !(#[trigger] self.transitions@[j].fires(&self.current_state, &event)),
            decreases n - i,
        {
            match self.transitions[i].fire(&self.current_state, &event) {
                Ok(next) => {
                    proof {
                        if eq_obeyed::<S, E>() {
                            assert(first_to_fire(old(self).rules(), &old(self).current(), &event, i as int));
                        }
                    }
                    self.current_state = next;
                    return Ok(&self.current_state);
                },
                Err(_) => {},
            }
            i += 1;
        }
        Err(TransitionError::InvalidTransition)
    }

    /// The current state.
    pub fn current_state(&self) -> (r: &S)
        ensures
            *r == self.current(),
    {
        &self.current_state
    }

    /// Whether some rule fires from the current state on `event`.
    pub fn can_transition(&self, event: &E) -> (r: bool)
        ensures
            eq_obeyed::<S, E>() ==> r == some_rule_fires(self.rules(), &self.current(), event),
    {
        let n = self.transitions.len();
        let mut i: usize = 0;
        while i < n
            invariant
                n == self.transitions@.len(),
                0 <= i <= n,
                eq_obeyed::<S, E>() ==> forall|j: int| 0 <= j < i ==> !(#[trigger] self.transitions@[j].fires(&self.current_state, event)),
            decreases n - i,
        {
            if self.transitions[i].fire(&self.current_state, event).is_ok() {
                return true;
            }
            i += 1;
        }
        false
    }

    /// The events of `events` that some rule fires on from the current
    /// state, in their order.
    pub fn possible_transitions(&self, events: &[E]) -> (r: Vec<E>)
        where
            E: Clone,
        ensures
            r@.len() <= events@.len(),
            eq_obeyed::<S, E>() ==> {
                let enabled = events@.filter(|e: E| some_rule_fires(self.rules(), &self.current(), &e));
                &&& r@.len() == enabled.len()
                &&& forall|k: int| 0 <= k < r@.len() ==> #[trigger] cloned(enabled[k], r@[k])
            },
    {
        let ghost p = |e: E| some_rule_fires(self.rules(), &self.current(), &e);
        let mut out: Vec<E> = Vec::new();
        let n = events.len();
        let mut i: usize = 0;
        proof {
            reveal(Seq::filter);
            assert(events@.take(0).filter(p) =~= Seq::<E>::empty());
        }
        while i < n
            invariant
                n == events@.len(),
                0 <= i <= n,
                out@.len() <= i,
                p == (|e: E| some_rule_fires(self.rules(), &self.current(), &e)),
                eq_obeyed::<S, E>() ==> {
                    let enabled = events@.take(i as int).filter(p);
                    &&& out@.len() == enabled.len()
                    &&& forall|k: int| 0 <= k < out@.len() ==> #[trigger] cloned(enabled[k], out@[k])
                },
            decreases n - i,
        {
            let ghost before = out@;
            let ok = self.can_transition(&events[i]);
            if ok {
                let e = events[i].clone();
                out.push(e);
            }
            proof {
                let t1 = events@.take(i + 1);
                reveal(Seq::filter);
                assert(t1.drop_last() =~= events@.take(i as int));
                assert(t1.last() == events@[i as int]);
                if eq_obeyed::<S, E>() {
                    assert(ok == p(events@[i as int]));
                    let enabled = t1.filter(p);
                    assert forall|k: int| 0 <= k < out@.len() implies #[trigger] cloned(enabled[k], out@[k]) by {
                        if k < before.len() {
                            assert(out@[k] == before[k]);
                        }
                    }
                }
            }
            i += 1;
        }
        proof {
            assert(events@.take(n as int) =~= events@);
        }
        out
    }
}

} // verus!
