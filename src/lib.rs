//! Lock-free stack and queue algorithms over an index arena, the memory
//! reclamation schemes they run with (epochs, hazard pointers, versioned
//! tagged pointers), a generic transition system, and a library-book state
//! machine.

pub mod book;
pub mod epoch;
pub mod hazard;
pub mod library;
pub mod observers;
pub mod queue;
pub mod reclaim;
pub mod slots;
pub mod stack;
pub mod tagged;
pub mod text;
pub mod transition;
pub mod visualization;

pub use book::{BookEvent, BookState};
pub use epoch::EpochReclaimer;
pub use hazard::HazardPointers;
pub use library::{LibraryError, LibrarySystem, StateTransition, TimeStamp, TimingConstraints};
pub use queue::{LockFreeQueue, QueueError};
pub use reclaim::{ImmediateReclaimer, Reclaimer};
pub use stack::{LockFreeStack, StackError};
pub use tagged::{AtomicTaggedPtr, TaggedPtr, NIL};
pub use transition::{
    BothGuards, Guard, NoGuard, Transition, TransitionBuilder, TransitionError, TransitionSystem, TypedTransition,
};
