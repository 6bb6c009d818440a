//! A type-keyed resource store with lazy, deduplicated construction.
//!
//! Each resource kind is identified by a numeric key. A key's slot is absent,
//! under construction (a placeholder that records its owner and the parties
//! waiting for it), or filled with a value. The store decides every
//! transition of a slot; the parties that block, wake or run constructors
//! act on what these transitions return.
//!
//! A handle also carries a list of required keys, each of which names a
//! filled slot, so that reading them cannot fail.
pub mod dependency;
pub mod laws;
pub mod obtain;
pub mod resource;
pub mod slot;
pub mod state;
pub mod waiter;

pub use dependency::{Dep, DependencyError, Obtain};
pub use obtain::ObtainStep;
pub use resource::Resource;
pub use slot::{Slot, SlotDesc, SlotState};
pub use state::{Aero, Aerosol, PollKind, SlotPoll};
pub use waiter::ThreadOrWaker;
