//! A predictable reactive state container.
//!
//! The state of an application changes only through actions, which a [`Reducer`] applies;
//! after each change a [`Reactor`] is told about the new state.
use vstd::prelude::*;

pub mod arith;
pub mod reactor;
pub mod reducer;
pub mod sink;
pub mod store;
pub mod task;

pub use crate::arith::Arith;
pub use crate::reactor::{MockSubscriber, Reactor};
pub use crate::reducer::{MockReducer, Reducer};
pub use crate::sink::TryReactor;
pub use crate::store::{Dispatcher, Store};
pub use crate::task::{Completion, DispatchError, Task, TaskView};

verus! {

} // verus!
