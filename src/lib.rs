pub mod apply;
pub mod checkpoint;
pub mod error;
pub mod fixture;
pub mod history;
pub mod index;
pub mod key;
pub mod lanes;
pub mod messages;
pub mod laws;
pub mod router;
pub mod traits;
pub mod worker;

pub use key::ContimeKey;
pub use traits::{ApplyEvent, Event, Snapshot};
pub use index::{index_before, indexes_between};
pub use checkpoint::Checkpoint;
pub use apply::{apply_event_in_place, insert_new_event_in_place};
pub use history::{DefDeps, Deps, LocalSnapshotHistory, SnapshotHistory};
pub use fixture::{TestEvent, TestSnapshot};
pub use error::{ContimeError, RouterError};
pub use lanes::{TestEventLanes, TestSnapshotLanes};
pub use messages::{RouterInbound, RouterOutbound, WorkerInbound, WorkerOutbound};
pub use worker::{WorkerAction, WorkerState};
