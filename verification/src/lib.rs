pub mod actor;
pub mod actor_macro;
pub mod actor_message;
pub mod actor_queue;
pub mod dash;
pub mod list;
pub mod log_pipeline;
pub mod proplist;
pub mod report;
pub mod sample_log;
pub mod stage;
pub mod text;

pub use actor::ActorResult;
pub use actor_message::{ActorRef, MsgCtx};
pub use list::{Iter, List};
