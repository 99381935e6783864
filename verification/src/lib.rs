//! A typed, priority-ordered publish/subscribe event bus.
//!
//! Handlers for an event type are registered on a bus with a priority and are
//! invoked in ascending priority order when an event is posted through that
//! bus. A handler may cancel a cancellable event, which ends the dispatch.

pub mod bus;
pub mod event;
pub mod handler;
pub mod id;
pub mod laws;
pub mod metadata;

pub use bus::EventBus;
pub use event::Event;
pub use id::EventHandlerId;
pub use metadata::EventMetadata;
