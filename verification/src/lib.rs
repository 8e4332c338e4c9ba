//! A server-resident reactive rendering engine: stateful view instances
//! render to a markup tree, successive renders are diffed into minimal
//! patches, and dirty instances are tracked in a deduplicated render queue
//! until a live session reconciles them and streams the patches out.

pub mod ident;
pub mod text;
pub mod value;
pub mod node;
pub mod diff;
pub mod state;
pub mod effects;
pub mod events;
pub mod queue;
pub mod context;
pub mod wire;
pub mod session;

