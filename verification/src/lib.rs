//! Document-editing core of a text editor: half-open text ranges, atomic
//! changes and change sets over a rope, and a tracker of marked ranges that
//! are addressed by stable identifiers.

pub mod arena;
pub mod buffer;
pub mod change;
pub mod edit;
pub mod marked_range;
pub mod permutation;
pub mod state;
pub mod text_range;
pub mod text_size;

pub use change::{Change, ChangeSet, ChangeSetBuilder};
pub use edit::Edit;
pub use marked_range::{MarkedRangeId, MarkedRanges};
pub use state::{Selection, State};
pub use text_range::{Span, TextRange};
pub use text_size::TextRange1;
