//! System-prompt assembly from ordered, semantically tagged fragments.
pub mod builder;
pub mod mutation;
pub mod types;

pub use builder::PromptBuilder;
pub use mutation::PromptMutation;
pub use types::{FragmentKind, FragmentSource, PromptFragment, RenderedFragment, RenderedPrompt};
