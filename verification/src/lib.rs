//! A processor for branching-narrative dialogue scripts.
//!
//! A story is a graph of knots and stitches whose nodes hold lines of text
//! and branching choice points. The host program walks the story with
//! [`Story::start`](story::Story::start), [`Story::resume`](story::Story::resume)
//! and [`Story::make_choice`](story::Story::make_choice): `resume` fills a
//! buffer with rendered lines until the story needs a choice or ends.

mod address;
mod choice;
mod condition;
mod error;
mod expression;
mod follow;
mod knot;
mod line;
mod log;
mod node;
mod story;
mod text;
mod validate;
mod variable;

pub use address::{Address, AddressKind, KnotNameEntry, ValidationData};
pub use error::{
    IncorrectNodeStackError, InklingError, InternalError, InvalidAddressError, MetaData,
};
pub use choice::{Choice, InternalChoice};
pub use condition::Condition;
pub use expression::Expression;
pub use follow::{ChoiceSetData, FollowData, KnotCounts, StitchCount, VariableEntry};
pub use knot::{Knot, KnotSet, Stitch};
pub use line::{AlternativeKind, InternalLine, Line, LineBuffer, LineChunk};
pub use log::{Logger, Warning};
pub use node::{
    Branch, BranchBuilder, BranchingPointBuilder, NodeItem, RootNode, RootNodeBuilder,
};
pub use story::{copy_lines_into_string, Prompt, Story, StoryBuildError, StoryEnd};
pub use validate::ValidationError;
pub use variable::{OpKind, Variable, VariableKind};
