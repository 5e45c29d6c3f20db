//! Finds broken symbolic links and helps repair them: ranks files that could
//! be the moved target, renders each repair case, reads the user's choice and
//! drives the interactive repair session.

pub mod display;
pub mod fuzzy;
pub mod input;
pub mod model;
pub mod path;
pub mod safety;
pub mod session;
pub mod text;

pub use display::{format_actions, format_candidates, format_header, present};
pub use fuzzy::{find_candidates, BrokenSymlink, ScoredCandidate, WalkEntry};
pub use input::{parse_choice, ParseError, ParsedInput};
pub use model::{Action, RepairCase, Summary};
pub use safety::{format_warnings, relink_warnings, LinkProbe, LoopCheck, LoopStep, RelinkWarning};
pub use session::{Command, Event, Expecting, Session};
