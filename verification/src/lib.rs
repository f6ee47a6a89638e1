mod comms;
mod coordinator;
mod err;
mod escape;
mod jobs;
mod session;
mod utils;

pub use comms::{ack_token, decode_control, encode_control, CommsOp, CommsOpView};
pub use coordinator::{intake_step, Action, Coordinator, IntakeReaction};
pub use err::{ScrapeError, ScrapeResult};
pub use jobs::{JobView, ScrapeConfig, ScrapeJob};
pub use session::{ClientOp, ServerOp};
pub use utils::{format_duration, parse_u16, split_once, u64_to_decimal};
