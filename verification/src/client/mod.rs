//! The client side: what the user types, how it is edited, completed and
//! parsed, and how channel output is prepared for display.

pub mod app;
pub mod commands;
pub mod completion;
pub mod history;
pub mod input;
pub mod keys;
pub mod lines;
pub mod notices;
pub mod renderer;
pub mod store;
pub mod ui;

pub use app::{
    App, BufferedLine, BufferedLineView, ChannelColor, ChannelInfo, ChannelInfoView, LineEditor,
    LineView, ViewMode,
};
pub use commands::{handle_control_command, CommandOutcome, CommandResult};
pub use completion::{common_prefix, complete, longest_common_prefix};
pub use input::{parse_input, parsed, ParsedInput, ParsedInputView};
