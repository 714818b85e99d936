//! The input stream that parsers read: tokens, their positions, and arbitrary lookahead.
mod stream;
mod lookahead;
mod position;
mod source;
mod token;

pub use stream::{char_position, end_position, next_position, parser_step, Input, InputView, StringInput};
pub use lookahead::{LookAheadFrame, LookAheadHandler, TokenLocation};
pub use position::{position_text, Position};
pub use source::{InputSource, TokenInputSource};
pub use token::{CharToken, InputToken};
