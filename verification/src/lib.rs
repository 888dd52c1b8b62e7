//! Client side of the MPD wire protocol: framing of requests, classification
//! of response lines, decoding of failure lines, typed decoding of key/value
//! responses and assembly of chunked binary payloads, over a socket that the
//! caller supplies.

pub mod channel;
pub mod errors;
pub mod line;
pub mod lrc;
pub mod number;
pub mod proto_client;
pub mod screen;
pub mod steps;
pub mod text;
pub mod transcript;

pub use channel::{Channel, SocketClient};
pub use errors::{ErrorCode, IoFailure, MpdError, MpdFailureResponse};
pub use lrc::{Lrc, LrcError, LrcLine, LrcReader};
pub use line::{classify_line, decode_request, split_line, FromMpd, LineHandled, MpdLine};
pub use proto_client::ProtoClient;
pub use screen::{filter_key, push_log, FilterKey, KeyOutcome, LOG_CAP};
pub use steps::{
    after_line, after_round, after_write, expect_terminator, frame_command, offset_command,
    BinaryMpdResponse, LineStep, RoundStep, WriteStep, LINE_BUDGET, MAX_RECONNECTS,
};
