//! The decisions of the transaction engine, each as a function from what a
//! call returned to what the engine does next.

use crate::errors::{view_result, ErrorView, IoFailure, IoErrorView, MpdError};
use crate::line::{decode_request, decode_request_spec, LineView, MpdLine};
use crate::number::{parse_u32, parse_u64, parse_unsigned, render_decimal, render_u64};
use crate::text::{equal, string_of, to_chars};
use vstd::prelude::*;
use vstd::string::*;

verus! {

/// How often one transaction may reconnect after the peer closed the
/// connection in the middle of a response.
pub const MAX_RECONNECTS: usize = 3;

/// How many lines one pass over a response may read before the engine gives
/// up on a peer that never ends it.
pub const LINE_BUDGET: u64 = 0xffff_ffff_ffff_ffff;

/// The bytes that go on the wire for a command: its text and a line feed.
pub open spec fn frame_spec(command: Seq<char>) -> Seq<u8> {
    vstd::utf8::encode_utf8(command).push(0x0au8)
}

/// The text of the error for a value line where the response had to end.
pub open spec fn expected_ok_message(value: Seq<char>) -> Seq<char> {
    "Expected 'OK' but got '"@ + value + "'"@
}

/// The text of the error for a key that the binary preamble does not have.
pub open spec fn unexpected_key_message(key: Seq<char>) -> Seq<char> {
    "Unexpected key when parsing binary response: '"@ + key + "'"@
}

/// The command that asks for the slice of a binary payload that starts at
/// `offset`: the base command, a space, and the offset in decimal.
pub open spec fn offset_command_spec(command: Seq<char>, offset: nat) -> Seq<char> {
    command + " "@ + render_decimal(offset)
}

/// The bytes that go on the wire for a command.
pub fn frame_command(command: &str) -> (bytes: Vec<u8>)
    ensures
        bytes@ == frame_spec(command@),
{
    let mut bytes = command.as_bytes_vec();
    bytes.push(0x0au8);
    bytes
}

/// The command that asks for the slice of a binary payload that starts at
/// `offset`.
pub fn offset_command(command: &str, offset: usize) -> (r: String)
    ensures
        r@ == offset_command_spec(command@, offset as nat),
{
    let digits = render_u64(offset as u64);
    let digits = string_of(digits.as_slice());
    let mut r = String::from_str(command);
    r.append(" ");
    r.append(digits.as_str());
    r
}

/// What follows a write.
#[derive(Debug, PartialEq, Eq)]
pub enum WriteStep {
    /// The command is on the wire.
    Sent,
    /// The connection was found broken: reconnect and write once more.
    Reconnect,
    /// The write failed for good.
    Failed(MpdError),
}

/// What follows a write, as a mathematical value.
pub enum WriteStepView {
    Sent,
    Reconnect,
    Failed(ErrorView),
}

impl View for WriteStep {
    type V = WriteStepView;

    open spec fn view(&self) -> WriteStepView {
        match *self {
            WriteStep::Sent => WriteStepView::Sent,
            WriteStep::Reconnect => WriteStepView::Reconnect,
            WriteStep::Failed(e) => WriteStepView::Failed(e@),
        }
    }
}

/// What follows a write that ended in `outcome`. A broken pipe at the first
/// write asks for one reconnect and a second write; any other failure, and
/// any failure of the second write, is final.
pub open spec fn after_write_spec(
    outcome: Result<(), IoErrorView>,
    retried: bool,
) -> WriteStepView {
    match outcome {
        Ok(_) => WriteStepView::Sent,
        Err(e) => if e.broken_pipe && !retried {
            WriteStepView::Reconnect
        } else {
            WriteStepView::Failed(ErrorView::Io(e))
        },
    }
}

/// Decides what follows a write.
pub fn after_write(outcome: Result<(), IoFailure>, retried: bool) -> (v: WriteStep)
    ensures
        v@ == after_write_spec(
            match outcome {
                Ok(_) => Ok(()),
                Err(e) => Err(e@),
            },
            retried,
        ),
{
    match outcome {
        Ok(_) => WriteStep::Sent,
        Err(e) => if e.broken_pipe && !retried {
            WriteStep::Reconnect
        } else {
            WriteStep::Failed(MpdError::Io(e))
        },
    }
}

/// What follows the read of one line of a response.
#[derive(Debug, PartialEq, Eq)]
pub enum LineStep {
    /// The response has ended.
    Finish,
    /// The line holds a value.
    Feed(String),
    /// The peer closed the connection: reconnect, send the command again and
    /// read the response from its start.
    Recover,
    /// The transaction has failed.
    Fail(MpdError),
}

/// What follows the read of a line, as a mathematical value.
pub enum LineStepView {
    Finish,
    Feed(Seq<char>),
    Recover,
    Fail(ErrorView),
}

impl View for LineStep {
    type V = LineStepView;

    open spec fn view(&self) -> LineStepView {
        match *self {
            LineStep::Finish => LineStepView::Finish,
            LineStep::Feed(s) => LineStepView::Feed(s@),
            LineStep::Recover => LineStepView::Recover,
            LineStep::Fail(e) => LineStepView::Fail(e@),
        }
    }
}

/// What follows the read of a line. Only a closed connection is recovered
/// from, and only while the transaction has reconnects left; every other
/// error, a failure that the server reports among them, ends the transaction
/// as it is.
pub open spec fn after_line_spec(line: Result<LineView, ErrorView>, reconnects: nat) -> LineStepView {
    match line {
        Ok(LineView::Terminator) => LineStepView::Finish,
        Ok(LineView::Value(value)) => LineStepView::Feed(value),
        Err(ErrorView::ClientClosed) => if reconnects > 0 {
            LineStepView::Recover
        } else {
            LineStepView::Fail(ErrorView::ClientClosed)
        },
        Err(e) => LineStepView::Fail(e),
    }
}

/// Decides what follows the read of a line.
pub fn after_line(line: Result<MpdLine, MpdError>, reconnects: usize) -> (v: LineStep)
    ensures
        v@ == after_line_spec(view_result(line), reconnects as nat),
{
    match line {
        Ok(MpdLine::Terminator) => LineStep::Finish,
        Ok(MpdLine::Value(value)) => LineStep::Feed(value),
        Err(MpdError::ClientClosed) => if reconnects > 0 {
            LineStep::Recover
        } else {
            LineStep::Fail(MpdError::ClientClosed)
        },
        Err(e) => LineStep::Fail(e),
    }
}

/// Where a response has to end: the terminator is accepted, a value line is
/// a decode error that carries the line.
pub open spec fn expect_terminator_spec(line: LineView) -> Result<(), ErrorView> {
    match line {
        LineView::Terminator => Ok(()),
        LineView::Value(value) => Err(ErrorView::Generic(expected_ok_message(value))),
    }
}

/// Accepts the terminator and refuses a value line.
pub fn expect_terminator(line: MpdLine) -> (r: Result<(), MpdError>)
    ensures
        match r {
            Ok(_) => expect_terminator_spec(line@) is Ok,
            Err(e) => expect_terminator_spec(line@) == Err::<(), _>(e@),
        },
{
    match line {
        MpdLine::Terminator => Ok(()),
        MpdLine::Value(value) => {
            let mut message = String::from_str("Expected 'OK' but got '");
            message.append(value.as_str());
            message.append("'");
            Err(MpdError::Generic(message))
        },
    }
}

/// What the preamble of a binary response says.
#[derive(Debug, PartialEq, Eq)]
pub struct BinaryMpdResponse {
    /// The number of payload bytes that follow the preamble.
    pub bytes_read: u64,
    /// The size of the whole payload.
    pub size_total: u32,
    /// The payload's media type, where the server names it.
    pub mime_type: Option<String>,
}

/// A binary preamble as a mathematical value.
pub struct BinaryView {
    pub bytes_read: u64,
    pub size_total: u32,
    pub mime_type: Option<Seq<char>>,
}

impl View for BinaryMpdResponse {
    type V = BinaryView;

    open spec fn view(&self) -> BinaryView {
        BinaryView {
            bytes_read: self.bytes_read,
            size_total: self.size_total,
            mime_type: match self.mime_type {
                Some(s) => Some(s@),
                None => None,
            },
        }
    }
}

/// The preamble after one more pair of key and value, the key in lower
/// case, and whether that pair was the preamble's last. The keys are `size`,
/// `type` and `binary`; `binary` ends the preamble. A number that does not
/// read as one is a parse error that carries its text; any other key is a
/// decode error that names it.
pub open spec fn accept_pair_spec(header: BinaryView, key: Seq<char>, value: Seq<char>) -> Result<
    (BinaryView, bool),
    ErrorView,
> {
    if key == "size"@ {
        match parse_unsigned(value, u32::MAX as nat) {
            Some(n) => Ok((BinaryView { size_total: n as u32, ..header }, false)),
            None => Err(ErrorView::Parse(value)),
        }
    } else if key == "type"@ {
        Ok((BinaryView { mime_type: Some(value), ..header }, false))
    } else if key == "binary"@ {
        match parse_unsigned(value, u64::MAX as nat) {
            Some(n) => Ok((BinaryView { bytes_read: n as u64, ..header }, true)),
            None => Err(ErrorView::Parse(value)),
        }
    } else {
        Err(ErrorView::Generic(unexpected_key_message(key)))
    }
}

/// The preamble after one more of its lines, and whether that line was its
/// last: the line is split into key and value, the key put in lower case,
/// and the pair taken.
pub open spec fn accept_spec(header: BinaryView, line: Seq<char>) -> Result<
    (BinaryView, bool),
    ErrorView,
> {
    match decode_request_spec(line) {
        Err(e) => Err(e),
        Ok((key, value)) => accept_pair_spec(header, key, value),
    }
}

impl Default for BinaryMpdResponse {
    fn default() -> (r: Self)
        ensures
            r@ == (BinaryView { bytes_read: 0, size_total: 0, mime_type: None }),
    {
        BinaryMpdResponse { bytes_read: 0, size_total: 0, mime_type: None }
    }
}

impl BinaryMpdResponse {
    /// Takes one line of the preamble. The result says whether the line was
    /// the preamble's last.
    pub fn accept(&mut self, line: String) -> (r: Result<bool, MpdError>)
        ensures
            match r {
                Ok(last) => accept_spec(old(self)@, line@) == Ok::<_, ErrorView>(
                    (final(self)@, last),
                ),
                Err(e) => accept_spec(old(self)@, line@) == Err::<(BinaryView, bool), _>(e@)
                    && final(self)@ == old(self)@,
            },
    {
        match decode_request(line) {
            Ok((key, value)) => self.accept_pair(key.as_str(), value),
            Err(e) => Err(e),
        }
    }

    /// Takes one pair of the preamble: the key, in lower case, and its
    /// value. The result says whether the pair was the preamble's last.
    pub fn accept_pair(&mut self, key: &str, value: String) -> (r: Result<bool, MpdError>)
        ensures
            match r {
                Ok(last) => accept_pair_spec(old(self)@, key@, value@) == Ok::<_, ErrorView>(
                    (final(self)@, last),
                ),
                Err(e) => accept_pair_spec(old(self)@, key@, value@) == Err::<
                    (BinaryView, bool),
                    _,
                >(e@) && final(self)@ == old(self)@,
            },
    {
        let key_chars = to_chars(key);
        let size = to_chars("size");
        let kind = to_chars("type");
        let binary = to_chars("binary");
        if equal(key_chars.as_slice(), size.as_slice()) {
            let digits = to_chars(value.as_str());
            match parse_u32(digits.as_slice()) {
                Some(n) => {
                    self.size_total = n;
                    Ok(false)
                },
                None => Err(MpdError::Parse(value)),
            }
        } else if equal(key_chars.as_slice(), kind.as_slice()) {
            self.mime_type = Some(value);
            Ok(false)
        } else if equal(key_chars.as_slice(), binary.as_slice()) {
            let digits = to_chars(value.as_str());
            match parse_u64(digits.as_slice()) {
                Some(n) => {
                    self.bytes_read = n;
                    Ok(true)
                },
                None => Err(MpdError::Parse(value)),
            }
        } else {
            let mut message = String::from_str("Unexpected key when parsing binary response: '");
            message.append(key);
            message.append("'");
            Err(MpdError::Generic(message))
        }
    }
}

/// What follows one round of a binary transfer.
#[derive(Debug, PartialEq, Eq)]
pub enum RoundStep {
    /// The payload is whole, or the server has no more of it.
    Complete,
    /// The server holds no payload for the command.
    Absent,
    /// More is owed: ask for the slice at the offset reached.
    Continue,
    /// The peer closed the connection: reconnect and ask for the slice at
    /// the offset reached.
    Recover,
    /// The transfer has failed.
    Fail(MpdError),
}

/// What follows a round, as a mathematical value.
pub enum RoundStepView {
    Complete,
    Absent,
    Continue,
    Recover,
    Fail(ErrorView),
}

impl View for RoundStep {
    type V = RoundStepView;

    open spec fn view(&self) -> RoundStepView {
        match *self {
            RoundStep::Complete => RoundStepView::Complete,
            RoundStep::Absent => RoundStepView::Absent,
            RoundStep::Continue => RoundStepView::Continue,
            RoundStep::Recover => RoundStepView::Recover,
            RoundStep::Fail(e) => RoundStepView::Fail(e@),
        }
    }
}

/// The text of the error for a terminator where a slice was owed.
pub open spec fn no_data_message() -> Seq<char> {
    "Expected binary data but got none"@
}

/// The view of what a round gave.
pub open spec fn view_round(round: Result<Option<BinaryMpdResponse>, MpdError>) -> Result<
    Option<BinaryView>,
    ErrorView,
> {
    match round {
        Ok(Some(header)) => Ok(Some(header@)),
        Ok(None) => Ok(None),
        Err(e) => Err(e@),
    }
}

/// What follows a round that ended in `round`, with `gathered` bytes of
/// payload in the buffer after it. A round with a preamble ends the transfer
/// once the buffer holds the size that the preamble declares, or when its
/// slice is empty; else the next slice is asked for. A terminator in place of
/// a preamble means that there is no payload, unless an earlier round had
/// one: then the slice that was owed is missing. A closed connection is
/// recovered from while reconnects are left.
pub open spec fn after_round_spec(
    round: Result<Option<BinaryView>, ErrorView>,
    gathered: nat,
    data_seen: bool,
    reconnects: nat,
) -> RoundStepView {
    match round {
        Ok(Some(header)) => if gathered >= header.size_total || header.bytes_read == 0 {
            RoundStepView::Complete
        } else {
            RoundStepView::Continue
        },
        Ok(None) => if data_seen {
            RoundStepView::Fail(ErrorView::ValueExpected(no_data_message()))
        } else {
            RoundStepView::Absent
        },
        Err(ErrorView::ClientClosed) => if reconnects > 0 {
            RoundStepView::Recover
        } else {
            RoundStepView::Fail(ErrorView::ClientClosed)
        },
        Err(e) => RoundStepView::Fail(e),
    }
}

/// Decides what follows one round of a binary transfer.
pub fn after_round(
    round: Result<Option<BinaryMpdResponse>, MpdError>,
    gathered: usize,
    data_seen: bool,
    reconnects: usize,
) -> (v: RoundStep)
    ensures
        v@ == after_round_spec(view_round(round), gathered as nat, data_seen, reconnects as nat),
{
    match round {
        Ok(Some(header)) => if gathered >= header.size_total as usize || header.bytes_read == 0 {
            RoundStep::Complete
        } else {
            RoundStep::Continue
        },
        Ok(None) => if data_seen {
            RoundStep::Fail(
                MpdError::ValueExpected(String::from_str("Expected binary data but got none")),
            )
        } else {
            RoundStep::Absent
        },
        Err(MpdError::ClientClosed) => if reconnects > 0 {
            RoundStep::Recover
        } else {
            RoundStep::Fail(MpdError::ClientClosed)
        },
        Err(e) => RoundStep::Fail(e),
    }
}


/// The text of the error for a response that outruns the line budget.
pub open spec fn budget_message() -> Seq<char> {
    "Response did not end within the line budget"@
}

/// The error of a response that outruns the line budget.
pub fn budget_spent() -> (e: MpdError)
    ensures
        e@ == ErrorView::Generic(budget_message()),
{
    MpdError::Generic(String::from_str("Response did not end within the line budget"))
}

/// The text of the error for a transaction whose response was read before.
pub open spec fn spent_message() -> Seq<char> {
    "The response of this transaction was already read"@
}

/// The error of a transaction whose response was read before.
pub fn already_read() -> (e: MpdError)
    ensures
        e@ == ErrorView::Generic(spent_message()),
{
    MpdError::Generic(String::from_str("The response of this transaction was already read"))
}

} // verus!
