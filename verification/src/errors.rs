//! What can go wrong in a transaction, and the decoder of the failure line
//! with which the server reports its own errors.

use crate::number::{
    all_digits, is_digit, lemma_parse_render, lemma_render_decimal, parse_u8, parse_unsigned, render_decimal,
};
use crate::text::{
    lemma_occurrence_starts, lemma_split_once_concat, occurs_at, split_once, split_once_spec,
    starts_with, string_of, strip_newline, subrange, to_chars, without_newline,
};
use vstd::prelude::*;

verus! {

/// The error codes of the protocol.
#[derive(Debug, Clone, Copy, PartialEq, Eq, Hash, Structural)]
pub enum ErrorCode {
    NotList,
    Argument,
    Password,
    Permission,
    UnknownCmd,
    NoExist,
    PlaylistMax,
    System,
    PlaylistLoad,
    UpdateAlready,
    PlayerSync,
    Exist,
}

impl ErrorCode {
    /// The number that stands for the code on the wire.
    pub open spec fn number(self) -> u8 {
        match self {
            ErrorCode::NotList => 1,
            ErrorCode::Argument => 2,
            ErrorCode::Password => 3,
            ErrorCode::Permission => 4,
            ErrorCode::UnknownCmd => 5,
            ErrorCode::NoExist => 50,
            ErrorCode::PlaylistMax => 51,
            ErrorCode::System => 52,
            ErrorCode::PlaylistLoad => 53,
            ErrorCode::UpdateAlready => 54,
            ErrorCode::PlayerSync => 55,
            ErrorCode::Exist => 56,
        }
    }

    /// The code that `n` stands for, if it stands for one.
    pub open spec fn of_number(n: u8) -> Option<ErrorCode> {
        if n == 1 {
            Some(ErrorCode::NotList)
        } else if n == 2 {
            Some(ErrorCode::Argument)
        } else if n == 3 {
            Some(ErrorCode::Password)
        } else if n == 4 {
            Some(ErrorCode::Permission)
        } else if n == 5 {
            Some(ErrorCode::UnknownCmd)
        } else if n == 50 {
            Some(ErrorCode::NoExist)
        } else if n == 51 {
            Some(ErrorCode::PlaylistMax)
        } else if n == 52 {
            Some(ErrorCode::System)
        } else if n == 53 {
            Some(ErrorCode::PlaylistLoad)
        } else if n == 54 {
            Some(ErrorCode::UpdateAlready)
        } else if n == 55 {
            Some(ErrorCode::PlayerSync)
        } else if n == 56 {
            Some(ErrorCode::Exist)
        } else {
            None
        }
    }

    /// The number that stands for the code on the wire.
    pub fn code(&self) -> (n: u8)
        ensures
            n == self.number(),
    {
        match self {
            ErrorCode::NotList => 1,
            ErrorCode::Argument => 2,
            ErrorCode::Password => 3,
            ErrorCode::Permission => 4,
            ErrorCode::UnknownCmd => 5,
            ErrorCode::NoExist => 50,
            ErrorCode::PlaylistMax => 51,
            ErrorCode::System => 52,
            ErrorCode::PlaylistLoad => 53,
            ErrorCode::UpdateAlready => 54,
            ErrorCode::PlayerSync => 55,
            ErrorCode::Exist => 56,
        }
    }

    /// The code that `n` stands for; `None` where it stands for none.
    pub fn from_code(n: u8) -> (r: Option<ErrorCode>)
        ensures
            r == Self::of_number(n),
    {
        match n {
            1 => Some(ErrorCode::NotList),
            2 => Some(ErrorCode::Argument),
            3 => Some(ErrorCode::Password),
            4 => Some(ErrorCode::Permission),
            5 => Some(ErrorCode::UnknownCmd),
            50 => Some(ErrorCode::NoExist),
            51 => Some(ErrorCode::PlaylistMax),
            52 => Some(ErrorCode::System),
            53 => Some(ErrorCode::PlaylistLoad),
            54 => Some(ErrorCode::UpdateAlready),
            55 => Some(ErrorCode::PlayerSync),
            56 => Some(ErrorCode::Exist),
            _ => None,
        }
    }
}

/// A command-level failure, as the server reports it.
#[derive(Debug, Clone, PartialEq, Eq)]
pub struct MpdFailureResponse {
    pub code: ErrorCode,
    pub command_list_index: u8,
    pub command: String,
    pub message: String,
}

/// A failure report as a mathematical value.
pub struct AckView {
    pub code: ErrorCode,
    pub command_list_index: u8,
    pub command: Seq<char>,
    pub message: Seq<char>,
}

impl View for MpdFailureResponse {
    type V = AckView;

    open spec fn view(&self) -> AckView {
        AckView {
            code: self.code,
            command_list_index: self.command_list_index,
            command: self.command@,
            message: self.message@,
        }
    }
}

/// What the library reads of an I/O error of the transport: whether the
/// connection was found broken, and the error's text.
#[derive(Debug, Clone, PartialEq, Eq)]
pub struct IoFailure {
    pub broken_pipe: bool,
    pub message: String,
}

/// An I/O failure as a mathematical value.
pub struct IoErrorView {
    pub broken_pipe: bool,
    pub message: Seq<char>,
}

impl View for IoFailure {
    type V = IoErrorView;

    open spec fn view(&self) -> IoErrorView {
        IoErrorView { broken_pipe: self.broken_pipe, message: self.message@ }
    }
}

/// The errors of a transaction.
#[derive(Debug, Clone, PartialEq, Eq)]
pub enum MpdError {
    /// Text that should have been a number or a failure line and is not; it
    /// carries the offending text.
    Parse(String),
    /// A failure line with an error code that the protocol does not define.
    UnknownCode(u8),
    /// Wire data that cannot be decoded; it carries a description.
    Generic(String),
    /// The peer closed the connection.
    ClientClosed,
    /// The server refused the command.
    Mpd(MpdFailureResponse),
    /// A value was owed and did not come.
    ValueExpected(String),
    /// The transport failed otherwise.
    Io(IoFailure),
}

/// An error as a mathematical value.
pub enum ErrorView {
    Parse(Seq<char>),
    UnknownCode(u8),
    Generic(Seq<char>),
    ClientClosed,
    Mpd(AckView),
    ValueExpected(Seq<char>),
    Io(IoErrorView),
}

impl View for MpdError {
    type V = ErrorView;

    open spec fn view(&self) -> ErrorView {
        match *self {
            MpdError::Parse(s) => ErrorView::Parse(s@),
            MpdError::UnknownCode(n) => ErrorView::UnknownCode(n),
            MpdError::Generic(s) => ErrorView::Generic(s@),
            MpdError::ClientClosed => ErrorView::ClientClosed,
            MpdError::Mpd(f) => ErrorView::Mpd(f@),
            MpdError::ValueExpected(s) => ErrorView::ValueExpected(s@),
            MpdError::Io(e) => ErrorView::Io(e@),
        }
    }
}

/// The view of a result: the view of what it holds.
pub open spec fn view_result<T: View, E: View>(r: Result<T, E>) -> Result<T::V, E::V> {
    match r {
        Ok(t) => Ok(t@),
        Err(e) => Err(e@),
    }
}

/// What a failure line says. The line reads `ACK [`, the error code, `@`, the
/// index of the failed command in its command list, `] {`, the command's
/// name, `} `, and the message, which goes to the end of the line and is
/// taken as it stands, without the line feed that may end the line. Code and index are decimal
/// numbers below 256. A line of another shape is a parse error that carries
/// the line; a code that the protocol does not define is reported by its
/// number.
pub open spec fn parse_failure(line: Seq<char>) -> Result<AckView, ErrorView> {
    if !"ACK ["@.is_prefix_of(line) {
        Err(ErrorView::Parse(line))
    } else {
        match split_once_spec(line.skip("ACK ["@.len() as int), "@"@) {
            None => Err(ErrorView::Parse(line)),
            Some((code, rest)) => match split_once_spec(rest, "] {"@) {
                None => Err(ErrorView::Parse(line)),
                Some((index, rest)) => match split_once_spec(rest, "} "@) {
                    None => Err(ErrorView::Parse(line)),
                    Some((command, message)) => match parse_unsigned(code, u8::MAX as nat) {
                        None => Err(ErrorView::Parse(line)),
                        Some(code) => match ErrorCode::of_number(code as u8) {
                            None => Err(ErrorView::UnknownCode(code as u8)),
                            Some(code) => match parse_unsigned(index, u8::MAX as nat) {
                                None => Err(ErrorView::Parse(line)),
                                Some(index) => Ok(
                                    AckView {
                                        code,
                                        command_list_index: index as u8,
                                        command,
                                        message: strip_newline(message),
                                    },
                                ),
                            },
                        },
                    },
                },
            },
        }
    }
}

impl MpdFailureResponse {
    /// Decodes a failure line.
    pub fn parse(line: &str) -> (r: Result<MpdFailureResponse, MpdError>)
        ensures
            view_result(r) == parse_failure(line@),
    {
        let chars = to_chars(line);
        Self::parse_chars(chars.as_slice())
    }

    /// Decodes a failure line given by its characters.
    pub fn parse_chars(line: &[char]) -> (r: Result<MpdFailureResponse, MpdError>)
        ensures
            view_result(r) == parse_failure(line@),
    {
        let lead = to_chars("ACK [");
        if !starts_with(line, lead.as_slice()) {
            return Err(MpdError::Parse(string_of(line)));
        }
        let body = subrange(line, lead.len(), line.len());
        let at = to_chars("@");
        let (code, rest) = match split_once(body.as_slice(), at.as_slice()) {
            Some(parts) => parts,
            None => {
                return Err(MpdError::Parse(string_of(line)));
            },
        };
        let open = to_chars("] {");
        let (index, rest) = match split_once(rest.as_slice(), open.as_slice()) {
            Some(parts) => parts,
            None => {
                return Err(MpdError::Parse(string_of(line)));
            },
        };
        let close = to_chars("} ");
        let (command, message) = match split_once(rest.as_slice(), close.as_slice()) {
            Some(parts) => parts,
            None => {
                return Err(MpdError::Parse(string_of(line)));
            },
        };
        let number = match parse_u8(code.as_slice()) {
            Some(n) => n,
            None => {
                return Err(MpdError::Parse(string_of(line)));
            },
        };
        let code = match ErrorCode::from_code(number) {
            Some(c) => c,
            None => {
                return Err(MpdError::UnknownCode(number));
            },
        };
        let index = match parse_u8(index.as_slice()) {
            Some(n) => n,
            None => {
                return Err(MpdError::Parse(string_of(line)));
            },
        };
        let message = without_newline(message.as_slice());
        Ok(
            MpdFailureResponse {
                code,
                command_list_index: index,
                command: string_of(command.as_slice()),
                message: string_of(message.as_slice()),
            },
        )
    }
}

/// The failure line that reports `failure`.
pub open spec fn failure_line(failure: AckView) -> Seq<char> {
    "ACK ["@ + render_decimal(failure.code.number() as nat) + "@"@ + render_decimal(
        failure.command_list_index as nat,
    ) + "] {"@ + failure.command + "} "@ + failure.message
}

/// Decoding a well-formed failure line gives back the failure that it
/// reports, field by field: code, index, command and message exactly as they
/// were written. A line is well formed where the command's name does not
/// hold `} `, which ends it. The line feed at the end of the line belongs to
/// no field; a line without one is read alike, where the message does not
/// end in a line feed itself.
pub proof fn lemma_failure_round_trip(failure: AckView)
    requires
        forall|j: int| !#[trigger] occurs_at(failure.command, "} "@, j),
    ensures
        parse_failure(failure_line(failure).push('\n')) == Ok::<_, ErrorView>(failure),
        strip_newline(failure.message) == failure.message ==> parse_failure(failure_line(failure))
            == Ok::<_, ErrorView>(failure),
{
    lemma_failure_line(failure, Seq::empty());
    assert(failure_line(failure) + Seq::<char>::empty() == failure_line(failure));
    assert(failure.message + Seq::<char>::empty() == failure.message);
    lemma_failure_line(failure, seq!['\n']);
    assert(failure_line(failure) + seq!['\n'] == failure_line(failure).push('\n'));
    assert((failure.message + seq!['\n']).drop_last() == failure.message);
}

/// Two well-formed failure lines that differ in the code alone decode to
/// failures that differ in the code alone.
pub proof fn lemma_failure_codes_apart(a: AckView, b: AckView)
    requires
        forall|j: int| !#[trigger] occurs_at(a.command, "} "@, j),
        a.code != b.code,
        b == (AckView { code: b.code, ..a }),
    ensures
        parse_failure(failure_line(a).push('\n')) == Ok::<_, ErrorView>(a),
        parse_failure(failure_line(b).push('\n')) == Ok::<_, ErrorView>(b),
        a.code.number() != b.code.number(),
{
    lemma_failure_round_trip(a);
    lemma_failure_round_trip(b);
}

/// A digit string, a mark that does not begin with a digit, and a rest split
/// at the mark into the digit string and the rest.
proof fn lemma_digits_split(digits: Seq<char>, mark: Seq<char>, rest: Seq<char>)
    requires
        all_digits(digits),
        mark.len() > 0,
        !is_digit(mark[0]),
    ensures
        split_once_spec(digits + mark + rest, mark) == Some((digits, rest)),
{
    let s = digits + mark + rest;
    assert forall|j: int| 0 <= j < digits.len() implies !#[trigger] occurs_at(s, mark, j) by {
        if occurs_at(s, mark, j) {
            lemma_occurrence_starts(s, mark, j);
            assert(is_digit(digits[j]));
        }
    }
    lemma_split_once_concat(digits, mark, rest);
}

/// A command's name that does not hold `} `, then `} ` and a rest, split at
/// `} ` into the name and the rest.
proof fn lemma_command_split(command: Seq<char>, rest: Seq<char>)
    requires
        forall|j: int| !#[trigger] occurs_at(command, "} "@, j),
    ensures
        split_once_spec(command + "} "@ + rest, "} "@) == Some((command, rest)),
{
    reveal_strlit("} ");
    let s = command + "} "@ + rest;
    assert forall|j: int| 0 <= j < command.len() implies !#[trigger] occurs_at(s, "} "@, j) by {
        if occurs_at(s, "} "@, j) {
            let found = s.subrange(j, j + 2);
            assert(found[0] == s[j] && found[1] == s[j + 1]);
            if j + 2 <= command.len() {
                assert(command.subrange(j, j + 2) == found);
                assert(occurs_at(command, "} "@, j));
            } else {
                assert(s[j + 1] == '}');
            }
        }
    }
    lemma_split_once_concat(command, "} "@, rest);
}

/// What the decoder finds in a failure line that `tail` follows.
#[verifier::rlimit(40)]
proof fn lemma_failure_line(failure: AckView, tail: Seq<char>)
    requires
        forall|j: int| !#[trigger] occurs_at(failure.command, "} "@, j),
    ensures
        parse_failure(failure_line(failure) + tail) == Ok::<_, ErrorView>(
            AckView { message: strip_newline(failure.message + tail), ..failure },
        ),
{
    let code = render_decimal(failure.code.number() as nat);
    let index = render_decimal(failure.command_list_index as nat);
    let command = failure.command;
    let message = failure.message + tail;
    let line = failure_line(failure) + tail;
    let after_open = command + "} "@ + message;
    let after_at = index + "] {"@ + after_open;
    let body = code + "@"@ + after_at;
    assert(line == "ACK ["@ + body);
    assert(line.skip("ACK ["@.len() as int) == body);

    lemma_render_decimal(failure.code.number() as nat);
    lemma_render_decimal(failure.command_list_index as nat);
    assert("@"@.len() > 0 && !is_digit("@"@[0])) by {
        reveal_strlit("@");
    }
    assert("] {"@.len() > 0 && !is_digit("] {"@[0])) by {
        reveal_strlit("] {");
    }
    lemma_digits_split(code, "@"@, after_at);
    lemma_digits_split(index, "] {"@, after_open);
    lemma_command_split(command, message);
    lemma_parse_render(failure.code.number() as nat, u8::MAX as nat);
    lemma_parse_render(failure.command_list_index as nat, u8::MAX as nat);
    lemma_code_round_trip(failure.code);
}

/// Every error code is found again from its number.
pub proof fn lemma_code_round_trip(code: ErrorCode)
    ensures
        ErrorCode::of_number(code.number()) == Some(code),
{
}

/// A number stands for at most one code, and that code has the number.
pub proof fn lemma_code_of_number(n: u8, code: ErrorCode)
    requires
        ErrorCode::of_number(n) == Some(code),
    ensures
        code.number() == n,
{
}

/// Different numbers that stand for codes stand for different codes.
pub proof fn lemma_codes_distinct(a: u8, b: u8)
    requires
        a != b,
        ErrorCode::of_number(a) is Some,
        ErrorCode::of_number(b) is Some,
    ensures
        ErrorCode::of_number(a) != ErrorCode::of_number(b),
{
}

} // verus!
