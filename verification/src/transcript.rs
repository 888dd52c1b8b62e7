//! What the transaction engine does, stated over the record of its calls:
//! for each operation, the calls that it makes, in order, each depending on
//! what the calls before it returned, and the result that it draws from
//! them.
//!
//! A run function reads a record from a position on. It gives `None` where
//! the record does not hold a whole run of the operation from there, and
//! else the result of the run with the position behind its last exchange.

use crate::channel::{exchange_at, extends, Exchange};
use crate::errors::ErrorView;
use crate::line::{classify, classify_read, decode_request_spec, LineView};
use crate::text::strip_newline;
use crate::steps::{
    accept_spec, after_line_spec, after_round_spec, after_write_spec, budget_message,
    expect_terminator_spec, expected_ok_message, frame_spec, offset_command_spec, BinaryView, LineStepView,
    RoundStepView, WriteStepView, LINE_BUDGET,
};
use vstd::prelude::*;

verus! {

/// Sending a command: the frame is written; where the write finds the
/// connection broken, the socket is reconnected and the frame written once
/// more.
pub open spec fn execute_run(frame: Seq<u8>, t: Seq<Exchange>, at: int) -> Option<
    (Result<(), ErrorView>, int),
> {
    match exchange_at(t, at) {
        Some(Exchange::Write(bytes, reply)) => if bytes != frame {
            None
        } else {
            match after_write_spec(reply, false) {
                WriteStepView::Sent => Some((Ok(()), at + 1)),
                WriteStepView::Failed(e) => Some((Err(e), at + 1)),
                WriteStepView::Reconnect => match exchange_at(t, at + 1) {
                    Some(Exchange::Reconnect(Err(e))) => Some((Err(e), at + 2)),
                    Some(Exchange::Reconnect(Ok(_))) => match exchange_at(t, at + 2) {
                        Some(Exchange::Write(again, reply)) => if again != frame {
                            None
                        } else {
                            match after_write_spec(reply, true) {
                                WriteStepView::Sent => Some((Ok(()), at + 3)),
                                WriteStepView::Failed(e) => Some((Err(e), at + 3)),
                                WriteStepView::Reconnect => None,
                            }
                        },
                        _ => None,
                    },
                    _ => None,
                },
            }
        },
        _ => None,
    }
}

/// Recovering from a closed connection: the socket is reconnected, and the
/// command sent.
pub open spec fn recover_run(frame: Seq<u8>, t: Seq<Exchange>, at: int) -> Option<
    (Result<(), ErrorView>, int),
> {
    match exchange_at(t, at) {
        Some(Exchange::Reconnect(Err(e))) => Some((Err(e), at + 1)),
        Some(Exchange::Reconnect(Ok(_))) => execute_run(frame, t, at + 1),
        _ => None,
    }
}

/// Reading a response that holds nothing: one line is read. The terminator
/// is success, a value line a decode error. After a closed connection, while
/// reconnects are left, the engine recovers and reads again.
pub open spec fn ok_run(command: Seq<char>, reconnects: nat, t: Seq<Exchange>, at: int) -> Option<
    (Result<(), ErrorView>, int),
>
    decreases reconnects,
{
    match exchange_at(t, at) {
        Some(Exchange::Line(reply)) => match after_line_spec(classify_read(reply), reconnects) {
            LineStepView::Finish => Some((Ok(()), at + 1)),
            LineStepView::Feed(value) => Some(
                (expect_terminator_spec(LineView::Value(value)), at + 1),
            ),
            LineStepView::Fail(e) => Some((Err(e), at + 1)),
            LineStepView::Recover => match recover_run(frame_spec(command), t, at + 1) {
                Some((Ok(_), next)) => if reconnects > 0 {
                    ok_run(command, (reconnects - 1) as nat, t, next)
                } else {
                    None
                },
                Some((Err(e), next)) => Some((Err(e), next)),
                None => None,
            },
        },
        _ => None,
    }
}

/// Reading a response into a decoder: lines are read up to the terminator.
/// Every value line is split into key and value, the key put in lower case,
/// and the pair handed to the decoder; a line that does not split, and the
/// first error of the decoder, end the run. The result is the pairs that the
/// decoder took, in order. After a closed connection, while reconnects are
/// left, the engine recovers and reads the response from its start, with a
/// decoder that has taken nothing. One pass hands over no more pairs than
/// `budget`.
#[verifier::opaque]
pub open spec fn response_run(
    command: Seq<char>,
    reconnects: nat,
    budget: nat,
    fed: Seq<(Seq<char>, Seq<char>)>,
    t: Seq<Exchange>,
    at: int,
) -> Option<(Result<Seq<(Seq<char>, Seq<char>)>, ErrorView>, int)>
    decreases reconnects, budget,
{
    if budget == 0 {
        Some((Err(ErrorView::Generic(budget_message())), at))
    } else {
        match exchange_at(t, at) {
            Some(Exchange::Line(reply)) => match after_line_spec(
                classify_read(reply),
                reconnects,
            ) {
                LineStepView::Finish => Some((Ok(fed), at + 1)),
                LineStepView::Fail(e) => Some((Err(e), at + 1)),
                LineStepView::Feed(line) => match decode_request_spec(line) {
                    Err(e) => Some((Err(e), at + 1)),
                    Ok((key, value)) => match exchange_at(t, at + 1) {
                        Some(Exchange::Feed(k, v, answer)) => if k != key || v != value {
                            None
                        } else {
                            match answer {
                                Ok(_) => response_run(
                                    command,
                                    reconnects,
                                    (budget - 1) as nat,
                                    fed.push((key, value)),
                                    t,
                                    at + 2,
                                ),
                                Err(e) => Some((Err(e), at + 2)),
                            }
                        },
                        _ => None,
                    },
                },
                LineStepView::Recover => match recover_run(frame_spec(command), t, at + 1) {
                    Some((Ok(_), next)) => if reconnects > 0 {
                        response_run(
                            command,
                            (reconnects - 1) as nat,
                            LINE_BUDGET as nat,
                            Seq::empty(),
                            t,
                            next,
                        )
                    } else {
                        None
                    },
                    Some((Err(e), next)) => Some((Err(e), next)),
                    None => None,
                },
            },
            _ => None,
        }
    }
}

/// How one round of a binary transfer ran: what it gave, the bytes that it
/// added to the payload, and the position behind its last exchange.
pub struct RoundRun {
    pub outcome: Result<Option<BinaryView>, ErrorView>,
    pub appended: Seq<u8>,
    pub next: int,
}

/// The second half of a round, behind the preamble `header`: as many bytes
/// are asked for as the preamble announces, and what comes is added to the
/// payload. A slice that comes short means a closed connection. Behind a
/// whole slice one line is read and ignored, and the next line has to be the
/// terminator.
pub open spec fn payload_run(header: BinaryView, t: Seq<Exchange>, at: int) -> Option<RoundRun> {
    match exchange_at(t, at) {
        Some(Exchange::Bytes(count, reply)) => if count != header.bytes_read {
            None
        } else {
            match reply {
                Err(e) => Some(
                    RoundRun { outcome: Err(ErrorView::Io(e)), appended: Seq::empty(), next: at + 1 },
                ),
                Ok(chunk) => if chunk.len() != header.bytes_read {
                    Some(
                        RoundRun {
                            outcome: Err(ErrorView::ClientClosed),
                            appended: chunk,
                            next: at + 1,
                        },
                    )
                } else {
                    match exchange_at(t, at + 1) {
                        Some(Exchange::Line(_)) => match exchange_at(t, at + 2) {
                            Some(Exchange::Line(reply)) => Some(
                                RoundRun {
                                    outcome: match classify_read(reply) {
                                        Err(e) => Err(e),
                                        Ok(line) => match expect_terminator_spec(line) {
                                            Ok(_) => Ok(Some(header)),
                                            Err(e) => Err(e),
                                        },
                                    },
                                    appended: chunk,
                                    next: at + 3,
                                },
                            ),
                            _ => None,
                        },
                        _ => None,
                    }
                },
            }
        },
        _ => None,
    }
}

/// The first half of a round: lines are read into the preamble up to the
/// line that ends it. The terminator in place of a preamble line ends the
/// round with nothing; an error, of the read or of the line, ends it too.
pub open spec fn preamble_run(header: BinaryView, budget: nat, t: Seq<Exchange>, at: int) -> Option<
    RoundRun,
>
    decreases budget,
{
    if budget == 0 {
        Some(
            RoundRun {
                outcome: Err(ErrorView::Generic(budget_message())),
                appended: Seq::empty(),
                next: at,
            },
        )
    } else {
        match exchange_at(t, at) {
            Some(Exchange::Line(reply)) => match classify_read(reply) {
                Err(e) => Some(RoundRun { outcome: Err(e), appended: Seq::empty(), next: at + 1 }),
                Ok(LineView::Terminator) => Some(
                    RoundRun { outcome: Ok(None), appended: Seq::empty(), next: at + 1 },
                ),
                Ok(LineView::Value(value)) => match accept_spec(header, value) {
                    Err(e) => Some(
                        RoundRun { outcome: Err(e), appended: Seq::empty(), next: at + 1 },
                    ),
                    Ok((header, last)) => if last {
                        payload_run(header, t, at + 1)
                    } else {
                        preamble_run(header, (budget - 1) as nat, t, at + 1)
                    },
                },
            },
            _ => None,
        }
    }
}

/// The preamble before its first line.
pub open spec fn empty_preamble() -> BinaryView {
    BinaryView { bytes_read: 0, size_total: 0, mime_type: None }
}

/// One round of a binary transfer: the preamble, the slice, the empty line
/// behind it and the terminator.
pub open spec fn round_run(t: Seq<Exchange>, at: int) -> Option<RoundRun> {
    preamble_run(empty_preamble(), LINE_BUDGET as nat, t, at)
}

/// The frame of the command that asks for the slice at `offset`.
pub open spec fn offset_frame(command: Seq<char>, offset: nat) -> Seq<u8> {
    frame_spec(offset_command_spec(command, offset))
}

/// Reading a binary payload whole: round after round, each adding its slice
/// to what is gathered. After a round that leaves more to fetch, the command
/// is sent with the number of bytes gathered as the offset. After a closed
/// connection, while reconnects are left, the engine recovers with that same
/// command.
#[verifier::opaque]
pub open spec fn bin_run(
    command: Seq<char>,
    reconnects: nat,
    data_seen: bool,
    gathered: Seq<u8>,
    t: Seq<Exchange>,
    at: int,
) -> Option<(Result<Option<Seq<u8>>, ErrorView>, int)>
    decreases t.len() - at,
{
    match round_run(t, at) {
        None => None,
        Some(round) => {
            let gathered = gathered + round.appended;
            let frame = offset_frame(command, gathered.len());
            match after_round_spec(round.outcome, gathered.len(), data_seen, reconnects) {
                RoundStepView::Complete => Some((Ok(Some(gathered)), round.next)),
                RoundStepView::Absent => Some((Ok(None), round.next)),
                RoundStepView::Fail(e) => Some((Err(e), round.next)),
                RoundStepView::Continue => match execute_run(frame, t, round.next) {
                    Some((Ok(_), next)) => if at < next <= t.len() {
                        bin_run(command, reconnects, true, gathered, t, next)
                    } else {
                        None
                    },
                    Some((Err(e), next)) => Some((Err(e), next)),
                    None => None,
                },
                RoundStepView::Recover => match recover_run(frame, t, round.next) {
                    Some((Ok(_), next)) => if at < next <= t.len() {
                        bin_run(command, (reconnects - 1) as nat, data_seen, gathered, t, next)
                    } else {
                        None
                    },
                    Some((Err(e), next)) => Some((Err(e), next)),
                    None => None,
                },
            }
        },
    }
}

/// A run of `execute` lies within the record and does not change when the
/// record grows.
pub proof fn lemma_execute_extends(frame: Seq<u8>, t: Seq<Exchange>, full: Seq<Exchange>, at: int)
    requires
        extends(full, t),
        0 <= at,
        execute_run(frame, t, at) is Some,
    ensures
        execute_run(frame, full, at) == execute_run(frame, t, at),
        at < execute_run(frame, t, at)->Some_0.1 <= t.len(),
{
}

/// A run of a recovery lies within the record and does not change when the
/// record grows.
pub proof fn lemma_recover_extends(frame: Seq<u8>, t: Seq<Exchange>, full: Seq<Exchange>, at: int)
    requires
        extends(full, t),
        0 <= at,
        recover_run(frame, t, at) is Some,
    ensures
        recover_run(frame, full, at) == recover_run(frame, t, at),
        at < recover_run(frame, t, at)->Some_0.1 <= t.len(),
{
    if exchange_at(t, at) matches Some(Exchange::Reconnect(Ok(_))) {
        lemma_execute_extends(frame, t, full, at + 1);
    }
}

/// A round lies within the record and does not change when the record grows.
pub proof fn lemma_preamble_extends(
    header: BinaryView,
    budget: nat,
    t: Seq<Exchange>,
    full: Seq<Exchange>,
    at: int,
)
    requires
        extends(full, t),
        0 <= at <= t.len(),
        preamble_run(header, budget, t, at) is Some,
    ensures
        preamble_run(header, budget, full, at) == preamble_run(header, budget, t, at),
        at <= preamble_run(header, budget, t, at)->Some_0.next <= t.len(),
        budget > 0 ==> at < preamble_run(header, budget, t, at)->Some_0.next,
    decreases budget,
{
    if budget > 0 {
        if let Some(Exchange::Line(reply)) = exchange_at(t, at) {
            if let Ok(LineView::Value(value)) = classify_read(reply) {
                if let Ok((header, last)) = accept_spec(header, value) {
                    if !last {
                        lemma_preamble_extends(header, (budget - 1) as nat, t, full, at + 1);
                    }
                }
            }
        }
    }
}

/// A round lies within the record and does not change when the record grows.
pub proof fn lemma_round_extends(t: Seq<Exchange>, full: Seq<Exchange>, at: int)
    requires
        extends(full, t),
        0 <= at <= t.len(),
        round_run(t, at) is Some,
    ensures
        round_run(full, at) == round_run(t, at),
        at < round_run(t, at)->Some_0.next <= t.len(),
{
    lemma_preamble_extends(empty_preamble(), LINE_BUDGET as nat, t, full, at);
}

/// What follows a round, given the bytes gathered before it.
pub open spec fn round_step(
    reconnects: nat,
    data_seen: bool,
    gathered: Seq<u8>,
    round: RoundRun,
) -> RoundStepView {
    after_round_spec(round.outcome, (gathered + round.appended).len(), data_seen, reconnects)
}

/// A transfer ends with the round after which nothing follows.
pub proof fn lemma_bin_ends(
    command: Seq<char>,
    reconnects: nat,
    data_seen: bool,
    gathered: Seq<u8>,
    t: Seq<Exchange>,
    at: int,
)
    requires
        round_run(t, at) is Some,
    ensures
        ({
            let round = round_run(t, at)->Some_0;
            match round_step(reconnects, data_seen, gathered, round) {
                RoundStepView::Complete => bin_run(
                    command,
                    reconnects,
                    data_seen,
                    gathered,
                    t,
                    at,
                ) == Some((Ok::<_, ErrorView>(Some(gathered + round.appended)), round.next)),
                RoundStepView::Absent => bin_run(command, reconnects, data_seen, gathered, t, at)
                    == Some((Ok::<Option<Seq<u8>>, ErrorView>(None), round.next)),
                RoundStepView::Fail(e) => bin_run(
                    command,
                    reconnects,
                    data_seen,
                    gathered,
                    t,
                    at,
                ) == Some((Err::<Option<Seq<u8>>, _>(e), round.next)),
                _ => true,
            }
        }),
{
    reveal(bin_run);
}

/// A transfer goes on behind a round that leaves more to fetch, and ends
/// where the command for the next slice cannot be sent. `read` is the record
/// up to the end of the round, `asked` the record after the command.
#[verifier::rlimit(40)]
pub proof fn lemma_bin_continues(
    command: Seq<char>,
    reconnects: nat,
    data_seen: bool,
    gathered: Seq<u8>,
    read: Seq<Exchange>,
    asked: Seq<Exchange>,
    full: Seq<Exchange>,
    at: int,
)
    requires
        0 <= at <= read.len(),
        extends(asked, read),
        extends(full, asked),
        round_run(read, at) is Some,
        round_run(read, at)->Some_0.next == read.len(),
        round_step(reconnects, data_seen, gathered, round_run(read, at)->Some_0)
            == RoundStepView::Continue,
        execute_run(
            offset_frame(command, (gathered + round_run(read, at)->Some_0.appended).len()),
            asked,
            read.len() as int,
        ) matches Some((_, next)) && next == asked.len(),
    ensures
        ({
            let now = gathered + round_run(read, at)->Some_0.appended;
            match execute_run(offset_frame(command, now.len()), asked, read.len() as int)->Some_0.0 {
                Ok(_) => bin_run(command, reconnects, data_seen, gathered, full, at) == bin_run(
                    command,
                    reconnects,
                    true,
                    now,
                    full,
                    asked.len() as int,
                ),
                Err(e) => bin_run(command, reconnects, data_seen, gathered, full, at) == Some(
                    (Err::<Option<Seq<u8>>, _>(e), asked.len() as int),
                ),
            }
        }),
{
    reveal(bin_run);
    let now = gathered + round_run(read, at)->Some_0.appended;
    lemma_round_extends(read, full, at);
    lemma_execute_extends(offset_frame(command, now.len()), asked, full, read.len() as int);
}

/// A transfer goes on behind a round that found the connection closed,
/// while reconnects are left, and ends where the recovery fails. `read` is
/// the record up to the end of the round, `asked` the record after the
/// recovery.
#[verifier::rlimit(40)]
pub proof fn lemma_bin_recovers(
    command: Seq<char>,
    reconnects: nat,
    data_seen: bool,
    gathered: Seq<u8>,
    read: Seq<Exchange>,
    asked: Seq<Exchange>,
    full: Seq<Exchange>,
    at: int,
)
    requires
        0 <= at <= read.len(),
        extends(asked, read),
        extends(full, asked),
        round_run(read, at) is Some,
        round_run(read, at)->Some_0.next == read.len(),
        round_step(reconnects, data_seen, gathered, round_run(read, at)->Some_0)
            == RoundStepView::Recover,
        recover_run(
            offset_frame(command, (gathered + round_run(read, at)->Some_0.appended).len()),
            asked,
            read.len() as int,
        ) matches Some((_, next)) && next == asked.len(),
    ensures
        ({
            let now = gathered + round_run(read, at)->Some_0.appended;
            match recover_run(offset_frame(command, now.len()), asked, read.len() as int)->Some_0.0 {
                Ok(_) => bin_run(command, reconnects, data_seen, gathered, full, at) == bin_run(
                    command,
                    (reconnects - 1) as nat,
                    data_seen,
                    now,
                    full,
                    asked.len() as int,
                ),
                Err(e) => bin_run(command, reconnects, data_seen, gathered, full, at) == Some(
                    (Err::<Option<Seq<u8>>, _>(e), asked.len() as int),
                ),
            }
        }),
{
    reveal(bin_run);
    let now = gathered + round_run(read, at)->Some_0.appended;
    lemma_round_extends(read, full, at);
    lemma_recover_extends(offset_frame(command, now.len()), asked, full, read.len() as int);
}

/// A line, as it was read, that is a value line with a key and a value.
pub open spec fn is_data_line(line: Seq<char>) -> bool {
    classify(line) == Ok::<_, ErrorView>(LineView::Value(strip_newline(line)))
        && decode_request_spec(strip_newline(line)) is Ok
}

/// The key, in lower case, and the value of a data line.
pub open spec fn pair_of(line: Seq<char>) -> (Seq<char>, Seq<char>) {
    decode_request_spec(strip_newline(line))->Ok_0
}

/// The pairs of the given data lines, in order.
pub open spec fn pairs_of(lines: Seq<Seq<char>>) -> Seq<(Seq<char>, Seq<char>)> {
    Seq::new(lines.len(), |i: int| pair_of(lines[i]))
}

/// The record of a response that is read without trouble: each of the data
/// lines is read and its pair handed to the decoder, which accepts it, and
/// then the line `end` is read.
pub open spec fn accepted_response(lines: Seq<Seq<char>>, end: Seq<char>) -> Seq<Exchange>
    decreases lines.len(),
{
    if lines.len() == 0 {
        seq![Exchange::Line(Ok(end))]
    } else {
        seq![
            Exchange::Line(Ok(lines[0])),
            Exchange::Feed(pair_of(lines[0]).0, pair_of(lines[0]).1, Ok(())),
        ] + accepted_response(lines.skip(1), end)
    }
}

/// A data line whose pair the decoder accepts adds the pair to those taken,
/// and the read goes on behind the two exchanges.
pub proof fn lemma_pair_is_taken(
    command: Seq<char>,
    reconnects: nat,
    budget: nat,
    fed: Seq<(Seq<char>, Seq<char>)>,
    t: Seq<Exchange>,
    at: int,
    line: Seq<char>,
)
    requires
        exchange_at(t, at) == Some(Exchange::Line(Ok(line))),
        is_data_line(line),
        exchange_at(t, at + 1) == Some(
            Exchange::Feed(pair_of(line).0, pair_of(line).1, Ok(())),
        ),
        budget > 0,
    ensures
        response_run(command, reconnects, budget, fed, t, at) == response_run(
            command,
            reconnects,
            (budget - 1) as nat,
            fed.push(pair_of(line)),
            t,
            at + 2,
        ),
{
    reveal(response_run);
}

/// The terminator ends the read with the pairs taken so far.
pub proof fn lemma_terminator_ends(
    command: Seq<char>,
    reconnects: nat,
    budget: nat,
    fed: Seq<(Seq<char>, Seq<char>)>,
    t: Seq<Exchange>,
    at: int,
    end: Seq<char>,
)
    requires
        exchange_at(t, at) == Some(Exchange::Line(Ok(end))),
        classify(end) == Ok::<_, ErrorView>(LineView::Terminator),
        budget > 0,
    ensures
        response_run(command, reconnects, budget, fed, t, at) == Some(
            (Ok::<_, ErrorView>(fed), at + 1),
        ),
{
    reveal(response_run);
}

/// A response of data lines that the decoder accepts, ended by a terminator,
/// is read to its end, and gives the pairs of its lines, each once and in
/// the order of the lines: none, where the response is the terminator alone,
/// and at least one, where it has a data line. `before` is the record up to
/// the response, `fed` the pairs taken before it.
#[verifier::rlimit(40)]
pub proof fn lemma_response_presence(
    command: Seq<char>,
    reconnects: nat,
    budget: nat,
    fed: Seq<(Seq<char>, Seq<char>)>,
    before: Seq<Exchange>,
    lines: Seq<Seq<char>>,
    end: Seq<char>,
)
    requires
        forall|i: int| 0 <= i < lines.len() ==> is_data_line(#[trigger] lines[i]),
        classify(end) == Ok::<_, ErrorView>(LineView::Terminator),
        budget > lines.len(),
    ensures
        response_run(
            command,
            reconnects,
            budget,
            fed,
            before + accepted_response(lines, end),
            before.len() as int,
        ) == Some(
            (
                Ok::<_, ErrorView>(fed + pairs_of(lines)),
                (before.len() + 2 * lines.len() + 1) as int,
            ),
        ),
        (fed + pairs_of(lines)).len() == fed.len() + lines.len(),
    decreases lines.len(),
{
    let t = before + accepted_response(lines, end);
    let at = before.len() as int;
    if lines.len() == 0 {
        assert(t[at] == Exchange::Line(Ok(end)));
        assert(fed + pairs_of(lines) == fed);
        lemma_terminator_ends(command, reconnects, budget, fed, t, at, end);
    } else {
        let pair = pair_of(lines[0]);
        let read = Exchange::Line(Ok(lines[0]));
        let handed = Exchange::Feed(pair.0, pair.1, Ok(()));
        let rest = accepted_response(lines.skip(1), end);
        assert(is_data_line(lines[0]));
        assert(t[at] == read);
        assert(t[at + 1] == handed);
        assert(t == (before + seq![read, handed]) + rest);
        assert forall|i: int| 0 <= i < lines.skip(1).len() implies is_data_line(
            #[trigger] lines.skip(1)[i],
        ) by {
            assert(lines.skip(1)[i] == lines[i + 1]);
        }
        lemma_pair_is_taken(command, reconnects, budget, fed, t, at, lines[0]);
        lemma_response_presence(
            command,
            reconnects,
            (budget - 1) as nat,
            fed.push(pair),
            before + seq![read, handed],
            lines.skip(1),
            end,
        );
        assert(fed.push(pair) + pairs_of(lines.skip(1)) == fed + pairs_of(lines));
    }
}

/// A value line where the response had to end is refused with the error
/// that carries the line without its line feed, and nothing is asked of the
/// socket after it.
pub proof fn lemma_value_is_refused(
    command: Seq<char>,
    reconnects: nat,
    t: Seq<Exchange>,
    at: int,
    line: Seq<char>,
)
    requires
        exchange_at(t, at) == Some(Exchange::Line(Ok(line))),
        classify(line) == Ok::<_, ErrorView>(LineView::Value(strip_newline(line))),
    ensures
        ok_run(command, reconnects, t, at) == Some(
            (
                Err::<(), _>(ErrorView::Generic(expected_ok_message(strip_newline(line)))),
                at + 1,
            ),
        ),
{
}

/// The first error of the decoder ends the read with that error, behind the
/// pair that the decoder refused, and nothing is asked of the socket after
/// it.
pub proof fn lemma_decoder_error_is_final(
    command: Seq<char>,
    reconnects: nat,
    budget: nat,
    fed: Seq<(Seq<char>, Seq<char>)>,
    t: Seq<Exchange>,
    at: int,
    line: Seq<char>,
    e: ErrorView,
)
    requires
        exchange_at(t, at) == Some(Exchange::Line(Ok(line))),
        is_data_line(line),
        exchange_at(t, at + 1) == Some(
            Exchange::Feed(pair_of(line).0, pair_of(line).1, Err(e)),
        ),
        budget > 0,
    ensures
        response_run(command, reconnects, budget, fed, t, at) == Some(
            (Err::<Seq<(Seq<char>, Seq<char>)>, _>(e), at + 2),
        ),
{
    reveal(response_run);
}

/// An error in a line of a response, other than a closed connection, ends
/// the read with that error and without another call: neither a failure that
/// the server reports, nor a line that cannot be decoded, nor a read that
/// failed is tried again, however many reconnects are left.
pub proof fn lemma_error_is_final(
    command: Seq<char>,
    reconnects: nat,
    budget: nat,
    fed: Seq<(Seq<char>, Seq<char>)>,
    t: Seq<Exchange>,
    at: int,
    e: ErrorView,
)
    requires
        exchange_at(t, at) matches Some(Exchange::Line(reply)) && classify_read(reply) == Err::<
            LineView,
            _,
        >(e),
        e != ErrorView::ClientClosed,
        budget > 0,
    ensures
        ok_run(command, reconnects, t, at) == Some((Err::<(), _>(e), at + 1)),
        response_run(command, reconnects, budget, fed, t, at) == Some(
            (Err::<Seq<(Seq<char>, Seq<char>)>, _>(e), at + 1),
        ),
{
    reveal(response_run);
}

/// A closed connection ends the read with that error once no reconnect is
/// left.
pub proof fn lemma_closed_is_final(
    command: Seq<char>,
    budget: nat,
    fed: Seq<(Seq<char>, Seq<char>)>,
    t: Seq<Exchange>,
    at: int,
)
    requires
        exchange_at(t, at) matches Some(Exchange::Line(reply)) && classify_read(reply) == Err::<
            LineView,
            _,
        >(ErrorView::ClientClosed),
        budget > 0,
    ensures
        ok_run(command, 0, t, at) == Some((Err::<(), _>(ErrorView::ClientClosed), at + 1)),
        response_run(command, 0, budget, fed, t, at) == Some(
            (Err::<Seq<(Seq<char>, Seq<char>)>, _>(ErrorView::ClientClosed), at + 1),
        ),
{
    reveal(response_run);
}

} // verus!
