//! The transaction engine: one command sent over a socket, and its response
//! read in one of four ways.

use crate::channel::{extends, view_unit, Channel, Exchange, SocketClient};
use crate::errors::{view_result, ErrorView, IoErrorView, MpdError};
use crate::line::{
    classify_line, classify_read, decode_request, decoded, decoded_from_default, FromMpd, MpdLine,
};
use crate::steps::{
    after_line, after_round, after_write, already_read, budget_spent, expect_terminator,
    frame_command, frame_spec, offset_command, spent_message, view_round, BinaryMpdResponse,
    LineStep, RoundStep, WriteStep, LINE_BUDGET, MAX_RECONNECTS,
};
use crate::transcript::{
    bin_run, execute_run, lemma_bin_continues, lemma_bin_ends, lemma_bin_recovers,
    lemma_recover_extends, ok_run, payload_run, preamble_run, recover_run, response_run,
    round_run,
};
use vstd::prelude::*;

verus! {

/// One command in flight on a socket. A transaction is made by sending the
/// command and is spent by reading the response: a second read is refused.
pub struct ProtoClient<'cmd, 'client, C: SocketClient> {
    command: &'cmd str,
    channel: Channel<'client, C>,
    reconnects: usize,
    spent: bool,
}

impl<'cmd, 'client, C: SocketClient> ProtoClient<'cmd, 'client, C> {
    /// The text of the command.
    pub closed spec fn command(&self) -> Seq<char> {
        self.command@
    }

    /// How often the transaction may still reconnect in the middle of a
    /// response.
    pub closed spec fn reconnects(&self) -> nat {
        self.reconnects as nat
    }

    /// The record of the calls that the transaction has made.
    pub closed spec fn log(&self) -> Seq<Exchange> {
        self.channel.log()
    }

    /// Whether the response of the transaction was read.
    pub closed spec fn spent(&self) -> bool {
        self.spent
    }

    /// Opens a transaction: sends `input` and a line feed, as `execute`
    /// does. A transaction comes back exactly when the command went out.
    pub fn new(input: &'cmd str, client: &'client mut C) -> (r: Result<Self, MpdError>)
        ensures
            match r {
                Ok(transaction) => {
                    &&& transaction.command() == input@
                    &&& transaction.reconnects() == MAX_RECONNECTS
                    &&& !transaction.spent()
                    &&& execute_run(frame_spec(input@), transaction.log(), 0) == Some(
                        (Ok::<(), ErrorView>(()), transaction.log().len() as int),
                    )
                },
                Err(e) => exists|t: Seq<Exchange>| #[trigger]
                    execute_run(frame_spec(input@), t, 0) == Some(
                        (Err::<(), _>(e@), t.len() as int),
                    ),
            },
    {
        let mut res = Self {
            command: input,
            channel: Channel::new(client),
            reconnects: MAX_RECONNECTS,
            spent: false,
        };
        match res.execute(input) {
            Ok(_) => Ok(res),
            Err(e) => {
                assert(execute_run(frame_spec(input@), res.log(), 0) == Some(
                    (Err::<(), _>(e@), res.log().len() as int),
                ));
                Err(e)
            },
        }
    }

    /// Sends `command` and a line feed. Where the write finds the connection
    /// broken, the socket is reconnected once and the write made once more.
    fn execute(&mut self, command: &str) -> (r: Result<(), MpdError>)
        ensures
            final(self).command() == old(self).command(),
            final(self).reconnects() == old(self).reconnects(),
            final(self).spent() == old(self).spent(),
            extends(final(self).log(), old(self).log()),
            execute_run(frame_spec(command@), final(self).log(), old(self).log().len() as int)
                == Some((view_unit(r), final(self).log().len() as int)),
    {
        let frame = frame_command(command);
        match after_write(self.channel.write(frame.as_slice()), false) {
            WriteStep::Sent => Ok(()),
            WriteStep::Failed(e) => Err(e),
            WriteStep::Reconnect => {
                match self.channel.reconnect() {
                    Ok(_) => {},
                    Err(e) => {
                        return Err(e);
                    },
                }
                match after_write(self.channel.write(frame.as_slice()), true) {
                    WriteStep::Sent => Ok(()),
                    WriteStep::Failed(e) => Err(e),
                    WriteStep::Reconnect => Err(MpdError::ClientClosed),
                }
            },
        }
    }

    /// Spends one reconnect: sets the connection up again and sends
    /// `command`.
    fn recover(&mut self, command: &str) -> (r: Result<(), MpdError>)
        requires
            old(self).reconnects() > 0,
        ensures
            final(self).command() == old(self).command(),
            final(self).reconnects() == old(self).reconnects() - 1,
            final(self).spent() == old(self).spent(),
            extends(final(self).log(), old(self).log()),
            recover_run(frame_spec(command@), final(self).log(), old(self).log().len() as int)
                == Some((view_unit(r), final(self).log().len() as int)),
    {
        self.reconnects = self.reconnects - 1;
        match self.channel.reconnect() {
            Ok(_) => self.execute(command),
            Err(e) => Err(e),
        }
    }

    /// Reads one line from the socket and classifies it. The result is the
    /// class of what the read gave, whatever that was.
    pub fn read_line(client: &mut C) -> (r: Result<MpdLine, MpdError>)
        ensures
            exists|outcome: Result<Seq<char>, IoErrorView>|
                view_result(r) == #[trigger] classify_read(outcome),
    {
        let outcome = client.read_line();
        let r = classify_line(outcome);
        assert(view_result(r) == classify_read(view_result(outcome)));
        r
    }

    /// Reads a response that holds nothing, whether or not the transaction
    /// is spent.
    #[verifier::rlimit(40)]
    fn read_ok_in_place(&mut self) -> (r: Result<(), MpdError>)
        ensures
            final(self).command() == old(self).command(),
            final(self).spent() == old(self).spent(),
            extends(final(self).log(), old(self).log()),
            ok_run(
                old(self).command(),
                old(self).reconnects(),
                final(self).log(),
                old(self).log().len() as int,
            ) == Some((view_unit(r), final(self).log().len() as int)),
    {
        let ghost command = self.command();
        let ghost allowed = self.reconnects();
        let ghost start = self.log().len() as int;
        loop
            invariant
                self.command() == command,
                self.spent() == old(self).spent(),
                command == old(self).command(),
                allowed == old(self).reconnects(),
                start == old(self).log().len(),
                extends(self.log(), old(self).log()),
                forall|full: Seq<Exchange>|
                    extends(full, self.log()) ==> #[trigger] ok_run(command, allowed, full, start)
                        == ok_run(command, self.reconnects(), full, self.log().len() as int),
            decreases self.reconnects,
        {
            let ghost before = self.log();
            let ghost left = self.reconnects();
            let outcome = self.channel.read_line();
            let ghost read = self.log();
            assert(extends(read, before));
            match after_line(classify_line(outcome), self.reconnects) {
                LineStep::Finish => {
                    return Ok(());
                },
                LineStep::Feed(value) => {
                    return expect_terminator(MpdLine::Value(value));
                },
                LineStep::Fail(e) => {
                    return Err(e);
                },
                LineStep::Recover => {
                    let command_text = self.command;
                    match self.recover(command_text) {
                        Ok(_) => {},
                        Err(e) => {
                            assert(extends(self.log(), before));
                            return Err(e);
                        },
                    }
                    let ghost recovered = self.log();
                    assert forall|full: Seq<Exchange>| extends(full, recovered) implies #[trigger]
                        ok_run(command, allowed, full, start) == ok_run(
                        command,
                        self.reconnects(),
                        full,
                        recovered.len() as int,
                    ) by {
                        assert(extends(full, before));
                        lemma_recover_extends(
                            frame_spec(command),
                            recovered,
                            full,
                            read.len() as int,
                        );
                        assert(ok_run(command, left, full, before.len() as int) == ok_run(
                            command,
                            (left - 1) as nat,
                            full,
                            recovered.len() as int,
                        ));
                    }
                },
            }
        }
    }

    /// Reads a response that holds nothing: the terminator has to come
    /// first. A value line before it is a decode error that carries the
    /// line. The read spends the transaction; on a spent transaction it asks
    /// nothing of the socket and fails.
    pub fn read_ok(&mut self) -> (r: Result<(), MpdError>)
        ensures
            final(self).command() == old(self).command(),
            final(self).spent(),
            extends(final(self).log(), old(self).log()),
            old(self).spent() ==> view_unit(r) == Err::<(), _>(
                ErrorView::Generic(spent_message()),
            ) && final(self).log() == old(self).log(),
            !old(self).spent() ==> ok_run(
                old(self).command(),
                old(self).reconnects(),
                final(self).log(),
                old(self).log().len() as int,
            ) == Some((view_unit(r), final(self).log().len() as int)),
    {
        if self.spent {
            return Err(already_read());
        }
        self.spent = true;
        self.read_ok_in_place()
    }

    /// Reads a response into a value of type `V`, and tells whether the
    /// value took any pair. Decoding starts from `V`'s default, and starts
    /// from the default again after every reconnect.
    #[verifier::rlimit(40)]
    fn collect<V: FromMpd + Default>(&mut self) -> (r: Result<(V, bool), MpdError>)
        ensures
            final(self).command() == old(self).command(),
            final(self).spent() == old(self).spent(),
            extends(final(self).log(), old(self).log()),
            response_run(
                old(self).command(),
                old(self).reconnects(),
                LINE_BUDGET as nat,
                Seq::empty(),
                final(self).log(),
                old(self).log().len() as int,
            ) matches Some((outcome, next)) && next == final(self).log().len() && match r {
                Ok((v, found_any)) => outcome matches Ok(fed) && decoded_from_default(fed, v)
                    && found_any == (fed.len() > 0),
                Err(e) => outcome == Err::<Seq<(Seq<char>, Seq<char>)>, _>(e@),
            },
    {
        let ghost command = self.command();
        let ghost allowed = self.reconnects();
        let ghost start = self.log().len() as int;
        let mut result = V::default();
        let ghost mut first: V = result;
        let ghost mut fed: Seq<(Seq<char>, Seq<char>)> = Seq::empty();
        let mut found_any = false;
        let mut budget: u64 = LINE_BUDGET;
        loop
            invariant
                self.command() == command,
                self.spent() == old(self).spent(),
                command == old(self).command(),
                allowed == old(self).reconnects(),
                start == old(self).log().len(),
                extends(self.log(), old(self).log()),
                call_ensures(V::default, (), first),
                decoded(first, fed, result),
                found_any == (fed.len() > 0),
                forall|full: Seq<Exchange>|
                    extends(full, self.log()) ==> #[trigger] response_run(
                        command,
                        allowed,
                        LINE_BUDGET as nat,
                        Seq::empty(),
                        full,
                        start,
                    ) == response_run(
                        command,
                        self.reconnects(),
                        budget as nat,
                        fed,
                        full,
                        self.log().len() as int,
                    ),
            decreases self.reconnects, budget,
        {
            proof {
                reveal(response_run);
            }
            if budget == 0 {
                return Err(budget_spent());
            }
            let ghost before = self.log();
            let ghost left = self.reconnects();
            let outcome = self.channel.read_line();
            let ghost read = self.log();
            assert(extends(read, before));
            match after_line(classify_line(outcome), self.reconnects) {
                LineStep::Finish => {
                    assert(decoded_from_default(fed, result));
                    return Ok((result, found_any));
                },
                LineStep::Fail(e) => {
                    return Err(e);
                },
                LineStep::Feed(line) => {
                    let (key, value) = match decode_request(line) {
                        Ok(pair) => pair,
                        Err(e) => {
                            return Err(e);
                        },
                    };
                    let ghost pair = (key@, value@);
                    let ghost held = result;
                    match self.channel.feed(&mut result, key.as_str(), value) {
                        Ok(_) => {},
                        Err(e) => {
                            assert(extends(self.log(), before));
                            return Err(e);
                        },
                    }
                    let ghost handed = self.log();
                    assert forall|full: Seq<Exchange>| extends(full, handed) implies #[trigger]
                        response_run(
                        command,
                        allowed,
                        LINE_BUDGET as nat,
                        Seq::empty(),
                        full,
                        start,
                    ) == response_run(
                        command,
                        left,
                        (budget - 1) as nat,
                        fed.push(pair),
                        full,
                        handed.len() as int,
                    ) by {
                        assert(extends(full, before));
                        assert(full[before.len() as int] == handed[before.len() as int]);
                        assert(full[before.len() as int + 1] == handed[before.len() as int + 1]);
                        assert(response_run(
                            command,
                            left,
                            budget as nat,
                            fed,
                            full,
                            before.len() as int,
                        ) == response_run(
                            command,
                            left,
                            (budget - 1) as nat,
                            fed.push(pair),
                            full,
                            handed.len() as int,
                        ));
                    }
                    proof {
                        assert(fed.push(pair).drop_last() == fed);
                        assert(fed.push(pair).last() == pair);
                        assert(decoded(first, fed, held));
                        assert(V::takes(held, pair.0, pair.1, result));
                        assert(decoded(first, fed.push(pair), result));
                        fed = fed.push(pair);
                    }
                    found_any = true;
                    budget = budget - 1;
                },
                LineStep::Recover => {
                    let command_text = self.command;
                    match self.recover(command_text) {
                        Ok(_) => {},
                        Err(e) => {
                            assert(extends(self.log(), before));
                            return Err(e);
                        },
                    }
                    let ghost recovered = self.log();
                    assert forall|full: Seq<Exchange>| extends(full, recovered) implies #[trigger]
                        response_run(
                        command,
                        allowed,
                        LINE_BUDGET as nat,
                        Seq::empty(),
                        full,
                        start,
                    ) == response_run(
                        command,
                        self.reconnects(),
                        LINE_BUDGET as nat,
                        Seq::empty(),
                        full,
                        recovered.len() as int,
                    ) by {
                        assert(extends(full, before));
                        assert(full[before.len() as int] == recovered[before.len() as int]);
                        lemma_recover_extends(
                            frame_spec(command),
                            recovered,
                            full,
                            read.len() as int,
                        );
                        assert(response_run(
                            command,
                            left,
                            budget as nat,
                            fed,
                            full,
                            before.len() as int,
                        ) == response_run(
                            command,
                            (left - 1) as nat,
                            LINE_BUDGET as nat,
                            Seq::empty(),
                            full,
                            recovered.len() as int,
                        ));
                    }
                    result = V::default();
                    proof {
                        first = result;
                        fed = Seq::empty();
                    }
                    found_any = false;
                    budget = LINE_BUDGET;
                },
            }
        }
    }

    /// Reads a response into a value of type `V`. Decoding starts from `V`'s
    /// default; every value line up to the terminator is split into key and
    /// value and handed to the value, the key in lower case. The first error
    /// of the decoder ends the read. After a reconnect the decoding starts
    /// again from the default: the value that comes back has taken the pairs
    /// of the last pass and no others. The read spends the transaction; on a
    /// spent transaction it asks nothing of the socket and fails.
    pub fn read_response<V: FromMpd + Default>(&mut self) -> (r: Result<V, MpdError>)
        ensures
            final(self).command() == old(self).command(),
            final(self).spent(),
            extends(final(self).log(), old(self).log()),
            old(self).spent() ==> (r matches Err(e) && e@ == ErrorView::Generic(spent_message())
                && final(self).log() == old(self).log()),
            !old(self).spent() ==> (response_run(
                old(self).command(),
                old(self).reconnects(),
                LINE_BUDGET as nat,
                Seq::empty(),
                final(self).log(),
                old(self).log().len() as int,
            ) matches Some((outcome, next)) && next == final(self).log().len() && match r {
                Ok(v) => outcome matches Ok(fed) && decoded_from_default(fed, v),
                Err(e) => outcome == Err::<Seq<(Seq<char>, Seq<char>)>, _>(e@),
            }),
    {
        if self.spent {
            return Err(already_read());
        }
        self.spent = true;
        match self.collect::<V>() {
            Ok((value, _)) => Ok(value),
            Err(e) => Err(e),
        }
    }

    /// Reads a response as `read_response` does, and tells a response
    /// without any value line from one with values: the first gives `None`,
    /// the second the value that `read_response` would give.
    pub fn read_opt_response<V: FromMpd + Default>(&mut self) -> (r: Result<Option<V>, MpdError>)
        ensures
            final(self).command() == old(self).command(),
            final(self).spent(),
            extends(final(self).log(), old(self).log()),
            old(self).spent() ==> (r matches Err(e) && e@ == ErrorView::Generic(spent_message())
                && final(self).log() == old(self).log()),
            !old(self).spent() ==> (response_run(
                old(self).command(),
                old(self).reconnects(),
                LINE_BUDGET as nat,
                Seq::empty(),
                final(self).log(),
                old(self).log().len() as int,
            ) matches Some((outcome, next)) && next == final(self).log().len() && match r {
                Ok(Some(v)) => outcome matches Ok(fed) && fed.len() > 0 && decoded_from_default(
                    fed,
                    v,
                ),
                Ok(None) => outcome matches Ok(fed) && fed.len() == 0,
                Err(e) => outcome == Err::<Seq<(Seq<char>, Seq<char>)>, _>(e@),
            }),
    {
        if self.spent {
            return Err(already_read());
        }
        self.spent = true;
        match self.collect::<V>() {
            Ok((value, found_any)) => if found_any {
                Ok(Some(value))
            } else {
                Ok(None)
            },
            Err(e) => Err(e),
        }
    }

    /// Reads one round of a binary transfer: the preamble, the slice that it
    /// announces, the empty line after the slice and the terminator. What was
    /// read of the slice is appended to `binary_buf`, which never loses what
    /// it held. `None` means that the terminator came in place of a
    /// preamble. A round comes back with its preamble only when the slice
    /// was read in full.
    #[verifier::rlimit(40)]
    pub fn _read_bin(&mut self, binary_buf: &mut Vec<u8>) -> (r: Result<
        Option<BinaryMpdResponse>,
        MpdError,
    >)
        ensures
            final(self).command() == old(self).command(),
            final(self).reconnects() == old(self).reconnects(),
            final(self).spent() == old(self).spent(),
            extends(final(self).log(), old(self).log()),
            round_run(final(self).log(), old(self).log().len() as int) matches Some(run)
                && run.outcome == view_round(r) && run.next == final(self).log().len()
                && final(binary_buf)@ == old(binary_buf)@ + run.appended,
            r matches Ok(Some(header)) ==> final(binary_buf)@.len() == old(binary_buf)@.len()
                + header.bytes_read,
    {
        let ghost start = self.log().len() as int;
        let mut header = BinaryMpdResponse::default();
        let mut budget: u64 = LINE_BUDGET;
        let mut last = false;
        assert(binary_buf@ + Seq::<u8>::empty() == binary_buf@);
        while !last
            invariant
                *binary_buf == *old(binary_buf),
                self.command() == old(self).command(),
                self.reconnects() == old(self).reconnects(),
                self.spent() == old(self).spent(),
                start == old(self).log().len(),
                extends(self.log(), old(self).log()),
                forall|full: Seq<Exchange>|
                    extends(full, self.log()) ==> #[trigger] round_run(full, start) == if last {
                        payload_run(header@, full, self.log().len() as int)
                    } else {
                        preamble_run(header@, budget as nat, full, self.log().len() as int)
                    },
            decreases
                    if last {
                        0
                    } else {
                        budget + 1
                    },
        {
            if budget == 0 {
                return Err(budget_spent());
            }
            let ghost before = self.log();
            let ghost held = header@;
            let outcome = self.channel.read_line();
            let ghost read = self.log();
            assert(extends(read, before));
            match classify_line(outcome) {
                Err(e) => {
                    return Err(e);
                },
                Ok(MpdLine::Terminator) => {
                    return Ok(None);
                },
                Ok(MpdLine::Value(value)) => {
                    match header.accept(value) {
                        Err(e) => {
                            return Err(e);
                        },
                        Ok(ends) => {
                            assert forall|full: Seq<Exchange>| extends(full, read) implies #[trigger]
                                round_run(full, start) == if ends {
                                payload_run(header@, full, read.len() as int)
                            } else {
                                preamble_run(header@, (budget - 1) as nat, full, read.len() as int)
                            } by {
                                assert(extends(full, before));
                                assert(full[before.len() as int] == read[before.len() as int]);
                                assert(round_run(full, start) == preamble_run(
                                    held,
                                    budget as nat,
                                    full,
                                    before.len() as int,
                                ));
                            }
                            if ends {
                                last = true;
                            } else {
                                budget = budget - 1;
                            }
                        },
                    }
                },
            }
        }
        let ghost before = self.log();
        let reply = self.channel.read_bytes(header.bytes_read);
        assert(extends(self.log(), before));
        let mut chunk = match reply {
            Ok(chunk) => chunk,
            Err(e) => {
                return Err(MpdError::Io(e));
            },
        };
        let received: usize = chunk.len();
        binary_buf.append(&mut chunk);
        if received as u64 != header.bytes_read {
            return Err(MpdError::ClientClosed);
        }
        let _ = self.channel.read_line();
        let outcome = self.channel.read_line();
        assert(extends(self.log(), before));
        match classify_line(outcome) {
            Err(e) => Err(e),
            Ok(line) => match expect_terminator(line) {
                Ok(_) => Ok(Some(header)),
                Err(e) => Err(e),
            },
        }
    }

    /// Reads a binary payload whole, whether or not the transaction is
    /// spent. The server hands the payload out in slices: after each slice
    /// the command is sent again with the number of bytes gathered so far as
    /// the offset, until the payload is whole or a slice comes back empty.
    /// `None` means that the server has no payload for the command.
    #[verifier::rlimit(40)]
    fn read_bin_in_place(&mut self) -> (r: Result<Option<Vec<u8>>, MpdError>)
        ensures
            final(self).command() == old(self).command(),
            final(self).spent() == old(self).spent(),
            extends(final(self).log(), old(self).log()),
            bin_run(
                old(self).command(),
                old(self).reconnects(),
                false,
                Seq::empty(),
                final(self).log(),
                old(self).log().len() as int,
            ) == Some(
                (
                    match r {
                        Ok(Some(payload)) => Ok(Some(payload@)),
                        Ok(None) => Ok(None),
                        Err(e) => Err(e@),
                    },
                    final(self).log().len() as int,
                ),
            ),
    {
        let ghost command = self.command();
        let ghost allowed = self.reconnects();
        let ghost start = self.log().len() as int;
        let mut buf: Vec<u8> = Vec::new();
        let mut data_seen = false;
        loop
            invariant
                self.command() == command,
                self.spent() == old(self).spent(),
                command == old(self).command(),
                allowed == old(self).reconnects(),
                start == old(self).log().len(),
                extends(self.log(), old(self).log()),
                forall|full: Seq<Exchange>|
                    extends(full, self.log()) ==> #[trigger] bin_run(
                        command,
                        allowed,
                        false,
                        Seq::empty(),
                        full,
                        start,
                    ) == bin_run(
                        command,
                        self.reconnects(),
                        data_seen,
                        buf@,
                        full,
                        self.log().len() as int,
                    ),
            decreases self.reconnects, usize::MAX - buf@.len(),
        {
            let ghost before = self.log();
            let ghost at = before.len() as int;
            let ghost left = self.reconnects();
            let ghost seen = data_seen;
            let ghost held = buf@;
            let round = self._read_bin(&mut buf);
            let ghost read = self.log();
            proof {
                lemma_bin_ends(command, left, seen, held, read, at);
            }
            match after_round(round, buf.len(), data_seen, self.reconnects) {
                RoundStep::Complete => {
                    return Ok(Some(buf));
                },
                RoundStep::Absent => {
                    return Ok(None);
                },
                RoundStep::Fail(e) => {
                    return Err(e);
                },
                RoundStep::Continue => {
                    data_seen = true;
                    let next_command = offset_command(self.command, buf.len());
                    let sent = self.execute(next_command.as_str());
                    let ghost asked = self.log();
                    match sent {
                        Ok(_) => {},
                        Err(e) => {
                            proof {
                                lemma_bin_continues(
                                    command,
                                    left,
                                    seen,
                                    held,
                                    read,
                                    asked,
                                    asked,
                                    at,
                                );
                            }
                            return Err(e);
                        },
                    }
                    assert forall|full: Seq<Exchange>| extends(full, asked) implies #[trigger]
                        bin_run(command, allowed, false, Seq::empty(), full, start) == bin_run(
                        command,
                        left,
                        true,
                        buf@,
                        full,
                        asked.len() as int,
                    ) by {
                        assert(extends(full, before));
                        lemma_bin_continues(command, left, seen, held, read, asked, full, at);
                    }
                },
                RoundStep::Recover => {
                    let next_command = offset_command(self.command, buf.len());
                    let sent = self.recover(next_command.as_str());
                    let ghost asked = self.log();
                    match sent {
                        Ok(_) => {},
                        Err(e) => {
                            proof {
                                lemma_bin_recovers(
                                    command,
                                    left,
                                    seen,
                                    held,
                                    read,
                                    asked,
                                    asked,
                                    at,
                                );
                            }
                            return Err(e);
                        },
                    }
                    assert forall|full: Seq<Exchange>| extends(full, asked) implies #[trigger]
                        bin_run(command, allowed, false, Seq::empty(), full, start) == bin_run(
                        command,
                        (left - 1) as nat,
                        seen,
                        buf@,
                        full,
                        asked.len() as int,
                    ) by {
                        assert(extends(full, before));
                        lemma_bin_recovers(command, left, seen, held, read, asked, full, at);
                    }
                },
            }
        }
    }

    /// Reads a binary payload whole. The server hands it out in slices: after
    /// each slice the command is sent again with the number of bytes
    /// gathered so far as the offset, until the payload is whole or a slice
    /// comes back empty. `None` means that the server has no payload for the
    /// command. The read spends the transaction; on a spent transaction it
    /// asks nothing of the socket and fails.
    pub fn read_bin(&mut self) -> (r: Result<Option<Vec<u8>>, MpdError>)
        ensures
            final(self).command() == old(self).command(),
            final(self).spent(),
            extends(final(self).log(), old(self).log()),
            old(self).spent() ==> (r matches Err(e) && e@ == ErrorView::Generic(spent_message())
                && final(self).log() == old(self).log()),
            !old(self).spent() ==> bin_run(
                old(self).command(),
                old(self).reconnects(),
                false,
                Seq::empty(),
                final(self).log(),
                old(self).log().len() as int,
            ) == Some(
                (
                    match r {
                        Ok(Some(payload)) => Ok(Some(payload@)),
                        Ok(None) => Ok(None),
                        Err(e) => Err(e@),
                    },
                    final(self).log().len() as int,
                ),
            ),
    {
        if self.spent {
            return Err(already_read());
        }
        self.spent = true;
        self.read_bin_in_place()
    }
}

} // verus!
