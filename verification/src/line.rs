//! Response lines: their three classes, the split of a data line into key
//! and value, and the contract of the types that are decoded from data lines.

use crate::errors::{parse_failure, view_result, ErrorView, IoFailure, IoErrorView, MpdError, MpdFailureResponse};
use crate::text::{
    split_once, split_once_spec, starts_with, string_of, strip_newline, subrange, to_chars,
};
use vstd::prelude::*;

verus! {

/// A line of a response that is no failure line.
#[derive(Debug, Clone, PartialEq, Eq)]
pub enum MpdLine {
    /// The line that ends a response with success.
    Terminator,
    /// Any other line, without the line feed at its end.
    Value(String),
}

/// A line as a mathematical value.
pub enum LineView {
    Terminator,
    Value(Seq<char>),
}

impl View for MpdLine {
    type V = LineView;

    open spec fn view(&self) -> LineView {
        match *self {
            MpdLine::Terminator => LineView::Terminator,
            MpdLine::Value(s) => LineView::Value(s@),
        }
    }
}

/// The class of a line as it was read, line feed included. A line of no
/// characters means that the stream has ended. A line that begins with `OK`
/// or `list_OK` ends the response, whatever follows on it. A line that begins
/// with `ACK` is a failure line and comes back as the error it reports, or as
/// the error of decoding it. Any other line is a value.
pub open spec fn classify(line: Seq<char>) -> Result<LineView, ErrorView> {
    if line.len() == 0 {
        Err(ErrorView::ClientClosed)
    } else if "OK"@.is_prefix_of(line) || "list_OK"@.is_prefix_of(line) {
        Ok(LineView::Terminator)
    } else if "ACK"@.is_prefix_of(line) {
        match parse_failure(line) {
            Ok(failure) => Err(ErrorView::Mpd(failure)),
            Err(e) => Err(e),
        }
    } else {
        Ok(LineView::Value(strip_newline(line)))
    }
}

/// The class of what a read of one line gave. A read that found the
/// connection broken counts as a closed connection, as a read of nothing
/// does; a read that failed otherwise is an I/O error and stays one.
pub open spec fn classify_read(outcome: Result<Seq<char>, IoErrorView>) -> Result<
    LineView,
    ErrorView,
> {
    match outcome {
        Ok(line) => classify(line),
        Err(e) => if e.broken_pipe {
            Err(ErrorView::ClientClosed)
        } else {
            Err(ErrorView::Io(e))
        },
    }
}

/// Key and value of a data line: what stands before the first colon, and what
/// stands after it, without the one space that separates the two.
pub open spec fn split_line_spec(line: Seq<char>) -> Option<(Seq<char>, Seq<char>)> {
    match split_once_spec(line, ":"@) {
        None => None,
        Some((key, rest)) => Some(
            (
                key,
                if rest.len() > 0 && rest[0] == ' ' {
                    rest.skip(1)
                } else {
                    rest
                },
            ),
        ),
    }
}

/// The lower-case form of a text, as `str::to_lowercase` gives it.
pub uninterp spec fn lowercase(s: Seq<char>) -> Seq<char>;

/// What a decoder is handed for a data line: the key in lower case, and the
/// value. A line without a colon holds no value, and is refused.
pub open spec fn decode_request_spec(line: Seq<char>) -> Result<(Seq<char>, Seq<char>), ErrorView> {
    match split_line_spec(line) {
        None => Err(ErrorView::ValueExpected(line)),
        Some((key, value)) => Ok((lowercase(key), value)),
    }
}

/// The lower-case form of `s`. Trusted: this is `str::to_lowercase`, whose
/// result depends on the text alone; the contract only gives it its name.
#[verifier::external_body]
pub(crate) fn to_lowercase(s: &str) -> (r: String)
    ensures
        r@ == lowercase(s@),
{
    s.to_lowercase()
}

/// Classifies what a read of one line gave.
pub fn classify_line(outcome: Result<String, IoFailure>) -> (r: Result<MpdLine, MpdError>)
    ensures
        view_result(r) == classify_read(view_result(outcome)),
{
    let line = match outcome {
        Ok(line) => line,
        Err(e) => {
            return if e.broken_pipe {
                Err(MpdError::ClientClosed)
            } else {
                Err(MpdError::Io(e))
            };
        },
    };
    let chars = to_chars(line.as_str());
    if chars.len() == 0 {
        return Err(MpdError::ClientClosed);
    }
    let ok = to_chars("OK");
    let list_ok = to_chars("list_OK");
    if starts_with(chars.as_slice(), ok.as_slice()) || starts_with(
        chars.as_slice(),
        list_ok.as_slice(),
    ) {
        return Ok(MpdLine::Terminator);
    }
    let ack = to_chars("ACK");
    if starts_with(chars.as_slice(), ack.as_slice()) {
        return match MpdFailureResponse::parse_chars(chars.as_slice()) {
            Ok(failure) => Err(MpdError::Mpd(failure)),
            Err(e) => Err(e),
        };
    }
    let n: usize = chars.len();
    if chars[n - 1] == '\n' {
        let value = subrange(chars.as_slice(), 0, n - 1);
        Ok(MpdLine::Value(string_of(value.as_slice())))
    } else {
        Ok(MpdLine::Value(line))
    }
}

/// Splits a data line into key and value.
pub fn split_line(line: String) -> (r: Result<(String, String), MpdError>)
    ensures
        match r {
            Ok((key, value)) => split_line_spec(line@) == Some((key@, value@)),
            Err(e) => split_line_spec(line@) is None && e@ == ErrorView::ValueExpected(line@),
        },
{
    let chars = to_chars(line.as_str());
    let colon = to_chars(":");
    match split_once(chars.as_slice(), colon.as_slice()) {
        None => Err(MpdError::ValueExpected(line)),
        Some((key, rest)) => {
            let n: usize = rest.len();
            let value = if n > 0 && rest[0] == ' ' {
                subrange(rest.as_slice(), 1, n)
            } else {
                rest
            };
            Ok((string_of(key.as_slice()), string_of(value.as_slice())))
        },
    }
}

/// Prepares a data line for a decoder: the key in lower case, and the value.
pub fn decode_request(line: String) -> (r: Result<(String, String), MpdError>)
    ensures
        match r {
            Ok((key, value)) => decode_request_spec(line@) == Ok::<_, ErrorView>((key@, value@)),
            Err(e) => decode_request_spec(line@) == Err::<(Seq<char>, Seq<char>), _>(e@),
        },
{
    match split_line(line) {
        Ok((key, value)) => Ok((to_lowercase(key.as_str()), value)),
        Err(e) => Err(e),
    }
}

/// Whether a decoder knew the key it was handed.
#[derive(Debug, Clone, PartialEq, Eq)]
pub enum LineHandled {
    Yes,
    No { value: String },
}

/// A type that is decoded from the data lines of a response. Decoding starts
/// from the type's default value and hands it one key with its value after
/// another.
pub trait FromMpd: Sized {
    /// What taking a pair does to a value: `after` is what `before` may
    /// become by taking `key` with `value` and accepting it. A type that
    /// does not say leaves every change open.
    open spec fn takes(before: Self, key: Seq<char>, value: Seq<char>, after: Self) -> bool {
        true
    }

    /// Takes one key, in lower case, with its value. The result says whether
    /// the key meant anything to the type; an error ends the whole decoding.
    fn next_internal(&mut self, key: &str, value: String) -> (r: Result<LineHandled, MpdError>)
        ensures
            r is Ok ==> Self::takes(*old(self), key@, value@, *final(self)),
    ;

    /// Takes one data line: splits it and hands key and value to
    /// `next_internal`. A line without a colon is refused before the type
    /// sees it.
    fn next(&mut self, line: String) -> (r: Result<LineHandled, MpdError>)
        default_ensures
            match decode_request_spec(line@) {
                Err(e) => r is Err && r->Err_0@ == e && *final(self) == *old(self),
                Ok((key, value)) => r is Ok ==> Self::takes(*old(self), key, value, *final(self)),
            },
    {
        match decode_request(line) {
            Ok((key, value)) => self.next_internal(key.as_str(), value),
            Err(e) => Err(e),
        }
    }
}

/// `after` is what `before` became by taking the given pairs of key and
/// value, in order, and accepting each.
pub open spec fn decoded<V: FromMpd>(before: V, pairs: Seq<(Seq<char>, Seq<char>)>, after: V) -> bool
    decreases pairs.len(),
{
    if pairs.len() == 0 {
        after == before
    } else {
        exists|mid: V|
            decoded(before, pairs.drop_last(), mid) && #[trigger] V::takes(
                mid,
                pairs.last().0,
                pairs.last().1,
                after,
            )
    }
}

/// `v` is what a default value of its type became by taking the given pairs
/// of key and value, in order, and accepting each.
pub open spec fn decoded_from_default<V: FromMpd + Default>(
    pairs: Seq<(Seq<char>, Seq<char>)>,
    v: V,
) -> bool {
    exists|start: V| #[trigger] call_ensures(V::default, (), start) && decoded(start, pairs, v)
}

/// A line that begins with `OK` or with `list_OK` ends the response, whatever
/// else it holds.
pub proof fn lemma_terminator(line: Seq<char>)
    requires
        "OK"@.is_prefix_of(line) || "list_OK"@.is_prefix_of(line),
    ensures
        classify(line) == Ok::<_, ErrorView>(LineView::Terminator),
{
    reveal_strlit("OK");
    reveal_strlit("list_OK");
}

/// A value line carries the text of the line as it was read, without the
/// line feed that may end it.
pub proof fn lemma_value_line(line: Seq<char>)
    requires
        classify(line) matches Ok(LineView::Value(_)),
    ensures
        classify(line) == Ok::<_, ErrorView>(LineView::Value(strip_newline(line))),
{
}

/// A read of nothing and a read that found the connection broken are the
/// same closed connection, whatever else the failure says; a read that failed
/// otherwise is no closed connection.
pub proof fn lemma_closed_alike(failure: IoErrorView)
    ensures
        classify_read(Ok(Seq::<char>::empty())) == Err::<LineView, _>(ErrorView::ClientClosed),
        failure.broken_pipe ==> classify_read(Err(failure)) == classify_read(
            Ok(Seq::<char>::empty()),
        ),
        !failure.broken_pipe ==> classify_read(Err(failure)) == Err::<LineView, _>(
            ErrorView::Io(failure),
        ),
{
}

} // verus!
