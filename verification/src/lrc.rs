//! Lyrics in the LRC format: lines of text, each behind a time stamp in
//! square brackets, and metadata in the same brackets.

use crate::number::{parse_i64, parse_signed, parse_u64, parse_unsigned};
use crate::text::{
    equal, lines, lines_spec, split_once, split_once_spec, string_of, subrange, to_chars, trim,
    trim_spec, views,
};
use std::str::FromStr;
use std::time::Duration;
use vstd::prelude::*;

verus! {

/// One line of lyrics and the time at which it is sung.
#[derive(Debug, Eq, PartialEq)]
pub struct LrcLine {
    pub time: Duration,
    pub content: String,
}

/// A lyrics file.
#[derive(Debug, Eq, PartialEq)]
pub struct Lrc {
    pub lines: Vec<LrcLine>,
    /// ti
    pub title: Option<String>,
    /// ar
    pub artist: Option<String>,
    /// al
    pub album: Option<String>,
    /// au
    pub author: Option<String>,
    /// length
    pub length: Option<Duration>,
}

/// Why a text is no lyrics file. Each error carries the text that it is
/// about.
#[derive(Debug, Clone, Eq, PartialEq)]
pub enum LrcError {
    /// A line that does not begin with a tag in square brackets.
    Line(String),
    /// A time stamp without a colon after the minutes.
    Minutes(String),
    /// A time stamp without a dot or colon after the seconds.
    Seconds(String),
    /// A number that does not read as one, or a time stamp that is too large.
    Number(String),
    /// Metadata without a colon after the key.
    Metadata(String),
    /// An empty tag.
    Timestamp(String),
    /// A length that is not minutes, a colon and seconds, or is too large.
    Length(String),
}

/// An error as a mathematical value.
pub enum LrcErrorView {
    Line(Seq<char>),
    Minutes(Seq<char>),
    Seconds(Seq<char>),
    Number(Seq<char>),
    Metadata(Seq<char>),
    Timestamp(Seq<char>),
    Length(Seq<char>),
}

impl View for LrcError {
    type V = LrcErrorView;

    open spec fn view(&self) -> LrcErrorView {
        match *self {
            LrcError::Line(s) => LrcErrorView::Line(s@),
            LrcError::Minutes(s) => LrcErrorView::Minutes(s@),
            LrcError::Seconds(s) => LrcErrorView::Seconds(s@),
            LrcError::Number(s) => LrcErrorView::Number(s@),
            LrcError::Metadata(s) => LrcErrorView::Metadata(s@),
            LrcError::Timestamp(s) => LrcErrorView::Timestamp(s@),
            LrcError::Length(s) => LrcErrorView::Length(s@),
        }
    }
}

/// A line of lyrics as a mathematical value, its time in milliseconds.
pub struct LrcLineView {
    pub millis: u64,
    pub content: Seq<char>,
}

/// A lyrics file as a mathematical value, its length in seconds.
pub struct LrcView {
    pub lines: Seq<LrcLineView>,
    pub title: Option<Seq<char>>,
    pub artist: Option<Seq<char>>,
    pub album: Option<Seq<char>>,
    pub author: Option<Seq<char>>,
    pub length: Option<u64>,
}

/// What has been read of a lyrics file: the offset that applies to the time
/// stamps still to come, and the file so far.
pub struct LrcProgress {
    pub offset: Option<i64>,
    pub lrc: LrcView,
}

/// The span of time of `secs` seconds and `nanos` nanoseconds, as
/// `Duration::new` makes it.
pub uninterp spec fn duration_of(secs: u64, nanos: u32) -> Duration;

/// The span of time of `millis` milliseconds.
pub open spec fn duration_of_millis(millis: u64) -> Duration {
    duration_of(millis / 1000, ((millis % 1000) * 1_000_000) as u32)
}

/// The text of an optional string.
pub open spec fn option_text(s: Option<String>) -> Option<Seq<char>> {
    match s {
        Some(s) => Some(s@),
        None => None,
    }
}

/// `lrc` holds what `v` describes.
pub open spec fn represents(lrc: Lrc, v: LrcView) -> bool {
    &&& lrc.lines@.len() == v.lines.len()
    &&& forall|i: int|
        0 <= i < v.lines.len() ==> (#[trigger] lrc.lines@[i]).time == duration_of_millis(
            v.lines[i].millis,
        ) && lrc.lines@[i].content@ == v.lines[i].content
    &&& option_text(lrc.title) == v.title
    &&& option_text(lrc.artist) == v.artist
    &&& option_text(lrc.album) == v.album
    &&& option_text(lrc.author) == v.author
    &&& match lrc.length {
        Some(d) => v.length is Some && d == duration_of(v.length->Some_0, 0),
        None => v.length is None,
    }
}

/// Whether a character is numeric in the sense of Unicode, as
/// `char::is_numeric` says.
pub uninterp spec fn numeric(c: char) -> bool;

/// The tag of a line and the text behind it: the line without the white
/// space around it begins with `[`, and the tag goes up to the first `]`.
pub open spec fn bracketed(line: Seq<char>) -> Option<(Seq<char>, Seq<char>)> {
    let t = trim_spec(line);
    if t.len() > 0 && t[0] == '[' {
        split_once_spec(t.skip(1), "]"@)
    } else {
        None
    }
}

/// Seconds and hundredths of a time stamp: split at the first dot or, where
/// there is no dot, at the first colon.
pub open spec fn split_seconds(rest: Seq<char>) -> Option<(Seq<char>, Seq<char>)> {
    match split_once_spec(rest, "."@) {
        Some(parts) => Some(parts),
        None => split_once_spec(rest, ":"@),
    }
}

/// The time in milliseconds that a time stamp gives: minutes, a colon,
/// seconds, a dot or colon, and hundredths of a second.
pub open spec fn timestamp_millis(tag: Seq<char>) -> Result<u64, LrcErrorView> {
    match split_once_spec(tag, ":"@) {
        None => Err(LrcErrorView::Minutes(tag)),
        Some((minutes, rest)) => match split_seconds(rest) {
            None => Err(LrcErrorView::Seconds(rest)),
            Some((seconds, hundredths)) => match parse_unsigned(minutes, u64::MAX as nat) {
                None => Err(LrcErrorView::Number(minutes)),
                Some(m) => match parse_unsigned(seconds, u64::MAX as nat) {
                    None => Err(LrcErrorView::Number(seconds)),
                    Some(s) => match parse_unsigned(hundredths, u64::MAX as nat) {
                        None => Err(LrcErrorView::Number(hundredths)),
                        Some(h) => if m * 60_000 + s * 1000 + h * 10 <= u64::MAX {
                            Ok((m * 60_000 + s * 1000 + h * 10) as u64)
                        } else {
                            Err(LrcErrorView::Number(tag))
                        },
                    },
                },
            },
        },
    }
}

/// A time moved by the offset of the file: a positive offset makes it
/// earlier, a negative one later, and it stays within the range of `u64`.
pub open spec fn shifted(millis: u64, offset: Option<i64>) -> u64 {
    match offset {
        Some(o) => if o > 0 {
            if millis >= o {
                (millis - o) as u64
            } else {
                0
            }
        } else if o < 0 {
            if millis - o <= u64::MAX {
                (millis - o) as u64
            } else {
                u64::MAX
            }
        } else {
            millis
        },
        None => millis,
    }
}

/// The length in seconds that the text of a length gives: minutes, a colon,
/// and seconds.
pub open spec fn length_seconds(text: Seq<char>) -> Result<u64, LrcErrorView> {
    match split_once_spec(text, ":"@) {
        None => Err(LrcErrorView::Length(text)),
        Some((minutes, seconds)) => match parse_unsigned(minutes, u64::MAX as nat) {
            None => Err(LrcErrorView::Number(minutes)),
            Some(m) => match parse_unsigned(seconds, u64::MAX as nat) {
                None => Err(LrcErrorView::Number(seconds)),
                Some(s) => if m * 60 + s <= u64::MAX {
                    Ok((m * 60 + s) as u64)
                } else {
                    Err(LrcErrorView::Length(text))
                },
            },
        },
    }
}

/// The file after a metadata tag. Key and value stand on either side of the
/// first colon and are taken without the white space around them. The keys
/// are `offset`, `ti`, `ar`, `al`, `au` and `length`; any other key changes
/// nothing.
pub open spec fn with_metadata(progress: LrcProgress, tag: Seq<char>) -> Result<
    LrcProgress,
    LrcErrorView,
> {
    match split_once_spec(tag, ":"@) {
        None => Err(LrcErrorView::Metadata(tag)),
        Some((key, value)) => {
            let key = trim_spec(key);
            let value = trim_spec(value);
            if key == "offset"@ {
                match parse_signed(value, i64::MIN as int, i64::MAX as int) {
                    Some(o) => Ok(LrcProgress { offset: Some(o as i64), ..progress }),
                    None => Err(LrcErrorView::Number(value)),
                }
            } else if key == "ti"@ {
                Ok(LrcProgress { lrc: LrcView { title: Some(value), ..progress.lrc }, ..progress })
            } else if key == "ar"@ {
                Ok(LrcProgress { lrc: LrcView { artist: Some(value), ..progress.lrc }, ..progress })
            } else if key == "al"@ {
                Ok(LrcProgress { lrc: LrcView { album: Some(value), ..progress.lrc }, ..progress })
            } else if key == "au"@ {
                Ok(LrcProgress { lrc: LrcView { author: Some(value), ..progress.lrc }, ..progress })
            } else if key == "length"@ {
                match length_seconds(value) {
                    Ok(secs) => Ok(
                        LrcProgress {
                            lrc: LrcView { length: Some(secs), ..progress.lrc },
                            ..progress
                        },
                    ),
                    Err(e) => Err(e),
                }
            } else {
                Ok(progress)
            }
        },
    }
}

/// The file after a tag and the text behind it. `numeric` says whether the
/// tag begins with a numeric character: such a tag is a time stamp, and adds
/// the text to the lyrics, at the time of the stamp moved by the offset; any
/// other tag is metadata.
pub open spec fn with_tag(
    progress: LrcProgress,
    tag: Seq<char>,
    content: Seq<char>,
    numeric: bool,
) -> Result<LrcProgress, LrcErrorView> {
    if numeric {
        match timestamp_millis(tag) {
            Err(e) => Err(e),
            Ok(millis) => Ok(
                LrcProgress {
                    lrc: LrcView {
                        lines: progress.lrc.lines.push(
                            LrcLineView { millis: shifted(millis, progress.offset), content },
                        ),
                        ..progress.lrc
                    },
                    ..progress
                },
            ),
        }
    } else {
        with_metadata(progress, tag)
    }
}

/// The file after one more line of its text. An empty line and a line that
/// begins with `#` change nothing. Any other line holds a tag in square
/// brackets, which must not be empty, and is taken as `with_tag` says.
pub open spec fn with_line(progress: LrcProgress, line: Seq<char>) -> Result<
    LrcProgress,
    LrcErrorView,
> {
    if line.len() == 0 || line[0] == '#' {
        Ok(progress)
    } else {
        match bracketed(line) {
            None => Err(LrcErrorView::Line(line)),
            Some((tag, content)) => if tag.len() == 0 {
                Err(LrcErrorView::Timestamp(tag))
            } else {
                with_tag(progress, tag, content, numeric(tag[0]))
            },
        }
    }
}

/// The state before the first line: no offset, and an empty file.
pub open spec fn nothing_read() -> LrcProgress {
    LrcProgress {
        offset: None,
        lrc: LrcView {
            lines: Seq::empty(),
            title: None,
            artist: None,
            album: None,
            author: None,
            length: None,
        },
    }
}

/// The file after the given lines, read in order; the first error ends the
/// reading.
pub open spec fn with_lines(lines: Seq<Seq<char>>) -> Result<LrcProgress, LrcErrorView>
    decreases lines.len(),
{
    if lines.len() == 0 {
        Ok(nothing_read())
    } else {
        match with_lines(lines.drop_last()) {
            Ok(progress) => with_line(progress, lines.last()),
            Err(e) => Err(e),
        }
    }
}

/// The lyrics file that a text holds.
pub open spec fn parse_lrc(text: Seq<char>) -> Result<LrcView, LrcErrorView> {
    match with_lines(lines_spec(text)) {
        Ok(progress) => Ok(progress.lrc),
        Err(e) => Err(e),
    }
}

/// An error within the first `k` lines is the error of the whole.
pub proof fn lemma_error_stays(lines: Seq<Seq<char>>, k: int)
    requires
        0 <= k <= lines.len(),
        with_lines(lines.take(k)) is Err,
    ensures
        with_lines(lines) == with_lines(lines.take(k)),
    decreases lines.len() - k,
{
    if k < lines.len() {
        assert(lines.take(k + 1).drop_last() == lines.take(k));
        lemma_error_stays(lines, k + 1);
    } else {
        assert(lines.take(k) == lines);
    }
}

/// The span of time of `secs` seconds and `nanos` nanoseconds. Trusted: this
/// is `Duration::new`, which carries nothing over and does not panic while
/// the nanoseconds stay below a second; the contract only gives its result
/// its name.
#[verifier::external_body]
fn duration(secs: u64, nanos: u32) -> (d: Duration)
    requires
        nanos < 1_000_000_000,
    ensures
        d == duration_of(secs, nanos),
{
    Duration::new(secs, nanos)
}

/// Whether a character is numeric in the sense of Unicode. Trusted: this is
/// `char::is_numeric`; the contract only gives its result its name.
#[verifier::external_body]
fn is_numeric(c: char) -> (r: bool)
    ensures
        r == numeric(c),
{
    c.is_numeric()
}

/// The span of time of `millis` milliseconds.
fn duration_from_millis(millis: u64) -> (d: Duration)
    ensures
        d == duration_of_millis(millis),
{
    duration(millis / 1000, ((millis % 1000) * 1_000_000) as u32)
}

/// The tag of a line and the text behind it.
fn split_tag(line: &[char]) -> (r: Option<(Vec<char>, Vec<char>)>)
    ensures
        match r {
            Some((tag, content)) => bracketed(line@) == Some((tag@, content@)),
            None => bracketed(line@) is None,
        },
{
    let t = trim(line);
    let n: usize = t.len();
    if n > 0 && t[0] == '[' {
        let inner = subrange(t.as_slice(), 1, n);
        assert(inner@ == t@.skip(1));
        let close = to_chars("]");
        split_once(inner.as_slice(), close.as_slice())
    } else {
        None
    }
}

/// The time in milliseconds that a time stamp gives.
fn parse_timestamp(tag: &[char]) -> (r: Result<u64, LrcError>)
    ensures
        match r {
            Ok(millis) => timestamp_millis(tag@) == Ok::<_, LrcErrorView>(millis),
            Err(e) => timestamp_millis(tag@) == Err::<u64, _>(e@),
        },
{
    let colon = to_chars(":");
    let dot = to_chars(".");
    let (minutes, rest) = match split_once(tag, colon.as_slice()) {
        Some(parts) => parts,
        None => {
            return Err(LrcError::Minutes(string_of(tag)));
        },
    };
    let (seconds, hundredths) = match split_once(rest.as_slice(), dot.as_slice()) {
        Some(parts) => parts,
        None => match split_once(rest.as_slice(), colon.as_slice()) {
            Some(parts) => parts,
            None => {
                return Err(LrcError::Seconds(string_of(rest.as_slice())));
            },
        },
    };
    let m = match parse_u64(minutes.as_slice()) {
        Some(m) => m,
        None => {
            return Err(LrcError::Number(string_of(minutes.as_slice())));
        },
    };
    let s = match parse_u64(seconds.as_slice()) {
        Some(s) => s,
        None => {
            return Err(LrcError::Number(string_of(seconds.as_slice())));
        },
    };
    let h = match parse_u64(hundredths.as_slice()) {
        Some(h) => h,
        None => {
            return Err(LrcError::Number(string_of(hundredths.as_slice())));
        },
    };
    let total = match m.checked_mul(60_000) {
        Some(minutes) => match s.checked_mul(1000) {
            Some(seconds) => match h.checked_mul(10) {
                Some(hundredths) => match minutes.checked_add(seconds) {
                    Some(sum) => sum.checked_add(hundredths),
                    None => None,
                },
                None => None,
            },
            None => None,
        },
        None => None,
    };
    match total {
        Some(millis) => Ok(millis),
        None => Err(LrcError::Number(string_of(tag))),
    }
}

/// A time moved by the offset of the file.
fn shift(millis: u64, offset: Option<i64>) -> (r: u64)
    ensures
        r == shifted(millis, offset),
{
    match offset {
        Some(o) => if o > 0 {
            let by: u64 = o as u64;
            if millis >= by {
                millis - by
            } else {
                0
            }
        } else if o < 0 {
            let by: u64 = if o == i64::MIN {
                0x8000_0000_0000_0000
            } else {
                (0 - o) as u64
            };
            match millis.checked_add(by) {
                Some(sum) => sum,
                None => u64::MAX,
            }
        } else {
            millis
        },
        None => millis,
    }
}

/// The length in seconds that the text of a length gives.
fn parse_length(text: &[char]) -> (r: Result<u64, LrcError>)
    ensures
        match r {
            Ok(secs) => length_seconds(text@) == Ok::<_, LrcErrorView>(secs),
            Err(e) => length_seconds(text@) == Err::<u64, _>(e@),
        },
{
    let colon = to_chars(":");
    let (minutes, seconds) = match split_once(text, colon.as_slice()) {
        Some(parts) => parts,
        None => {
            return Err(LrcError::Length(string_of(text)));
        },
    };
    let m = match parse_u64(minutes.as_slice()) {
        Some(m) => m,
        None => {
            return Err(LrcError::Number(string_of(minutes.as_slice())));
        },
    };
    let s = match parse_u64(seconds.as_slice()) {
        Some(s) => s,
        None => {
            return Err(LrcError::Number(string_of(seconds.as_slice())));
        },
    };
    let total = match m.checked_mul(60) {
        Some(minutes) => minutes.checked_add(s),
        None => None,
    };
    match total {
        Some(secs) => Ok(secs),
        None => Err(LrcError::Length(string_of(text))),
    }
}

/// The lines of lyrics that a vector of times and texts holds.
pub open spec fn line_views(lines: Seq<(u64, String)>) -> Seq<LrcLineView> {
    Seq::new(lines.len(), |i: int| LrcLineView { millis: lines[i].0, content: lines[i].1@ })
}

/// A lyrics file while it is read: the offset for the time stamps to come,
/// and what the lines so far have given, with times in milliseconds and the
/// length in seconds.
pub struct LrcReader {
    pub offset: Option<i64>,
    pub lines: Vec<(u64, String)>,
    pub title: Option<String>,
    pub artist: Option<String>,
    pub album: Option<String>,
    pub author: Option<String>,
    pub length: Option<u64>,
}

impl View for LrcReader {
    type V = LrcProgress;

    open spec fn view(&self) -> LrcProgress {
        LrcProgress {
            offset: self.offset,
            lrc: LrcView {
                lines: line_views(self.lines@),
                title: option_text(self.title),
                artist: option_text(self.artist),
                album: option_text(self.album),
                author: option_text(self.author),
                length: self.length,
            },
        }
    }
}

impl LrcReader {
    /// A reader that has read nothing.
    pub fn new() -> (r: Self)
        ensures
            r@ == nothing_read(),
    {
        let r = LrcReader {
            offset: None,
            lines: Vec::new(),
            title: None,
            artist: None,
            album: None,
            author: None,
            length: None,
        };
        assert(line_views(r.lines@) == Seq::<LrcLineView>::empty());
        r
    }

    /// Takes a metadata tag. An error leaves the reader as it was.
    pub fn metadata(&mut self, tag: &[char]) -> (r: Result<(), LrcError>)
        ensures
            match r {
                Ok(_) => with_metadata(old(self)@, tag@) == Ok::<_, LrcErrorView>(final(self)@),
                Err(e) => with_metadata(old(self)@, tag@) == Err::<LrcProgress, _>(e@)
                    && *final(self) == *old(self),
            },
    {
        let colon = to_chars(":");
        let (key, value) = match split_once(tag, colon.as_slice()) {
            Some(parts) => parts,
            None => {
                return Err(LrcError::Metadata(string_of(tag)));
            },
        };
        let key = trim(key.as_slice());
        let value = trim(value.as_slice());
        let offset = to_chars("offset");
        let ti = to_chars("ti");
        let ar = to_chars("ar");
        let al = to_chars("al");
        let au = to_chars("au");
        let length = to_chars("length");
        if equal(key.as_slice(), offset.as_slice()) {
            match parse_i64(value.as_slice()) {
                Some(o) => {
                    self.offset = Some(o);
                    Ok(())
                },
                None => Err(LrcError::Number(string_of(value.as_slice()))),
            }
        } else if equal(key.as_slice(), ti.as_slice()) {
            self.title = Some(string_of(value.as_slice()));
            Ok(())
        } else if equal(key.as_slice(), ar.as_slice()) {
            self.artist = Some(string_of(value.as_slice()));
            Ok(())
        } else if equal(key.as_slice(), al.as_slice()) {
            self.album = Some(string_of(value.as_slice()));
            Ok(())
        } else if equal(key.as_slice(), au.as_slice()) {
            self.author = Some(string_of(value.as_slice()));
            Ok(())
        } else if equal(key.as_slice(), length.as_slice()) {
            match parse_length(value.as_slice()) {
                Ok(secs) => {
                    self.length = Some(secs);
                    Ok(())
                },
                Err(e) => Err(e),
            }
        } else {
            Ok(())
        }
    }

    /// Takes a tag and the text behind it. `numeric` says whether the tag
    /// begins with a numeric character. An error leaves the reader as it
    /// was.
    pub fn tag(&mut self, tag: &[char], content: &[char], numeric: bool) -> (r: Result<
        (),
        LrcError,
    >)
        ensures
            match r {
                Ok(_) => with_tag(old(self)@, tag@, content@, numeric) == Ok::<_, LrcErrorView>(
                    final(self)@,
                ),
                Err(e) => with_tag(old(self)@, tag@, content@, numeric) == Err::<LrcProgress, _>(
                    e@,
                ) && *final(self) == *old(self),
            },
    {
        if numeric {
            let millis = match parse_timestamp(tag) {
                Ok(millis) => millis,
                Err(e) => {
                    return Err(e);
                },
            };
            let millis = shift(millis, self.offset);
            let ghost before = self.lines@;
            self.lines.push((millis, string_of(content)));
            assert(line_views(self.lines@) == line_views(before).push(
                LrcLineView { millis, content: content@ },
            ));
            Ok(())
        } else {
            self.metadata(tag)
        }
    }

    /// Takes one line of the text. An error leaves the reader as it was.
    pub fn line(&mut self, line: &[char]) -> (r: Result<(), LrcError>)
        ensures
            match r {
                Ok(_) => with_line(old(self)@, line@) == Ok::<_, LrcErrorView>(final(self)@),
                Err(e) => with_line(old(self)@, line@) == Err::<LrcProgress, _>(e@) && *final(self)
                    == *old(self),
            },
    {
        if line.len() == 0 || line[0] == '#' {
            return Ok(());
        }
        let (tag, content) = match split_tag(line) {
            Some(parts) => parts,
            None => {
                return Err(LrcError::Line(string_of(line)));
            },
        };
        if tag.len() == 0 {
            return Err(LrcError::Timestamp(string_of(tag.as_slice())));
        }
        let numeric = is_numeric(tag[0]);
        self.tag(tag.as_slice(), content.as_slice(), numeric)
    }

    /// The lyrics file that was read.
    pub fn finish(self) -> (lrc: Lrc)
        ensures
            represents(lrc, self@.lrc),
    {
        let mut lines: Vec<LrcLine> = Vec::new();
        let mut i: usize = 0;
        while i < self.lines.len()
            invariant
                i <= self.lines@.len(),
                lines@.len() == i,
                forall|j: int|
                    0 <= j < i ==> (#[trigger] lines@[j]).time == duration_of_millis(
                        self.lines@[j].0,
                    ) && lines@[j].content@ == self.lines@[j].1@,
            decreases self.lines@.len() - i,
        {
            let ghost before = lines@;
            let time = duration_from_millis(self.lines[i].0);
            let content = self.lines[i].1.clone();
            lines.push(LrcLine { time, content });
            assert(forall|j: int| 0 <= j < i ==> lines@[j] == before[j]);
            i += 1;
        }
        let length = match self.length {
            Some(secs) => Some(duration(secs, 0)),
            None => None,
        };
        Lrc {
            lines,
            title: self.title,
            artist: self.artist,
            album: self.album,
            author: self.author,
            length,
        }
    }
}

impl Lrc {
    /// Reads a lyrics file from its text.
    pub fn parse(text: &str) -> (r: Result<Lrc, LrcError>)
        ensures
            match r {
                Ok(lrc) => parse_lrc(text@) is Ok && represents(lrc, parse_lrc(text@)->Ok_0),
                Err(e) => parse_lrc(text@) == Err::<LrcView, _>(e@),
            },
    {
        let chars = to_chars(text);
        let all = lines(chars.as_slice());
        let ghost texts = lines_spec(text@);
        let mut reader = LrcReader::new();
        let mut i: usize = 0;
        assert(texts.take(0) == Seq::<Seq<char>>::empty());
        while i < all.len()
            invariant
                i <= all@.len(),
                views(all@) == texts,
                texts == lines_spec(text@),
                with_lines(texts.take(i as int)) == Ok::<_, LrcErrorView>(reader@),
            decreases all@.len() - i,
        {
            assert(texts.take(i + 1).drop_last() == texts.take(i as int));
            assert(texts.take(i + 1).last() == all@[i as int]@);
            match reader.line(all[i].as_slice()) {
                Ok(_) => {},
                Err(e) => {
                    proof {
                        lemma_error_stays(texts, i + 1);
                    }
                    return Err(e);
                },
            }
            i += 1;
        }
        assert(texts.take(i as int) == texts);
        Ok(reader.finish())
    }
}

impl FromStr for Lrc {
    type Err = LrcError;

    /// Reads a lyrics file from its text, as `Lrc::parse` does: the file that
    /// the text holds, or the first error in it.
    fn from_str(s: &str) -> (r: Result<Self, LrcError>)
        ensures
            match r {
                Ok(lrc) => parse_lrc(s@) is Ok && represents(lrc, parse_lrc(s@)->Ok_0),
                Err(e) => parse_lrc(s@) == Err::<LrcView, _>(e@),
            },
    {
        Lrc::parse(s)
    }
}

} // verus!
