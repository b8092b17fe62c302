//! What a container looks like in its channel: the text of its log output
//! and the message built around it.

use crate::docker::{Container, ContainerView, LogOutput, LogOutputView};
use vstd::prelude::*;
use vstd::string::*;
use vstd::utf8::{decode_utf8, valid_utf8};

verus! {

/// How many characters of log text an embed shows.
pub const EMBED_LOG_LIMIT: usize = 3900;

/// How many characters of log text a plain message shows.
pub const TEXT_LOG_LIMIT: usize = 1900;

/// The colour of the bar at an embed's side.
pub const EMBED_COLOR: u32 = 0x3772FF;

/// The name under which this program signs its messages.
pub const PACKAGE_NAME: &'static str = "container_mirror";

/// The version under which this program signs its messages.
pub const PACKAGE_VERSION: &'static str = "0.1.0";

/// The first microsecond that a message's timestamp can hold: the start of
/// the year -9999.
pub const FIRST_MICROSECOND: i64 = -377_705_116_800_000_000;

/// The last microsecond that a message's timestamp can hold: the end of the
/// year 9999.
pub const LAST_MICROSECOND: i64 = 253_402_300_799_999_999;

/// What `strip_ansi_escapes::strip_str` makes of a text: the text without
/// its escape sequences and control characters.
pub uninterp spec fn stripped(text: Seq<char>) -> Seq<char>;

/// The words in which std's `FromUtf8Error` describes why bytes are no UTF-8.
pub uninterp spec fn utf8_error_text(bytes: Seq<u8>) -> Seq<char>;

/// Calls `strip_ansi_escapes::strip_str`, which runs the text through a
/// terminal parser and keeps what would be printed, and the line feeds.
/// Nothing is proved of it; its result is known as `stripped` of the text.
#[verifier::external_body]
fn strip_str(text: &str) -> (plain: String)
    ensures
        plain@ == stripped(text@),
{
    strip_ansi_escapes::strip_str(text)
}

/// Calls std's `String::from_utf8`, which accepts exactly the byte
/// sequences that are UTF-8 and then holds the text they encode. Of other
/// bytes the wrapper returns the error's own description.
#[verifier::external_body]
fn string_from_utf8(bytes: Vec<u8>) -> (parsed: Result<String, String>)
    ensures
        parsed is Ok <==> valid_utf8(bytes@),
        parsed matches Ok(text) ==> text@ == decode_utf8(bytes@),
        parsed matches Err(reason) ==> reason@ == utf8_error_text(bytes@),
{
    match String::from_utf8(bytes) {
        Ok(text) => Ok(text),
        Err(e) => Err(format!("{}", e)),
    }
}

/// Calls itertools' `collect_vec` on the bytes of a frame, which collects
/// them into a vector of their own, in their order.
#[verifier::external_body]
fn collect_bytes(message: &Vec<u8>) -> (bytes: Vec<u8>)
    ensures
        bytes@ == message@,
{
    itertools::Itertools::collect_vec(message.iter().copied())
}

/// twilight-model's `Timestamp`, handed on and never looked into.
#[verifier::external_type_specification]
#[verifier::external_body]
pub struct ExTimestamp(twilight_model::util::Timestamp);

/// twilight-model's `TimestampParseError`, handed on and never looked into.
#[verifier::external_type_specification]
#[verifier::external_body]
pub struct ExTimestampParseError(twilight_model::util::datetime::TimestampParseError);

/// twilight-model's `Timestamp::from_micros` accepts a count of microseconds
/// since the Unix epoch exactly when it falls within the years -9999 to
/// 9999, the dates that the `time` crate holds unless built for large dates.
/// Nothing is claimed of the timestamp it returns.
pub assume_specification[ twilight_model::util::Timestamp::from_micros ](
    unix_microseconds: i64,
) -> (parsed: Result<
    twilight_model::util::Timestamp,
    twilight_model::util::datetime::TimestampParseError,
>)
    ensures
        parsed is Ok <==> representable(unix_microseconds),
;

/// Reads the clock with std's `SystemTime::now` and has chrono turn the
/// reading into a `DateTime<Utc>` and count its microseconds since the Unix
/// epoch (`timestamp_micros`). A clock that stands before the epoch gives a
/// negative count. Nothing is known of the result.
#[verifier::external_body]
pub(crate) fn now_micros() -> i64 {
    chrono::DateTime::<chrono::Utc>::from(std::time::SystemTime::now()).timestamp_micros()
}

/// Whether a message's timestamp can hold this count of microseconds since
/// the Unix epoch.
pub open spec fn representable(micros: i64) -> bool {
    FIRST_MICROSECOND <= micros <= LAST_MICROSECOND
}

/// The text of one frame: what its bytes encode, or, where they are no
/// UTF-8, a line that says so.
pub open spec fn decoded(bytes: Seq<u8>) -> Seq<char> {
    if valid_utf8(bytes) {
        decode_utf8(bytes)
    } else {
        "-- Failed to parse bytes as utf8: "@ + utf8_error_text(bytes)
    }
}

/// The text that a container's log output shows as: the frames' texts, each
/// without its escape sequences, one after the other.
pub open spec fn log_text_of(frames: Seq<LogOutputView>) -> Seq<char>
    decreases frames.len(),
{
    if frames.len() == 0 {
        Seq::empty()
    } else {
        log_text_of(frames.drop_last()) + stripped(decoded(frames.last().message))
    }
}

/// The last `limit` characters of a text; the whole text if it has no more.
pub open spec fn tail_of(text: Seq<char>, limit: nat) -> Seq<char> {
    if text.len() <= limit {
        text
    } else {
        text.subrange(text.len() - limit, text.len() as int)
    }
}

/// The body around a log text: image and command, then the text in a code
/// block.
pub open spec fn description_of(container: ContainerView, log: Seq<char>) -> Seq<char> {
    "Image `"@ + container.image + "`\nRunning `"@ + container.command + "`:\n```"@ + log + "```"@
}

/// A container's name, with its id in brackets.
pub open spec fn author_of(container: ContainerView) -> Seq<char> {
    container.name + " ("@ + container.id + ")"@
}

/// The footer line: this program's name, with its version in brackets.
pub open spec fn footer_of() -> Seq<char> {
    PACKAGE_NAME@ + " ("@ + PACKAGE_VERSION@ + ")"@
}

/// Truncation keeps `min(length, limit)` characters, and they are the text's
/// last ones: the character at position `i` of the result is the one at
/// position `i` of the text's final stretch of that length.
pub proof fn law_tail_keeps_the_end(text: Seq<char>, limit: nat)
    ensures
        tail_of(text, limit).len() == if text.len() <= limit {
            text.len()
        } else {
            limit
        },
        forall|i: int|
            0 <= i < tail_of(text, limit).len() ==> tail_of(text, limit)[i] == text[text.len()
                - tail_of(text, limit).len() + i],
        text.len() > limit ==> tail_of(text, limit) == text.subrange(
            text.len() - limit,
            text.len() as int,
        ),
{
}

/// Decodes the bytes of one frame. Bytes that are no UTF-8 give a line that
/// says so, never a failure.
pub fn decode(message: &Vec<u8>) -> (text: String)
    ensures
        text@ == decoded(message@),
{
    match string_from_utf8(collect_bytes(message)) {
        Ok(text) => text,
        Err(reason) => {
            let mut text = "-- Failed to parse bytes as utf8: ".to_owned();
            text.append(reason.as_str());
            text
        },
    }
}

/// The text of a container's log output: every frame decoded, stripped of
/// escape sequences and control characters, and joined in order.
pub fn log_text(logs: &[LogOutput]) -> (text: String)
    ensures
        text@ == log_text_of(logs.deep_view()),
{
    let mut text = String::new();
    let mut i: usize = 0;
    while i < logs.len()
        invariant
            i <= logs.len(),
            text@ == log_text_of(logs.deep_view().take(i as int)),
        decreases logs.len() - i,
    {
        let piece = strip_str(decode(logs[i].message()).as_str());
        text.append(piece.as_str());
        proof {
            assert(logs.deep_view().take(i + 1).drop_last() =~= logs.deep_view().take(i as int));
        }
        i += 1;
    }
    proof {
        assert(logs.deep_view().take(logs.len() as int) =~= logs.deep_view());
    }
    text
}

/// Keeps the last `limit` characters of a text, dropping the earliest
/// first. A text of no more than `limit` characters is kept whole.
pub fn tail(text: &str, limit: usize) -> (kept: String)
    ensures
        kept@ == tail_of(text@, limit as nat),
        kept@.len() == if text@.len() <= limit {
            text@.len()
        } else {
            limit as nat
        },
{
    let length: usize = text.unicode_len();
    if length <= limit {
        text.to_owned()
    } else {
        text.substring_char(length - limit, length).to_owned()
    }
}

/// The log text of a container as a message shows it: the last `limit`
/// characters of [`log_text`].
pub fn format_logs(logs: &[LogOutput], limit: usize) -> (shown: String)
    ensures
        shown@ == tail_of(log_text_of(logs.deep_view()), limit as nat),
        shown@.len() == if log_text_of(logs.deep_view()).len() <= limit {
            log_text_of(logs.deep_view()).len()
        } else {
            limit as nat
        },
{
    let text = log_text(logs);
    tail(text.as_str(), limit)
}

/// The body of a message about `container`, around the log text `log`:
/// image and command, then the text in a code block.
pub fn description(container: &Container, log: &str) -> (body: String)
    ensures
        body@ == description_of(container@, log@),
{
    let mut body = "Image `".to_owned();
    body.append(container.image.as_str());
    body.append("`\nRunning `");
    body.append(container.command.as_str());
    body.append("`:\n```");
    body.append(log);
    body.append("```");
    body
}

/// The footer line of every embed: this program's name, with its version in
/// brackets.
pub fn footer() -> (line: String)
    ensures
        line@ == footer_of(),
{
    let mut line = PACKAGE_NAME.to_owned();
    line.append(" (");
    line.append(PACKAGE_VERSION);
    line.append(")");
    line
}

/// The rich form of a message: what the mirror shows of one container.
#[derive(Debug, PartialEq, Eq)]
pub struct Embed {
    /// The author line: the container's name and id.
    pub author: String,
    pub color: u32,
    /// Image, command and the tail of the log.
    pub description: String,
    /// The footer line: this program and its version.
    pub footer: String,
    pub kind: String,
    /// When the embed was made, in microseconds since the Unix epoch.
    pub timestamp: i64,
    /// The container's status.
    pub title: String,
}

/// The mathematical value of an [`Embed`].
pub ghost struct EmbedView {
    pub author: Seq<char>,
    pub color: u32,
    pub description: Seq<char>,
    pub footer: Seq<char>,
    pub kind: Seq<char>,
    pub timestamp: i64,
    pub title: Seq<char>,
}

impl View for Embed {
    type V = EmbedView;

    open spec fn view(&self) -> EmbedView {
        EmbedView {
            author: self.author@,
            color: self.color,
            description: self.description@,
            footer: self.footer@,
            kind: self.kind@,
            timestamp: self.timestamp,
            title: self.title@,
        }
    }
}

impl Clone for Embed {
    fn clone(&self) -> (copy: Self)
        ensures
            copy@ == self@,
    {
        Embed {
            author: self.author.clone(),
            color: self.color,
            description: self.description.clone(),
            footer: self.footer.clone(),
            kind: self.kind.clone(),
            timestamp: self.timestamp,
            title: self.title.clone(),
        }
    }
}

/// The embed that shows `container` with the log output `frames` at the
/// instant `micros`.
pub open spec fn embed_of(
    container: ContainerView,
    frames: Seq<LogOutputView>,
    micros: i64,
) -> EmbedView {
    EmbedView {
        author: author_of(container),
        color: EMBED_COLOR,
        description: description_of(
            container,
            tail_of(log_text_of(frames), EMBED_LOG_LIMIT as nat),
        ),
        footer: footer_of(),
        kind: "rich"@,
        timestamp: micros,
        title: container.status,
    }
}

/// The plain text that shows `container` with the log output `frames`.
pub open spec fn text_of(container: ContainerView, frames: Seq<LogOutputView>) -> Seq<char> {
    description_of(container, tail_of(log_text_of(frames), TEXT_LOG_LIMIT as nat))
}

/// Why no embed could be made.
#[derive(Clone, Copy, Debug, PartialEq, Eq, Structural)]
pub enum EmbedError {
    /// The instant lies outside the years that a timestamp can hold.
    Timestamp,
}

impl EmbedError {
    /// The error in words.
    pub fn message(&self) -> (words: String)
        ensures
            words@ == "Failed to get timestamp"@,
    {
        "Failed to get timestamp".to_owned()
    }
}

/// Builds the embed that shows `container` and the tail of its log output,
/// stamped with the instant `micros` (microseconds since the Unix epoch).
/// It fails exactly when a timestamp cannot hold that instant.
pub fn embed_at(container: &Container, logs: &[LogOutput], micros: i64) -> (built: Result<
    Embed,
    EmbedError,
>)
    ensures
        built is Ok <==> representable(micros),
        built matches Ok(embed) ==> embed@ == embed_of(container@, logs.deep_view(), micros),
        built matches Err(e) ==> e == EmbedError::Timestamp,
{
    let log = format_logs(logs, EMBED_LOG_LIMIT);
    let mut author = container.name.clone();
    author.append(" (");
    author.append(container.id.as_str());
    author.append(")");
    match twilight_model::util::Timestamp::from_micros(micros) {
        Ok(_) => Ok(
            Embed {
                author,
                color: EMBED_COLOR,
                description: description(container, log.as_str()),
                footer: footer(),
                kind: "rich".to_owned(),
                timestamp: micros,
                title: container.status.clone(),
            },
        ),
        Err(_) => Err(EmbedError::Timestamp),
    }
}

/// Builds the embed that shows `container` and the tail of its log output,
/// stamped with the time of the call. Whatever the clock says, the result is
/// that of [`embed_at`] for the instant read.
pub fn embed_container(container: &Container, logs: &[LogOutput]) -> (built: Result<
    Embed,
    EmbedError,
>)
    ensures
        built matches Ok(embed) ==> representable(embed.timestamp) && embed@ == embed_of(
            container@,
            logs.deep_view(),
            embed.timestamp,
        ),
        built matches Err(e) ==> e == EmbedError::Timestamp,
{
    embed_at(container, logs, now_micros())
}

/// Builds the plain text that shows `container` and the tail of its log
/// output, for where no embed can be had.
pub fn text_container(container: &Container, logs: &[LogOutput]) -> (text: String)
    ensures
        text@ == text_of(container@, logs.deep_view()),
{
    let log = format_logs(logs, TEXT_LOG_LIMIT);
    description(container, log.as_str())
}

/// What a message holds: plain text, or an embed.
#[derive(Debug, PartialEq, Eq)]
pub enum Payload {
    Text(String),
    Embed(Embed),
}

/// The mathematical value of a [`Payload`].
pub ghost enum PayloadView {
    Text(Seq<char>),
    Embed(EmbedView),
}

impl View for Payload {
    type V = PayloadView;

    open spec fn view(&self) -> PayloadView {
        match *self {
            Payload::Text(text) => PayloadView::Text(text@),
            Payload::Embed(embed) => PayloadView::Embed(embed@),
        }
    }
}

impl Clone for Payload {
    fn clone(&self) -> (copy: Self)
        ensures
            copy@ == self@,
    {
        match self {
            Payload::Text(text) => Payload::Text(text.clone()),
            Payload::Embed(embed) => Payload::Embed(embed.clone()),
        }
    }
}

/// The message that shows `container` with the log output `frames` at the
/// instant `micros`: an embed where a timestamp can hold the instant, plain
/// text where it cannot.
pub open spec fn payload_of(
    container: ContainerView,
    frames: Seq<LogOutputView>,
    micros: i64,
) -> PayloadView {
    if representable(micros) {
        PayloadView::Embed(embed_of(container, frames, micros))
    } else {
        PayloadView::Text(text_of(container, frames))
    }
}

/// Builds the message that shows `container` and the tail of its log output
/// at the instant `micros`. It never fails: where no embed can be made, the
/// message is plain text under the shorter limit.
pub fn format(container: &Container, logs: &[LogOutput], micros: i64) -> (payload: Payload)
    ensures
        payload@ == payload_of(container@, logs.deep_view(), micros),
{
    match embed_at(container, logs, micros) {
        Ok(embed) => Payload::Embed(embed),
        Err(_) => Payload::Text(text_container(container, logs)),
    }
}

} // verus!
