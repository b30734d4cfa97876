//! Commands to run, what they printed, and the time.
use vstd::prelude::*;
use crate::text;
use crate::types;

verus! {

/// The text that bytes stand for: invalid UTF-8 sequences become replacement characters.
pub uninterp spec fn lossy(bytes: Seq<u8>) -> Seq<char>;

/// Calls `String::from_utf8_lossy`, whose result depends on the bytes alone; where the bytes are
/// valid UTF-8 it is the text that they encode.
#[verifier::external_body]
pub(crate) fn lossy_text(bytes: &[u8]) -> (r: String)
    ensures
        r@ == lossy(bytes@),
        vstd::utf8::valid_utf8(bytes@) ==> r@ == vstd::utf8::decode_utf8(bytes@),
{
    String::from_utf8_lossy(bytes).into_owned()
}

/// Declares `std::time::SystemTime`, a reading of the system clock.
#[verifier::external_type_specification]
#[verifier::external_body]
pub struct ExSystemTime(std::time::SystemTime);

/// Declares `std::time::SystemTimeError`, which says that a reading lies before another.
#[verifier::external_type_specification]
#[verifier::external_body]
pub struct ExSystemTimeError(std::time::SystemTimeError);

/// `SystemTime::now` reads the system clock. Nothing is promised of the reading: it is the time.
pub assume_specification[ std::time::SystemTime::now ]() -> std::time::SystemTime;

/// `SystemTime::duration_since` measures the time from one reading to another. Nothing is promised
/// of it here: it rests on what the clock said.
pub assume_specification[ std::time::SystemTime::duration_since ](
    this: &std::time::SystemTime,
    earlier: std::time::SystemTime,
) -> Result<std::time::Duration, std::time::SystemTimeError>;

/// `Duration::as_secs` gives the whole seconds of a span of time. Nothing is promised of them here:
/// the span is a time that was measured.
pub assume_specification[ std::time::Duration::as_secs ](span: &std::time::Duration) -> u64;

/// The constant `std::time::UNIX_EPOCH`, the reading from which the time is counted.
#[verifier::external_body]
fn epoch() -> (r: std::time::SystemTime) {
    std::time::UNIX_EPOCH
}

/// The seconds since the epoch that a reading of the clock stands for.
pub fn unix_seconds(reading: Option<u64>) -> (r: u64)
    ensures
        r == (match reading {
            Some(s) => s,
            None => 0,
        }),
{
    match reading {
        Some(s) => s,
        None => 0,
    }
}

/// The seconds since the Unix epoch, zero where the clock stands before it. Which number that is
/// rests on the clock, so nothing is promised of it; [`unix_seconds`] says what each reading gives.
pub fn now_unix() -> (r: u64) {
    match std::time::SystemTime::now().duration_since(epoch()) {
        Ok(span) => unix_seconds(Some(span.as_secs())),
        Err(_) => unix_seconds(None),
    }
}

/// A command to run, with its standard input and its hard timeout.
#[derive(Debug, PartialEq)]
pub struct Invocation {
    pub program: String,
    pub args: Vec<String>,
    pub stdin: Option<String>,
    pub timeout_secs: u64,
}

/// The model of an [`Invocation`].
#[verifier::ext_equal]
pub struct InvocationModel {
    pub program: Seq<char>,
    pub args: Seq<Seq<char>>,
    pub stdin: Option<Seq<char>>,
    pub timeout_secs: u64,
}

impl View for Invocation {
    type V = InvocationModel;

    open spec fn view(&self) -> InvocationModel {
        InvocationModel {
            program: self.program@,
            args: text::string_texts(self.args@),
            stdin: types::opt_text(self.stdin),
            timeout_secs: self.timeout_secs,
        }
    }
}

impl Clone for Invocation {
    fn clone(&self) -> (r: Invocation)
        ensures
            r@ == self@,
    {
        Invocation {
            program: self.program.clone(),
            args: text::copy_strings(&self.args),
            stdin: types::copy_opt(&self.stdin),
            timeout_secs: self.timeout_secs,
        }
    }
}

/// What a command that ran to its end left behind.
#[derive(Debug)]
pub struct Output {
    /// The command exited with status zero.
    pub success: bool,
    pub stdout: Vec<u8>,
    pub stderr: Vec<u8>,
}

/// How a running command was found.
#[derive(Debug, Clone, Copy, PartialEq, Eq, Structural)]
pub enum Poll {
    /// It has ended.
    Ended,
    /// It still runs.
    Running,
    /// Its state could not be read.
    Unreadable,
}

/// What to do about a running command.
#[derive(Debug, Clone, Copy, PartialEq, Eq, Structural)]
pub enum Watch {
    /// Collect its output.
    Collect,
    /// Kill it and report that it timed out.
    TimedOut,
    /// Report why its state could not be read.
    Fail,
    /// Look again after a pause.
    Wait,
}

/// What to do about a command that must end before `deadline`.
pub open spec fn watched(poll: Poll, now: u64, deadline: u64) -> Watch {
    match poll {
        Poll::Ended => Watch::Collect,
        Poll::Unreadable => Watch::Fail,
        Poll::Running => if now >= deadline {
            Watch::TimedOut
        } else {
            Watch::Wait
        },
    }
}

/// Decides about a command that must end before `deadline`.
pub fn watch(poll: Poll, now: u64, deadline: u64) -> (r: Watch)
    ensures
        r == watched(poll, now, deadline),
{
    match poll {
        Poll::Ended => Watch::Collect,
        Poll::Unreadable => Watch::Fail,
        Poll::Running => if now >= deadline {
            Watch::TimedOut
        } else {
            Watch::Wait
        },
    }
}

/// Why a command could not be started. `shown` is the program as the command itself prints it,
/// quoted and escaped in the way of the system that it runs on.
pub fn spawn_error(shown: &str, why: &str) -> (r: String)
    ensures
        r@ == "failed to run "@ + shown@ + ": "@ + why@,
{
    let mut r = "failed to run ".to_owned();
    r.append(shown);
    r.append(": ");
    r.append(why);
    r
}

/// Why a command was killed.
pub fn timeout_error() -> (r: String)
    ensures
        r@ == "command timed out"@,
{
    "command timed out".to_owned()
}

/// The first of the lines that is not blank, trimmed.
pub open spec fn first_filled(ls: Seq<Seq<char>>) -> Option<Seq<char>>
    decreases ls.len(),
{
    if ls.len() == 0 {
        None
    } else if text::trim(ls[0]).len() > 0 {
        Some(text::trim(ls[0]))
    } else {
        first_filled(ls.drop_first())
    }
}

/// The first line of a text that is not blank, trimmed, or else `other`.
pub open spec fn headline(s: Seq<char>, other: Seq<char>) -> Seq<char> {
    match first_filled(text::lines(s)) {
        Some(l) => l,
        None => other,
    }
}

/// The first line of a text that is not blank, trimmed, or else `other`.
pub fn headline_of(s: &str, other: &str) -> (r: String)
    ensures
        r@ == headline(s@, other@),
{
    let cs = text::chars_of(s);
    let ls = text::lines_of(cs.as_slice());
    let ghost lines = text::lines(s@);
    assert(text::texts(ls@) == lines);
    assert(lines.skip(0) =~= lines);
    for i in 0..ls.len()
        invariant
            text::texts(ls@) == lines,
            lines == text::lines(s@),
            first_filled(lines) == first_filled(lines.skip(i as int)),
    {
        assert(lines.skip(i as int)[0] == ls@[i as int]@);
        assert(lines.skip(i as int).drop_first() =~= lines.skip(i + 1));
        let l = text::trim_of(ls[i].as_slice());
        if l.len() > 0 {
            return text::text_of(l);
        }
    }
    other.to_owned()
}

/// The first non-blank line of what a command printed, trimmed, for showing an error.
pub fn first_line(bytes: &[u8]) -> (r: String)
    ensures
        r@ == headline(lossy(bytes@), "unknown error"@),
{
    headline_of(lossy_text(bytes).as_str(), "unknown error")
}

/// The path of `name` in the directory `base`.
pub open spec fn joined(base: Seq<char>, name: Seq<char>) -> Seq<char> {
    if base.len() == 0 || base.last() == '/' {
        base + name
    } else {
        base + "/"@ + name
    }
}

/// The path of `name`, a relative path, in the directory `base`.
pub fn join_path(base: &str, name: &str) -> (r: String)
    ensures
        r@ == joined(base@, name@),
{
    let cs = text::chars_of(base);
    let mut r = base.to_owned();
    if cs.len() > 0 && cs[cs.len() - 1] != '/' {
        r.append("/");
    }
    r.append(name);
    r
}

} // verus!
