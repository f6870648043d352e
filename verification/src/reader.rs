//! The decisions of the stream reader: what to do after each attempt to read
//! from the connection, and the texts it reports when it fails.
use vstd::prelude::*;
use crate::text::push_str;

verus! {

/// What one turn of the reader produced.
pub enum ReadOutcome {
    /// The viewer asked the reader to stop (checked before reading).
    StopRequested,
    /// A read returned these bytes; none means the remote end closed.
    Bytes(Vec<u8>),
    /// A read timed out or would have blocked.
    TimedOut,
    /// A read failed; the error as text.
    Failed(String),
}

/// What the reader does next.
pub enum ReaderStep {
    /// Report these bytes, feed them to the decoder, and read again.
    Forward(Vec<u8>),
    /// Read again.
    Retry,
    /// Report that the connection is closed and stop.
    Close,
    /// Report this error and stop.
    Fail(String),
}

pub open spec fn read_error_prefix() -> Seq<char> {
    seq!['R', 'e', 'a', 'd', ' ', 'e', 'r', 'r', 'o', 'r', ':', ' ']
}

pub open spec fn connection_failed_prefix() -> Seq<char> {
    seq![
        'C',
        'o',
        'n',
        'n',
        'e',
        'c',
        't',
        'i',
        'o',
        'n',
        ' ',
        'f',
        'a',
        'i',
        'l',
        'e',
        'd',
        ':',
        ' ',
    ]
}

/// Decides the reader's next step: stop when asked to or when the remote end
/// closed (an empty read), pass bytes on, read again after a timeout, and
/// stop with `Read error: …` after a failed read.
pub fn reader_step(outcome: ReadOutcome) -> (step: ReaderStep)
    ensures
        match outcome {
            ReadOutcome::StopRequested => step is Close,
            ReadOutcome::Bytes(d) => if d@.len() == 0 {
                step is Close
            } else {
                step is Forward && step->Forward_0@ == d@
            },
            ReadOutcome::TimedOut => step is Retry,
            ReadOutcome::Failed(msg) => step is Fail && step->Fail_0@ == read_error_prefix() + msg@,
        },
{
    match outcome {
        ReadOutcome::StopRequested => ReaderStep::Close,
        ReadOutcome::Bytes(d) => {
            if d.len() == 0 {
                ReaderStep::Close
            } else {
                ReaderStep::Forward(d)
            }
        },
        ReadOutcome::TimedOut => ReaderStep::Retry,
        ReadOutcome::Failed(msg) => {
            let mut text = String::new();
            proof {
                reveal_strlit("Read error: ");
            }
            push_str(&mut text, "Read error: ");
            push_str(&mut text, msg.as_str());
            assert(text@ =~= read_error_prefix() + msg@);
            ReaderStep::Fail(text)
        },
    }
}

/// The error reported when the connection cannot be made.
pub fn connection_failed_text(reason: &str) -> (text: String)
    ensures
        text@ == connection_failed_prefix() + reason@,
{
    let mut text = String::new();
    proof {
        reveal_strlit("Connection failed: ");
    }
    push_str(&mut text, "Connection failed: ");
    push_str(&mut text, reason);
    assert(text@ =~= connection_failed_prefix() + reason@);
    text
}

/// The error reported when the decoder cannot be set up.
pub fn decoder_failed_text() -> (text: String)
    ensures
        text@ == seq![
            'F',
            'a',
            'i',
            'l',
            'e',
            'd',
            ' ',
            't',
            'o',
            ' ',
            'i',
            'n',
            'i',
            't',
            'i',
            'a',
            'l',
            'i',
            'z',
            'e',
            ' ',
            'R',
            'T',
            'C',
            'M',
            ' ',
            'd',
            'e',
            'c',
            'o',
            'd',
            'e',
            'r',
        ],
{
    let mut text = String::new();
    proof {
        reveal_strlit("Failed to initialize RTCM decoder");
    }
    push_str(&mut text, "Failed to initialize RTCM decoder");
    assert(text@ =~= seq![
        'F',
        'a',
        'i',
        'l',
        'e',
        'd',
        ' ',
        't',
        'o',
        ' ',
        'i',
        'n',
        'i',
        't',
        'i',
        'a',
        'l',
        'i',
        'z',
        'e',
        ' ',
        'R',
        'T',
        'C',
        'M',
        ' ',
        'd',
        'e',
        'c',
        'o',
        'd',
        'e',
        'r',
    ]);
    text
}

} // verus!
