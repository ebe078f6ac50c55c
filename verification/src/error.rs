//! Why a segment is refused, and how a refusal reads.

use vstd::prelude::*;
use vstd::string::StringExecFns;

verus! {

/// A movie fragment that cannot be honoured against its media data.
#[derive(Debug, Clone, Copy, PartialEq, Eq)]
pub enum MalformedPayload {
    /// A track fragment declares no sample-run entries.
    NoRunEntries,
    /// The byte range of a sample ends behind the media data.
    SampleOutOfBounds {
        /// Index of the sample in its run.
        sample_index: usize,
        /// Size of the sample in bytes.
        sample_size: usize,
        /// Length of the media data in bytes.
        mdat_len: usize,
    },
}

/// A refusal as it is reported across a language boundary: a kind and a
/// message.
#[derive(Debug, Clone, PartialEq, Eq)]
pub enum SegmentParseError {
    InvalidPayload { msg: String },
    CursorError { msg: String },
    IoError { msg: String },
}

/// The decimal digit `d`.
pub open spec fn digit_char(d: nat) -> char
    recommends
        d < 10,
{
    seq!['0', '1', '2', '3', '4', '5', '6', '7', '8', '9'][d as int]
}

/// The decimal numeral of `n`, without leading zeros.
pub open spec fn decimal(n: nat) -> Seq<char>
    decreases n,
{
    if n < 10 {
        seq![digit_char(n)]
    } else {
        decimal(n / 10) + seq![digit_char(n % 10)]
    }
}

/// The message of a malformed payload.
pub open spec fn malformed_message(e: MalformedPayload) -> Seq<char> {
    match e {
        MalformedPayload::NoRunEntries => "No entries in TRUN"@,
        MalformedPayload::SampleOutOfBounds { sample_index, sample_size, mdat_len } => "Sample "@
            + decimal(sample_index as nat) + " size "@ + decimal(sample_size as nat)
            + " exceeds mdat data length "@ + decimal(mdat_len as nat),
    }
}

/// The text of a reported refusal: its kind, then its message.
pub open spec fn report_text(e: SegmentParseError) -> Seq<char> {
    match e {
        SegmentParseError::InvalidPayload { msg } => "Invalid payload: "@ + msg@,
        SegmentParseError::CursorError { msg } => "Cursor error: "@ + msg@,
        SegmentParseError::IoError { msg } => "IO error: "@ + msg@,
    }
}

/// The lines for the first `n` causes of an error: `Caused by: `, the
/// cause and a line feed for each, in order.
pub open spec fn causes_text(causes: Seq<Seq<char>>, n: int) -> Seq<char>
    decreases n,
{
    if n <= 0 {
        Seq::empty()
    } else {
        causes_text(causes, n - 1) + "Caused by: "@ + causes[n - 1] + "\n"@
    }
}

/// The text of an error and the chain of its causes: a line `Error: ` with
/// the error, then one line for each cause, from the nearest on.
pub open spec fn chain_text(head: Seq<char>, causes: Seq<Seq<char>>) -> Seq<char> {
    "Error: "@ + head + "\n"@ + causes_text(causes, causes.len() as int)
}

/// The numeral of a single digit.
fn digit_str(d: usize) -> (s: &'static str)
    requires
        d < 10,
    ensures
        s@ == seq![digit_char(d as nat)],
{
    proof {
        reveal_strlit("0");
        reveal_strlit("1");
        reveal_strlit("2");
        reveal_strlit("3");
        reveal_strlit("4");
        reveal_strlit("5");
        reveal_strlit("6");
        reveal_strlit("7");
        reveal_strlit("8");
        reveal_strlit("9");
    }
    let s = if d == 0 {
        "0"
    } else if d == 1 {
        "1"
    } else if d == 2 {
        "2"
    } else if d == 3 {
        "3"
    } else if d == 4 {
        "4"
    } else if d == 5 {
        "5"
    } else if d == 6 {
        "6"
    } else if d == 7 {
        "7"
    } else if d == 8 {
        "8"
    } else {
        "9"
    };
    s
}

/// Appends the decimal numeral of `n` to `out`.
pub fn push_decimal(out: &mut String, n: usize)
    ensures
        final(out)@ == old(out)@ + decimal(n as nat),
    decreases n,
{
    if n >= 10 {
        push_decimal(out, n / 10);
    }
    out.append(digit_str(n % 10));
}

/// Writes out an error and the chain of its causes, one to a line.
///
/// `head` is the text of the error itself, `causes` hold the texts of its
/// causes, the nearest first.
pub fn stringify_error_chain(head: &str, causes: &Vec<String>) -> (text: String)
    ensures
        text@ == chain_text(head@, causes.deep_view()),
{
    let mut text = String::from_str("Error: ");
    text.append(head);
    text.append("\n");
    let n = causes.len();
    let mut i: usize = 0;
    while i < n
        invariant
            n == causes@.len(),
            i <= n,
            text@ == "Error: "@ + head@ + "\n"@ + causes_text(causes.deep_view(), i as int),
        decreases n - i,
    {
        text.append("Caused by: ");
        text.append(causes[i].as_str());
        text.append("\n");
        proof {
            assert(causes.deep_view()[i as int] == causes@[i as int]@);
        }
        i += 1;
    }
    text
}

impl MalformedPayload {
    /// The message of this refusal.
    pub fn message(&self) -> (msg: String)
        ensures
            msg@ == malformed_message(*self),
    {
        match *self {
            MalformedPayload::NoRunEntries => String::from_str("No entries in TRUN"),
            MalformedPayload::SampleOutOfBounds { sample_index, sample_size, mdat_len } => {
                let mut msg = String::from_str("Sample ");
                push_decimal(&mut msg, sample_index);
                msg.append(" size ");
                push_decimal(&mut msg, sample_size);
                msg.append(" exceeds mdat data length ");
                push_decimal(&mut msg, mdat_len);
                msg
            },
        }
    }
}

impl SegmentParseError {
    /// Reports a malformed payload as an invalid payload with its message.
    pub fn from_malformed(e: MalformedPayload) -> (reported: Self)
        ensures
            reported matches SegmentParseError::InvalidPayload { msg } && msg@
                == malformed_message(e),
    {
        SegmentParseError::InvalidPayload { msg: e.message() }
    }

    /// The text of this report.
    pub fn describe(&self) -> (text: String)
        ensures
            text@ == report_text(*self),
    {
        match self {
            SegmentParseError::InvalidPayload { msg } => String::from_str(
                "Invalid payload: ",
            ).concat(msg.as_str()),
            SegmentParseError::CursorError { msg } => String::from_str("Cursor error: ").concat(
                msg.as_str(),
            ),
            SegmentParseError::IoError { msg } => String::from_str("IO error: ").concat(
                msg.as_str(),
            ),
        }
    }
}

} // verus!
