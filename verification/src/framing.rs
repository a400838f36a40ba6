//! Lines on a byte stream: each message is one line, ended by a newline and
//! bounded in length.

use vstd::prelude::*;

verus! {

/// What one more byte did to a line that is being read.
#[derive(Clone, Copy, PartialEq, Eq, Structural, Debug)]
pub enum LineStep {
    /// The byte belongs to the line.
    More,
    /// The byte ended the line.
    Done,
    /// The line is longer than it may be.
    TooLong,
}

/// Takes one byte from the stream into the line.
pub fn take_byte(line: &mut Vec<u8>, byte: u8, limit: usize) -> (r: LineStep)
    ensures
        byte == 10 ==> r == LineStep::Done && final(line)@ == old(line)@,
        byte != 10 ==> final(line)@ == old(line)@.push(byte) && r == (if old(line)@.len() + 1
            > limit {
            LineStep::TooLong
        } else {
            LineStep::More
        }),
{
    if byte == 10 {
        return LineStep::Done;
    }
    line.push(byte);
    if line.len() > limit {
        LineStep::TooLong
    } else {
        LineStep::More
    }
}

#[derive(Clone, Copy, PartialEq, Eq, Structural, Debug)]
pub enum LineError {
    /// The stream ended before the line was complete.
    Ended,
    /// The line is longer than it may be.
    TooLong,
}

/// How many bytes stand before the first newline.
pub open spec fn before_newline(bytes: Seq<u8>) -> nat
    decreases bytes.len(),
{
    if bytes.len() == 0 || bytes[0] == 10 {
        0
    } else {
        1 + before_newline(bytes.skip(1))
    }
}

/// The first line of a stream.
pub open spec fn line_of(bytes: Seq<u8>, limit: nat) -> Result<Seq<u8>, LineError> {
    let n = before_newline(bytes);
    if n > limit {
        Err(LineError::TooLong)
    } else if n == bytes.len() {
        Err(LineError::Ended)
    } else {
        Ok(bytes.take(n as int))
    }
}

proof fn lemma_before_newline(bytes: Seq<u8>, n: int)
    requires
        0 <= n <= bytes.len(),
        forall|i: int| 0 <= i < n ==> bytes[i] != 10,
    ensures
        before_newline(bytes) >= n,
        n == bytes.len() || bytes[n] == 10 ==> before_newline(bytes) == n,
    decreases n,
{
    if n > 0 {
        let rest = bytes.skip(1);
        assert forall|i: int| 0 <= i < n - 1 implies rest[i] != 10 by {
            assert(rest[i] == bytes[i + 1]);
        }
        lemma_before_newline(rest, n - 1);
        if n < bytes.len() {
            assert(rest[n - 1] == bytes[n]);
        }
    }
}

/// Reads the first line of a stream, without the newline.
pub fn first_line(bytes: &[u8], limit: usize) -> (r: Result<Vec<u8>, LineError>)
    ensures
        match r {
            Ok(line) => line_of(bytes@, limit as nat) == Ok::<Seq<u8>, LineError>(line@),
            Err(e) => line_of(bytes@, limit as nat) == Err::<Seq<u8>, LineError>(e),
        },
{
    let mut line: Vec<u8> = Vec::new();
    let mut i: usize = 0;
    while i < bytes.len()
        invariant
            i <= bytes@.len(),
            line@ == bytes@.take(i as int),
            i <= limit,
            forall|k: int| 0 <= k < i ==> bytes@[k] != 10,
        decreases bytes@.len() - i,
    {
        let step = take_byte(&mut line, bytes[i], limit);
        match step {
            LineStep::Done => {
                proof {
                    lemma_before_newline(bytes@, i as int);
                }
                return Ok(line);
            },
            LineStep::TooLong => {
                proof {
                    lemma_before_newline(bytes@, i + 1);
                }
                return Err(LineError::TooLong);
            },
            LineStep::More => {
                proof {
                    assert(bytes@.take(i + 1) =~= bytes@.take(i as int).push(bytes@[i as int]));
                }
            },
        }
        i += 1;
    }
    proof {
        lemma_before_newline(bytes@, i as int);
    }
    Err(LineError::Ended)
}

/// The first line of a stream that may end without a newline.
pub open spec fn line_or_rest(bytes: Seq<u8>, limit: nat) -> Result<Seq<u8>, LineError> {
    let n = before_newline(bytes);
    if n > limit {
        Err(LineError::TooLong)
    } else {
        Ok(bytes.take(n as int))
    }
}

/// Reads the first line of a stream, without the newline; the end of the
/// stream ends the line too.
pub fn first_line_or_rest(bytes: &[u8], limit: usize) -> (r: Result<Vec<u8>, LineError>)
    ensures
        match r {
            Ok(line) => line_or_rest(bytes@, limit as nat) == Ok::<Seq<u8>, LineError>(line@),
            Err(e) => line_or_rest(bytes@, limit as nat) == Err::<Seq<u8>, LineError>(e),
        },
{
    let mut line: Vec<u8> = Vec::new();
    let mut i: usize = 0;
    while i < bytes.len()
        invariant
            i <= bytes@.len(),
            line@ == bytes@.take(i as int),
            i <= limit,
            forall|k: int| 0 <= k < i ==> bytes@[k] != 10,
        decreases bytes@.len() - i,
    {
        let step = take_byte(&mut line, bytes[i], limit);
        match step {
            LineStep::Done => {
                proof {
                    lemma_before_newline(bytes@, i as int);
                }
                return Ok(line);
            },
            LineStep::TooLong => {
                proof {
                    lemma_before_newline(bytes@, i + 1);
                }
                return Err(LineError::TooLong);
            },
            LineStep::More => {
                proof {
                    assert(bytes@.take(i + 1) =~= bytes@.take(i as int).push(bytes@[i as int]));
                }
            },
        }
        i += 1;
    }
    proof {
        lemma_before_newline(bytes@, i as int);
        assert(bytes@.take(i as int) =~= bytes@);
    }
    Ok(line)
}

/// A message as it goes onto the stream: itself and a newline.
pub fn framed(message: Vec<u8>) -> (r: Vec<u8>)
    ensures
        r@ == message@.push(10u8),
{
    let mut out = message;
    out.push(10);
    out
}

/// A framed message that holds no newline and is not too long is read back
/// as it was written, whatever follows it on the stream.
pub proof fn law_frame_round_trip(message: Seq<u8>, rest: Seq<u8>, limit: nat)
    requires
        forall|i: int| 0 <= i < message.len() ==> message[i] != 10,
        message.len() <= limit,
    ensures
        line_of(message.push(10u8) + rest, limit) == Ok::<Seq<u8>, LineError>(message),
{
    let stream = message.push(10u8) + rest;
    assert forall|i: int| 0 <= i < message.len() implies stream[i] != 10 by {
        assert(stream[i] == message[i]);
    }
    assert(stream[message.len() as int] == 10);
    lemma_before_newline(stream, message.len() as int);
    assert(stream.take(message.len() as int) =~= message);
}

} // verus!
