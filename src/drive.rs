use vstd::prelude::*;

verus! {

use crate::packet::{Packet, PacketError, frame_bytes, frame_read};
use crate::reader::ByteReader;

/// Where decoded records go: nowhere, as text, or as JSON; each rendered
/// record takes one line.
#[derive(Debug, Clone, Copy, PartialEq, Eq, Structural)]
pub enum Sink {
    Discard,
    Text,
    Json,
}

/// How one attempt to decode a message ended.
#[derive(Debug, Clone, Copy, PartialEq, Eq, Structural)]
pub enum DecodeOutcome {
    Decoded,
    EndOfStream,
    Failed,
}

/// What the loop does next.
#[derive(Debug, Clone, Copy, PartialEq, Eq, Structural)]
pub enum LoopAction {
    /// Render the record just decoded and go on.
    Render,
    /// Stop: the input ended cleanly.
    Finish,
    /// Stop and hand the error to the caller.
    Abort,
}

/// The counts kept over one run.
#[derive(Debug, Clone, Copy, PartialEq, Eq, Structural)]
pub struct RunStatistics {
    pub packet_count: u64,
    pub message_count: u64,
}

/// The line written for one record by a sink.
pub open spec fn rendered(sink: Sink, record: Seq<u8>) -> Seq<u8> {
    match sink {
        Sink::Discard => Seq::empty(),
        _ => record.push(10u8),
    }
}

impl Sink {
    /// Picks the sink from the run's options: quiet wins over JSON, and text
    /// is the default.
    pub fn from_options(quiet: bool, json: bool) -> (r: Sink)
        ensures
            r == (if quiet {
                Sink::Discard
            } else if json {
                Sink::Json
            } else {
                Sink::Text
            }),
    {
        if quiet {
            Sink::Discard
        } else if json {
            Sink::Json
        } else {
            Sink::Text
        }
    }

    /// Appends the line for `record`, which is the rendering that this sink
    /// asks for; the discard sink appends nothing.
    pub fn render(&self, record: &Vec<u8>, output: &mut Vec<u8>)
        ensures
            final(output)@ == old(output)@ + rendered(*self, record@),
    {
        match self {
            Sink::Discard => {
                assert(output@ =~= old(output)@ + rendered(*self, record@));
            },
            _ => {
                let mut i: usize = 0;
                while i < record.len()
                    invariant
                        i <= record@.len(),
                        output@ == old(output)@ + record@.take(i as int),
                    decreases record.len() - i,
                {
                    output.push(record[i]);
                    i = i + 1;
                    assert(record@.take(i as int) =~= record@.take(i - 1).push(record@[i - 1]));
                }
                output.push(10u8);
                assert(output@ =~= old(output)@ + rendered(*self, record@));
            },
        }
    }

    /// Whether this sink writes anything at all.
    pub fn writes_output(&self) -> (r: bool)
        ensures
            r == (*self != Sink::Discard),
    {
        !matches!(self, Sink::Discard)
    }
}

impl RunStatistics {
    pub fn new() -> (r: Self)
        ensures
            r.packet_count == 0,
            r.message_count == 0,
    {
        RunStatistics { packet_count: 0, message_count: 0 }
    }

    /// Counts one message that came in a packet of its own.
    pub fn record_packet(&mut self)
        requires
            old(self).packet_count < u64::MAX,
            old(self).message_count < u64::MAX,
        ensures
            final(self).packet_count == old(self).packet_count + 1,
            final(self).message_count == old(self).message_count + 1,
    {
        self.packet_count = self.packet_count + 1;
        self.message_count = self.message_count + 1;
    }

    /// Counts one message read outside any packet.
    pub fn record_message(&mut self)
        requires
            old(self).message_count < u64::MAX,
        ensures
            final(self).packet_count == old(self).packet_count,
            final(self).message_count == old(self).message_count + 1,
    {
        self.message_count = self.message_count + 1;
    }

    /// The mean time per message over `elapsed_micros`, in whole
    /// microseconds; `None` where no message was processed.
    pub fn average_micros(&self, elapsed_micros: u128) -> (r: Option<u128>)
        ensures
            self.message_count == 0 ==> r.is_none(),
            self.message_count > 0 ==> r == Some(elapsed_micros / (self.message_count as u128)),
    {
        if self.message_count == 0 {
            None
        } else {
            Some(elapsed_micros / (self.message_count as u128))
        }
    }
}

/// Decides what the message loop does after one decode attempt, and counts
/// the message when there is one.
pub fn message_step(stats: &mut RunStatistics, outcome: DecodeOutcome) -> (r: LoopAction)
    requires
        old(stats).message_count < u64::MAX,
    ensures
        r == (match outcome {
            DecodeOutcome::Decoded => LoopAction::Render,
            DecodeOutcome::EndOfStream => LoopAction::Finish,
            DecodeOutcome::Failed => LoopAction::Abort,
        }),
        final(stats).packet_count == old(stats).packet_count,
        final(stats).message_count == old(stats).message_count + (if outcome
            == DecodeOutcome::Decoded {
            1int
        } else {
            0int
        }),
{
    match outcome {
        DecodeOutcome::Decoded => {
            stats.record_message();
            LoopAction::Render
        },
        DecodeOutcome::EndOfStream => LoopAction::Finish,
        DecodeOutcome::Failed => LoopAction::Abort,
    }
}

/// One step of the packet loop: reads the next frame and counts it, handing
/// back its payload for decoding; `Ok(None)` ends the loop cleanly.
pub fn packet_step(input: &mut ByteReader, stats: &mut RunStatistics) -> (r: Result<
    Option<Vec<u8>>,
    PacketError,
>)
    requires
        old(input).wf(),
        old(stats).packet_count < u64::MAX,
        old(stats).message_count < u64::MAX,
    ensures
        final(input).wf(),
        match frame_read(old(input).rest()) {
            Ok(None) => r is Ok && r->Ok_0 is None && *final(stats) == *old(stats)
                && final(input).rest() == old(input).rest(),
            Ok(Some((p, n))) => r is Ok && r->Ok_0 is Some && r->Ok_0->Some_0@ == p.2
                && final(input).rest() == old(input).rest().skip(n as int)
                && final(stats).packet_count == old(stats).packet_count + 1
                && final(stats).message_count == old(stats).message_count + 1,
            Err(e) => r == Err::<Option<Vec<u8>>, PacketError>(e),
        },
{
    match Packet::read(input) {
        Err(e) => Err(e),
        Ok(None) => Ok(None),
        Ok(Some(p)) => {
            stats.record_packet();
            Ok(Some(p.payload))
        },
    }
}

/// Frames one encoded message as the packet numbered `seq_num` on
/// sub-channel zero, and gives the number of the next packet.
pub fn frame_next(seq_num: u32, payload: Vec<u8>, output: &mut Vec<u8>) -> (next: u32)
    requires
        seq_num < u32::MAX,
        payload@.len() + 5 <= u64::MAX,
    ensures
        final(output)@ == old(output)@ + frame_bytes((seq_num, 0u8, payload@)),
        next == seq_num + 1,
{
    let packet = Packet { seq_num, sub_channel: 0, payload };
    packet.write(output);
    seq_num + 1
}

} // verus!
