//! Audio data types and codec interfaces.

use vstd::prelude::*;
use crate::error::AudioError;

verus! {

/// Opus application mode
#[derive(Debug, Clone, Copy, PartialEq, Eq, Structural)]
pub enum OpusApplication {
    /// Optimized for voice
    Voip,
    /// Optimized for music/audio
    Audio,
    /// Restricted low delay mode
    LowDelay,
}

impl OpusApplication {
    /// Convert to opus library constant
    pub fn to_opus_const(&self) -> (r: i32)
        ensures
            r == match *self {
                OpusApplication::Voip => 2048i32,
                OpusApplication::Audio => 2049i32,
                OpusApplication::LowDelay => 2051i32,
            },
    {
        match self {
            OpusApplication::Voip => 2048,
            OpusApplication::Audio => 2049,
            OpusApplication::LowDelay => 2051,
        }
    }
}

/// Distinct modes map to distinct library constants.
pub proof fn lemma_opus_const_distinct(a: OpusApplication, b: OpusApplication)
    ensures
        a != b ==> match a {
            OpusApplication::Voip => 2048i32,
            OpusApplication::Audio => 2049i32,
            OpusApplication::LowDelay => 2051i32,
        } != match b {
            OpusApplication::Voip => 2048i32,
            OpusApplication::Audio => 2049i32,
            OpusApplication::LowDelay => 2051i32,
        },
{
}

/// A captured audio frame
#[derive(Debug, Clone)]
pub struct AudioFrame {
    /// PCM samples (16-bit signed)
    pub samples: Vec<i16>,
    /// Timestamp in microseconds
    pub timestamp_us: u64,
    /// Voice activity detected
    pub voice_activity: bool,
}

/// Audio device information
#[derive(Debug, Clone)]
pub struct DeviceInfo {
    /// Device name
    pub name: String,
    /// Is this the system default device
    pub is_default: bool,
}

/// An encoded audio packet ready to send
#[derive(Debug, Clone)]
pub struct EncodedPacket {
    /// Encoded data
    pub data: Vec<u8>,
    /// Codec used
    pub codec: u8,
    /// Sequence number
    pub sequence: u16,
    /// Voice activity detected
    pub voice_activity: bool,
}

/// The codec byte of an Opus voice packet.
pub const OPUS_VOICE_CODEC: u8 = 4;

/// Numbers the packets a capture sends, one after another.
pub struct PacketSequence {
    next: u16,
}

impl PacketSequence {
    /// The number the next packet gets.
    pub closed spec fn next_number(&self) -> u16 {
        self.next
    }

    /// Numbering from zero.
    pub fn new() -> (s: PacketSequence)
        ensures
            s.next_number() == 0,
    {
        PacketSequence { next: 0 }
    }

    /// Whether a captured frame is sent: always without voice detection, else only
    /// when voice was detected in it.
    pub fn frame_is_sent(vad_enabled: bool, voice_detected: bool) -> (sent: bool)
        ensures
            sent == (!vad_enabled || voice_detected),
    {
        !vad_enabled || voice_detected
    }

    /// The packet for one encoded frame: an Opus voice packet with the next number,
    /// after which the numbering moves on by one, wrapping after 65535.
    pub fn packet(&mut self, data: Vec<u8>, voice_activity: bool) -> (p: EncodedPacket)
        ensures
            p.data@ == data@,
            p.codec == OPUS_VOICE_CODEC,
            p.sequence == old(self).next_number(),
            p.voice_activity == voice_activity,
            final(self).next_number() == if old(self).next_number() == u16::MAX {
                0
            } else {
                (old(self).next_number() + 1) as u16
            },
    {
        let sequence = self.next;
        self.next = if sequence == u16::MAX {
            0
        } else {
            sequence + 1
        };
        EncodedPacket { data, codec: OPUS_VOICE_CODEC, sequence, voice_activity }
    }
}

/// Audio encoder interface
pub trait Encoder {
    /// Encode PCM samples to compressed data, returning how many bytes were written
    fn encode(&mut self, pcm: &[i16], output: &mut [u8]) -> Result<usize, AudioError>;

    /// Reset encoder state
    fn reset(&mut self) -> Result<(), AudioError>;
}

/// Audio decoder interface
pub trait Decoder {
    /// Decode compressed data to PCM samples, returning how many samples were written
    fn decode(&mut self, data: &[u8], output: &mut [i16]) -> Result<usize, AudioError>;

    /// Decode with packet loss concealment (no data available)
    fn decode_plc(&mut self, output: &mut [i16]) -> Result<usize, AudioError>;

    /// Reset decoder state
    fn reset(&mut self) -> Result<(), AudioError>;
}

} // verus!
