//! The IMF music command stream, stepped as a state machine.
//!
//! An AUDIOT music chunk opens with a 16-bit byte length, then a run of
//! four-byte commands: a synthesizer register, a value, and a 16-bit
//! delay in song ticks.  The player hands out every command that is due
//! at the current tick, rewinds to the start when the stream ends, and
//! advances time one tick at a time; feeding the register writes to a
//! synthesizer and pacing the ticks against the sample clock is the
//! caller's side of the loop.

use vstd::prelude::*;

use crate::wordio::le16_at;
use crate::WolfError;

verus! {

/// One due command of the stream: a register and the value to write.
#[derive(Clone, Copy, Debug, PartialEq, Eq, Structural)]
pub struct ImfCommand {
    pub reg: u8,
    pub value: u8,
}

/// The player: the chunk's bytes, the length its header declared, the
/// read position, and the two tick counters.
pub struct ImfPlayer {
    data: Vec<u8>,
    audio_len: usize,
    pos: usize,
    time_counter: u32,
    next_command_at: u32,
}

impl ImfPlayer {
    /// The chunk's bytes.
    pub closed spec fn bytes(self) -> Seq<u8> {
        self.data@
    }

    /// The declared length of the command stream, header included.
    pub closed spec fn len(self) -> int {
        self.audio_len as int
    }

    /// The current read position.
    pub closed spec fn at(self) -> int {
        self.pos as int
    }

    /// The current song tick.
    pub closed spec fn now(self) -> int {
        self.time_counter as int
    }

    /// The tick at which the next command falls due.
    pub closed spec fn due(self) -> int {
        self.next_command_at as int
    }

    /// The player is sound: the declared length lies inside the chunk,
    /// commands are four bytes each, and the cursor sits on a command
    /// boundary at or before the end.
    pub open spec fn wf(self) -> bool {
        &&& 2 <= self.len() <= self.bytes().len()
        &&& (self.len() - 2) % 4 == 0
        &&& 2 <= self.at() <= self.len()
        &&& (self.at() - 2) % 4 == 0
    }

    /// Opens a music chunk.  The header's length word must fit the
    /// chunk and leave a whole number of commands.
    pub fn new(data: Vec<u8>) -> (r: Result<ImfPlayer, WolfError>)
        ensures
            match r {
                Ok(p) => {
                    &&& data@.len() >= 2
                    &&& p.wf()
                    &&& p.bytes() == data@
                    &&& p.len() == le16_at(data@, 0)
                    &&& p.at() == 2
                    &&& p.now() == 0
                    &&& p.due() == 0
                },
                Err(e) => {
                    &&& e == WolfError::Format
                    &&& (data@.len() < 2 || le16_at(data@, 0) < 2 || le16_at(data@, 0)
                        > data@.len() || (le16_at(data@, 0) - 2) % 4 != 0)
                },
            },
    {
        if data.len() < 2 {
            return Err(WolfError::Format);
        }
        let audio_len = crate::wordio::read_u16_le(data.as_slice(), 0) as usize;
        if audio_len < 2 || audio_len > data.len() || (audio_len - 2) % 4 != 0 {
            return Err(WolfError::Format);
        }
        Ok(ImfPlayer { data, audio_len, pos: 2, time_counter: 0, next_command_at: 0 })
    }

    /// Hands out the next command if one is due at the current tick.
    /// At the stream's end the player rewinds to the start and resets
    /// both counters, reporting nothing due; before the due tick it
    /// leaves the state untouched.
    pub fn next_command(&mut self) -> (r: Option<ImfCommand>)
        requires
            old(self).wf(),
            old(self).now() + 0xFFFF < 0x1_0000_0000,
        ensures
            final(self).wf(),
            final(self).bytes() == old(self).bytes(),
            final(self).len() == old(self).len(),
            if old(self).due() > old(self).now() {
                r is None && *final(self) == *old(self)
            } else if old(self).at() >= old(self).len() {
                &&& r is None
                &&& final(self).at() == 2
                &&& final(self).now() == 0
                &&& final(self).due() == 0
            } else {
                &&& r == Some(
                    ImfCommand {
                        reg: old(self).bytes()[old(self).at()],
                        value: old(self).bytes()[old(self).at() + 1],
                    },
                )
                &&& final(self).at() == old(self).at() + 4
                &&& final(self).now() == old(self).now()
                &&& final(self).due() == old(self).now() + le16_at(
                    old(self).bytes(),
                    old(self).at() + 2,
                )
            },
    {
        if self.next_command_at > self.time_counter {
            return None;
        }
        if self.pos >= self.audio_len {
            self.pos = 2;
            self.time_counter = 0;
            self.next_command_at = 0;
            return None;
        }
        let reg = self.data[self.pos];
        let value = self.data[self.pos + 1];
        let delay = crate::wordio::read_u16_le(self.data.as_slice(), self.pos + 2);
        self.next_command_at = self.time_counter + delay as u32;
        self.pos = self.pos + 4;
        Some(ImfCommand { reg, value })
    }

    /// Advances the song clock one tick.
    pub fn advance_tick(&mut self)
        requires
            old(self).wf(),
            old(self).now() < 0xFFFF_FFFF,
        ensures
            final(self).wf(),
            final(self).bytes() == old(self).bytes(),
            final(self).len() == old(self).len(),
            final(self).at() == old(self).at(),
            final(self).due() == old(self).due(),
            final(self).now() == old(self).now() + 1,
    {
        self.time_counter = self.time_counter + 1;
    }
}

} // verus!
