//! Log levels and the runtime log-level switch.  Messages themselves are
//! carried as `ScrnOut` values through a bounded queue and printed outside
//! interrupt context; here live the level mask and the textual commands
//! that turn levels on and off.

use vstd::prelude::*;
use vstd::string::StrSliceExecFns;

verus! {

/// Severity of a log message.
#[allow(non_camel_case_types)]
#[derive(Debug, Clone, Copy, PartialEq, Eq, Structural)]
pub enum LogLevel {
    /// An unrecoverable or surprising condition.
    ERROR,
    /// A suspicious condition the kernel works around.
    WARN,
    /// Ordinary progress reporting.
    INFO,
    /// Developer chatter.
    DEBUG,
}

impl LogLevel {
    /// The level's bit in the enabled-levels mask.
    pub open spec fn spec_mask(self) -> u8 {
        match self {
            LogLevel::ERROR => 1,
            LogLevel::WARN => 2,
            LogLevel::INFO => 4,
            LogLevel::DEBUG => 8,
        }
    }

    /// The level's bit in the enabled-levels mask.
    pub fn mask(self) -> (r: u8)
        ensures
            r == self.spec_mask(),
    {
        match self {
            LogLevel::ERROR => 1,
            LogLevel::WARN => 2,
            LogLevel::INFO => 4,
            LogLevel::DEBUG => 8,
        }
    }
}

/// What a three-letter console command does to the enabled-levels mask:
/// the second letter picks the level, the third turns it on or off, and
/// anything else leaves the mask alone.
pub open spec fn spec_conf_effect(bits: u8, cmd: Seq<char>) -> u8 {
    if cmd.len() == 3 && cmd[0] == 'L' && cmd[2] == '1' && cmd[1] == 'D' {
        bits | 8
    } else if cmd.len() == 3 && cmd[0] == 'L' && cmd[2] == '0' && cmd[1] == 'D' {
        bits & !8
    } else if cmd.len() == 3 && cmd[0] == 'L' && cmd[2] == '1' && cmd[1] == 'E' {
        bits | 1
    } else if cmd.len() == 3 && cmd[0] == 'L' && cmd[2] == '0' && cmd[1] == 'E' {
        bits & !1
    } else if cmd.len() == 3 && cmd[0] == 'L' && cmd[2] == '1' && cmd[1] == 'I' {
        bits | 4
    } else if cmd.len() == 3 && cmd[0] == 'L' && cmd[2] == '0' && cmd[1] == 'I' {
        bits & !4
    } else if cmd.len() == 3 && cmd[0] == 'L' && cmd[2] == '1' && cmd[1] == 'W' {
        bits | 2
    } else if cmd.len() == 3 && cmd[0] == 'L' && cmd[2] == '0' && cmd[1] == 'W' {
        bits & !2
    } else {
        bits
    }
}

/// A three-letter console command is recognized when it names a level and
/// a direction: `L`, then one of `D`, `E`, `I`, `W`, then `0` or `1`.
pub open spec fn spec_conf_recognized(cmd: Seq<char>) -> bool {
    cmd.len() == 3 && cmd[0] == 'L' && (cmd[1] == 'D' || cmd[1] == 'E' || cmd[1] == 'I' || cmd[1]
        == 'W') && (cmd[2] == '0' || cmd[2] == '1')
}

/// The set of log levels currently enabled, as one bit per level.
pub struct SysLogLevel(u8);

impl SysLogLevel {
    /// The enabled-levels mask.
    pub closed spec fn spec_bits(self) -> u8 {
        self.0
    }

    /// All levels start disabled.
    pub fn new() -> (r: SysLogLevel)
        ensures
            r.spec_bits() == 0,
    {
        SysLogLevel(0)
    }

    /// Level `l` is currently enabled.
    pub open spec fn spec_is_on(self, l: LogLevel) -> bool {
        self.spec_bits() & l.spec_mask() != 0
    }

    /// Enables level `l` and changes nothing else.
    pub fn on(&mut self, l: LogLevel)
        ensures
            final(self).spec_bits() == old(self).spec_bits() | l.spec_mask(),
            final(self).spec_is_on(l),
    {
        let m = l.mask();
        let b = self.0;
        proof {
            assert(m != 0 ==> (b | m) & m != 0) by (bit_vector);
        }
        self.0 = b | m;
    }

    /// Disables level `l` and changes nothing else.
    pub fn off(&mut self, l: LogLevel)
        ensures
            final(self).spec_bits() == old(self).spec_bits() & !l.spec_mask(),
            !final(self).spec_is_on(l),
    {
        let m = l.mask();
        let b = self.0;
        proof {
            assert((b & !m) & m == 0) by (bit_vector);
        }
        self.0 = b & !m;
    }

    /// Reads whether level `l` is enabled.
    pub fn is_on(&self, l: LogLevel) -> (r: bool)
        ensures
            r == self.spec_is_on(l),
    {
        (self.0 & l.mask()) > 0
    }

    /// Applies a console command such as `LD1` (debug on) or `LW0`
    /// (warnings off).  An unrecognized command changes nothing and returns
    /// false, so the caller can report it.
    pub fn conf(&mut self, cmd: &str) -> (r: bool)
        ensures
            final(self).spec_bits() == spec_conf_effect(old(self).spec_bits(), cmd@),
            r == spec_conf_recognized(cmd@),
    {
        let n = cmd.unicode_len();
        if n != 3 {
            return false;
        }
        let c0 = cmd.get_char(0);
        let c1 = cmd.get_char(1);
        let c2 = cmd.get_char(2);
        proof {
            assert(cmd@ =~= seq![c0, c1, c2]);
        }
        self.apply_cmd(c0, c1, c2)
    }

    /// `conf` on a buffer of typed characters.
    pub fn conf_chars(&mut self, cmd: &Vec<char>) -> (r: bool)
        ensures
            final(self).spec_bits() == spec_conf_effect(old(self).spec_bits(), cmd@),
            r == spec_conf_recognized(cmd@),
    {
        if cmd.len() != 3 {
            return false;
        }
        let c0 = cmd[0];
        let c1 = cmd[1];
        let c2 = cmd[2];
        proof {
            assert(cmd@ =~= seq![c0, c1, c2]);
        }
        self.apply_cmd(c0, c1, c2)
    }

    /// The shared command dispatch: the second letter picks the level, the
    /// third turns it on or off.
    fn apply_cmd(&mut self, c0: char, c1: char, c2: char) -> (r: bool)
        ensures
            final(self).spec_bits() == spec_conf_effect(old(self).spec_bits(), seq![c0, c1, c2]),
            r == spec_conf_recognized(seq![c0, c1, c2]),
    {
        if c0 != 'L' {
            return false;
        }
        if c2 == '1' {
            if c1 == 'D' {
                self.on(LogLevel::DEBUG);
                true
            } else if c1 == 'E' {
                self.on(LogLevel::ERROR);
                true
            } else if c1 == 'I' {
                self.on(LogLevel::INFO);
                true
            } else if c1 == 'W' {
                self.on(LogLevel::WARN);
                true
            } else {
                false
            }
        } else if c2 == '0' {
            if c1 == 'D' {
                self.off(LogLevel::DEBUG);
                true
            } else if c1 == 'E' {
                self.off(LogLevel::ERROR);
                true
            } else if c1 == 'I' {
                self.off(LogLevel::INFO);
                true
            } else if c1 == 'W' {
                self.off(LogLevel::WARN);
                true
            } else {
                false
            }
        } else {
            false
        }
    }
}

/// One message bound for the screen: a log line with its severity, or a
/// line of echoed user input.
#[allow(non_camel_case_types)]
pub enum ScrnOut {
    /// A log message and its level.
    LOG_MSG(LogLevel, String),
    /// Echoed user input.
    INPUT_MSG(String),
}

/// The consumer's handle on the deferred log-message queue; the queue
/// itself lives with the executor that drains it.
pub struct LogMsgStream {
    _private: (),
}

impl LogMsgStream {
    /// A fresh handle.
    pub fn new() -> (r: LogMsgStream) {
        LogMsgStream { _private: () }
    }
}

} // verus!
