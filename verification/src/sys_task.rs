//! Deferred system work.  Interrupt handlers wrap what they want done in a
//! small `SysTask` value and queue it; the executor runs the tasks later in
//! ordinary context, where allocating is allowed.  The console command
//! buffer that keystrokes accumulate into lives here too.

use vstd::prelude::*;

use crate::sys_log::{spec_conf_effect, spec_conf_recognized, SysLogLevel};

verus! {

/// One unit of deferred work, small enough to build inside an interrupt
/// handler without allocating.
#[allow(non_camel_case_types)]
#[derive(Debug, Clone, Copy, PartialEq, Eq, Structural)]
pub enum SysTask {
    /// A timer tick, with its sequence number.
    TIMMER(u64),
    /// A raw keyboard byte to decode.
    KEY(u8),
}

/// The consumer's handle on the deferred-task queue; the queue itself
/// lives with the executor that drains it.
pub struct SysTaskStream {
    _private: (),
}

impl SysTaskStream {
    /// A fresh handle.
    pub fn new() -> (r: SysTaskStream) {
        SysTaskStream { _private: () }
    }
}

/// The console command being typed: characters accumulate until a newline
/// runs the command against the log-level switch.
pub struct SysCmd {
    buf: Vec<char>,
}

impl SysCmd {
    /// The characters typed since the last newline.
    pub closed spec fn spec_buf(self) -> Seq<char> {
        self.buf@
    }

    /// An empty command buffer.
    pub fn new() -> (r: SysCmd)
        ensures
            r.spec_buf().len() == 0,
    {
        SysCmd { buf: Vec::new() }
    }

    /// Feeds one typed character: a newline runs the buffered command and
    /// clears the buffer, anything else is appended.  Returns false exactly
    /// when a newline ran an unrecognized command, so the caller can warn.
    pub fn input_char(&mut self, c: char, level: &mut SysLogLevel) -> (r: bool)
        ensures
            c == '\n' ==> final(self).spec_buf().len() == 0 && final(level).spec_bits()
                == spec_conf_effect(old(level).spec_bits(), old(self).spec_buf()) && r
                == spec_conf_recognized(old(self).spec_buf()),
            c != '\n' ==> final(self).spec_buf() == old(self).spec_buf().push(c) && *final(level)
                == *old(level) && r,
    {
        if c == '\n' {
            self.run(level)
        } else {
            self.buf.push(c);
            true
        }
    }

    /// Runs the buffered command against the log-level switch and clears
    /// the buffer.
    fn run(&mut self, level: &mut SysLogLevel) -> (r: bool)
        ensures
            final(self).spec_buf().len() == 0,
            final(level).spec_bits() == spec_conf_effect(
                old(level).spec_bits(),
                old(self).spec_buf(),
            ),
            r == spec_conf_recognized(old(self).spec_buf()),
    {
        let ok = level.conf_chars(&self.buf);
        self.buf.clear();
        ok
    }
}

} // verus!
