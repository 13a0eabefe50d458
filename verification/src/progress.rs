//! Progress of a sync round: the engine writes it, the window's timer reads
//! a snapshot of it.

use vstd::prelude::*;
use crate::text::owned;

verus! {

pub const PHASE_IDLE: u8 = 0;
/// Reading the index and manifest, scanning the folder: sizes not known yet.
pub const PHASE_PREPARE: u8 = 1;
pub const PHASE_PULL: u8 = 2;
pub const PHASE_PUSH: u8 = 3;

pub struct Progress {
    phase: u8,
    total_bytes: u64,
    done_bytes: u64,
    total_files: u64,
    done_files: u64,
    /// 0: the network is fine; n > 0: the n-th retry in a row.
    net_retry: u32,
    current_file: String,
}

pub struct Snapshot {
    pub phase: u8,
    pub total_bytes: u64,
    pub done_bytes: u64,
    pub total_files: u64,
    pub done_files: u64,
    pub net_retry: u32,
    pub current_file: String,
}

impl Default for Snapshot {
    fn default() -> (r: Self)
        ensures
            r.phase == PHASE_IDLE && r.total_bytes == 0 && r.done_bytes == 0,
            r.total_files == 0 && r.done_files == 0 && r.net_retry == 0,
            r.current_file@.len() == 0,
    {
        Snapshot {
            phase: PHASE_IDLE,
            total_bytes: 0,
            done_bytes: 0,
            total_files: 0,
            done_files: 0,
            net_retry: 0,
            current_file: String::new(),
        }
    }
}

impl Default for Progress {
    fn default() -> (r: Self)
        ensures
            r.snap() == Progress::idle_snap(),
    {
        Progress {
            phase: PHASE_IDLE,
            total_bytes: 0,
            done_bytes: 0,
            total_files: 0,
            done_files: 0,
            net_retry: 0,
            current_file: String::new(),
        }
    }
}

impl Progress {
    /// Everything the counters hold: phase, total and done bytes, total and
    /// done files, network retry, current file.
    pub closed spec fn snap(&self) -> (u8, u64, u64, u64, u64, u32, Seq<char>) {
        (
            self.phase,
            self.total_bytes,
            self.done_bytes,
            self.total_files,
            self.done_files,
            self.net_retry,
            self.current_file@,
        )
    }

    pub open spec fn idle_snap() -> (u8, u64, u64, u64, u64, u32, Seq<char>) {
        (PHASE_IDLE, 0, 0, 0, 0, 0, Seq::empty())
    }

    /// A phase starts with its totals; the done counters restart at zero.
    /// The network indicator and current file stay.
    pub fn begin(&mut self, phase: u8, total_bytes: u64, total_files: u64)
        ensures
            final(self).snap() == (
                phase,
                total_bytes,
                0u64,
                total_files,
                0u64,
                old(self).snap().5,
                old(self).snap().6,
            ),
    {
        self.total_bytes = total_bytes;
        self.done_bytes = 0;
        self.total_files = total_files;
        self.done_files = 0;
        self.phase = phase;
    }

    /// The round is over: everything back to idle.
    pub fn finish(&mut self)
        ensures
            final(self).snap() == Progress::idle_snap(),
    {
        self.phase = PHASE_IDLE;
        self.total_bytes = 0;
        self.done_bytes = 0;
        self.total_files = 0;
        self.done_files = 0;
        self.net_retry = 0;
        self.current_file = String::new();
    }

    /// `n` more bytes moved (the counter wraps as an atomic counter does).
    pub fn add_bytes(&mut self, n: u64)
        ensures
            final(self).snap() == (
                old(self).snap().0,
                old(self).snap().1,
                ((old(self).snap().2 + n) % 0x1_0000_0000_0000_0000) as u64,
                old(self).snap().3,
                old(self).snap().4,
                old(self).snap().5,
                old(self).snap().6,
            ),
    {
        self.done_bytes = self.done_bytes.wrapping_add(n);
    }

    /// One more file finished (wrapping like the bytes).
    pub fn file_done(&mut self)
        ensures
            final(self).snap() == (
                old(self).snap().0,
                old(self).snap().1,
                old(self).snap().2,
                old(self).snap().3,
                ((old(self).snap().4 + 1) % 0x1_0000_0000_0000_0000) as u64,
                old(self).snap().5,
                old(self).snap().6,
            ),
    {
        self.done_files = self.done_files.wrapping_add(1);
    }

    /// The file being transferred.
    pub fn set_current(&mut self, name: &str)
        ensures
            final(self).snap() == (
                old(self).snap().0,
                old(self).snap().1,
                old(self).snap().2,
                old(self).snap().3,
                old(self).snap().4,
                old(self).snap().5,
                name@,
            ),
    {
        self.current_file = owned(name);
    }

    /// The network indicator: 0 clears it, n is the n-th retry.
    pub fn set_net_retry(&mut self, n: u32)
        ensures
            final(self).snap() == (
                old(self).snap().0,
                old(self).snap().1,
                old(self).snap().2,
                old(self).snap().3,
                old(self).snap().4,
                n,
                old(self).snap().6,
            ),
    {
        self.net_retry = n;
    }

    /// A copy of every counter.
    pub fn snapshot(&self) -> (r: Snapshot)
        ensures
            (r.phase, r.total_bytes, r.done_bytes, r.total_files, r.done_files, r.net_retry, r.current_file@)
                == self.snap(),
    {
        Snapshot {
            phase: self.phase,
            total_bytes: self.total_bytes,
            done_bytes: self.done_bytes,
            total_files: self.total_files,
            done_files: self.done_files,
            net_retry: self.net_retry,
            current_file: self.current_file.clone(),
        }
    }
}

} // verus!
