//! Writing a buffer, marked, to a connection.

use vstd::prelude::*;
use crate::sender::Marks;

verus! {

/// What describes a buffer to the TCP stack, beside where it lies.
#[derive(Clone, Copy, Debug, PartialEq, Eq, Structural)]
pub struct WriteVec {
    pub iov_len: u32,
    pub iov_phys: u64,
    pub dscp_bits: u8,
    /// Not in network order.
    pub optional_seq: u32,
}

/// What happened since the last step.
#[derive(Clone, Copy, Debug, PartialEq, Eq, Structural)]
pub enum WriteEvent {
    /// A buffer of so many bytes is to be written with these marks.
    Start(usize, Marks),
    /// The stack was asked to write and returned this.
    Returned(isize),
}

/// What is to be done next.
#[derive(Clone, Copy, Debug, PartialEq, Eq, Structural)]
pub enum WriteAction {
    /// Run the worker, then ask the stack to write the buffer.
    Write,
    /// Poll for events once; the write is over and so many bytes were taken.
    Done(isize),
}

/// The sending end of a connection.
#[derive(Debug)]
pub struct TCPWriter {
    pub fd: i32,
    pub iov: WriteVec,
}

impl TCPWriter {
    /// The writer of a connected socket.
    pub fn new(fd: i32) -> (w: TCPWriter)
        ensures
            w.fd == fd,
            w.iov == (WriteVec { iov_len: 0, iov_phys: 0, dscp_bits: 0, optional_seq: 0 }),
    {
        TCPWriter { fd, iov: WriteVec { iov_len: 0, iov_phys: 0, dscp_bits: 0, optional_seq: 0 } }
    }

    /// One step of writing a buffer. A write that the stack refuses is tried
    /// again, for as long as it is refused.
    pub fn tcp_write(&mut self, event: WriteEvent) -> (action: WriteAction)
        ensures
            final(self).fd == old(self).fd,
            match event {
                WriteEvent::Start(len, marks) => {
                    &&& action == WriteAction::Write
                    &&& final(self).iov.iov_len == len as int % 0x1_0000_0000
                    &&& final(self).iov.iov_phys == 0
                    &&& final(self).iov.dscp_bits == marks.dscp_bits
                    &&& final(self).iov.optional_seq == marks.optional_seq
                },
                WriteEvent::Returned(ret) => {
                    &&& final(self).iov == old(self).iov
                    &&& action == if ret < 0 {
                        WriteAction::Write
                    } else {
                        WriteAction::Done(ret)
                    }
                },
            },
    {
        match event {
            WriteEvent::Start(len, marks) => {
                let len: u64 = len as u64 % 0x1_0000_0000;
                self.iov = WriteVec {
                    iov_len: len as u32,
                    iov_phys: 0,
                    dscp_bits: marks.dscp_bits,
                    optional_seq: marks.optional_seq,
                };
                WriteAction::Write
            },
            WriteEvent::Returned(ret) => {
                if ret < 0 {
                    WriteAction::Write
                } else {
                    WriteAction::Done(ret)
                }
            },
        }
    }
}

/// A buffer is described by its length, as far as 32 bits say it, and by the marks
/// that it was given, and the stack is then asked to write it.
pub proof fn a_buffer_is_described_by_its_length_and_marks(
    w: &mut TCPWriter,
    len: usize,
    marks: Marks,
    action: WriteAction,
)
    requires
        call_ensures(TCPWriter::tcp_write, (w, WriteEvent::Start(len, marks)), action),
    ensures
        action is Write,
        final(w).fd == old(w).fd,
        len <= u32::MAX ==> final(w).iov.iov_len == len,
        (len - final(w).iov.iov_len) % 0x1_0000_0000 == 0,
        final(w).iov.iov_phys == 0,
        final(w).iov.dscp_bits == marks.dscp_bits,
        final(w).iov.optional_seq == marks.optional_seq,
{
}

/// A write is over exactly if the stack took it, with as many bytes as it says, and
/// is else tried again with the same buffer and marks.
pub proof fn a_write_is_tried_until_it_is_taken(w: &mut TCPWriter, ret: isize, action: WriteAction)
    requires
        call_ensures(TCPWriter::tcp_write, (w, WriteEvent::Returned(ret)), action),
    ensures
        ret < 0 <==> action is Write,
        ret >= 0 ==> action == WriteAction::Done(ret),
        *final(w) == *old(w),
{
}

} // verus!
