//! The byte channels that a running program reads from and writes to.

use std::collections::VecDeque;
use vstd::prelude::*;
use vstd::string::StringExecFns;

verus! {

/// The mathematical form of the channels.
pub struct Streams {
    /// The input bytes that no instruction has read yet.
    pub input: Seq<u8>,
    /// The bytes printed and not yet taken away, oldest first.
    pub output: Seq<u8>,
    /// What was written to the diagnostic channel and not yet taken away.
    pub diagnostics: Seq<char>,
}

impl Streams {
    /// Streams with `input` waiting and nothing written.
    pub open spec fn fresh(input: Seq<u8>) -> Streams {
        Streams { input, output: Seq::empty(), diagnostics: Seq::empty() }
    }

    /// The streams after one byte was printed.
    pub open spec fn written(self, byte: u8) -> Streams {
        Streams { output: self.output.push(byte), ..self }
    }

    /// The streams after the next input byte, if there is one, was taken.
    pub open spec fn consumed(self) -> Streams {
        if self.input.len() > 0 {
            Streams { input: self.input.drop_first(), ..self }
        } else {
            self
        }
    }

    /// The streams after `text` went to the diagnostic channel.
    pub open spec fn reported(self, text: Seq<char>) -> Streams {
        Streams { diagnostics: self.diagnostics + text, ..self }
    }

    /// The streams after one more byte of input arrived.
    pub open spec fn fed(self, byte: u8) -> Streams {
        Streams { input: self.input.push(byte), ..self }
    }
}

/// Input bytes waiting to be read, and what the program has printed and
/// reported.
pub struct Channels {
    input: VecDeque<u8>,
    output: Vec<u8>,
    diagnostics: String,
}

impl View for Channels {
    type V = Streams;

    closed spec fn view(&self) -> Streams {
        Streams { input: self.input@, output: self.output@, diagnostics: self.diagnostics@ }
    }
}

impl Channels {
    /// Channels with `input` waiting and nothing written yet.
    pub fn new(input: Vec<u8>) -> (channels: Channels)
        ensures
            channels@ == Streams::fresh(input@),
    {
        let mut queue: VecDeque<u8> = VecDeque::new();
        let mut index: usize = 0;
        while index < input.len()
            invariant
                index <= input.len(),
                queue@ == input@.take(index as int),
            decreases input.len() - index,
        {
            queue.push_back(input[index]);
            assert(input@.take(index + 1) =~= input@.take(index as int).push(input@[index as int]));
            index += 1;
        }
        assert(input@.take(index as int) =~= input@);
        Channels { input: queue, output: Vec::new(), diagnostics: String::new() }
    }

    /// Adds one byte at the end of the waiting input.
    pub fn feed(&mut self, byte: u8)
        ensures
            final(self)@ == old(self)@.fed(byte),
    {
        self.input.push_back(byte);
    }

    /// Whether an input byte is waiting.
    pub fn has_input(&self) -> (waiting: bool)
        ensures
            waiting == (self@.input.len() > 0),
    {
        self.input.len() > 0
    }

    /// Takes the next input byte, if one is waiting.
    pub fn take(&mut self) -> (byte: Option<u8>)
        ensures
            final(self)@ == old(self)@.consumed(),
            byte == if old(self)@.input.len() > 0 {
                Some(old(self)@.input[0])
            } else {
                None
            },
    {
        let byte = self.input.pop_front();
        assert(byte is Some ==> self.input@ =~= old(self).input@.drop_first());
        byte
    }

    /// Appends one byte to the output.
    pub fn write(&mut self, byte: u8)
        ensures
            final(self)@ == old(self)@.written(byte),
    {
        self.output.push(byte);
    }

    /// Appends `text` to the diagnostic channel.
    pub fn report(&mut self, text: &str)
        ensures
            final(self)@ == old(self)@.reported(text@),
    {
        self.diagnostics.append(text);
    }

    /// The bytes printed and not yet taken away.
    pub fn output(&self) -> (bytes: &Vec<u8>)
        ensures
            bytes@ == self@.output,
    {
        &self.output
    }

    /// The diagnostic text written and not yet taken away.
    pub fn diagnostics(&self) -> (text: &str)
        ensures
            text@ == self@.diagnostics,
    {
        self.diagnostics.as_str()
    }

    /// Takes the printed bytes away, so that the output is empty again.
    pub fn drain_output(&mut self) -> (bytes: Vec<u8>)
        ensures
            bytes@ == old(self)@.output,
            final(self)@ == (Streams { output: Seq::empty(), ..old(self)@ }),
    {
        let mut bytes: Vec<u8> = Vec::new();
        std::mem::swap(&mut self.output, &mut bytes);
        bytes
    }

    /// Takes the diagnostic text away, so that the channel is empty again.
    pub fn drain_diagnostics(&mut self) -> (text: String)
        ensures
            text@ == old(self)@.diagnostics,
            final(self)@ == (Streams { diagnostics: Seq::empty(), ..old(self)@ }),
    {
        let mut text = String::new();
        std::mem::swap(&mut self.diagnostics, &mut text);
        text
    }
}

} // verus!
