//! The console message bus: fire-and-forget lines from the simulation to
//! whoever listens.
//!
//! Producers append and never block; a consumer drains the queue when it
//! pleases, and messages sent with no consumer are simply dropped with the
//! queue. Text travels as UTF-8 bytes; presentation happens at the edge.

use vstd::prelude::*;

verus! {

/// A red-green-blue-alpha color, for presentation only.
#[derive(Clone, Copy, Debug, PartialEq, Eq, Structural)]
pub struct Color {
    pub r: u8,
    pub g: u8,
    pub b: u8,
    pub a: u8,
}

/// The palette console lines are printed with.
#[derive(Clone, Copy, Debug, PartialEq, Eq, Structural)]
pub struct Colors {
    pub normal: Color,
    pub system: Color,
    pub unimportant: Color,
    pub defeat: Color,
    pub danger: Color,
    pub important: Color,
    pub special: Color,
    pub combat: Color,
}

impl Default for Colors {
    /// The stock palette.
    fn default() -> (r: Colors)
        ensures
            r == Colors::stock(),
    {
        Colors {
            normal: Color { r: 255, g: 255, b: 255, a: 255 },
            system: Color { r: 100, g: 100, b: 100, a: 255 },
            unimportant: Color { r: 100, g: 100, b: 100, a: 255 },
            defeat: Color { r: 255, g: 128, b: 128, a: 255 },
            danger: Color { r: 255, g: 0, b: 0, a: 255 },
            important: Color { r: 255, g: 255, b: 0, a: 255 },
            special: Color { r: 0, g: 255, b: 0, a: 255 },
            combat: Color { r: 255, g: 255, b: 128, a: 255 },
        }
    }
}

impl Colors {
    pub open spec fn stock() -> Colors {
        Colors {
            normal: Color { r: 255, g: 255, b: 255, a: 255 },
            system: Color { r: 100, g: 100, b: 100, a: 255 },
            unimportant: Color { r: 100, g: 100, b: 100, a: 255 },
            defeat: Color { r: 255, g: 128, b: 128, a: 255 },
            danger: Color { r: 255, g: 0, b: 0, a: 255 },
            important: Color { r: 255, g: 255, b: 0, a: 255 },
            special: Color { r: 0, g: 255, b: 0, a: 255 },
            combat: Color { r: 255, g: 255, b: 128, a: 255 },
        }
    }
}

/// How a console line is presented.
#[derive(Clone, Debug)]
pub enum MessagePrinter {
    /// An ordinary line in the given color.
    Console(Color),
    /// A spoken line with a nameplate.
    Dialogue { speaker: Vec<u8> },
    /// A combat report.
    Combat,
}

/// One console line.
#[derive(Clone, Debug)]
pub struct Message {
    pub text: Vec<u8>,
    pub printer: MessagePrinter,
}

/// The bus itself: an unbounded queue that producers append to and one
/// consumer drains.
#[derive(Debug)]
pub struct Console {
    pub messages: Vec<Message>,
    pub colors: Colors,
}

impl Default for Console {
    /// An empty console with the stock palette.
    fn default() -> (r: Console)
        ensures
            r.messages@ == Seq::<Message>::empty(),
            r.colors == Colors::stock(),
    {
        Console { messages: Vec::new(), colors: Colors::default() }
    }
}

impl Console {
    /// An empty console with the given palette.
    pub fn new(colors: Colors) -> (r: Console)
        ensures
            r.messages@ == Seq::<Message>::empty(),
            r.colors == colors,
    {
        Console { messages: Vec::new(), colors }
    }

    /// Appends one message; never blocks, never fails.
    pub fn send_message(&mut self, message: Message)
        ensures
            final(self).messages@ == old(self).messages@.push(message),
            final(self).colors == old(self).colors,
    {
        self.messages.push(message);
    }

    /// Prints a line in the normal color.
    pub fn print(&mut self, text: Vec<u8>)
        ensures
            final(self).messages@.len() == old(self).messages@.len() + 1,
            final(self).messages@.drop_last() == old(self).messages@,
            final(self).messages@.last().text == text,
            final(self).messages@.last().printer == MessagePrinter::Console(old(self).colors.normal),
            final(self).colors == old(self).colors,
    {
        let printer = MessagePrinter::Console(self.colors.normal);
        self.messages.push(Message { text, printer });
        assert(final(self).messages@.drop_last() =~= old(self).messages@);
    }

    /// Prints a line in an explicit color.
    pub fn print_colored(&mut self, text: Vec<u8>, color: Color)
        ensures
            final(self).messages@.len() == old(self).messages@.len() + 1,
            final(self).messages@.drop_last() == old(self).messages@,
            final(self).messages@.last().text == text,
            final(self).messages@.last().printer == MessagePrinter::Console(color),
            final(self).colors == old(self).colors,
    {
        self.messages.push(Message { text, printer: MessagePrinter::Console(color) });
        assert(final(self).messages@.drop_last() =~= old(self).messages@);
    }

    /// Prints a spoken line.
    pub fn say(&mut self, speaker: Vec<u8>, text: Vec<u8>)
        ensures
            final(self).messages@.len() == old(self).messages@.len() + 1,
            final(self).messages@.drop_last() == old(self).messages@,
            final(self).messages@.last().text == text,
            final(self).messages@.last().printer matches MessagePrinter::Dialogue { speaker: s }
                && s == speaker,
            final(self).colors == old(self).colors,
    {
        self.messages.push(Message { text, printer: MessagePrinter::Dialogue { speaker } });
        assert(final(self).messages@.drop_last() =~= old(self).messages@);
    }

    /// Prints a combat report.
    pub fn combat_log(&mut self, text: Vec<u8>)
        ensures
            final(self).messages@.len() == old(self).messages@.len() + 1,
            final(self).messages@.drop_last() == old(self).messages@,
            final(self).messages@.last().text == text,
            final(self).messages@.last().printer matches MessagePrinter::Combat,
            final(self).colors == old(self).colors,
    {
        self.messages.push(Message { text, printer: MessagePrinter::Combat });
        assert(final(self).messages@.drop_last() =~= old(self).messages@);
    }

    /// Hands every queued message to the consumer, emptying the queue.
    pub fn drain(&mut self) -> (r: Vec<Message>)
        ensures
            r@ == old(self).messages@,
            final(self).messages@ == Seq::<Message>::empty(),
            final(self).colors == old(self).colors,
    {
        let mut taken: Vec<Message> = Vec::new();
        core::mem::swap(&mut taken, &mut self.messages);
        taken
    }
}

} // verus!
