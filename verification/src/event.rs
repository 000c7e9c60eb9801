//! Chat events and their textual rendering.

use vstd::prelude::*;
use vstd::string::StringSliceAdditionalSpecFns;
use crate::term::{bold, italic, grey, reset, push_str};

verus! {

/// Ghost form of an [`Event`]: each payload as a sequence of bytes.
pub enum EventView {
    Msg { sender: Seq<u8>, text: Seq<u8> },
    Reply { sender: Seq<u8>, recipient: Seq<u8>, text: Seq<u8> },
    Join { who: Seq<u8> },
    Leave { who: Seq<u8> },
    Terminate,
}

/// One transient event on a channel's bus.
///
/// `Terminate` is an internal sentinel: a session publishes it into its own
/// channel so that its delivery loop stops; it is never rendered.
#[derive(Debug)]
pub enum Event {
    Msg(Vec<u8>, Vec<u8>),
    Reply(Vec<u8>, Vec<u8>, Vec<u8>),
    Join(Vec<u8>),
    Leave(Vec<u8>),
    Terminate,
}

impl View for Event {
    type V = EventView;

    open spec fn view(&self) -> EventView {
        match self {
            Event::Msg(sender, text) => EventView::Msg { sender: sender@, text: text@ },
            Event::Reply(sender, recipient, text) => EventView::Reply {
                sender: sender@,
                recipient: recipient@,
                text: text@,
            },
            Event::Join(who) => EventView::Join { who: who@ },
            Event::Leave(who) => EventView::Leave { who: who@ },
            Event::Terminate => EventView::Terminate,
        }
    }
}

impl Clone for Event {
    fn clone(&self) -> (r: Self)
        ensures
            r@ == self@,
    {
        match self {
            Event::Msg(sender, text) => Event::Msg(sender.clone(), text.clone()),
            Event::Reply(sender, recipient, text) => Event::Reply(
                sender.clone(),
                recipient.clone(),
                text.clone(),
            ),
            Event::Join(who) => Event::Join(who.clone()),
            Event::Leave(who) => Event::Leave(who.clone()),
            Event::Terminate => Event::Terminate,
        }
    }
}

/// The textual form of an event, without the trailing line break.
pub open spec fn render_spec(e: EventView) -> Seq<u8>
    recommends
        !(e is Terminate),
{
    match e {
        EventView::Msg { sender, text } => bold() + sender + reset() + ": ".spec_bytes() + text,
        EventView::Reply { sender, recipient, text } => bold() + sender + reset()
            + " ".spec_bytes() + italic() + grey() + "to".spec_bytes() + reset() + " ".spec_bytes()
            + bold() + recipient + reset() + ": ".spec_bytes() + text,
        EventView::Join { who } => "[".spec_bytes() + bold() + who + reset()
            + " joined]".spec_bytes(),
        EventView::Leave { who } => "[".spec_bytes() + bold() + who + reset()
            + " left]".spec_bytes(),
        EventView::Terminate => Seq::empty(),
    }
}

impl Event {
    /// Renders the event for a terminal, senders in bold.
    pub fn render(&self) -> (r: Vec<u8>)
        requires
            !(self@ is Terminate),
        ensures
            r@ == render_spec(self@),
    {
        let mut out: Vec<u8> = Vec::new();
        match self {
            Event::Msg(sender, text) => {
                push_str(&mut out, "\x1b[1m");
                crate::util::push_all(&mut out, sender.as_slice());
                push_str(&mut out, "\x1b[0m");
                push_str(&mut out, ": ");
                crate::util::push_all(&mut out, text.as_slice());
            },
            Event::Reply(sender, recipient, text) => {
                push_str(&mut out, "\x1b[1m");
                crate::util::push_all(&mut out, sender.as_slice());
                push_str(&mut out, "\x1b[0m");
                push_str(&mut out, " ");
                push_str(&mut out, "\x1b[3m");
                push_str(&mut out, "\x1b[90m");
                push_str(&mut out, "to");
                push_str(&mut out, "\x1b[0m");
                push_str(&mut out, " ");
                push_str(&mut out, "\x1b[1m");
                crate::util::push_all(&mut out, recipient.as_slice());
                push_str(&mut out, "\x1b[0m");
                push_str(&mut out, ": ");
                crate::util::push_all(&mut out, text.as_slice());
            },
            Event::Join(who) => {
                push_str(&mut out, "[");
                push_str(&mut out, "\x1b[1m");
                crate::util::push_all(&mut out, who.as_slice());
                push_str(&mut out, "\x1b[0m");
                push_str(&mut out, " joined]");
            },
            Event::Leave(who) => {
                push_str(&mut out, "[");
                push_str(&mut out, "\x1b[1m");
                crate::util::push_all(&mut out, who.as_slice());
                push_str(&mut out, "\x1b[0m");
                push_str(&mut out, " left]");
            },
            Event::Terminate => {},
        }
        proof {
            assert(out@ =~= render_spec(self@));
        }
        out
    }
}

} // verus!
