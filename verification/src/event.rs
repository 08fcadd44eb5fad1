//! The event-stream contract: the token vocabulary that the encoding and
//! decoding engines and the concrete format codecs speak, and a producer
//! that collects a pushed stream into a vector.

use vstd::prelude::*;
use crate::integer::Integer;
use crate::scalar::{Real, Uid};

verus! {

/// The mathematical form of one stream token: integers as unbounded
/// integers, text as character sequences. Contracts speak of this form.
#[verifier::ext_equal]
pub enum EventS {
    StartDictionary(Option<u64>),
    StartArray(Option<u64>),
    EndCollection,
    Boolean(bool),
    Integer(int),
    Real(Seq<char>),
    String(Seq<char>),
    Uid(u64),
}

/// One token of the tree-structure wire vocabulary.
///
/// A dictionary body is a flat alternating key/value run between
/// `StartDictionary` and its matching `EndCollection`; there is no separate
/// key token. The count hints on `StartDictionary` and `StartArray` are
/// optional: a producer that does not know the length ahead passes `None`.
#[derive(Clone, Debug, PartialEq)]
pub enum Event {
    StartDictionary(Option<u64>),
    StartArray(Option<u64>),
    EndCollection,
    Boolean(bool),
    Integer(Integer),
    Real(Real),
    String(String),
    Uid(Uid),
}

impl View for Event {
    type V = EventS;

    open spec fn view(&self) -> EventS {
        match self {
            Event::StartDictionary(h) => EventS::StartDictionary(*h),
            Event::StartArray(h) => EventS::StartArray(*h),
            Event::EndCollection => EventS::EndCollection,
            Event::Boolean(b) => EventS::Boolean(*b),
            Event::Integer(i) => EventS::Integer(i.value()),
            Event::Real(r) => EventS::Real(r@),
            Event::String(s) => EventS::String(s@),
            Event::Uid(u) => EventS::Uid(u.value()),
        }
    }
}

impl DeepView for Event {
    type V = EventS;

    open spec fn deep_view(&self) -> EventS {
        self.view()
    }
}

/// An event producer that keeps the pushed stream in memory: each `write_*`
/// call appends the matching token. This is the producer the encoding engine
/// drives; a format codec draining the stream plays the consumer instead.
pub struct VecWriter {
    events: Vec<Event>,
}

impl View for VecWriter {
    type V = Seq<EventS>;

    closed spec fn view(&self) -> Seq<EventS> {
        self.events.deep_view()
    }
}

impl VecWriter {
    /// A producer holding an empty stream.
    pub fn new() -> (w: VecWriter)
        ensures
            w@ == Seq::<EventS>::empty(),
    {
        VecWriter { events: Vec::new() }
    }

    /// Hand the collected stream out.
    pub fn into_inner(self) -> (r: Vec<Event>)
        ensures
            r.deep_view() == self@,
    {
        self.events
    }

    /// Append one already-built token.
    pub fn write_event(&mut self, ev: Event)
        ensures
            final(self)@ == old(self)@.push(ev@),
    {
        let ghost old_events = self.events.deep_view();
        self.events.push(ev);
        proof {
            assert(self.events.deep_view() =~= old_events.push(self.events@.last().deep_view()));
        }
    }

    /// Append a `StartDictionary` token with the given count hint.
    pub fn write_start_dictionary(&mut self, len: Option<u64>)
        ensures
            final(self)@ == old(self)@.push(EventS::StartDictionary(len)),
    {
        self.write_event(Event::StartDictionary(len));
    }

    /// Append a `StartArray` token with the given count hint.
    pub fn write_start_array(&mut self, len: Option<u64>)
        ensures
            final(self)@ == old(self)@.push(EventS::StartArray(len)),
    {
        self.write_event(Event::StartArray(len));
    }

    /// Append an `EndCollection` token.
    pub fn write_end_collection(&mut self)
        ensures
            final(self)@ == old(self)@.push(EventS::EndCollection),
    {
        self.write_event(Event::EndCollection);
    }

    /// Append a boolean scalar token.
    pub fn write_boolean(&mut self, value: bool)
        ensures
            final(self)@ == old(self)@.push(EventS::Boolean(value)),
    {
        self.write_event(Event::Boolean(value));
    }

    /// Append an integer scalar token.
    pub fn write_integer(&mut self, value: Integer)
        ensures
            final(self)@ == old(self)@.push(EventS::Integer(value.value())),
    {
        self.write_event(Event::Integer(value));
    }

    /// Append a real scalar token.
    pub fn write_real(&mut self, value: Real)
        ensures
            final(self)@ == old(self)@.push(EventS::Real(value@)),
    {
        self.write_event(Event::Real(value));
    }

    /// Append a text scalar token.
    pub fn write_string(&mut self, value: String)
        ensures
            final(self)@ == old(self)@.push(EventS::String(value@)),
    {
        self.write_event(Event::String(value));
    }

    /// Append a UID scalar token.
    pub fn write_uid(&mut self, value: Uid)
        ensures
            final(self)@ == old(self)@.push(EventS::Uid(value.value())),
    {
        self.write_event(Event::Uid(value));
    }
}

} // verus!
