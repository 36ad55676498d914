//! Locations and the errors that are reported at them.

use vstd::prelude::*;

verus! {

/// A place in the annotated source, known by the number its owner gave it.
#[derive(Clone, Copy, Debug, PartialEq, Eq, Structural)]
pub struct Span {
    pub id: u64,
}

/// One message at one place.
#[derive(Clone, Debug, PartialEq, Eq)]
pub struct Diagnostic {
    pub span: Span,
    pub message: String,
}

impl View for Diagnostic {
    type V = (Span, Seq<char>);

    open spec fn view(&self) -> (Span, Seq<char>) {
        (self.span, self.message@)
    }
}

/// One or more messages, each with its place, reported together.
#[derive(Clone, Debug, PartialEq, Eq)]
pub struct Error {
    pub parts: Vec<Diagnostic>,
}

impl View for Error {
    type V = Seq<(Span, Seq<char>)>;

    open spec fn view(&self) -> Seq<(Span, Seq<char>)> {
        self.parts@.map_values(|d: Diagnostic| d@)
    }
}

impl Error {
    /// An error of a single message.
    pub fn new(span: Span, message: String) -> (e: Error)
        ensures
            e@ == seq![(span, message@)],
    {
        let ghost text = message@;
        let mut parts: Vec<Diagnostic> = Vec::new();
        parts.push(Diagnostic { span, message });
        let e = Error { parts };
        assert(e@ =~= seq![(span, text)]);
        e
    }

    /// An error of a single message given as a string slice.
    pub fn at(span: Span, message: &str) -> (e: Error)
        ensures
            e@ == seq![(span, message@)],
    {
        Error::new(span, String::from_str(message))
    }

    /// Appends the messages of `other`, in their order, to those of `self`.
    pub fn combine(&mut self, other: Error)
        ensures
            final(self)@ == old(self)@ + other@,
    {
        let mut i: usize = 0;
        while i < other.parts.len()
            invariant
                i <= other.parts.len(),
                self@ == old(self)@ + other@.take(i as int),
            decreases other.parts.len() - i,
        {
            let d = &other.parts[i];
            let ghost before = self@;
            self.parts.push(Diagnostic { span: d.span, message: d.message.clone() });
            assert(self@ =~= before.push(d@));
            assert(other@.take(i + 1) =~= other@.take(i as int).push(other@[i as int]));
            i += 1;
        }
        assert(other@.take(other@.len() as int) =~= other@);
    }

    /// A copy with the same messages at the same places.
    pub fn duplicate(&self) -> (e: Error)
        ensures
            e@ == self@,
    {
        let mut e = Error { parts: Vec::new() };
        let mut i: usize = 0;
        while i < self.parts.len()
            invariant
                i <= self.parts.len(),
                e@ == self@.take(i as int),
            decreases self.parts.len() - i,
        {
            let d = &self.parts[i];
            let ghost before = e@;
            e.parts.push(Diagnostic { span: d.span, message: d.message.clone() });
            assert(e@ =~= before.push(d@));
            assert(self@.take(i + 1) =~= self@.take(i as int).push(self@[i as int]));
            i += 1;
        }
        assert(self@.take(self@.len() as int) =~= self@);
        e
    }
}

} // verus!
