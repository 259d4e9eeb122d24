//! What goes wrong, in the words it is reported with.
use vstd::prelude::*;

verus! {

/// A failure this library states itself. What the outside world answers with
/// is carried through the state machines as it came.
#[derive(Debug, Clone, PartialEq, Eq)]
pub enum Fault {
    /// What was asked for cannot be done as stated.
    Validation(String),
    /// A control plane could not provide a machine.
    Provider(String),
    /// A value has no written form, or a written form stands for no value.
    Encoding(String),
    /// A machine could not be talked to.
    Transport(String),
}

/// The kind and the characters of an [`Fault`].
pub enum Complaint {
    Validation(Seq<char>),
    Provider(Seq<char>),
    Encoding(Seq<char>),
    Transport(Seq<char>),
}

impl View for Fault {
    type V = Complaint;

    open spec fn view(&self) -> Complaint {
        match self {
            Fault::Validation(message) => Complaint::Validation(message@),
            Fault::Provider(message) => Complaint::Provider(message@),
            Fault::Encoding(message) => Complaint::Encoding(message@),
            Fault::Transport(message) => Complaint::Transport(message@),
        }
    }
}

impl Complaint {
    /// The message.
    pub open spec fn message(self) -> Seq<char> {
        match self {
            Complaint::Validation(message) => message,
            Complaint::Provider(message) => message,
            Complaint::Encoding(message) => message,
            Complaint::Transport(message) => message,
        }
    }
}

impl Fault {
    /// The message.
    pub fn message(&self) -> (out: &str)
        ensures
            out@ == self@.message(),
    {
        match self {
            Fault::Validation(message) => message.as_str(),
            Fault::Provider(message) => message.as_str(),
            Fault::Encoding(message) => message.as_str(),
            Fault::Transport(message) => message.as_str(),
        }
    }
}

} // verus!
