//! The conversion error and its model.

use vstd::prelude::*;

verus! {

/// The model of a conversion error.
pub struct ErrorModel {
    pub from: Seq<char>,
    pub to: Seq<char>,
    pub message: Option<Seq<char>>,
}

/// A failed conversion: the kind of the value met, the type wanted, and
/// what went wrong.
#[derive(Debug)]
pub struct ConversionError {
    pub from: String,
    pub to: String,
    pub message: Option<String>,
}

impl View for ConversionError {
    type V = ErrorModel;

    open spec fn view(&self) -> ErrorModel {
        ErrorModel {
            from: self.from@,
            to: self.to@,
            message: match self.message {
                Some(m) => Some(m@),
                None => None,
            },
        }
    }
}

/// The text of an error as a cause inside an enclosing one: its message,
/// or a description of the conversion where it has none.
pub open spec fn cause_text(e: ErrorModel) -> Seq<char> {
    match e.message {
        Some(m) => m,
        None => "error converting "@ + e.from + " to "@ + e.to,
    }
}

impl ConversionError {
    /// Appends the text of the error as a cause.
    pub fn push_cause(&self, buf: &mut String)
        ensures
            final(buf)@ == old(buf)@ + cause_text(self@),
    {
        match &self.message {
            Some(m) => buf.append(m.as_str()),
            None => {
                buf.append("error converting ");
                buf.append(self.from.as_str());
                buf.append(" to ");
                buf.append(self.to.as_str());
                assert(final(buf)@ =~= old(buf)@ + cause_text(self@));
            },
        }
    }
}

} // verus!
