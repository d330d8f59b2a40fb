use vstd::prelude::*;
use vstd::string::StringExecFns;

verus! {

/// What went wrong with one document: a kind tag and a human-readable text.
#[derive(Debug)]
pub struct Error {
    pub kind: String,
    pub message: String,
}

impl Error {
    /// An error in reading or writing a document.
    pub fn io_error(message: String) -> (r: Error)
        ensures
            r.kind@ == "IOError"@,
            r.message@ == message@,
    {
        Error { kind: "IOError".to_owned(), message }
    }

    /// An error in turning text into a document or a document into text.
    pub fn parse_error(message: String) -> (r: Error)
        ensures
            r.kind@ == "JSONParseError"@,
            r.message@ == message@,
    {
        Error { kind: "JSONParseError".to_owned(), message }
    }

    /// The error as one line of text, kind first.
    pub fn describe(&self) -> (r: String)
        ensures
            r@ == self.kind@ + ": "@ + self.message@,
    {
        let mut s = self.kind.clone();
        s.append(": ");
        s.append(self.message.as_str());
        s
    }
}

} // verus!
