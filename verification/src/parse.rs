//! The entry point: one data item, and nothing behind it.

use crate::grammar::{data_item, spec_data_item};
use crate::item::{DataItem, Item};
use crate::lexical::{run_end, ws, Class};
use vstd::prelude::*;
use vstd::string::*;

verus! {

/// Why a text is not the notation of one data item.
#[derive(Clone, Copy, Debug, PartialEq, Eq, Structural)]
pub enum ErrorKind {
    /// No form of a data item is matched.
    Syntax,
    /// A data item is matched, and text is left behind it.
    TrailingInput,
}

/// The constructs of the grammar, as an error names them.
#[derive(Clone, Copy, Debug, PartialEq, Eq, Structural)]
pub enum Label {
    DataItem,
    Float,
    Tagged,
    Positive,
    Negative,
    ByteString,
    TextString,
    Array,
    Mapping,
    Simple,
}

/// A failed parse: its kind, the offset in bytes at which it shows, and the
/// constructs that were being read there, the outermost first.
#[derive(Clone, Debug, PartialEq, Eq)]
pub struct ParseError {
    pub kind: ErrorKind,
    pub offset: usize,
    pub path: Vec<Label>,
}

/// The model of a failed parse.
pub struct Fault {
    pub kind: ErrorKind,
    pub offset: int,
    pub path: Seq<Label>,
}

impl View for ParseError {
    type V = Fault;

    open spec fn view(&self) -> Fault {
        Fault { kind: self.kind, offset: self.offset as int, path: self.path@ }
    }
}

/// What the bytes `s` denote. They denote a data item where one is matched at their
/// beginning and ends at their end. Where one is matched and ends before that, the
/// fault is trailing input, at the first byte that is left. Where none is matched,
/// the fault is one of syntax, at the first byte that is not layout: there the forms
/// of a data item were tried, the simple value last.
pub open spec fn spec_parse_diag(s: Seq<u8>) -> Result<Item, Fault> {
    match spec_data_item(s, 0) {
        Some((item, end)) => if end == s.len() {
            Ok(item)
        } else {
            Err(Fault { kind: ErrorKind::TrailingInput, offset: end, path: Seq::empty() })
        },
        None => Err(
            Fault {
                kind: ErrorKind::Syntax,
                offset: run_end(s, 0, Class::Layout),
                path: seq![Label::DataItem, Label::Simple],
            },
        ),
    }
}

/// Parses the diagnostic notation of one data item. The text is taken as its bytes;
/// a decoder of the encoded byte strings cannot take more than `usize::MAX / 8` of
/// them.
pub fn parse_diag(text: &str) -> (r: Result<DataItem, ParseError>)
    requires
        text.spec_bytes().len() <= usize::MAX / 8,
    ensures
        r matches Ok(item) ==> spec_parse_diag(text.spec_bytes()) == Ok::<Item, Fault>(item@),
        r matches Err(error) ==> spec_parse_diag(text.spec_bytes()) == Err::<Item, Fault>(error@),
{
    let input = text.as_bytes();
    match data_item(input, 0) {
        Some((item, end)) => {
            if end == input.len() {
                Ok(item)
            } else {
                Err(ParseError { kind: ErrorKind::TrailingInput, offset: end, path: Vec::new() })
            }
        },
        None => {
            let mut path: Vec<Label> = Vec::new();
            path.push(Label::DataItem);
            path.push(Label::Simple);
            assert(path@ == seq![Label::DataItem, Label::Simple]);
            Err(ParseError { kind: ErrorKind::Syntax, offset: ws(input, 0), path })
        },
    }
}

} // verus!
