use vstd::prelude::*;

verus! {

/// The failure kinds that a navigation or search operation can report.
///
/// `Other` covers the two edge failures of cursor motion: no valid UTF-8
/// boundary near a seek target, and a forward read that produced no bytes.
/// `IOError` stands for an underlying input failure, `NoNextFile` is returned
/// when cycling files is impossible, and `SearchError` reports a pattern that
/// did not compile.
#[derive(Debug, Clone, PartialEq, Eq, Structural)]
pub enum Error {
    Other,
    IOError,
    NoNextFile,
    SearchError,
}

} // verus!
