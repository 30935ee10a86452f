//! The contracts a message type satisfies to be read from a reader or
//! written to a writer. Implementations are machine-generated from a schema;
//! the codec only relies on what is stated here.

use crate::errors::Error;
use crate::reader::BytesReader;
use crate::writer::Writer;
use crate::writer::WriterBackend;
use vstd::prelude::*;

verus! {

/// A message that can emit itself to a writer.
pub trait MessageWrite: Sized {
    /// The exact serialized form of `self`, without a length prefix. The
    /// default is the empty message; a message with fields redefines it.
    open spec fn encoding(&self) -> Seq<u8> {
        Seq::empty()
    }

    /// Writes `self` into the writer, without a length prefix.
    fn write_message<W: WriterBackend>(&self, w: &mut Writer<W>) -> (r: Result<(), Error>)
        ensures
            r is Ok ==> final(w).out() == old(w).out() + self.encoding(),
    ;

    /// The exact serialized byte length of `self`, used by outer frames to
    /// emit length prefixes.
    fn get_size(&self) -> (r: usize)
        ensures
            r == self.encoding().len(),
    ;
}

/// A message that can construct itself by reading from the given bytes via
/// the given reader.
///
/// Reading does not consume a length prefix first; to read a
/// length-prefixed message, use [`BytesReader::read_message`]. An
/// implementation stays inside the reader's current scope and leaves the
/// reader well-formed whether it succeeds or fails.
pub trait MessageRead<'a>: Sized {
    /// Reads an instance of `Self` out of `bytes`, starting at the reader's
    /// cursor and staying within its current scope.
    fn from_reader(r: &mut BytesReader, bytes: &'a [u8]) -> (res: Result<Self, Error>)
        requires
            old(r).wf(bytes@),
        ensures
            final(r).wf(bytes@),
            final(r).bound() == old(r).bound(),
            final(r).pos() >= old(r).pos(),
    ;
}

/// Basic information about a message type.
pub trait MessageInfo {
    /// The fully qualified message path, in the form `Module.Message`.
    const PATH: &'static str;
}

} // verus!
