use vstd::prelude::*;

pub mod chunking;
pub mod command;
pub mod path;
pub mod transfer;
pub mod wire;

verus! {

/// The kinds of failure a transfer can end in.
#[derive(Clone, Copy, Debug, PartialEq, Eq, Structural)]
pub enum TransferError {
    /// Binding, connecting or accepting failed.
    Connection,
    /// A file or the connection could not be read or written, or ended early.
    Io,
    /// The header was cut short or its name is not valid UTF-8.
    Decode,
}

} // verus!
