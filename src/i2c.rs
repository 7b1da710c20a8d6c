//! The error type of bus transactions, and the checks made on what a bus read delivered.
//!
//! The bus itself is driven by the caller: it hands the outcome of its own
//! read or write to these functions, which decide what the transaction yields.
use vstd::prelude::*;

use crate::crc8::{self, CrcError, validation};
use crate::i2c_buffer::AppendError;

verus! {

/// All possible errors of a bus transaction, over the bus's own error type `E`.
#[derive(Debug, PartialEq, Clone, Copy)]
pub enum Error<E> {
    /// The bus failed while writing.
    I2cWrite(E),
    /// The bus failed while reading.
    I2cRead(E),
    /// A checksum did not match its data word.
    Crc,
    /// The data did not fit into the buffer.
    BufferTooSmall,
    /// The data did not have a length the framing allows.
    InvalidBufferSize,
}

/// The transaction error that stands for a validation error.
pub open spec fn crc_error_to_error<E>(e: CrcError) -> Error<E> {
    match e {
        CrcError::CrcError => Error::Crc,
        CrcError::InvalidBufferSize => Error::InvalidBufferSize,
    }
}

/// The transaction error that stands for an append error.
pub open spec fn append_error_to_error<E>(e: AppendError) -> Error<E> {
    match e {
        AppendError::BufferTooSmall => Error::BufferTooSmall,
        AppendError::InvalidBufferSize => Error::InvalidBufferSize,
    }
}

impl<E> From<CrcError> for Error<E> {
    fn from(e: CrcError) -> (r: Error<E>) {
        match e {
            CrcError::CrcError => Error::Crc,
            CrcError::InvalidBufferSize => Error::InvalidBufferSize,
        }
    }
}

impl<E> vstd::std_specs::convert::FromSpecImpl<CrcError> for Error<E> {
    open spec fn obeys_from_spec() -> bool {
        true
    }

    open spec fn from_spec(e: CrcError) -> Error<E> {
        crc_error_to_error(e)
    }
}

impl<E> From<AppendError> for Error<E> {
    fn from(e: AppendError) -> (r: Error<E>) {
        match e {
            AppendError::BufferTooSmall => Error::BufferTooSmall,
            AppendError::InvalidBufferSize => Error::InvalidBufferSize,
        }
    }
}

impl<E> vstd::std_specs::convert::FromSpecImpl<AppendError> for Error<E> {
    open spec fn obeys_from_spec() -> bool {
        true
    }

    open spec fn from_spec(e: AppendError) -> Error<E> {
        append_error_to_error(e)
    }
}

/// Decides the outcome of a read of checksummed words into `data`, given the
/// outcome `read` of the bus read that filled it.
///
/// A failed bus read yields its error unchanged; a successful one is
/// validated, and a wrong checksum yields `Error::Crc`.
pub fn check_words<E>(read: Result<(), E>, data: &[u8]) -> (r: Result<(), Error<E>>)
    requires
        data@.len() % 3 == 0,
    ensures
        match read {
            Err(e) => r == Err::<(), Error<E>>(Error::I2cRead(e)),
            Ok(_) => match validation(data@) {
                Ok(_) => r is Ok,
                Err(c) => r == Err::<(), Error<E>>(crc_error_to_error(c)),
            },
        },
        read is Ok && validation(data@) is Err ==> r == Err::<(), Error<E>>(Error::Crc),
{
    match read {
        Err(e) => Err(Error::I2cRead(e)),
        Ok(_) => match crc8::validate(data) {
            Ok(_) => Ok(()),
            Err(c) => Err(Error::from(c)),
        },
    }
}

} // verus!
