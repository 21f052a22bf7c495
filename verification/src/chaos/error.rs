use vstd::prelude::*;

verus! {

/// Result codes of kernel calls. The kernel sends them as 32-bit integers:
/// `NoError` is 0, then `NotFound` 1 through `General` 7.
#[derive(PartialEq, Eq, Structural, Debug, Clone, Copy)]
pub enum StormError {
    NoError,
    NotFound,
    PermissionDenied,
    NotImplemented,
    Timeout,
    Cancelled,
    AlreadyExists,
    General,
}

/// The integer code of an error.
pub open spec fn error_code(error: StormError) -> i32 {
    match error {
        StormError::NoError => 0,
        StormError::NotFound => 1,
        StormError::PermissionDenied => 2,
        StormError::NotImplemented => 3,
        StormError::Timeout => 4,
        StormError::Cancelled => 5,
        StormError::AlreadyExists => 6,
        StormError::General => 7,
    }
}

/// The error that an integer code stands for; codes outside 0..=7 are `General`.
pub open spec fn error_from_code(value: i32) -> StormError {
    if value == 0 {
        StormError::NoError
    } else if value == 1 {
        StormError::NotFound
    } else if value == 2 {
        StormError::PermissionDenied
    } else if value == 3 {
        StormError::NotImplemented
    } else if value == 4 {
        StormError::Timeout
    } else if value == 5 {
        StormError::Cancelled
    } else if value == 6 {
        StormError::AlreadyExists
    } else {
        StormError::General
    }
}

impl StormError {
    /// Decodes a kernel result code.
    pub fn from_i32(value: i32) -> (error: Self)
        ensures
            error == error_from_code(value),
    {
        match value {
            0 => StormError::NoError,
            1 => StormError::NotFound,
            2 => StormError::PermissionDenied,
            3 => StormError::NotImplemented,
            4 => StormError::Timeout,
            5 => StormError::Cancelled,
            6 => StormError::AlreadyExists,
            _ => StormError::General,
        }
    }

    /// Encodes an error as a kernel result code.
    pub fn to_i32(error: Self) -> (value: i32)
        ensures
            value == error_code(error),
    {
        match error {
            StormError::NoError => 0,
            StormError::NotFound => 1,
            StormError::PermissionDenied => 2,
            StormError::NotImplemented => 3,
            StormError::Timeout => 4,
            StormError::Cancelled => 5,
            StormError::AlreadyExists => 6,
            StormError::General => 7,
        }
    }
}

/// Decoding the code of an error gives the error back.
pub proof fn law_error_code_roundtrip(error: StormError)
    ensures
        error_from_code(error_code(error)) == error,
{
}

/// Every code in 0..=7 is the code of the error it decodes to; every other
/// code decodes to `General`.
pub proof fn law_error_code_decoding(value: i32)
    ensures
        0 <= value <= 7 ==> error_code(error_from_code(value)) == value,
        !(0 <= value <= 7) ==> error_from_code(value) == StormError::General,
{
}

} // verus!
