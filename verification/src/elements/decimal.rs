//! Decimals are kept at a node as bit patterns. What a delta finds there
//! is decided here; the arithmetic on the numbers is not this library's.

use vstd::prelude::*;
use crate::slot::{ElementError, NumericValue};

verus! {

/// What a decimal delta starts from at a node that holds `stored`: the bit
/// pattern of the decimal there, where it has the delta's width (`wide`
/// for 64 bits, else 32). At a node without number an addition starts from
/// its operand, told by no pattern, and any other delta is refused; a
/// number of another kind or width is refused too.
pub open spec fn decimal_start(stored: Option<NumericValue>, wide: bool, is_add: bool) -> Result<
    Option<u64>,
    ElementError,
> {
    match stored {
        None => if is_add {
            Ok(None)
        } else {
            Err(ElementError::MissingValue)
        },
        Some(NumericValue::F64(bits)) => if wide {
            Ok(Some(bits))
        } else {
            Err(ElementError::ContextMismatch)
        },
        Some(NumericValue::F32(bits)) => if wide {
            Err(ElementError::ContextMismatch)
        } else {
            Ok(Some(bits as u64))
        },
        Some(_) => Err(ElementError::ContextMismatch),
    }
}

/// Decides what a decimal delta starts from.
pub fn decimal_prior(stored: &Option<NumericValue>, wide: bool, is_add: bool) -> (r: Result<
    Option<u64>,
    ElementError,
>)
    ensures
        r == decimal_start(*stored, wide, is_add),
{
    match stored {
        None => if is_add {
            Ok(None)
        } else {
            Err(ElementError::MissingValue)
        },
        Some(NumericValue::F64(bits)) => if wide {
            Ok(Some(*bits))
        } else {
            Err(ElementError::ContextMismatch)
        },
        Some(NumericValue::F32(bits)) => if wide {
            Err(ElementError::ContextMismatch)
        } else {
            Ok(Some(*bits as u64))
        },
        Some(_) => Err(ElementError::ContextMismatch),
    }
}

} // verus!
