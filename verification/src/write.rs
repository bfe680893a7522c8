//! Writing a text as a variable's UTF-16LE payload.

use crate::codec::{encode_utf16_string, encoded_payload};
use crate::error::Error;
use crate::store::{VarId, VarStore};
use vstd::prelude::*;

verus! {

/// Encodes `value` as UTF-16LE, appends the terminating all-zero unit if
/// the encoding does not already end with one, and writes the payload to
/// the variable `id` with the given attribute bits.
pub fn write_utf16_string<S: VarStore>(
    store: &mut S,
    id: &VarId,
    attributes: u32,
    value: &str,
) -> (r: Result<(), Error>)
    ensures
        r is Ok ==> final(store).vars() == old(store).vars().insert(
            id@,
            (encoded_payload(value@), attributes),
        ),
        r matches Err(e) ==> e matches Error::Store { name, error: _ } && name@ == id@.0,
{
    let buffer = encode_utf16_string(value);
    match store.write(id, attributes, buffer.as_slice()) {
        Ok(()) => Ok(()),
        Err(e) => Err(Error::Store { name: id.name.clone(), error: e }),
    }
}

} // verus!
