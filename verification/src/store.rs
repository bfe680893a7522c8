//! The variable store abstraction: identifiers, attribute bits, and the
//! store interface that platform backends implement.

use crate::error::StoreError;
use vstd::prelude::*;

verus! {

/// Vendor namespace of the boot-loader interface, as a 128-bit value in
/// big-endian byte order.
pub const SYSTEMD_BOOT_VENDOR: u128 = 0x4a67b082_0a4c_41cf_b6c7_440b29bb8c4f;

/// Attribute bit: the variable survives reboots.
pub const ATTRIBUTE_NON_VOLATILE: u32 = 0x1;

/// Attribute bit: the variable is accessible to boot services.
pub const ATTRIBUTE_BOOTSERVICE_ACCESS: u32 = 0x2;

/// Attribute bit: the variable is accessible at runtime.
pub const ATTRIBUTE_RUNTIME_ACCESS: u32 = 0x4;

/// The exact attribute combination carried by every write of this library,
/// and expected when the oneshot variable is read back.
pub const ENTRY_ATTRIBUTES: u32 = 0x1 | 0x2 | 0x4;

/// Attribute bits carried by the oneshot and default entry variables.
pub fn entry_flags() -> (r: u32)
    ensures
        r == ENTRY_ATTRIBUTES,
{
    ATTRIBUTE_NON_VOLATILE | ATTRIBUTE_BOOTSERVICE_ACCESS | ATTRIBUTE_RUNTIME_ACCESS
}

/// A variable identifier: a name under a vendor namespace.
#[derive(Debug)]
pub struct VarId {
    /// The variable's name.
    pub name: String,
    /// The vendor namespace, as a 128-bit value in big-endian byte order.
    pub vendor: u128,
}

impl View for VarId {
    type V = (Seq<char>, u128);

    open spec fn view(&self) -> (Seq<char>, u128) {
        (self.name@, self.vendor)
    }
}

impl VarId {
    /// Composes an identifier from a name and a vendor namespace.
    pub fn new(name: &str, vendor: u128) -> (r: VarId)
        ensures
            r@ == (name@, vendor),
    {
        VarId { name: name.to_owned(), vendor }
    }

    /// Returns an identifier with the same name and vendor.
    pub fn duplicate(&self) -> (r: VarId)
        ensures
            r@ == self@,
    {
        VarId { name: self.name.clone(), vendor: self.vendor }
    }
}

/// What a store holds: payload bytes and attribute bits per identifier.
pub type StoreContents = Map<(Seq<char>, u128), (Seq<u8>, u32)>;

/// A store of named, namespaced, attribute-tagged binary values.
///
/// `read` fills a caller-allocated buffer and reports the byte length used:
/// the store cannot report a required size except by rejecting an undersized
/// buffer with `BufferTooSmall`. Failures beyond the two protocol signals
/// (`NotFound`, `BufferTooSmall`) may surface on any call, so no method
/// promises success.
pub trait VarStore {
    /// The store's contents. The default, an empty map, stands for a store
    /// that the verifier knows nothing about; a store whose operations are
    /// verified overrides it.
    open spec fn vars(&self) -> StoreContents {
        Map::empty()
    }

    /// Reads the variable `id` into the prefix of `buf` without changing the
    /// buffer's length, and reports the byte length used and the stored
    /// attribute bits.
    fn read(&self, id: &VarId, buf: &mut Vec<u8>) -> (r: Result<(usize, u32), StoreError>)
        ensures
            final(buf)@.len() == old(buf)@.len(),
            r matches Ok((len, attrs)) ==> {
                &&& self.vars().contains_key(id@)
                &&& len == self.vars()[id@].0.len()
                &&& len <= old(buf)@.len()
                &&& final(buf)@ == self.vars()[id@].0 + old(buf)@.skip(len as int)
                &&& attrs == self.vars()[id@].1
            },
            r matches Err(e) && e is NotFound ==> !self.vars().contains_key(id@),
            r matches Err(e) && e is BufferTooSmall ==> self.vars().contains_key(id@)
                && self.vars()[id@].0.len() > old(buf)@.len(),
    ;

    /// Writes `value` under `id` with the given attribute bits, replacing any
    /// previous payload.
    fn write(&mut self, id: &VarId, attributes: u32, value: &[u8]) -> (r: Result<(), StoreError>)
        ensures
            r is Ok ==> final(self).vars() == old(self).vars().insert(
                id@,
                (value@, attributes),
            ),
    ;

    /// Removes the variable `id`; an already absent variable is a success,
    /// since the postcondition already holds.
    fn delete(&mut self, id: &VarId) -> (r: Result<(), StoreError>)
        ensures
            r is Ok ==> final(self).vars() == old(self).vars().remove(id@),
    ;
}

} // verus!
