//! The variable manager: named operations over a generic variable store.

use crate::codec::{decode_units, decode_units_lossy, decode_utf16, decoded_text, encoded_payload,
    trim_terminator};
use crate::error::Error;
use crate::read::{padded_units, read_u16_bytes, read_utf16_string, MAX_PAYLOAD_BYTES};
use crate::store::{StoreContents, VarId, VarStore, ENTRY_ATTRIBUTES, SYSTEMD_BOOT_VENDOR};
use crate::write::write_utf16_string;
use vstd::prelude::*;
use vstd::slice::slice_subrange;

verus! {

/// Identifier of the variable holding the entry for a single next boot.
pub open spec fn oneshot_id() -> (Seq<char>, u128) {
    ("LoaderEntryOneShot"@, SYSTEMD_BOOT_VENDOR)
}

/// Identifier of the variable holding the default entry.
pub open spec fn default_id() -> (Seq<char>, u128) {
    ("LoaderEntryDefault"@, SYSTEMD_BOOT_VENDOR)
}

/// Identifier of the variable holding the entry booted currently.
pub open spec fn selected_id() -> (Seq<char>, u128) {
    ("LoaderEntrySelected"@, SYSTEMD_BOOT_VENDOR)
}

/// Identifier of the variable listing the discovered entries.
pub open spec fn entries_id() -> (Seq<char>, u128) {
    ("LoaderEntries"@, SYSTEMD_BOOT_VENDOR)
}

/// The number of leading non-zero units: the length of the first segment
/// of a multi-entry payload.
pub open spec fn segment_len(us: Seq<u16>) -> nat
    decreases us.len(),
{
    if us.len() == 0 || us[0] != 0 {
        if us.len() == 0 {
            0
        } else {
            1 + segment_len(us.drop_first())
        }
    } else {
        0
    }
}

/// The entry segments of a multi-entry payload: the maximal runs of
/// non-zero units, in order, up to the first empty segment. A payload that
/// opens with a zero unit, or is empty, has no segments.
pub open spec fn entry_segments(us: Seq<u16>) -> Seq<Seq<u16>>
    decreases us.len(),
{
    let k = segment_len(us) as int;
    if k == 0 {
        Seq::empty()
    } else if k >= us.len() {
        seq![us]
    } else {
        seq![us.take(k)] + entry_segments(us.skip(k + 1))
    }
}

/// The segments decoded as UTF-16, skipping those that are invalid.
pub open spec fn decode_segments(segs: Seq<Seq<u16>>) -> Seq<Seq<char>>
    decreases segs.len(),
{
    if segs.len() == 0 {
        Seq::empty()
    } else {
        match decode_units(segs[0]) {
            Some(t) => seq![t] + decode_segments(segs.drop_first()),
            None => decode_segments(segs.drop_first()),
        }
    }
}

/// The entries listed in a multi-entry payload: each NUL-terminated
/// segment before the first empty one, decoded as UTF-16; a segment that
/// is not valid UTF-16 is skipped, not a failure.
pub open spec fn parsed_entries(us: Seq<u16>) -> Seq<Seq<char>> {
    decode_segments(entry_segments(us))
}

/// The first segment ends exactly at the first zero unit, or at the end of
/// the payload if it holds none.
proof fn lemma_segment_len_at(s: Seq<u16>, k: int)
    requires
        0 <= k <= s.len(),
        forall|m: int| 0 <= m < k ==> s[m] != 0,
        k < s.len() ==> s[k] == 0,
    ensures
        segment_len(s) == k,
    decreases k,
{
    if k == 0 {
    } else {
        assert(s[0] != 0);
        assert(forall|m: int| 0 <= m < k - 1 ==> s.drop_first()[m] == s[m + 1]);
        lemma_segment_len_at(s.drop_first(), k - 1);
    }
}

/// Splits a multi-entry payload into its entries: scans segment by
/// segment, stops at the first empty segment, decodes each segment as
/// UTF-16, and skips segments that fail to decode.
pub fn parse_entries(us: &[u16]) -> (r: Vec<String>)
    ensures
        r.deep_view() == parsed_entries(us@),
{
    let n = us.len();
    let mut result: Vec<String> = Vec::new();
    let mut i: usize = 0;
    proof {
        assert(us@.skip(0) =~= us@);
        assert(result.deep_view() + parsed_entries(us@) =~= parsed_entries(us@));
    }
    while i < n && us[i] != 0
        invariant
            n == us@.len(),
            i <= n,
            parsed_entries(us@) == result.deep_view() + decode_segments(
                entry_segments(us@.skip(i as int)),
            ),
        decreases n - i,
    {
        let mut j: usize = i + 1;
        while j < n && us[j] != 0
            invariant
                i < j <= n,
                n == us@.len(),
                forall|m: int| i <= m < j ==> us@[m] != 0,
            decreases n - j,
        {
            j = j + 1;
        }
        let seg = slice_subrange(us, i, j);
        let ghost tail = us@.skip(i as int);
        proof {
            assert(forall|m: int| 0 <= m < j - i ==> tail[m] == us@[m + i]);
            assert(j < n ==> tail[j - i] == us@[j as int]);
            lemma_segment_len_at(tail, j - i);
            assert(seg@ =~= tail.take(j - i));
            if j < n {
                assert(entry_segments(tail) == seq![seg@] + entry_segments(
                    us@.skip(j + 1),
                )) by {
                    assert(tail.skip(j - i + 1) =~= us@.skip(j + 1));
                }
            } else {
                assert(entry_segments(tail) == seq![seg@]) by {
                    assert(tail.take(j - i) =~= tail);
                }
                assert(entry_segments(us@.skip(n as int)) =~= Seq::<Seq<u16>>::empty());
            }
            assert(seq![seg@].drop_first() =~= Seq::<Seq<u16>>::empty());
            assert((seq![seg@] + entry_segments(us@.skip(j + 1))).drop_first()
                =~= entry_segments(us@.skip(j + 1)));
        }
        match decode_utf16(seg) {
            Some(text) => {
                proof {
                    let ghost old_dv = result.deep_view();
                    assert(old_dv + (seq![text@] + decode_segments(
                        entry_segments(us@.skip(if j < n {
                            j + 1
                        } else {
                            n as int
                        })),
                    )) =~= old_dv.push(text@) + decode_segments(
                        entry_segments(us@.skip(if j < n {
                            j + 1
                        } else {
                            n as int
                        })),
                    ));
                }
                let ghost prev = result.deep_view();
                result.push(text);
                proof {
                    assert(result.deep_view() =~= prev.push(text@));
                }
            },
            None => {
                // An invalid segment is skipped, with the rest still listed.
            },
        }
        if j < n {
            i = j + 1;
        } else {
            i = j;
        }
    }
    proof {
        if i < n {
            assert(us@.skip(i as int)[0] == us@[i as int]);
            assert(segment_len(us@.skip(i as int)) == 0);
        }
        assert(decode_segments(entry_segments(us@.skip(i as int)))
            =~= Seq::<Seq<char>>::empty());
        assert(result.deep_view() + Seq::<Seq<char>>::empty() =~= result.deep_view());
    }
    result
}

/// What reading a named variable as text returns, over the store's
/// contents: the decoded text for a present, well-formed payload; an
/// explicit absence; or the error that names the variable.
pub open spec fn get_text_post(
    vars: StoreContents,
    id: (Seq<char>, u128),
    r: Result<Option<String>, Error>,
) -> bool {
    match r {
        Ok(Some(text)) => vars.contains_key(id) && decoded_text(padded_units(vars[id].0))
            == Some(text@),
        Ok(None) => !vars.contains_key(id),
        Err(e) => match e {
            Error::Decode { name, lossy } => {
                &&& vars.contains_key(id)
                &&& decoded_text(padded_units(vars[id].0)) is None
                &&& name@ == id.0
                &&& lossy@ == decode_units_lossy(trim_terminator(padded_units(vars[id].0)))
            },
            Error::SizeExceeded { name, attempted_bytes } => {
                &&& vars.contains_key(id)
                &&& vars[id].0.len() > MAX_PAYLOAD_BYTES
                &&& name@ == id.0
                &&& attempted_bytes == MAX_PAYLOAD_BYTES
            },
            Error::Store { name, error } => name@ == id.0 && !(error is NotFound) && !(
            error is BufferTooSmall),
            _ => false,
        },
    }
}

/// What fetching the oneshot entry returns: as [`get_text_post`], except
/// that a present value is handed out only when its attribute bits are
/// exactly the expected combination, and differing bits are an explicit
/// mismatch error carrying both words.
pub open spec fn get_oneshot_post(vars: StoreContents, r: Result<Option<String>, Error>) -> bool {
    match r {
        Ok(Some(text)) => {
            &&& vars.contains_key(oneshot_id())
            &&& decoded_text(padded_units(vars[oneshot_id()].0)) == Some(text@)
            &&& vars[oneshot_id()].1 == ENTRY_ATTRIBUTES
        },
        Ok(None) => !vars.contains_key(oneshot_id()),
        Err(e) => match e {
            Error::AttributeMismatch { actual, expected } => {
                &&& vars.contains_key(oneshot_id())
                &&& decoded_text(padded_units(vars[oneshot_id()].0)) is Some
                &&& actual == vars[oneshot_id()].1
                &&& actual != ENTRY_ATTRIBUTES
                &&& expected == ENTRY_ATTRIBUTES
            },
            _ => get_text_post(vars, oneshot_id(), Err(e)),
        },
    }
}

/// Boot-entry variable manager: composes the codec, the growing reader and
/// the store into named operations.
pub struct Manager<S: VarStore> {
    store: S,
}

impl<S: VarStore> Manager<S> {
    /// The contents of the underlying store.
    pub closed spec fn vars(&self) -> StoreContents {
        self.store.vars()
    }

    /// Initializes the manager over the given store, which it owns
    /// exclusively from then on.
    pub fn new(store: S) -> (r: Manager<S>)
        ensures
            r.vars() == store.vars(),
    {
        Manager { store }
    }

    /// Reads one named variable of the boot-loader vendor as text.
    fn get_string(&self, name: &str) -> (r: Result<Option<String>, Error>)
        ensures
            get_text_post(self.vars(), (name@, SYSTEMD_BOOT_VENDOR), r),
    {
        let id = VarId::new(name, SYSTEMD_BOOT_VENDOR);
        match read_utf16_string(&self.store, &id) {
            Ok(Some((text, _flags))) => Ok(Some(text)),
            Ok(None) => Ok(None),
            Err(e) => Err(e),
        }
    }

    /// Returns the entry that was booted currently, or `None` when the
    /// system was not booted through the loader.
    pub fn get_selected_entry(&self) -> (r: Result<Option<String>, Error>)
        ensures
            get_text_post(self.vars(), selected_id(), r),
    {
        self.get_string("LoaderEntrySelected")
    }

    /// Returns the default entry, or `None` when none is set.
    pub fn get_default_entry(&self) -> (r: Result<Option<String>, Error>)
        ensures
            get_text_post(self.vars(), default_id(), r),
    {
        self.get_string("LoaderEntryDefault")
    }

    /// Fetches the oneshot entry. A stored value whose attribute bits
    /// differ from the expected combination is a data-integrity error, not
    /// a value; an absent variable is an explicit `None`.
    pub fn get_oneshot(&self) -> (r: Result<Option<String>, Error>)
        ensures
            get_oneshot_post(self.vars(), r),
    {
        let id = VarId::new("LoaderEntryOneShot", SYSTEMD_BOOT_VENDOR);
        let (value, flags) = match read_utf16_string(&self.store, &id)? {
            Some(data) => data,
            None => {
                return Ok(None);
            },
        };
        let expected = crate::store::entry_flags();
        if flags != expected {
            return Err(Error::AttributeMismatch { actual: flags, expected });
        }
        Ok(Some(value))
    }

    /// Sets the oneshot entry to `value`, stored as a NUL-terminated
    /// UTF-16LE payload with the expected attribute bits.
    pub fn set_oneshot(&mut self, value: &str) -> (r: Result<(), Error>)
        ensures
            r is Ok ==> final(self).vars() == old(self).vars().insert(
                oneshot_id(),
                (encoded_payload(value@), ENTRY_ATTRIBUTES),
            ),
            r matches Err(e) ==> e matches Error::Store { name, error: _ } && name@
                == oneshot_id().0,
    {
        let id = VarId::new("LoaderEntryOneShot", SYSTEMD_BOOT_VENDOR);
        let flags = crate::store::entry_flags();
        write_utf16_string(&mut self.store, &id, flags, value)
    }

    /// Sets the default entry to `value`, stored as a NUL-terminated
    /// UTF-16LE payload with the expected attribute bits.
    pub fn set_default(&mut self, value: &str) -> (r: Result<(), Error>)
        ensures
            r is Ok ==> final(self).vars() == old(self).vars().insert(
                default_id(),
                (encoded_payload(value@), ENTRY_ATTRIBUTES),
            ),
            r matches Err(e) ==> e matches Error::Store { name, error: _ } && name@
                == default_id().0,
    {
        let id = VarId::new("LoaderEntryDefault", SYSTEMD_BOOT_VENDOR);
        let flags = crate::store::entry_flags();
        write_utf16_string(&mut self.store, &id, flags, value)
    }

    /// Removes the oneshot entry; an already absent entry is a success,
    /// since the postcondition — the variable does not exist — already
    /// holds.
    pub fn remove_oneshot(&mut self) -> (r: Result<(), Error>)
        ensures
            r is Ok ==> final(self).vars() == old(self).vars().remove(oneshot_id()),
            r matches Err(e) ==> e matches Error::Store { name, error: _ } && name@
                == oneshot_id().0,
    {
        let id = VarId::new("LoaderEntryOneShot", SYSTEMD_BOOT_VENDOR);
        match self.store.delete(&id) {
            Ok(()) => Ok(()),
            Err(e) => Err(Error::Store { name: id.name, error: e }),
        }
    }

    /// Fetches the available entries from the entry-list variable: each
    /// NUL-terminated segment before the first empty one, with invalid
    /// segments skipped. A missing entry-list variable is an error, not an
    /// empty list.
    pub fn entries(&self) -> (r: Result<Vec<String>, Error>)
        ensures
            r matches Ok(list) ==> self.vars().contains_key(entries_id())
                && list.deep_view() == parsed_entries(
                padded_units(self.vars()[entries_id()].0),
            ),
            r matches Err(e) ==> match e {
                Error::NotSet { name } => !self.vars().contains_key(entries_id()) && name@
                    == entries_id().0,
                Error::SizeExceeded { name, attempted_bytes } => {
                    &&& self.vars().contains_key(entries_id())
                    &&& self.vars()[entries_id()].0.len() > MAX_PAYLOAD_BYTES
                    &&& name@ == entries_id().0
                    &&& attempted_bytes == MAX_PAYLOAD_BYTES
                },
                Error::Store { name, error } => name@ == entries_id().0 && !(error is NotFound)
                    && !(error is BufferTooSmall),
                _ => false,
            },
    {
        let id = VarId::new("LoaderEntries", SYSTEMD_BOOT_VENDOR);
        let (units, _flags) = match read_u16_bytes(&self.store, &id)? {
            Some(data) => data,
            None => {
                return Err(Error::NotSet { name: id.name });
            },
        };
        Ok(parse_entries(units.as_slice()))
    }
}

} // verus!
