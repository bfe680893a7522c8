//! Planning the temporary clearing of a file's immutable bit around a
//! variable write.
//!
//! Platforms that expose variables as files mark them with an immutable
//! inode flag, which must be cleared before a write and restored when the
//! write has finished, whether it succeeded or not. The decisions are made
//! here from plain values; the platform backend performs the
//! control-channel calls that probe and apply flag words.

use vstd::prelude::*;

verus! {

/// Inode flag marking an immutable file.
pub const FS_IMMUTABLE_FL: u32 = 0x10;

/// Whether an ioctl request reads or writes its parameter.
#[derive(Clone, Copy, Debug, PartialEq, Eq, Structural)]
pub enum Direction {
    /// The request writes its parameter.
    Write,
    /// The request reads its parameter.
    Read,
}

/// The access-mode bits of a request direction.
pub open spec fn direction_value(d: Direction) -> u64 {
    match d {
        Direction::Write => 1,
        Direction::Read => 2,
    }
}

impl Direction {
    /// Returns the access-mode bits of the direction.
    pub fn as_value(self) -> (r: u64)
        ensures
            r == direction_value(self),
    {
        match self {
            Direction::Write => 1,
            Direction::Read => 2,
        }
    }
}

/// An ioctl request word: the command number in the low 8 bits, the
/// command type in the next 8, the parameter size in the 14 bits above
/// them, and the access mode in the top 2 bits. The parameter of both flag
/// requests is one 8-byte word.
pub open spec fn spec_ioctl_request(direction: Direction, number: u64, type_: u64) -> u64 {
    (direction_value(direction) << 30) | (type_ << 8) | (number << 0) | (8u64 << 16)
}

/// Composes an ioctl request word from the given parameters.
pub fn make_ioctl_request(direction: Direction, number: u64, type_: u64) -> (r: u64)
    ensures
        r == spec_ioctl_request(direction, number, type_),
{
    let d = direction.as_value();
    (d << 30) | (type_ << 8) | (number << 0) | (8u64 << 16)
}

/// Returns the request word that reads a file's inode flags.
pub fn fs_ioc_getflags() -> (r: u64)
    ensures
        r == spec_ioctl_request(Direction::Read, 1, 0x66),
{
    make_ioctl_request(Direction::Read, 1, 0x66)
}

/// Returns the request word that sets a file's inode flags.
pub fn fs_ioc_setflags() -> (r: u64)
    ensures
        r == spec_ioctl_request(Direction::Write, 2, 0x66),
{
    make_ioctl_request(Direction::Write, 2, 0x66)
}

/// What probing the backing file found.
#[derive(Clone, Copy, Debug, PartialEq, Eq, Structural)]
pub enum FileProbe {
    /// The file does not exist yet; the bracketed write may create it.
    Missing,
    /// The file exists and carries this inode flag word.
    Present { flags: u32 },
}

/// A pending restoration: the inode flag word to apply, by reopening the
/// path, once the bracketed write has finished — on the error path too.
#[derive(Clone, Copy, Debug, PartialEq, Eq, Structural)]
pub struct Guard {
    /// The flag word to restore on release.
    pub restore_flags: u32,
}

/// What acquiring mutability decides.
#[derive(Clone, Copy, Debug, PartialEq, Eq, Structural)]
pub enum AcquireAction {
    /// The immutable bit is not set: nothing to clear, nothing to restore.
    NoGuard,
    /// The file is missing: nothing to clear, but the write may create the
    /// file, so the guard applies the immutable bit on release.
    RestoreOnly {
        /// The pending restoration.
        guard: Guard,
    },
    /// The immutable bit is set: apply `clear_to` before the write, and
    /// restore the captured original word on release.
    ClearThenRestore {
        /// The flag word with the immutable bit cleared, to apply first.
        clear_to: u32,
        /// The pending restoration of the original word.
        guard: Guard,
    },
}

/// The decision taken on a probe of the backing file.
pub open spec fn spec_acquire_plan(probe: FileProbe) -> AcquireAction {
    match probe {
        FileProbe::Missing => AcquireAction::RestoreOnly {
            guard: Guard { restore_flags: FS_IMMUTABLE_FL },
        },
        FileProbe::Present { flags } => if flags & FS_IMMUTABLE_FL == 0 {
            AcquireAction::NoGuard
        } else {
            AcquireAction::ClearThenRestore {
                clear_to: flags ^ FS_IMMUTABLE_FL,
                guard: Guard { restore_flags: flags },
            }
        },
    }
}

/// Decides how to make the file at a variable's backing path mutable for
/// one write: see [`spec_acquire_plan`] and [`AcquireAction`].
pub fn acquire_plan(probe: FileProbe) -> (r: AcquireAction)
    ensures
        r == spec_acquire_plan(probe),
{
    match probe {
        FileProbe::Missing => AcquireAction::RestoreOnly {
            guard: Guard { restore_flags: FS_IMMUTABLE_FL },
        },
        FileProbe::Present { flags } => {
            if flags & FS_IMMUTABLE_FL == 0 {
                AcquireAction::NoGuard
            } else {
                AcquireAction::ClearThenRestore {
                    clear_to: flags ^ FS_IMMUTABLE_FL,
                    guard: Guard { restore_flags: flags },
                }
            }
        },
    }
}

/// Law: the bracket leaves the immutable bit as it found it. On a file
/// whose flag word has the bit clear, acquisition takes no action at all.
/// On a file with the bit set, the word applied for the write differs from
/// the original in exactly the immutable bit, and the word the guard
/// restores is the captured original — whatever the bracketed write did in
/// between does not change it.
pub proof fn lemma_guard_idempotent(flags: u32)
    ensures
        flags & FS_IMMUTABLE_FL == 0 ==> spec_acquire_plan(FileProbe::Present { flags })
            is NoGuard,
        flags & FS_IMMUTABLE_FL != 0 ==> {
            let action = spec_acquire_plan(FileProbe::Present { flags });
            &&& action matches AcquireAction::ClearThenRestore { clear_to, guard } && {
                &&& clear_to & FS_IMMUTABLE_FL == 0
                &&& clear_to | FS_IMMUTABLE_FL == flags
                &&& guard.restore_flags == flags
                &&& guard.restore_flags & FS_IMMUTABLE_FL != 0
            }
        },
{
    if flags & FS_IMMUTABLE_FL != 0 {
        assert(flags & 0x10u32 != 0 ==> ((flags ^ 0x10u32) & 0x10u32 == 0 && ((flags ^ 0x10u32)
            | 0x10u32) == flags)) by (bit_vector);
    }
}

} // verus!
