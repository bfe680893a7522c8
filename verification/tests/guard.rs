use sdboot::attributes::{
    acquire_plan, fs_ioc_getflags, fs_ioc_setflags, AcquireAction, FileProbe, Guard,
    FS_IMMUTABLE_FL,
};

#[test]
fn ioctl_request_words() {
    // _IOR('f', 1, long) and _IOW('f', 2, long) on a 64-bit platform.
    assert_eq!(fs_ioc_getflags(), 0x8008_6601);
    assert_eq!(fs_ioc_setflags(), 0x4008_6602);
}

#[test]
fn acquire_on_clear_bit_needs_no_guard() {
    let probe = FileProbe::Present { flags: 0x4 };
    assert_eq!(acquire_plan(probe), AcquireAction::NoGuard);
}

#[test]
fn acquire_on_set_bit_clears_and_restores() {
    let flags = FS_IMMUTABLE_FL | 0x4;
    match acquire_plan(FileProbe::Present { flags }) {
        AcquireAction::ClearThenRestore { clear_to, guard } => {
            // The word applied for the write has only the immutable bit
            // cleared; the guard restores the captured original, with the
            // bit set again, however the bracketed write went.
            assert_eq!(clear_to, 0x4);
            assert_eq!(guard.restore_flags, flags);
            assert_ne!(guard.restore_flags & FS_IMMUTABLE_FL, 0);
        }
        other => panic!("expected a clear-then-restore plan, got {:?}", other),
    }
}

#[test]
fn acquire_on_missing_file_restores_immutability() {
    assert_eq!(
        acquire_plan(FileProbe::Missing),
        AcquireAction::RestoreOnly {
            guard: Guard { restore_flags: FS_IMMUTABLE_FL }
        }
    );
}
