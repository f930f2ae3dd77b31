use kernel::syscall::dispatch::{check_user_buffer, syscall_from_number, syscall_return, Syscall};
use kernel::qemu::ExitCode;
use kernel::smp::ExecutionContext;
use kernel::syscall::access::{sys_access, F_OK, R_OK};
use kernel::syscall::convert::{strlen_s, userspace_str_len, UserspaceAddress};
use kernel::syscall::errno::Errno;
use kernel::process::attributes::IdCounter;
use kernel::vfs::{bytes_eq, component_kind, find_entry, str_eq, CloseError, ComponentKind, HandleTable};
use kernel::time::{timestamp_now, timestamp_parts, HpetClock};

#[test]
fn exit_codes() {
    assert_eq!(ExitCode::Success.code(), 0x10);
    assert_eq!(ExitCode::Failed.code(), 0x11);
}

#[test]
fn execution_context() {
    let ctx = ExecutionContext::from_cpu(3, 7);
    assert_eq!(ctx.cpu_id(), 3);
    assert_eq!(ctx.lapic_id(), 7);
}

#[test]
fn access_answers() {
    assert_eq!(sys_access(F_OK, true), Errno::OK);
    assert_eq!(sys_access(F_OK, false), Errno::ENOENT);
    assert_eq!(sys_access(R_OK, true), Errno::ENOSYS);
    assert_eq!(Errno::ENOSYS.as_isize(), -38);
    assert_eq!(Errno::OK.as_isize(), 0);
}

#[test]
fn userspace_addresses() {
    assert_eq!(UserspaceAddress::try_from(0x1000).unwrap().as_u64(), 0x1000);
    assert!(UserspaceAddress::try_from(0x7FFF_FFFF_FFFF).is_ok());
    assert!(UserspaceAddress::try_from(0x8000_0000_0000).is_err());
    assert_eq!(strlen_s(b"abc\0def", 10), Some(3));
    assert_eq!(strlen_s(b"abc\0def", 3), None);
    assert_eq!(strlen_s(b"", 3), None);
    assert_eq!(userspace_str_len(b"/bin\0"), Ok(4));
    assert_eq!(userspace_str_len(&[b'a'; 300]), Err(Errno::ENAMETOOLONG));
}

#[test]
fn clock_and_timestamps() {
    // 14.318 MHz HPET: a period of 69_841_279 fs
    assert_eq!(HpetClock::nanos(1_000_000, 69_841_279), Some(69_841_279_000_000 / 1_000_000));
    assert_eq!(HpetClock::nanos(0, 69_841_279), Some(0));
    assert_eq!(HpetClock::nanos(u64::MAX, u64::MAX), None);
    assert_eq!(timestamp_parts(1_700_000_000, 2_500_000_000), (1_700_000_002, 500_000_000));
    let ts = timestamp_now(1_700_000_000, 2_500_000_000).unwrap();
    assert_eq!(ts.as_second(), 1_700_000_002);
    assert_eq!(ts.subsec_nanosecond(), 500_000_000);
    assert!(timestamp_now(253_402_207_201, 0).is_none());
    assert!(timestamp_now(253_402_207_200, 999_999_999).is_some());
}

#[test]
fn path_components() {
    assert_eq!(component_kind("/"), ComponentKind::Root);
    assert_eq!(component_kind("."), ComponentKind::Current);
    assert_eq!(component_kind(".."), ComponentKind::Parent);
    assert_eq!(component_kind("..."), ComponentKind::Name);
    assert_eq!(component_kind("bin"), ComponentKind::Name);
    assert!(bytes_eq(b"abc", b"abc"));
    assert!(!bytes_eq(b"abc", b"abd"));
    assert!(!bytes_eq(b"ab", b"abc"));
    let names = vec![None, Some("lib".to_string()), Some("bin".to_string()), Some("bin".to_string())];
    assert_eq!(find_entry(&names, "bin"), Some(2));
    assert_eq!(find_entry(&names, "etc"), None);
}

#[test]
fn handle_table_shares_inode_of_same_path() {
    let mut table = HandleTable::new();
    let mut counter = IdCounter::new();
    let a = table.open("/bin/init", 12, &mut counter);
    let b = table.open("/bin/init", 99, &mut counter);
    let c = table.open("/etc/motd", 40, &mut counter);
    assert_eq!((a, b, c), (0, 1, 2));
    assert_eq!(table.inode_of(a), Some(12));
    assert_eq!(table.inode_of(b), Some(12));
    assert_eq!(table.inode_of(c), Some(40));
    assert_eq!(table.find_path("/bin/init"), Some(12));
    assert_eq!(table.find_path("/nope"), None);
}

#[test]
fn handle_table_close() {
    let mut table = HandleTable::new();
    let mut counter = IdCounter::new();
    let a = table.open("/a", 1, &mut counter);
    let b = table.open("/b", 2, &mut counter);
    assert_eq!(table.close(a), Ok(()));
    assert_eq!(table.close(a), Err(CloseError::NotOpen));
    assert_eq!(table.inode_of(a), None);
    assert_eq!(table.inode_of(b), Some(2));
    assert_eq!(table.find_path("/a"), None);
    assert_eq!(table.close(77), Err(CloseError::NotOpen));
}

#[test]
fn strings_compare_by_content() {
    assert!(str_eq("abc", "abc"));
    assert!(!str_eq("abc", "abd"));
    assert!(!str_eq("ab", "abc"));
}

#[test]
fn syscall_numbers_and_results() {
    assert_eq!(syscall_from_number(0), Ok(Syscall::Read));
    assert_eq!(syscall_from_number(1), Ok(Syscall::Write));
    assert_eq!(syscall_from_number(2), Ok(Syscall::Open));
    assert_eq!(syscall_from_number(3), Ok(Syscall::Close));
    assert_eq!(syscall_from_number(21), Ok(Syscall::Access));
    assert_eq!(syscall_from_number(60), Ok(Syscall::Exit));
    assert_eq!(syscall_from_number(4), Err(Errno::ENOSYS));
    assert_eq!(check_user_buffer(0x1000, 16).map(|a| a.as_u64()), Ok(0x1000));
    assert_eq!(check_user_buffer(0, 16).map(|a| a.as_u64()), Err(Errno::EINVAL));
    assert_eq!(check_user_buffer(0x1000, 0).map(|a| a.as_u64()), Err(Errno::EINVAL));
    assert_eq!(check_user_buffer(0xFFFF_8000_0000_0000, 16).map(|a| a.as_u64()), Err(Errno::EINVAL));
    assert_eq!(syscall_return(Ok(7)), 7);
    assert_eq!(syscall_return(Err(Errno::ENOSYS)), -38);
}
