use xenstore_win::ioctl::{ctl_code, XenifaceIoctl};

const UNKNOWN_DEVICE: u32 = 0x22;

#[test]
fn ctl_code_packs_fields() {
    assert_eq!(ctl_code(0x22, 0x800, 0, 0), 0x0022_2000);
    assert_eq!(ctl_code(0x1, 0x2, 0x3, 0x1), 0x0001_400b);
    assert_eq!(ctl_code(0xffff, 0xfff, 3, 3), 0xffff_ffff);
}

#[test]
fn store_codes_match_driver() {
    assert_eq!(XenifaceIoctl::StoreRead.code(UNKNOWN_DEVICE, 0, 0), 0x0022_2000);
    assert_eq!(XenifaceIoctl::StoreWrite.code(UNKNOWN_DEVICE, 0, 0), 0x0022_2004);
    assert_eq!(XenifaceIoctl::StoreDirectory.code(UNKNOWN_DEVICE, 0, 0), 0x0022_2008);
    assert_eq!(XenifaceIoctl::StoreRemove.code(UNKNOWN_DEVICE, 0, 0), 0x0022_200c);
    assert_eq!(XenifaceIoctl::StoreAddWatch.code(UNKNOWN_DEVICE, 0, 0), 0x0022_2014);
    assert_eq!(XenifaceIoctl::StoreRemoveWatch.code(UNKNOWN_DEVICE, 0, 0), 0x0022_2018);
    assert_eq!(XenifaceIoctl::SuspendRegister.code(UNKNOWN_DEVICE, 0, 0), 0x0022_20c4);
    assert_eq!(XenifaceIoctl::SuspendDeregister.code(UNKNOWN_DEVICE, 0, 0), 0x0022_20c8);
}

#[test]
fn codes_are_distinct_and_decode() {
    let all = [
        XenifaceIoctl::StoreRead,
        XenifaceIoctl::StoreWrite,
        XenifaceIoctl::StoreDirectory,
        XenifaceIoctl::StoreRemove,
        XenifaceIoctl::StoreAddWatch,
        XenifaceIoctl::StoreRemoveWatch,
        XenifaceIoctl::SuspendRegister,
        XenifaceIoctl::SuspendDeregister,
    ];
    for (i, a) in all.iter().enumerate() {
        let code = a.code(UNKNOWN_DEVICE, 0, 0);
        assert_eq!((code >> 2) & 0xfff, a.function_number());
        assert_eq!(code >> 16, UNKNOWN_DEVICE);
        for b in all.iter().skip(i + 1) {
            assert_ne!(code, b.code(UNKNOWN_DEVICE, 0, 0));
        }
    }
}
