//! I/O control codes of the xeniface driver.
use vstd::prelude::*;

verus! {

/// A Windows I/O control code: device type, required access, function and
/// transfer method packed into one 32-bit value (the `CTL_CODE` macro of the
/// Windows headers).
pub open spec fn ctl_code_spec(device_type: u32, function: u32, method: u32, access: u32) -> u32 {
    (device_type << 16u32) | (access << 14u32) | (function << 2u32) | method
}

/// Packs the fields of an I/O control code.
pub fn ctl_code(device_type: u32, function: u32, method: u32, access: u32) -> (code: u32)
    ensures
        code == ctl_code_spec(device_type, function, method, access),
{
    (device_type << 16u32) | (access << 14u32) | (function << 2u32) | method
}

/// Each field of a control code, packed from fields within their widths, is
/// read back from the code: the fields do not overlap.
pub proof fn lemma_ctl_code_fields(device_type: u32, function: u32, method: u32, access: u32)
    requires
        device_type < 0x10000,
        function < 0x1000,
        method < 4,
        access < 4,
    ensures
        ctl_code_spec(device_type, function, method, access) >> 16u32 == device_type,
        (ctl_code_spec(device_type, function, method, access) >> 14u32) & 3u32 == access,
        (ctl_code_spec(device_type, function, method, access) >> 2u32) & 0xfffu32 == function,
        ctl_code_spec(device_type, function, method, access) & 3u32 == method,
{
    assert((((device_type << 16u32) | (access << 14u32) | (function << 2u32) | method) >> 16u32
        == device_type) && ((((device_type << 16u32) | (access << 14u32) | (function << 2u32)
        | method) >> 14u32) & 3u32 == access) && ((((device_type << 16u32) | (access << 14u32) | (
    function << 2u32) | method) >> 2u32) & 0xfffu32 == function) && (((device_type << 16u32) | (
    access << 14u32) | (function << 2u32) | method) & 3u32 == method)) by (bit_vector)
        requires
            device_type < 0x10000,
            function < 0x1000,
            method < 4,
            access < 4,
    ;
}

/// The requests that the xeniface driver serves.
#[derive(Clone, Copy, Debug, PartialEq, Eq)]
pub enum XenifaceIoctl {
    StoreRead,
    StoreWrite,
    StoreDirectory,
    StoreRemove,
    StoreAddWatch,
    StoreRemoveWatch,
    SuspendRegister,
    SuspendDeregister,
}

impl XenifaceIoctl {
    /// The driver's function number of the request.
    pub open spec fn function(self) -> u32 {
        match self {
            XenifaceIoctl::StoreRead => 0x800,
            XenifaceIoctl::StoreWrite => 0x801,
            XenifaceIoctl::StoreDirectory => 0x802,
            XenifaceIoctl::StoreRemove => 0x803,
            XenifaceIoctl::StoreAddWatch => 0x805,
            XenifaceIoctl::StoreRemoveWatch => 0x806,
            XenifaceIoctl::SuspendRegister => 0x831,
            XenifaceIoctl::SuspendDeregister => 0x832,
        }
    }

    /// Gives the driver's function number of the request.
    pub fn function_number(self) -> (function: u32)
        ensures
            function == self.function(),
    {
        match self {
            XenifaceIoctl::StoreRead => 0x800,
            XenifaceIoctl::StoreWrite => 0x801,
            XenifaceIoctl::StoreDirectory => 0x802,
            XenifaceIoctl::StoreRemove => 0x803,
            XenifaceIoctl::StoreAddWatch => 0x805,
            XenifaceIoctl::StoreRemoveWatch => 0x806,
            XenifaceIoctl::SuspendRegister => 0x831,
            XenifaceIoctl::SuspendDeregister => 0x832,
        }
    }

    /// Computes the control code of the request for a device of type
    /// `device_type`, sent with transfer `method` and required `access`.
    pub fn code(self, device_type: u32, method: u32, access: u32) -> (code: u32)
        ensures
            code == ctl_code_spec(device_type, self.function(), method, access),
    {
        ctl_code(device_type, self.function_number(), method, access)
    }
}

/// Two different requests are sent under two different control codes (for
/// the same device type, method and access), and the driver reads back each
/// request's function number from its code.
pub proof fn lemma_ioctl_codes_distinct(
    a: XenifaceIoctl,
    b: XenifaceIoctl,
    device_type: u32,
    method: u32,
    access: u32,
)
    requires
        device_type < 0x10000,
        method < 4,
        access < 4,
    ensures
        (ctl_code_spec(device_type, a.function(), method, access) >> 2u32) & 0xfffu32
            == a.function(),
        a != b ==> ctl_code_spec(device_type, a.function(), method, access) != ctl_code_spec(
            device_type,
            b.function(),
            method,
            access,
        ),
{
    lemma_ctl_code_fields(device_type, a.function(), method, access);
    lemma_ctl_code_fields(device_type, b.function(), method, access);
}

} // verus!
