//! Numbers and layouts that Darwin's interface requests need.

use super::PlatformError;
use vstd::prelude::*;
use vstd::string::StringSliceAdditionalSpecFns;

verus! {

/// The room for an interface name, with the NUL that ends it.
pub const IFNAMSIZ: usize = 16;

/// The size of the request that adds an address.
pub const IN6_ALIASREQ_SIZE: u64 = 128;

/// The size of the request that removes an address.
pub const IN6_IFREQ_SIZE: u64 = 288;

/// The number of the request that adds an address to an interface.
pub const SIOCAIFADDR_IN6: u64 = 0x8080_691a;

/// The number of the request that removes an address from an interface.
pub const SIOCDIFADDR_IN6: u64 = 0x8120_6919;

/// No such device or address.
pub const ENXIO: i32 = 6;

/// No such device.
pub const ENODEV: i32 = 19;

/// The number of a request that hands `size` bytes to the kernel: the
/// direction, the size in thirteen bits, the group and the number of the
/// request within it.
pub open spec fn write_request(group: u8, number: u8, size: u64) -> int {
    0x8000_0000 + (size as int % 0x2000) * 0x1_0000 + group as int * 0x100 + number as int
}

/// The number of a request that hands `size` bytes to the kernel.
pub fn iow(group: u8, number: u8, size: u64) -> (n: u64)
    ensures
        n == write_request(group, number, size),
{
    0x8000_0000u64 + (size % 0x2000) * 0x1_0000 + group as u64 * 0x100 + number as u64
}

/// The two requests are numbers 26 and 25 of the group `i`, with the sizes of
/// their arguments.
pub proof fn law_request_numbers()
    ensures
        SIOCAIFADDR_IN6 == write_request(0x69, 26, IN6_ALIASREQ_SIZE),
        SIOCDIFADDR_IN6 == write_request(0x69, 25, IN6_IFREQ_SIZE),
{
}

/// The name as it stands in a request: its bytes, then zeros.
pub open spec fn padded(bytes: Seq<u8>) -> Seq<u8> {
    Seq::new(
        IFNAMSIZ as nat,
        |i: int|
            if i < bytes.len() {
                bytes[i]
            } else {
                0
            },
    )
}

/// Writes the name of an interface into a request. A name that leaves no room
/// for the NUL at its end cannot be that of an interface.
pub fn copy_ifname(dst: &mut [u8; 16], name: &str) -> (r: Result<(), PlatformError>)
    ensures
        r is Ok <==> name.spec_bytes().len() < IFNAMSIZ,
        r is Ok ==> final(dst)@ == padded(name.spec_bytes()),
        r is Err ==> *final(dst) == *old(dst),
        r matches Err(e) ==> (e matches PlatformError::NotFound(n) && n@ == name@),
{
    let bytes = name.as_bytes();
    if bytes.len() >= IFNAMSIZ {
        return Err(PlatformError::NotFound(name.to_owned()));
    }
    let mut i: usize = 0;
    while i < 16
        invariant
            i <= 16,
            bytes.len() < IFNAMSIZ,
            forall|j: int| 0 <= j < i ==> #[trigger] dst@[j] == padded(bytes@)[j],
        decreases 16 - i,
    {
        dst[i] = if i < bytes.len() {
            bytes[i]
        } else {
            0
        };
        i = i + 1;
    }
    assert(dst@ =~= padded(bytes@));
    Ok(())
}

/// What a request that failed on an interface means: without the device the
/// interface is not there, anything else is the system's own trouble.
pub fn request_failed(errno: Option<i32>, name: &str, why: String) -> (e: PlatformError)
    ensures
        match errno {
            Some(n) => if n == ENXIO || n == ENODEV {
                e matches PlatformError::NotFound(x) && x@ == name@
            } else {
                e == PlatformError::Os(why)
            },
            None => e == PlatformError::Os(why),
        },
{
    match errno {
        Some(n) => if n == ENXIO || n == ENODEV {
            PlatformError::NotFound(name.to_owned())
        } else {
            PlatformError::Os(why)
        },
        None => PlatformError::Os(why),
    }
}

} // verus!
