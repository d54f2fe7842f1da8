//! Error returns: the negated Linux error number as a 64-bit register value.

use vstd::prelude::*;

verus! {

/// The register value that reports error number `n`.
pub open spec fn error_return(n: int) -> int {
    0x1_0000_0000_0000_0000 - n
}

/// `-2`: no such file.
pub const ENOENT: u64 = 0xffff_ffff_ffff_fffe;

/// `-8`: not an executable image.
pub const ENOEXEC: u64 = 0xffff_ffff_ffff_fff8;

/// `-9`: bad file descriptor.
pub const EBADF: u64 = 0xffff_ffff_ffff_fff7;

/// `-11`: try again.
pub const EAGAIN: u64 = 0xffff_ffff_ffff_fff5;

/// `-12`: out of memory.
pub const ENOMEM: u64 = 0xffff_ffff_ffff_fff4;

/// `-14`: bad address.
pub const EFAULT: u64 = 0xffff_ffff_ffff_fff2;

/// `-22`: invalid argument.
pub const EINVAL: u64 = 0xffff_ffff_ffff_ffea;

/// `-28`: no space.
pub const ENOSPC: u64 = 0xffff_ffff_ffff_ffe4;

/// `-38`: no such system call.
pub const ENOSYS: u64 = 0xffff_ffff_ffff_ffda;

/// Every constant is the return value of its Linux error number.
pub proof fn law_error_numbers()
    ensures
        ENOENT == error_return(2),
        ENOEXEC == error_return(8),
        EBADF == error_return(9),
        EAGAIN == error_return(11),
        ENOMEM == error_return(12),
        EFAULT == error_return(14),
        EINVAL == error_return(22),
        ENOSPC == error_return(28),
        ENOSYS == error_return(38),
{
}

/// Every constant is a register that holds a negated error number: adding the number gives zero.
pub proof fn law_error_values_negate()
    ensures
        ENOENT + 2 == u64::MAX + 1,
        ENOEXEC + 8 == u64::MAX + 1,
        EBADF + 9 == u64::MAX + 1,
        EAGAIN + 11 == u64::MAX + 1,
        ENOMEM + 12 == u64::MAX + 1,
        EFAULT + 14 == u64::MAX + 1,
        EINVAL + 22 == u64::MAX + 1,
        ENOSPC + 28 == u64::MAX + 1,
        ENOSYS + 38 == u64::MAX + 1,
{
}

} // verus!
