//! Addresses and page-table flags as the `x86_64` crate defines them, on plain
//! integers.
use vstd::prelude::*;
use x86_64::structures::paging::{Page, PageTableFlags, PhysFrame as OutsideFrame, Size4KiB};
use x86_64::{PhysAddr, VirtAddr};

verus! {

/// First value that is no physical address.
pub const PHYS_LIMIT: u64 = 0x0010_0000_0000_0000;

/// The address is canonical: bits 48 to 63 repeat bit 47.
pub open spec fn canonical(addr: u64) -> bool {
    addr < 0x0000_8000_0000_0000 || addr >= 0xFFFF_8000_0000_0000
}

/// Start of the frame that holds a physical address.
///
/// Calls `PhysAddr::new`, `PhysFrame::<Size4KiB>::containing_address` and
/// `PhysFrame::start_address` of `x86_64`: the address is aligned down to 4096
/// bytes. `PhysAddr::new` panics on an address with one of the bits 52 to 63 set,
/// which `requires` leaves out.
#[verifier::external_body]
pub(crate) fn frame_start(addr: u64) -> (r: u64)
    requires
        addr < PHYS_LIMIT,
    ensures
        r == addr - addr % 4096,
{
    OutsideFrame::<Size4KiB>::containing_address(PhysAddr::new(addr)).start_address().as_u64()
}

/// Start of the page that holds a virtual address.
///
/// Calls `VirtAddr::new`, `Page::<Size4KiB>::containing_address` and
/// `Page::start_address` of `x86_64`: the address is aligned down to 4096 bytes.
/// `VirtAddr::new` panics on an address that is not canonical, which `requires`
/// leaves out.
#[verifier::external_body]
pub(crate) fn page_start(addr: u64) -> (r: u64)
    requires
        canonical(addr),
    ensures
        r == addr - addr % 4096,
{
    Page::<Size4KiB>::containing_address(VirtAddr::new(addr)).start_address().as_u64()
}

/// The flag that marks a page as present: `PageTableFlags::PRESENT` of `x86_64`,
/// which is bit 0.
#[verifier::external_body]
pub(crate) fn present_flag() -> (r: u64)
    ensures
        r == 0x1,
{
    PageTableFlags::PRESENT.bits()
}

/// The flag that allows writes: `PageTableFlags::WRITABLE` of `x86_64`, which is
/// bit 1.
#[verifier::external_body]
pub(crate) fn writable_flag() -> (r: u64)
    ensures
        r == 0x2,
{
    PageTableFlags::WRITABLE.bits()
}

/// The flag that allows access from user mode: `PageTableFlags::USER_ACCESSIBLE`
/// of `x86_64`, which is bit 2.
#[verifier::external_body]
pub(crate) fn user_flag() -> (r: u64)
    ensures
        r == 0x4,
{
    PageTableFlags::USER_ACCESSIBLE.bits()
}

/// The flag that forbids execution: `PageTableFlags::NO_EXECUTE` of `x86_64`,
/// which is bit 63.
#[verifier::external_body]
pub(crate) fn no_execute_flag() -> (r: u64)
    ensures
        r == 0x8000_0000_0000_0000,
{
    PageTableFlags::NO_EXECUTE.bits()
}

/// All bits that are flags of a page-table entry: 0 to 11 and 52 to 63.
pub const FLAG_BITS: u64 = 0xFFF0_0000_0000_0FFF;

/// The flags among the bits of a number.
///
/// Calls `PageTableFlags::from_bits_truncate` of `x86_64`, which drops the bits that
/// are no flag.
#[verifier::external_body]
pub(crate) fn known_flags(bits: u64) -> (r: u64)
    ensures
        r == bits & FLAG_BITS,
{
    PageTableFlags::from_bits_truncate(bits).bits()
}

} // verus!
