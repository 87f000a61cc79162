//! The seam between the generic driver logic and a specific environment.
use vstd::prelude::*;

use crate::hda::controller::Write;

verus! {

/// A block of memory suitable for controller DMA (CORB, RIRB, buffer
/// descriptor lists, and sample data): physically contiguous, and mapped so
/// the CPU reaches it at `cpu_addr` while the controller reaches it at
/// `phys_addr`. The driver itself never dereferences `cpu_addr`; it goes
/// through [`Platform::dma_read32`] and [`Platform::dma_write32`].
pub struct DmaBuffer {
    pub cpu_addr: usize,
    pub phys_addr: u64,
    pub len: usize,
}

/// Everything the [`crate::hda::Controller`] needs from its environment:
/// access to the controller's memory-mapped registers (already resolved to
/// some base address by the caller -- this trait only ever sees offsets from
/// that base), access to DMA memory, a way to allocate DMA memory, and a way
/// to wait.
pub trait Platform {
    /// Every register and DMA write this platform has carried out, in
    /// order. An implementation keeps this record of its own writes; the
    /// driver's statements about what reached the controller are made over
    /// it.
    open spec fn written(&self) -> Seq<Write> {
        Seq::empty()
    }

    /// Every DMA allocation this platform has made, as the length and
    /// alignment asked for, in order.
    open spec fn allocated(&self) -> Seq<(usize, usize)> {
        Seq::empty()
    }

    /// A 32-bit read of the register at `offset` may give `value`. By
    /// default any value may come back, as from real hardware; a platform
    /// that knows its registers may say more.
    open spec fn reads32(&self, offset: u32, value: u32) -> bool {
        true
    }

    /// A 16-bit read of the register at `offset` may give `value` (any, by
    /// default).
    open spec fn reads16(&self, offset: u32, value: u16) -> bool {
        true
    }

    /// An 8-bit read of the register at `offset` may give `value` (any, by
    /// default).
    open spec fn reads8(&self, offset: u32, value: u8) -> bool {
        true
    }

    /// A read of the 32-bit word at byte `offset` of the DMA buffer at
    /// physical address `phys` may give `value` (any, by default).
    open spec fn dma_reads32(&self, phys: u64, offset: usize, value: u32) -> bool {
        true
    }

    fn mmio_read32(&self, offset: u32) -> (r: u32)
        ensures
            self.reads32(offset, r),
    ;

    fn mmio_write32(&mut self, offset: u32, value: u32)
        ensures
            final(self).written() == old(self).written().push(Write::Reg32(offset, value)),
            final(self).allocated() == old(self).allocated(),
    ;

    fn mmio_read16(&self, offset: u32) -> (r: u16)
        ensures
            self.reads16(offset, r),
    ;

    fn mmio_write16(&mut self, offset: u32, value: u16)
        ensures
            final(self).written() == old(self).written().push(Write::Reg16(offset, value)),
            final(self).allocated() == old(self).allocated(),
    ;

    fn mmio_read8(&self, offset: u32) -> (r: u8)
        ensures
            self.reads8(offset, r),
    ;

    fn mmio_write8(&mut self, offset: u32, value: u8)
        ensures
            final(self).written() == old(self).written().push(Write::Reg8(offset, value)),
            final(self).allocated() == old(self).allocated(),
    ;

    /// Busy-waits for at least `micros` microseconds.
    fn delay_us(&self, micros: u32);

    /// Allocates `len` zeroed bytes of DMA-capable memory, aligned to
    /// `align` bytes. Used for the CORB, RIRB, buffer descriptor lists, and
    /// PCM sample buffers, all of which the controller reaches via a
    /// physical address programmed into a register. The buffer lies within
    /// the 64-bit physical address space. Allocating writes nothing.
    fn alloc_dma(&mut self, len: usize, align: usize) -> (r: DmaBuffer)
        ensures
            r.len >= len,
            r.phys_addr + r.len <= u64::MAX + 1,
            align > 0 ==> r.phys_addr % (align as u64) == 0,
            final(self).written() == old(self).written(),
            final(self).allocated() == old(self).allocated().push((len, align)),
    ;

    /// Reads the 32-bit little-endian word at byte `offset` of `buf`.
    fn dma_read32(&self, buf: &DmaBuffer, offset: usize) -> (r: u32)
        requires
            offset + 4 <= buf.len,
        ensures
            self.dma_reads32(buf.phys_addr, offset, r),
    ;

    /// Writes the 32-bit little-endian word at byte `offset` of `buf`.
    fn dma_write32(&mut self, buf: &DmaBuffer, offset: usize, value: u32)
        requires
            offset + 4 <= buf.len,
        ensures
            final(self).written() == old(self).written().push(Write::Dma32(buf.phys_addr, offset, value)),
            final(self).allocated() == old(self).allocated(),
    ;
}

} // verus!
