//! USB remote wakeup through the DWC2 device controller's registers.
use crate::text;
use vstd::prelude::*;

verus! {

/// Offset of the core's id register; its top half reads `OT` on DWC2 cores.
pub const GSNPSID: usize = 0x040;

/// Offset of the device control register; bit 0 signals remote wakeup.
pub const DCTL: usize = 0x804;

/// Offset of the device status register; bit 0 is set while the bus is suspended.
pub const DSTS: usize = 0x808;

/// How long to signal resume, in milliseconds; USB allows 1 to 15.
pub const SIGNAL_TIME_MS: u64 = 10;

/// Bytes of registers that are mapped.
pub const MAP_SIZE: usize = 4096;

/// A controller's device status, as last read.
#[derive(Clone, Copy, Debug, PartialEq, Eq, Structural)]
pub struct RemoteWakeup {
    pub status: u32,
}

/// The register address in a UDC's name: the hexadecimal number before its
/// first dot.
pub open spec fn address_in(name: Seq<char>) -> Option<nat> {
    let hex = match text::parted(name, '.') {
        Some(p) => p.0,
        None => name,
    };
    text::number(hex, 16, usize::MAX as nat)
}

/// The register address in a UDC's name, like `fe980000.usb`.
pub fn register_base(udc_name: &str) -> (r: Option<usize>)
    ensures
        match r {
            Some(a) => address_in(udc_name@) == Some(a as nat),
            None => address_in(udc_name@) is None,
        },
{
    let hex = match text::split_once(udc_name, '.') {
        Some(p) => p.0,
        None => udc_name.to_owned(),
    };
    match text::parse_number(hex.as_str(), 16, usize::MAX as u64) {
        Some(v) => Some(v as usize),
        None => None,
    }
}

/// Whether an id register is a DWC2 core's.
pub fn is_dwc2(id: u32) -> (r: bool)
    ensures
        r == (id / 0x10000 == 0x4f54),
{
    id / 0x10000 == 0x4f54
}

impl RemoteWakeup {
    /// The host has suspended the bus, as a sleeping console does.
    pub fn bus_suspended(&self) -> (r: bool)
        ensures
            r == (self.status % 2 == 1),
    {
        self.status % 2 == 1
    }

    /// Whether to signal resume: only while the bus is suspended.
    pub fn wake(&self) -> (r: bool)
        ensures
            r == (self.status % 2 == 1),
    {
        self.bus_suspended()
    }
}

/// The device control register with remote wakeup signalled.
pub fn signalling(dctl: u32) -> (r: u32)
    ensures
        r == dctl | 1,
        r % 2 == 1,
        r / 2 == dctl / 2,
{
    assert((dctl | 1) % 2 == 1 && (dctl | 1) / 2 == dctl / 2) by (bit_vector);
    dctl | 1
}

/// The device control register with remote wakeup no longer signalled.
pub fn released(dctl: u32) -> (r: u32)
    ensures
        r == dctl & !1u32,
        r % 2 == 0,
        r / 2 == dctl / 2,
{
    assert((dctl & !1u32) % 2 == 0 && (dctl & !1u32) / 2 == dctl / 2) by (bit_vector);
    dctl & !1u32
}

/// The address stands before the first dot of the name, in hexadecimal digits.
pub proof fn law_address_before_the_dot(hex: Seq<char>, rest: Seq<char>)
    requires
        !hex.contains('.'),
    ensures
        address_in(hex + seq!['.'] + rest) == text::number(hex, 16, usize::MAX as nat),
        address_in(hex) == text::number(hex, 16, usize::MAX as nat),
{
    let name = hex + seq!['.'] + rest;
    crate::text_laws::law_parted_rejoins(hex, '.');
    crate::text_laws::law_parted_rejoins(name, '.');
    if let Some(p) = text::parted(hex, '.') {
        assert(hex[p.0.len() as int] == '.');
        assert(hex.contains(hex[p.0.len() as int]));
    }
    assert(name[hex.len() as int] == '.');
    assert(name.contains(name[hex.len() as int]));
    let p = text::parted(name, '.')->0;
    assert(name == p.0.push('.') + p.1);
    let n = p.0.len() as int;
    if n < hex.len() {
        assert(name[n] == hex[n]);
        assert((p.0.push('.') + p.1)[n] == '.');
        assert(hex.contains(hex[n]));
    } else if n > hex.len() {
        assert((p.0.push('.') + p.1)[hex.len() as int] == p.0[hex.len() as int]);
        assert(p.0.contains(p.0[hex.len() as int]));
    }
    assert(p.0 =~= hex) by {
        assert forall|i: int| 0 <= i < n implies p.0[i] == hex[i] by {
            assert(name[i] == hex[i]);
            assert((p.0.push('.') + p.1)[i] == p.0[i]);
        }
    }
}

} // verus!
