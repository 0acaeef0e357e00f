//! Finding the physical Pro Controller.
use crate::gadget::{PRODUCT_ID, VENDOR_ID};
use crate::text;
use vstd::prelude::*;

verus! {

/// Wait between attempts to find the controller again, in milliseconds.
pub const RECONNECT_DELAY_MS: u64 = 500;

/// Longest wait for the controller to come back after a reset, in nanoseconds.
pub const RESET_TIMEOUT_NS: u64 = 10_000_000_000;

/// Time the system takes to set a controller up once it is back, in milliseconds.
pub const SETTLE_TIME_MS: u64 = 2000;

/// Whether these are the Pro Controller's numbers.
pub fn is_controller(vendor: u16, product: u16) -> (r: bool)
    ensures
        r == (vendor == 0x057e && product == 0x2009),
{
    vendor == VENDOR_ID && product == PRODUCT_ID
}

/// The 16-bit hexadecimal number of an id file.
pub open spec fn id_value(content: Option<String>) -> Option<nat> {
    match content {
        Some(s) => text::number(text::trimmed(s@), 16, 0xffff),
        None => None,
    }
}

/// Whether an id file holds a number.
fn id_is(content: &Option<String>, id: u16) -> (r: bool)
    ensures
        r == (id_value(*content) == Some(id as nat)),
{
    match content {
        Some(s) => {
            let t = text::trim(s.as_str());
            text::parse_number(t.as_str(), 16, 0xffff) == Some(id as u64)
        },
        None => false,
    }
}

/// The contents of a USB device's two id files, where they can be read.
#[derive(Clone, Debug)]
pub struct UsbIds {
    pub vendor: Option<String>,
    pub product: Option<String>,
}

/// Whether a device is the Pro Controller by its id files.
pub open spec fn ids_match(d: UsbIds) -> bool {
    id_value(d.vendor) == Some(0x057enat) && id_value(d.product) == Some(0x2009nat)
}

/// The place of the controller among USB devices.
pub fn find_controller(devices: &Vec<UsbIds>) -> (r: Option<usize>)
    ensures
        match r {
            Some(i) => i < devices@.len() && ids_match(devices@[i as int]) && forall|j: int|
                0 <= j < i ==> !ids_match(#[trigger] devices@[j]),
            None => forall|j: int| 0 <= j < devices@.len() ==> !ids_match(#[trigger] devices@[j]),
        },
{
    let mut i: usize = 0;
    while i < devices.len()
        invariant
            i <= devices@.len(),
            forall|j: int| 0 <= j < i ==> !ids_match(#[trigger] devices@[j]),
        decreases devices@.len() - i,
    {
        if id_is(&devices[i].vendor, VENDOR_ID) && id_is(&devices[i].product, PRODUCT_ID) {
            return Some(i);
        }
        i += 1;
    }
    None
}

/// Whether to give up waiting for the controller after a reset.
pub fn reset_timed_out(elapsed_ns: u64) -> (r: bool)
    ensures
        r == (elapsed_ns > RESET_TIMEOUT_NS),
        r == (elapsed_ns > 10_000_000_000),
{
    elapsed_ns > RESET_TIMEOUT_NS
}

/// A device is the controller when its two files hold the numbers 057e and 2009,
/// with nothing but space round them; a file that is missing is no number.
pub proof fn law_controllers_have_their_numbers(d: UsbIds)
    ensures
        ids_match(d) == ((d.vendor matches Some(v) && text::number(text::trimmed(v@), 16, 65535)
            == Some(0x057enat)) && (d.product matches Some(p) && text::number(
            text::trimmed(p@),
            16,
            65535,
        ) == Some(0x2009nat))),
{
}

} // verus!
