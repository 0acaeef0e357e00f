//! The USB gadget that stands for a Pro Controller.
use crate::text;
use vstd::prelude::*;

verus! {

/// Nintendo's vendor number.
pub const VENDOR_ID: u16 = 0x057e;

/// The Pro Controller's product number.
pub const PRODUCT_ID: u16 = 0x2009;

/// Bytes of a report.
pub const REPORT_LEN: u8 = 64;

/// The HID report descriptor: a game pad with 64-byte input reports 0x30 and
/// 64-byte output reports 0x10.
pub open spec fn hid_descriptor() -> Seq<u8> {
    seq![
        0x05u8, 0x01u8, 0x09u8, 0x05u8, 0xA1u8, 0x01u8,
        0x85u8, 0x30u8, 0x15u8, 0x00u8, 0x26u8, 0xFFu8, 0x00u8, 0x75u8, 0x08u8, 0x95u8, 0x40u8,
        0x09u8, 0x01u8, 0x81u8, 0x02u8,
        0x85u8, 0x10u8, 0x15u8, 0x00u8, 0x26u8, 0xFFu8, 0x00u8, 0x75u8, 0x08u8, 0x95u8, 0x40u8,
        0x09u8, 0x02u8, 0x91u8, 0x02u8,
        0xC0u8,
    ]
}

/// Create the bidirectional HID report descriptor.
pub fn create_bidirectional_hid_descriptor() -> (r: Vec<u8>)
    ensures
        r@ == hid_descriptor(),
{
    let r: Vec<u8> = vec![
        // Usage page (generic desktop), usage (game pad), collection (application)
        0x05, 0x01, 0x09, 0x05, 0xA1, 0x01,
        // Input report 0x30: 64 bytes of 0 to 255
        0x85, 0x30, 0x15, 0x00, 0x26, 0xFF, 0x00, 0x75, 0x08, 0x95, 0x40, 0x09, 0x01, 0x81, 0x02,
        // Output report 0x10: 64 bytes of 0 to 255
        0x85, 0x10, 0x15, 0x00, 0x26, 0xFF, 0x00, 0x75, 0x08, 0x95, 0x40, 0x09, 0x02, 0x91, 0x02,
        // End of the collection
        0xC0,
    ];
    assert(r@ =~= hid_descriptor());
    r
}

/// The path of a gadget device.
pub open spec fn hidg_path_of(i: nat) -> Seq<char> {
    "/dev/hidg"@ + text::decimal_text(i)
}

/// The path of a gadget device.
pub fn hidg_path(i: usize) -> (r: String)
    ensures
        r@ == hidg_path_of(i as nat),
{
    let mut path = "/dev/hidg".to_owned();
    let number = text::decimal(i as u64);
    path.append(number.as_str());
    path
}

/// The first gadget device among the first ten; `present` says of each whether
/// it exists and is a character device.
pub fn find_hidg_device(present: &Vec<bool>) -> (r: Option<String>)
    requires
        present@.len() == 10,
    ensures
        match r {
            Some(path) => exists|i: int|
                0 <= i < 10 && #[trigger] present@[i] && (forall|j: int|
                    0 <= j < i ==> !#[trigger] present@[j]) && path@ == hidg_path_of(i as nat),
            None => forall|i: int| 0 <= i < 10 ==> !#[trigger] present@[i],
        },
{
    let mut i: usize = 0;
    while i < 10
        invariant
            i <= 10,
            present@.len() == 10,
            forall|j: int| 0 <= j < i ==> !#[trigger] present@[j],
        decreases 10 - i,
    {
        if present[i] {
            return Some(hidg_path(i));
        }
        i += 1;
    }
    None
}

/// Gadget devices are numbered files of `/dev`.
pub proof fn law_gadget_paths(i: nat)
    ensures
        hidg_path_of(i) == seq!['/', 'd', 'e', 'v', '/', 'h', 'i', 'd', 'g'] + text::decimal_text(
            i,
        ),
{
    reveal_strlit("/dev/hidg");
    assert("/dev/hidg"@ =~= seq!['/', 'd', 'e', 'v', '/', 'h', 'i', 'd', 'g']);
}

/// The gadget is a game pad with one report in each direction, each of 64 bytes:
/// number 0x30 to the console and 0x10 from it.
pub proof fn law_gadget_reports()
    ensures
        ({
            let d = hid_descriptor();
            &&& d.len() == 37
            &&& d[0] == 0x05 && d[1] == 0x01 && d[2] == 0x09 && d[3] == 0x05
            &&& d[4] == 0xA1 && d[5] == 0x01 && d[36] == 0xC0
            &&& d[6] == 0x85 && d[7] == 0x30 && d[15] == 0x95 && d[16] == 64
            &&& d[19] == 0x81 && d[20] == 0x02
            &&& d[21] == 0x85 && d[22] == 0x10 && d[30] == 0x95 && d[31] == 64
            &&& d[34] == 0x91 && d[35] == 0x02
            &&& d[13] == 0x75 && d[14] == 8 && d[28] == 0x75 && d[29] == 8
        }),
{
}

} // verus!
