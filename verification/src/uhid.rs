//! The events that create a virtual HID device and feed it reports.
use crate::bytes::{self, push_le};
use vstd::prelude::*;

verus! {

/// Creates a device.
pub const UHID_CREATE2: u32 = 11;

/// Carries one report.
pub const UHID_INPUT2: u32 = 12;

/// The bus of the devices: USB.
pub const BUS_USB: u16 = 3;

/// Where the report descriptor begins in a creation event.
pub const DESCRIPTOR_AT: usize = 280;

/// The report descriptor of a keyboard: eight modifiers, a reserved byte, and six
/// keys.
pub open spec fn keyboard() -> Seq<u8> {
    seq![
        0x05u8, 0x01, 0x09, 0x06, 0xa1, 0x01, 0x05, 0x07, 0x19, 0xe0, 0x29, 0xe7,
        0x15, 0x00, 0x25, 0x01, 0x75, 0x01, 0x95, 0x08, 0x81, 0x02, 0x75, 0x08,
        0x95, 0x01, 0x81, 0x01, 0x19, 0x00, 0x29, 0xa4, 0x15, 0x00, 0x26, 0xa4,
        0x00, 0x75, 0x08, 0x95, 0x06, 0x81, 0x00, 0xc0,
    ]
}

/// The report descriptor of a mouse: five buttons, two 16-bit axes, and a wheel.
pub open spec fn mouse() -> Seq<u8> {
    seq![
        0x05u8, 0x01, 0x09, 0x02, 0xa1, 0x01, 0x09, 0x01, 0xa1, 0x00, 0x05, 0x09,
        0x19, 0x01, 0x29, 0x05, 0x15, 0x00, 0x25, 0x01, 0x75, 0x01, 0x95, 0x05,
        0x81, 0x02, 0x75, 0x03, 0x95, 0x01, 0x81, 0x01, 0x05, 0x01, 0x09, 0x30,
        0x09, 0x31, 0x16, 0x01, 0x80, 0x26, 0xff, 0x7f, 0x75, 0x10, 0x95, 0x02,
        0x81, 0x06, 0x09, 0x38, 0x15, 0x81, 0x25, 0x7f, 0x75, 0x08, 0x95, 0x01,
        0x81, 0x06, 0xc0, 0xc0,
    ]
}

pub fn keyboard_descriptor() -> (r: [u8; 44])
    ensures
        r@ == keyboard(),
{
    let r: [u8; 44] = [
        0x05, 0x01, 0x09, 0x06, 0xa1, 0x01, 0x05, 0x07, 0x19, 0xe0, 0x29, 0xe7,
        0x15, 0x00, 0x25, 0x01, 0x75, 0x01, 0x95, 0x08, 0x81, 0x02, 0x75, 0x08,
        0x95, 0x01, 0x81, 0x01, 0x19, 0x00, 0x29, 0xa4, 0x15, 0x00, 0x26, 0xa4,
        0x00, 0x75, 0x08, 0x95, 0x06, 0x81, 0x00, 0xc0,
    ];
    assert(r@ =~= keyboard());
    r
}

pub fn mouse_descriptor() -> (r: [u8; 64])
    ensures
        r@ == mouse(),
{
    let r: [u8; 64] = [
        0x05, 0x01, 0x09, 0x02, 0xa1, 0x01, 0x09, 0x01, 0xa1, 0x00, 0x05, 0x09,
        0x19, 0x01, 0x29, 0x05, 0x15, 0x00, 0x25, 0x01, 0x75, 0x01, 0x95, 0x05,
        0x81, 0x02, 0x75, 0x03, 0x95, 0x01, 0x81, 0x01, 0x05, 0x01, 0x09, 0x30,
        0x09, 0x31, 0x16, 0x01, 0x80, 0x26, 0xff, 0x7f, 0x75, 0x10, 0x95, 0x02,
        0x81, 0x06, 0x09, 0x38, 0x15, 0x81, 0x25, 0x7f, 0x75, 0x08, 0x95, 0x01,
        0x81, 0x06, 0xc0, 0xc0,
    ];
    assert(r@ =~= mouse());
    r
}

pub open spec fn zeros(n: nat) -> Seq<u8> {
    Seq::new(n, |i: int| 0u8)
}

/// The event that creates a device: the kind, the name in 256 bytes with its
/// path and its serial, the descriptor's length, the bus, no vendor, the product,
/// the version, no country, and the descriptor.
pub open spec fn create_event(name: Seq<u8>, descriptor: Seq<u8>, product: u32) -> Seq<u8> {
    bytes::le_bytes(UHID_CREATE2 as nat, 4) + name + zeros((256 - name.len()) as nat)
        + bytes::le_bytes(descriptor.len(), 2) + bytes::le_bytes(BUS_USB as nat, 2)
        + bytes::le_bytes(0, 4) + bytes::le_bytes(product as nat, 4) + bytes::le_bytes(1, 4)
        + bytes::le_bytes(0, 4) + descriptor
}

/// The event that carries a report.
pub open spec fn input_event(data: Seq<u8>) -> Seq<u8> {
    bytes::le_bytes(UHID_INPUT2 as nat, 4) + bytes::le_bytes(data.len(), 2) + data
}

/// The event that creates a device.
pub fn creation(name: &[u8], descriptor: &[u8], product: u32) -> (r: Vec<u8>)
    requires
        name@.len() <= 256,
        descriptor@.len() <= 0xffff,
    ensures
        r@ == create_event(name@, descriptor@, product),
        r@.len() == DESCRIPTOR_AT + descriptor@.len(),
{
    proof {
        bytes::lemma_pow256_values();
        assert forall|x: nat, n: nat| (#[trigger] bytes::le_bytes(x, n)).len() == n by {
            bytes::lemma_le_bytes_len(x, n);
        }
    }
    let mut out: Vec<u8> = Vec::new();
    push_le(&mut out, UHID_CREATE2 as u64, 4);
    out.extend_from_slice(name);
    let ghost named = out@;
    let mut i: usize = name.len();
    while i < 256
        invariant
            name@.len() <= i <= 256,
            out@ =~= named + zeros((i - name@.len()) as nat),
        decreases 256 - i,
    {
        out.push(0);
        i = i + 1;
    }
    push_le(&mut out, descriptor.len() as u64, 2);
    push_le(&mut out, BUS_USB as u64, 2);
    push_le(&mut out, 0, 4);
    push_le(&mut out, product as u64, 4);
    push_le(&mut out, 1, 4);
    push_le(&mut out, 0, 4);
    out.extend_from_slice(descriptor);
    assert(out@ =~= create_event(name@, descriptor@, product));
    out
}

/// The event that carries a report.
pub fn input(data: &[u8]) -> (r: Vec<u8>)
    requires
        data@.len() <= 0xffff,
    ensures
        r@ == input_event(data@),
{
    let mut out: Vec<u8> = Vec::new();
    push_le(&mut out, UHID_INPUT2 as u64, 4);
    push_le(&mut out, data.len() as u64, 2);
    out.extend_from_slice(data);
    assert(out@ =~= input_event(data@));
    out
}

/// An event that carries a report is the number 12 in four bytes, the length in two, low
/// bytes first, and the report as it is.
pub proof fn law_reports_travel_whole(data: Seq<u8>)
    requires
        data.len() <= 0xffff,
    ensures
        ({
            let event = input_event(data);
            &&& event.len() == 6 + data.len()
            &&& event[0] == 12
            &&& event[1] == 0
            &&& event[2] == 0
            &&& event[3] == 0
            &&& event[4] + 256 * event[5] == data.len()
            &&& forall|i: int| 0 <= i < data.len() ==> #[trigger] event[6 + i] == data[i]
        }),
{
    reveal_with_fuel(bytes::le_bytes, 5);
}

/// A creation event has each of its fields at the offset that the kernel reads it from:
/// the number 11, the name at 4 and zeros up to 260, the descriptor's length, the bus
/// number of USB, no vendor, the product, the first version, no country, and from 280 the
/// descriptor as it is.
pub proof fn law_creation_has_its_fields_in_place(name: Seq<u8>, descriptor: Seq<u8>, product: u32)
    requires
        name.len() <= 256,
        descriptor.len() <= 0xffff,
    ensures
        ({
            let event = create_event(name, descriptor, product);
            &&& event.len() == 280 + descriptor.len()
            &&& event[0] == 11 && event[1] == 0 && event[2] == 0 && event[3] == 0
            &&& forall|i: int| 0 <= i < name.len() ==> #[trigger] event[4 + i] == name[i]
            &&& forall|i: int| 4 + name.len() <= i < 260 ==> #[trigger] event[i] == 0
            &&& event[260] + 256 * event[261] == descriptor.len()
            &&& event[262] == 3 && event[263] == 0
            &&& event[264] == 0 && event[265] == 0 && event[266] == 0 && event[267] == 0
            &&& event[268] + 256 * event[269] + 65536 * event[270] + 16777216 * event[271]
                == product
            &&& event[272] == 1 && event[273] == 0 && event[274] == 0 && event[275] == 0
            &&& event[276] == 0 && event[277] == 0 && event[278] == 0 && event[279] == 0
            &&& forall|i: int|
                0 <= i < descriptor.len() ==> #[trigger] event[280 + i] == descriptor[i]
        }),
{
    reveal_with_fuel(bytes::le_bytes, 5);
    assert forall|x: nat, n: nat| (#[trigger] bytes::le_bytes(x, n)).len() == n by {
        bytes::lemma_le_bytes_len(x, n);
    }
}

} // verus!
