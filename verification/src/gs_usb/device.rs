//! Choosing the adapter and its interface from what enumeration found.

use vstd::prelude::*;
use crate::hex::lemma_hex_fixed_len;
use crate::hex::push_hex_fixed;
use crate::hex::spec_hex_fixed;
use crate::bytes::trim_ascii;
use crate::bytes::spec_trim;
use crate::error::DriverError;
use super::constants::GS_USB_VENDOR_ID;
use super::constants::GS_USB_PRODUCT_ID;
use super::constants::GS_USB_INTERFACE_CLASS;

verus! {

/// The interface and endpoints of an adapter that the driver talks to.
#[derive(Clone, Copy, Debug, PartialEq, Eq, Structural)]
pub struct InterfaceInfo {
    pub interface: u8,
    pub alt_setting: u8,
    pub in_ep: u8,
    pub out_ep: u8,
    pub int_ep: Option<u8>,
    pub out_wmax: u16,
}

/// One endpoint descriptor.
#[derive(Clone, Copy, Debug, PartialEq, Eq, Structural)]
pub struct EndpointDescriptor {
    pub address: u8,
    pub attributes: u8,
    pub max_packet_size: u16,
}

/// One alternate setting of an interface, with its endpoints in descriptor
/// order.
#[derive(Debug)]
pub struct AltSetting {
    pub interface_number: u8,
    pub alt_setting: u8,
    pub class: u8,
    pub endpoints: Vec<EndpointDescriptor>,
}

/// What enumeration read from one USB device: its ids, the alternate
/// settings of its configuration in descriptor order, its strings where they
/// could be read, and where it sits on the bus.
#[derive(Debug)]
pub struct DeviceSummary {
    pub vendor_id: u16,
    pub product_id: u16,
    pub alt_settings: Vec<AltSetting>,
    pub serial: Option<Vec<u8>>,
    pub product: Option<Vec<u8>>,
    pub bus: u8,
    pub address: u8,
}

/// Transfer type of a bulk endpoint, in the low two attribute bits.
pub const TRANSFER_TYPE_BULK: u8 = 2;

/// Transfer type of an interrupt endpoint.
pub const TRANSFER_TYPE_INTERRUPT: u8 = 3;

/// Packet size assumed until an OUT endpoint says otherwise.
pub const DEFAULT_OUT_WMAX: u16 = 64;

/// Whether an endpoint address is device-to-host.
pub open spec fn spec_is_in(address: u8) -> bool {
    address >= 0x80
}

/// What is known of an interface after one more endpoint: a bulk endpoint
/// becomes the IN or the OUT endpoint by its direction, the OUT endpoint
/// also setting the packet size, and an interrupt IN endpoint is noted.
pub open spec fn spec_note_endpoint(info: InterfaceInfo, ep: EndpointDescriptor) -> InterfaceInfo {
    let kind = ep.attributes % 4;
    if kind == TRANSFER_TYPE_BULK {
        if spec_is_in(ep.address) {
            InterfaceInfo { in_ep: ep.address, ..info }
        } else {
            InterfaceInfo { out_ep: ep.address, out_wmax: ep.max_packet_size, ..info }
        }
    } else if kind == TRANSFER_TYPE_INTERRUPT && spec_is_in(ep.address) {
        InterfaceInfo { int_ep: Some(ep.address), ..info }
    } else {
        info
    }
}

/// What is known of an alternate setting after its first `n` endpoints.
pub open spec fn spec_scan_endpoints(alt: AltSetting, n: nat) -> InterfaceInfo
    decreases n,
{
    if n == 0 {
        InterfaceInfo {
            interface: alt.interface_number,
            alt_setting: alt.alt_setting,
            in_ep: 0,
            out_ep: 0,
            int_ep: None,
            out_wmax: DEFAULT_OUT_WMAX,
        }
    } else {
        spec_note_endpoint(spec_scan_endpoints(alt, (n - 1) as nat), alt.endpoints@[n - 1])
    }
}

/// Whether an alternate setting is the vendor interface of a gs_usb adapter:
/// vendor class, with a bulk endpoint in each direction.
pub open spec fn spec_usable(alt: AltSetting) -> bool {
    let info = spec_scan_endpoints(alt, alt.endpoints@.len());
    alt.class == GS_USB_INTERFACE_CLASS && info.in_ep != 0 && info.out_ep != 0
}

/// The first usable alternate setting, if there is one.
pub open spec fn spec_find_interface(alts: Seq<AltSetting>) -> Option<InterfaceInfo>
    decreases alts.len(),
{
    if alts.len() == 0 {
        None
    } else if spec_usable(alts[0]) {
        Some(spec_scan_endpoints(alts[0], alts[0].endpoints@.len()))
    } else {
        spec_find_interface(alts.drop_first())
    }
}

fn scan_endpoints(alt: &AltSetting) -> (info: InterfaceInfo)
    ensures
        info == spec_scan_endpoints(*alt, alt.endpoints@.len()),
{
    let mut info = InterfaceInfo {
        interface: alt.interface_number,
        alt_setting: alt.alt_setting,
        in_ep: 0,
        out_ep: 0,
        int_ep: None,
        out_wmax: DEFAULT_OUT_WMAX,
    };
    let mut i: usize = 0;
    while i < alt.endpoints.len()
        invariant
            i <= alt.endpoints@.len(),
            info == spec_scan_endpoints(*alt, i as nat),
        decreases alt.endpoints@.len() - i,
    {
        let ep = alt.endpoints[i];
        let kind = ep.attributes % 4;
        if kind == TRANSFER_TYPE_BULK {
            if ep.address >= 0x80 {
                info.in_ep = ep.address;
            } else {
                info.out_ep = ep.address;
                info.out_wmax = ep.max_packet_size;
            }
        } else if kind == TRANSFER_TYPE_INTERRUPT {
            if ep.address >= 0x80 {
                info.int_ep = Some(ep.address);
            }
        }
        i += 1;
    }
    info
}

/// Finds the vendor-specific interface and the endpoints to use.
#[verifier::rlimit(40)]
pub fn find_gs_usb_interface(alts: &Vec<AltSetting>) -> (r: Option<InterfaceInfo>)
    ensures
        r == spec_find_interface(alts@),
{
    let mut i: usize = 0;
    assert(alts@.subrange(0, alts@.len() as int) =~= alts@);
    while i < alts.len()
        invariant
            i <= alts@.len(),
            spec_find_interface(alts@) == spec_find_interface(alts@.subrange(i as int, alts@.len() as int)),
        decreases alts@.len() - i,
    {
        let ghost rest = alts@.subrange(i as int, alts@.len() as int);
        assert(rest[0] == alts@[i as int]);
        assert(rest.drop_first() =~= alts@.subrange(i + 1, alts@.len() as int));
        if alts[i].class == GS_USB_INTERFACE_CLASS {
            let info = scan_endpoints(&alts[i]);
            if info.in_ep != 0 && info.out_ep != 0 {
                return Some(info);
            }
        }
        i += 1;
    }
    assert(alts@.subrange(i as int, alts@.len() as int).len() == 0);
    None
}

/// A letter in lower case, any other byte unchanged.
pub open spec fn spec_lower(c: u8) -> u8 {
    if 65 <= c <= 90 {
        (c + 32) as u8
    } else {
        c
    }
}

/// Whether two byte strings are equal but for the case of ASCII letters.
pub open spec fn spec_eq_ignore_case(a: Seq<u8>, b: Seq<u8>) -> bool {
    a.len() == b.len() && forall|i: int| 0 <= i < a.len() ==> spec_lower(#[trigger] a[i]) == spec_lower(b[i])
}

/// Compares two byte strings without regard to the case of ASCII letters.
pub fn eq_ignore_ascii_case(a: &[u8], b: &[u8]) -> (r: bool)
    ensures
        r == spec_eq_ignore_case(a@, b@),
{
    if a.len() != b.len() {
        return false;
    }
    let mut i: usize = 0;
    while i < a.len()
        invariant
            i <= a@.len(),
            a@.len() == b@.len(),
            forall|k: int| 0 <= k < i ==> spec_lower(#[trigger] a@[k]) == spec_lower(b@[k]),
        decreases a@.len() - i,
    {
        let x = a[i];
        let y = b[i];
        let lx: u8 = if 65 <= x && x <= 90 { x + 32 } else { x };
        let ly: u8 = if 65 <= y && y <= 90 { y + 32 } else { y };
        if lx != ly {
            return false;
        }
        i += 1;
    }
    true
}

/// The number that a run of decimal digits writes; nothing for an empty run
/// or where a byte is no digit.
pub open spec fn spec_decimal(s: Seq<u8>) -> Option<int>
    decreases s.len(),
{
    if s.len() == 0 {
        None
    } else if !(48 <= s.last() <= 57) {
        None
    } else if s.len() == 1 {
        Some(s.last() - 48)
    } else {
        match spec_decimal(s.drop_last()) {
            Some(high) => Some(10 * high + (s.last() - 48)),
            None => None,
        }
    }
}

/// A run that is no number, or a number, does not become a smaller number by
/// growing.
proof fn lemma_decimal_grows(s: Seq<u8>, mid: int, to: int)
    requires
        1 <= mid <= to <= s.len(),
    ensures
        spec_decimal(s.subrange(0, mid)) is None ==> spec_decimal(s.subrange(0, to)) is None,
        spec_decimal(s.subrange(0, to)) is Some ==> spec_decimal(s.subrange(0, to))->0 >= spec_decimal(
            s.subrange(0, mid),
        )->0 >= 0,
    decreases to - mid,
{
    if mid < to {
        lemma_decimal_grows(s, mid, to - 1);
        assert(s.subrange(0, to).drop_last() =~= s.subrange(0, to - 1));
    } else {
        lemma_decimal_nonneg(s.subrange(0, mid));
    }
}

/// A decimal number is not negative.
proof fn lemma_decimal_nonneg(s: Seq<u8>)
    ensures
        spec_decimal(s) is Some ==> spec_decimal(s)->0 >= 0,
    decreases s.len(),
{
    if s.len() > 1 {
        lemma_decimal_nonneg(s.drop_last());
    }
}

/// Whether `s` writes the number `index` in decimal.
#[verifier::rlimit(40)]
pub fn names_index(s: &[u8], index: usize) -> (r: bool)
    ensures
        r == (spec_decimal(s@) == Some(index as int)),
{
    if s.len() == 0 {
        return false;
    }
    let mut value: u128 = 0;
    let mut i: usize = 0;
    while i < s.len()
        invariant
            i <= s@.len(),
            s@.len() > 0,
            value <= usize::MAX,
            i > 0 ==> spec_decimal(s@.subrange(0, i as int)) == Some(value as int),
            i == 0 ==> value == 0,
        decreases s@.len() - i,
    {
        let c = s[i];
        proof {
            let next = s@.subrange(0, i + 1);
            assert(next.drop_last() =~= s@.subrange(0, i as int));
            assert(next.last() == c);
            lemma_decimal_grows(s@, i + 1, s@.len() as int);
            assert(s@.subrange(0, s@.len() as int) =~= s@);
        }
        if c < 48 || c > 57 {
            return false;
        }
        value = value * 10 + (c - 48) as u128;
        if value > usize::MAX as u128 {
            return false;
        }
        i += 1;
    }
    assert(s@.subrange(0, s@.len() as int) =~= s@);
    value == index as u128
}

/// A bus position as text: bus and address, three decimal digits each, with
/// a colon between.
pub open spec fn spec_bus_address(bus: u8, address: u8) -> Seq<u8> {
    seq![
        (48 + bus / 100) as u8,
        (48 + (bus / 10) % 10) as u8,
        (48 + bus % 10) as u8,
        58u8,
        (48 + address / 100) as u8,
        (48 + (address / 10) % 10) as u8,
        (48 + address % 10) as u8,
    ]
}

/// Writes a bus position as text.
pub fn bus_address(bus: u8, address: u8) -> (r: Vec<u8>)
    ensures
        r@ == spec_bus_address(bus, address),
{
    vec![
        48 + bus / 100,
        48 + (bus / 10) % 10,
        48 + bus % 10,
        58u8,
        48 + address / 100,
        48 + (address / 10) % 10,
        48 + address % 10,
    ]
}

/// The four letters of `auto`.
pub open spec fn spec_auto() -> Seq<u8> {
    seq![97u8, 117u8, 116u8, 111u8]
}

/// Whether an identifier without white space at its ends names
/// the candidate with the given place among the candidates, strings and bus
/// position: `auto` names every candidate; a decimal number names the
/// candidate at that place; anything else names the candidate whose serial
/// string, product string or bus position it equals, whatever the case of
/// letters.
pub open spec fn spec_matches(
    ident: Seq<u8>,
    index: usize,
    serial: Option<Seq<u8>>,
    product: Option<Seq<u8>>,
    bus: u8,
    address: u8,
) -> bool {
    ||| spec_eq_ignore_case(ident, spec_auto())
    ||| spec_decimal(ident) == Some(index as int)
    ||| (serial is Some && spec_eq_ignore_case(serial->0, ident))
    ||| (product is Some && spec_eq_ignore_case(product->0, ident))
    ||| spec_eq_ignore_case(spec_bus_address(bus, address), ident)
}

/// The view of an optional byte string.
pub open spec fn spec_opt_bytes(v: Option<Vec<u8>>) -> Option<Seq<u8>> {
    match v {
        Some(bytes) => Some(bytes@),
        None => None,
    }
}

/// Tests whether an identifier without white space at its ends names a
/// candidate.
pub fn matches_trimmed(
    ident: &[u8],
    index: usize,
    serial: &Option<Vec<u8>>,
    product: &Option<Vec<u8>>,
    bus: u8,
    address: u8,
) -> (r: bool)
    ensures
        r == spec_matches(ident@, index, spec_opt_bytes(*serial), spec_opt_bytes(*product), bus, address),
{
    let auto: Vec<u8> = vec![97u8, 117u8, 116u8, 111u8];
    if eq_ignore_ascii_case(ident, auto.as_slice()) {
        return true;
    }
    if names_index(ident, index) {
        return true;
    }
    match serial {
        Some(text) => {
            if eq_ignore_ascii_case(text.as_slice(), ident) {
                return true;
            }
        },
        None => {},
    }
    match product {
        Some(text) => {
            if eq_ignore_ascii_case(text.as_slice(), ident) {
                return true;
            }
        },
        None => {},
    }
    let position = bus_address(bus, address);
    eq_ignore_ascii_case(position.as_slice(), ident)
}

/// Tests whether `identifier` names a candidate. White space at the ends of
/// the identifier does not count.
pub fn device_matches_identifier(
    identifier: &[u8],
    index: usize,
    serial: &Option<Vec<u8>>,
    product: &Option<Vec<u8>>,
    bus: u8,
    address: u8,
) -> (r: bool)
    ensures
        r == spec_matches(
            spec_trim(identifier@),
            index,
            spec_opt_bytes(*serial),
            spec_opt_bytes(*product),
            bus,
            address,
        ),
{
    let trimmed = trim_ascii(identifier);
    matches_trimmed(trimmed.as_slice(), index, serial, product, bus, address)
}

/// Whether the ids are those of a gs_usb adapter.
pub fn is_gs_usb_device(vendor_id: u16, product_id: u16) -> (r: bool)
    ensures
        r == (vendor_id == GS_USB_VENDOR_ID && product_id == GS_USB_PRODUCT_ID),
{
    vendor_id == GS_USB_VENDOR_ID && product_id == GS_USB_PRODUCT_ID
}

/// The device that an identifier picks among those enumerated from place
/// `from` on, where `index` candidates came before. A candidate is a device
/// with the adapter's ids and a usable interface; the first candidate that
/// the identifier names is picked, with its place in the list and its
/// interface.
pub open spec fn spec_select(ident: Seq<u8>, devices: Seq<DeviceSummary>, from: int, index: int) -> Option<
    (int, InterfaceInfo),
>
    decreases devices.len() - from,
{
    if from < 0 || from >= devices.len() {
        None
    } else {
        let d = devices[from];
        let info = spec_find_interface(d.alt_settings@);
        if d.vendor_id == GS_USB_VENDOR_ID && d.product_id == GS_USB_PRODUCT_ID && info is Some {
            if 0 <= index <= usize::MAX && spec_matches(
                ident,
                index as usize,
                spec_opt_bytes(d.serial),
                spec_opt_bytes(d.product),
                d.bus,
                d.address,
            ) {
                Some((from, info->0))
            } else {
                spec_select(ident, devices, from + 1, index + 1)
            }
        } else {
            spec_select(ident, devices, from + 1, index)
        }
    }
}

/// Whether `r` reports what the trimmed identifier picks.
pub open spec fn spec_selected(
    ident: Seq<u8>,
    devices: Seq<DeviceSummary>,
    r: Result<(usize, InterfaceInfo), DriverError>,
) -> bool {
    match spec_select(ident, devices, 0, 0) {
        Some(picked) => r == Ok::<(usize, InterfaceInfo), DriverError>((picked.0 as usize, picked.1)),
        None => r == Err::<(usize, InterfaceInfo), DriverError>(DriverError::DeviceAbsent),
    }
}

/// Picks the adapter that `identifier` names among the enumerated devices.
/// Returns its place in the list and the interface to claim, or
/// `DeviceAbsent` where the identifier names none. White space at the ends
/// of the identifier does not count.
#[verifier::rlimit(40)]
pub fn select_device(identifier: &[u8], devices: &Vec<DeviceSummary>) -> (r: Result<
    (usize, InterfaceInfo),
    DriverError,
>)
    ensures
        spec_selected(spec_trim(identifier@), devices@, r),
        match r {
            Ok(picked) => picked.0 < devices@.len(),
            Err(_) => true,
        },
{
    let trimmed = trim_ascii(identifier);
    let ghost ident = trimmed@;
    let mut index: usize = 0;
    let mut i: usize = 0;
    while i < devices.len()
        invariant
            i <= devices@.len(),
            index <= i,
            trimmed@ == ident,
            ident == spec_trim(identifier@),
            spec_select(ident, devices@, 0, 0) == spec_select(ident, devices@, i as int, index as int),
        decreases devices@.len() - i,
    {
        let d = &devices[i];
        if is_gs_usb_device(d.vendor_id, d.product_id) {
            match find_gs_usb_interface(&d.alt_settings) {
                Some(info) => {
                    if matches_trimmed(trimmed.as_slice(), index, &d.serial, &d.product, d.bus, d.address) {
                        return Ok((i, info));
                    }
                    index += 1;
                },
                None => {},
            }
        }
        i += 1;
    }
    Err(DriverError::DeviceAbsent)
}

/// The two ids of a device as text: lower-case hex, four digits each, with
/// a colon between.
pub open spec fn spec_id_label(vendor_id: u16, product_id: u16) -> Seq<u8> {
    spec_hex_fixed(vendor_id as int, 4).map_values(|c: u8| spec_lower(c)) + seq![58u8] + spec_hex_fixed(
        product_id as int,
        4,
    ).map_values(|c: u8| spec_lower(c))
}

fn push_hex_lower(out: &mut Vec<u8>, v: u16)
    ensures
        final(out)@ == old(out)@ + spec_hex_fixed(v as int, 4).map_values(|c: u8| spec_lower(c)),
{
    let mut digits: Vec<u8> = Vec::new();
    push_hex_fixed(&mut digits, v as u32, 4);
    proof {
        lemma_hex_fixed_len(v as int, 4);
    }
    let ghost lowered = spec_hex_fixed(v as int, 4).map_values(|c: u8| spec_lower(c));
    let mut i: usize = 0;
    while i < 4
        invariant
            i <= 4,
            digits@ == spec_hex_fixed(v as int, 4),
            digits@.len() == 4,
            lowered == spec_hex_fixed(v as int, 4).map_values(|c: u8| spec_lower(c)),
            out@ == old(out)@ + lowered.subrange(0, i as int),
        decreases 4 - i,
    {
        let c = digits[i];
        out.push(if 65 <= c && c <= 90 { c + 32 } else { c });
        i += 1;
        assert(out@ =~= old(out)@ + lowered.subrange(0, i as int));
    }
    assert(lowered.subrange(0, 4) =~= lowered);
}

/// The label shown for an adapter: its product string, else its serial
/// string, else its two ids.
pub fn read_product_label(
    product: &Option<Vec<u8>>,
    serial: &Option<Vec<u8>>,
    vendor_id: u16,
    product_id: u16,
) -> (label: Vec<u8>)
    ensures
        label@ == (match (spec_opt_bytes(*product), spec_opt_bytes(*serial)) {
            (Some(p), _) => p,
            (None, Some(s)) => s,
            (None, None) => spec_id_label(vendor_id, product_id),
        }),
{
    match product {
        Some(p) => {
            let label = crate::bytes::copy_range(p.as_slice(), 0, p.len());
            assert(label@ =~= p@);
            label
        },
        None => match serial {
            Some(s) => {
                let label = crate::bytes::copy_range(s.as_slice(), 0, s.len());
                assert(label@ =~= s@);
                label
            },
            None => {
                let mut label: Vec<u8> = Vec::new();
                push_hex_lower(&mut label, vendor_id);
                label.push(58u8);
                push_hex_lower(&mut label, product_id);
                assert(label@ =~= spec_id_label(vendor_id, product_id));
                label
            },
        },
    }
}

} // verus!
