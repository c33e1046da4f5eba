//! Which serial port is dev-bench's link, and which USB serial ports there are.
//!
//! Nothing is opened here: the rules are applied to USB descriptors that the
//! operating system has already enumerated.

use crate::hardware::enrollment::{self, BoardModel, Store};
use crate::lists;
use crate::text;
use vstd::prelude::*;
use vstd::string::*;

verus! {

/// SEGGER's USB vendor ID: every J-Link enumerates its VCOM interfaces under it.
pub const SEGGER_VID: u16 = 0x1366;

/// Espressif's USB vendor ID. Its native USB-Serial/JTAG peripheral is used for
/// flashing and reset only; it is never a link candidate.
pub const ESPRESSIF_VID: u16 = 0x303A;

/// Silicon Labs' USB vendor ID: the CP210x family of USB-to-UART bridges, which
/// have no debug capability and so never appear in enrollment themselves.
pub const SILABS_VID: u16 = 0x10C4;

/// The default product-string needle, in normalized form. It matches both
/// `J-Link` and `JLink CDC UART Port`.
pub const DEFAULT_PRODUCT_NEEDLE: &'static str = "jlink";

/// The enrollment role that means "this entry is dev-bench".
pub const DEV_BENCH_ROLE: &'static str = "dev-bench";

/// What a port reports as its provenance when a declared USB serial, and no
/// vendor rule, identified it.
pub const DECLARED_SERIAL: &'static str = "declared-serial";

/// What a port reports as its provenance when nothing narrowed it.
pub const ENUMERATED: &'static str = "enumerated";

// ---- enumerated ports --------------------------------------------------------

/// The USB identity that the operating system reports for a serial port.
#[derive(Debug, PartialEq, Eq)]
pub struct UsbPortInfo {
    pub vid: u16,
    pub pid: u16,
    pub serial_number: Option<String>,
    pub product: Option<String>,
    pub interface: Option<u8>,
}

/// One enumerated serial port; `usb` is `None` when it is no USB device.
#[derive(Debug, PartialEq, Eq)]
pub struct SerialPortInfo {
    pub port_name: String,
    pub usb: Option<UsbPortInfo>,
}

#[verifier::ext_equal]
pub ghost struct UsbModel {
    pub vid: u16,
    pub pid: u16,
    pub serial_number: Option<Seq<char>>,
    pub product: Option<Seq<char>>,
    pub interface: Option<u8>,
}

#[verifier::ext_equal]
pub ghost struct SerialPortModel {
    pub port_name: Seq<char>,
    pub usb: Option<UsbModel>,
}

impl DeepView for UsbPortInfo {
    type V = UsbModel;

    open spec fn deep_view(&self) -> UsbModel {
        UsbModel {
            vid: self.vid,
            pid: self.pid,
            serial_number: self.serial_number.deep_view(),
            product: self.product.deep_view(),
            interface: self.interface,
        }
    }
}

impl DeepView for SerialPortInfo {
    type V = SerialPortModel;

    open spec fn deep_view(&self) -> SerialPortModel {
        SerialPortModel { port_name: self.port_name@, usb: self.usb.deep_view() }
    }
}

impl Clone for UsbPortInfo {
    fn clone(&self) -> (r: Self)
        ensures
            r == *self,
    {
        UsbPortInfo {
            vid: self.vid,
            pid: self.pid,
            serial_number: self.serial_number.clone(),
            product: self.product.clone(),
            interface: self.interface,
        }
    }
}

impl Clone for SerialPortInfo {
    fn clone(&self) -> (r: Self)
        ensures
            r == *self,
    {
        let usb = match &self.usb {
            Some(usb) => Some(usb.clone()),
            None => None,
        };
        SerialPortInfo { port_name: self.port_name.clone(), usb }
    }
}

/// One detected serial port and whatever USB identity it reported.
#[derive(Debug, PartialEq, Eq)]
pub struct DetectedPort {
    pub port_name: String,
    /// Which regime resolved the port: `"segger-vid-match"` or
    /// `"silabs-vid-match"` when the vendor gate was on, [`DECLARED_SERIAL`]
    /// when it was off, [`ENUMERATED`] when nothing narrowed the list.
    pub detected_by: String,
    pub vendor_id: Option<u16>,
    pub product_id: Option<u16>,
    pub serial_number: Option<String>,
    pub product: Option<String>,
    pub interface: Option<u8>,
    /// How many equally plausible ports this one was guessed from; `None` when
    /// the answer was determined.
    pub guessed_among: Option<usize>,
}

/// What the dev-bench callers call a [`DetectedPort`].
pub type DevBenchPort = DetectedPort;

#[verifier::ext_equal]
pub ghost struct PortModel {
    pub port_name: Seq<char>,
    pub detected_by: Seq<char>,
    pub vendor_id: Option<u16>,
    pub product_id: Option<u16>,
    pub serial_number: Option<Seq<char>>,
    pub product: Option<Seq<char>>,
    pub interface: Option<u8>,
    pub guessed_among: Option<nat>,
}

impl DeepView for DetectedPort {
    type V = PortModel;

    open spec fn deep_view(&self) -> PortModel {
        PortModel {
            port_name: self.port_name@,
            detected_by: self.detected_by@,
            vendor_id: self.vendor_id,
            product_id: self.product_id,
            serial_number: self.serial_number.deep_view(),
            product: self.product.deep_view(),
            interface: self.interface,
            guessed_among: match self.guessed_among {
                Some(n) => Some(n as nat),
                None => None,
            },
        }
    }
}

impl Clone for DetectedPort {
    fn clone(&self) -> (r: Self)
        ensures
            r == *self,
    {
        DetectedPort {
            port_name: self.port_name.clone(),
            detected_by: self.detected_by.clone(),
            vendor_id: self.vendor_id,
            product_id: self.product_id,
            serial_number: self.serial_number.clone(),
            product: self.product.clone(),
            interface: self.interface,
            guessed_among: self.guessed_among,
        }
    }
}

// ---- the filter ----------------------------------------------------------------

/// The narrowing rules applied on top of the vendor match.
#[derive(Debug, PartialEq, Eq)]
pub struct Filter {
    pub serial: Option<String>,
    pub product_needle: Option<String>,
    pub product_needle_is_default: bool,
    /// A fallback serial is a debug probe's own serial, and equals the link's
    /// only when the two are one USB device: it narrows only where it matches.
    pub serial_is_fallback: bool,
    pub interface: Option<u8>,
    /// Skip the vendor gate: a declared serial already names one device, and a
    /// vendor rule could only exclude it.
    pub no_vid_gate: bool,
}

#[verifier::ext_equal]
pub ghost struct FilterModel {
    pub serial: Option<Seq<char>>,
    pub product_needle: Option<Seq<char>>,
    pub product_needle_is_default: bool,
    pub serial_is_fallback: bool,
    pub interface: Option<u8>,
    pub no_vid_gate: bool,
}

impl DeepView for Filter {
    type V = FilterModel;

    open spec fn deep_view(&self) -> FilterModel {
        FilterModel {
            serial: self.serial.deep_view(),
            product_needle: self.product_needle.deep_view(),
            product_needle_is_default: self.product_needle_is_default,
            serial_is_fallback: self.serial_is_fallback,
            interface: self.interface,
            no_vid_gate: self.no_vid_gate,
        }
    }
}

impl Clone for Filter {
    fn clone(&self) -> (r: Self)
        ensures
            r == *self,
    {
        Filter {
            serial: self.serial.clone(),
            product_needle: self.product_needle.clone(),
            product_needle_is_default: self.product_needle_is_default,
            serial_is_fallback: self.serial_is_fallback,
            interface: self.interface,
            no_vid_gate: self.no_vid_gate,
        }
    }
}

impl Default for Filter {
    fn default() -> (r: Filter)
        ensures
            r.deep_view() == (FilterModel {
                serial: None,
                product_needle: None,
                product_needle_is_default: false,
                serial_is_fallback: false,
                interface: None,
                no_vid_gate: false,
            }),
    {
        Filter {
            serial: None,
            product_needle: None,
            product_needle_is_default: false,
            serial_is_fallback: false,
            interface: None,
            no_vid_gate: false,
        }
    }
}

/// The filter for one declared USB serial.
pub open spec fn declared_serial_filter(serial: Seq<char>) -> FilterModel {
    FilterModel {
        serial: Some(serial),
        product_needle: None,
        product_needle_is_default: false,
        serial_is_fallback: false,
        interface: None,
        no_vid_gate: true,
    }
}

/// The dev-bench row of a store that could be loaded.
pub open spec fn dev_bench_row(store: Result<Store, String>) -> Option<BoardModel> {
    match store {
        Ok(s) => lists::first(s.deep_view().boards, enrollment::holds(DEV_BENCH_ROLE@)),
        Err(_) => None,
    }
}

/// The filter for dev-bench's own link. A declared link serial narrows hard; the
/// probe's own serial stands in for it only as a fallback.
pub open spec fn link_filter(row: Option<BoardModel>) -> FilterModel {
    FilterModel {
        serial: match row {
            Some(b) => if b.link_port_serial is Some {
                b.link_port_serial
            } else {
                b.probe_serial
            },
            None => None,
        },
        product_needle: Some(DEFAULT_PRODUCT_NEEDLE@),
        product_needle_is_default: true,
        serial_is_fallback: !(row matches Some(b) && b.link_port_serial is Some),
        interface: match row {
            Some(b) => b.link_port_interface,
            None => None,
        },
        no_vid_gate: false,
    }
}

impl Filter {
    /// The filter for dev-bench's link, from the row enrolled for its role. An
    /// enrollment table that could not be read is a missing convenience, not a
    /// reason to give up: detection goes on without a serial.
    pub fn resolve(store: &Result<Store, String>) -> (r: Filter)
        ensures
            r.deep_view() == link_filter(dev_bench_row(*store)),
    {
        let row = match store {
            Ok(s) => enrollment::find_by_role(s, DEV_BENCH_ROLE),
            Err(_) => None,
        };
        let (serial, serial_is_fallback, interface) = match row {
            Some(board) => {
                let interface = board.link_port_interface;
                match board.link_port_serial {
                    Some(link_serial) => (Some(link_serial), false, interface),
                    None => (board.probe_serial, true, interface),
                }
            },
            None => (None, true, None),
        };
        Filter {
            serial,
            product_needle: Some(DEFAULT_PRODUCT_NEEDLE.to_string()),
            product_needle_is_default: true,
            serial_is_fallback,
            interface,
            no_vid_gate: false,
        }
    }

    /// Narrows to exactly one declared USB serial, with no vendor or product
    /// gate: a serial that a human read off the device narrows hard.
    pub fn for_declared_serial(serial: &str) -> (r: Filter)
        ensures
            r.deep_view() == declared_serial_filter(serial@),
    {
        Filter {
            serial: Some(serial.to_string()),
            product_needle: None,
            product_needle_is_default: false,
            serial_is_fallback: false,
            interface: None,
            no_vid_gate: true,
        }
    }
}

// ---- candidates ------------------------------------------------------------------

/// The ASCII letters and digits of `s`, letters in lower case: one needle then
/// covers every spelling of a probe across platforms.
pub open spec fn normalized(s: Seq<char>) -> Seq<char> {
    text::lower(s.filter(|c: char| text::is_alnum_char(c)))
}

pub fn normalize(s: &str) -> (r: String)
    ensures
        r@ == normalized(s@),
{
    let v = text::to_chars(s);
    let mut r = String::new();
    let mut i: usize = 0;
    let ghost keep = |c: char| text::is_alnum_char(c);
    assert(normalized(s@.take(0)) =~= r@) by {
        reveal(Seq::filter);
    }
    while i < v.len()
        invariant
            i <= v@.len(),
            v@ == s@,
            keep == (|c: char| text::is_alnum_char(c)),
            r@ == text::lower(s@.take(i as int).filter(keep)),
        decreases v@.len() - i,
    {
        proof {
            let next = s@.take(i + 1);
            assert(next.drop_last() =~= s@.take(i as int));
            assert(next.last() == v@[i as int]);
            reveal(Seq::filter);
        }
        let ghost before = s@.take(i as int).filter(keep);
        if text::exec_is_alnum_char(v[i]) {
            r.push(text::exec_lower_char(v[i]));
            assert(text::lower(before.push(v@[i as int])) =~= text::lower(before).push(
                text::lower_char(v@[i as int]),
            ));
        }
        i += 1;
    }
    assert(s@.take(s@.len() as int) =~= s@);
    r
}

/// The name of the vendor rule that admits `vid`.
pub open spec fn vid_rule(vid: u16) -> Seq<char> {
    if vid == SEGGER_VID {
        "segger-vid-match"@
    } else if vid == ESPRESSIF_VID {
        "espressif-vid-match"@
    } else if vid == SILABS_VID {
        "silabs-vid-match"@
    } else {
        "vid-match"@
    }
}

pub fn detected_by_for_vid(vid: u16) -> (r: &'static str)
    ensures
        r@ == vid_rule(vid),
{
    if vid == SEGGER_VID {
        "segger-vid-match"
    } else if vid == ESPRESSIF_VID {
        "espressif-vid-match"
    } else if vid == SILABS_VID {
        "silabs-vid-match"
    } else {
        "vid-match"
    }
}

/// The port that a USB serial device is; `None` for any other serial port.
pub open spec fn usb_port(p: SerialPortModel) -> Option<PortModel> {
    match p.usb {
        Some(usb) => Some(
            PortModel {
                port_name: p.port_name,
                detected_by: vid_rule(usb.vid),
                vendor_id: Some(usb.vid),
                product_id: Some(usb.pid),
                serial_number: usb.serial_number,
                product: usb.product,
                interface: usb.interface,
                guessed_among: None,
            },
        ),
        None => None,
    }
}

fn as_candidate(info: &SerialPortInfo) -> (r: Option<DetectedPort>)
    ensures
        r.deep_view() == usb_port(info.deep_view()),
{
    match &info.usb {
        Some(usb) => Some(
            DetectedPort {
                port_name: info.port_name.clone(),
                detected_by: detected_by_for_vid(usb.vid).to_string(),
                vendor_id: Some(usb.vid),
                product_id: Some(usb.pid),
                serial_number: usb.serial_number.clone(),
                product: usb.product.clone(),
                interface: usb.interface,
                guessed_among: None,
            },
        ),
        None => None,
    }
}

/// The vendors whose devices can carry dev-bench's link.
pub open spec fn is_link_vid(vid: u16) -> bool {
    vid == SEGGER_VID || vid == SILABS_VID
}

/// What `p` contributes to the candidates: nothing when it is no USB device or
/// the vendor gate is on and shuts it out. With the vendor gate off the declared
/// serial, and no vendor rule, is its provenance.
pub open spec fn admitted(p: SerialPortModel, no_vid_gate: bool) -> Option<PortModel> {
    match usb_port(p) {
        Some(c) => if no_vid_gate {
            Some(PortModel { detected_by: DECLARED_SERIAL@, ..c })
        } else if is_link_vid(c.vendor_id->0) {
            Some(c)
        } else {
            None
        },
        None => None,
    }
}

/// The candidates among `ports`, in their order.
pub open spec fn gated(ports: Seq<SerialPortModel>, no_vid_gate: bool) -> Seq<PortModel> {
    ports.filter_map(|p: SerialPortModel| admitted(p, no_vid_gate))
}

fn gate(ports: &Vec<SerialPortInfo>, no_vid_gate: bool) -> (r: Vec<DetectedPort>)
    ensures
        r.deep_view() == gated(ports.deep_view(), no_vid_gate),
{
    let mut r: Vec<DetectedPort> = Vec::new();
    let mut i: usize = 0;
    let ghost all = ports.deep_view();
    let ghost f = |p: SerialPortModel| admitted(p, no_vid_gate);
    assert(all.take(0).filter_map(f) =~= r.deep_view()) by {
        reveal(Seq::filter_map);
    }
    while i < ports.len()
        invariant
            i <= ports@.len(),
            all == ports.deep_view(),
            f == (|p: SerialPortModel| admitted(p, no_vid_gate)),
            r.deep_view() == all.take(i as int).filter_map(f),
        decreases ports@.len() - i,
    {
        let ghost before = r.deep_view();
        assert(all[i as int] == ports@[i as int].deep_view());
        proof {
            all.lemma_filter_map_take_succ(f, i as int);
        }
        match as_candidate(&ports[i]) {
            Some(c) => {
                let mut c = c;
                let passes = no_vid_gate || matches!(c.vendor_id, Some(SEGGER_VID) | Some(SILABS_VID));
                if no_vid_gate {
                    c.detected_by = DECLARED_SERIAL.to_string();
                }
                if passes {
                    let ghost m = c.deep_view();
                    r.push(c);
                    assert(r.deep_view() =~= before + seq![m]);
                }
            },
            None => {},
        }
        assert(r.deep_view() =~= all.take(i + 1).filter_map(f));
        i += 1;
    }
    assert(all.take(i as int) =~= all);
    r
}

// ---- narrowing ---------------------------------------------------------------------

/// The candidate reports the serial `want`, spelling aside.
pub open spec fn has_serial(c: PortModel, want: Seq<char>) -> bool {
    c.serial_number matches Some(s) && normalized(s) == normalized(want)
}

/// The candidate's product string holds the needle. A candidate that reports
/// none is not held to it, and the default needle, which names SEGGER's
/// probes, is not asked of other vendors.
pub open spec fn fits_product(c: PortModel, needle: Seq<char>, is_default: bool) -> bool {
    ||| is_default && c.vendor_id != Some(SEGGER_VID)
    ||| (c.product matches Some(p) ==> text::occurs(normalized(p), needle))
}

pub open spec fn on_interface(c: PortModel, interface: u8) -> bool {
    c.interface == Some(interface)
}

/// The serial rule: a declared serial keeps its matches and nothing else; a
/// fallback serial does so only if it has any.
pub open spec fn by_serial(cs: Seq<PortModel>, f: FilterModel) -> Seq<PortModel> {
    match f.serial {
        Some(want) => {
            let narrowed = cs.filter(|c: PortModel| has_serial(c, want));
            if f.serial_is_fallback && narrowed.len() == 0 {
                cs
            } else {
                narrowed
            }
        },
        None => cs,
    }
}

pub open spec fn by_product(cs: Seq<PortModel>, f: FilterModel) -> Seq<PortModel> {
    match f.product_needle {
        Some(needle) => cs.filter(
            |c: PortModel| fits_product(c, needle, f.product_needle_is_default),
        ),
        None => cs,
    }
}

pub open spec fn by_interface(cs: Seq<PortModel>, f: FilterModel) -> Seq<PortModel> {
    match f.interface {
        Some(i) => cs.filter(|c: PortModel| on_interface(c, i)),
        None => cs,
    }
}

fn reports_serial(c: &DetectedPort, want: &str) -> (r: bool)
    ensures
        r == has_serial(c.deep_view(), want@),
{
    match &c.serial_number {
        Some(s) => normalize(s.as_str()) == normalize(want),
        None => false,
    }
}

fn holds_needle(c: &DetectedPort, needle: &str, is_default: bool) -> (r: bool)
    ensures
        r == fits_product(c.deep_view(), needle@, is_default),
{
    if is_default && c.vendor_id != Some(SEGGER_VID) {
        return true;
    }
    match &c.product {
        Some(p) => text::contains(normalize(p.as_str()).as_str(), needle),
        None => true,
    }
}

// ---- order --------------------------------------------------------------------------

/// Port order: by interface, where none comes first, if `interface_first`;
/// then by name.
pub open spec fn port_le(interface_first: bool, a: PortModel, b: PortModel) -> bool {
    if interface_first && a.interface != b.interface {
        match (a.interface, b.interface) {
            (None, _) => true,
            (Some(_), None) => false,
            (Some(x), Some(y)) => x < y,
        }
    } else {
        text::lex_le(a.port_name, b.port_name)
    }
}

/// `p` put into `s` behind every port that it does not come before.
pub open spec fn inserted(interface_first: bool, s: Seq<PortModel>, p: PortModel) -> Seq<PortModel>
    decreases s.len(),
{
    if s.len() == 0 || port_le(interface_first, s.last(), p) {
        s.push(p)
    } else {
        inserted(interface_first, s.drop_last(), p).push(s.last())
    }
}

/// `s` in port order; ports that compare equal keep their order.
pub open spec fn sorted(interface_first: bool, s: Seq<PortModel>) -> Seq<PortModel>
    decreases s.len(),
{
    if s.len() == 0 {
        s
    } else {
        inserted(interface_first, sorted(interface_first, s.drop_last()), s.last())
    }
}

fn exec_port_le(interface_first: bool, a: &DetectedPort, b: &DetectedPort) -> (r: bool)
    ensures
        r == port_le(interface_first, a.deep_view(), b.deep_view()),
{
    if interface_first && a.interface != b.interface {
        match (a.interface, b.interface) {
            (None, _) => true,
            (Some(_), None) => false,
            (Some(x), Some(y)) => x < y,
        }
    } else {
        text::str_le(a.port_name.as_str(), b.port_name.as_str())
    }
}

fn insert_port(interface_first: bool, v: &mut Vec<DetectedPort>, p: DetectedPort)
    ensures
        final(v).deep_view() == inserted(interface_first, old(v).deep_view(), p.deep_view()),
{
    let ghost all = v.deep_view();
    let ghost m = p.deep_view();
    let mut i: usize = v.len();
    assert(all.take(i as int) =~= all);
    assert(inserted(interface_first, all, m) =~= inserted(interface_first, all.take(i as int), m)
        + all.skip(i as int));
    while i > 0 && !exec_port_le(interface_first, &v[i - 1], &p)
        invariant
            i <= v@.len(),
            all == v.deep_view(),
            m == p.deep_view(),
            inserted(interface_first, all, m) == inserted(interface_first, all.take(i as int), m)
                + all.skip(i as int),
        decreases i,
    {
        proof {
            let cur = all.take(i as int);
            assert(cur.last() == v@[i - 1].deep_view());
            assert(cur.drop_last() =~= all.take(i - 1));
            assert(inserted(interface_first, cur, m) + all.skip(i as int) =~= inserted(
                interface_first,
                all.take(i - 1),
                m,
            ) + all.skip(i - 1));
        }
        i -= 1;
    }
    proof {
        let cur = all.take(i as int);
        if i > 0 {
            assert(cur.last() == v@[i - 1].deep_view());
        }
        assert(inserted(interface_first, cur, m) == cur.push(m));
    }
    v.insert(i, p);
    assert(v.deep_view() =~= all.take(i as int).push(m) + all.skip(i as int));
}

fn sort_ports(interface_first: bool, v: Vec<DetectedPort>) -> (r: Vec<DetectedPort>)
    ensures
        r.deep_view() == sorted(interface_first, v.deep_view()),
{
    let mut rest = v;
    let mut r: Vec<DetectedPort> = Vec::new();
    let ghost all = v.deep_view();
    let ghost mut k: int = 0;
    assert(r.deep_view() =~= sorted(interface_first, all.take(0)));
    assert(all.skip(0) =~= all);
    while rest.len() > 0
        invariant
            0 <= k <= all.len(),
            rest.deep_view() == all.skip(k),
            r.deep_view() == sorted(interface_first, all.take(k)),
        decreases rest@.len(),
    {
        let ghost before = rest.deep_view();
        let p = rest.remove(0);
        proof {
            assert(before[0] == p.deep_view());
            assert(rest.deep_view() =~= before.remove(0));
            assert(rest.deep_view() =~= all.skip(k + 1));
            assert(all.take(k + 1).drop_last() =~= all.take(k));
            assert(all.take(k + 1).last() == p.deep_view());
            k = k + 1;
        }
        insert_port(interface_first, &mut r, p);
    }
    proof {
        assert(rest.deep_view().len() == 0);
        assert(all.take(k) =~= all);
    }
    r
}

// ---- the answer ----------------------------------------------------------------------

/// Which rule left no candidate: the first, in the order they apply.
#[derive(Debug, Clone, Copy, PartialEq, Eq, Structural)]
pub enum ExcludingRule {
    /// No enumerated port reports one of the two vendors that the vendor gate admits.
    NoRecognizedVid,
    /// A declared serial matched no candidate. A fallback serial never causes
    /// this: it narrows only where it matches.
    DeclaredSerial,
    /// A declared interface matched no candidate that the other rules left.
    DeclaredInterface,
    /// The product needle excluded every candidate that was left.
    Other,
}

/// No port matched: dev-bench is not plugged in, or a declared fact shuts every
/// port out. A normal state, unlike an ambiguous one.
#[derive(Debug, PartialEq, Eq)]
pub struct NotFound {
    pub candidate_vid_ports_seen: usize,
    pub total_ports_seen: usize,
    pub excluding_rule: ExcludingRule,
    /// This process looks like it runs inside a WSL2 guest. [`select`] reads no
    /// machine and leaves it `false`; [`detect`] fills it in.
    pub likely_wsl2: bool,
}

#[verifier::ext_equal]
pub ghost struct NotFoundModel {
    pub candidate_vid_ports_seen: nat,
    pub total_ports_seen: nat,
    pub excluding_rule: ExcludingRule,
    pub likely_wsl2: bool,
}

impl DeepView for NotFound {
    type V = NotFoundModel;

    open spec fn deep_view(&self) -> NotFoundModel {
        NotFoundModel {
            candidate_vid_ports_seen: self.candidate_vid_ports_seen as nat,
            total_ports_seen: self.total_ports_seen as nat,
            excluding_rule: self.excluding_rule,
            likely_wsl2: self.likely_wsl2,
        }
    }
}

/// Why no single port could be named.
#[derive(Debug, PartialEq, Eq)]
pub enum SelectError {
    NotFound(NotFound),
    /// Several candidates are left, in port order, and they are not the known
    /// interfaces of one probe.
    Ambiguous(Vec<DetectedPort>),
}

pub ghost enum SelectFailure {
    NotFound(NotFoundModel),
    Ambiguous(Seq<PortModel>),
}

impl DeepView for SelectError {
    type V = SelectFailure;

    open spec fn deep_view(&self) -> SelectFailure {
        match *self {
            SelectError::NotFound(n) => SelectFailure::NotFound(n.deep_view()),
            SelectError::Ambiguous(v) => SelectFailure::Ambiguous(v.deep_view()),
        }
    }
}

/// The candidates that every rule keeps.
pub open spec fn narrowed(ports: Seq<SerialPortModel>, f: FilterModel) -> Seq<PortModel> {
    by_interface(by_product(by_serial(gated(ports, f.no_vid_gate), f), f), f)
}

/// The first rule that left no candidate, given that one did.
pub open spec fn emptied_by(ports: Seq<SerialPortModel>, f: FilterModel) -> ExcludingRule {
    let gate = gated(ports, f.no_vid_gate);
    if gate.len() == 0 {
        ExcludingRule::NoRecognizedVid
    } else if by_serial(gate, f).len() == 0 {
        ExcludingRule::DeclaredSerial
    } else if by_product(by_serial(gate, f), f).len() == 0 {
        ExcludingRule::Other
    } else {
        ExcludingRule::DeclaredInterface
    }
}

/// The candidates are interfaces of one USB device.
pub open spec fn one_probe(cs: Seq<PortModel>) -> bool {
    forall|i: int|
        0 <= i < cs.len() ==> (#[trigger] cs[i]).vendor_id == cs[0].vendor_id
            && cs[i].serial_number == cs[0].serial_number
}

pub open spec fn interfaces_known(cs: Seq<PortModel>) -> bool {
    forall|i: int| 0 <= i < cs.len() ==> (#[trigger] cs[i]).interface is Some
}

/// The answer for the candidates `cs`, in port order: the only one; or, when
/// they are the known interfaces of one probe, the lowest of them, marked as a
/// guess; or that the choice is ambiguous. `None` when there are none.
pub open spec fn choice(cs: Seq<PortModel>) -> Option<Result<PortModel, Seq<PortModel>>> {
    if cs.len() == 0 {
        None
    } else if cs.len() == 1 {
        Some(Ok(cs[0]))
    } else if one_probe(cs) && interfaces_known(cs) {
        Some(Ok(PortModel { guessed_among: Some(cs.len()), ..cs[0] }))
    } else {
        Some(Err(cs))
    }
}

/// What [`select`] returns.
pub open spec fn selected(ports: Seq<SerialPortModel>, f: FilterModel) -> Result<
    PortModel,
    SelectFailure,
> {
    match choice(sorted(true, narrowed(ports, f))) {
        Some(Ok(p)) => Ok(p),
        Some(Err(cs)) => Err(SelectFailure::Ambiguous(cs)),
        None => Err(
            SelectFailure::NotFound(
                NotFoundModel {
                    candidate_vid_ports_seen: gated(ports, f.no_vid_gate).len(),
                    total_ports_seen: ports.len(),
                    excluding_rule: emptied_by(ports, f),
                    likely_wsl2: false,
                },
            ),
        ),
    }
}

/// A result with its port and its error taken by their models.
pub open spec fn select_view(r: Result<DetectedPort, SelectError>) -> Result<
    PortModel,
    SelectFailure,
> {
    match r {
        Ok(p) => Ok(p.deep_view()),
        Err(e) => Err(e.deep_view()),
    }
}

proof fn lemma_inserted_len(interface_first: bool, s: Seq<PortModel>, p: PortModel)
    ensures
        inserted(interface_first, s, p).len() == s.len() + 1,
    decreases s.len(),
{
    if s.len() > 0 && !port_le(interface_first, s.last(), p) {
        lemma_inserted_len(interface_first, s.drop_last(), p);
    }
}

proof fn lemma_sorted_len(interface_first: bool, s: Seq<PortModel>)
    ensures
        sorted(interface_first, s).len() == s.len(),
    decreases s.len(),
{
    if s.len() > 0 {
        lemma_sorted_len(interface_first, s.drop_last());
        lemma_inserted_len(interface_first, sorted(interface_first, s.drop_last()), s.last());
    }
}

/// Whether the candidates are interfaces of one USB device, each with a known
/// interface number.
fn is_one_known_probe(cs: &Vec<DetectedPort>) -> (r: bool)
    requires
        cs@.len() > 0,
    ensures
        r == (one_probe(cs.deep_view()) && interfaces_known(cs.deep_view())),
{
    let ghost m = cs.deep_view();
    let mut i: usize = 0;
    while i < cs.len()
        invariant
            i <= cs@.len(),
            cs@.len() > 0,
            m == cs.deep_view(),
            forall|j: int|
                0 <= j < i ==> (#[trigger] m[j]).vendor_id == m[0].vendor_id && m[j].serial_number
                    == m[0].serial_number && m[j].interface is Some,
        decreases cs@.len() - i,
    {
        assert(m[i as int] == cs@[i as int].deep_view());
        assert(m[0] == cs@[0].deep_view());
        if cs[i].vendor_id != cs[0].vendor_id || !text::same_opt(
            &cs[i].serial_number,
            &cs[0].serial_number,
        ) || cs[i].interface.is_none() {
            return false;
        }
        i += 1;
    }
    true
}

/// Applies the vendor gate and the serial, product and interface rules to
/// ports that were already enumerated.
pub fn select(ports: &Vec<SerialPortInfo>, filter: &Filter) -> (r: Result<DetectedPort, SelectError>)
    ensures
        select_view(r) == selected(ports.deep_view(), filter.deep_view()),
{
    let ghost all = ports.deep_view();
    let ghost f = filter.deep_view();
    let mut candidates = gate(ports, filter.no_vid_gate);
    let candidate_vid_ports_seen: usize = candidates.len();
    let mut excluding_rule = ExcludingRule::NoRecognizedVid;
    let ghost gate_out = candidates.deep_view();

    if let Some(serial) = &filter.serial {
        let ghost p = |c: PortModel| has_serial(c, serial@);
        let matches_serial = |c: &DetectedPort| -> (b: bool)
            ensures
                b == has_serial(c.deep_view(), serial@)
        {
            reports_serial(c, serial.as_str())
        };
        let found: usize = lists::find_position(&candidates, matches_serial, Ghost(p));
        proof {
            lists::lemma_filter_finds(gate_out, p);
        }
        if !filter.serial_is_fallback || found < candidates.len() {
            if candidates.len() > 0 {
                excluding_rule = ExcludingRule::DeclaredSerial;
            }
            lists::retain(&mut candidates, matches_serial, Ghost(p));
        }
    }
    let ghost serial_out = candidates.deep_view();
    assert(serial_out == by_serial(gate_out, f));

    if let Some(needle) = &filter.product_needle {
        let is_default = filter.product_needle_is_default;
        if candidates.len() > 0 {
            excluding_rule = ExcludingRule::Other;
        }
        let fits = |c: &DetectedPort| -> (b: bool)
            ensures
                b == fits_product(c.deep_view(), needle@, is_default)
        {
            holds_needle(c, needle.as_str(), is_default)
        };
        lists::retain(
            &mut candidates,
            fits,
            Ghost(|c: PortModel| fits_product(c, needle@, is_default)),
        );
    }
    let ghost product_out = candidates.deep_view();
    assert(product_out == by_product(serial_out, f));

    if let Some(interface) = filter.interface {
        if candidates.len() > 0 {
            excluding_rule = ExcludingRule::DeclaredInterface;
        }
        let carries = |c: &DetectedPort| -> (b: bool)
            ensures
                b == on_interface(c.deep_view(), interface)
        {
            c.interface == Some(interface)
        };
        lists::retain(
            &mut candidates,
            carries,
            Ghost(|c: PortModel| on_interface(c, interface)),
        );
    }
    let ghost left = candidates.deep_view();
    assert(left == narrowed(all, f));

    let mut candidates = sort_ports(true, candidates);
    proof {
        lemma_sorted_len(true, left);
    }
    if candidates.len() == 0 {
        proof {
            assert(left.len() == 0);
        }
        return Err(
            SelectError::NotFound(
                NotFound {
                    candidate_vid_ports_seen,
                    total_ports_seen: ports.len(),
                    excluding_rule,
                    likely_wsl2: false,
                },
            ),
        );
    }
    let n: usize = candidates.len();
    if n > 1 && !is_one_known_probe(&candidates) {
        return Err(SelectError::Ambiguous(candidates));
    }
    let ghost s = candidates.deep_view();
    let mut first = candidates.remove(0);
    assert(first.deep_view() == s[0]);
    if n > 1 {
        first.guessed_among = Some(n);
    }
    Ok(first)
}

// ---- on this machine -------------------------------------------------------------------

/// The serial ports could not be enumerated.
#[derive(Debug, PartialEq, Eq)]
pub struct EnumerationFailed {
    /// What the operating system answered.
    pub cause: String,
}

impl EnumerationFailed {
    pub fn message(&self) -> (r: String)
        ensures
            r@ == "failed to enumerate serial ports"@,
    {
        "failed to enumerate serial ports".to_string()
    }
}

/// Why dev-bench's port could not be named on this machine.
#[derive(Debug, PartialEq, Eq)]
pub enum DetectError {
    Enumeration(EnumerationFailed),
    Select(SelectError),
}

pub ghost enum DetectFailure {
    Enumeration(Seq<char>),
    Select(SelectFailure),
}

impl DeepView for DetectError {
    type V = DetectFailure;

    open spec fn deep_view(&self) -> DetectFailure {
        match *self {
            DetectError::Enumeration(e) => DetectFailure::Enumeration(e.cause@),
            DetectError::Select(e) => DetectFailure::Select(e.deep_view()),
        }
    }
}

impl DetectError {
    /// What a human is told.
    pub fn message(&self) -> (r: String)
        ensures
            r@ == (match self.deep_view() {
                DetectFailure::Enumeration(_) => "failed to enumerate serial ports"@,
                DetectFailure::Select(e) => select_failure_text(e),
            }),
    {
        match self {
            DetectError::Enumeration(e) => e.message(),
            DetectError::Select(e) => e.message(),
        }
    }
}

/// [`selected`] with what is known of the machine filled in.
pub open spec fn on_this_machine(
    r: Result<PortModel, SelectFailure>,
    likely_wsl2: bool,
) -> Result<PortModel, DetectFailure> {
    match r {
        Ok(p) => Ok(p),
        Err(SelectFailure::NotFound(n)) => Err(
            DetectFailure::Select(SelectFailure::NotFound(NotFoundModel { likely_wsl2, ..n })),
        ),
        Err(e) => Err(DetectFailure::Select(e)),
    }
}

pub open spec fn detect_view(r: Result<DetectedPort, DetectError>) -> Result<
    PortModel,
    DetectFailure,
> {
    match r {
        Ok(p) => Ok(p.deep_view()),
        Err(e) => Err(e.deep_view()),
    }
}

/// Names dev-bench's port, from what loading the enrollment table gave, what
/// enumerating the serial ports gave, and whether this process looks like it runs
/// inside a WSL2 guest.
pub fn detect(
    store: &Result<Store, String>,
    ports: &Result<Vec<SerialPortInfo>, String>,
    likely_wsl2: bool,
) -> (r: Result<DevBenchPort, DetectError>)
    ensures
        ports matches Ok(ps) ==> detect_view(r) == on_this_machine(
            selected(ps.deep_view(), link_filter(dev_bench_row(*store))),
            likely_wsl2,
        ),
        ports matches Err(cause) ==> detect_view(r) == Err::<PortModel, DetectFailure>(
            DetectFailure::Enumeration(cause@),
        ),
{
    let filter = Filter::resolve(store);
    match ports {
        Ok(ps) => match select(ps, &filter) {
            Ok(p) => Ok(p),
            Err(SelectError::NotFound(n)) => {
                let mut n = n;
                n.likely_wsl2 = likely_wsl2;
                Err(DetectError::Select(SelectError::NotFound(n)))
            },
            Err(e) => Err(DetectError::Select(e)),
        },
        Err(cause) => Err(DetectError::Enumeration(EnumerationFailed { cause: cause.clone() })),
    }
}

// ---- every USB port --------------------------------------------------------------------

/// `p` listed without any rule applied to it.
pub open spec fn listed(p: SerialPortModel) -> Option<PortModel> {
    match usb_port(p) {
        Some(c) => Some(PortModel { detected_by: ENUMERATED@, ..c }),
        None => None,
    }
}

/// Every USB port of `ports`, by name.
pub open spec fn all_listed(ports: Seq<SerialPortModel>) -> Seq<PortModel> {
    sorted(false, ports.filter_map(|p: SerialPortModel| listed(p)))
}

/// Every enumerated port that reports a USB identity, whatever its vendor,
/// sorted by name: the list a human picks a wire's carrier from. A port without
/// a USB identity has no serial to declare it by and is left out.
pub fn enumerate_in(ports: &Vec<SerialPortInfo>) -> (r: Vec<DetectedPort>)
    ensures
        r.deep_view() == all_listed(ports.deep_view()),
{
    let mut r: Vec<DetectedPort> = Vec::new();
    let mut i: usize = 0;
    let ghost all = ports.deep_view();
    let ghost f = |p: SerialPortModel| listed(p);
    assert(all.take(0).filter_map(f) =~= r.deep_view());
    while i < ports.len()
        invariant
            i <= ports@.len(),
            all == ports.deep_view(),
            f == (|p: SerialPortModel| listed(p)),
            r.deep_view() == all.take(i as int).filter_map(f),
        decreases ports@.len() - i,
    {
        let ghost before = r.deep_view();
        assert(all[i as int] == ports@[i as int].deep_view());
        proof {
            all.lemma_filter_map_take_succ(f, i as int);
        }
        if let Some(c) = as_candidate(&ports[i]) {
            let mut c = c;
            c.detected_by = ENUMERATED.to_string();
            let ghost m = c.deep_view();
            r.push(c);
            assert(r.deep_view() =~= before + seq![m]);
        }
        assert(r.deep_view() =~= all.take(i + 1).filter_map(f));
        i += 1;
    }
    assert(all.take(i as int) =~= all);
    sort_ports(false, r)
}

/// Every USB serial port of this machine, from what enumerating them gave.
pub fn enumerate(ports: &Result<Vec<SerialPortInfo>, String>) -> (r: Result<
    Vec<DetectedPort>,
    EnumerationFailed,
>)
    ensures
        ports matches Ok(ps) ==> r matches Ok(v) && v.deep_view() == all_listed(ps.deep_view()),
        ports matches Err(cause) ==> r matches Err(e) && e.cause@ == cause@,
{
    match ports {
        Ok(ps) => Ok(enumerate_in(ps)),
        Err(cause) => Err(EnumerationFailed { cause: cause.clone() }),
    }
}

// ---- what a human is told ----------------------------------------------------------------

/// Zero ports inside what looks like WSL2: the wrong host is the first suspect.
pub const WRONG_HOST_TEXT: &'static str =
    "no embarch-dev-bench serial port found (0 serial port(s) visible) — this looks \
     like WSL2, and 0 ports visible almost always means Core (and this port scan) is \
     running on the wrong host, not that every cable fell out: run `embarch-topology \
     status` to see whether Core resolved on the Windows host instead, then `usbipd \
     attach` the board from there. If dev-bench really is meant to be reachable from \
     here, check its USB connection.";

/// The vendors, as the tail of the first sentence names them.
pub const LINK_VIDS_TEXT: &'static str =
    " with a recognized link VID (0x1366 SEGGER / 0x10c4 Silicon Labs — 0x303a \
     Espressif's native USB-Serial/JTAG is JTAG-only, see that constant's own doc comment))";

pub const CHECK_USB_ADVICE: &'static str =
    " — check dev-bench's USB connection (and `usbipd attach`, if Core and the board \
     are on different hosts)";

pub const STALE_SERIAL_ADVICE: &'static str =
    " — the declared link port serial no longer matches any attached port; clear it \
     with `embarch-topology set-dev-bench-link --clear-serial` (falls back to the \
     enrolled probe's own serial), or declare the current one with `embarch-topology \
     set-dev-bench-link --serial <serial>`";

pub const STALE_INTERFACE_ADVICE: &'static str =
    " — the declared link port interface matches no attached port; clear it with \
     `embarch-topology set-dev-bench-link --clear-interface`, or declare the current \
     one with `embarch-topology set-dev-bench-link --interface <n>`";

pub const RE_ENROLL_ADVICE: &'static str =
    " — a matching probe/board is attached but enrollment's dev-bench-role fallback \
     excluded it; re-enroll dev-bench (`embarch-topology enroll --role dev-bench`) \
     with only its own probe attached";

/// The fix that can work, given the rule that left no candidate.
pub open spec fn advice(rule: ExcludingRule) -> Seq<char> {
    match rule {
        ExcludingRule::NoRecognizedVid => CHECK_USB_ADVICE@,
        ExcludingRule::DeclaredSerial => STALE_SERIAL_ADVICE@,
        ExcludingRule::DeclaredInterface => STALE_INTERFACE_ADVICE@,
        ExcludingRule::Other => RE_ENROLL_ADVICE@,
    }
}

pub open spec fn not_found_text(n: NotFoundModel) -> Seq<char> {
    if n.total_ports_seen == 0 && n.likely_wsl2 {
        WRONG_HOST_TEXT@
    } else {
        "no embarch-dev-bench serial port found ("@ + text::decimal(n.total_ports_seen)
            + " serial port(s) visible, "@ + text::decimal(n.candidate_vid_ports_seen)
            + LINK_VIDS_TEXT@ + advice(n.excluding_rule)
    }
}

impl NotFound {
    /// What a human is told: what was seen, and the fix that can work.
    pub fn message(&self) -> (r: String)
        ensures
            r@ == not_found_text(self.deep_view()),
    {
        if self.total_ports_seen == 0 && self.likely_wsl2 {
            return WRONG_HOST_TEXT.to_string();
        }
        let mut r = "no embarch-dev-bench serial port found (".to_string();
        r.append(text::to_decimal(self.total_ports_seen as u64).as_str());
        r.append(" serial port(s) visible, ");
        r.append(text::to_decimal(self.candidate_vid_ports_seen as u64).as_str());
        r.append(LINK_VIDS_TEXT);
        match self.excluding_rule {
            ExcludingRule::NoRecognizedVid => r.append(CHECK_USB_ADVICE),
            ExcludingRule::DeclaredSerial => r.append(STALE_SERIAL_ADVICE),
            ExcludingRule::DeclaredInterface => r.append(STALE_INTERFACE_ADVICE),
            ExcludingRule::Other => r.append(RE_ENROLL_ADVICE),
        }
        r
    }
}

/// One candidate on a line of its own, with its serial and its product as they are
/// shown.
pub open spec fn candidate_text(
    port_name: Seq<char>,
    product_id: Option<u16>,
    serial: Seq<char>,
    product: Seq<char>,
    interface: Option<u8>,
) -> Seq<char> {
    "  "@ + port_name + " (pid 0x"@ + text::hex_fixed(
        match product_id {
            Some(pid) => pid as nat,
            None => 0,
        },
        4,
    ) + ", serial "@ + serial + ", product "@ + product + ", interface "@ + text::opt_u8_debug(
        interface,
    ) + ")"@
}

pub open spec fn port_line(c: PortModel) -> Seq<char> {
    candidate_text(
        c.port_name,
        c.product_id,
        text::opt_str_debug(c.serial_number),
        text::opt_str_debug(c.product),
        c.interface,
    )
}

pub open spec fn described(cs: Seq<PortModel>) -> Seq<char> {
    text::joined(Seq::new(cs.len(), |i: int| port_line(cs[i])), "\n"@)
}

/// Writes one candidate down, with its serial and its product as they are shown.
pub fn candidate_line(
    port_name: &str,
    product_id: Option<u16>,
    serial: &str,
    product: &str,
    interface: Option<u8>,
) -> (r: String)
    ensures
        r@ == candidate_text(port_name@, product_id, serial@, product@, interface),
{
    let pid: u16 = match product_id {
        Some(pid) => pid,
        None => 0,
    };
    let mut r = "  ".to_string();
    r.append(port_name);
    r.append(" (pid 0x");
    r.append(text::to_hex_fixed(pid as u64, 4).as_str());
    r.append(", serial ");
    r.append(serial);
    r.append(", product ");
    r.append(product);
    r.append(", interface ");
    r.append(text::debug_opt_u8(interface).as_str());
    r.append(")");
    r
}

fn describe_one(c: &DetectedPort) -> (r: String)
    ensures
        r@ == port_line(c.deep_view()),
{
    candidate_line(
        c.port_name.as_str(),
        c.product_id,
        text::debug_opt_str(&c.serial_number).as_str(),
        text::debug_opt_str(&c.product).as_str(),
        c.interface,
    )
}

pub fn describe(candidates: &Vec<DetectedPort>) -> (r: String)
    ensures
        r@ == described(candidates.deep_view()),
{
    let mut parts: Vec<String> = Vec::new();
    let mut i: usize = 0;
    let ghost m = candidates.deep_view();
    while i < candidates.len()
        invariant
            i <= candidates@.len(),
            m == candidates.deep_view(),
            text::texts(parts@) =~= Seq::new(i as nat, |j: int| port_line(m[j])),
        decreases candidates@.len() - i,
    {
        let ghost before = text::texts(parts@);
        let line = describe_one(&candidates[i]);
        assert(m[i as int] == candidates@[i as int].deep_view());
        parts.push(line);
        assert(text::texts(parts@) =~= before.push(line@));
        i += 1;
    }
    assert(text::texts(parts@) =~= Seq::new(m.len(), |j: int| port_line(m[j])));
    text::join(&parts, "\n")
}

pub const DISAMBIGUATE_ADVICE: &'static str =
    "\nif dev-bench's runtime link is on its own USB device (a UART bridge, separate from \
     its JTAG probe), declare that port's own serial with `embarch-topology \
     set-dev-bench-link --serial <serial>`; otherwise re-enroll the intended board's \
     serial via `embarch-topology enroll --role dev-bench`, or physically disconnect \
     the other candidate";

pub open spec fn ambiguous_text(cs: Seq<PortModel>) -> Seq<char> {
    "ambiguous embarch-dev-bench detection — "@ + text::decimal(cs.len())
        + " candidate ports match:\n"@ + described(cs) + DISAMBIGUATE_ADVICE@
}

pub open spec fn select_failure_text(e: SelectFailure) -> Seq<char> {
    match e {
        SelectFailure::NotFound(n) => not_found_text(n),
        SelectFailure::Ambiguous(cs) => ambiguous_text(cs),
    }
}

impl SelectError {
    /// What a human is told.
    pub fn message(&self) -> (r: String)
        ensures
            r@ == select_failure_text(self.deep_view()),
    {
        match self {
            SelectError::NotFound(n) => n.message(),
            SelectError::Ambiguous(candidates) => {
                let mut r = "ambiguous embarch-dev-bench detection — ".to_string();
                r.append(text::to_decimal(candidates.len() as u64).as_str());
                r.append(" candidate ports match:\n");
                r.append(describe(candidates).as_str());
                r.append(DISAMBIGUATE_ADVICE);
                r
            },
        }
    }
}

// ---- what the selection promises ------------------------------------------------------

proof fn lemma_port_total(interface_first: bool, a: PortModel, b: PortModel)
    ensures
        port_le(interface_first, a, b) || port_le(interface_first, b, a),
{
    text::lemma_lex_total(a.port_name, b.port_name);
}

proof fn lemma_port_transitive(interface_first: bool, a: PortModel, b: PortModel, c: PortModel)
    requires
        port_le(interface_first, a, b),
        port_le(interface_first, b, c),
    ensures
        port_le(interface_first, a, c),
{
    if text::lex_le(a.port_name, b.port_name) && text::lex_le(b.port_name, c.port_name) {
        text::lemma_lex_transitive(a.port_name, b.port_name, c.port_name);
    }
}

pub open spec fn in_port_order(interface_first: bool, s: Seq<PortModel>) -> bool {
    forall|i: int, j: int|
        0 <= i < j < s.len() ==> port_le(interface_first, #[trigger] s[i], #[trigger] s[j])
}

proof fn lemma_inserted(interface_first: bool, s: Seq<PortModel>, p: PortModel)
    requires
        in_port_order(interface_first, s),
    ensures
        in_port_order(interface_first, inserted(interface_first, s, p)),
        inserted(interface_first, s, p).to_multiset() == s.to_multiset().insert(p),
    decreases s.len(),
{
    broadcast use vstd::seq_lib::group_to_multiset_ensures;

    let r = inserted(interface_first, s, p);
    if s.len() == 0 || port_le(interface_first, s.last(), p) {
        assert forall|i: int, j: int| 0 <= i < j < r.len() implies port_le(
            interface_first,
            #[trigger] r[i],
            #[trigger] r[j],
        ) by {
            if j == s.len() && i < s.len() - 1 {
                lemma_port_transitive(interface_first, s[i], s.last(), p);
            }
        }
    } else {
        let t = s.drop_last();
        let q = inserted(interface_first, t, p);
        lemma_inserted(interface_first, t, p);
        lemma_port_total(interface_first, s.last(), p);
        assert(s =~= t.push(s.last()));
        assert(q.push(s.last()).to_multiset() == q.to_multiset().insert(s.last()));
        assert(t.push(s.last()).to_multiset() == t.to_multiset().insert(s.last()));
        assert(r.to_multiset() =~= s.to_multiset().insert(p));
        assert forall|i: int| 0 <= i < q.len() implies port_le(
            interface_first,
            #[trigger] q[i],
            s.last(),
        ) by {
            assert(q.to_multiset().contains(q[i]));
            if q[i] != p {
                assert(t.to_multiset().contains(q[i]));
                assert(t.contains(q[i]));
                let k = choose|k: int| 0 <= k < t.len() && t[k] == q[i];
                assert(port_le(interface_first, s[k], s[s.len() - 1]));
            }
        }
        assert forall|i: int, j: int| 0 <= i < j < r.len() implies port_le(
            interface_first,
            #[trigger] r[i],
            #[trigger] r[j],
        ) by {
            assert(r[i] == q[i]);
            if j < q.len() {
                assert(r[j] == q[j]);
            }
        }
    }
}

/// Sorting puts ports in port order and neither adds nor loses one.
pub proof fn law_sorting_orders_and_permutes(interface_first: bool, s: Seq<PortModel>)
    ensures
        in_port_order(interface_first, sorted(interface_first, s)),
        sorted(interface_first, s).to_multiset() == s.to_multiset(),
    decreases s.len(),
{
    broadcast use vstd::seq_lib::group_to_multiset_ensures;

    if s.len() > 0 {
        let t = s.drop_last();
        law_sorting_orders_and_permutes(interface_first, t);
        lemma_inserted(interface_first, sorted(interface_first, t), s.last());
        assert(s =~= t.push(s.last()));
    }
}

/// The ports that stand where `x` stands in port order.
pub open spec fn level_with(interface_first: bool, x: PortModel) -> spec_fn(PortModel) -> bool {
    |c: PortModel| port_le(interface_first, c, x) && port_le(interface_first, x, c)
}

proof fn lemma_inserted_level(
    interface_first: bool,
    s: Seq<PortModel>,
    p: PortModel,
    x: PortModel,
)
    ensures
        inserted(interface_first, s, p).filter(level_with(interface_first, x)) == (if level_with(
            interface_first,
            x,
        )(p) {
            s.filter(level_with(interface_first, x)).push(p)
        } else {
            s.filter(level_with(interface_first, x))
        }),
    decreases s.len(),
{
    let q = level_with(interface_first, x);
    if s.len() == 0 || port_le(interface_first, s.last(), p) {
        lists::lemma_filter_push(s, p, q);
    } else {
        let t = s.drop_last();
        let last = s.last();
        lemma_inserted_level(interface_first, t, p, x);
        lists::lemma_filter_push(inserted(interface_first, t, p), last, q);
        lists::lemma_filter_push(t, last, q);
        assert(s =~= t.push(last));
        if q(p) && q(last) {
            lemma_port_transitive(interface_first, last, x, p);
        }
    }
}

/// Sorting is stable: ports that stand level keep the order they had.
pub proof fn law_sorting_is_stable(interface_first: bool, s: Seq<PortModel>, x: PortModel)
    ensures
        sorted(interface_first, s).filter(level_with(interface_first, x)) == s.filter(
            level_with(interface_first, x),
        ),
    decreases s.len(),
{
    let q = level_with(interface_first, x);
    if s.len() > 0 {
        let t = s.drop_last();
        law_sorting_is_stable(interface_first, t, x);
        lemma_inserted_level(interface_first, sorted(interface_first, t), s.last(), x);
        lists::lemma_filter_push(t, s.last(), q);
        assert(s =~= t.push(s.last()));
    }
}

/// A sorted list has the same items.
proof fn lemma_sorted_contains(interface_first: bool, s: Seq<PortModel>, c: PortModel)
    ensures
        sorted(interface_first, s).contains(c) <==> s.contains(c),
{
    broadcast use vstd::seq_lib::group_to_multiset_ensures;

    law_sorting_orders_and_permutes(interface_first, s);
    assert(sorted(interface_first, s).contains(c) <==> sorted(
        interface_first,
        s,
    ).to_multiset().contains(c));
    assert(s.contains(c) <==> s.to_multiset().contains(c));
}

/// `c` passed every rule of `f`; a fallback serial asks nothing.
pub open spec fn passes(c: PortModel, f: FilterModel) -> bool {
    &&& f.serial matches Some(want) ==> f.serial_is_fallback || has_serial(c, want)
    &&& f.product_needle matches Some(needle) ==> fits_product(
        c,
        needle,
        f.product_needle_is_default,
    )
    &&& f.interface matches Some(i) ==> on_interface(c, i)
}

/// What the rules leave are candidates that passed them.
proof fn lemma_narrowed(ports: Seq<SerialPortModel>, f: FilterModel, c: PortModel)
    requires
        narrowed(ports, f).contains(c),
    ensures
        passes(c, f),
        gated(ports, f.no_vid_gate).contains(c),
        c.guessed_among is None,
        exists|i: int|
            0 <= i < ports.len() && admitted(#[trigger] ports[i], f.no_vid_gate) == Some(c),
{
    let gate_out = gated(ports, f.no_vid_gate);
    let serial_out = by_serial(gate_out, f);
    let product_out = by_product(serial_out, f);
    if let Some(i) = f.interface {
        let p = |c: PortModel| on_interface(c, i);
        product_out.lemma_filter_contains_rev(p, c);
        lemma_filter_says(product_out, p, c);
    }
    if let Some(needle) = f.product_needle {
        let p = |c: PortModel| fits_product(c, needle, f.product_needle_is_default);
        serial_out.lemma_filter_contains_rev(p, c);
        lemma_filter_says(serial_out, p, c);
    }
    if let Some(want) = f.serial {
        let p = |c: PortModel| has_serial(c, want);
        if !(f.serial_is_fallback && gate_out.filter(p).len() == 0) {
            gate_out.lemma_filter_contains_rev(p, c);
            lemma_filter_says(gate_out, p, c);
        }
    }
    ports.lemma_filter_map_contains(|p: SerialPortModel| admitted(p, f.no_vid_gate), c);
}

proof fn lemma_filter_says(s: Seq<PortModel>, p: spec_fn(PortModel) -> bool, c: PortModel)
    requires
        s.filter(p).contains(c),
    ensures
        p(c),
{
    let i = choose|i: int| 0 <= i < s.filter(p).len() && s.filter(p)[i] == c;
    s.lemma_filter_pred(p, i);
}

/// A selected port is one of the enumerated USB ports, it passed every rule, and it
/// comes first in port order among those that did. It is marked as a guess exactly
/// if there were others, and those are then interfaces of the same USB device.
pub proof fn law_selected_port_passed_the_rules(
    ports: Seq<SerialPortModel>,
    f: FilterModel,
    p: PortModel,
)
    requires
        selected(ports, f) == Ok::<PortModel, SelectFailure>(p),
    ensures
        ({
            let c = PortModel { guessed_among: None, ..p };
            &&& exists|i: int|
                0 <= i < ports.len() && admitted(#[trigger] ports[i], f.no_vid_gate) == Some(c)
            &&& passes(c, f)
            &&& narrowed(ports, f).contains(c)
        }),
        p.guessed_among == (if narrowed(ports, f).len() > 1 {
            Some(narrowed(ports, f).len())
        } else {
            None
        }),
        forall|c: PortModel| #[trigger]
            narrowed(ports, f).contains(c) ==> (c == PortModel { guessed_among: None, ..p }
                || port_le(true, p, c)) && c.vendor_id == p.vendor_id && c.serial_number
                == p.serial_number,
{
    let left = narrowed(ports, f);
    let s = sorted(true, left);
    lemma_sorted_len(true, left);
    law_sorting_orders_and_permutes(true, left);
    assert(s.contains(s[0]));
    lemma_sorted_contains(true, left, s[0]);
    lemma_narrowed(ports, f, s[0]);
    assert(PortModel { guessed_among: None, ..p } == s[0]);
    assert forall|c: PortModel| #[trigger] left.contains(c) implies (c == PortModel {
        guessed_among: None,
        ..p
    } || port_le(true, p, c)) && c.vendor_id == p.vendor_id && c.serial_number
        == p.serial_number by {
        lemma_sorted_contains(true, left, c);
        let k = choose|k: int| 0 <= k < s.len() && s[k] == c;
        if k > 0 {
            assert(port_le(true, s[0], s[k]));
            assert(port_le(true, p, s[k]));
            assert(one_probe(s));
            assert(s[k].vendor_id == s[0].vendor_id);
        }
    }
}

/// With the vendor gate on, a selected port is from one of the two link vendors and
/// says so; Espressif's native port is never selected. With the vendor gate off any vendor
/// is eligible, and the declared serial is the provenance.
pub proof fn law_provenance_names_the_regime(
    ports: Seq<SerialPortModel>,
    f: FilterModel,
    p: PortModel,
)
    requires
        selected(ports, f) == Ok::<PortModel, SelectFailure>(p),
    ensures
        !f.no_vid_gate ==> (p.vendor_id == Some(SEGGER_VID) && p.detected_by
            == "segger-vid-match"@) || (p.vendor_id == Some(SILABS_VID) && p.detected_by
            == "silabs-vid-match"@),
        f.no_vid_gate ==> p.detected_by == DECLARED_SERIAL@,
{
    law_selected_port_passed_the_rules(ports, f, p);
}

/// A fallback serial narrows only where it matches: it never is the rule that left
/// nothing, where it matches no candidate the answer is the one without it, and
/// where it matches one the answer is the one for a declared serial.
pub proof fn law_fallback_serial_never_excludes(ports: Seq<SerialPortModel>, f: FilterModel)
    requires
        f.serial_is_fallback,
    ensures
        by_serial(gated(ports, f.no_vid_gate), f).len() == 0 <==> gated(
            ports,
            f.no_vid_gate,
        ).len() == 0,
        emptied_by(ports, f) != ExcludingRule::DeclaredSerial,
        (forall|i: int|
            0 <= i < gated(ports, f.no_vid_gate).len() ==> !has_serial(
                #[trigger] gated(ports, f.no_vid_gate)[i],
                f.serial->0,
            )) ==> selected(ports, f) == selected(ports, FilterModel { serial: None, ..f }),
        (f.serial is Some && exists|i: int|
            0 <= i < gated(ports, f.no_vid_gate).len() && has_serial(
                #[trigger] gated(ports, f.no_vid_gate)[i],
                f.serial->0,
            )) ==> selected(ports, f) == selected(
            ports,
            FilterModel { serial_is_fallback: false, ..f },
        ),
{
    let gate_out = gated(ports, f.no_vid_gate);
    if let Some(want) = f.serial {
        let p = |c: PortModel| has_serial(c, want);
        gate_out.lemma_filter_len(p);
        if exists|i: int| 0 <= i < gate_out.len() && has_serial(#[trigger] gate_out[i], want) {
            lists::lemma_filter_finds(gate_out, p);
            lists::lemma_position(gate_out, p);
            let i = choose|i: int| 0 <= i < gate_out.len() && has_serial(#[trigger] gate_out[i], want);
            assert(p(gate_out[i]));
        }
        if forall|i: int| 0 <= i < gate_out.len() ==> !has_serial(#[trigger] gate_out[i], want) {
            lists::lemma_filter_finds(gate_out, p);
            lists::lemma_position(gate_out, p);
        }
    }
}

/// No port is found exactly if the rules leave no candidate, and then the first rule
/// in order that left none is named, with what was seen; the machine is not looked
/// at. The answer is ambiguous only where at least two candidates are left.
pub proof fn law_not_found_names_the_rule(ports: Seq<SerialPortModel>, f: FilterModel)
    ensures
        selected(ports, f) matches Err(SelectFailure::NotFound(_)) <==> narrowed(ports, f).len()
            == 0,
        selected(ports, f) matches Err(SelectFailure::NotFound(n)) ==> {
            let gate_out = gated(ports, f.no_vid_gate);
            &&& n.total_ports_seen == ports.len()
            &&& n.candidate_vid_ports_seen == gate_out.len()
            &&& !n.likely_wsl2
            &&& n.excluding_rule == ExcludingRule::NoRecognizedVid <==> gate_out.len() == 0
            &&& n.excluding_rule == ExcludingRule::DeclaredSerial ==> f.serial is Some
                && !f.serial_is_fallback && forall|i: int|
                0 <= i < gate_out.len() ==> !has_serial(#[trigger] gate_out[i], f.serial->0)
            &&& n.excluding_rule == ExcludingRule::DeclaredInterface ==> f.interface is Some
            &&& n.excluding_rule == ExcludingRule::Other ==> f.product_needle is Some
        },
        selected(ports, f) matches Err(SelectFailure::Ambiguous(cs)) ==> cs.len() >= 2
            && cs.to_multiset() == narrowed(ports, f).to_multiset() && in_port_order(true, cs),
{
    let gate_out = gated(ports, f.no_vid_gate);
    lemma_sorted_len(true, narrowed(ports, f));
    law_sorting_orders_and_permutes(true, narrowed(ports, f));
    if f.serial_is_fallback {
        law_fallback_serial_never_excludes(ports, f);
    } else if let Some(want) = f.serial {
        let p = |c: PortModel| has_serial(c, want);
        lists::lemma_filter_finds(gate_out, p);
        lists::lemma_position(gate_out, p);
        if by_serial(gate_out, f).len() == 0 {
            assert forall|i: int| 0 <= i < gate_out.len() implies !has_serial(
                #[trigger] gate_out[i],
                want,
            ) by {
                assert(!p(gate_out[i]));
            }
        }
    }
}

/// A declared link serial is preferred over the probe's own and narrows hard: the
/// port that is detected reports it. A declared interface narrows hard too.
pub proof fn law_declared_link_facts_are_kept(
    ports: Seq<SerialPortModel>,
    row: BoardModel,
    p: PortModel,
)
    requires
        selected(ports, link_filter(Some(row))) == Ok::<PortModel, SelectFailure>(p),
    ensures
        row.link_port_serial matches Some(want) ==> has_serial(p, want),
        row.link_port_interface matches Some(i) ==> p.interface == Some(i),
{
    law_selected_port_passed_the_rules(ports, link_filter(Some(row)), p);
}

/// Every USB port is listed, whatever its vendor, and nothing else is; the list is
/// in the order of the names.
pub proof fn law_every_usb_port_is_listed(ports: Seq<SerialPortModel>)
    ensures
        forall|i: int|
            0 <= i < ports.len() && (#[trigger] ports[i]).usb is Some ==> all_listed(
                ports,
            ).contains(listed(ports[i])->0),
        forall|c: PortModel| #[trigger]
            all_listed(ports).contains(c) ==> exists|i: int|
                0 <= i < ports.len() && listed(#[trigger] ports[i]) == Some(c),
        in_port_order(false, all_listed(ports)),
        forall|i: int|
            0 <= i < all_listed(ports).len() ==> (#[trigger] all_listed(ports)[i]).detected_by
                == ENUMERATED@,
{
    let f = |p: SerialPortModel| listed(p);
    let all = ports.filter_map(f);
    law_sorting_orders_and_permutes(false, all);
    assert forall|i: int|
        0 <= i < ports.len() && (#[trigger] ports[i]).usb is Some implies all_listed(
        ports,
    ).contains(listed(ports[i])->0) by {
        let c = listed(ports[i])->0;
        lists::lemma_filter_map_keeps(ports, f, i);
        lemma_sorted_contains(false, all, c);
    }
    assert forall|c: PortModel| #[trigger] all_listed(ports).contains(c) implies exists|i: int|
        0 <= i < ports.len() && listed(#[trigger] ports[i]) == Some(c) by {
        lemma_sorted_contains(false, all, c);
        ports.lemma_filter_map_contains(f, c);
        let t = choose|t: SerialPortModel| #[trigger] ports.contains(t) && f(t) == Some(c);
        let i = choose|i: int| 0 <= i < ports.len() && ports[i] == t;
        assert(listed(ports[i]) == Some(c));
    }
    assert forall|i: int| 0 <= i < all_listed(ports).len() implies (
    #[trigger] all_listed(ports)[i]).detected_by == ENUMERATED@ by {
        assert(all_listed(ports).contains(all_listed(ports)[i]));
    }
}

// ---- the selection, in terms of the enumerated ports -----------------------------------

/// `p` is a USB port, and is of one of the two link vendors where `f` asks for that.
pub open spec fn vendor_fits(p: SerialPortModel, f: FilterModel) -> bool {
    p.usb matches Some(u) && (f.no_vid_gate || u.vid == 0x1366 || u.vid == 0x10C4)
}

/// `p` is a USB port with this serial, spelling aside.
pub open spec fn reports(p: SerialPortModel, serial: Seq<char>) -> bool {
    p.usb matches Some(u) && u.serial_number matches Some(s) && normalized(s) == normalized(serial)
}

/// The serial of `f` decides: it was declared, or some eligible port reports it.
pub open spec fn serial_decides(ports: Seq<SerialPortModel>, f: FilterModel) -> bool {
    f.serial is Some && (!f.serial_is_fallback || exists|i: int|
        0 <= i < ports.len() && vendor_fits(#[trigger] ports[i], f) && reports(
            ports[i],
            f.serial->0,
        ))
}

/// `p` is a USB port whose product string, where it reports one, holds the needle; the
/// default needle is asked of SEGGER's ports alone.
pub open spec fn product_fits(p: SerialPortModel, f: FilterModel) -> bool {
    p.usb matches Some(u) && (f.product_needle is None || u.product is None || text::occurs(
        normalized(u.product->0),
        f.product_needle->0,
    ) || (f.product_needle_is_default && u.vid != 0x1366))
}

pub open spec fn interface_fits(p: SerialPortModel, f: FilterModel) -> bool {
    p.usb matches Some(u) && (f.interface is None || u.interface == f.interface)
}

/// The ports that meet everything `f` asks for.
pub open spec fn meets(ports: Seq<SerialPortModel>, f: FilterModel) -> spec_fn(
    SerialPortModel,
) -> bool {
    |p: SerialPortModel|
        {
            &&& vendor_fits(p, f)
            &&& serial_decides(ports, f) ==> reports(p, f.serial->0)
            &&& product_fits(p, f)
            &&& interface_fits(p, f)
        }
}

/// What is reported of `p`, a USB port that meets `f`: its own identity, and the regime.
pub open spec fn found_as(p: SerialPortModel, f: FilterModel) -> PortModel {
    PortModel {
        port_name: p.port_name,
        detected_by: if f.no_vid_gate {
            "declared-serial"@
        } else if p.usb->0.vid == 0x1366 {
            "segger-vid-match"@
        } else {
            "silabs-vid-match"@
        },
        vendor_id: Some(p.usb->0.vid),
        product_id: Some(p.usb->0.pid),
        serial_number: p.usb->0.serial_number,
        product: p.usb->0.product,
        interface: p.usb->0.interface,
        guessed_among: None,
    }
}

proof fn lemma_narrowed_is(ports: Seq<SerialPortModel>, f: FilterModel)
    ensures
        gated(ports, f.no_vid_gate) == ports.filter(
            |p: SerialPortModel| vendor_fits(p, f),
        ).map_values(|p: SerialPortModel| found_as(p, f)),
        by_serial(gated(ports, f.no_vid_gate), f) == ports.filter(
            |p: SerialPortModel|
                vendor_fits(p, f) && (serial_decides(ports, f) ==> reports(p, f.serial->0)),
        ).map_values(|p: SerialPortModel| found_as(p, f)),
        by_product(by_serial(gated(ports, f.no_vid_gate), f), f) == ports.filter(
            |p: SerialPortModel|
                vendor_fits(p, f) && (serial_decides(ports, f) ==> reports(p, f.serial->0))
                    && product_fits(p, f),
        ).map_values(|p: SerialPortModel| found_as(p, f)),
        narrowed(ports, f) == ports.filter(meets(ports, f)).map_values(
            |p: SerialPortModel| found_as(p, f),
        ),
{
    let h = |p: SerialPortModel| found_as(p, f);
    let p0 = |p: SerialPortModel| vendor_fits(p, f);
    let p1 = |p: SerialPortModel|
        vendor_fits(p, f) && (serial_decides(ports, f) ==> reports(p, f.serial->0));
    let p2 = |p: SerialPortModel|
        vendor_fits(p, f) && (serial_decides(ports, f) ==> reports(p, f.serial->0))
            && product_fits(p, f);
    let p3 = meets(ports, f);
    let g = |p: SerialPortModel| admitted(p, f.no_vid_gate);
    let g1 = |p: SerialPortModel|
        if p1(p) {
            Some(h(p))
        } else {
            None
        };
    let g2 = |p: SerialPortModel|
        if p2(p) {
            Some(h(p))
        } else {
            None
        };
    let g3 = |p: SerialPortModel|
        if p3(p) {
            Some(h(p))
        } else {
            None
        };
    let gate_out = gated(ports, f.no_vid_gate);
    let serial_out = by_serial(gate_out, f);
    let product_out = by_product(serial_out, f);
    lists::lemma_filter_map_is(ports, g, p0, h);
    assert(serial_out == ports.filter_map(g1)) by {
        if f.serial is Some {
            let want = f.serial->0;
            let q = |c: PortModel| has_serial(c, want);
            let both = |p: SerialPortModel| vendor_fits(p, f) && reports(p, want);
            let gb = |p: SerialPortModel|
                if both(p) {
                    Some(h(p))
                } else {
                    None
                };
            lists::lemma_filter_of_filter_map(ports, g, q, gb);
            lists::lemma_filter_map_is(ports, gb, both, h);
            lists::lemma_filter_finds(ports, both);
            lists::lemma_position(ports, both);
            if serial_decides(ports, f) {
                lists::lemma_filter_map_same(ports, gb, g1);
                if f.serial_is_fallback {
                    let i = choose|i: int|
                        0 <= i < ports.len() && vendor_fits(#[trigger] ports[i], f) && reports(
                            ports[i],
                            want,
                        );
                    assert(both(ports[i]));
                }
            } else {
                lists::lemma_filter_map_same(ports, g, g1);
                let at = lists::position(ports, both) as int;
                if at < ports.len() {
                    assert(both(ports[at]));
                    assert(vendor_fits(ports[at], f) && reports(ports[at], want));
                }
            }
        } else {
            lists::lemma_filter_map_same(ports, g, g1);
        }
    }
    lists::lemma_filter_map_is(ports, g1, p1, h);
    assert(product_out == ports.filter_map(g2)) by {
        if f.product_needle is Some {
            lists::lemma_filter_of_filter_map(
                ports,
                g1,
                |c: PortModel| fits_product(c, f.product_needle->0, f.product_needle_is_default),
                g2,
            );
        } else {
            lists::lemma_filter_map_same(ports, g1, g2);
        }
    }
    lists::lemma_filter_map_is(ports, g2, p2, h);
    assert(narrowed(ports, f) == ports.filter_map(g3)) by {
        if f.interface is Some {
            lists::lemma_filter_of_filter_map(
                ports,
                g2,
                |c: PortModel| on_interface(c, f.interface->0),
                g3,
            );
        } else {
            lists::lemma_filter_map_same(ports, g2, g3);
        }
    }
    lists::lemma_filter_map_is(ports, g3, p3, h);
}

/// The ports are all of one vendor and of one serial, and each has an interface number.
pub open spec fn interfaces_of_one_device(ports: Seq<SerialPortModel>) -> bool {
    &&& forall|i: int, j: int|
        0 <= i < ports.len() && 0 <= j < ports.len() ==> (#[trigger] ports[i]).usb->0.vid == (
        #[trigger] ports[j]).usb->0.vid && ports[i].usb->0.serial_number
            == ports[j].usb->0.serial_number
    &&& forall|i: int| 0 <= i < ports.len() ==> (#[trigger] ports[i]).usb->0.interface is Some
}

/// The interface number, with one below every number for none.
pub open spec fn interface_rank(interface: Option<u8>) -> int {
    match interface {
        None => -1,
        Some(n) => n as int,
    }
}

/// `a` has the lower interface, or the same one and a name that does not come later.
pub open spec fn no_later(a: PortModel, b: PortModel) -> bool {
    ||| interface_rank(a.interface) < interface_rank(b.interface)
    ||| interface_rank(a.interface) == interface_rank(b.interface) && text::lex_le(
        a.port_name,
        b.port_name,
    )
}

/// Two or more ports that qualify are taken for one probe exactly if they are.
proof fn lemma_one_probe(cs: Seq<PortModel>, left: Seq<SerialPortModel>, f: FilterModel)
    requires
        left.len() > 0,
        cs == sorted(true, left.map_values(|p: SerialPortModel| found_as(p, f))),
    ensures
        (one_probe(cs) && interfaces_known(cs)) == interfaces_of_one_device(left),
{
    let m = left.map_values(|p: SerialPortModel| found_as(p, f));
    lemma_sorted_len(true, m);
    if one_probe(cs) && interfaces_known(cs) {
        assert forall|i: int| 0 <= i < left.len() implies (#[trigger] left[i]).usb->0.vid
            == cs[0].vendor_id->0 && left[i].usb->0.serial_number == cs[0].serial_number
            && left[i].usb->0.interface is Some by {
            assert(m.contains(m[i]));
            lemma_sorted_contains(true, m, m[i]);
            let k = choose|k: int| 0 <= k < cs.len() && cs[k] == m[i];
            assert(cs[k].vendor_id == cs[0].vendor_id && cs[k].interface is Some);
            assert(m[i] == found_as(left[i], f));
        }
    }
    if interfaces_of_one_device(left) {
        assert forall|i: int| 0 <= i < cs.len() implies (#[trigger] cs[i]).vendor_id
            == m[0].vendor_id && cs[i].serial_number == m[0].serial_number
            && cs[i].interface is Some by {
            assert(cs.contains(cs[i]));
            lemma_sorted_contains(true, m, cs[i]);
            let k = choose|k: int| 0 <= k < m.len() && m[k] == cs[i];
            assert(m[k] == found_as(left[k], f) && m[0] == found_as(left[0], f));
            assert(left[k].usb->0.vid == left[0].usb->0.vid);
        }
    }
}

/// The selection is decided by the enumerated ports that meet everything the filter asks
/// for. One of them is named exactly if it is the only one, or if they are the numbered
/// interfaces of one device: then it is the lowest, and by name and enumeration order the
/// first of those, marked with how many there were. Several that are not are all listed,
/// in order. None at all is told with what was seen.
pub proof fn law_selection_is_among_the_ports_that_qualify(
    ports: Seq<SerialPortModel>,
    f: FilterModel,
)
    ensures
        ({
            let left = ports.filter(meets(ports, f));
            match selected(ports, f) {
                Ok(p) => {
                    &&& left.len() == 1 || (left.len() > 1 && interfaces_of_one_device(left))
                    &&& p.guessed_among == (if left.len() == 1 {
                        None
                    } else {
                        Some(left.len())
                    })
                    &&& exists|k: int|
                        0 <= k < left.len() && PortModel { guessed_among: None, ..p } == found_as(
                            #[trigger] left[k],
                            f,
                        ) && (forall|j: int|
                            0 <= j < left.len() ==> no_later(p, found_as(#[trigger] left[j], f)))
                            && (forall|j: int|
                            0 <= j < k ==> !no_later(found_as(#[trigger] left[j], f), p))
                },
                Err(SelectFailure::Ambiguous(cs)) => {
                    &&& left.len() > 1
                    &&& !interfaces_of_one_device(left)
                    &&& cs.len() == left.len()
                    &&& cs.to_multiset() == left.map_values(
                        |p: SerialPortModel| found_as(p, f),
                    ).to_multiset()
                    &&& forall|i: int, j: int|
                        0 <= i < j < cs.len() ==> no_later(#[trigger] cs[i], #[trigger] cs[j])
                },
                Err(SelectFailure::NotFound(n)) => {
                    &&& left.len() == 0
                    &&& n.total_ports_seen == ports.len()
                    &&& n.candidate_vid_ports_seen == ports.filter(
                        |p: SerialPortModel| vendor_fits(p, f),
                    ).len()
                    &&& !n.likely_wsl2
                },
            }
        }),
{
    let h = |p: SerialPortModel| found_as(p, f);
    let left = ports.filter(meets(ports, f));
    let m = left.map_values(h);
    let cs = sorted(true, m);
    lemma_narrowed_is(ports, f);
    lemma_sorted_len(true, m);
    law_sorting_orders_and_permutes(true, m);
    assert forall|a: PortModel, b: PortModel| #[trigger] port_le(true, a, b) == no_later(
        a,
        b,
    ) by {}
    if left.len() > 0 {
        lemma_one_probe(cs, left, f);
    }
    if let Ok(p) = selected(ports, f) {
        let x = cs[0];
        let q = level_with(true, x);
        law_sorting_is_stable(true, m, x);
        text::lemma_lex_total(x.port_name, x.port_name);
        assert(q(cs[0]));
        lists::lemma_position_is(cs, q, 0);
        lists::lemma_filter_first(cs, q);
        lists::lemma_filter_finds(m, q);
        lists::lemma_filter_first(m, q);
        lists::lemma_position(m, q);
        let k = lists::position(m, q) as int;
        assert(m[k] == x);
        assert(m[k] == found_as(left[k], f));
        assert forall|j: int| 0 <= j < left.len() implies no_later(
            p,
            found_as(#[trigger] left[j], f),
        ) by {
            assert(m.contains(m[j]));
            lemma_sorted_contains(true, m, m[j]);
            let l = choose|l: int| 0 <= l < cs.len() && cs[l] == m[j];
            if l > 0 {
                assert(port_le(true, cs[0], cs[l]));
            }
            assert(port_le(true, x, m[j]));
            assert(no_later(x, m[j]));
        }
        assert forall|j: int| 0 <= j < k implies !no_later(found_as(#[trigger] left[j], f), p) by {
            assert(m[j] == found_as(left[j], f));
            assert(!q(m[j]));
            assert(no_later(p, m[j]));
            assert(port_le(true, x, m[j]));
            assert(port_le(true, m[j], x) == no_later(m[j], x));
        }
    }
    if let Err(SelectFailure::Ambiguous(found)) = selected(ports, f) {
        assert forall|i: int, j: int| 0 <= i < j < found.len() implies no_later(
            #[trigger] found[i],
            #[trigger] found[j],
        ) by {
            assert(port_le(true, found[i], found[j]));
        }
    }
}

/// The rule that is blamed where nothing was found is the first in the order of vendor,
/// declared serial, product and declared interface that no port got past.
pub proof fn law_blamed_rule_is_the_first_that_no_port_meets(
    ports: Seq<SerialPortModel>,
    f: FilterModel,
    n: NotFoundModel,
)
    requires
        selected(ports, f) == Err::<PortModel, SelectFailure>(SelectFailure::NotFound(n)),
    ensures
        ({
            let any_vendor = exists|i: int|
                0 <= i < ports.len() && vendor_fits(#[trigger] ports[i], f);
            let any_serial = exists|i: int|
                0 <= i < ports.len() && vendor_fits(#[trigger] ports[i], f) && reports(
                    ports[i],
                    f.serial->0,
                );
            let serial_passed = any_vendor && (f.serial is None || f.serial_is_fallback
                || any_serial);
            let any_product = exists|i: int|
                0 <= i < ports.len() && vendor_fits(#[trigger] ports[i], f) && product_fits(
                    ports[i],
                    f,
                ) && (serial_decides(ports, f) ==> reports(ports[i], f.serial->0));
            &&& n.excluding_rule == ExcludingRule::NoRecognizedVid <==> !any_vendor
            &&& n.excluding_rule == ExcludingRule::DeclaredSerial <==> any_vendor
                && !serial_passed
            &&& n.excluding_rule == ExcludingRule::Other <==> serial_passed && !any_product
            &&& n.excluding_rule == ExcludingRule::DeclaredInterface <==> serial_passed
                && any_product
        }),
{
    lemma_narrowed_is(ports, f);
    let p0 = |p: SerialPortModel| vendor_fits(p, f);
    let p1 = |p: SerialPortModel|
        vendor_fits(p, f) && (serial_decides(ports, f) ==> reports(p, f.serial->0));
    let p2 = |p: SerialPortModel|
        vendor_fits(p, f) && (serial_decides(ports, f) ==> reports(p, f.serial->0))
            && product_fits(p, f);
    lemma_some_pass(ports, p0);
    lemma_some_pass(ports, p1);
    lemma_some_pass(ports, p2);
    assert((exists|i: int| 0 <= i < ports.len() && vendor_fits(#[trigger] ports[i], f))
        == exists|i: int| 0 <= i < ports.len() && p0(#[trigger] ports[i]));
    assert((exists|i: int|
        0 <= i < ports.len() && vendor_fits(#[trigger] ports[i], f) && product_fits(ports[i], f)
            && (serial_decides(ports, f) ==> reports(ports[i], f.serial->0)))
        == exists|i: int| 0 <= i < ports.len() && p2(#[trigger] ports[i]));
    if exists|i: int| 0 <= i < ports.len() && p1(#[trigger] ports[i]) {
        let i = choose|i: int| 0 <= i < ports.len() && p1(#[trigger] ports[i]);
        assert(vendor_fits(ports[i], f));
    }
    if exists|i: int| 0 <= i < ports.len() && p0(#[trigger] ports[i]) {
        let i = choose|i: int| 0 <= i < ports.len() && p0(#[trigger] ports[i]);
        if serial_decides(ports, f) {
            if exists|i: int|
                0 <= i < ports.len() && vendor_fits(#[trigger] ports[i], f) && reports(
                    ports[i],
                    f.serial->0,
                ) {
                let j = choose|i: int|
                    0 <= i < ports.len() && vendor_fits(#[trigger] ports[i], f) && reports(
                        ports[i],
                        f.serial->0,
                    );
                assert(p1(ports[j]));
            }
        } else {
            assert(p1(ports[i]));
        }
    }
    lemma_sorted_len(true, narrowed(ports, f));
}

proof fn lemma_some_pass(ports: Seq<SerialPortModel>, p: spec_fn(SerialPortModel) -> bool)
    ensures
        ports.filter(p).len() > 0 <==> exists|i: int|
            0 <= i < ports.len() && p(#[trigger] ports[i]),
{
    lists::lemma_filter_finds(ports, p);
    lists::lemma_position(ports, p);
    if exists|i: int| 0 <= i < ports.len() && p(#[trigger] ports[i]) {
        let i = choose|i: int| 0 <= i < ports.len() && p(#[trigger] ports[i]);
        assert(p(ports[i]));
    }
}

// ---- dev-bench's link --------------------------------------------------------------------

/// `p` is a USB port of SEGGER's or of Silicon Labs'.
pub open spec fn of_a_link_vendor(p: SerialPortModel) -> bool {
    p.usb matches Some(u) && (u.vid == 0x1366 || u.vid == 0x10C4)
}

/// `p` is where the facts declared for dev-bench's link say it is.
pub open spec fn as_declared(p: SerialPortModel, row: Option<BoardModel>) -> bool {
    row matches Some(b) ==> (b.link_port_serial matches Some(w) ==> reports(p, w)) && (
    b.link_port_interface matches Some(i) ==> p.usb->0.interface == Some(i))
}

/// The enrolled probe's own serial does not speak against `p`: a link serial was
/// declared, or no serial is known, or `p` reports it, or no link vendor's port does.
pub open spec fn not_another_probe(
    p: SerialPortModel,
    row: Option<BoardModel>,
    ports: Seq<SerialPortModel>,
) -> bool {
    row matches Some(b) ==> b.link_port_serial is Some || b.probe_serial is None || reports(
        p,
        b.probe_serial->0,
    ) || forall|i: int|
        0 <= i < ports.len() && of_a_link_vendor(#[trigger] ports[i]) ==> !reports(
            ports[i],
            b.probe_serial->0,
        )
}

proof fn lemma_link_ports_meet(
    ports: Seq<SerialPortModel>,
    row: Option<BoardModel>,
    p: SerialPortModel,
)
    requires
        of_a_link_vendor(p),
        as_declared(p, row),
        not_another_probe(p, row, ports),
        p.usb->0.vid == 0x10C4 || p.usb->0.product is None || text::occurs(
            normalized(p.usb->0.product->0),
            "jlink"@,
        ),
    ensures
        meets(ports, link_filter(row))(p),
{
    let f = link_filter(row);
    if serial_decides(ports, f) && f.serial_is_fallback {
        let i = choose|i: int|
            0 <= i < ports.len() && vendor_fits(#[trigger] ports[i], f) && reports(
                ports[i],
                f.serial->0,
            );
        assert(of_a_link_vendor(ports[i]));
    }
}

/// A Silicon Labs bridge is a candidate for dev-bench's link whatever its product string
/// says: where it is as declared it is never passed over. It, or another interface of
/// the same device, is selected; or it is among the ports that are listed as ambiguous.
/// The only port of a link vendor is selected, and reported as it was enumerated.
pub proof fn law_silicon_labs_bridge_is_found_whatever_its_product(
    ports: Seq<SerialPortModel>,
    row: Option<BoardModel>,
    k: int,
)
    requires
        0 <= k < ports.len(),
        ports[k].usb is Some,
        ports[k].usb->0.vid == 0x10C4,
        as_declared(ports[k], row),
        not_another_probe(ports[k], row, ports),
    ensures
        ({
            let u = ports[k].usb->0;
            let found = PortModel {
                port_name: ports[k].port_name,
                detected_by: "silabs-vid-match"@,
                vendor_id: Some(0x10C4),
                product_id: Some(u.pid),
                serial_number: u.serial_number,
                product: u.product,
                interface: u.interface,
                guessed_among: None,
            };
            let others = exists|i: int|
                0 <= i < ports.len() && i != k && of_a_link_vendor(#[trigger] ports[i]);
            match selected(ports, link_filter(row)) {
                Ok(p) => {
                    &&& p.vendor_id == Some(0x10C4u16)
                    &&& p.detected_by == "silabs-vid-match"@
                    &&& p.serial_number == u.serial_number
                    &&& p.guessed_among is None || !others ==> p == found
                },
                Err(SelectFailure::Ambiguous(cs)) => others && cs.contains(found),
                Err(SelectFailure::NotFound(_)) => false,
            }
        }),
{
    let f = link_filter(row);
    let q = meets(ports, f);
    let left = ports.filter(q);
    let h = |p: SerialPortModel| found_as(p, f);
    let m = left.map_values(h);
    law_selection_is_among_the_ports_that_qualify(ports, f);
    lemma_link_ports_meet(ports, row, ports[k]);
    ports.lemma_filter_contains(q, k);
    let at = choose|at: int| 0 <= at < left.len() && left[at] == ports[k];
    assert(m[at] == found_as(ports[k], f));
    if !(exists|i: int| 0 <= i < ports.len() && i != k && of_a_link_vendor(#[trigger] ports[i])) {
        assert forall|i: int| 0 <= i < ports.len() implies (q(#[trigger] ports[i]) <==> i == k) by {
            if q(ports[i]) {
                assert(vendor_fits(ports[i], f));
                assert(of_a_link_vendor(ports[i]));
            }
        }
        lists::lemma_filter_one(ports, q, k);
    }
    if let Ok(p) = selected(ports, f) {
        let l = choose|l: int|
            0 <= l < left.len() && PortModel { guessed_among: None, ..p } == found_as(
                #[trigger] left[l],
                f,
            );
        lists::lemma_filter_item(ports, q, l);
        if left.len() > 1 {
            assert(left[l].usb->0.vid == left[at].usb->0.vid);
        } else {
            assert(l == at);
        }
    }
    if let Err(SelectFailure::Ambiguous(cs)) = selected(ports, f) {
        broadcast use vstd::seq_lib::group_to_multiset_ensures;

        assert(m.contains(m[at]));
        assert(cs.to_multiset().contains(m[at]));
    }
}

/// What is selected for dev-bench's link, or listed as ambiguous, is of a link vendor, is
/// as declared, and is no SEGGER port whose product string does not name a J-Link. Where
/// no link serial is declared and a port of a link vendor reports the enrolled probe's
/// serial, it is such a port.
pub proof fn law_link_candidates_are_as_declared(
    ports: Seq<SerialPortModel>,
    row: Option<BoardModel>,
    c: PortModel,
)
    requires
        selected(ports, link_filter(row)) == Ok::<PortModel, SelectFailure>(c) || (selected(
            ports,
            link_filter(row),
        ) matches Err(SelectFailure::Ambiguous(cs)) && cs.contains(c)),
    ensures
        exists|k: int|
            {
                &&& 0 <= k < ports.len()
                &&& of_a_link_vendor(#[trigger] ports[k])
                &&& as_declared(ports[k], row)
                &&& not_another_probe(ports[k], row, ports)
                &&& ports[k].usb->0.vid == 0x1366 && ports[k].usb->0.product is Some
                    ==> text::occurs(normalized(ports[k].usb->0.product->0), "jlink"@)
                &&& c.port_name == ports[k].port_name
                &&& c.vendor_id == Some(ports[k].usb->0.vid)
                &&& c.product_id == Some(ports[k].usb->0.pid)
                &&& c.serial_number == ports[k].usb->0.serial_number
                &&& c.product == ports[k].usb->0.product
                &&& c.interface == ports[k].usb->0.interface
                &&& c.detected_by == (if c.vendor_id == Some(0x1366u16) {
                    "segger-vid-match"@
                } else {
                    "silabs-vid-match"@
                })
            },
{
    let f = link_filter(row);
    let q = meets(ports, f);
    let left = ports.filter(q);
    let h = |p: SerialPortModel| found_as(p, f);
    let m = left.map_values(h);
    law_selection_is_among_the_ports_that_qualify(ports, f);
    let plain = PortModel { guessed_among: None, ..c };
    if let Err(SelectFailure::Ambiguous(cs)) = selected(ports, f) {
        broadcast use vstd::seq_lib::group_to_multiset_ensures;

        assert(cs.to_multiset().contains(c));
        assert(m.to_multiset().contains(c));
        assert(m.contains(c));
        let l = choose|l: int| 0 <= l < m.len() && m[l] == c;
        assert(plain == found_as(left[l], f));
    }
    let l = choose|l: int| 0 <= l < left.len() && plain == found_as(#[trigger] left[l], f);
    assert(0 <= l < left.len() && plain == found_as(left[l], f));
    lists::lemma_filter_item(ports, q, l);
    let k = choose|k: int| 0 <= k < ports.len() && ports[k] == left[l];
    assert(q(ports[k]));
    if row matches Some(b) && b.link_port_serial is None && b.probe_serial is Some {
        let w = row->0.probe_serial->0;
        if exists|i: int|
            0 <= i < ports.len() && of_a_link_vendor(#[trigger] ports[i]) && reports(ports[i], w) {
            let i = choose|i: int|
                0 <= i < ports.len() && of_a_link_vendor(#[trigger] ports[i]) && reports(
                    ports[i],
                    w,
                );
            assert(vendor_fits(ports[i], f) && reports(ports[i], f.serial->0));
            assert(serial_decides(ports, f));
        }
    }
    assert(of_a_link_vendor(ports[k]));
}

/// dev-bench's link is found whenever some port of a link vendor qualifies for it, and
/// the only one that does is the one that is named.
pub proof fn law_link_is_found_where_a_port_qualifies(
    ports: Seq<SerialPortModel>,
    row: Option<BoardModel>,
    k: int,
)
    requires
        0 <= k < ports.len(),
        of_a_link_vendor(ports[k]),
        as_declared(ports[k], row),
        not_another_probe(ports[k], row, ports),
        ports[k].usb->0.vid == 0x1366 && ports[k].usb->0.product is Some ==> text::occurs(
            normalized(ports[k].usb->0.product->0),
            "jlink"@,
        ),
    ensures
        !(selected(ports, link_filter(row)) matches Err(SelectFailure::NotFound(_))),
        (forall|i: int|
            0 <= i < ports.len() && i != k && of_a_link_vendor(#[trigger] ports[i])
                ==> !as_declared(ports[i], row)) ==> selected(ports, link_filter(row)) == Ok::<
            PortModel,
            SelectFailure,
        >(
            PortModel {
                port_name: ports[k].port_name,
                detected_by: if ports[k].usb->0.vid == 0x1366 {
                    "segger-vid-match"@
                } else {
                    "silabs-vid-match"@
                },
                vendor_id: Some(ports[k].usb->0.vid),
                product_id: Some(ports[k].usb->0.pid),
                serial_number: ports[k].usb->0.serial_number,
                product: ports[k].usb->0.product,
                interface: ports[k].usb->0.interface,
                guessed_among: None,
            },
        ),
{
    let f = link_filter(row);
    let q = meets(ports, f);
    let left = ports.filter(q);
    law_selection_is_among_the_ports_that_qualify(ports, f);
    lemma_link_ports_meet(ports, row, ports[k]);
    ports.lemma_filter_contains(q, k);
    if forall|i: int|
        0 <= i < ports.len() && i != k && of_a_link_vendor(#[trigger] ports[i]) ==> !as_declared(
            ports[i],
            row,
        ) {
        assert forall|i: int| 0 <= i < ports.len() implies (q(#[trigger] ports[i]) <==> i == k) by {
            if q(ports[i]) {
                assert(of_a_link_vendor(ports[i]));
                assert(as_declared(ports[i], row));
            }
        }
        lists::lemma_filter_one(ports, q, k);
    }
}

/// The row that speaks for dev-bench is the first with that very role; a table that could
/// not be loaded has none.
pub proof fn law_dev_bench_row_is_the_first_with_that_role(
    store: Store,
    cause: String,
    k: int,
)
    ensures
        ({
            let boards = store.deep_view().boards;
            &&& (0 <= k < boards.len() && boards[k].role == "dev-bench"@ && forall|i: int|
                0 <= i < k ==> (#[trigger] boards[i]).role != "dev-bench"@) ==> dev_bench_row(
                Ok(store),
            ) == Some(boards[k])
            &&& dev_bench_row(Ok(store)) is None <==> forall|i: int|
                0 <= i < boards.len() ==> (#[trigger] boards[i]).role != "dev-bench"@
            &&& dev_bench_row(Err(cause)) is None
        }),
{
    let boards = store.deep_view().boards;
    let p = enrollment::holds(DEV_BENCH_ROLE@);
    lists::lemma_position(boards, p);
    if 0 <= k < boards.len() && boards[k].role == "dev-bench"@ && forall|i: int|
        0 <= i < k ==> (#[trigger] boards[i]).role != "dev-bench"@ {
        lists::lemma_position_is(boards, p, k);
    }
    if dev_bench_row(Ok(store)) is None {
        assert forall|i: int| 0 <= i < boards.len() implies (#[trigger] boards[i]).role
            != "dev-bench"@ by {
            assert(!p(boards[i]));
        }
    }
}

/// The machine never changes which port is named or listed, nor what was seen: it only
/// adds to a port that was not found whether this looks like a WSL2 guest.
pub proof fn law_machine_only_explains_a_missing_port(
    r: Result<PortModel, SelectFailure>,
    likely_wsl2: bool,
)
    ensures
        match r {
            Ok(p) => on_this_machine(r, likely_wsl2) == Ok::<PortModel, DetectFailure>(p),
            Err(SelectFailure::Ambiguous(cs)) => on_this_machine(r, likely_wsl2) == Err::<
                PortModel,
                DetectFailure,
            >(DetectFailure::Select(SelectFailure::Ambiguous(cs))),
            Err(SelectFailure::NotFound(n)) => on_this_machine(r, likely_wsl2) matches Err(
                DetectFailure::Select(SelectFailure::NotFound(said)),
            ) && said.likely_wsl2 == likely_wsl2 && said.total_ports_seen == n.total_ports_seen
                && said.candidate_vid_ports_seen == n.candidate_vid_ports_seen
                && said.excluding_rule == n.excluding_rule,
        },
{
}

/// Spelling is set aside character by character: a digit or a lower-case letter counts as
/// it is, an upper-case letter as its lower-case one, and anything else not at all.
pub proof fn law_spelling_is_set_aside_by_character(a: Seq<char>, b: Seq<char>, c: char)
    ensures
        normalized(a + b) == normalized(a) + normalized(b),
        normalized(Seq::empty()) == Seq::<char>::empty(),
        normalized(seq![c]) == (if '0' <= c <= '9' || 'a' <= c <= 'z' {
            seq![c]
        } else if 'A' <= c <= 'Z' {
            seq![(c as int + 32) as char]
        } else {
            Seq::empty()
        }),
{
    let keep = |c: char| text::is_alnum_char(c);
    Seq::filter_distributes_over_add(a, b, keep);
    assert(normalized(a + b) =~= normalized(a) + normalized(b));
    assert(Seq::<char>::empty().filter(keep) =~= Seq::<char>::empty()) by {
        reveal(Seq::filter);
    }
    assert(normalized(Seq::empty()) =~= Seq::<char>::empty());
    lists::lemma_filter_push(Seq::<char>::empty(), c, keep);
    assert(Seq::<char>::empty().push(c) =~= seq![c]);
    assert(normalized(seq![c]) =~= (if '0' <= c <= '9' || 'a' <= c <= 'z' {
        seq![c]
    } else if 'A' <= c <= 'Z' {
        seq![(c as int + 32) as char]
    } else {
        Seq::empty()
    }));
}

/// Every USB port is listed once and as it was enumerated, by name; ports with one name
/// keep their order.
pub proof fn law_listing_is_the_usb_ports_by_name(ports: Seq<SerialPortModel>)
    ensures
        ({
            let usb = ports.filter(|p: SerialPortModel| p.usb is Some);
            let as_is = |p: SerialPortModel|
                PortModel {
                    port_name: p.port_name,
                    detected_by: "enumerated"@,
                    vendor_id: Some(p.usb->0.vid),
                    product_id: Some(p.usb->0.pid),
                    serial_number: p.usb->0.serial_number,
                    product: p.usb->0.product,
                    interface: p.usb->0.interface,
                    guessed_among: None,
                };
            let all = all_listed(ports);
            &&& all.len() == usb.len()
            &&& all.to_multiset() == usb.map_values(as_is).to_multiset()
            &&& forall|i: int, j: int|
                0 <= i < j < all.len() ==> text::lex_le(
                    (#[trigger] all[i]).port_name,
                    (#[trigger] all[j]).port_name,
                )
            &&& forall|x: PortModel|
                all.filter(#[trigger] level_with(false, x)) == usb.map_values(as_is).filter(
                    level_with(false, x),
                )
        }),
{
    let p = |p: SerialPortModel| p.usb is Some;
    let as_is = |p: SerialPortModel|
        PortModel {
            port_name: p.port_name,
            detected_by: "enumerated"@,
            vendor_id: Some(p.usb->0.vid),
            product_id: Some(p.usb->0.pid),
            serial_number: p.usb->0.serial_number,
            product: p.usb->0.product,
            interface: p.usb->0.interface,
            guessed_among: None,
        };
    let m = ports.filter(p).map_values(as_is);
    lists::lemma_filter_map_is(ports, |p: SerialPortModel| listed(p), p, as_is);
    law_sorting_orders_and_permutes(false, m);
    lemma_sorted_len(false, m);
    let all = all_listed(ports);
    assert(all == sorted(false, m));
    assert forall|i: int, j: int| 0 <= i < j < all.len() implies text::lex_le(
        (#[trigger] all[i]).port_name,
        (#[trigger] all[j]).port_name,
    ) by {
        assert(port_le(false, all[i], all[j]));
    }
    assert forall|x: PortModel| all.filter(#[trigger] level_with(false, x)) == m.filter(
        level_with(false, x),
    ) by {
        law_sorting_is_stable(false, m, x);
    }
}

/// What is told of a missing port: the wrong host is blamed exactly if no port at all is
/// visible on what looks like a WSL2 guest; otherwise both counts are told, and the
/// advice is the one for the rule that left no candidate.
pub proof fn law_missing_port_is_explained_by_what_was_seen(n: NotFoundModel)
    ensures
        n.total_ports_seen == 0 && n.likely_wsl2 ==> not_found_text(n) == WRONG_HOST_TEXT@,
        n.total_ports_seen > 0 || !n.likely_wsl2 ==> ({
            let seen = text::decimal(n.total_ports_seen) + " serial port(s) visible, "@
                + text::decimal(n.candidate_vid_ports_seen)
                + " with a recognized link VID (0x1366 SEGGER / 0x10c4 Silicon Labs — 0x303a \
     Espressif's native USB-Serial/JTAG is JTAG-only, see that constant's own doc comment))"@;
            let fix = match n.excluding_rule {
                ExcludingRule::NoRecognizedVid => CHECK_USB_ADVICE@,
                ExcludingRule::DeclaredSerial => STALE_SERIAL_ADVICE@,
                ExcludingRule::DeclaredInterface => STALE_INTERFACE_ADVICE@,
                ExcludingRule::Other => RE_ENROLL_ADVICE@,
            };
            not_found_text(n) == "no embarch-dev-bench serial port found ("@ + seen + fix
        }),
{
    if n.total_ports_seen > 0 || !n.likely_wsl2 {
        let seen = text::decimal(n.total_ports_seen) + " serial port(s) visible, "@
            + text::decimal(n.candidate_vid_ports_seen) + LINK_VIDS_TEXT@;
        assert(not_found_text(n) =~= "no embarch-dev-bench serial port found ("@ + seen + advice(
            n.excluding_rule,
        ));
    }
}

/// A candidate is written down with everything it reports, each behind its own label: a
/// product id in four digits, and zero for none.
pub proof fn law_candidate_line_tells_the_port(c: PortModel)
    ensures
        ({
            let t = port_line(c);
            let pid: nat = match c.product_id {
                Some(pid) => pid as nat,
                None => 0,
            };
            let serial = match c.serial_number {
                Some(s) => "Some("@ + text::str_debug(s) + ")"@,
                None => "None"@,
            };
            let product = match c.product {
                Some(s) => "Some("@ + text::str_debug(s) + ")"@,
                None => "None"@,
            };
            let interface = match c.interface {
                Some(n) => "Some("@ + text::decimal(n as nat) + ")"@,
                None => "None"@,
            };
            &&& text::begins(t, "  "@ + c.port_name + " (pid 0x"@)
            &&& text::occurs(t, " (pid 0x"@ + text::hex_fixed(pid, 4) + ", serial "@)
            &&& text::occurs(t, ", serial "@ + serial + ", product "@)
            &&& text::occurs(t, ", product "@ + product + ", interface "@)
            &&& text::occurs(t, ", interface "@ + interface + ")"@)
        }),
{
    let t = port_line(c);
    let pid = text::hex_fixed(
        match c.product_id {
            Some(pid) => pid as nat,
            None => 0,
        },
        4,
    );
    let serial = text::opt_str_debug(c.serial_number);
    let product = text::opt_str_debug(c.product);
    let interface = text::opt_u8_debug(c.interface);
    let (l1, l2, l3, l4, l5) = (" (pid 0x"@, ", serial "@, ", product "@, ", interface "@, ")"@);
    let head = "  "@ + c.port_name + l1;
    let x = head + pid + l2;
    let y = x + serial + l3;
    let z = y + product + l4;
    assert(t == z + interface + l5);
    let more = pid + l2 + serial + l3 + product + l4 + interface + l5;
    assert(t =~= head + more);
    text::law_beginning_is_going_on_from(t, head, more);
    text::lemma_occurs_row("  "@ + c.port_name, l1, pid, l2);
    text::lemma_occurs_row(head + pid, l2, serial, l3);
    text::lemma_occurs_row(x + serial, l3, product, l4);
    text::lemma_occurs_row(y + product, l4, interface, l5);
    let n1 = l1 + pid + l2;
    let n2 = l2 + serial + l3;
    let n3 = l3 + product + l4;
    text::lemma_occurs_longer(x, serial, l3, n1);
    text::lemma_occurs_longer(y, product, l4, n1);
    text::lemma_occurs_longer(z, interface, l5, n1);
    text::lemma_occurs_longer(y, product, l4, n2);
    text::lemma_occurs_longer(z, interface, l5, n2);
    text::lemma_occurs_longer(z, interface, l5, n3);
}

/// An ambiguous answer tells how many candidates there are and lists each of them, on a
/// line of its own and in order.
pub proof fn law_ambiguous_answer_lists_the_candidates(cs: Seq<PortModel>, c: PortModel)
    ensures
        text::occurs(
            ambiguous_text(cs),
            text::decimal(cs.len()) + " candidate ports match:\n"@ + described(cs),
        ),
        described(Seq::empty()) == Seq::<char>::empty(),
        described(seq![c]) == port_line(c),
        cs.len() > 0 ==> described(cs.push(c)) == described(cs) + "\n"@ + port_line(c),
        forall|i: int|
            0 <= i < cs.len() ==> text::occurs(ambiguous_text(cs), port_line(#[trigger] cs[i])),
{
    let (n, l) = (text::decimal(cs.len()), " candidate ports match:\n"@);
    let head = "ambiguous embarch-dev-bench detection — "@;
    assert(ambiguous_text(cs) == head + n + l + described(cs) + DISAMBIGUATE_ADVICE@);
    text::lemma_occurs_row(head, n, l, described(cs));
    text::lemma_occurs_before(
        head + n + l + described(cs),
        DISAMBIGUATE_ADVICE@,
        n + l + described(cs),
    );
    text::lemma_occurs_between(head + n + l, described(cs), DISAMBIGUATE_ADVICE@);
    assert(Seq::new(1, |i: int| port_line(seq![c][i])) =~= seq![port_line(c)]);
    let parts = Seq::new(cs.len(), |i: int| port_line(cs[i]));
    if cs.len() > 0 {
        let more = cs.push(c);
        let all = Seq::new(more.len(), |i: int| port_line(more[i]));
        assert(all.drop_last() =~= parts);
        assert(all.last() == port_line(c));
    }
    assert forall|i: int| 0 <= i < cs.len() implies text::occurs(
        ambiguous_text(cs),
        port_line(#[trigger] cs[i]),
    ) by {
        text::lemma_part_occurs(parts, "\n"@, i);
        text::lemma_occurs_trans(ambiguous_text(cs), described(cs), port_line(cs[i]));
    }
}

/// What each vendor's rule is called.
pub proof fn law_vendor_rules_have_their_names(vid: u16)
    ensures
        vid_rule(0x1366) == "segger-vid-match"@,
        vid_rule(0x303A) == "espressif-vid-match"@,
        vid_rule(0x10C4) == "silabs-vid-match"@,
        vid != 0x1366 && vid != 0x303A && vid != 0x10C4 ==> vid_rule(vid) == "vid-match"@,
{
}

/// The filter for dev-bench's link asks for a link vendor and, of SEGGER, for a J-Link.
/// It takes the serial and the interface that the row declares; where it declares no
/// serial the probe's own stands in, and only then as a fallback. The filter for a
/// declared serial asks for that serial and for nothing else.
pub proof fn law_filters_ask_for_what_was_declared(b: BoardModel, serial: Seq<char>)
    ensures
        ({
            let f = link_filter(Some(b));
            let none = link_filter(None);
            let s = declared_serial_filter(serial);
            &&& b.link_port_serial is Some ==> f.serial == b.link_port_serial
                && !f.serial_is_fallback
            &&& b.link_port_serial is None ==> f.serial == b.probe_serial && f.serial_is_fallback
            &&& f.interface == b.link_port_interface
            &&& f.product_needle == Some("jlink"@) && f.product_needle_is_default
                && !f.no_vid_gate
            &&& none.serial is None && none.serial_is_fallback && none.interface is None
            &&& none.product_needle == Some("jlink"@) && none.product_needle_is_default
                && !none.no_vid_gate
            &&& s.serial == Some(serial) && !s.serial_is_fallback && s.interface is None
            &&& s.product_needle is None && !s.product_needle_is_default && s.no_vid_gate
        }),
{
}

} // verus!
