//! Hardware topology: what is physically wired to what.
//!
//! The table of enrolled boards and declared signals is loaded, and the machine's
//! ports and probes are listed, by the caller; the functions here decide what
//! follows from them.

pub mod alert;
pub mod enrollment;
pub mod hardware_id;
pub mod paths;
pub mod port;
pub mod signal;
pub mod validate;

pub use alert::{Alert, UI_HOST, UI_PORT};
pub use enrollment::EnrolledBoard;
pub use hardware_id::{compare_self_reported, SelfReportedIdentity};
pub use paths::{alert_log_path, data_dir, enrollment_path};
pub use port::{
    DetectedPort, DevBenchPort, ExcludingRule as DevBenchNotFoundRule,
    NotFound as DevBenchNotFound, DECLARED_SERIAL, DEV_BENCH_ROLE, ENUMERATED,
};
pub use signal::{Route, SignalDirection, SignalLink, SignalMismatch, SignalNotDeclared};
pub use validate::{
    enroll, validate_role, validate_role_timed, validate_serial, validate_serial_timed,
    AttachedProbe, NotEnrolled, TopologyMismatch, Validation,
};

use crate::hardware::enrollment::{RoleNotEnrolled, Store};
use crate::hardware::port::{DetectError, EnumerationFailed, SerialPortInfo};
use crate::hardware::signal::{SignalError, UnnamedSignal};
use crate::lists;
use crate::text;
use vstd::prelude::*;

verus! {

/// The most recent alerts, oldest first, from the entries of the log as they were
/// parsed.
pub fn recent_alerts(parsed: &Vec<Option<Alert>>, limit: usize) -> (r: Vec<Alert>)
    ensures
        r.deep_view() == alert::latest(alert::readable(parsed.deep_view()), limit as nat),
{
    alert::recent(parsed, limit)
}

/// Every enrolled board.
pub fn list_enrolled(store: Store) -> (r: Vec<EnrolledBoard>)
    ensures
        r == store.boards,
{
    enrollment::list(store)
}

/// The board enrolled under `role`.
pub fn find_enrolled_by_role(store: &Store, role: &str) -> (r: Option<EnrolledBoard>)
    ensures
        r.deep_view() == lists::first(store.deep_view().boards, enrollment::holds(role@)),
{
    enrollment::find_by_role(store, role)
}

/// Declares the USB serial of dev-bench's runtime link. The role must be enrolled.
pub fn set_dev_bench_link_port_serial(store: &mut Store, serial: &str) -> (r: Result<
    (),
    RoleNotEnrolled,
>)
    ensures
        final(store).deep_view() == enrollment::amended(
            old(store).deep_view(),
            DEV_BENCH_ROLE@,
            enrollment::LinkEditModel::Serial(Some(serial@)),
        ),
        r is Ok <==> enrollment::enrolled(old(store).deep_view(), DEV_BENCH_ROLE@),
        r matches Err(e) ==> e.role@ == DEV_BENCH_ROLE@ && *final(store) == *old(store),
{
    enrollment::set_link_port_serial(store, DEV_BENCH_ROLE, serial)
}

/// Declares which USB interface carries dev-bench's runtime link.
pub fn set_dev_bench_link_port_interface(store: &mut Store, interface: u8) -> (r: Result<
    (),
    RoleNotEnrolled,
>)
    ensures
        final(store).deep_view() == enrollment::amended(
            old(store).deep_view(),
            DEV_BENCH_ROLE@,
            enrollment::LinkEditModel::Interface(Some(interface)),
        ),
        r is Ok <==> enrollment::enrolled(old(store).deep_view(), DEV_BENCH_ROLE@),
        r matches Err(e) ==> e.role@ == DEV_BENCH_ROLE@ && *final(store) == *old(store),
{
    enrollment::set_link_port_interface(store, DEV_BENCH_ROLE, interface)
}

/// Takes back the declared serial of dev-bench's runtime link.
pub fn clear_dev_bench_link_port_serial(store: &mut Store) -> (r: Result<(), RoleNotEnrolled>)
    ensures
        final(store).deep_view() == enrollment::amended(
            old(store).deep_view(),
            DEV_BENCH_ROLE@,
            enrollment::LinkEditModel::Serial(None),
        ),
        r is Ok <==> enrollment::enrolled(old(store).deep_view(), DEV_BENCH_ROLE@),
        r matches Err(e) ==> e.role@ == DEV_BENCH_ROLE@ && *final(store) == *old(store),
{
    enrollment::clear_link_port_serial(store, DEV_BENCH_ROLE)
}

/// Takes back the declared interface of dev-bench's runtime link.
pub fn clear_dev_bench_link_port_interface(store: &mut Store) -> (r: Result<(), RoleNotEnrolled>)
    ensures
        final(store).deep_view() == enrollment::amended(
            old(store).deep_view(),
            DEV_BENCH_ROLE@,
            enrollment::LinkEditModel::Interface(None),
        ),
        r is Ok <==> enrollment::enrolled(old(store).deep_view(), DEV_BENCH_ROLE@),
        r matches Err(e) ==> e.role@ == DEV_BENCH_ROLE@ && *final(store) == *old(store),
{
    enrollment::clear_link_port_interface(store, DEV_BENCH_ROLE)
}

/// Every declared signal.
pub fn list_signals(store: Store) -> (r: Vec<SignalLink>)
    ensures
        r == store.signals,
{
    signal::list(store)
}

/// The signal declared as `name`.
pub fn find_signal(store: &Store, name: &str) -> (r: Option<SignalLink>)
    ensures
        r.deep_view() == lists::first(store.deep_view().signals, signal::named(name@)),
{
    signal::find(store, name)
}

/// Declares where a named signal goes. To declare it again is to move it.
pub fn declare_signal(store: &mut Store, link: SignalLink) -> (r: Result<(), UnnamedSignal>)
    ensures
        r is Err <==> text::trimmed(link.name@).len() == 0,
        r is Ok ==> final(store).deep_view() == signal::declared(
            old(store).deep_view(),
            link.deep_view(),
        ),
        r is Err ==> *final(store) == *old(store),
{
    signal::declare(store, link)
}

/// Removes a declared signal, and says whether there was one.
pub fn remove_signal(store: &mut Store, name: &str) -> (removed: bool)
    ensures
        final(store).deep_view() == signal::undeclared(old(store).deep_view(), name@),
        removed == (lists::first(old(store).deep_view().signals, signal::named(name@)) is Some),
        !removed ==> *final(store) == *old(store),
{
    signal::remove(store, name)
}

/// The serial port that carries a direct signal now.
pub fn resolve_signal_port(
    store: &Store,
    name: &str,
    ports: &Result<Vec<SerialPortInfo>, String>,
) -> (r: Result<DetectedPort, SignalError>)
    ensures
        signal::port_result(r) == signal::carrier_of(
            store.deep_view(),
            name@,
            signal::ports_view(*ports),
        ),
{
    signal::resolve_port(store, name, ports)
}

/// Confirms that a declared signal is where it says it is.
pub fn validate_signal(
    store: &Store,
    name: &str,
    ports: &Result<Vec<SerialPortInfo>, String>,
) -> (r: Result<SignalLink, SignalError>)
    ensures
        signal::link_result(r) == signal::validated(
            store.deep_view(),
            name@,
            signal::ports_view(*ports),
        ),
{
    signal::validate(store, name, ports)
}

/// Dev-bench's serial port on this machine.
pub fn resolve_dev_bench_port(
    store: &Result<Store, String>,
    ports: &Result<Vec<SerialPortInfo>, String>,
    likely_wsl2: bool,
) -> (r: Result<DevBenchPort, DetectError>)
    ensures
        ports matches Ok(ps) ==> port::detect_view(r) == port::on_this_machine(
            port::selected(ps.deep_view(), port::link_filter(port::dev_bench_row(*store))),
            likely_wsl2,
        ),
        ports matches Err(cause) ==> port::detect_view(r) == Err::<
            port::PortModel,
            port::DetectFailure,
        >(port::DetectFailure::Enumeration(cause@)),
{
    port::detect(store, ports, likely_wsl2)
}

/// Every USB serial port of this machine, whatever its vendor.
pub fn list_serial_ports(ports: &Result<Vec<SerialPortInfo>, String>) -> (r: Result<
    Vec<DetectedPort>,
    EnumerationFailed,
>)
    ensures
        ports matches Ok(ps) ==> r matches Ok(v) && v.deep_view() == port::all_listed(
            ps.deep_view(),
        ),
        ports matches Err(cause) ==> r matches Err(e) && e.cause@ == cause@,
{
    port::enumerate(ports)
}

} // verus!
