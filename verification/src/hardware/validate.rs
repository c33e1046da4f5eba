//! The live identity gate, and enrollment through it.
//!
//! A probe is opened, attached to and read elsewhere. What is decided in between is
//! here: each function takes the answers so far and says what to do next, or what
//! the outcome is. The identity gate fails closed: a board that is not enrolled, not
//! attached, not readable or not the one that was recorded is refused.

use crate::hardware::alert::{self, Alert, AlertModel};
use crate::hardware::enrollment::{self, BoardModel, EnrolledBoard, Store, StoreModel};
use crate::hardware::hardware_id::{self, ReadError, ReadFailure};
use crate::lists;
use crate::text;
use vstd::prelude::*;
use vstd::string::*;

verus! {

// ---- attached probes ----------------------------------------------------------------

/// One debug probe that is attached now.
#[derive(Debug, PartialEq, Eq)]
pub struct AttachedProbe {
    pub identifier: String,
    pub vendor_id: u16,
    pub product_id: u16,
    pub serial_number: Option<String>,
}

#[verifier::ext_equal]
pub ghost struct ProbeModel {
    pub identifier: Seq<char>,
    pub vendor_id: u16,
    pub product_id: u16,
    pub serial_number: Option<Seq<char>>,
}

impl DeepView for AttachedProbe {
    type V = ProbeModel;

    open spec fn deep_view(&self) -> ProbeModel {
        ProbeModel {
            identifier: self.identifier@,
            vendor_id: self.vendor_id,
            product_id: self.product_id,
            serial_number: self.serial_number.deep_view(),
        }
    }
}

impl Clone for AttachedProbe {
    fn clone(&self) -> (r: Self)
        ensures
            r == *self,
    {
        AttachedProbe {
            identifier: self.identifier.clone(),
            vendor_id: self.vendor_id,
            product_id: self.product_id,
            serial_number: self.serial_number.clone(),
        }
    }
}

/// A probe that reports the serial `serial`, to the letter.
pub open spec fn reports(serial: Seq<char>) -> spec_fn(ProbeModel) -> bool {
    |p: ProbeModel| p.serial_number == Some(serial)
}

fn find_probe(probes: &Vec<AttachedProbe>, serial: &str) -> (r: usize)
    ensures
        r == lists::position(probes.deep_view(), reports(serial@)),
        r <= probes@.len(),
{
    let wanted = |p: &AttachedProbe| -> (x: bool)
        ensures
            x == reports(serial@)(p.deep_view())
    {
        match &p.serial_number {
            Some(s) => text::same(s.as_str(), serial),
            None => false,
        }
    };
    lists::find_position(probes, wanted, Ghost(reports(serial@)))
}

// ---- picking one -----------------------------------------------------------------------

/// Why no probe was picked.
#[derive(Debug, PartialEq, Eq)]
pub enum SelectProbeError {
    /// None is attached, whichever was wanted.
    NoProbe { wanted: Option<String> },
    /// None of those attached has the serial that was wanted.
    NoMatch { wanted: String },
    /// No serial was given, and several are attached.
    Several { action: String, probes: Vec<AttachedProbe> },
}

pub ghost enum PickFailure {
    NoProbe { wanted: Option<Seq<char>> },
    NoMatch { wanted: Seq<char> },
    Several { action: Seq<char>, probes: Seq<ProbeModel> },
}

impl DeepView for SelectProbeError {
    type V = PickFailure;

    open spec fn deep_view(&self) -> PickFailure {
        match *self {
            SelectProbeError::NoProbe { wanted } => PickFailure::NoProbe {
                wanted: wanted.deep_view(),
            },
            SelectProbeError::NoMatch { wanted } => PickFailure::NoMatch { wanted: wanted@ },
            SelectProbeError::Several { action, probes } => PickFailure::Several {
                action: action@,
                probes: probes.deep_view(),
            },
        }
    }
}

pub const CHECK_USB: &'static str =
    " — check the USB \
     connection (and usbipd attach, if Core is on a Pi and the probe is elsewhere)";

/// One attached probe, with its serial as it is shown.
pub open spec fn probe_text(identifier: Seq<char>, serial: Seq<char>) -> Seq<char> {
    identifier + " (serial="@ + serial + ")"@
}

/// One attached probe, as the refusal names it.
pub open spec fn probe_line(p: ProbeModel) -> Seq<char> {
    probe_text(p.identifier, text::opt_str_debug(p.serial_number))
}

/// A list, with its items as they are shown.
pub open spec fn list_text(items: Seq<Seq<char>>) -> Seq<char> {
    "["@ + text::joined(items, ", "@) + "]"@
}

/// The attached probes, as the refusal lists them.
pub open spec fn probe_list(probes: Seq<ProbeModel>) -> Seq<char> {
    list_text(Seq::new(probes.len(), |i: int| text::str_debug(probe_line(probes[i]))))
}

/// Writes one attached probe down, with its serial as it is shown.
pub fn render_probe(identifier: &str, serial: &str) -> (r: String)
    ensures
        r@ == probe_text(identifier@, serial@),
{
    let mut r = identifier.to_string();
    r.append(" (serial=");
    r.append(serial);
    r.append(")");
    r
}

/// Writes a list down, with its items as they are shown.
pub fn render_list(items: &Vec<String>) -> (r: String)
    ensures
        r@ == list_text(text::texts(items@)),
{
    let mut r = "[".to_string();
    r.append(text::join(items, ", ").as_str());
    r.append("]");
    r
}

pub open spec fn pick_failure_text(e: PickFailure) -> Seq<char> {
    match e {
        PickFailure::NoProbe { wanted: Some(wanted) } =>
            "no debug probe found (looking for serial '"@ + wanted + "')"@ + CHECK_USB@,
        PickFailure::NoProbe { wanted: None } => "no debug probe found"@ + CHECK_USB@,
        PickFailure::NoMatch { wanted } => "no attached probe with serial '"@ + wanted
            + "' — is it still plugged in?"@,
        PickFailure::Several { action, probes } => action
            + " requires exactly one debug probe attached ("@ + text::decimal(probes.len())
            + " seen) — plug in only the board you mean to "@ + action
            + ", or specify which probe by serial. Attached probes: "@ + probe_list(probes),
    }
}

fn list_probes_text(probes: &Vec<AttachedProbe>) -> (r: String)
    ensures
        r@ == probe_list(probes.deep_view()),
{
    let mut parts: Vec<String> = Vec::new();
    let mut i: usize = 0;
    let ghost m = probes.deep_view();
    while i < probes.len()
        invariant
            i <= probes@.len(),
            m == probes.deep_view(),
            text::texts(parts@) =~= Seq::new(
                i as nat,
                |j: int| text::str_debug(probe_line(m[j])),
            ),
        decreases probes@.len() - i,
    {
        let ghost before = text::texts(parts@);
        assert(m[i as int] == probes@[i as int].deep_view());
        let serial = text::debug_opt_str(&probes[i].serial_number);
        let line = render_probe(probes[i].identifier.as_str(), serial.as_str());
        let part = text::debug_str(line.as_str());
        parts.push(part);
        assert(text::texts(parts@) =~= before.push(part@));
        i += 1;
    }
    assert(text::texts(parts@) =~= Seq::new(
        m.len(),
        |j: int| text::str_debug(probe_line(m[j])),
    ));
    render_list(&parts)
}

impl SelectProbeError {
    /// What a human is told.
    pub fn message(&self) -> (r: String)
        ensures
            r@ == pick_failure_text(self.deep_view()),
    {
        match self {
            SelectProbeError::NoProbe { wanted } => match wanted {
                Some(wanted) => {
                    let mut r = "no debug probe found (looking for serial '".to_string();
                    r.append(wanted.as_str());
                    r.append("')");
                    r.append(CHECK_USB);
                    r
                },
                None => {
                    let mut r = "no debug probe found".to_string();
                    r.append(CHECK_USB);
                    r
                },
            },
            SelectProbeError::NoMatch { wanted } => {
                let mut r = "no attached probe with serial '".to_string();
                r.append(wanted.as_str());
                r.append("' — is it still plugged in?");
                r
            },
            SelectProbeError::Several { action, probes } => {
                let mut r = action.clone();
                r.append(" requires exactly one debug probe attached (");
                r.append(text::to_decimal(probes.len() as u64).as_str());
                r.append(" seen) — plug in only the board you mean to ");
                r.append(action.as_str());
                r.append(", or specify which probe by serial. Attached probes: ");
                r.append(list_probes_text(probes).as_str());
                r
            },
        }
    }
}

/// Which of the attached probes is meant. That none is attached comes first,
/// whether or not a serial was given; a serial picks the probe that reports it;
/// without one there must be exactly one probe.
pub open spec fn picked(
    probes: Seq<ProbeModel>,
    wanted: Option<Seq<char>>,
    action: Seq<char>,
) -> Result<nat, PickFailure> {
    if probes.len() == 0 {
        Err(PickFailure::NoProbe { wanted })
    } else {
        match wanted {
            Some(serial) => {
                let at = lists::position(probes, reports(serial));
                if at < probes.len() {
                    Ok(at)
                } else {
                    Err(PickFailure::NoMatch { wanted: serial })
                }
            },
            None => if probes.len() > 1 {
                Err(PickFailure::Several { action, probes })
            } else {
                Ok(0)
            },
        }
    }
}

pub open spec fn pick_view(r: Result<usize, SelectProbeError>) -> Result<nat, PickFailure> {
    match r {
        Ok(i) => Ok(i as nat),
        Err(e) => Err(e.deep_view()),
    }
}

fn copy_probes(probes: &Vec<AttachedProbe>) -> (r: Vec<AttachedProbe>)
    ensures
        r.deep_view() == probes.deep_view(),
{
    let r = probes.clone();
    assert(r.deep_view() =~= probes.deep_view());
    r
}

/// Picks one of the attached probes, by its position. `action` is the verb for
/// what the caller is about to do with it.
pub fn select_probe_index(
    probes: &Vec<AttachedProbe>,
    probe_serial: Option<&str>,
    action: &str,
) -> (r: Result<usize, SelectProbeError>)
    ensures
        pick_view(r) == picked(probes.deep_view(), text::opt_text(probe_serial), action@),
        r matches Ok(i) ==> i < probes@.len(),
{
    if probes.len() == 0 {
        return Err(
            SelectProbeError::NoProbe {
                wanted: match probe_serial {
                    Some(s) => Some(s.to_string()),
                    None => None,
                },
            },
        );
    }
    if let Some(wanted) = probe_serial {
        let at: usize = find_probe(probes, wanted);
        return if at < probes.len() {
            Ok(at)
        } else {
            Err(SelectProbeError::NoMatch { wanted: wanted.to_string() })
        };
    }
    if probes.len() > 1 {
        return Err(
            SelectProbeError::Several { action: action.to_string(), probes: copy_probes(probes) },
        );
    }
    Ok(0)
}

/// Picks one of the attached probes.
pub fn select_probe(
    probes: Vec<AttachedProbe>,
    probe_serial: Option<&str>,
    action: &str,
) -> (r: Result<AttachedProbe, SelectProbeError>)
    ensures
        match picked(probes.deep_view(), text::opt_text(probe_serial), action@) {
            Ok(i) => r matches Ok(p) && p == probes@[i as int],
            Err(e) => r matches Err(f) && f.deep_view() == e,
        },
{
    match select_probe_index(&probes, probe_serial, action) {
        Ok(i) => Ok(probes[i].clone()),
        Err(e) => Err(e),
    }
}

// ---- a session with a target --------------------------------------------------------------

/// One thing to do with the probe that was picked, or with what it is attached to.
#[derive(Debug, Clone, Copy, PartialEq, Eq, Structural)]
pub enum SessionStep {
    /// Open the probe.
    Open,
    /// Check that the target has power.
    CheckPower,
    /// Attach to the chip.
    Attach,
    /// Select core 0.
    SelectCore,
    /// Read the chip's identity.
    ReadIdentity,
}

/// How the steps of a session went so far; `None` for one that was not taken.
#[derive(Debug, PartialEq, Eq)]
pub struct SessionLog {
    pub opened: Option<Result<(), String>>,
    pub powered: Option<Result<(), String>>,
    pub attached: Option<Result<(), String>>,
    pub core: Option<Result<(), String>>,
    pub identity: Option<Result<String, ReadError>>,
}

impl SessionLog {
    /// A session in which no step was taken.
    pub fn new() -> (r: SessionLog)
        ensures
            r.opened is None,
            r.powered is None,
            r.attached is None,
            r.core is None,
            r.identity is None,
    {
        SessionLog { opened: None, powered: None, attached: None, core: None, identity: None }
    }
}

/// The step of a session that failed, with what the probe answered.
#[derive(Debug, PartialEq, Eq)]
pub enum SessionFault {
    Open(String),
    Unpowered(String),
    Attach(String),
    Core(String),
    Read(ReadError),
}

pub ghost enum SessionFailure {
    Open(Seq<char>),
    Unpowered(Seq<char>),
    Attach(Seq<char>),
    Core(Seq<char>),
    Read(ReadFailure),
}

impl DeepView for SessionFault {
    type V = SessionFailure;

    open spec fn deep_view(&self) -> SessionFailure {
        match *self {
            SessionFault::Open(c) => SessionFailure::Open(c@),
            SessionFault::Unpowered(c) => SessionFailure::Unpowered(c@),
            SessionFault::Attach(c) => SessionFailure::Attach(c@),
            SessionFault::Core(c) => SessionFailure::Core(c@),
            SessionFault::Read(e) => SessionFailure::Read(e.deep_view()),
        }
    }
}

/// Where a session stands.
#[derive(Debug, PartialEq, Eq)]
pub enum SessionState {
    Next(SessionStep),
    Failed(SessionFault),
    /// The identity that the chip reports now.
    Identified(String),
}

pub ghost enum SessionStateModel {
    Next(SessionStep),
    Failed(SessionFailure),
    Identified(Seq<char>),
}

impl DeepView for SessionState {
    type V = SessionStateModel;

    open spec fn deep_view(&self) -> SessionStateModel {
        match *self {
            SessionState::Next(s) => SessionStateModel::Next(s),
            SessionState::Failed(f) => SessionStateModel::Failed(f.deep_view()),
            SessionState::Identified(id) => SessionStateModel::Identified(id@),
        }
    }
}

/// The steps are taken in order, and the first that fails ends the session.
pub open spec fn session(log: SessionLog) -> SessionStateModel {
    match log.opened {
        None => SessionStateModel::Next(SessionStep::Open),
        Some(Err(c)) => SessionStateModel::Failed(SessionFailure::Open(c@)),
        Some(Ok(_)) => match log.powered {
            None => SessionStateModel::Next(SessionStep::CheckPower),
            Some(Err(c)) => SessionStateModel::Failed(SessionFailure::Unpowered(c@)),
            Some(Ok(_)) => match log.attached {
                None => SessionStateModel::Next(SessionStep::Attach),
                Some(Err(c)) => SessionStateModel::Failed(SessionFailure::Attach(c@)),
                Some(Ok(_)) => match log.core {
                    None => SessionStateModel::Next(SessionStep::SelectCore),
                    Some(Err(c)) => SessionStateModel::Failed(SessionFailure::Core(c@)),
                    Some(Ok(_)) => match log.identity {
                        None => SessionStateModel::Next(SessionStep::ReadIdentity),
                        Some(Err(e)) => SessionStateModel::Failed(
                            SessionFailure::Read(e.deep_view()),
                        ),
                        Some(Ok(id)) => SessionStateModel::Identified(id@),
                    },
                },
            },
        },
    }
}

/// Says where a session stands.
pub fn session_state(log: &SessionLog) -> (r: SessionState)
    ensures
        r.deep_view() == session(*log),
{
    match &log.opened {
        None => {
            return SessionState::Next(SessionStep::Open);
        },
        Some(Err(c)) => {
            return SessionState::Failed(SessionFault::Open(c.clone()));
        },
        Some(Ok(_)) => {},
    }
    match &log.powered {
        None => {
            return SessionState::Next(SessionStep::CheckPower);
        },
        Some(Err(c)) => {
            return SessionState::Failed(SessionFault::Unpowered(c.clone()));
        },
        Some(Ok(_)) => {},
    }
    match &log.attached {
        None => {
            return SessionState::Next(SessionStep::Attach);
        },
        Some(Err(c)) => {
            return SessionState::Failed(SessionFault::Attach(c.clone()));
        },
        Some(Ok(_)) => {},
    }
    match &log.core {
        None => {
            return SessionState::Next(SessionStep::SelectCore);
        },
        Some(Err(c)) => {
            return SessionState::Failed(SessionFault::Core(c.clone()));
        },
        Some(Ok(_)) => {},
    }
    match &log.identity {
        None => SessionState::Next(SessionStep::ReadIdentity),
        Some(Err(e)) => SessionState::Failed(SessionFault::Read(e.clone())),
        Some(Ok(id)) => SessionState::Identified(id.clone()),
    }
}

/// A reading of the machine's clock, and the process that read it.
#[derive(Debug, Clone, Copy, PartialEq, Eq)]
pub struct Clock {
    /// Milliseconds since the epoch; `None` for a clock set before it.
    pub since_epoch_ms: Option<u128>,
    pub pid: u32,
}

// ---- refusals --------------------------------------------------------------------------------

/// The enrolled board is not there, or is not what was recorded.
#[derive(Debug, PartialEq, Eq)]
pub struct TopologyMismatch {
    pub role: String,
    pub probe_serial: String,
    pub chip: String,
    pub recorded_hardware_id: String,
    /// `None` when the enrolled probe is not attached at all.
    pub live_hardware_id: Option<String>,
    pub reason: String,
    pub fix_it_url: String,
}

#[verifier::ext_equal]
pub ghost struct MismatchModel {
    pub role: Seq<char>,
    pub probe_serial: Seq<char>,
    pub chip: Seq<char>,
    pub recorded_hardware_id: Seq<char>,
    pub live_hardware_id: Option<Seq<char>>,
    pub reason: Seq<char>,
    pub fix_it_url: Seq<char>,
}

impl DeepView for TopologyMismatch {
    type V = MismatchModel;

    open spec fn deep_view(&self) -> MismatchModel {
        MismatchModel {
            role: self.role@,
            probe_serial: self.probe_serial@,
            chip: self.chip@,
            recorded_hardware_id: self.recorded_hardware_id@,
            live_hardware_id: self.live_hardware_id.deep_view(),
            reason: self.reason@,
            fix_it_url: self.fix_it_url@,
        }
    }
}

pub open spec fn mismatch_text(m: MismatchModel) -> Seq<char> {
    "topology-mismatch: "@ + m.reason + " — fix it at "@ + m.fix_it_url
}

impl TopologyMismatch {
    /// What a human is told.
    pub fn message(&self) -> (r: String)
        ensures
            r@ == mismatch_text(self.deep_view()),
    {
        let mut r = "topology-mismatch: ".to_string();
        r.append(self.reason.as_str());
        r.append(" — fix it at ");
        r.append(self.fix_it_url.as_str());
        r
    }
}

/// No board is enrolled under this role yet: a normal state.
#[derive(Debug, PartialEq, Eq)]
pub struct NotEnrolled {
    pub role: String,
}

pub const ENROLL_FIRST: &'static str =
    " — enroll it first (`embarch-topology enroll`), \
     with only this board's probe attached";

pub open spec fn not_enrolled_text(role: Seq<char>) -> Seq<char> {
    "no board enrolled under role '"@ + role + "'"@ + ENROLL_FIRST@
}

pub open spec fn serial_not_enrolled_text(serial: Seq<char>) -> Seq<char> {
    "probe '"@ + serial + "' is not enrolled"@ + ENROLL_FIRST@
}

impl NotEnrolled {
    /// What a human is told.
    pub fn message(&self) -> (r: String)
        ensures
            r@ == not_enrolled_text(self.role@),
    {
        let mut r = "no board enrolled under role '".to_string();
        r.append(self.role.as_str());
        r.append("'");
        r.append(ENROLL_FIRST);
        r
    }
}

/// Why a board was refused by the identity gate.
#[derive(Debug, PartialEq, Eq)]
pub enum ValidateError {
    Mismatch(TopologyMismatch),
    NotEnrolled(NotEnrolled),
    /// The probe with this serial is not enrolled.
    SerialNotEnrolled { serial: String },
    /// The identity could not be read, so nothing was found out about the board.
    Session { role: String, chip: String, fault: SessionFault },
}

pub ghost enum ValidateFailure {
    Mismatch(MismatchModel),
    NotEnrolled { role: Seq<char> },
    SerialNotEnrolled { serial: Seq<char> },
    Session { role: Seq<char>, chip: Seq<char>, fault: SessionFailure },
}

impl DeepView for ValidateError {
    type V = ValidateFailure;

    open spec fn deep_view(&self) -> ValidateFailure {
        match *self {
            ValidateError::Mismatch(m) => ValidateFailure::Mismatch(m.deep_view()),
            ValidateError::NotEnrolled(e) => ValidateFailure::NotEnrolled { role: e.role@ },
            ValidateError::SerialNotEnrolled { serial } => ValidateFailure::SerialNotEnrolled {
                serial: serial@,
            },
            ValidateError::Session { role, chip, fault } => ValidateFailure::Session {
                role: role@,
                chip: chip@,
                fault: fault.deep_view(),
            },
        }
    }
}

pub open spec fn gate_fault_text(
    role: Seq<char>,
    chip: Seq<char>,
    fault: SessionFailure,
) -> Seq<char> {
    match fault {
        SessionFailure::Open(_) =>
            "failed to open the enrolled probe for the board-identity gate"@,
        SessionFailure::Unpowered(_) => "can't validate role '"@ + role + "'"@,
        SessionFailure::Attach(_) => "failed to attach to '"@ + chip
            + "' for the board-identity gate"@,
        SessionFailure::Core(_) => "failed to select core 0 for the board-identity gate"@,
        SessionFailure::Read(e) => hardware_id::read_error_text(e),
    }
}

pub open spec fn validate_failure_text(e: ValidateFailure) -> Seq<char> {
    match e {
        ValidateFailure::Mismatch(m) => mismatch_text(m),
        ValidateFailure::NotEnrolled { role } => not_enrolled_text(role),
        ValidateFailure::SerialNotEnrolled { serial } => serial_not_enrolled_text(serial),
        ValidateFailure::Session { role, chip, fault } => gate_fault_text(role, chip, fault),
    }
}

impl ValidateError {
    /// What a human is told.
    pub fn message(&self) -> (r: String)
        ensures
            r@ == validate_failure_text(self.deep_view()),
    {
        match self {
            ValidateError::Mismatch(m) => m.message(),
            ValidateError::NotEnrolled(e) => e.message(),
            ValidateError::SerialNotEnrolled { serial } => {
                let mut r = "probe '".to_string();
                r.append(serial.as_str());
                r.append("' is not enrolled");
                r.append(ENROLL_FIRST);
                r
            },
            ValidateError::Session { role, chip, fault } => match fault {
                SessionFault::Open(_) =>
                    "failed to open the enrolled probe for the board-identity gate".to_string(),
                SessionFault::Unpowered(_) => {
                    let mut r = "can't validate role '".to_string();
                    r.append(role.as_str());
                    r.append("'");
                    r
                },
                SessionFault::Attach(_) => {
                    let mut r = "failed to attach to '".to_string();
                    r.append(chip.as_str());
                    r.append("' for the board-identity gate");
                    r
                },
                SessionFault::Core(_) =>
                    "failed to select core 0 for the board-identity gate".to_string(),
                SessionFault::Read(e) => e.message(),
            },
        }
    }
}

// ---- the identity gate -----------------------------------------------------------------------------------

/// The enrolled record that a live check confirmed, and when that check passed. The
/// record's own time is that of its enrollment.
#[derive(Debug, PartialEq, Eq)]
pub struct Validation {
    pub board: EnrolledBoard,
    pub validated_at_utc_ms: u64,
}

#[verifier::ext_equal]
pub ghost struct ValidationModel {
    pub board: BoardModel,
    pub validated_at_utc_ms: u64,
}

impl DeepView for Validation {
    type V = ValidationModel;

    open spec fn deep_view(&self) -> ValidationModel {
        ValidationModel {
            board: self.board.deep_view(),
            validated_at_utc_ms: self.validated_at_utc_ms,
        }
    }
}

impl Clone for Validation {
    fn clone(&self) -> (r: Self)
        ensures
            r == *self,
    {
        Validation {
            board: self.board.clone(),
            validated_at_utc_ms: self.validated_at_utc_ms,
        }
    }
}

/// The answers that a live check has had so far; `None` for what was not asked.
#[derive(Debug, PartialEq, Eq)]
pub struct GateLog {
    pub probes: Option<Vec<AttachedProbe>>,
    pub session: SessionLog,
    pub clock: Option<Clock>,
    /// How appending the alert to the log went.
    pub recorded: Option<Result<(), String>>,
}

impl GateLog {
    /// A live check in which nothing was asked.
    pub fn new() -> (r: GateLog)
        ensures
            r.probes is None,
            session(r.session) == SessionStateModel::Next(SessionStep::Open),
            r.clock is None,
            r.recorded is None,
    {
        GateLog { probes: None, session: SessionLog::new(), clock: None, recorded: None }
    }
}

/// What a live check does next.
#[derive(Debug, PartialEq, Eq)]
pub enum GateStep<T> {
    /// List the attached probes.
    ListProbes,
    /// Take `step` with the attached probe at position `probe`, whose target is
    /// `chip`.
    Session { probe: usize, chip: String, step: SessionStep },
    ReadClock,
    /// Append the alert to the log.
    Record(Alert),
    Done(Result<T, ValidateError>),
}

pub ghost enum GateStepModel<T> {
    ListProbes,
    Session { probe: nat, chip: Seq<char>, step: SessionStep },
    ReadClock,
    Record(AlertModel),
    Done(Result<T, ValidateFailure>),
}

impl<T: DeepView> DeepView for GateStep<T> {
    type V = GateStepModel<T::V>;

    open spec fn deep_view(&self) -> GateStepModel<T::V> {
        match *self {
            GateStep::ListProbes => GateStepModel::ListProbes,
            GateStep::Session { probe, chip, step } => GateStepModel::Session {
                probe: probe as nat,
                chip: chip@,
                step,
            },
            GateStep::ReadClock => GateStepModel::ReadClock,
            GateStep::Record(a) => GateStepModel::Record(a.deep_view()),
            GateStep::Done(Ok(t)) => GateStepModel::Done(Ok(t.deep_view())),
            GateStep::Done(Err(e)) => GateStepModel::Done(Err(e.deep_view())),
        }
    }
}

pub open spec fn mismatch(
    known: BoardModel,
    live_hardware_id: Option<Seq<char>>,
    reason: Seq<char>,
) -> MismatchModel {
    MismatchModel {
        role: known.role,
        probe_serial: text::or_empty(known.probe_serial),
        chip: known.chip,
        recorded_hardware_id: text::or_empty(known.hardware_id),
        live_hardware_id,
        reason,
        fix_it_url: alert::fix_it_text(),
    }
}

/// A mismatch is refused once its alert was appended to the log. How that went does
/// not matter: a log that cannot be written must not hide the mismatch.
pub open spec fn refusing(
    known: BoardModel,
    live_hardware_id: Option<Seq<char>>,
    reason: Seq<char>,
    log: GateLog,
) -> GateStepModel<ValidationModel> {
    match log.clock {
        None => GateStepModel::ReadClock,
        Some(c) => match log.recorded {
            None => GateStepModel::Record(
                alert::raised(
                    known,
                    live_hardware_id,
                    reason,
                    enrollment::utc_ms(c.since_epoch_ms),
                    c.pid,
                ),
            ),
            Some(_) => GateStepModel::Done(
                Err(ValidateFailure::Mismatch(mismatch(known, live_hardware_id, reason))),
            ),
        },
    }
}

pub open spec fn absent_text(probe_serial: Seq<char>, role: Seq<char>) -> Seq<char> {
    "probe '"@ + probe_serial + "' enrolled as role '"@ + role + "' is not currently attached"@
}

pub open spec fn changed_text(
    probe_serial: Seq<char>,
    role: Seq<char>,
    chip: Seq<char>,
    recorded: Seq<char>,
    live: Seq<char>,
) -> Seq<char> {
    "probe '"@ + probe_serial + "' is enrolled as role '"@ + role + "' (chip '"@ + chip
        + "') with hardware ID '"@ + recorded + "', but the attached chip now reports '"@ + live
        + "' — re-enroll if this is deliberate"@
}

/// What the live check of `known` does next. The probe must be attached, its session
/// must end in an identity, and that must be the recorded one; the time is read
/// after the comparison.
pub open spec fn gate(known: BoardModel, log: GateLog) -> GateStepModel<ValidationModel> {
    let serial = text::or_empty(known.probe_serial);
    let recorded = text::or_empty(known.hardware_id);
    match log.probes {
        None => GateStepModel::ListProbes,
        Some(probes) => {
            let at = lists::position(probes.deep_view(), reports(serial));
            if at >= probes.deep_view().len() {
                refusing(known, None, absent_text(serial, known.role), log)
            } else {
                match session(log.session) {
                    SessionStateModel::Next(step) => GateStepModel::Session {
                        probe: at,
                        chip: known.chip,
                        step,
                    },
                    SessionStateModel::Failed(fault) => GateStepModel::Done(
                        Err(
                            ValidateFailure::Session { role: known.role, chip: known.chip, fault },
                        ),
                    ),
                    SessionStateModel::Identified(live) => if live != recorded {
                        refusing(
                            known,
                            Some(live),
                            changed_text(serial, known.role, known.chip, recorded, live),
                            log,
                        )
                    } else {
                        match log.clock {
                            None => GateStepModel::ReadClock,
                            Some(c) => GateStepModel::Done(
                                Ok(
                                    ValidationModel {
                                        board: known,
                                        validated_at_utc_ms: enrollment::utc_ms(
                                            c.since_epoch_ms,
                                        ),
                                    },
                                ),
                            ),
                        }
                    },
                }
            }
        },
    }
}

/// The next step on the way to refusing `known`.
fn raise(
    known: &EnrolledBoard,
    live_hardware_id: Option<String>,
    reason: String,
    log: &GateLog,
) -> (r: GateStep<Validation>)
    ensures
        r.deep_view() == refusing(
            known.deep_view(),
            live_hardware_id.deep_view(),
            reason@,
            *log,
        ),
{
    let clock = match log.clock {
        None => {
            return GateStep::ReadClock;
        },
        Some(c) => c,
    };
    if log.recorded.is_none() {
        let now: u64 = enrollment::now_utc_ms(clock.since_epoch_ms);
        return GateStep::Record(Alert::new(known, live_hardware_id, reason, now, clock.pid));
    }
    GateStep::Done(
        Err(
            ValidateError::Mismatch(
                TopologyMismatch {
                    role: known.role.clone(),
                    probe_serial: text::text_or_empty(&known.probe_serial),
                    chip: known.chip.clone(),
                    recorded_hardware_id: text::text_or_empty(&known.hardware_id),
                    live_hardware_id,
                    reason,
                    fix_it_url: alert::fix_it_url(),
                },
            ),
        ),
    )
}

/// Says what the live check of `known` does next.
fn validate_known_timed(known: EnrolledBoard, log: &GateLog) -> (r: GateStep<Validation>)
    ensures
        r.deep_view() == gate(known.deep_view(), *log),
{
    let serial = text::text_or_empty(&known.probe_serial);
    let recorded = text::text_or_empty(&known.hardware_id);
    let probes = match &log.probes {
        None => {
            return GateStep::ListProbes;
        },
        Some(probes) => probes,
    };
    let at: usize = find_probe(probes, serial.as_str());
    if at >= probes.len() {
        let mut reason = "probe '".to_string();
        reason.append(serial.as_str());
        reason.append("' enrolled as role '");
        reason.append(known.role.as_str());
        reason.append("' is not currently attached");
        return raise(&known, None, reason, log);
    }
    let live = match session_state(&log.session) {
        SessionState::Next(step) => {
            return GateStep::Session { probe: at, chip: known.chip.clone(), step };
        },
        SessionState::Failed(fault) => {
            return GateStep::Done(
                Err(
                    ValidateError::Session {
                        role: known.role.clone(),
                        chip: known.chip.clone(),
                        fault,
                    },
                ),
            );
        },
        SessionState::Identified(live) => live,
    };
    if !text::same(live.as_str(), recorded.as_str()) {
        let mut reason = "probe '".to_string();
        reason.append(serial.as_str());
        reason.append("' is enrolled as role '");
        reason.append(known.role.as_str());
        reason.append("' (chip '");
        reason.append(known.chip.as_str());
        reason.append("') with hardware ID '");
        reason.append(recorded.as_str());
        reason.append("', but the attached chip now reports '");
        reason.append(live.as_str());
        reason.append("' — re-enroll if this is deliberate");
        return raise(&known, Some(live), reason, log);
    }
    match log.clock {
        None => GateStep::ReadClock,
        Some(c) => {
            let now: u64 = enrollment::now_utc_ms(c.since_epoch_ms);
            GateStep::Done(Ok(Validation { board: known, validated_at_utc_ms: now }))
        },
    }
}

/// A row that has an identity to hold a board to.
pub open spec fn has_identity(b: BoardModel) -> bool {
    b.probe_serial is Some && b.hardware_id is Some
}

/// What [`validate_serial_timed`] returns.
pub open spec fn serial_gate(
    store: StoreModel,
    serial: Seq<char>,
    log: GateLog,
) -> GateStepModel<ValidationModel> {
    match lists::first(store.boards, enrollment::serves(serial)) {
        Some(b) if has_identity(b) => gate(b, log),
        _ => GateStepModel::Done(Err(ValidateFailure::SerialNotEnrolled { serial })),
    }
}

/// What [`validate_role_timed`] returns. A role whose board was never read is not
/// enrolled as far as the identity gate goes.
pub open spec fn role_gate(
    store: StoreModel,
    role: Seq<char>,
    log: GateLog,
) -> GateStepModel<ValidationModel> {
    match lists::first(store.boards, enrollment::holds(role)) {
        Some(b) if has_identity(b) => gate(b, log),
        _ => GateStepModel::Done(Err(ValidateFailure::NotEnrolled { role })),
    }
}

/// `step` with the outcome cut down to the board.
pub open spec fn board_only(step: GateStepModel<ValidationModel>) -> GateStepModel<BoardModel> {
    match step {
        GateStepModel::ListProbes => GateStepModel::ListProbes,
        GateStepModel::Session { probe, chip, step } => GateStepModel::Session {
            probe,
            chip,
            step,
        },
        GateStepModel::ReadClock => GateStepModel::ReadClock,
        GateStepModel::Record(a) => GateStepModel::Record(a),
        GateStepModel::Done(Ok(v)) => GateStepModel::Done(Ok(v.board)),
        GateStepModel::Done(Err(e)) => GateStepModel::Done(Err(e)),
    }
}

fn without_time(step: GateStep<Validation>) -> (r: GateStep<EnrolledBoard>)
    ensures
        r.deep_view() == board_only(step.deep_view()),
{
    match step {
        GateStep::ListProbes => GateStep::ListProbes,
        GateStep::Session { probe, chip, step } => GateStep::Session { probe, chip, step },
        GateStep::ReadClock => GateStep::ReadClock,
        GateStep::Record(a) => GateStep::Record(a),
        GateStep::Done(Ok(v)) => GateStep::Done(Ok(v.board)),
        GateStep::Done(Err(e)) => GateStep::Done(Err(e)),
    }
}

/// Validates by the probe's own USB serial, and says when.
pub fn validate_serial_timed(store: &Store, serial: &str, log: &GateLog) -> (r: GateStep<
    Validation,
>)
    ensures
        r.deep_view() == serial_gate(store.deep_view(), serial@, *log),
{
    match enrollment::find(store, serial) {
        Some(known) => {
            if known.probe_serial.is_some() && known.hardware_id.is_some() {
                return validate_known_timed(known, log);
            }
        },
        None => {},
    }
    GateStep::Done(Err(ValidateError::SerialNotEnrolled { serial: serial.to_string() }))
}

/// Validates by the probe's own USB serial.
pub fn validate_serial(store: &Store, serial: &str, log: &GateLog) -> (r: GateStep<EnrolledBoard>)
    ensures
        r.deep_view() == board_only(serial_gate(store.deep_view(), serial@, *log)),
{
    without_time(validate_serial_timed(store, serial, log))
}

/// Validates by role, and says when: for a link that is no debug probe itself.
pub fn validate_role_timed(store: &Store, role: &str, log: &GateLog) -> (r: GateStep<Validation>)
    ensures
        r.deep_view() == role_gate(store.deep_view(), role@, *log),
{
    match enrollment::find_by_role(store, role) {
        Some(known) => {
            if known.probe_serial.is_some() && known.hardware_id.is_some() {
                return validate_known_timed(known, log);
            }
        },
        None => {},
    }
    GateStep::Done(Err(ValidateError::NotEnrolled(NotEnrolled { role: role.to_string() })))
}

/// Validates by role.
pub fn validate_role(store: &Store, role: &str, log: &GateLog) -> (r: GateStep<EnrolledBoard>)
    ensures
        r.deep_view() == board_only(role_gate(store.deep_view(), role@, *log)),
{
    without_time(validate_role_timed(store, role, log))
}

// ---- enrolling ------------------------------------------------------------------------------------

/// Why a board could not be enrolled.
#[derive(Debug, PartialEq, Eq)]
pub enum EnrollError {
    Select(SelectProbeError),
    /// The probe reports no USB serial to key the row on.
    NoSerial { identifier: String },
    /// The identity could not be read.
    Session { chip: String, fault: SessionFault },
}

pub ghost enum EnrollFailure {
    Select(PickFailure),
    NoSerial { identifier: Seq<char> },
    Session { chip: Seq<char>, fault: SessionFailure },
}

impl DeepView for EnrollError {
    type V = EnrollFailure;

    open spec fn deep_view(&self) -> EnrollFailure {
        match *self {
            EnrollError::Select(e) => EnrollFailure::Select(e.deep_view()),
            EnrollError::NoSerial { identifier } => EnrollFailure::NoSerial {
                identifier: identifier@,
            },
            EnrollError::Session { chip, fault } => EnrollFailure::Session {
                chip: chip@,
                fault: fault.deep_view(),
            },
        }
    }
}

pub const NO_SERIAL: &'static str =
    ") reports no USB serial number — it can't be enrolled \
     without one to key on";

pub open spec fn enroll_failure_text(e: EnrollFailure) -> Seq<char> {
    match e {
        EnrollFailure::Select(e) => pick_failure_text(e),
        EnrollFailure::NoSerial { identifier } => "the attached probe ("@ + identifier
            + NO_SERIAL@,
        EnrollFailure::Session { chip, fault } => match fault {
            SessionFailure::Open(_) => "failed to open the attached debug probe"@,
            SessionFailure::Unpowered(_) => "can't enroll"@,
            SessionFailure::Attach(_) => "failed to attach to '"@ + chip + "'"@,
            SessionFailure::Core(_) => "failed to select core 0"@,
            SessionFailure::Read(e) => hardware_id::read_error_text(e),
        },
    }
}

impl EnrollError {
    /// What a human is told.
    pub fn message(&self) -> (r: String)
        ensures
            r@ == enroll_failure_text(self.deep_view()),
    {
        match self {
            EnrollError::Select(e) => e.message(),
            EnrollError::NoSerial { identifier } => {
                let mut r = "the attached probe (".to_string();
                r.append(identifier.as_str());
                r.append(NO_SERIAL);
                r
            },
            EnrollError::Session { chip, fault } => match fault {
                SessionFault::Open(_) => "failed to open the attached debug probe".to_string(),
                SessionFault::Unpowered(_) => "can't enroll".to_string(),
                SessionFault::Attach(_) => {
                    let mut r = "failed to attach to '".to_string();
                    r.append(chip.as_str());
                    r.append("'");
                    r
                },
                SessionFault::Core(_) => "failed to select core 0".to_string(),
                SessionFault::Read(e) => e.message(),
            },
        }
    }
}

/// The answers that an enrollment has had so far; `None` for what was not asked.
#[derive(Debug, PartialEq, Eq)]
pub struct EnrollLog {
    pub probes: Option<Vec<AttachedProbe>>,
    pub session: SessionLog,
    pub store: Option<Store>,
    pub clock: Option<Clock>,
}

impl EnrollLog {
    /// An enrollment in which nothing was asked.
    pub fn new() -> (r: EnrollLog)
        ensures
            r.probes is None,
            session(r.session) == SessionStateModel::Next(SessionStep::Open),
            r.store is None,
            r.clock is None,
    {
        EnrollLog { probes: None, session: SessionLog::new(), store: None, clock: None }
    }
}

/// A board enrolled: the store to save, its row, and the row that lost the role to
/// it.
#[derive(Debug, PartialEq, Eq)]
pub struct Enrollment {
    pub store: Store,
    pub board: EnrolledBoard,
    pub displaced: Option<EnrolledBoard>,
}

#[verifier::ext_equal]
pub ghost struct EnrollmentModel {
    pub store: StoreModel,
    pub board: BoardModel,
    pub displaced: Option<BoardModel>,
}

impl DeepView for Enrollment {
    type V = EnrollmentModel;

    open spec fn deep_view(&self) -> EnrollmentModel {
        EnrollmentModel {
            store: self.store.deep_view(),
            board: self.board.deep_view(),
            displaced: self.displaced.deep_view(),
        }
    }
}

/// What an enrollment does next.
#[derive(Debug, PartialEq, Eq)]
pub enum EnrollStep {
    /// List the attached probes.
    ListProbes,
    /// Take `step` with the attached probe at position `probe`, whose target is
    /// `chip`.
    Session { probe: usize, chip: String, step: SessionStep },
    /// Load the enrollment table.
    LoadStore,
    ReadClock,
    /// Save the store; the board is then enrolled.
    Save(Enrollment),
    Refused(EnrollError),
}

pub ghost enum EnrollStepModel {
    ListProbes,
    Session { probe: nat, chip: Seq<char>, step: SessionStep },
    LoadStore,
    ReadClock,
    Save(EnrollmentModel),
    Refused(EnrollFailure),
}

impl DeepView for EnrollStep {
    type V = EnrollStepModel;

    open spec fn deep_view(&self) -> EnrollStepModel {
        match *self {
            EnrollStep::ListProbes => EnrollStepModel::ListProbes,
            EnrollStep::Session { probe, chip, step } => EnrollStepModel::Session {
                probe: probe as nat,
                chip: chip@,
                step,
            },
            EnrollStep::LoadStore => EnrollStepModel::LoadStore,
            EnrollStep::ReadClock => EnrollStepModel::ReadClock,
            EnrollStep::Save(e) => EnrollStepModel::Save(e.deep_view()),
            EnrollStep::Refused(e) => EnrollStepModel::Refused(e.deep_view()),
        }
    }
}

/// The row for a board whose identity was just read. Its link facts are those of the
/// row that its probe had: they describe the physical link of that board, and a role
/// that moves to other silicon must not bring them along. The declared board type of
/// the role stays.
pub open spec fn fresh_row(
    store: StoreModel,
    role: Seq<char>,
    chip: Seq<char>,
    serial: Seq<char>,
    hardware_id: Seq<char>,
    now: u64,
) -> BoardModel {
    let prior = lists::first(store.boards, enrollment::serves(serial));
    BoardModel {
        probe_serial: Some(serial),
        role,
        name: match lists::first(store.boards, enrollment::holds(role)) {
            Some(b) => b.name,
            None => Seq::empty(),
        },
        chip,
        hardware_id: Some(hardware_id),
        confirmed_at_utc_ms: Some(now),
        link_port_serial: match prior {
            Some(b) => b.link_port_serial,
            None => None,
        },
        link_port_interface: match prior {
            Some(b) => b.link_port_interface,
            None => None,
        },
    }
}

/// What is saved for a board whose identity was just read.
pub open spec fn enrollment_of(
    store: StoreModel,
    role: Seq<char>,
    chip: Seq<char>,
    serial: Seq<char>,
    hardware_id: Seq<char>,
    now: u64,
) -> EnrollmentModel {
    let board = fresh_row(store, role, chip, serial, hardware_id, now);
    EnrollmentModel {
        store: enrollment::upserted(store, board),
        board,
        displaced: lists::first(store.boards, enrollment::rivals(board)),
    }
}

/// What [`enroll`] returns.
pub open spec fn enrolling(
    role: Seq<char>,
    chip: Seq<char>,
    wanted: Option<Seq<char>>,
    log: EnrollLog,
) -> EnrollStepModel {
    match log.probes {
        None => EnrollStepModel::ListProbes,
        Some(probes) => match picked(probes.deep_view(), wanted, "enroll"@) {
            Err(e) => EnrollStepModel::Refused(EnrollFailure::Select(e)),
            Ok(at) => {
                let probe = probes.deep_view()[at as int];
                match (probe.serial_number, session(log.session)) {
                    (None, _) => EnrollStepModel::Refused(
                        EnrollFailure::NoSerial { identifier: probe.identifier },
                    ),
                    (Some(_), SessionStateModel::Next(step)) => EnrollStepModel::Session {
                        probe: at,
                        chip,
                        step,
                    },
                    (Some(_), SessionStateModel::Failed(fault)) => EnrollStepModel::Refused(
                        EnrollFailure::Session { chip, fault },
                    ),
                    (Some(serial), SessionStateModel::Identified(id)) => match (
                        log.store,
                        log.clock,
                    ) {
                        (None, _) => EnrollStepModel::LoadStore,
                        (Some(_), None) => EnrollStepModel::ReadClock,
                        (Some(store), Some(c)) => EnrollStepModel::Save(
                            enrollment_of(
                                store.deep_view(),
                                role,
                                chip,
                                serial,
                                id,
                                enrollment::utc_ms(c.since_epoch_ms),
                            ),
                        ),
                    },
                }
            },
        },
    }
}

/// Puts the row of a board whose identity was just read into the table.
pub fn enroll_identified(
    store: &Store,
    role: &str,
    chip: &str,
    serial: &str,
    hardware_id: &str,
    now: u64,
) -> (r: Enrollment)
    ensures
        r.deep_view() == enrollment_of(
            store.deep_view(),
            role@,
            chip@,
            serial@,
            hardware_id@,
            now,
        ),
{
    let (link_port_serial, link_port_interface) = match enrollment::find(store, serial) {
        Some(b) => (b.link_port_serial, b.link_port_interface),
        None => (None, None),
    };
    let name = match enrollment::find_by_role(store, role) {
        Some(b) => b.name,
        None => String::new(),
    };
    let board = EnrolledBoard {
        probe_serial: Some(serial.to_string()),
        role: role.to_string(),
        name,
        chip: chip.to_string(),
        hardware_id: Some(hardware_id.to_string()),
        confirmed_at_utc_ms: Some(now),
        link_port_serial,
        link_port_interface,
    };
    let mut store = store.clone();
    assert(board.deep_view().name =~= fresh_row(
        store.deep_view(),
        role@,
        chip@,
        serial@,
        hardware_id@,
        now,
    ).name);
    let displaced = enrollment::upsert(&mut store, board.clone());
    Enrollment { store, board, displaced }
}

/// Says what enrolling a board as `role`, with chip `chip`, does next: pick a probe,
/// read the live identity of what it is wired to, and record the two together.
pub fn enroll(role: &str, chip: &str, probe_serial: Option<&str>, log: &EnrollLog) -> (r:
    EnrollStep)
    ensures
        r.deep_view() == enrolling(role@, chip@, text::opt_text(probe_serial), *log),
{
    let probes = match &log.probes {
        None => {
            return EnrollStep::ListProbes;
        },
        Some(probes) => probes,
    };
    let at: usize = match select_probe_index(probes, probe_serial, "enroll") {
        Ok(at) => at,
        Err(e) => {
            return EnrollStep::Refused(EnrollError::Select(e));
        },
    };
    assert(probes.deep_view()[at as int] == probes@[at as int].deep_view());
    let serial = match &probes[at].serial_number {
        Some(serial) => serial,
        None => {
            return EnrollStep::Refused(
                EnrollError::NoSerial { identifier: probes[at].identifier.clone() },
            );
        },
    };
    let id = match session_state(&log.session) {
        SessionState::Next(step) => {
            return EnrollStep::Session { probe: at, chip: chip.to_string(), step };
        },
        SessionState::Failed(fault) => {
            return EnrollStep::Refused(
                EnrollError::Session { chip: chip.to_string(), fault },
            );
        },
        SessionState::Identified(id) => id,
    };
    let store = match &log.store {
        None => {
            return EnrollStep::LoadStore;
        },
        Some(store) => store,
    };
    match log.clock {
        None => EnrollStep::ReadClock,
        Some(c) => {
            let now: u64 = enrollment::now_utc_ms(c.since_epoch_ms);
            EnrollStep::Save(
                enroll_identified(store, role, chip, serial.as_str(), id.as_str(), now),
            )
        },
    }
}

// ---- what the identity gate promises --------------------------------------------------------------------------

/// A probe is picked exactly if one is attached that is meant: the first with the
/// wanted serial, or the only one where no serial was given. Zero probes are
/// diagnosed as that, whether or not a serial was given.
pub proof fn law_picked_probe_is_the_one_meant(
    probes: Seq<ProbeModel>,
    wanted: Option<Seq<char>>,
    action: Seq<char>,
)
    ensures
        picked(probes, wanted, action) matches Ok(i) ==> i < probes.len() && (match wanted {
            Some(serial) => probes[i as int].serial_number == Some(serial) && forall|j: int|
                0 <= j < i ==> (#[trigger] probes[j]).serial_number != Some(serial),
            None => probes.len() == 1 && i == 0,
        }),
        picked(probes, wanted, action) is Ok <==> (match wanted {
            Some(serial) => exists|i: int|
                0 <= i < probes.len() && (#[trigger] probes[i]).serial_number == Some(serial),
            None => probes.len() == 1,
        }),
        picked(probes, wanted, action) == Err::<nat, PickFailure>(
            PickFailure::NoProbe { wanted },
        ) <==> probes.len() == 0,
{
    if let Some(serial) = wanted {
        let p = reports(serial);
        lists::lemma_position(probes, p);
        let at = lists::position(probes, p) as int;
        assert forall|j: int| 0 <= j < at implies (#[trigger] probes[j]).serial_number != Some(
            serial,
        ) by {
            assert(!p(probes[j]));
        }
        if at < probes.len() {
            assert(p(probes[at]));
            assert(probes[at].serial_number == Some(serial));
        }
    }
}

/// The identity gate lets a board pass exactly if its role is enrolled with an identity, its
/// probe is attached, every step of the session succeeded, and the identity that was
/// read is the recorded one. What passes is the row itself, with the time of the
/// check.
pub proof fn law_gate_passes_only_the_recorded_identity(
    store: StoreModel,
    role: Seq<char>,
    log: GateLog,
)
    ensures
        role_gate(store, role, log) matches GateStepModel::Done(Ok(v)) ==> {
            &&& lists::first(store.boards, enrollment::holds(role)) == Some(v.board)
            &&& has_identity(v.board)
            &&& log.probes matches Some(probes) && exists|i: int|
                0 <= i < probes.deep_view().len() && (
                #[trigger] probes.deep_view()[i]).serial_number == v.board.probe_serial
            &&& session(log.session) == SessionStateModel::Identified(v.board.hardware_id->0)
            &&& log.clock matches Some(c) && v.validated_at_utc_ms == enrollment::utc_ms(
                c.since_epoch_ms,
            )
        },
        lists::first(store.boards, enrollment::holds(role)) matches Some(b) && has_identity(b)
            && log.probes is Some && log.clock is Some && (exists|i: int|
            0 <= i < log.probes->0.deep_view().len() && (
            #[trigger] log.probes->0.deep_view()[i]).serial_number == b.probe_serial)
            && session(log.session) == SessionStateModel::Identified(b.hardware_id->0)
            ==> role_gate(store, role, log) is Done && role_gate(store, role, log)->Done_0 is Ok,
{
    if let Some(b) = lists::first(store.boards, enrollment::holds(role)) {
        if has_identity(b) && log.probes is Some {
            let probes = log.probes->0.deep_view();
            let p = reports(b.probe_serial->0);
            lists::lemma_position(probes, p);
            let at = lists::position(probes, p) as int;
            if at < probes.len() {
                assert(p(probes[at]));
                assert(probes[at].serial_number == b.probe_serial);
            } else {
                assert forall|i: int| 0 <= i < probes.len() implies (
                #[trigger] probes[i]).serial_number != b.probe_serial by {
                    assert(!p(probes[i]));
                }
            }
        }
    }
}

/// A mismatch is only ever returned after an alert that says the same was handed over
/// to be recorded, and it is returned however the recording went.
pub proof fn law_mismatch_is_recorded_first(
    known: BoardModel,
    log: GateLog,
    m: MismatchModel,
)
    requires
        gate(known, log) == GateStepModel::<ValidationModel>::Done(
            Err(ValidateFailure::Mismatch(m)),
        ),
    ensures
        log.recorded is Some,
        gate(known, GateLog { recorded: None, ..log }) matches GateStepModel::Record(a)
            && a.role == m.role && a.probe_serial == m.probe_serial && a.chip == m.chip
            && a.recorded_hardware_id == m.recorded_hardware_id && a.live_hardware_id
            == m.live_hardware_id && a.reason == m.reason,
        forall|outcome: Result<(), String>|
            gate(known, (#[trigger] with_recorded(log, outcome))) == gate(known, log),
{
}

/// `log` with the alert recorded, and how that went.
pub open spec fn with_recorded(log: GateLog, outcome: Result<(), String>) -> GateLog {
    GateLog { recorded: Some(outcome), ..log }
}

/// The identity gate never asks for what it has been told, so a live check ends: at most one
/// listing, five session steps, one clock reading and one record.
pub proof fn law_gate_asks_for_what_is_missing(known: BoardModel, log: GateLog)
    ensures
        match gate(known, log) {
            GateStepModel::ListProbes => log.probes is None,
            GateStepModel::Session { step, .. } => missing(log.session, step),
            GateStepModel::ReadClock => log.clock is None,
            GateStepModel::Record(_) => log.recorded is None,
            GateStepModel::Done(_) => true,
        },
{
}

/// The step was not taken in the session.
pub open spec fn missing(log: SessionLog, step: SessionStep) -> bool {
    match step {
        SessionStep::Open => log.opened is None,
        SessionStep::CheckPower => log.powered is None,
        SessionStep::Attach => log.attached is None,
        SessionStep::SelectCore => log.core is None,
        SessionStep::ReadIdentity => log.identity is None,
    }
}

/// An enrollment never asks for what it has been told either.
pub proof fn law_enrolling_asks_for_what_is_missing(
    role: Seq<char>,
    chip: Seq<char>,
    wanted: Option<Seq<char>>,
    log: EnrollLog,
)
    ensures
        match enrolling(role, chip, wanted, log) {
            EnrollStepModel::ListProbes => log.probes is None,
            EnrollStepModel::Session { step, .. } => missing(log.session, step),
            EnrollStepModel::LoadStore => log.store is None,
            EnrollStepModel::ReadClock => log.clock is None,
            EnrollStepModel::Save(_) => true,
            EnrollStepModel::Refused(_) => true,
        },
{
}

/// Link facts go with the probe: enrolling a probe again keeps them, under whatever
/// role, and a role that moves to a probe that had no row starts without any.
pub proof fn law_link_facts_follow_the_probe(
    store: StoreModel,
    role: Seq<char>,
    chip: Seq<char>,
    serial: Seq<char>,
    hardware_id: Seq<char>,
    now: u64,
)
    ensures
        ({
            let row = enrollment_of(store, role, chip, serial, hardware_id, now).board;
            match lists::first(store.boards, enrollment::serves(serial)) {
                Some(prior) => row.link_port_serial == prior.link_port_serial
                    && row.link_port_interface == prior.link_port_interface,
                None => row.link_port_serial is None && row.link_port_interface is None,
            }
        }),
{
}

/// What was enrolled is found by its role and by its probe, the table stays well
/// formed, and the identity gate then passes that silicon: a session that ends in the identity
/// that was enrolled validates, and one that ends in any other is a mismatch.
pub proof fn law_enrolled_board_validates(
    store: StoreModel,
    role: Seq<char>,
    chip: Seq<char>,
    serial: Seq<char>,
    hardware_id: Seq<char>,
    now: u64,
    log: GateLog,
    live: Seq<char>,
    at: int,
)
    requires
        log.probes is Some,
        0 <= at < log.probes->0.deep_view().len(),
        log.probes->0.deep_view()[at].serial_number == Some(serial),
        session(log.session) == SessionStateModel::Identified(live),
        log.clock is Some,
        log.recorded is Some,
    ensures
        ({
            let after = enrollment_of(store, role, chip, serial, hardware_id, now);
            &&& lists::first(after.store.boards, enrollment::holds(role)) == Some(after.board)
            &&& lists::first(after.store.boards, enrollment::serves(serial)) == Some(after.board)
            &&& enrollment::well_formed(store.boards) ==> enrollment::well_formed(
                after.store.boards,
            )
            &&& after.store.signals == store.signals
            &&& live == hardware_id ==> (role_gate(after.store, role, log)
                matches GateStepModel::Done(Ok(v)) && v.board == after.board)
            &&& live != hardware_id ==> (role_gate(after.store, role, log)
                matches GateStepModel::Done(Err(ValidateFailure::Mismatch(_))))
            &&& serial_gate(after.store, serial, log) == role_gate(after.store, role, log)
        }),
{
    let after = enrollment_of(store, role, chip, serial, hardware_id, now);
    enrollment::law_enrolled_board_is_found(store, after.board);
    if enrollment::well_formed(store.boards) {
        enrollment::law_operations_keep_the_table_well_formed(
            store,
            after.board,
            role,
            role,
            chip,
            enrollment::LinkEditModel::Serial(None),
        );
    }
    let probes = log.probes->0.deep_view();
    lists::lemma_position(probes, reports(serial));
    assert(reports(serial)(probes[at]));
}

// ---- what each answer means, in terms of what was seen ----------------------------------------------

/// The step was taken and went well.
pub open spec fn succeeded(o: Option<Result<(), String>>) -> bool {
    o matches Some(Ok(_))
}

/// The step was taken and failed with this cause.
pub open spec fn failed_with(o: Option<Result<(), String>>, cause: Seq<char>) -> bool {
    o matches Some(Err(e)) && e@ == cause
}

/// A session stands at the first of its five steps that has not succeeded: it is to
/// be taken, or it failed and its cause is kept; once all have succeeded the session
/// has the identity that was read.
pub proof fn law_session_follows_its_five_steps(log: SessionLog)
    ensures
        ({
            let opened = succeeded(log.opened);
            let powered = opened && succeeded(log.powered);
            let attached = powered && succeeded(log.attached);
            let ready = attached && succeeded(log.core);
            match session(log) {
                SessionStateModel::Next(SessionStep::Open) => log.opened is None,
                SessionStateModel::Next(SessionStep::CheckPower) => opened && log.powered is None,
                SessionStateModel::Next(SessionStep::Attach) => powered && log.attached is None,
                SessionStateModel::Next(SessionStep::SelectCore) => attached && log.core is None,
                SessionStateModel::Next(SessionStep::ReadIdentity) => ready
                    && log.identity is None,
                SessionStateModel::Failed(SessionFailure::Open(c)) => failed_with(log.opened, c),
                SessionStateModel::Failed(SessionFailure::Unpowered(c)) => opened && failed_with(
                    log.powered,
                    c,
                ),
                SessionStateModel::Failed(SessionFailure::Attach(c)) => powered && failed_with(
                    log.attached,
                    c,
                ),
                SessionStateModel::Failed(SessionFailure::Core(c)) => attached && failed_with(
                    log.core,
                    c,
                ),
                SessionStateModel::Failed(SessionFailure::Read(f)) => ready && (log.identity
                    matches Some(Err(e)) && e.deep_view() == f),
                SessionStateModel::Identified(id) => ready && (log.identity matches Some(Ok(read))
                    && read@ == id),
            }
        }),
{
}

/// `at` is the first of the attached probes that reports `serial`.
pub open spec fn first_reporting(
    probes: Seq<ProbeModel>,
    serial: Option<Seq<char>>,
    at: int,
) -> bool {
    &&& 0 <= at < probes.len()
    &&& probes[at].serial_number == serial
    &&& forall|j: int| 0 <= j < at ==> (#[trigger] probes[j]).serial_number != serial
}

/// None of the attached probes reports `serial`.
pub open spec fn none_reports(probes: Seq<ProbeModel>, serial: Option<Seq<char>>) -> bool {
    forall|j: int| 0 <= j < probes.len() ==> (#[trigger] probes[j]).serial_number != serial
}

/// What a step of the live check of `b` says of the bench. Every session step is taken
/// with the probe that `b` was enrolled with and with its chip; a mismatch, and the
/// alert for it, carries the record of `b` and comes only from an absent probe or from
/// another identity than the recorded one; the board passes only with the recorded one.
pub open spec fn tells(
    step: GateStepModel<ValidationModel>,
    b: BoardModel,
    log: GateLog,
) -> bool {
    let serial = b.probe_serial->0;
    let recorded = b.hardware_id->0;
    let probes = log.probes->0.deep_view();
    let at = session(log.session);
    let absent = "probe '"@ + serial + "' enrolled as role '"@ + b.role
        + "' is not currently attached"@;
    let another = "probe '"@ + serial + "' is enrolled as role '"@ + b.role + "' (chip '"@ + b.chip
        + "') with hardware ID '"@ + recorded + "', but the attached chip now reports '"@;
    &&& b.probe_serial is Some && b.hardware_id is Some
    &&& step is ListProbes <==> log.probes is None
    &&& match step {
        GateStepModel::ListProbes => true,
        GateStepModel::Session { probe, chip, step: s } => first_reporting(
            probes,
            Some(serial),
            probe as int,
        ) && chip == b.chip && at == SessionStateModel::Next(s),
        GateStepModel::ReadClock => log.clock is None && (none_reports(probes, Some(serial))
            || at is Identified),
        GateStepModel::Record(a) => log.clock is Some && log.recorded is None && a.role == b.role
            && a.chip == b.chip && a.probe_serial == serial && a.recorded_hardware_id == recorded
            && a.occurred_at_utc_ms == enrollment::utc_ms(log.clock->0.since_epoch_ms) && a.id
            == text::hex(a.occurred_at_utc_ms as nat) + "-"@ + text::decimal(
            log.clock->0.pid as nat,
        ) && (match a.live_hardware_id {
            None => none_reports(probes, Some(serial)) && a.reason == absent,
            Some(live) => !none_reports(probes, Some(serial)) && at
                == SessionStateModel::Identified(live) && live != recorded && a.reason == another
                + live + "' — re-enroll if this is deliberate"@,
        }),
        GateStepModel::Done(Ok(v)) => v.board == b && log.clock is Some && v.validated_at_utc_ms
            == enrollment::utc_ms(log.clock->0.since_epoch_ms) && !none_reports(
            probes,
            Some(serial),
        ) && at == SessionStateModel::Identified(recorded),
        GateStepModel::Done(Err(ValidateFailure::Mismatch(m))) => log.clock is Some
            && log.recorded is Some && m.role == b.role && m.chip == b.chip && m.probe_serial
            == serial && m.recorded_hardware_id == recorded && m.fix_it_url
            == alert::fix_it_text() && (match m.live_hardware_id {
            None => none_reports(probes, Some(serial)) && m.reason == absent,
            Some(live) => !none_reports(probes, Some(serial)) && at
                == SessionStateModel::Identified(live) && live != recorded && m.reason == another
                + live + "' — re-enroll if this is deliberate"@,
        }),
        GateStepModel::Done(Err(ValidateFailure::Session { role, chip, fault })) => role == b.role
            && chip == b.chip && !none_reports(probes, Some(serial)) && at
            == SessionStateModel::Failed(fault),
        GateStepModel::Done(Err(_)) => false,
    }
}

proof fn lemma_gate_tells(b: BoardModel, log: GateLog)
    requires
        b.probe_serial is Some,
        b.hardware_id is Some,
    ensures
        tells(gate(b, log), b, log),
{
    let serial = b.probe_serial->0;
    if log.probes is Some {
        let probes = log.probes->0.deep_view();
        let p = reports(serial);
        lists::lemma_position(probes, p);
        let at = lists::position(probes, p) as int;
        assert forall|j: int| 0 <= j < at implies (#[trigger] probes[j]).serial_number != Some(
            serial,
        ) by {
            assert(!p(probes[j]));
        }
        if at < probes.len() {
            assert(p(probes[at]));
            assert(first_reporting(probes, Some(serial), at));
            assert(!none_reports(probes, Some(serial)));
        } else {
            assert(none_reports(probes, Some(serial)));
        }
    }
}

/// The live check by role is about the first row that holds the role. If that row has
/// an identity on record, every answer is about that board: see [`tells`]. If it has
/// none, or no row holds the role, the role is not enrolled.
pub proof fn law_check_by_role_is_about_that_roles_board(
    store: StoreModel,
    role: Seq<char>,
    k: int,
    log: GateLog,
)
    requires
        0 <= k <= store.boards.len(),
        forall|j: int| 0 <= j < k ==> (#[trigger] store.boards[j]).role != role,
        k < store.boards.len() ==> store.boards[k].role == role,
    ensures
        k < store.boards.len() && store.boards[k].probe_serial is Some
            && store.boards[k].hardware_id is Some ==> tells(
            role_gate(store, role, log),
            store.boards[k],
            log,
        ),
        !(k < store.boards.len() && store.boards[k].probe_serial is Some
            && store.boards[k].hardware_id is Some) ==> role_gate(store, role, log)
            == GateStepModel::<ValidationModel>::Done(Err(ValidateFailure::NotEnrolled { role })),
{
    let p = enrollment::holds(role);
    assert forall|j: int| 0 <= j < k implies !p(#[trigger] store.boards[j]) by {}
    lists::lemma_position_is(store.boards, p, k);
    if k < store.boards.len() && store.boards[k].probe_serial is Some
        && store.boards[k].hardware_id is Some {
        lemma_gate_tells(store.boards[k], log);
    }
}

/// The live check by serial is about the first row with that probe, in the same way.
pub proof fn law_check_by_serial_is_about_that_probes_board(
    store: StoreModel,
    serial: Seq<char>,
    k: int,
    log: GateLog,
)
    requires
        0 <= k <= store.boards.len(),
        forall|j: int|
            0 <= j < k ==> (#[trigger] store.boards[j]).probe_serial != Some(serial),
        k < store.boards.len() ==> store.boards[k].probe_serial == Some(serial),
    ensures
        k < store.boards.len() && store.boards[k].hardware_id is Some ==> tells(
            serial_gate(store, serial, log),
            store.boards[k],
            log,
        ),
        !(k < store.boards.len() && store.boards[k].hardware_id is Some) ==> serial_gate(
            store,
            serial,
            log,
        ) == GateStepModel::<ValidationModel>::Done(
            Err(ValidateFailure::SerialNotEnrolled { serial }),
        ),
{
    let p = enrollment::serves(serial);
    assert forall|j: int| 0 <= j < k implies !p(#[trigger] store.boards[j]) by {}
    lists::lemma_position_is(store.boards, p, k);
    if k < store.boards.len() && store.boards[k].hardware_id is Some {
        lemma_gate_tells(store.boards[k], log);
    }
}

/// Whenever the live check of a row asks for a session step, the probe that it names is
/// attached and reports exactly the serial of the row, and the chip is the row's.
pub proof fn law_session_is_with_the_enrolled_probe(
    known: BoardModel,
    log: GateLog,
    probe: nat,
    chip: Seq<char>,
    step: SessionStep,
)
    requires
        known.probe_serial is Some,
        known.hardware_id is Some,
        gate(known, log) == (GateStepModel::<ValidationModel>::Session { probe, chip, step }),
    ensures
        log.probes matches Some(probes) && probe < probes.deep_view().len()
            && probes.deep_view()[probe as int].serial_number == known.probe_serial,
        chip == known.chip,
        missing(log.session, step),
{
    lemma_gate_tells(known, log);
}

/// Asking for the board alone asks for the same steps, refuses for the same reasons and
/// passes the same board.
pub proof fn law_board_only_drops_the_time(step: GateStepModel<ValidationModel>)
    ensures
        step matches GateStepModel::Done(Ok(v)) ==> board_only(step) == GateStepModel::<
            BoardModel,
        >::Done(Ok(v.board)),
        step matches GateStepModel::Done(Err(e)) ==> board_only(step) == GateStepModel::<
            BoardModel,
        >::Done(Err(e)),
        step matches GateStepModel::Record(a) ==> board_only(step) == GateStepModel::<
            BoardModel,
        >::Record(a),
        step matches GateStepModel::Session { probe, chip, step: s } ==> board_only(step) == (
        GateStepModel::<BoardModel>::Session { probe, chip, step: s }),
        step is ListProbes ==> board_only(step) is ListProbes,
        step is ReadClock ==> board_only(step) is ReadClock,
{
}

/// A refusal to pick says which of the three things was wrong, and carries what it is
/// about.
pub proof fn law_pick_refusals_are_told_apart(
    probes: Seq<ProbeModel>,
    wanted: Option<Seq<char>>,
    action: Seq<char>,
)
    ensures
        match picked(probes, wanted, action) {
            Ok(i) => probes.len() > 0,
            Err(PickFailure::NoProbe { wanted: w }) => probes.len() == 0 && w == wanted,
            Err(PickFailure::NoMatch { wanted: w }) => probes.len() > 0 && wanted == Some(w)
                && none_reports(probes, Some(w)),
            Err(PickFailure::Several { action: a, probes: ps }) => probes.len() > 1
                && wanted is None && a == action && ps == probes,
        },
{
    if let Some(serial) = wanted {
        let p = reports(serial);
        lists::lemma_position(probes, p);
        if lists::position(probes, p) >= probes.len() {
            assert forall|j: int| 0 <= j < probes.len() implies (
            #[trigger] probes[j]).serial_number != Some(serial) by {
                assert(!p(probes[j]));
            }
        }
    }
}

/// Every step of an enrollment is about the probe that was meant: the one with the wanted
/// serial, or the only one. The session is taken with that probe and with the chip that
/// was given, and the row that is saved carries that probe's serial, the identity that
/// the session read, and the time of the clock.
pub proof fn law_enrolling_is_about_the_probe_that_was_meant(
    role: Seq<char>,
    chip: Seq<char>,
    wanted: Option<Seq<char>>,
    log: EnrollLog,
    i: int,
)
    requires
        log.probes is Some,
        0 <= i < log.probes->0.deep_view().len(),
        wanted is Some ==> first_reporting(log.probes->0.deep_view(), wanted, i),
        wanted is None ==> log.probes->0.deep_view().len() == 1,
    ensures
        ({
            let probe = log.probes->0.deep_view()[i];
            match enrolling(role, chip, wanted, log) {
                EnrollStepModel::ListProbes => false,
                EnrollStepModel::Refused(EnrollFailure::NoSerial { identifier }) =>
                    probe.serial_number is None && identifier == probe.identifier,
                EnrollStepModel::Refused(EnrollFailure::Session { chip: c, fault }) =>
                    probe.serial_number is Some && c == chip && session(log.session)
                        == SessionStateModel::Failed(fault),
                EnrollStepModel::Refused(EnrollFailure::Select(_)) => false,
                EnrollStepModel::Session { probe: at, chip: c, step } =>
                    probe.serial_number is Some && at == i && c == chip && session(log.session)
                        == SessionStateModel::Next(step),
                EnrollStepModel::LoadStore => probe.serial_number is Some && session(
                    log.session,
                ) is Identified && log.store is None,
                EnrollStepModel::ReadClock => probe.serial_number is Some && session(
                    log.session,
                ) is Identified && log.store is Some && log.clock is None,
                EnrollStepModel::Save(e) => probe.serial_number is Some && session(log.session)
                    == SessionStateModel::Identified(e.board.hardware_id->0) && log.store is Some
                    && log.clock is Some && e.board.probe_serial == probe.serial_number
                    && e.board.hardware_id is Some && e.board.role == role && e.board.chip == chip
                    && e.board.confirmed_at_utc_ms == Some(
                    enrollment::utc_ms(log.clock->0.since_epoch_ms),
                ) && e == enrollment_of(
                    log.store->0.deep_view(),
                    role,
                    chip,
                    probe.serial_number->0,
                    e.board.hardware_id->0,
                    e.board.confirmed_at_utc_ms->0,
                ),
            }
        }),
{
    let probes = log.probes->0.deep_view();
    if let Some(serial) = wanted {
        let p = reports(serial);
        assert forall|j: int| 0 <= j < i implies !p(#[trigger] probes[j]) by {}
        assert(p(probes[i]));
        lists::lemma_position_is(probes, p, i);
    }
}

/// Where no probe is meant, an enrollment asks to list the probes or is refused, and no
/// probe is opened.
pub proof fn law_enrolling_opens_nothing_that_was_not_meant(
    role: Seq<char>,
    chip: Seq<char>,
    wanted: Option<Seq<char>>,
    log: EnrollLog,
)
    requires
        log.probes matches Some(probes) ==> match wanted {
            Some(serial) => none_reports(probes.deep_view(), Some(serial)),
            None => probes.deep_view().len() != 1,
        },
    ensures
        log.probes is None ==> enrolling(role, chip, wanted, log) is ListProbes,
        log.probes matches Some(probes) ==> (enrolling(role, chip, wanted, log)
            matches EnrollStepModel::Refused(EnrollFailure::Select(e)) && picked(
            probes.deep_view(),
            wanted,
            "enroll"@,
        ) == Err::<nat, PickFailure>(e)),
{
    if log.probes is Some && wanted is Some {
        let probes = log.probes->0.deep_view();
        let p = reports(wanted->0);
        assert forall|j: int| 0 <= j < probes.len() implies !p(#[trigger] probes[j]) by {}
        lists::lemma_position_is(probes, p, probes.len() as int);
    }
}

/// The row that enrolling writes: what was read and what was given; the link facts of the
/// first row that had the probe, and none where no row had it; the board type of the
/// first row that held the role, and none where no row held it. The row takes its place
/// in the table as an enrolled board does, and what it displaces is reported.
pub proof fn law_saved_row_is_what_was_read(
    store: StoreModel,
    role: Seq<char>,
    chip: Seq<char>,
    serial: Seq<char>,
    hardware_id: Seq<char>,
    now: u64,
    k: int,
    m: int,
)
    requires
        0 <= k <= store.boards.len(),
        forall|j: int| 0 <= j < k ==> (#[trigger] store.boards[j]).probe_serial != Some(serial),
        k < store.boards.len() ==> store.boards[k].probe_serial == Some(serial),
        0 <= m <= store.boards.len(),
        forall|j: int| 0 <= j < m ==> (#[trigger] store.boards[j]).role != role,
        m < store.boards.len() ==> store.boards[m].role == role,
    ensures
        ({
            let e = enrollment_of(store, role, chip, serial, hardware_id, now);
            let row = e.board;
            &&& row.probe_serial == Some(serial) && row.role == role && row.chip == chip
            &&& row.hardware_id == Some(hardware_id) && row.confirmed_at_utc_ms == Some(now)
            &&& row.name == (if m < store.boards.len() {
                store.boards[m].name
            } else {
                Seq::empty()
            })
            &&& row.link_port_serial == (if k < store.boards.len() {
                store.boards[k].link_port_serial
            } else {
                None
            })
            &&& row.link_port_interface == (if k < store.boards.len() {
                store.boards[k].link_port_interface
            } else {
                None
            })
            &&& e.store == enrollment::upserted(store, row)
            &&& e.displaced == lists::first(store.boards, enrollment::rivals(row))
        }),
{
    let p = enrollment::serves(serial);
    assert forall|j: int| 0 <= j < k implies !p(#[trigger] store.boards[j]) by {}
    lists::lemma_position_is(store.boards, p, k);
    let q = enrollment::holds(role);
    assert forall|j: int| 0 <= j < m implies !q(#[trigger] store.boards[j]) by {}
    lists::lemma_position_is(store.boards, q, m);
}

/// A refusal is told by its reason and by where to act on it; one for a role or a probe
/// that is not enrolled names that, and says what to do first.
pub proof fn law_refusals_name_what_was_refused(
    m: MismatchModel,
    role: Seq<char>,
    serial: Seq<char>,
)
    ensures
        validate_failure_text(ValidateFailure::Mismatch(m)) == "topology-mismatch: "@ + m.reason
            + " — fix it at "@ + m.fix_it_url,
        validate_failure_text(ValidateFailure::NotEnrolled { role })
            == "no board enrolled under role '"@ + role + "'"@ + ENROLL_FIRST@,
        validate_failure_text(ValidateFailure::SerialNotEnrolled { serial }) == "probe '"@ + serial
            + "' is not enrolled"@ + ENROLL_FIRST@,
{
}

/// A session that failed is told by the step that failed: in a check by the role or the
/// chip it is about, in an enrollment by the chip. An identity that could not be read is
/// told in the same words in both.
pub proof fn law_failed_steps_are_told_apart(
    role: Seq<char>,
    chip: Seq<char>,
    cause: Seq<char>,
    e: ReadFailure,
)
    ensures
        ({
            let check = |fault: SessionFailure|
                validate_failure_text(ValidateFailure::Session { role, chip, fault });
            let enroll = |fault: SessionFailure|
                enroll_failure_text(EnrollFailure::Session { chip, fault });
            &&& check(SessionFailure::Open(cause))
                == "failed to open the enrolled probe for the board-identity gate"@
            &&& check(SessionFailure::Unpowered(cause)) == "can't validate role '"@ + role + "'"@
            &&& check(SessionFailure::Attach(cause)) == "failed to attach to '"@ + chip
                + "' for the board-identity gate"@
            &&& check(SessionFailure::Core(cause))
                == "failed to select core 0 for the board-identity gate"@
            &&& check(SessionFailure::Read(e)) == hardware_id::read_error_text(e)
            &&& enroll(SessionFailure::Open(cause)) == "failed to open the attached debug probe"@
            &&& enroll(SessionFailure::Unpowered(cause)) == "can't enroll"@
            &&& enroll(SessionFailure::Attach(cause)) == "failed to attach to '"@ + chip + "'"@
            &&& enroll(SessionFailure::Core(cause)) == "failed to select core 0"@
            &&& enroll(SessionFailure::Read(e)) == hardware_id::read_error_text(e)
        }),
{
}

/// A refusal to pick names the serial that was wanted, or how many probes there are and
/// each of them, in order, by its identifier and its serial; a probe without a serial is
/// named.
pub proof fn law_pick_refusals_name_the_probes(
    wanted: Seq<char>,
    action: Seq<char>,
    probes: Seq<ProbeModel>,
    p: ProbeModel,
)
    ensures
        text::occurs(
            pick_failure_text(PickFailure::NoProbe { wanted: Some(wanted) }),
            "no debug probe found (looking for serial '"@ + wanted + "')"@,
        ),
        pick_failure_text(PickFailure::NoProbe { wanted: None }) == "no debug probe found"@
            + CHECK_USB@,
        pick_failure_text(PickFailure::NoMatch { wanted }) == "no attached probe with serial '"@
            + wanted + "' — is it still plugged in?"@,
        ({
            let t = pick_failure_text(PickFailure::Several { action, probes });
            &&& text::begins(t, action + " requires exactly one debug probe attached ("@)
            &&& text::occurs(
                t,
                " requires exactly one debug probe attached ("@ + text::decimal(probes.len())
                    + " seen) — plug in only the board you mean to "@,
            )
            &&& text::occurs(t, ", or specify which probe by serial. Attached probes: "@ + (
            probe_list(probes)))
            &&& forall|i: int|
                0 <= i < probes.len() ==> text::occurs(
                    t,
                    text::str_debug(probe_line(#[trigger] probes[i])),
                )
        }),
        probe_list(seq![p]) == "["@ + text::str_debug(probe_line(p)) + "]"@,
        probes.len() > 0 ==> probe_list(probes.push(p)) == probe_list(probes).drop_last() + (", "@
            + text::str_debug(probe_line(p)) + "]"@),
        probe_line(p) == p.identifier + " (serial="@ + (match p.serial_number {
            Some(s) => "Some("@ + text::str_debug(s) + ")"@,
            None => "None"@,
        }) + ")"@,
        enroll_failure_text(EnrollFailure::NoSerial { identifier: p.identifier })
            == "the attached probe ("@ + p.identifier + NO_SERIAL@,
{
    let n0 = "no debug probe found (looking for serial '"@ + wanted + "')"@;
    assert(n0 + CHECK_USB@ =~= Seq::empty() + n0 + CHECK_USB@);
    text::lemma_occurs_between(Seq::empty(), n0, CHECK_USB@);
    let t = pick_failure_text(PickFailure::Several { action, probes });
    let (l0, l1, l2) = (
        " requires exactly one debug probe attached ("@,
        " seen) — plug in only the board you mean to "@,
        ", or specify which probe by serial. Attached probes: "@,
    );
    let n = text::decimal(probes.len());
    let list = probe_list(probes);
    let rest = n + l1 + action + l2 + list;
    assert(t == action + l0 + n + l1 + action + l2 + list);
    assert(t =~= (action + l0) + rest);
    text::law_beginning_is_going_on_from(t, action + l0, rest);
    text::lemma_occurs_row(action, l0, n, l1);
    text::lemma_occurs_longer(action + l0 + n + l1, action, l2, l0 + n + l1);
    text::lemma_occurs_before(action + l0 + n + l1 + action + l2, list, l0 + n + l1);
    let head = action + l0 + n + l1 + action;
    assert(t =~= head + (l2 + list) + Seq::empty());
    text::lemma_occurs_between(head, l2 + list, Seq::empty());
    let parts = Seq::new(probes.len(), |i: int| text::str_debug(probe_line(probes[i])));
    text::lemma_occurs_between(head + l2, list, Seq::empty());
    assert(t =~= head + l2 + list + Seq::empty());
    assert forall|i: int| 0 <= i < probes.len() implies text::occurs(
        t,
        text::str_debug(probe_line(#[trigger] probes[i])),
    ) by {
        text::lemma_part_occurs(parts, ", "@, i);
        text::lemma_occurs_inside("["@, text::joined(parts, ", "@), "]"@, parts[i]);
        text::lemma_occurs_trans(t, list, parts[i]);
    }
    assert(Seq::new(1, |i: int| text::str_debug(probe_line(seq![p][i]))) =~= seq![
        text::str_debug(probe_line(p)),
    ]);
    if probes.len() > 0 {
        let more = probes.push(p);
        let all = Seq::new(more.len(), |i: int| text::str_debug(probe_line(more[i])));
        assert(all.drop_last() =~= parts);
        assert(all.last() == text::str_debug(probe_line(p)));
        reveal_strlit("]");
        assert(list.drop_last() =~= "["@ + text::joined(parts, ", "@));
        assert(probe_list(more) =~= list.drop_last() + (", "@ + text::str_debug(probe_line(p))
            + "]"@));
    }
}

} // verus!
