//! What the command line prints, and what its arguments ask for.

use crate::hardware::alert::{Alert, AlertModel};
use crate::hardware::enrollment::{BoardModel, EnrolledBoard, LinkEdit, LinkEditModel};
use crate::hardware::port::{DetectedPort, PortModel};
use crate::hardware::validate::{self, NotEnrolled, TopologyMismatch};
use crate::software::{self, Attempt, AttemptModel, ProbeOutcome, ResolvedSoftwareTopology};
use crate::text;
use vstd::prelude::*;
use vstd::string::*;

verus! {

// ---- dev-bench's port ----------------------------------------------------------

/// What follows the port's name, with the serial and the product as they are shown.
pub open spec fn details_text(
    detected_by: Seq<char>,
    serial: Seq<char>,
    product: Seq<char>,
    interface: Option<u8>,
) -> Seq<char> {
    "\n  detected_by: "@ + detected_by + "\n  serial: "@ + serial + "\n  product: "@ + product
        + "\n  interface: "@ + text::opt_u8_debug(interface) + "\n"@
}

pub open spec fn port_details(p: PortModel) -> Seq<char> {
    details_text(
        p.detected_by,
        text::opt_str_debug(p.serial_number),
        text::opt_str_debug(p.product),
        p.interface,
    )
}

/// Writes down what follows the port's name, with the serial and the product as they
/// are shown.
pub fn render_details(detected_by: &str, serial: &str, product: &str, interface: Option<u8>) -> (r:
    String)
    ensures
        r@ == details_text(detected_by@, serial@, product@, interface),
{
    let mut r = "\n  detected_by: ".to_string();
    r.append(detected_by);
    r.append("\n  serial: ");
    r.append(serial);
    r.append("\n  product: ");
    r.append(product);
    r.append("\n  interface: ");
    r.append(text::debug_opt_u8(interface).as_str());
    r.append("\n");
    r
}

pub open spec fn dev_bench_port_text(p: PortModel) -> Seq<char> {
    match p.guessed_among {
        Some(n) => p.port_name + ", guessed among "@ + text::decimal(n) + port_details(p),
        None => p.port_name + port_details(p),
    }
}

/// A detected port for a human, with whether it was guessed on the line that a
/// caller copies.
pub fn render_dev_bench_port(port: &DetectedPort) -> (r: String)
    ensures
        r@ == dev_bench_port_text(port.deep_view()),
{
    let serial = text::debug_opt_str(&port.serial_number);
    let product = text::debug_opt_str(&port.product);
    let details = render_details(
        port.detected_by.as_str(),
        serial.as_str(),
        product.as_str(),
        port.interface,
    );
    let mut r = port.port_name.clone();
    if let Some(n) = port.guessed_among {
        r.append(", guessed among ");
        r.append(text::to_decimal(n as u64).as_str());
    }
    r.append(details.as_str());
    r
}

// ---- failures --------------------------------------------------------------------

/// A failure that a command ends with.
#[derive(Debug, PartialEq, Eq)]
pub enum CommandError {
    Mismatch(TopologyMismatch),
    NotEnrolled(NotEnrolled),
    /// Any other failure, written out with its whole chain of causes.
    Other(String),
}

/// A failure for a human: the two that have a sentence of their own say it, and any
/// other keeps its chain of causes.
pub fn render_error(e: &CommandError) -> (r: String)
    ensures
        r@ == (match *e {
            CommandError::Mismatch(m) => validate::mismatch_text(m.deep_view()),
            CommandError::NotEnrolled(n) => validate::not_enrolled_text(n.role@),
            CommandError::Other(chain) => chain@,
        }),
{
    match e {
        CommandError::Mismatch(m) => m.message(),
        CommandError::NotEnrolled(n) => n.message(),
        CommandError::Other(chain) => chain.clone(),
    }
}

// ---- where Core is ------------------------------------------------------------------

pub open spec fn outcome_text(outcome: ProbeOutcome) -> Seq<char> {
    match outcome {
        ProbeOutcome::Core { authorized: true } => "Core { authorized: true }"@,
        ProbeOutcome::Core { authorized: false } => "Core { authorized: false }"@,
        ProbeOutcome::NotCore { status } => "NotCore { status: "@ + text::decimal(status as nat)
            + " }"@,
        ProbeOutcome::Unreachable => "Unreachable"@,
    }
}

pub open spec fn attempt_line(a: AttemptModel) -> Seq<char> {
    "  tried "@ + a.candidate.base_url + " ("@ + software::class_text(a.candidate.class) + "): "@
        + outcome_text(a.outcome) + "\n"@
}

fn render_attempt(a: &Attempt) -> (r: String)
    ensures
        r@ == attempt_line(a.deep_view()),
{
    let outcome = match a.outcome {
        ProbeOutcome::Core { authorized } => if authorized {
            "Core { authorized: true }".to_string()
        } else {
            "Core { authorized: false }".to_string()
        },
        ProbeOutcome::NotCore { status } => {
            let mut s = "NotCore { status: ".to_string();
            s.append(text::to_decimal(status as u64).as_str());
            s.append(" }");
            s
        },
        ProbeOutcome::Unreachable => "Unreachable".to_string(),
    };
    let mut r = "  tried ".to_string();
    r.append(a.candidate.base_url.as_str());
    r.append(" (");
    r.append(a.candidate.class.as_str());
    r.append("): ");
    r.append(outcome.as_str());
    r.append("\n");
    r
}

/// Where Core is and everything that was tried, a line each.
pub open spec fn status_text(
    winner: Option<software::CandidateModel>,
    attempts: Seq<AttemptModel>,
) -> Seq<char> {
    (match winner {
        Some(c) => "core: "@ + c.base_url + " ("@ + software::class_text(c.class) + ")\n"@,
        None => "core: not found\n"@,
    }) + text::joined(Seq::new(attempts.len(), |i: int| attempt_line(attempts[i])), ""@)
}

pub fn render_status(resolved: &ResolvedSoftwareTopology) -> (r: String)
    ensures
        r@ == status_text(resolved.winner.deep_view(), resolved.attempts.deep_view()),
{
    let attempts = &resolved.attempts;
    let ghost m = attempts.deep_view();
    let mut parts: Vec<String> = Vec::new();
    let mut i: usize = 0;
    while i < attempts.len()
        invariant
            i <= attempts@.len(),
            m == attempts.deep_view(),
            text::texts(parts@) =~= Seq::new(i as nat, |j: int| attempt_line(m[j])),
        decreases attempts@.len() - i,
    {
        let ghost before = text::texts(parts@);
        assert(m[i as int] == attempts@[i as int].deep_view());
        let part = render_attempt(&attempts[i]);
        parts.push(part);
        assert(text::texts(parts@) =~= before.push(part@));
        i += 1;
    }
    assert(text::texts(parts@) =~= Seq::new(m.len(), |j: int| attempt_line(m[j])));
    let mut r = match &resolved.winner {
        Some(c) => {
            let mut s = "core: ".to_string();
            s.append(c.base_url.as_str());
            s.append(" (");
            s.append(c.class.as_str());
            s.append(")\n");
            s
        },
        None => "core: not found\n".to_string(),
    };
    r.append(text::join(&parts, "").as_str());
    r
}

/// The one URL to probe where a host was named on the command line.
pub fn status_base_url(host: Option<&str>, port: u16) -> (r: Option<String>)
    ensures
        r.deep_view() == (match software::given(text::opt_text(host)) {
            Some(h) => Some(software::url(h, port)),
            None => None,
        }),
{
    match host {
        Some(h) => {
            let t = text::trim(h);
            if text::to_chars(t.as_str()).len() == 0 {
                return None;
            }
            let mut r = "http://".to_string();
            r.append(t.as_str());
            r.append(":");
            r.append(text::to_decimal(port as u64).as_str());
            Some(r)
        },
        None => None,
    }
}

// ---- boards -------------------------------------------------------------------------

/// One enrolled board on a line.
pub open spec fn board_line(b: BoardModel) -> Seq<char> {
    b.role + ": probe "@ + text::or_none(b.probe_serial) + " chip "@ + b.chip + " hardware_id "@
        + text::or_none(b.hardware_id) + (match b.link_port_serial {
        Some(s) => " link_port_serial "@ + s,
        None => Seq::empty(),
    }) + (match b.link_port_interface {
        Some(i) => " link_port_interface "@ + text::decimal(i as nat),
        None => Seq::empty(),
    }) + "\n"@
}

pub fn render_board(b: &EnrolledBoard) -> (r: String)
    ensures
        r@ == board_line(b.deep_view()),
{
    let mut serial = String::new();
    if let Some(s) = &b.link_port_serial {
        serial = " link_port_serial ".to_string();
        serial.append(s.as_str());
    }
    assert(serial@ =~= (match b.deep_view().link_port_serial {
        Some(s) => " link_port_serial "@ + s,
        None => Seq::empty(),
    }));
    let mut interface = String::new();
    if let Some(i) = b.link_port_interface {
        interface = " link_port_interface ".to_string();
        interface.append(text::to_decimal(i as u64).as_str());
    }
    assert(interface@ =~= (match b.link_port_interface {
        Some(i) => " link_port_interface "@ + text::decimal(i as nat),
        None => Seq::empty(),
    }));
    let mut r = b.role.clone();
    r.append(": probe ");
    r.append(text::text_or_none(&b.probe_serial).as_str());
    r.append(" chip ");
    r.append(b.chip.as_str());
    r.append(" hardware_id ");
    r.append(text::text_or_none(&b.hardware_id).as_str());
    r.append(serial.as_str());
    r.append(interface.as_str());
    r.append("\n");
    r
}

pub open spec fn enrolled_line(b: BoardModel) -> Seq<char> {
    "enrolled '"@ + b.chip + "' as role '"@ + b.role + "': probe "@ + text::or_none(b.probe_serial)
        + ", hardware_id "@ + text::or_none(b.hardware_id) + "\n"@
}

/// What is said of a board that was just enrolled.
pub fn render_enrolled(b: &EnrolledBoard) -> (r: String)
    ensures
        r@ == enrolled_line(b.deep_view()),
{
    let mut r = "enrolled '".to_string();
    r.append(b.chip.as_str());
    r.append("' as role '");
    r.append(b.role.as_str());
    r.append("': probe ");
    r.append(text::text_or_none(&b.probe_serial).as_str());
    r.append(", hardware_id ");
    r.append(text::text_or_none(&b.hardware_id).as_str());
    r.append("\n");
    r
}

pub open spec fn validated_line(b: BoardModel) -> Seq<char> {
    "ok: '"@ + b.role + "' still matches hardware_id "@ + text::or_none(b.hardware_id) + "\n"@
}

/// What is said of a board that passed the identity gate.
pub fn render_validated(b: &EnrolledBoard) -> (r: String)
    ensures
        r@ == validated_line(b.deep_view()),
{
    let mut r = "ok: '".to_string();
    r.append(b.role.as_str());
    r.append("' still matches hardware_id ");
    r.append(text::text_or_none(&b.hardware_id).as_str());
    r.append("\n");
    r
}

pub open spec fn alert_line(a: AlertModel) -> Seq<char> {
    text::decimal(a.occurred_at_utc_ms as nat) + " role="@ + a.role + " probe="@ + a.probe_serial
        + " reason="@ + a.reason + "\n"@
}

/// One alert on a line.
pub fn render_alert(a: &Alert) -> (r: String)
    ensures
        r@ == alert_line(a.deep_view()),
{
    let mut r = text::to_decimal(a.occurred_at_utc_ms);
    r.append(" role=");
    r.append(a.role.as_str());
    r.append(" probe=");
    r.append(a.probe_serial.as_str());
    r.append(" reason=");
    r.append(a.reason.as_str());
    r.append("\n");
    r
}

// ---- dev-bench's link ----------------------------------------------------------------

/// Nothing to declare or to take back was given.
#[derive(Debug, PartialEq, Eq)]
pub struct NothingToDeclare;

impl NothingToDeclare {
    pub fn message(&self) -> (r: String)
        ensures
            r@ == "set-dev-bench-link needs at least one of --serial or --interface"@,
    {
        "set-dev-bench-link needs at least one of --serial or --interface".to_string()
    }
}

/// The changes that the arguments ask for: of the serial first, then of the
/// interface. A value that is given wins over taking the fact back.
pub open spec fn link_changes(
    serial: Option<Seq<char>>,
    interface: Option<u8>,
    clear_serial: bool,
    clear_interface: bool,
) -> Seq<LinkEditModel> {
    (if serial is Some || clear_serial {
        seq![LinkEditModel::Serial(serial)]
    } else {
        Seq::empty()
    }) + (if interface is Some || clear_interface {
        seq![LinkEditModel::Interface(interface)]
    } else {
        Seq::empty()
    })
}

/// The changes to dev-bench's link that the arguments ask for; there must be one.
pub fn link_edits(
    serial: Option<String>,
    interface: Option<u8>,
    clear_serial: bool,
    clear_interface: bool,
) -> (r: Result<Vec<LinkEdit>, NothingToDeclare>)
    ensures
        r is Err <==> serial is None && interface is None && !clear_serial && !clear_interface,
        r matches Ok(v) ==> v.deep_view() == link_changes(
            serial.deep_view(),
            interface,
            clear_serial,
            clear_interface,
        ),
{
    if serial.is_none() && interface.is_none() && !clear_serial && !clear_interface {
        return Err(NothingToDeclare);
    }
    let mut r: Vec<LinkEdit> = Vec::new();
    let ghost want = serial.deep_view();
    if serial.is_some() || clear_serial {
        r.push(LinkEdit::Serial(serial));
    }
    if interface.is_some() || clear_interface {
        r.push(LinkEdit::Interface(interface));
    }
    assert(r.deep_view() =~= link_changes(want, interface, clear_serial, clear_interface));
    Ok(r)
}

pub open spec fn link_edit_line(edit: LinkEditModel) -> Seq<char> {
    match edit {
        LinkEditModel::Serial(Some(s)) => "dev-bench link port serial set to '"@ + s + "'\n"@,
        LinkEditModel::Serial(None) => "dev-bench link port serial cleared\n"@,
        LinkEditModel::Interface(Some(i)) => "dev-bench link port interface set to "@
            + text::decimal(i as nat) + "\n"@,
        LinkEditModel::Interface(None) => "dev-bench link port interface cleared\n"@,
    }
}

/// What is said of a change that was made.
pub fn render_link_edit(edit: &LinkEdit) -> (r: String)
    ensures
        r@ == link_edit_line(edit.deep_view()),
{
    match edit {
        LinkEdit::Serial(Some(s)) => {
            let mut r = "dev-bench link port serial set to '".to_string();
            r.append(s.as_str());
            r.append("'\n");
            r
        },
        LinkEdit::Serial(None) => "dev-bench link port serial cleared\n".to_string(),
        LinkEdit::Interface(Some(i)) => {
            let mut r = "dev-bench link port interface set to ".to_string();
            r.append(text::to_decimal(*i as u64).as_str());
            r.append("\n");
            r
        },
        LinkEdit::Interface(None) => "dev-bench link port interface cleared\n".to_string(),
    }
}

// ---- what the rendering promises -------------------------------------------------------

/// A guess shows on the first line alone: without it the two renderings are the same.
pub proof fn law_guess_shows_on_the_port_line(p: PortModel, n: nat)
    requires
        p.guessed_among is None,
    ensures
        dev_bench_port_text(p) == p.port_name + port_details(p),
        dev_bench_port_text(PortModel { guessed_among: Some(n), ..p }) == p.port_name
            + ", guessed among "@ + text::decimal(n) + port_details(p),
{
}

/// A detected port is told by its name first, with a guess on the same line, and then by
/// what it reports, each behind its own label.
pub proof fn law_port_text_tells_the_port(p: PortModel)
    ensures
        ({
            let t = dev_bench_port_text(p);
            let serial = match p.serial_number {
                Some(s) => "Some("@ + text::str_debug(s) + ")"@,
                None => "None"@,
            };
            let product = match p.product {
                Some(s) => "Some("@ + text::str_debug(s) + ")"@,
                None => "None"@,
            };
            let interface = match p.interface {
                Some(n) => "Some("@ + text::decimal(n as nat) + ")"@,
                None => "None"@,
            };
            let guess = match p.guessed_among {
                Some(n) => ", guessed among "@ + text::decimal(n),
                None => Seq::empty(),
            };
            &&& text::begins(
                t,
                p.port_name + guess + ("\n  detected_by: "@ + p.detected_by + "\n  serial: "@),
            )
            &&& text::occurs(t, "\n  serial: "@ + serial + "\n  product: "@)
            &&& text::occurs(t, "\n  product: "@ + product + "\n  interface: "@)
            &&& text::occurs(t, "\n  interface: "@ + interface + "\n"@)
        }),
{
    let serial = text::opt_str_debug(p.serial_number);
    let product = text::opt_str_debug(p.product);
    let interface = text::opt_u8_debug(p.interface);
    let (l0, l1, l2, l3, l4) = (
        "\n  detected_by: "@,
        "\n  serial: "@,
        "\n  product: "@,
        "\n  interface: "@,
        "\n"@,
    );
    let first = l0 + p.detected_by + l1;
    let rest = serial + l2 + product + l3 + interface + l4;
    let guess = match p.guessed_among {
        Some(n) => ", guessed among "@ + text::decimal(n),
        None => Seq::empty(),
    };
    let details = port_details(p);
    let t = dev_bench_port_text(p);
    assert(details == first + serial + l2 + product + l3 + interface + l4);
    assert(t =~= p.port_name + guess + details);
    assert(details =~= first + rest);
    assert(t =~= (p.port_name + guess + first) + rest);
    text::law_beginning_is_going_on_from(t, p.port_name + guess + first, rest);
    text::lemma_occurs_row(l0 + p.detected_by, l1, serial, l2);
    text::lemma_occurs_row(first + serial, l2, product, l3);
    text::lemma_occurs_row(first + serial + l2 + product, l3, interface, l4);
    let n1 = l1 + serial + l2;
    let n2 = l2 + product + l3;
    text::lemma_occurs_longer(first + serial + l2, product, l3, n1);
    text::lemma_occurs_longer(first + serial + l2 + product + l3, interface, l4, n1);
    text::lemma_occurs_longer(first + serial + l2 + product + l3, interface, l4, n2);
    text::lemma_occurs_after(p.port_name + guess, details, n1);
    text::lemma_occurs_after(p.port_name + guess, details, n2);
    text::lemma_occurs_after(p.port_name + guess, details, l3 + interface + l4);
}

/// Where Core is comes first, then every attempt on a line of its own, in order, with its
/// URL, its class and what it found.
pub proof fn law_status_tells_core_and_every_attempt(
    winner: software::CandidateModel,
    attempts: Seq<AttemptModel>,
    a: AttemptModel,
)
    ensures
        status_text(None, Seq::empty()) == "core: not found\n"@,
        status_text(Some(winner), Seq::empty()) == "core: "@ + winner.base_url + " ("@
            + software::class_text(winner.class) + ")\n"@,
        status_text(Some(winner), attempts.push(a)) == status_text(Some(winner), attempts)
            + attempt_line(a),
        status_text(None, attempts.push(a)) == status_text(None, attempts) + attempt_line(a),
        attempt_line(a) == "  tried "@ + a.candidate.base_url + " ("@ + software::class_text(
            a.candidate.class,
        ) + "): "@ + outcome_text(a.outcome) + "\n"@,
        outcome_text(ProbeOutcome::Core { authorized: true }) == "Core { authorized: true }"@,
        outcome_text(ProbeOutcome::Core { authorized: false }) == "Core { authorized: false }"@,
        outcome_text(ProbeOutcome::Unreachable) == "Unreachable"@,
        a.outcome matches ProbeOutcome::NotCore { status } ==> outcome_text(a.outcome)
            == "NotCore { status: "@ + text::decimal(status as nat) + " }"@,
{
    reveal_strlit("");
    let none = Seq::new(
        Seq::<AttemptModel>::empty().len(),
        |i: int| attempt_line(Seq::<AttemptModel>::empty()[i]),
    );
    assert(text::joined(none, ""@) =~= Seq::<char>::empty());
    assert(status_text(None, Seq::empty()) =~= "core: not found\n"@);
    assert(status_text(Some(winner), Seq::empty()) =~= "core: "@ + winner.base_url + " ("@
        + software::class_text(winner.class) + ")\n"@);
    let parts = Seq::new(attempts.len(), |i: int| attempt_line(attempts[i]));
    let more = attempts.push(a);
    let all = Seq::new(more.len(), |i: int| attempt_line(more[i]));
    assert(all.drop_last() =~= parts);
    assert(all.last() == attempt_line(a));
    assert(text::joined(all, ""@) =~= text::joined(parts, ""@) + attempt_line(a));
    assert(status_text(Some(winner), more) =~= status_text(Some(winner), attempts) + attempt_line(
        a,
    ));
    assert(status_text(None, more) =~= status_text(None, attempts) + attempt_line(a));
}

/// A board's line has its role, its probe, its chip and its identity, each behind its own
/// label, and a link fact exactly if it is declared.
pub proof fn law_board_line_tells_the_row(b: BoardModel)
    ensures
        ({
            let probe = match b.probe_serial {
                Some(s) => s,
                None => "none"@,
            };
            let id = match b.hardware_id {
                Some(s) => s,
                None => "none"@,
            };
            let row = b.role + ": probe "@ + probe + " chip "@ + b.chip + " hardware_id "@ + id;
            match (b.link_port_serial, b.link_port_interface) {
                (None, None) => board_line(b) == row + "\n"@,
                (Some(s), None) => board_line(b) == row + " link_port_serial "@ + s + "\n"@,
                (None, Some(i)) => board_line(b) == row + " link_port_interface "@ + text::decimal(
                    i as nat,
                ) + "\n"@,
                (Some(s), Some(i)) => board_line(b) == row + " link_port_serial "@ + s
                    + " link_port_interface "@ + text::decimal(i as nat) + "\n"@,
            }
        }),
{
    let id = text::or_none(b.hardware_id);
    let row = b.role + ": probe "@ + text::or_none(b.probe_serial) + " chip "@ + b.chip
        + " hardware_id "@ + id;
    let none = Seq::<char>::empty();
    assert(row + none =~= row);
    match (b.link_port_serial, b.link_port_interface) {
        (None, None) => {
            assert(board_line(b) =~= row + "\n"@);
        },
        (Some(s), None) => {
            assert(board_line(b) =~= row + " link_port_serial "@ + s + "\n"@);
        },
        (None, Some(i)) => {
            assert(board_line(b) =~= row + " link_port_interface "@ + text::decimal(i as nat)
                + "\n"@);
        },
        (Some(s), Some(i)) => {
            assert(board_line(b) =~= row + " link_port_serial "@ + s + " link_port_interface "@
                + text::decimal(i as nat) + "\n"@);
        },
    }
}

/// What is said of an enrollment, of a check and of an alert names what it is about.
pub proof fn law_lines_name_what_they_are_about(b: BoardModel, a: AlertModel)
    ensures
        ({
            let probe = match b.probe_serial {
                Some(s) => s,
                None => "none"@,
            };
            let id = match b.hardware_id {
                Some(s) => s,
                None => "none"@,
            };
            &&& text::begins(enrolled_line(b), "enrolled '"@ + b.chip + "' as role '"@)
            &&& text::occurs(enrolled_line(b), "' as role '"@ + b.role + "': probe "@)
            &&& text::occurs(enrolled_line(b), "': probe "@ + probe + ", hardware_id "@)
            &&& text::occurs(enrolled_line(b), ", hardware_id "@ + id + "\n"@)
            &&& text::begins(
                validated_line(b),
                "ok: '"@ + b.role + "' still matches hardware_id "@,
            )
            &&& text::occurs(
                validated_line(b),
                "' still matches hardware_id "@ + id + "\n"@,
            )
            &&& text::begins(
                alert_line(a),
                text::decimal(a.occurred_at_utc_ms as nat) + " role="@ + a.role + " probe="@,
            )
            &&& text::occurs(alert_line(a), " probe="@ + a.probe_serial + " reason="@)
            &&& text::occurs(alert_line(a), " reason="@ + a.reason + "\n"@)
        }),
{
    let probe = text::or_none(b.probe_serial);
    let id = text::or_none(b.hardware_id);
    let (l0, l1, l2, l3, l4) = ("enrolled '"@, "' as role '"@, "': probe "@, ", hardware_id "@, "\n"@);
    let head = l0 + b.chip + l1;
    let more = b.role + l2 + probe + l3 + id + l4;
    assert(enrolled_line(b) == head + b.role + l2 + probe + l3 + id + l4);
    assert(enrolled_line(b) =~= head + more);
    text::law_beginning_is_going_on_from(enrolled_line(b), head, more);
    text::lemma_occurs_row(l0 + b.chip, l1, b.role, l2);
    text::lemma_occurs_row(head + b.role, l2, probe, l3);
    text::lemma_occurs_row(head + b.role + l2 + probe, l3, id, l4);
    text::lemma_occurs_longer(head + b.role + l2, probe, l3, l1 + b.role + l2);
    text::lemma_occurs_longer(head + b.role + l2 + probe + l3, id, l4, l1 + b.role + l2);
    text::lemma_occurs_longer(head + b.role + l2 + probe + l3, id, l4, l2 + probe + l3);
    let (m0, m1) = ("ok: '"@, "' still matches hardware_id "@);
    assert(validated_line(b) =~= (m0 + b.role + m1) + (id + l4));
    text::law_beginning_is_going_on_from(validated_line(b), m0 + b.role + m1, id + l4);
    text::lemma_occurs_row(m0 + b.role, m1, id, l4);
    let time = text::decimal(a.occurred_at_utc_ms as nat);
    let (k0, k1, k2) = (" role="@, " probe="@, " reason="@);
    let start = time + k0 + a.role + k1;
    let end = a.probe_serial + k2 + a.reason + l4;
    assert(alert_line(a) == start + a.probe_serial + k2 + a.reason + l4);
    assert(alert_line(a) =~= start + end);
    text::law_beginning_is_going_on_from(alert_line(a), start, end);
    text::lemma_occurs_row(time + k0 + a.role, k1, a.probe_serial, k2);
    text::lemma_occurs_row(start + a.probe_serial, k2, a.reason, l4);
    text::lemma_occurs_longer(start + a.probe_serial + k2, a.reason, l4, k1 + a.probe_serial + k2);
}

/// The arguments ask for at most one change of the serial and one of the interface, in
/// that order: to what was given; to nothing where it is only to be cleared; and for none
/// where neither was asked for.
pub proof fn law_arguments_ask_for_one_change_of_each(
    serial: Option<Seq<char>>,
    interface: Option<u8>,
    clear_serial: bool,
    clear_interface: bool,
)
    ensures
        ({
            let changes = link_changes(serial, interface, clear_serial, clear_interface);
            let of_serial = serial is Some || clear_serial;
            let of_interface = interface is Some || clear_interface;
            &&& changes.len() == (if of_serial {
                1int
            } else {
                0
            }) + (if of_interface {
                1int
            } else {
                0
            })
            &&& of_serial ==> changes[0] == LinkEditModel::Serial(serial)
            &&& of_interface ==> changes.last() == LinkEditModel::Interface(interface)
        }),
{
}

/// What is said of a change names the fact, and its value where it was set.
pub proof fn law_change_is_told_by_fact_and_value(serial: Seq<char>, interface: u8)
    ensures
        link_edit_line(LinkEditModel::Serial(Some(serial))) == "dev-bench link port serial set to '"@
            + serial + "'\n"@,
        link_edit_line(LinkEditModel::Serial(None)) == "dev-bench link port serial cleared\n"@,
        link_edit_line(LinkEditModel::Interface(Some(interface)))
            == "dev-bench link port interface set to "@ + text::decimal(interface as nat) + "\n"@,
        link_edit_line(LinkEditModel::Interface(None)) == "dev-bench link port interface cleared\n"@,
{
}

} // verus!
