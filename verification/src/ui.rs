//! The pages of the local web interface: what is enrolled, attached and alerted, in
//! HTML. They change nothing.

use crate::hardware::alert::{Alert, AlertModel};
use crate::hardware::enrollment::{self, BoardModel, EnrolledBoard, DUT_ROLE};
use crate::hardware::port::DEV_BENCH_ROLE;
use crate::hardware::validate::{AttachedProbe, ProbeModel};
use crate::lists;
use crate::software::ResolvedSoftwareTopology;
use crate::text;
use vstd::prelude::*;
use vstd::string::*;

verus! {

// ---- escaping -----------------------------------------------------------------

/// How a character is written in HTML text and in quoted attributes.
pub open spec fn entity(c: char) -> Seq<char> {
    if c == '&' {
        "&amp;"@
    } else if c == '<' {
        "&lt;"@
    } else if c == '>' {
        "&gt;"@
    } else if c == '"' {
        "&quot;"@
    } else {
        seq![c]
    }
}

/// `s` with each of its characters written for HTML.
pub open spec fn escaped(s: Seq<char>) -> Seq<char>
    decreases s.len(),
{
    if s.len() == 0 {
        Seq::empty()
    } else {
        escaped(s.drop_last()) + entity(s.last())
    }
}

pub fn html_escape(s: &str) -> (r: String)
    ensures
        r@ == escaped(s@),
{
    let v = text::to_chars(s);
    let mut r = String::new();
    let mut i: usize = 0;
    assert(r@ =~= escaped(s@.take(0)));
    while i < v.len()
        invariant
            i <= v@.len(),
            v@ == s@,
            r@ == escaped(s@.take(i as int)),
        decreases v@.len() - i,
    {
        let c = v[i];
        assert(s@.take(i + 1).drop_last() =~= s@.take(i as int));
        let ghost before = r@;
        if c == '&' {
            r.append("&amp;");
        } else if c == '<' {
            r.append("&lt;");
        } else if c == '>' {
            r.append("&gt;");
        } else if c == '"' {
            r.append("&quot;");
        } else {
            r.push(c);
            assert(r@ =~= before + seq![c]);
        }
        i += 1;
    }
    assert(s@.take(i as int) =~= s@);
    r
}

// ---- pages and links ------------------------------------------------------------

/// What every page begins with.
pub const PAGE_HEAD: &'static str =
    "<!doctype html><html><head><title>embarch-topology</title><meta charset=\"utf-8\"></head><body style=\"font-family:monospace;max-width:60rem;margin:2rem auto\"><h1>embarch-topology</h1>";

/// What every page ends with: a live alert is put on top as it comes in.
pub const PAGE_TAIL: &'static str =
    "<script>const es = new EventSource('/events');es.onmessage = (e) => { const div = document.createElement('pre'); div.textContent = 'LIVE ALERT: ' + e.data; div.style.color = 'red'; document.body.prepend(div); };</script></body></html>";

/// The diagram up to the fill of the box for Core.
pub const SVG_HEAD: &'static str =
    "<svg viewBox=\"0 0 460 200\" width=\"460\" height=\"200\" style=\"font-family:monospace;font-size:12px\">\n\
     <rect x=\"10\" y=\"20\" width=\"150\" height=\"50\" rx=\"8\" fill=\"#f2f2f2\" stroke=\"#666\" stroke-width=\"1.5\"/>\n\
     <text x=\"85\" y=\"50\" text-anchor=\"middle\">this UI process</text>\n\
     <line x1=\"160\" y1=\"45\" x2=\"230\" y2=\"45\" stroke=\"#666\" stroke-width=\"1.5\" marker-end=\"url(#arrow)\"/>\n\
     <rect x=\"230\" y=\"20\" width=\"220\" height=\"50\" rx=\"8\" fill=\"";

/// Between the stroke of that box and its label.
pub const SVG_CORE: &'static str =
    "\" stroke-width=\"1.5\"/>\n\
     <text x=\"340\" y=\"42\" text-anchor=\"middle\" font-weight=\"bold\">embarch-core</text>\n\
     <text x=\"340\" y=\"60\" text-anchor=\"middle\" font-size=\"11\">";

/// Between that label and the boxes of the two roles.
pub const SVG_LINES: &'static str =
    "</text>\n\
     <line x1=\"340\" y1=\"70\" x2=\"180\" y2=\"120\" stroke=\"#666\" stroke-width=\"1.5\" marker-end=\"url(#arrow)\"/>\n\
     <line x1=\"340\" y1=\"70\" x2=\"380\" y2=\"120\" stroke=\"#666\" stroke-width=\"1.5\" marker-end=\"url(#arrow)\"/>\n\
     ";

/// What the diagram ends with.
pub const SVG_TAIL: &'static str =
    "\n\
     <defs><marker id=\"arrow\" viewBox=\"0 0 10 10\" refX=\"8\" refY=\"5\" markerWidth=\"6\" markerHeight=\"6\" orient=\"auto-start-reverse\">\n\
     <path d=\"M0 0L10 5L0 10z\" fill=\"#666\"/></marker></defs>\n\
     </svg>";

pub open spec fn page_text(body: Seq<char>) -> Seq<char> {
    PAGE_HEAD@ + body + PAGE_TAIL@
}

/// A whole page around `body`.
pub fn page(body: &str) -> (r: String)
    ensures
        r@ == page_text(body@),
{
    let mut r = PAGE_HEAD.to_string();
    r.append(body);
    r.append(PAGE_TAIL);
    r
}

pub open spec fn enroll_href(base_url: Seq<char>, role: Option<Seq<char>>) -> Seq<char> {
    match role {
        Some(role) => base_url + "/enroll?role="@ + role,
        None => base_url + "/enroll"@,
    }
}

/// Core's own page for enrolling a board, with the role filled in where one is
/// given.
pub fn enroll_link(base_url: &str, role: Option<&str>) -> (r: String)
    ensures
        r@ == enroll_href(base_url@, text::opt_text(role)),
{
    let mut r = base_url.to_string();
    match role {
        Some(role) => {
            r.append("/enroll?role=");
            r.append(role);
        },
        None => {
            r.append("/enroll");
        },
    }
    r
}

pub const CORE_UNREACHABLE: &'static str =
    "<i>embarch-core not reachable right now — its own `/enroll` page is where boards get enrolled</i>";

/// The URL that Core was found at.
pub open spec fn core_url(resolved: ResolvedSoftwareTopology) -> Option<Seq<char>> {
    match resolved.winner {
        Some(c) => Some(c.base_url@),
        None => None,
    }
}

pub open spec fn core_enroll_text(base_url: Option<Seq<char>>) -> Seq<char> {
    match base_url {
        Some(base) => "<a href=\""@ + enroll_href(base, None) + "\">"@ + enroll_href(base, None)
            + "</a>"@,
        None => CORE_UNREACHABLE@,
    }
}

/// A link to Core's page for enrolling, or words where Core was not found.
pub fn core_enroll_link(resolved: &ResolvedSoftwareTopology) -> (r: String)
    ensures
        r@ == core_enroll_text(core_url(*resolved)),
{
    match resolved.base_url() {
        Some(base) => {
            let href = enroll_link(base, None);
            let mut r = "<a href=\"".to_string();
            r.append(href.as_str());
            r.append("\">");
            r.append(href.as_str());
            r.append("</a>");
            r
        },
        None => CORE_UNREACHABLE.to_string(),
    }
}

// ---- the diagram ------------------------------------------------------------------

/// A probe with the serial that the board is enrolled with is attached. A board
/// without a probe has none attached.
pub open spec fn is_attached(board: BoardModel, attached: Seq<ProbeModel>) -> bool {
    board.probe_serial is Some && exists|i: int|
        0 <= i < attached.len() && (#[trigger] attached[i]).serial_number == board.probe_serial
}

pub fn role_attached(board: &EnrolledBoard, attached: &Vec<AttachedProbe>) -> (r: bool)
    ensures
        r == is_attached(board.deep_view(), attached.deep_view()),
{
    let serial = match &board.probe_serial {
        Some(s) => s,
        None => {
            return false;
        },
    };
    let ghost m = attached.deep_view();
    let mut i: usize = 0;
    while i < attached.len()
        invariant
            i <= attached@.len(),
            m == attached.deep_view(),
            board.probe_serial == Some(*serial),
            forall|j: int|
                0 <= j < i ==> (#[trigger] m[j]).serial_number != board.deep_view().probe_serial,
        decreases attached@.len() - i,
    {
        assert(m[i as int] == attached@[i as int].deep_view());
        if let Some(s) = &attached[i].serial_number {
            if text::same(s.as_str(), serial.as_str()) {
                return true;
            }
        }
        i += 1;
    }
    false
}

/// How the box of a role is drawn: its fill, its stroke and what it says.
pub open spec fn box_style(
    row: Option<BoardModel>,
    attached: Seq<ProbeModel>,
) -> (Seq<char>, Seq<char>, Seq<char>) {
    match row {
        Some(b) => if is_attached(b, attached) {
            ("#eef8ee"@, "#070"@, "chip "@ + escaped(b.chip))
        } else {
            ("#fdf6e3"@, "#b8860b"@, "chip "@ + escaped(b.chip) + " — not attached"@)
        },
        None => ("#f2f2f2"@, "#999"@, "not enrolled"@),
    }
}

/// The box of `role`, with its left edge at `x`.
pub open spec fn box_text(
    role: Seq<char>,
    x: nat,
    style: (Seq<char>, Seq<char>, Seq<char>),
) -> Seq<char> {
    let cx = text::decimal(x + 85);
    "<rect x=\""@ + text::decimal(x)
        + "\" y=\"120\" width=\"170\" height=\"54\" rx=\"8\" fill=\""@ + style.0
        + "\" stroke=\""@ + style.1 + "\" stroke-width=\"1.5\"/>\n<text x=\""@ + cx
        + "\" y=\"142\" text-anchor=\"middle\" font-weight=\"bold\">"@ + role
        + "</text>\n<text x=\""@ + cx + "\" y=\"160\" text-anchor=\"middle\" font-size=\"11\">"@
        + style.2 + "</text>"@
}

fn role_box(role: &str, x: u16, boards: &Vec<EnrolledBoard>, attached: &Vec<AttachedProbe>) -> (r:
    String)
    ensures
        r@ == box_text(
            role@,
            x as nat,
            box_style(
                lists::first(boards.deep_view(), enrollment::holds(role@)),
                attached.deep_view(),
            ),
        ),
{
    let has_role = |b: &EnrolledBoard| -> (h: bool)
        ensures
            h == enrollment::holds(role@)(b.deep_view())
    {
        text::same(b.role.as_str(), role)
    };
    let at: usize = lists::find_position(boards, has_role, Ghost(enrollment::holds(role@)));
    let (fill, stroke, status) = if at < boards.len() {
        let mut status = "chip ".to_string();
        status.append(html_escape(boards[at].chip.as_str()).as_str());
        if role_attached(&boards[at], attached) {
            ("#eef8ee", "#070", status)
        } else {
            status.append(" — not attached");
            ("#fdf6e3", "#b8860b", status)
        }
    } else {
        ("#f2f2f2", "#999", "not enrolled".to_string())
    };
    let cx = text::to_decimal(x as u64 + 85);
    let mut r = "<rect x=\"".to_string();
    r.append(text::to_decimal(x as u64).as_str());
    r.append("\" y=\"120\" width=\"170\" height=\"54\" rx=\"8\" fill=\"");
    r.append(fill);
    r.append("\" stroke=\"");
    r.append(stroke);
    r.append("\" stroke-width=\"1.5\"/>\n<text x=\"");
    r.append(cx.as_str());
    r.append("\" y=\"142\" text-anchor=\"middle\" font-weight=\"bold\">");
    r.append(role);
    r.append("</text>\n<text x=\"");
    r.append(cx.as_str());
    r.append("\" y=\"160\" text-anchor=\"middle\" font-size=\"11\">");
    r.append(status.as_str());
    r.append("</text>");
    r
}

/// The diagram: this process, Core and where it was found, and the two roles by what
/// is enrolled and attached.
pub open spec fn diagram_text(
    base_url: Option<Seq<char>>,
    boards: Seq<BoardModel>,
    attached: Seq<ProbeModel>,
) -> Seq<char> {
    let dev_bench = lists::first(boards, enrollment::holds(DEV_BENCH_ROLE@));
    let dut = lists::first(boards, enrollment::holds(DUT_ROLE@));
    SVG_HEAD@ + (if base_url is Some {
        "#eef8ee"@
    } else {
        "#fdecec"@
    }) + "\" stroke=\""@ + (if base_url is Some {
        "#070"@
    } else {
        "#b00"@
    }) + SVG_CORE@ + (match base_url {
        Some(base) => escaped(base),
        None => "not reachable"@,
    }) + SVG_LINES@ + box_text(DEV_BENCH_ROLE@, 10, box_style(dev_bench, attached)) + "\n"@
        + box_text(DUT_ROLE@, 290, box_style(dut, attached)) + SVG_TAIL@
}

pub fn topology_diagram(
    resolved: &ResolvedSoftwareTopology,
    boards: &Vec<EnrolledBoard>,
    attached: &Vec<AttachedProbe>,
) -> (r: String)
    ensures
        r@ == diagram_text(core_url(*resolved), boards.deep_view(), attached.deep_view()),
{
    let (fill, stroke, label) = match resolved.base_url() {
        Some(base) => ("#eef8ee", "#070", html_escape(base)),
        None => ("#fdecec", "#b00", "not reachable".to_string()),
    };
    let mut r = SVG_HEAD.to_string();
    r.append(fill);
    r.append("\" stroke=\"");
    r.append(stroke);
    r.append(SVG_CORE);
    r.append(label.as_str());
    r.append(SVG_LINES);
    r.append(role_box(DEV_BENCH_ROLE, 10, boards, attached).as_str());
    r.append("\n");
    r.append(role_box(DUT_ROLE, 290, boards, attached).as_str());
    r.append(SVG_TAIL);
    r
}

// ---- the start page -----------------------------------------------------------------

pub open spec fn board_item(b: BoardModel) -> Seq<char> {
    "<li>role <b>"@ + escaped(b.role) + "</b> — chip "@ + escaped(b.chip) + " — probe "@
        + escaped(text::or_none(b.probe_serial)) + " — hardware_id "@ + escaped(
        text::or_none(b.hardware_id),
    ) + "</li>"@
}

fn render_board_item(b: &EnrolledBoard) -> (r: String)
    ensures
        r@ == board_item(b.deep_view()),
{
    let mut r = "<li>role <b>".to_string();
    r.append(html_escape(b.role.as_str()).as_str());
    r.append("</b> — chip ");
    r.append(html_escape(b.chip.as_str()).as_str());
    r.append(" — probe ");
    r.append(html_escape(text::text_or_none(&b.probe_serial).as_str()).as_str());
    r.append(" — hardware_id ");
    r.append(html_escape(text::text_or_none(&b.hardware_id).as_str()).as_str());
    r.append("</li>");
    r
}

/// The items of the enrolled boards, in table order; or that there are none.
pub open spec fn board_items(boards: Seq<BoardModel>) -> Seq<char> {
    if boards.len() == 0 {
        "<li><i>none enrolled yet</i></li>"@
    } else {
        text::joined(Seq::new(boards.len(), |i: int| board_item(boards[i])), ""@)
    }
}

fn render_boards(boards: &Vec<EnrolledBoard>) -> (r: String)
    ensures
        r@ == board_items(boards.deep_view()),
{
    if boards.len() == 0 {
        return "<li><i>none enrolled yet</i></li>".to_string();
    }
    let ghost m = boards.deep_view();
    let mut parts: Vec<String> = Vec::new();
    let mut i: usize = 0;
    while i < boards.len()
        invariant
            i <= boards@.len(),
            m == boards.deep_view(),
            text::texts(parts@) =~= Seq::new(i as nat, |j: int| board_item(m[j])),
        decreases boards@.len() - i,
    {
        let ghost before = text::texts(parts@);
        assert(m[i as int] == boards@[i as int].deep_view());
        let part = render_board_item(&boards[i]);
        parts.push(part);
        assert(text::texts(parts@) =~= before.push(part@));
        i += 1;
    }
    assert(text::texts(parts@) =~= Seq::new(m.len(), |j: int| board_item(m[j])));
    text::join(&parts, "")
}

pub open spec fn probe_item(p: ProbeModel) -> Seq<char> {
    escaped(p.identifier) + " (serial "@ + escaped(text::or_none(p.serial_number)) + ")"@
}

/// The attached probes in a row; or that there are none.
pub open spec fn probe_items(attached: Seq<ProbeModel>) -> Seq<char> {
    if attached.len() == 0 {
        "<i>no debug probes detected</i>"@
    } else {
        text::joined(Seq::new(attached.len(), |i: int| probe_item(attached[i])), ", "@)
    }
}

fn render_probes(attached: &Vec<AttachedProbe>) -> (r: String)
    ensures
        r@ == probe_items(attached.deep_view()),
{
    if attached.len() == 0 {
        return "<i>no debug probes detected</i>".to_string();
    }
    let ghost m = attached.deep_view();
    let mut parts: Vec<String> = Vec::new();
    let mut i: usize = 0;
    while i < attached.len()
        invariant
            i <= attached@.len(),
            m == attached.deep_view(),
            text::texts(parts@) =~= Seq::new(i as nat, |j: int| probe_item(m[j])),
        decreases attached@.len() - i,
    {
        let ghost before = text::texts(parts@);
        assert(m[i as int] == attached@[i as int].deep_view());
        let mut part = html_escape(attached[i].identifier.as_str());
        part.append(" (serial ");
        part.append(html_escape(text::text_or_none(&attached[i].serial_number).as_str()).as_str());
        part.append(")");
        parts.push(part);
        assert(text::texts(parts@) =~= before.push(part@));
        i += 1;
    }
    assert(text::texts(parts@) =~= Seq::new(m.len(), |j: int| probe_item(m[j])));
    text::join(&parts, ", ")
}

/// A way to enroll the board of an alert again, where Core was found.
pub open spec fn reenroll_text(
    before: Seq<char>,
    label: Seq<char>,
    after: Seq<char>,
    role: Seq<char>,
    base_url: Option<Seq<char>>,
) -> Seq<char> {
    match base_url {
        Some(base) => before + "<a href=\""@ + escaped(enroll_href(base, Some(role))) + "\">"@
            + label + escaped(role) + "</a>"@ + after,
        None => Seq::empty(),
    }
}

fn render_reenroll(
    before: &str,
    label: &str,
    after: &str,
    role: &str,
    resolved: &ResolvedSoftwareTopology,
) -> (r: String)
    ensures
        r@ == reenroll_text(before@, label@, after@, role@, core_url(*resolved)),
{
    match resolved.base_url() {
        Some(base) => {
            let mut r = before.to_string();
            r.append("<a href=\"");
            r.append(html_escape(enroll_link(base, Some(role)).as_str()).as_str());
            r.append("\">");
            r.append(label);
            r.append(html_escape(role).as_str());
            r.append("</a>");
            r.append(after);
            r
        },
        None => String::new(),
    }
}

pub open spec fn alert_item(a: AlertModel, base_url: Option<Seq<char>>) -> Seq<char> {
    "<li><a href=\"/mismatch/"@ + escaped(a.id) + "\">"@ + text::decimal(
        a.occurred_at_utc_ms as nat,
    ) + "</a> — role "@ + escaped(a.role) + " — "@ + escaped(a.reason) + reenroll_text(
        " — "@,
        "re-enroll "@,
        ""@,
        a.role,
        base_url,
    ) + "</li>"@
}

fn render_alert_item(a: &Alert, resolved: &ResolvedSoftwareTopology) -> (r: String)
    ensures
        r@ == alert_item(a.deep_view(), core_url(*resolved)),
{
    let mut r = "<li><a href=\"/mismatch/".to_string();
    r.append(html_escape(a.id.as_str()).as_str());
    r.append("\">");
    r.append(text::to_decimal(a.occurred_at_utc_ms).as_str());
    r.append("</a> — role ");
    r.append(html_escape(a.role.as_str()).as_str());
    r.append(" — ");
    r.append(html_escape(a.reason.as_str()).as_str());
    r.append(render_reenroll(" — ", "re-enroll ", "", a.role.as_str(), resolved).as_str());
    r.append("</li>");
    r
}

/// The items of the alerts, the newest first; or that there are none.
pub open spec fn alert_items(alerts: Seq<AlertModel>, base_url: Option<Seq<char>>) -> Seq<char> {
    if alerts.len() == 0 {
        "<li><i>none logged</i></li>"@
    } else {
        text::joined(
            Seq::new(alerts.len(), |i: int| alert_item(alerts[alerts.len() - 1 - i], base_url)),
            ""@,
        )
    }
}

fn render_alerts(alerts: &Vec<Alert>, resolved: &ResolvedSoftwareTopology) -> (r: String)
    ensures
        r@ == alert_items(alerts.deep_view(), core_url(*resolved)),
{
    if alerts.len() == 0 {
        return "<li><i>none logged</i></li>".to_string();
    }
    let ghost m = alerts.deep_view();
    let ghost base = core_url(*resolved);
    let mut parts: Vec<String> = Vec::new();
    let mut i: usize = alerts.len();
    while i > 0
        invariant
            i <= alerts@.len(),
            m == alerts.deep_view(),
            base == core_url(*resolved),
            text::texts(parts@) =~= Seq::new(
                (m.len() - i) as nat,
                |j: int| alert_item(m[m.len() - 1 - j], base),
            ),
        decreases i,
    {
        i -= 1;
        let ghost before = text::texts(parts@);
        assert(m[i as int] == alerts@[i as int].deep_view());
        let part = render_alert_item(&alerts[i], resolved);
        parts.push(part);
        assert(text::texts(parts@) =~= before.push(part@));
    }
    assert(text::texts(parts@) =~= Seq::new(
        m.len(),
        |j: int| alert_item(m[m.len() - 1 - j], base),
    ));
    text::join(&parts, "")
}

/// The start page.
pub open spec fn index_text(
    boards: Seq<BoardModel>,
    alerts: Seq<AlertModel>,
    attached: Seq<ProbeModel>,
    base_url: Option<Seq<char>>,
) -> Seq<char> {
    page_text(
        "<h2>Topology at a glance</h2>"@ + diagram_text(base_url, boards, attached)
            + "<h2>Enrolled boards (hardware topology)</h2><ul>"@ + board_items(boards)
            + "</ul>"@ + "<h2>Currently attached</h2>"@ + "<p>"@ + probe_items(attached)
            + "</p>"@ + "<p>To enroll a board: "@ + core_enroll_text(base_url) + "</p>"@
            + "<h2>Recent alerts</h2><ul>"@ + alert_items(alerts, base_url) + "</ul>"@,
    )
}

/// The start page: the diagram, the enrolled boards, the attached probes, where to
/// enroll, and the recent alerts.
pub fn index(
    boards: &Vec<EnrolledBoard>,
    alerts: &Vec<Alert>,
    attached: &Vec<AttachedProbe>,
    resolved: &ResolvedSoftwareTopology,
) -> (r: String)
    ensures
        r@ == index_text(
            boards.deep_view(),
            alerts.deep_view(),
            attached.deep_view(),
            core_url(*resolved),
        ),
{
    let mut body = "<h2>Topology at a glance</h2>".to_string();
    body.append(topology_diagram(resolved, boards, attached).as_str());
    body.append("<h2>Enrolled boards (hardware topology)</h2><ul>");
    body.append(render_boards(boards).as_str());
    body.append("</ul>");
    body.append("<h2>Currently attached</h2>");
    body.append("<p>");
    body.append(render_probes(attached).as_str());
    body.append("</p>");
    body.append("<p>To enroll a board: ");
    body.append(core_enroll_link(resolved).as_str());
    body.append("</p>");
    body.append("<h2>Recent alerts</h2><ul>");
    body.append(render_alerts(alerts, resolved).as_str());
    body.append("</ul>");
    page(body.as_str())
}

// ---- the page of one alert --------------------------------------------------------------

pub open spec fn has_id(id: Seq<char>) -> spec_fn(AlertModel) -> bool {
    |a: AlertModel| a.id == id
}

/// The alert with this id.
pub fn find_alert(alerts: &Vec<Alert>, id: &str) -> (r: Option<Alert>)
    ensures
        r.deep_view() == lists::first(alerts.deep_view(), has_id(id@)),
{
    let wanted = |a: &Alert| -> (x: bool)
        ensures
            x == has_id(id@)(a.deep_view())
    {
        text::same(a.id.as_str(), id)
    };
    let i: usize = lists::find_position(alerts, wanted, Ghost(has_id(id@)));
    if i < alerts.len() {
        Some(alerts[i].clone())
    } else {
        None
    }
}

pub open spec fn mismatch_page(
    id: Seq<char>,
    found: Option<AlertModel>,
    json: Seq<char>,
    base_url: Option<Seq<char>>,
) -> Seq<char> {
    page_text(
        match found {
            Some(a) => "<h2>Mismatch "@ + escaped(a.id) + "</h2>"@ + reenroll_text(
                "<p>"@,
                "Re-enroll "@,
                "</p>"@,
                a.role,
                base_url,
            ) + "<pre>"@ + escaped(json) + "</pre>"@,
            None => "<p>No alert with id "@ + escaped(id) + " in the durable log.</p>"@,
        },
    )
}

/// The page of the alert with this id, where there is one. `json` is that alert as
/// it is shown in full.
pub fn mismatch(
    id: &str,
    found: &Option<Alert>,
    json: &str,
    resolved: &ResolvedSoftwareTopology,
) -> (r: String)
    ensures
        r@ == mismatch_page(id@, found.deep_view(), json@, core_url(*resolved)),
{
    match found {
        Some(a) => {
            let mut body = "<h2>Mismatch ".to_string();
            body.append(html_escape(a.id.as_str()).as_str());
            body.append("</h2>");
            body.append(
                render_reenroll("<p>", "Re-enroll ", "</p>", a.role.as_str(), resolved).as_str(),
            );
            body.append("<pre>");
            body.append(html_escape(json).as_str());
            body.append("</pre>");
            page(body.as_str())
        },
        None => {
            let mut body = "<p>No alert with id ".to_string();
            body.append(html_escape(id).as_str());
            body.append(" in the durable log.</p>");
            page(body.as_str())
        },
    }
}

// ---- what the pages promise ----------------------------------------------------------------

/// Escaped text cannot open or close a tag or end a quoted attribute, and text
/// without a special character is unchanged.
pub proof fn law_escaped_text_is_inert(s: Seq<char>)
    ensures
        forall|i: int|
            0 <= i < escaped(s).len() ==> (#[trigger] escaped(s)[i]) != '<' && escaped(s)[i] != '>'
                && escaped(s)[i] != '"',
        (forall|i: int| 0 <= i < s.len() ==> entity(#[trigger] s[i]) == seq![s[i]]) ==> escaped(s)
            == s,
    decreases s.len(),
{
    if s.len() > 0 {
        let t = s.drop_last();
        law_escaped_text_is_inert(t);
        lemma_entity_is_inert(s.last());
        assert forall|i: int| 0 <= i < escaped(s).len() implies (#[trigger] escaped(s)[i]) != '<'
            && escaped(s)[i] != '>' && escaped(s)[i] != '"' by {
            let n = escaped(t).len() as int;
            if i < n {
                assert(escaped(s)[i] == escaped(t)[i]);
            } else {
                assert(escaped(s)[i] == entity(s.last())[i - n]);
            }
        }
        if forall|i: int| 0 <= i < s.len() ==> entity(#[trigger] s[i]) == seq![s[i]] {
            assert forall|i: int| 0 <= i < t.len() implies entity(#[trigger] t[i]) == seq![t[i]] by {
                assert(t[i] == s[i]);
            }
            assert(entity(s[s.len() - 1]) == seq![s.last()]);
            assert(escaped(s) =~= s);
        }
    } else {
        assert(escaped(s) =~= s);
    }
}

proof fn lemma_entity_is_inert(c: char)
    ensures
        forall|i: int|
            0 <= i < entity(c).len() ==> (#[trigger] entity(c)[i]) != '<' && entity(c)[i] != '>'
                && entity(c)[i] != '"',
{
    reveal_strlit("&amp;");
    reveal_strlit("&lt;");
    reveal_strlit("&gt;");
    reveal_strlit("&quot;");
}

/// A role's box is drawn as attached only for a board whose probe is attached; a
/// role without a board is drawn as not enrolled, whatever is attached.
pub proof fn law_box_shows_what_is_attached(
    row: Option<BoardModel>,
    attached: Seq<ProbeModel>,
)
    ensures
        box_style(row, attached).0 == "#eef8ee"@ <==> (row matches Some(b) && is_attached(
            b,
            attached,
        )),
        row is None ==> box_style(row, attached).2 == "not enrolled"@,
        row matches Some(b) && b.probe_serial is None ==> box_style(row, attached).0 == "#fdf6e3"@,
{
    reveal_strlit("#eef8ee");
    reveal_strlit("#fdf6e3");
    reveal_strlit("#f2f2f2");
    assert("#eef8ee"@[1] != "#fdf6e3"@[1]);
    assert("#eef8ee"@[1] != "#f2f2f2"@[1]);
}

// ---- what is on the pages -----------------------------------------------------------------

/// Escaping goes character by character: the four special ones become their entities, and
/// any other stays.
pub proof fn law_escaping_goes_by_character(a: Seq<char>, b: Seq<char>, c: char)
    ensures
        escaped(Seq::empty()) == Seq::<char>::empty(),
        escaped(a + b) == escaped(a) + escaped(b),
        escaped(seq!['&']) == "&amp;"@,
        escaped(seq!['<']) == "&lt;"@,
        escaped(seq!['>']) == "&gt;"@,
        escaped(seq!['"']) == "&quot;"@,
        c != '&' && c != '<' && c != '>' && c != '"' ==> escaped(seq![c]) == seq![c],
    decreases b.len(),
{
    lemma_escaped_one('&');
    lemma_escaped_one('<');
    lemma_escaped_one('>');
    lemma_escaped_one('"');
    lemma_escaped_one(c);
    if b.len() == 0 {
        assert(a + b =~= a);
        assert(escaped(a) + escaped(b) =~= escaped(a));
    } else {
        law_escaping_goes_by_character(a, b.drop_last(), c);
        assert((a + b).drop_last() =~= a + b.drop_last());
        assert(escaped(a + b) =~= escaped(a) + escaped(b));
    }
}

proof fn lemma_escaped_one(c: char)
    ensures
        escaped(seq![c]) == entity(c),
{
    assert(seq![c].drop_last() =~= Seq::<char>::empty());
    assert(escaped(Seq::<char>::empty()) + entity(c) =~= entity(c));
}

/// A board counts as attached exactly if it is enrolled with a probe and some attached
/// probe reports that very serial.
pub proof fn law_attached_is_the_enrolled_serial(board: BoardModel, attached: Seq<ProbeModel>)
    ensures
        is_attached(board, attached) <==> exists|i: int|
            0 <= i < attached.len() && board.probe_serial is Some && (
            #[trigger] attached[i]).serial_number is Some && attached[i].serial_number->0
                == board.probe_serial->0,
{
    if is_attached(board, attached) {
        let i = choose|i: int|
            0 <= i < attached.len() && (#[trigger] attached[i]).serial_number
                == board.probe_serial;
        assert(attached[i].serial_number is Some);
    }
}

/// A role's box is green for a board whose probe is attached, amber for one whose probe is
/// not, and grey where the role has no board; it names the board's chip, and says so where
/// the board is not attached.
pub proof fn law_box_is_drawn_by_what_is_there(board: BoardModel, attached: Seq<ProbeModel>)
    ensures
        box_style(None, attached) == ("#f2f2f2"@, "#999"@, "not enrolled"@),
        is_attached(board, attached) ==> box_style(Some(board), attached) == (
            "#eef8ee"@,
            "#070"@,
            "chip "@ + escaped(board.chip),
        ),
        !is_attached(board, attached) ==> box_style(Some(board), attached) == (
            "#fdf6e3"@,
            "#b8860b"@,
            "chip "@ + escaped(board.chip) + " — not attached"@,
        ),
{
}

/// A box has its role, its colours and its words in it, each in its place.
pub proof fn law_box_shows_its_role_and_words(
    role: Seq<char>,
    x: nat,
    style: (Seq<char>, Seq<char>, Seq<char>),
)
    ensures
        text::begins(
            box_text(role, x, style),
            "<rect x=\""@ + text::decimal(x)
                + "\" y=\"120\" width=\"170\" height=\"54\" rx=\"8\" fill=\""@ + style.0,
        ),
        text::occurs(
            box_text(role, x, style),
            "\" stroke-width=\"1.5\"/>\n<text x=\""@ + text::decimal(x + 85)
                + "\" y=\"142\" text-anchor=\"middle\" font-weight=\"bold\">"@,
        ),
        text::occurs(
            box_text(role, x, style),
            "</text>\n<text x=\""@ + text::decimal(x + 85)
                + "\" y=\"160\" text-anchor=\"middle\" font-size=\"11\">"@,
        ),
        text::occurs(
            box_text(role, x, style),
            "\" stroke=\""@ + style.1 + "\" stroke-width=\"1.5\"/>\n<text x=\""@,
        ),
        text::occurs(
            box_text(role, x, style),
            "\" y=\"142\" text-anchor=\"middle\" font-weight=\"bold\">"@ + role
                + "</text>\n<text x=\""@,
        ),
        text::occurs(
            box_text(role, x, style),
            "\" y=\"160\" text-anchor=\"middle\" font-size=\"11\">"@ + style.2 + "</text>"@,
        ),
{
    let cx = text::decimal(x + 85);
    let l0 = "<rect x=\""@;
    let l1 = "\" y=\"120\" width=\"170\" height=\"54\" rx=\"8\" fill=\""@;
    let l2 = "\" stroke=\""@;
    let l3 = "\" stroke-width=\"1.5\"/>\n<text x=\""@;
    let l4 = "\" y=\"142\" text-anchor=\"middle\" font-weight=\"bold\">"@;
    let l5 = "</text>\n<text x=\""@;
    let l6 = "\" y=\"160\" text-anchor=\"middle\" font-size=\"11\">"@;
    let l7 = "</text>"@;
    let a = l0 + text::decimal(x);
    let b = a + l1 + style.0 + l2;
    let c = b + style.1 + l3;
    let d = c + cx + l4 + role + l5;
    let e = d + cx + l6 + style.2 + l7;
    assert(e == box_text(role, x, style));
    let first = a + l1 + style.0;
    let rest = l2 + style.1 + l3 + cx + l4 + role + l5 + cx + l6 + style.2 + l7;
    assert(e =~= first + rest);
    text::law_beginning_is_going_on_from(e, first, rest);
    let n1 = l2 + style.1 + l3;
    let n2 = l4 + role + l5;
    let n3 = l3 + cx + l4;
    let n4 = l5 + cx + l6;
    text::lemma_occurs_row(d + cx, l6, style.2, l7);
    text::lemma_occurs_row(c + cx, l4, role, l5);
    text::lemma_occurs_row(a + l1 + style.0, l2, style.1, l3);
    text::lemma_occurs_row(b + style.1, l3, cx, l4);
    text::lemma_occurs_row(c + cx + l4 + role, l5, cx, l6);
    text::lemma_occurs_longer(c, cx, l4, n1);
    text::lemma_occurs_longer(c + cx + l4, role, l5, n1);
    text::lemma_occurs_longer(d, cx, l6, n1);
    text::lemma_occurs_longer(d + cx + l6, style.2, l7, n1);
    text::lemma_occurs_longer(d, cx, l6, n2);
    text::lemma_occurs_longer(d + cx + l6, style.2, l7, n2);
    text::lemma_occurs_longer(c + cx + l4, role, l5, n3);
    text::lemma_occurs_longer(d, cx, l6, n3);
    text::lemma_occurs_longer(d + cx + l6, style.2, l7, n3);
    text::lemma_occurs_longer(d + cx + l6, style.2, l7, n4);
}

/// The diagram shows where Core was found, or that it was not, in its own colours, and for
/// each of the two roles the box of the first board that holds it, or an empty one.
pub proof fn law_diagram_shows_core_and_both_roles(
    base_url: Option<Seq<char>>,
    boards: Seq<BoardModel>,
    attached: Seq<ProbeModel>,
    role: Seq<char>,
    k: int,
)
    requires
        role == "dev-bench"@ || role == "dut"@,
    ensures
        ({
            let d = diagram_text(base_url, boards, attached);
            let x: nat = if role == "dev-bench"@ {
                10
            } else {
                290
            };
            &&& base_url matches Some(base) ==> text::occurs(d, SVG_CORE@ + escaped(base) + SVG_LINES@)
                && text::begins(d, SVG_HEAD@ + "#eef8ee"@ + "\" stroke=\""@ + "#070"@)
            &&& base_url is None ==> text::occurs(d, SVG_CORE@ + "not reachable"@ + SVG_LINES@)
                && text::begins(d, SVG_HEAD@ + "#fdecec"@ + "\" stroke=\""@ + "#b00"@)
            &&& (0 <= k < boards.len() && boards[k].role == role && forall|i: int|
                0 <= i < k ==> (#[trigger] boards[i]).role != role) ==> text::occurs(
                d,
                box_text(role, x, box_style(Some(boards[k]), attached)),
            )
            &&& (forall|i: int| 0 <= i < boards.len() ==> (#[trigger] boards[i]).role != role)
                ==> text::occurs(d, box_text(role, x, box_style(None, attached)))
        }),
{
    enrollment::law_lookups_find_the_first_row(boards, role, k);
    let d = diagram_text(base_url, boards, attached);
    let fill = if base_url is Some {
        "#eef8ee"@
    } else {
        "#fdecec"@
    };
    let stroke = if base_url is Some {
        "#070"@
    } else {
        "#b00"@
    };
    let label = match base_url {
        Some(base) => escaped(base),
        None => "not reachable"@,
    };
    let dev_bench = box_text(
        DEV_BENCH_ROLE@,
        10,
        box_style(lists::first(boards, enrollment::holds(DEV_BENCH_ROLE@)), attached),
    );
    let dut = box_text(
        DUT_ROLE@,
        290,
        box_style(lists::first(boards, enrollment::holds(DUT_ROLE@)), attached),
    );
    let head = SVG_HEAD@ + fill + "\" stroke=\""@ + stroke;
    let core = SVG_CORE@ + label + SVG_LINES@;
    let upper = head + SVG_CORE@ + label + SVG_LINES@;
    assert(d == upper + dev_bench + "\n"@ + dut + SVG_TAIL@);
    text::lemma_occurs_row(head, SVG_CORE@, label, SVG_LINES@);
    text::lemma_occurs_longer(upper, dev_bench, "\n"@, core);
    text::lemma_occurs_longer(upper + dev_bench + "\n"@, dut, SVG_TAIL@, core);
    text::lemma_occurs_between(upper, dev_bench, "\n"@);
    text::lemma_occurs_longer(upper + dev_bench + "\n"@, dut, SVG_TAIL@, dev_bench);
    text::lemma_occurs_between(upper + dev_bench + "\n"@, dut, SVG_TAIL@);
    let more = SVG_CORE@ + label + SVG_LINES@ + dev_bench + "\n"@ + dut + SVG_TAIL@;
    assert(d =~= head + more);
    text::law_beginning_is_going_on_from(d, head, more);
    reveal_strlit("dev-bench");
    reveal_strlit("dut");
    assert("dev-bench"@.len() != "dut"@.len());
}

/// A link to enroll is Core's URL and its page for that, with the role where one is given.
pub proof fn law_enroll_link_goes_to_core(base_url: Seq<char>, role: Seq<char>)
    ensures
        enroll_href(base_url, None) == base_url + "/enroll"@,
        enroll_href(base_url, Some(role)) == base_url + "/enroll?role="@ + role,
        core_enroll_text(Some(base_url)) == "<a href=\""@ + (base_url + "/enroll"@) + "\">"@ + (
        base_url + "/enroll"@) + "</a>"@,
        core_enroll_text(None) == CORE_UNREACHABLE@,
{
}

/// The item of a board tells its role, its chip, its probe and its identity, escaped, each
/// behind its own label; one that is missing is told as none.
pub proof fn law_board_item_tells_the_row(b: BoardModel)
    ensures
        ({
            let probe = match b.probe_serial {
                Some(s) => s,
                None => "none"@,
            };
            let id = match b.hardware_id {
                Some(s) => s,
                None => "none"@,
            };
            &&& text::occurs(board_item(b), "<li>role <b>"@ + escaped(b.role) + "</b> — chip "@)
            &&& text::occurs(board_item(b), "</b> — chip "@ + escaped(b.chip) + " — probe "@)
            &&& text::occurs(board_item(b), " — probe "@ + escaped(probe) + " — hardware_id "@)
            &&& text::occurs(board_item(b), " — hardware_id "@ + escaped(id) + "</li>"@)
        }),
{
    let (l0, l1, l2, l3, l4) = (
        "<li>role <b>"@,
        "</b> — chip "@,
        " — probe "@,
        " — hardware_id "@,
        "</li>"@,
    );
    let (role, chip) = (escaped(b.role), escaped(b.chip));
    let probe = escaped(text::or_none(b.probe_serial));
    let id = escaped(text::or_none(b.hardware_id));
    assert(board_item(b) == l0 + role + l1 + chip + l2 + probe + l3 + id + l4);
    text::lemma_occurs_row(Seq::empty(), l0, role, l1);
    assert(Seq::empty() + l0 =~= l0);
    text::lemma_occurs_row(l0 + role, l1, chip, l2);
    text::lemma_occurs_row(l0 + role + l1 + chip, l2, probe, l3);
    text::lemma_occurs_row(l0 + role + l1 + chip + l2 + probe, l3, id, l4);
    let n0 = l0 + role + l1;
    let n1 = l1 + chip + l2;
    let n2 = l2 + probe + l3;
    text::lemma_occurs_longer(l0 + role + l1, chip, l2, n0);
    text::lemma_occurs_longer(l0 + role + l1 + chip + l2, probe, l3, n0);
    text::lemma_occurs_longer(l0 + role + l1 + chip + l2, probe, l3, n1);
    text::lemma_occurs_longer(l0 + role + l1 + chip + l2 + probe + l3, id, l4, n0);
    text::lemma_occurs_longer(l0 + role + l1 + chip + l2 + probe + l3, id, l4, n1);
    text::lemma_occurs_longer(l0 + role + l1 + chip + l2 + probe + l3, id, l4, n2);
}

/// The boards are listed one after the other in table order, the probes too, and the
/// alerts from the newest to the oldest. An empty list is told in words.
pub proof fn law_lists_are_in_order(
    boards: Seq<BoardModel>,
    b: BoardModel,
    attached: Seq<ProbeModel>,
    p: ProbeModel,
    alerts: Seq<AlertModel>,
    a: AlertModel,
    base_url: Option<Seq<char>>,
)
    ensures
        board_items(Seq::empty()) == "<li><i>none enrolled yet</i></li>"@,
        board_items(seq![b]) == board_item(b),
        boards.len() > 0 ==> board_items(boards.push(b)) == board_items(boards) + board_item(b),
        probe_items(Seq::empty()) == "<i>no debug probes detected</i>"@,
        probe_items(seq![p]) == probe_item(p),
        attached.len() > 0 ==> probe_items(attached.push(p)) == probe_items(attached) + ", "@
            + probe_item(p),
        alert_items(Seq::empty(), base_url) == "<li><i>none logged</i></li>"@,
        alert_items(seq![a], base_url) == alert_item(a, base_url),
        alerts.len() > 0 ==> alert_items(alerts.push(a), base_url) == alert_item(a, base_url)
            + alert_items(alerts, base_url),
{
    let one_board = Seq::new(1, |i: int| board_item(seq![b][i]));
    assert(one_board =~= seq![board_item(b)]);
    let one_probe = Seq::new(1, |i: int| probe_item(seq![p][i]));
    assert(one_probe =~= seq![probe_item(p)]);
    let one_alert = Seq::new(1, |i: int| alert_item(seq![a][1 - 1 - i], base_url));
    assert(one_alert =~= seq![alert_item(a, base_url)]);
    reveal_strlit("");
    if boards.len() > 0 {
        let parts = Seq::new(boards.len(), |i: int| board_item(boards[i]));
        let all = Seq::new(boards.push(b).len(), |i: int| board_item(boards.push(b)[i]));
        assert(all.drop_last() =~= parts);
        assert(all.last() == board_item(b));
        assert(board_items(boards.push(b)) =~= board_items(boards) + board_item(b));
    }
    if attached.len() > 0 {
        let parts = Seq::new(attached.len(), |i: int| probe_item(attached[i]));
        let all = Seq::new(attached.push(p).len(), |i: int| probe_item(attached.push(p)[i]));
        assert(all.drop_last() =~= parts);
        assert(all.last() == probe_item(p));
    }
    if alerts.len() > 0 {
        let more = alerts.push(a);
        let parts = Seq::new(
            alerts.len(),
            |i: int| alert_item(alerts[alerts.len() - 1 - i], base_url),
        );
        let all = Seq::new(more.len(), |i: int| alert_item(more[more.len() - 1 - i], base_url));
        assert(all =~= seq![alert_item(a, base_url)] + parts);
        text::law_joining_goes_part_by_part(
            seq![alert_item(a, base_url)],
            parts,
            ""@,
            alert_item(a, base_url),
        );
        assert(alert_items(more, base_url) =~= alert_item(a, base_url) + alert_items(
            alerts,
            base_url,
        ));
    }
}

/// A probe is told by its identifier and its serial, where it has one; an alert by a link
/// to its page, its time, its role and its reason; and, where Core was found, by a way to
/// enroll that very role again. All of it is escaped.
pub proof fn law_items_tell_what_they_list(
    p: ProbeModel,
    a: AlertModel,
    base_url: Option<Seq<char>>,
)
    ensures
        ({
            let serial = match p.serial_number {
                Some(s) => s,
                None => "none"@,
            };
            let item = alert_item(a, base_url);
            &&& probe_item(p) == escaped(p.identifier) + " (serial "@ + escaped(serial) + ")"@
            &&& text::occurs(
                item,
                "<li><a href=\"/mismatch/"@ + escaped(a.id) + "\">"@,
            )
            &&& text::occurs(
                item,
                "\">"@ + text::decimal(a.occurred_at_utc_ms as nat) + "</a> — role "@,
            )
            &&& text::occurs(item, "</a> — role "@ + escaped(a.role) + " — "@)
            &&& text::occurs(item, " — "@ + escaped(a.reason) + reenroll_text(
                " — "@,
                "re-enroll "@,
                ""@,
                a.role,
                base_url,
            ))
        }),
{
    let (l0, l1, l2, l3, l4) = (
        "<li><a href=\"/mismatch/"@,
        "\">"@,
        "</a> — role "@,
        " — "@,
        "</li>"@,
    );
    let id = escaped(a.id);
    let time = text::decimal(a.occurred_at_utc_ms as nat);
    let role = escaped(a.role);
    let reason = escaped(a.reason);
    let again = reenroll_text(" — "@, "re-enroll "@, ""@, a.role, base_url);
    let item = alert_item(a, base_url);
    let x = l0 + id + l1;
    let y = x + time + l2;
    let z = y + role + l3;
    let w = z + reason + again;
    assert(item == w + l4);
    text::lemma_occurs_row(Seq::empty(), l0, id, l1);
    assert(Seq::empty() + l0 =~= l0);
    text::lemma_occurs_row(l0 + id, l1, time, l2);
    text::lemma_occurs_row(x + time, l2, role, l3);
    text::lemma_occurs_row(y + role, l3, reason, again);
    text::lemma_occurs_longer(x, time, l2, x);
    text::lemma_occurs_longer(y, role, l3, x);
    text::lemma_occurs_longer(z, reason, again, x);
    text::lemma_occurs_before(w, l4, x);
    let n1 = l1 + time + l2;
    text::lemma_occurs_longer(y, role, l3, n1);
    text::lemma_occurs_longer(z, reason, again, n1);
    text::lemma_occurs_before(w, l4, n1);
    let n2 = l2 + role + l3;
    text::lemma_occurs_longer(z, reason, again, n2);
    text::lemma_occurs_before(w, l4, n2);
    text::lemma_occurs_before(w, l4, l3 + reason + again);
}

/// Enrolling again is offered exactly where Core was found, at Core, for the role that is
/// meant.
pub proof fn law_enrolling_again_is_offered_where_core_is(
    before: Seq<char>,
    label: Seq<char>,
    after: Seq<char>,
    role: Seq<char>,
    base: Seq<char>,
)
    ensures
        reenroll_text(before, label, after, role, None).len() == 0,
        reenroll_text(before, label, after, role, Some(base)) == before + "<a href=\""@ + escaped(
            base + "/enroll?role="@ + role,
        ) + "\">"@ + label + escaped(role) + "</a>"@ + after,
{
}

/// The start page holds the diagram, an item for every enrolled board, for every attached
/// probe and for every alert, and where to enroll.
pub proof fn law_start_page_holds_everything(
    boards: Seq<BoardModel>,
    alerts: Seq<AlertModel>,
    attached: Seq<ProbeModel>,
    base_url: Option<Seq<char>>,
)
    ensures
        ({
            let page = index_text(boards, alerts, attached, base_url);
            &&& text::occurs(page, diagram_text(base_url, boards, attached))
            &&& text::occurs(page, core_enroll_text(base_url))
            &&& text::occurs(page, board_items(boards))
            &&& text::occurs(page, probe_items(attached))
            &&& text::occurs(page, alert_items(alerts, base_url))
            &&& forall|i: int|
                0 <= i < boards.len() ==> text::occurs(page, board_item(#[trigger] boards[i]))
            &&& forall|i: int|
                0 <= i < attached.len() ==> text::occurs(page, probe_item(#[trigger] attached[i]))
            &&& forall|i: int|
                0 <= i < alerts.len() ==> text::occurs(
                    page,
                    alert_item(#[trigger] alerts[i], base_url),
                )
        }),
{
    let page = index_text(boards, alerts, attached, base_url);
    let d = diagram_text(base_url, boards, attached);
    let (bs, ps, als) = (board_items(boards), probe_items(attached), alert_items(alerts, base_url));
    let e = core_enroll_text(base_url);
    let l0 = "<h2>Topology at a glance</h2>"@;
    let l1 = "<h2>Enrolled boards (hardware topology)</h2><ul>"@;
    let l2 = "</ul>"@;
    let l3 = "<h2>Currently attached</h2>"@;
    let l4 = "<p>"@;
    let l5 = "</p>"@;
    let l6 = "<p>To enroll a board: "@;
    let l7 = "<h2>Recent alerts</h2><ul>"@;
    let b1 = l0 + d + l1;
    let b2 = b1 + bs + l2;
    let b3 = b2 + l3 + l4;
    let b4 = b3 + ps + l5;
    let b5 = b4 + l6;
    let b6 = b5 + e + l5;
    let b7 = b6 + l7;
    let body = b7 + als + l2;
    assert(page == PAGE_HEAD@ + body + PAGE_TAIL@);
    text::lemma_occurs_between(l0, d, l1);
    text::lemma_occurs_longer(b1, bs, l2, d);
    text::lemma_occurs_longer(b2, l3, l4, d);
    text::lemma_occurs_longer(b3, ps, l5, d);
    text::lemma_occurs_before(b4, l6, d);
    text::lemma_occurs_longer(b5, e, l5, d);
    text::lemma_occurs_before(b6, l7, d);
    text::lemma_occurs_longer(b7, als, l2, d);
    text::lemma_occurs_inside(PAGE_HEAD@, body, PAGE_TAIL@, d);
    text::lemma_occurs_between(b1, bs, l2);
    text::lemma_occurs_longer(b2, l3, l4, bs);
    text::lemma_occurs_longer(b3, ps, l5, bs);
    text::lemma_occurs_before(b4, l6, bs);
    text::lemma_occurs_longer(b5, e, l5, bs);
    text::lemma_occurs_before(b6, l7, bs);
    text::lemma_occurs_longer(b7, als, l2, bs);
    text::lemma_occurs_inside(PAGE_HEAD@, body, PAGE_TAIL@, bs);
    text::lemma_occurs_between(b3, ps, l5);
    text::lemma_occurs_before(b4, l6, ps);
    text::lemma_occurs_longer(b5, e, l5, ps);
    text::lemma_occurs_before(b6, l7, ps);
    text::lemma_occurs_longer(b7, als, l2, ps);
    text::lemma_occurs_inside(PAGE_HEAD@, body, PAGE_TAIL@, ps);
    text::lemma_occurs_between(b5, e, l5);
    text::lemma_occurs_before(b6, l7, e);
    text::lemma_occurs_longer(b7, als, l2, e);
    text::lemma_occurs_inside(PAGE_HEAD@, body, PAGE_TAIL@, e);
    text::lemma_occurs_between(b7, als, l2);
    text::lemma_occurs_inside(PAGE_HEAD@, body, PAGE_TAIL@, als);
    assert forall|i: int| 0 <= i < boards.len() implies text::occurs(
        page,
        board_item(#[trigger] boards[i]),
    ) by {
        let parts = Seq::new(boards.len(), |i: int| board_item(boards[i]));
        text::lemma_part_occurs(parts, ""@, i);
        text::lemma_occurs_trans(page, bs, board_item(boards[i]));
    }
    assert forall|i: int| 0 <= i < attached.len() implies text::occurs(
        page,
        probe_item(#[trigger] attached[i]),
    ) by {
        let parts = Seq::new(attached.len(), |i: int| probe_item(attached[i]));
        text::lemma_part_occurs(parts, ", "@, i);
        text::lemma_occurs_trans(page, ps, probe_item(attached[i]));
    }
    assert forall|i: int| 0 <= i < alerts.len() implies text::occurs(
        page,
        alert_item(#[trigger] alerts[i], base_url),
    ) by {
        let parts = Seq::new(
            alerts.len(),
            |i: int| alert_item(alerts[alerts.len() - 1 - i], base_url),
        );
        let j = alerts.len() - 1 - i;
        assert(parts[j] == alert_item(alerts[i], base_url));
        text::lemma_part_occurs(parts, ""@, j);
        text::lemma_occurs_trans(page, als, alert_item(alerts[i], base_url));
    }
}

/// An alert is found by its very id, the first that has it, and not where none has.
pub proof fn law_id_finds_the_first_alert_that_has_it(
    alerts: Seq<AlertModel>,
    id: Seq<char>,
    k: int,
)
    ensures
        (0 <= k < alerts.len() && alerts[k].id == id && forall|i: int|
            0 <= i < k ==> (#[trigger] alerts[i]).id != id) ==> lists::first(alerts, has_id(id))
            == Some(alerts[k]),
        lists::first(alerts, has_id(id)) is None <==> forall|i: int|
            0 <= i < alerts.len() ==> (#[trigger] alerts[i]).id != id,
{
    let p = has_id(id);
    lists::lemma_position(alerts, p);
    if 0 <= k < alerts.len() && alerts[k].id == id && forall|i: int|
        0 <= i < k ==> (#[trigger] alerts[i]).id != id {
        lists::lemma_position_is(alerts, p, k);
    }
    if lists::first(alerts, p) is None {
        assert forall|i: int| 0 <= i < alerts.len() implies (#[trigger] alerts[i]).id != id by {
            assert(!p(alerts[i]));
        }
    } else {
        assert(p(alerts[lists::position(alerts, p) as int]));
    }
}

/// The page of an alert shows its id and the alert in full, and offers to enroll its role
/// again where Core was found; a page for no alert says which id was asked for.
pub proof fn law_mismatch_page_shows_the_alert(
    id: Seq<char>,
    a: AlertModel,
    json: Seq<char>,
    base_url: Option<Seq<char>>,
)
    ensures
        text::occurs(
            mismatch_page(id, Some(a), json, base_url),
            "<h2>Mismatch "@ + escaped(a.id) + "</h2>"@,
        ),
        text::occurs(
            mismatch_page(id, Some(a), json, base_url),
            "<pre>"@ + escaped(json) + "</pre>"@,
        ),
        base_url matches Some(base) ==> text::occurs(
            mismatch_page(id, Some(a), json, base_url),
            "<a href=\""@ + escaped(base + "/enroll?role="@ + a.role) + "\">"@,
        ),
        text::occurs(
            mismatch_page(id, None, json, base_url),
            "<p>No alert with id "@ + escaped(id) + " in the durable log.</p>"@,
        ),
{
    let (l0, l1, l2, l3) = ("<h2>Mismatch "@, "</h2>"@, "<pre>"@, "</pre>"@);
    let again = reenroll_text("<p>"@, "Re-enroll "@, "</p>"@, a.role, base_url);
    let title = l0 + escaped(a.id) + l1;
    let body = title + again + l2 + escaped(json) + l3;
    let shown = l2 + escaped(json) + l3;
    assert(mismatch_page(id, Some(a), json, base_url) == PAGE_HEAD@ + body + PAGE_TAIL@);
    text::lemma_occurs_row(title + again, l2, escaped(json), l3);
    text::lemma_occurs_inside(PAGE_HEAD@, body, PAGE_TAIL@, shown);
    text::lemma_occurs_row(Seq::empty(), l0, escaped(a.id), l1);
    assert(Seq::empty() + l0 =~= l0);
    text::lemma_occurs_longer(title, again, l2, title);
    text::lemma_occurs_longer(title + again + l2, escaped(json), l3, title);
    text::lemma_occurs_inside(PAGE_HEAD@, body, PAGE_TAIL@, title);
    if let Some(base) = base_url {
        let href = escaped(base + "/enroll?role="@ + a.role);
        let n = "<a href=\""@ + href + "\">"@;
        let o = "<p>"@ + "<a href=\""@ + href + "\">"@;
        assert(again == o + "Re-enroll "@ + escaped(a.role) + "</a>"@ + "</p>"@);
        text::lemma_occurs_row("<p>"@, "<a href=\""@, href, "\">"@);
        text::lemma_occurs_longer(o, "Re-enroll "@, escaped(a.role), n);
        text::lemma_occurs_longer(o + "Re-enroll "@ + escaped(a.role), "</a>"@, "</p>"@, n);
        text::lemma_occurs_inside(title, again, l2, n);
        text::lemma_occurs_longer(title + again + l2, escaped(json), l3, n);
        text::lemma_occurs_inside(PAGE_HEAD@, body, PAGE_TAIL@, n);
    }
    let none = "<p>No alert with id "@ + escaped(id) + " in the durable log.</p>"@;
    text::lemma_occurs_between(PAGE_HEAD@, none, PAGE_TAIL@);
}

} // verus!
