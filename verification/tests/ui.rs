use embarch_topology::hardware::alert::Alert;
use embarch_topology::hardware::enrollment::EnrolledBoard;
use embarch_topology::hardware::port::DEV_BENCH_ROLE;
use embarch_topology::hardware::validate::AttachedProbe;
use embarch_topology::software::{Candidate, ResolvedSoftwareTopology, TopologyClass};
use embarch_topology::ui::{
    core_enroll_link, enroll_link, find_alert, html_escape, index, mismatch, page, role_attached,
    topology_diagram,
};

fn board(role: &str, probe_serial: &str) -> EnrolledBoard {
    EnrolledBoard {
        probe_serial: Some(probe_serial.to_string()),
        role: role.to_string(),
        name: String::new(),
        chip: "nRF54L15".to_string(),
        hardware_id: Some("0xdeadbeef".to_string()),
        confirmed_at_utc_ms: Some(0),
        link_port_serial: None,
        link_port_interface: None,
    }
}

fn attached(serial: &str) -> AttachedProbe {
    AttachedProbe {
        identifier: "J-Link".to_string(),
        vendor_id: 0x1366,
        product_id: 0x0105,
        serial_number: Some(serial.to_string()),
    }
}

#[test]
fn enroll_link_without_role_is_bare() {
    assert_eq!(enroll_link("http://127.0.0.1:4884", None), "http://127.0.0.1:4884/enroll");
}

#[test]
fn enroll_link_with_role_prefills_the_query_param() {
    assert_eq!(
        enroll_link("http://127.0.0.1:4884", Some("dev-bench")),
        "http://127.0.0.1:4884/enroll?role=dev-bench"
    );
}

#[test]
fn role_attached_true_when_a_probe_serial_matches() {
    let b = board("dut", "12345");
    assert!(role_attached(&b, &vec![attached("00000"), attached("12345")]));
}

#[test]
fn role_attached_false_when_no_probe_serial_matches() {
    let b = board("dut", "12345");
    assert!(!role_attached(&b, &vec![attached("00000")]));
}

#[test]
fn role_attached_false_with_nothing_attached() {
    let b = board("dut", "12345");
    assert!(!role_attached(&b, &vec![]));
}

fn unresolved() -> ResolvedSoftwareTopology {
    ResolvedSoftwareTopology { winner: None, attempts: vec![] }
}

fn resolved(base_url: &str) -> ResolvedSoftwareTopology {
    ResolvedSoftwareTopology {
        winner: Some(Candidate {
            class: TopologyClass::Local,
            base_url: base_url.to_string(),
        }),
        attempts: vec![],
    }
}

#[test]
fn diagram_shows_core_unreachable_and_both_roles_unenrolled() {
    let svg = topology_diagram(&unresolved(), &vec![], &vec![]);
    assert!(svg.contains("not reachable"));
    assert!(svg.contains(r##"fill="#fdecec""##));
    assert!(svg.matches("not enrolled").count() == 2);
    assert!(svg.matches(r##"fill="#f2f2f2""##).count() >= 2);
}

#[test]
fn diagram_shows_an_attached_enrolled_role_as_green() {
    let b = board(DEV_BENCH_ROLE, "12345");
    let svg =
        topology_diagram(&resolved("http://127.0.0.1:4884"), &vec![b], &vec![attached("12345")]);
    assert!(svg.contains("http://127.0.0.1:4884"));
    assert!(svg.contains("chip nRF54L15"));
    assert!(svg.contains(r##"fill="#eef8ee""##));
    assert!(!svg.contains("not attached"));
}

#[test]
fn diagram_shows_an_enrolled_but_unattached_role_as_amber() {
    let b = board("dut", "12345");
    let svg = topology_diagram(&resolved("http://127.0.0.1:4884"), &vec![b], &vec![]);
    assert!(svg.contains("not attached"));
    assert!(svg.contains(r##"fill="#fdf6e3""##));
}

// ---- to the letter -----------------------------------------------------------------

#[test]
fn the_diagram_is_drawn_to_the_letter() {
    let svg = topology_diagram(&unresolved(), &vec![board("dut", "1")], &vec![]);
    assert_eq!(
        svg,
        r##"<svg viewBox="0 0 460 200" width="460" height="200" style="font-family:monospace;font-size:12px">
<rect x="10" y="20" width="150" height="50" rx="8" fill="#f2f2f2" stroke="#666" stroke-width="1.5"/>
<text x="85" y="50" text-anchor="middle">this UI process</text>
<line x1="160" y1="45" x2="230" y2="45" stroke="#666" stroke-width="1.5" marker-end="url(#arrow)"/>
<rect x="230" y="20" width="220" height="50" rx="8" fill="#fdecec" stroke="#b00" stroke-width="1.5"/>
<text x="340" y="42" text-anchor="middle" font-weight="bold">embarch-core</text>
<text x="340" y="60" text-anchor="middle" font-size="11">not reachable</text>
<line x1="340" y1="70" x2="180" y2="120" stroke="#666" stroke-width="1.5" marker-end="url(#arrow)"/>
<line x1="340" y1="70" x2="380" y2="120" stroke="#666" stroke-width="1.5" marker-end="url(#arrow)"/>
<rect x="10" y="120" width="170" height="54" rx="8" fill="#f2f2f2" stroke="#999" stroke-width="1.5"/>
<text x="95" y="142" text-anchor="middle" font-weight="bold">dev-bench</text>
<text x="95" y="160" text-anchor="middle" font-size="11">not enrolled</text>
<rect x="290" y="120" width="170" height="54" rx="8" fill="#fdf6e3" stroke="#b8860b" stroke-width="1.5"/>
<text x="375" y="142" text-anchor="middle" font-weight="bold">dut</text>
<text x="375" y="160" text-anchor="middle" font-size="11">chip nRF54L15 — not attached</text>
<defs><marker id="arrow" viewBox="0 0 10 10" refX="8" refY="5" markerWidth="6" markerHeight="6" orient="auto-start-reverse">
<path d="M0 0L10 5L0 10z" fill="#666"/></marker></defs>
</svg>"##
    );
}

#[test]
fn a_page_wraps_its_body() {
    assert_eq!(
        page("<p>x</p>"),
        "<!doctype html><html><head><title>embarch-topology</title>\
         <meta charset=\"utf-8\"></head><body style=\"font-family:monospace;max-width:60rem;\
         margin:2rem auto\"><h1>embarch-topology</h1><p>x</p><script>const es = new \
         EventSource('/events');es.onmessage = (e) => { const div = \
         document.createElement('pre'); div.textContent = 'LIVE ALERT: ' + e.data; \
         div.style.color = 'red'; document.body.prepend(div); };</script></body></html>"
    );
}

#[test]
fn special_characters_are_escaped_once() {
    assert_eq!(html_escape("a<b>&\"c\"&lt;"), "a&lt;b&gt;&amp;&quot;c&quot;&amp;lt;");
    assert_eq!(html_escape("plain 'text' é"), "plain 'text' é");
    assert_eq!(html_escape(""), "");
}

#[test]
fn the_enroll_link_needs_core() {
    assert_eq!(
        core_enroll_link(&resolved("http://h:1")),
        "<a href=\"http://h:1/enroll\">http://h:1/enroll</a>"
    );
    assert_eq!(
        core_enroll_link(&unresolved()),
        "<i>embarch-core not reachable right now — its own `/enroll` page is where boards get \
         enrolled</i>"
    );
}

#[test]
fn a_board_without_a_probe_is_not_attached() {
    let mut b = board("dut", "1");
    b.probe_serial = None;
    let mut p = attached("1");
    p.serial_number = None;
    assert!(!role_attached(&b, &vec![p]));
}

fn alert(id: &str, ms: u64) -> Alert {
    Alert {
        id: id.to_string(),
        occurred_at_utc_ms: ms,
        role: "d&t".to_string(),
        probe_serial: "1".to_string(),
        chip: "c".to_string(),
        recorded_hardware_id: "r".to_string(),
        live_hardware_id: None,
        reason: "a<b".to_string(),
    }
}

#[test]
fn the_start_page_lists_what_there_is() {
    let boards = vec![board("dut", "<1>")];
    let mut nameless = attached("x");
    nameless.serial_number = None;
    let probes = vec![attached("s"), nameless];
    let alerts = vec![alert("1-1", 10), alert("2-1", 20)];
    let html = index(&boards, &alerts, &probes, &resolved("http://h:1"));
    assert!(html.contains(
        "<h2>Enrolled boards (hardware topology)</h2><ul><li>role <b>dut</b> — chip nRF54L15 — \
         probe &lt;1&gt; — hardware_id 0xdeadbeef</li></ul><h2>Currently attached</h2><p>J-Link \
         (serial s), J-Link (serial none)</p><p>To enroll a board: <a \
         href=\"http://h:1/enroll\">http://h:1/enroll</a></p><h2>Recent alerts</h2><ul><li><a \
         href=\"/mismatch/2-1\">20</a> — role d&amp;t — a&lt;b — <a \
         href=\"http://h:1/enroll?role=d&amp;t\">re-enroll d&amp;t</a></li><li><a \
         href=\"/mismatch/1-1\">10</a> — role d&amp;t — a&lt;b — <a \
         href=\"http://h:1/enroll?role=d&amp;t\">re-enroll d&amp;t</a></li></ul><script>"
    ));
}

#[test]
fn the_start_page_says_what_is_missing() {
    let html = index(&Vec::new(), &vec![alert("1-1", 10)], &Vec::new(), &unresolved());
    assert!(html.contains("<li><i>none enrolled yet</i></li>"));
    assert!(html.contains("<p><i>no debug probes detected</i></p>"));
    assert!(html.contains(
        "<li><a href=\"/mismatch/1-1\">10</a> — role d&amp;t — a&lt;b</li></ul><script>"
    ));
    let html = index(&Vec::new(), &Vec::new(), &Vec::new(), &unresolved());
    assert!(html.contains("<h2>Recent alerts</h2><ul><li><i>none logged</i></li></ul>"));
    assert!(html.contains("<body style=\"font-family:monospace;max-width:60rem;margin:2rem auto\">\
                           <h1>embarch-topology</h1><h2>Topology at a glance</h2><svg"));
}

#[test]
fn an_alert_has_a_page_of_its_own() {
    let alerts = vec![alert("1-1", 10), alert("2-1", 20)];
    let found = find_alert(&alerts, "2-1");
    assert_eq!(found, Some(alerts[1].clone()));
    assert_eq!(
        mismatch("2-1", &found, "{\"a\": 1}", &resolved("http://h:1")),
        page(
            "<h2>Mismatch 2-1</h2><p><a href=\"http://h:1/enroll?role=d&amp;t\">Re-enroll \
             d&amp;t</a></p><pre>{&quot;a&quot;: 1}</pre>"
        )
    );
    assert_eq!(
        mismatch("2-1", &found, "{}", &unresolved()),
        page("<h2>Mismatch 2-1</h2><pre>{}</pre>")
    );
    assert_eq!(find_alert(&alerts, "3"), None);
    assert_eq!(
        mismatch("<3>", &None, "", &unresolved()),
        page("<p>No alert with id &lt;3&gt; in the durable log.</p>")
    );
}
