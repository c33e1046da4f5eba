use embarch_topology::software::{
    candidates, classify_status, detect_wsl2, next_candidate, parse_default_gateway, places,
    recommended_bind_address, resolve, resolve_software_topology, winner, Attempt, Candidate,
    ProbeOutcome, ResolvedSoftwareTopology, TopologyClass, DEFAULT_CORE_PORT,
};
use embarch_topology::wsl2;

fn urls(c: &[Candidate]) -> Vec<&str> {
    c.iter().map(|c| c.base_url.as_str()).collect()
}

#[test]
fn plain_machine_gets_loopback_only() {
    let c = candidates(false, None, None, 4884);
    assert_eq!(urls(&c), ["http://127.0.0.1:4884"]);
    assert_eq!(c[0].class, TopologyClass::Local);
}

#[test]
fn gateway_is_ignored_when_not_under_wsl2() {
    let c = candidates(false, Some("192.168.1.1"), None, 4884);
    assert_eq!(urls(&c), ["http://127.0.0.1:4884"]);
}

#[test]
fn wsl2_adds_the_gateway_after_loopback() {
    let c = candidates(true, Some("172.22.128.1"), None, 4884);
    assert_eq!(urls(&c), ["http://127.0.0.1:4884", "http://172.22.128.1:4884"]);
    assert_eq!(c[1].class, TopologyClass::WslHost);
}

#[test]
fn wsl2_without_a_gateway_still_tries_loopback() {
    assert_eq!(urls(&candidates(true, None, None, 4884)).len(), 1);
    assert_eq!(urls(&candidates(true, Some("   "), None, 4884)).len(), 1);
}

#[test]
fn explicit_host_goes_last() {
    let c = candidates(true, Some("172.22.128.1"), Some("bench.local"), 4884);
    assert_eq!(
        urls(&c),
        ["http://127.0.0.1:4884", "http://172.22.128.1:4884", "http://bench.local:4884"]
    );
    assert_eq!(c[2].class, TopologyClass::Remote);
}

#[test]
fn duplicate_urls_are_dropped_keeping_the_earliest() {
    let c = candidates(true, Some("127.0.0.1"), Some("127.0.0.1"), 4884);
    assert_eq!(urls(&c), ["http://127.0.0.1:4884"]);
    assert_eq!(c[0].class, TopologyClass::Local);
}

#[test]
fn port_is_honored() {
    let c = candidates(false, None, None, 9999);
    assert_eq!(urls(&c), ["http://127.0.0.1:9999"]);
}

#[test]
fn status_classification() {
    assert_eq!(classify_status(200), ProbeOutcome::Core { authorized: true });
    assert_eq!(classify_status(401), ProbeOutcome::Core { authorized: false });
    assert_eq!(classify_status(404), ProbeOutcome::NotCore { status: 404 });
    assert_eq!(classify_status(500), ProbeOutcome::NotCore { status: 500 });
}

#[test]
fn resolve_stops_at_the_first_core() {
    let c = candidates(true, Some("172.22.128.1"), Some("bench.local"), 4884);
    let attempts = resolve(&c, |url: String| match url.as_str() {
        "http://127.0.0.1:4884" => ProbeOutcome::Unreachable,
        _ => ProbeOutcome::Core { authorized: false },
    });

    assert_eq!(attempts.len(), 2, "must not probe past the first hit");
    let w = winner(&attempts).expect("gateway should have won");
    assert_eq!(w.candidate.class, TopologyClass::WslHost);
    assert_eq!(w.outcome, ProbeOutcome::Core { authorized: false });
}

#[test]
fn a_non_core_service_does_not_win_but_is_recorded() {
    let c = candidates(true, Some("172.22.128.1"), None, 4884);
    let attempts = resolve(&c, |url: String| match url.as_str() {
        "http://127.0.0.1:4884" => ProbeOutcome::NotCore { status: 404 },
        _ => ProbeOutcome::Core { authorized: true },
    });

    assert_eq!(attempts.len(), 2);
    assert_eq!(attempts[0].outcome, ProbeOutcome::NotCore { status: 404 });
    assert_eq!(winner(&attempts).unwrap().candidate.class, TopologyClass::WslHost);
}

#[test]
fn nothing_anywhere_reports_every_attempt() {
    let c = candidates(true, Some("172.22.128.1"), Some("bench.local"), 4884);
    let attempts = resolve(&c, |_| ProbeOutcome::Unreachable);
    assert_eq!(attempts.len(), 3);
    assert!(winner(&attempts).is_none());
}

#[test]
fn software_wsl2_detection() {
    let wsl_kernel = "Linux version 6.6.87.2-microsoft-standard-WSL2 (gcc ...)";
    assert!(detect_wsl2(Some(wsl_kernel), None));
    assert!(detect_wsl2(Some("Linux version 6.6.87.2-MICROSOFT"), None));
    assert!(detect_wsl2(None, Some("Ubuntu-24.04")));
    assert!(!detect_wsl2(Some("Linux version 6.8.0-45-generic"), None));
    assert!(!detect_wsl2(None, None));
    assert!(!detect_wsl2(None, Some("")));
}

#[test]
fn gateway_parsing() {
    assert_eq!(
        parse_default_gateway("default via 172.22.128.1 dev eth0 proto kernel"),
        Some("172.22.128.1".to_string())
    );
    assert_eq!(
        parse_default_gateway(
            "10.0.0.0/8 via 10.1.2.3 dev eth1\ndefault via 192.168.0.1 dev eth0\n"
        ),
        Some("192.168.0.1".to_string())
    );
    assert_eq!(parse_default_gateway(""), None);
    assert_eq!(parse_default_gateway("default dev ppp0 scope link"), None);
    assert_eq!(parse_default_gateway("172.22.128.0/20 dev eth0"), None);
}

#[test]
fn recommended_bind_address_matches_decision_6() {
    assert_eq!(recommended_bind_address(TopologyClass::Local), "127.0.0.1");
    assert_eq!(recommended_bind_address(TopologyClass::WslHost), "0.0.0.0");
    assert_eq!(recommended_bind_address(TopologyClass::Remote), "0.0.0.0");
}

#[test]
fn wsl2_wsl2_detection() {
    let wsl_kernel = "Linux version 6.6.87.2-microsoft-standard-WSL2 (gcc ...)";
    assert!(wsl2::detect(Some(wsl_kernel), None));
    assert!(wsl2::detect(Some("Linux version 6.6.87.2-MICROSOFT"), None));
    assert!(wsl2::detect(None, Some("Ubuntu-24.04")));
    assert!(!wsl2::detect(Some("Linux version 6.8.0-45-generic"), None));
    assert!(!wsl2::detect(None, None));
    assert!(!wsl2::detect(None, Some("")));
}

// ---- more of the search ---------------------------------------------------------------

#[test]
fn hosts_are_trimmed_before_they_are_used() {
    let c = candidates(true, Some(" 10.0.0.1\n"), Some("\tbench "), 80);
    assert_eq!(urls(&c), ["http://127.0.0.1:80", "http://10.0.0.1:80", "http://bench:80"]);
    let c = candidates(true, Some("h"), Some("h"), 80);
    assert_eq!(urls(&c), ["http://127.0.0.1:80", "http://h:80"]);
    assert_eq!(c[1].class, TopologyClass::WslHost);
}

#[test]
fn odd_routes_are_skipped() {
    assert_eq!(parse_default_gateway("default via"), None);
    assert_eq!(
        parse_default_gateway("default via\n\n  default\tdev x via 1.2.3.4\r\n"),
        Some("1.2.3.4".to_string())
    );
    assert_eq!(
        parse_default_gateway("default dev via metric"),
        Some("metric".to_string())
    );
}

#[test]
fn a_declared_url_is_the_only_place() {
    let c = places(4884, Some("bench"), Some("http://core.example:9///"), true, Some("10.0.0.1"));
    assert_eq!(urls(&c), ["http://core.example:9"]);
    assert_eq!(c[0].class, TopologyClass::Remote);
    let c = places(4884, None, Some("http://localhost:9/"), false, None);
    assert_eq!(c[0].class, TopologyClass::Local);
    let c = places(4884, None, Some("http://127.0.0.1:9"), false, None);
    assert_eq!(c[0].class, TopologyClass::Local);
    let c = places(4884, Some("bench"), None, true, Some("10.0.0.1"));
    assert_eq!(c.len(), 3);
}

#[test]
fn the_whole_question_names_the_winner_and_what_was_tried() {
    let r = resolve_software_topology(DEFAULT_CORE_PORT, Some("bench"), None, false, None, |u| {
        if u.contains("bench") {
            classify_status(401)
        } else {
            classify_status(503)
        }
    });
    assert_eq!(r.base_url(), Some("http://bench:4884"));
    assert_eq!(r.class(), Some(TopologyClass::Remote));
    assert_eq!(r.attempts.len(), 2);
    assert_eq!(r.attempts[0].outcome, ProbeOutcome::NotCore { status: 503 });

    let r = resolve_software_topology(1, None, Some("http://x/"), true, Some("y"), |_| {
        ProbeOutcome::Unreachable
    });
    assert_eq!(r.winner, None);
    assert_eq!(r.base_url(), None);
    assert_eq!(r.class(), None);
    assert_eq!(r.attempts.len(), 1);
}

#[test]
fn the_next_candidate_follows_the_attempts() {
    let c = candidates(true, Some("a"), None, 1);
    let miss = Attempt { candidate: c[0].clone(), outcome: ProbeOutcome::Unreachable };
    let hit =
        Attempt { candidate: c[0].clone(), outcome: ProbeOutcome::Core { authorized: true } };
    assert_eq!(next_candidate(&c, &Vec::new()), Some(c[0].clone()));
    assert_eq!(next_candidate(&c, &vec![miss.clone()]), Some(c[1].clone()));
    assert_eq!(next_candidate(&c, &vec![hit]), None);
    assert_eq!(next_candidate(&c, &vec![miss.clone(), miss]), None);
    assert!(resolve(&Vec::new(), |_| ProbeOutcome::Unreachable).is_empty());
}

#[test]
fn classes_have_names() {
    assert_eq!(TopologyClass::Local.as_str(), "local");
    assert_eq!(TopologyClass::WslHost.as_str(), "wsl-host");
    assert_eq!(TopologyClass::Remote.as_str(), "remote");
    let r = ResolvedSoftwareTopology { winner: None, attempts: Vec::new() };
    assert_eq!(r.class(), None);
}
