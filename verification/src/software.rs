//! Software topology: where Core is, relative to whoever asks.
//!
//! The places worth looking at are listed in order, cheapest and most likely first,
//! and probed one after the other until one turns out to be Core.

use crate::lists;
use crate::text;
use crate::wsl2;
use vstd::prelude::*;
use vstd::string::*;

verus! {

/// Core's default port.
pub const DEFAULT_CORE_PORT: u16 = 4884;

/// Which kind of place Core turned out to be.
#[derive(Debug, Clone, Copy, PartialEq, Eq, Structural)]
pub enum TopologyClass {
    /// Reachable at loopback.
    Local,
    /// Reachable at the default gateway of this WSL2 guest, on its Windows host.
    WslHost,
    /// A separate machine that the operator named.
    Remote,
}

pub open spec fn class_text(class: TopologyClass) -> Seq<char> {
    match class {
        TopologyClass::Local => "local"@,
        TopologyClass::WslHost => "wsl-host"@,
        TopologyClass::Remote => "remote"@,
    }
}

impl TopologyClass {
    pub fn as_str(self) -> (r: &'static str)
        ensures
            r@ == class_text(self),
    {
        match self {
            TopologyClass::Local => "local",
            TopologyClass::WslHost => "wsl-host",
            TopologyClass::Remote => "remote",
        }
    }
}

/// One place worth looking for Core.
#[derive(Debug, PartialEq, Eq)]
pub struct Candidate {
    pub class: TopologyClass,
    pub base_url: String,
}

#[verifier::ext_equal]
pub ghost struct CandidateModel {
    pub class: TopologyClass,
    pub base_url: Seq<char>,
}

impl DeepView for Candidate {
    type V = CandidateModel;

    open spec fn deep_view(&self) -> CandidateModel {
        CandidateModel { class: self.class, base_url: self.base_url@ }
    }
}

impl Clone for Candidate {
    fn clone(&self) -> (r: Self)
        ensures
            r == *self,
    {
        Candidate { class: self.class, base_url: self.base_url.clone() }
    }
}

/// What probing one candidate found.
#[derive(Debug, Clone, Copy, PartialEq, Eq, Structural)]
pub enum ProbeOutcome {
    /// Core is there; `authorized` says whether it accepted the request.
    Core { authorized: bool },
    /// Something answers, and it is not Core.
    NotCore { status: u16 },
    /// Nothing answered.
    Unreachable,
}

/// One candidate and what probing it found.
#[derive(Debug, PartialEq, Eq)]
pub struct Attempt {
    pub candidate: Candidate,
    pub outcome: ProbeOutcome,
}

#[verifier::ext_equal]
pub ghost struct AttemptModel {
    pub candidate: CandidateModel,
    pub outcome: ProbeOutcome,
}

impl DeepView for Attempt {
    type V = AttemptModel;

    open spec fn deep_view(&self) -> AttemptModel {
        AttemptModel { candidate: self.candidate.deep_view(), outcome: self.outcome }
    }
}

impl Clone for Attempt {
    fn clone(&self) -> (r: Self)
        ensures
            r == *self,
    {
        Attempt { candidate: self.candidate.clone(), outcome: self.outcome }
    }
}

// ---- where to look ----------------------------------------------------------------

/// The URL of a host at a port.
pub open spec fn url(host: Seq<char>, port: u16) -> Seq<char> {
    "http://"@ + host + ":"@ + text::decimal(port as nat)
}

/// A host that was given, without the white space around it; none if that leaves
/// nothing.
pub open spec fn given(host: Option<Seq<char>>) -> Option<Seq<char>> {
    match host {
        Some(h) if text::trimmed(h).len() > 0 => Some(text::trimmed(h)),
        _ => None,
    }
}

/// The places in order: loopback; under WSL2 the gateway; the host that was named.
pub open spec fn offered(
    under_wsl2: bool,
    gateway: Option<Seq<char>>,
    host: Option<Seq<char>>,
    port: u16,
) -> Seq<CandidateModel> {
    let loopback = seq![
        CandidateModel { class: TopologyClass::Local, base_url: url("127.0.0.1"@, port) },
    ];
    let with_gateway = match given(gateway) {
        Some(g) if under_wsl2 => loopback.push(
            CandidateModel { class: TopologyClass::WslHost, base_url: url(g, port) },
        ),
        _ => loopback,
    };
    match given(host) {
        Some(h) => with_gateway.push(
            CandidateModel { class: TopologyClass::Remote, base_url: url(h, port) },
        ),
        None => with_gateway,
    }
}

pub open spec fn has_url(s: Seq<CandidateModel>, base_url: Seq<char>) -> bool {
    exists|i: int| 0 <= i < s.len() && (#[trigger] s[i]).base_url == base_url
}

/// `c` at the end of `s`, unless its URL is there already.
pub open spec fn with_new(s: Seq<CandidateModel>, c: CandidateModel) -> Seq<CandidateModel> {
    if has_url(s, c.base_url) {
        s
    } else {
        s.push(c)
    }
}

/// `s` with each URL once, where it came first.
pub open spec fn distinct(s: Seq<CandidateModel>) -> Seq<CandidateModel>
    decreases s.len(),
{
    if s.len() == 0 {
        s
    } else {
        with_new(distinct(s.drop_last()), s.last())
    }
}

fn offer(out: &mut Vec<Candidate>, class: TopologyClass, host: &str, port: u16)
    ensures
        final(out).deep_view() == with_new(
            old(out).deep_view(),
            CandidateModel { class, base_url: url(host@, port) },
        ),
{
    let ghost before = out.deep_view();
    let mut base_url = "http://".to_string();
    base_url.append(host);
    base_url.append(":");
    base_url.append(text::to_decimal(port as u64).as_str());
    let ghost p = |c: CandidateModel| c.base_url == base_url@;
    let wanted = base_url.as_str();
    let known = |c: &Candidate| -> (x: bool)
        ensures
            x == (c.base_url@ == wanted@)
    {
        text::same(c.base_url.as_str(), wanted)
    };
    let at: usize = lists::find_position(out, known, Ghost(p));
    proof {
        lists::lemma_position(before, p);
        if at < before.len() {
            assert(p(before[at as int]));
            assert(has_url(before, base_url@));
        } else {
            assert forall|i: int| 0 <= i < before.len() implies (
            #[trigger] before[i]).base_url != base_url@ by {
                assert(!p(before[i]));
            }
        }
    }
    if at >= out.len() {
        let c = Candidate { class, base_url };
        out.push(c);
        assert(out.deep_view() =~= before.push(c.deep_view()));
    }
}

fn trimmed_host(host: Option<&str>) -> (r: Option<String>)
    ensures
        r.deep_view() == given(text::opt_text(host)),
{
    match host {
        Some(h) => {
            let t = text::trim(h);
            if text::to_chars(t.as_str()).len() > 0 {
                Some(t)
            } else {
                None
            }
        },
        None => None,
    }
}

/// The ordered list of places to look, each URL once. Loopback covers a Core on
/// this machine and WSL2 with mirrored networking; the gateway covers WSL2's other
/// mode; a named machine comes last, so that it is not asked for a Core that is here.
pub fn candidates(under_wsl2: bool, gateway: Option<&str>, host: Option<&str>, port: u16) -> (r:
    Vec<Candidate>)
    ensures
        r.deep_view() == distinct(
            offered(under_wsl2, text::opt_text(gateway), text::opt_text(host), port),
        ),
{
    let mut out: Vec<Candidate> = Vec::new();
    let ghost mut done: Seq<CandidateModel> = Seq::empty();
    assert(out.deep_view() =~= distinct(done));
    offer(&mut out, TopologyClass::Local, "127.0.0.1", port);
    proof {
        let c = CandidateModel { class: TopologyClass::Local, base_url: url("127.0.0.1"@, port) };
        assert(done.push(c).drop_last() =~= done);
        done = done.push(c);
        assert(out.deep_view() == distinct(done));
        assert(done =~= seq![c]);
    }
    if under_wsl2 {
        if let Some(g) = trimmed_host(gateway) {
            offer(&mut out, TopologyClass::WslHost, g.as_str(), port);
            proof {
                let c = CandidateModel { class: TopologyClass::WslHost, base_url: url(g@, port) };
                assert(done.push(c).drop_last() =~= done);
                done = done.push(c);
                assert(out.deep_view() == distinct(done));
            }
        }
    }
    if let Some(h) = trimmed_host(host) {
        offer(&mut out, TopologyClass::Remote, h.as_str(), port);
        proof {
            let c = CandidateModel { class: TopologyClass::Remote, base_url: url(h@, port) };
            assert(done.push(c).drop_last() =~= done);
            done = done.push(c);
            assert(out.deep_view() == distinct(done));
        }
    }
    assert(done =~= offered(under_wsl2, text::opt_text(gateway), text::opt_text(host), port));
    out
}

// ---- probing ------------------------------------------------------------------------

/// What the status that a place answered with says about Core. Every route of Core
/// asks for a token, so an answer that one is missing is Core's.
pub fn classify_status(status: u16) -> (r: ProbeOutcome)
    ensures
        r == outcome_of(status),
{
    match status {
        200 => ProbeOutcome::Core { authorized: true },
        401 => ProbeOutcome::Core { authorized: false },
        other => ProbeOutcome::NotCore { status: other },
    }
}

pub open spec fn outcome_of(status: u16) -> ProbeOutcome {
    if status == 200 {
        ProbeOutcome::Core { authorized: true }
    } else if status == 401 {
        ProbeOutcome::Core { authorized: false }
    } else {
        ProbeOutcome::NotCore { status }
    }
}

pub open spec fn found_core(a: AttemptModel) -> bool {
    a.outcome is Core
}

/// The candidate to probe after `attempts`; none once Core was found or nothing is
/// left.
pub open spec fn next_place(
    candidates: Seq<CandidateModel>,
    attempts: Seq<AttemptModel>,
) -> Option<CandidateModel> {
    if attempts.len() > 0 && found_core(attempts.last()) {
        None
    } else if attempts.len() < candidates.len() {
        Some(candidates[attempts.len() as int])
    } else {
        None
    }
}

/// Says which candidate to probe next.
pub fn next_candidate(candidates: &Vec<Candidate>, attempts: &Vec<Attempt>) -> (r: Option<
    Candidate,
>)
    ensures
        r.deep_view() == next_place(candidates.deep_view(), attempts.deep_view()),
{
    let n: usize = attempts.len();
    if n > 0 {
        assert(attempts.deep_view().last() == attempts@[n - 1].deep_view());
        if matches!(attempts[n - 1].outcome, ProbeOutcome::Core { .. }) {
            return None;
        }
    }
    if n < candidates.len() {
        Some(candidates[n].clone())
    } else {
        None
    }
}

/// `attempts` are probes of the candidates in order, up to and including the first
/// that found Core, or of all of them where none did.
pub open spec fn probed_in_order(
    candidates: Seq<CandidateModel>,
    attempts: Seq<AttemptModel>,
) -> bool {
    &&& attempts.len() <= candidates.len()
    &&& forall|i: int|
        0 <= i < attempts.len() ==> (#[trigger] attempts[i]).candidate == candidates[i]
    &&& forall|i: int| 0 <= i < attempts.len() - 1 ==> !found_core(#[trigger] attempts[i])
    &&& next_place(candidates, attempts) is None
}

/// Every outcome is an answer of `probe` for the URL of its candidate.
pub open spec fn answers_of<F: Fn(String) -> ProbeOutcome>(
    probe: F,
    attempts: Seq<Attempt>,
) -> bool {
    forall|i: int|
        0 <= i < attempts.len() ==> call_ensures(
            probe,
            ((#[trigger] attempts[i]).candidate.base_url,),
            attempts[i].outcome,
        )
}

/// Probes the candidates in order and stops at the first that is Core. Every attempt
/// is returned, so that a caller can say what was tried.
pub fn resolve<F: Fn(String) -> ProbeOutcome>(candidates: &Vec<Candidate>, probe: F) -> (r: Vec<
    Attempt,
>)
    requires
        forall|base_url: String| call_requires(probe, (base_url,)),
    ensures
        probed_in_order(candidates.deep_view(), r.deep_view()),
        answers_of(probe, r@),
{
    let mut attempts: Vec<Attempt> = Vec::new();
    let ghost all = candidates.deep_view();
    loop
        invariant
            all == candidates.deep_view(),
            attempts@.len() <= all.len(),
            forall|i: int|
                0 <= i < attempts@.len() ==> (
                #[trigger] attempts.deep_view()[i]).candidate == all[i],
            forall|i: int|
                0 <= i < attempts@.len() - 1 ==> !found_core(#[trigger] attempts.deep_view()[i]),
            answers_of(probe, attempts@),
            forall|base_url: String| call_requires(probe, (base_url,)),
        decreases all.len() - attempts@.len(),
    {
        match next_candidate(candidates, &attempts) {
            None => {
                return attempts;
            },
            Some(candidate) => {
                let outcome = probe(candidate.base_url.clone());
                let ghost before = attempts@;
                let ghost seen = attempts.deep_view();
                attempts.push(Attempt { candidate, outcome });
                proof {
                    let now = attempts.deep_view();
                    assert forall|i: int| 0 <= i < before.len() implies now[i] == seen[i] by {
                        assert(attempts@[i] == before[i]);
                    }
                    assert forall|i: int| 0 <= i < now.len() implies (
                    #[trigger] now[i]).candidate == all[i] by {
                        if i < before.len() {
                            assert(now[i] == seen[i]);
                        }
                    }
                    assert forall|i: int| 0 <= i < now.len() - 1 implies !found_core(
                        #[trigger] now[i],
                    ) by {
                        assert(now[i] == seen[i]);
                        if i == before.len() - 1 {
                            assert(seen.last() == seen[i]);
                        }
                    }
                    assert forall|i: int| 0 <= i < attempts@.len() implies call_ensures(
                        probe,
                        ((#[trigger] attempts@[i]).candidate.base_url,),
                        attempts@[i].outcome,
                    ) by {
                        if i < before.len() {
                            assert(attempts@[i] == before[i]);
                        }
                    }
                }
            },
        }
    }
}

pub open spec fn is_core() -> spec_fn(AttemptModel) -> bool {
    |a: AttemptModel| found_core(a)
}

/// The attempt that found Core.
pub fn winner(attempts: &Vec<Attempt>) -> (r: Option<&Attempt>)
    ensures
        match r {
            Some(a) => lists::first(attempts.deep_view(), is_core()) == Some(a.deep_view()),
            None => lists::first(attempts.deep_view(), is_core()) is None,
        },
{
    let found = |a: &Attempt| -> (x: bool)
        ensures
            x == found_core(a.deep_view())
    {
        matches!(a.outcome, ProbeOutcome::Core { .. })
    };
    let i: usize = lists::find_position(attempts, found, Ghost(is_core()));
    if i < attempts.len() {
        Some(&attempts[i])
    } else {
        None
    }
}

// ---- this machine --------------------------------------------------------------------

/// Whether this process runs inside a WSL2 guest.
pub fn detect_wsl2(proc_version: Option<&str>, wsl_distro_env: Option<&str>) -> (r: bool)
    ensures
        r == wsl2::looks_like_wsl2(text::opt_text(proc_version), text::opt_text(wsl_distro_env)),
{
    wsl2::detect(proc_version, wsl_distro_env)
}

pub open spec fn reads(word: Seq<char>) -> spec_fn(Seq<char>) -> bool {
    |w: Seq<char>| w == word
}

/// The address behind the first `via` of a default route; none where there is no
/// `via`, as on a point-to-point link.
pub open spec fn route_gateway(words: Seq<Seq<char>>) -> Option<Seq<char>> {
    let rest = words.skip(1);
    let at = lists::position(rest, reads("via"@)) as int;
    if words.len() > 0 && words[0] == "default"@ && at + 1 < rest.len() {
        Some(rest[at + 1])
    } else {
        None
    }
}

/// The gateway of the first route that has one.
pub open spec fn first_gateway(lines: Seq<Seq<char>>) -> Option<Seq<char>>
    decreases lines.len(),
{
    if lines.len() == 0 {
        None
    } else {
        match route_gateway(text::words(lines[0])) {
            Some(g) => Some(g),
            None => first_gateway(lines.skip(1)),
        }
    }
}

fn gateway_in(line: &str) -> (r: Option<String>)
    ensures
        r.deep_view() == route_gateway(text::words(line@)),
{
    let mut words = text::split_words(line);
    let ghost all = text::words(line@);
    assert(words.deep_view() =~= all);
    if words.len() == 0 {
        return None;
    }
    assert(all[0] == words@[0]@);
    if !text::same(words[0].as_str(), "default") {
        return None;
    }
    words.remove(0);
    assert(words.deep_view() =~= all.skip(1));
    let is_via = |w: &String| -> (x: bool)
        ensures
            x == (w@ == "via"@)
    {
        text::same(w.as_str(), "via")
    };
    let at: usize = lists::find_position(&words, is_via, Ghost(reads("via"@)));
    if at < words.len() && at + 1 < words.len() {
        assert(words.deep_view()[at + 1] == words@[at + 1]@);
        Some(words[at + 1].clone())
    } else {
        None
    }
}

/// The gateway address in the output of `ip route show default`.
pub fn parse_default_gateway(ip_route_output: &str) -> (r: Option<String>)
    ensures
        r.deep_view() == first_gateway(text::lines(ip_route_output@)),
{
    let lines = text::split_lines(ip_route_output);
    let ghost all = text::lines(ip_route_output@);
    let mut i: usize = 0;
    assert(all.skip(0) =~= all);
    while i < lines.len()
        invariant
            i <= lines@.len(),
            text::texts(lines@) == all,
            all == text::lines(ip_route_output@),
            first_gateway(all) == first_gateway(all.skip(i as int)),
        decreases lines@.len() - i,
    {
        let ghost rest = all.skip(i as int);
        assert(rest[0] == all[i as int] && all[i as int] == lines@[i as int]@);
        assert(rest.skip(1) =~= all.skip(i + 1));
        match gateway_in(lines[i].as_str()) {
            Some(g) => {
                return Some(g);
            },
            None => {},
        }
        i += 1;
    }
    None
}

// ---- the whole question -----------------------------------------------------------------

/// What looking for Core found, and everything that was tried.
#[derive(Debug, PartialEq, Eq)]
pub struct ResolvedSoftwareTopology {
    pub winner: Option<Candidate>,
    pub attempts: Vec<Attempt>,
}

impl ResolvedSoftwareTopology {
    pub fn base_url(&self) -> (r: Option<&str>)
        ensures
            text::opt_text(r) == (match self.winner {
                Some(c) => Some(c.base_url@),
                None => None,
            }),
    {
        match &self.winner {
            Some(c) => Some(c.base_url.as_str()),
            None => None,
        }
    }

    pub fn class(&self) -> (r: Option<TopologyClass>)
        ensures
            r == (match self.winner {
                Some(c) => Some(c.class),
                None => None,
            }),
    {
        match &self.winner {
            Some(c) => Some(c.class),
            None => None,
        }
    }
}

/// The one place that a declared URL names: local where it names this machine.
pub open spec fn declared_place(base_url: Seq<char>) -> CandidateModel {
    let u = text::trim_end_of(base_url, '/');
    CandidateModel {
        class: if text::occurs(u, "127.0.0.1"@) || text::occurs(u, "localhost"@) {
            TopologyClass::Local
        } else {
            TopologyClass::Remote
        },
        base_url: u,
    }
}

/// The places to look: a declared URL alone, or what is known of this machine.
pub open spec fn all_places(
    port: u16,
    declared_host: Option<Seq<char>>,
    declared_base_url: Option<Seq<char>>,
    under_wsl2: bool,
    gateway: Option<Seq<char>>,
) -> Seq<CandidateModel> {
    match declared_base_url {
        Some(u) => seq![declared_place(u)],
        None => distinct(offered(under_wsl2, gateway, declared_host, port)),
    }
}

/// The places to look for Core, in order.
pub fn places(
    port: u16,
    declared_host: Option<&str>,
    declared_base_url: Option<&str>,
    under_wsl2: bool,
    gateway: Option<&str>,
) -> (r: Vec<Candidate>)
    ensures
        r.deep_view() == all_places(
            port,
            text::opt_text(declared_host),
            text::opt_text(declared_base_url),
            under_wsl2,
            text::opt_text(gateway),
        ),
{
    match declared_base_url {
        Some(u) => {
            let base_url = text::strip_end(u, '/');
            let class = if text::contains(base_url.as_str(), "127.0.0.1") || text::contains(
                base_url.as_str(),
                "localhost",
            ) {
                TopologyClass::Local
            } else {
                TopologyClass::Remote
            };
            let r = vec![Candidate { class, base_url }];
            assert(r.deep_view() =~= seq![declared_place(u@)]);
            r
        },
        None => candidates(under_wsl2, gateway, declared_host, port),
    }
}

/// Looks for Core. `under_wsl2` and `gateway` are what is known of this machine;
/// they play no part where a URL was declared, which is probed alone.
pub fn resolve_software_topology<F: Fn(String) -> ProbeOutcome>(
    port: u16,
    declared_host: Option<&str>,
    declared_base_url: Option<&str>,
    under_wsl2: bool,
    gateway: Option<&str>,
    probe: F,
) -> (r: ResolvedSoftwareTopology)
    requires
        forall|base_url: String| call_requires(probe, (base_url,)),
    ensures
        probed_in_order(
            all_places(
                port,
                text::opt_text(declared_host),
                text::opt_text(declared_base_url),
                under_wsl2,
                text::opt_text(gateway),
            ),
            r.attempts.deep_view(),
        ),
        answers_of(probe, r.attempts@),
        r.winner.deep_view() == (match lists::first(r.attempts.deep_view(), is_core()) {
            Some(a) => Some(a.candidate),
            None => None,
        }),
{
    let places = places(port, declared_host, declared_base_url, under_wsl2, gateway);
    let attempts = resolve(&places, probe);
    let winner = match winner(&attempts) {
        Some(a) => Some(a.candidate.clone()),
        None => None,
    };
    ResolvedSoftwareTopology { winner, attempts }
}

pub open spec fn bind_text(class: TopologyClass) -> Seq<char> {
    match class {
        TopologyClass::Local => "127.0.0.1"@,
        _ => "0.0.0.0"@,
    }
}

/// The address that Core should bind to. Where it is reached from another host or
/// from a WSL2 guest it has to listen on every interface.
pub fn recommended_bind_address(class: TopologyClass) -> (r: &'static str)
    ensures
        r@ == bind_text(class),
{
    match class {
        TopologyClass::Local => "127.0.0.1",
        TopologyClass::WslHost => "0.0.0.0",
        TopologyClass::Remote => "0.0.0.0",
    }
}

// ---- what the search promises -------------------------------------------------------------

/// No URL is listed twice, loopback comes first, and every place that was offered is
/// listed by its URL. A gateway is listed only under WSL2, and a machine that the
/// operator named is listed last, unless an earlier place has its URL.
pub proof fn law_places_are_ordered_and_distinct(
    under_wsl2: bool,
    gateway: Option<Seq<char>>,
    host: Option<Seq<char>>,
    port: u16,
)
    ensures
        ({
            let offers = offered(under_wsl2, gateway, host, port);
            let s = distinct(offers);
            &&& 1 <= s.len() <= 3
            &&& s[0] == CandidateModel {
                class: TopologyClass::Local,
                base_url: url("127.0.0.1"@, port),
            }
            &&& forall|i: int, j: int|
                0 <= i < j < s.len() ==> (#[trigger] s[i]).base_url != (#[trigger] s[j]).base_url
            &&& forall|i: int| 0 <= i < offers.len() ==> has_url(s, (#[trigger] offers[i]).base_url)
            &&& forall|i: int| 0 <= i < s.len() ==> offers.contains(#[trigger] s[i])
            &&& forall|i: int|
                0 <= i < s.len() ==> ((#[trigger] s[i]).class == TopologyClass::Local <==> i == 0)
            &&& forall|i: int|
                0 <= i < s.len() && (#[trigger] s[i]).class == TopologyClass::WslHost ==> under_wsl2
            &&& forall|i: int|
                0 <= i < s.len() && (#[trigger] s[i]).class == TopologyClass::Remote ==> i
                    == s.len() - 1
        }),
{
    let offers = offered(under_wsl2, gateway, host, port);
    lemma_distinct(offers);
    let s = distinct(offers);
    let c = offers[0];
    reveal_with_fuel(distinct, 4);
    assert(offers.take(1) =~= seq![c]);
    if offers.len() == 2 {
        assert(offers.drop_last() =~= seq![c]);
    }
    if offers.len() == 3 {
        assert(offers.drop_last().drop_last() =~= seq![c]);
    }
    assert(seq![c].drop_last() =~= Seq::<CandidateModel>::empty());
    assert(s[0] == c);
}

proof fn lemma_distinct(s: Seq<CandidateModel>)
    ensures
        distinct(s).len() <= s.len(),
        s.len() > 0 ==> distinct(s).len() > 0,
        forall|i: int, j: int|
            0 <= i < j < distinct(s).len() ==> (#[trigger] distinct(s)[i]).base_url != (
            #[trigger] distinct(s)[j]).base_url,
        forall|i: int| 0 <= i < s.len() ==> has_url(distinct(s), (#[trigger] s[i]).base_url),
        forall|i: int| 0 <= i < distinct(s).len() ==> s.contains(#[trigger] distinct(s)[i]),
    decreases s.len(),
{
    if s.len() > 0 {
        let t = s.drop_last();
        let d = distinct(t);
        let r = distinct(s);
        lemma_distinct(t);
        assert forall|i: int| 0 <= i < s.len() implies has_url(r, (#[trigger] s[i]).base_url) by {
            if i < t.len() {
                assert(has_url(d, t[i].base_url));
                let k = choose|k: int| 0 <= k < d.len() && (#[trigger] d[k]).base_url == s[i].base_url;
                assert(r[k] == d[k]);
            } else if !has_url(d, s.last().base_url) {
                assert(r[d.len() as int] == s.last());
            }
        }
        assert forall|i: int| 0 <= i < r.len() implies s.contains(#[trigger] r[i]) by {
            if i < d.len() {
                assert(t.contains(d[i]));
                let k = choose|k: int| 0 <= k < t.len() && t[k] == d[i];
                assert(s[k] == r[i]);
            } else {
                assert(s[s.len() - 1] == r[i]);
            }
        }
        assert forall|i: int, j: int| 0 <= i < j < r.len() implies (#[trigger] r[i]).base_url != (
        #[trigger] r[j]).base_url by {
            if j == d.len() {
                assert(r[i] == d[i]);
            }
        }
    }
}

/// A place is Core exactly if it answered that the request was accepted or that the
/// token is missing.
pub proof fn law_core_answers_accept_or_ask_for_a_token(status: u16)
    ensures
        outcome_of(status) is Core <==> status == 200 || status == 401,
        outcome_of(status) matches ProbeOutcome::Core { authorized } ==> (authorized <==> status
            == 200),
        outcome_of(status) matches ProbeOutcome::NotCore { status: s } ==> s == status,
{
}

/// The search ends at the first Core: the winner is the last attempt, no attempt
/// before it found Core, and there is a winner exactly if some attempt found Core.
/// Where there is none every place was tried.
pub proof fn law_search_stops_at_the_first_core(
    candidates: Seq<CandidateModel>,
    attempts: Seq<AttemptModel>,
)
    requires
        probed_in_order(candidates, attempts),
    ensures
        lists::first(attempts, is_core()) matches Some(a) ==> attempts.len() > 0
            && attempts.last() == a && found_core(a) && a.candidate
            == candidates[attempts.len() - 1],
        lists::first(attempts, is_core()) is None ==> attempts.len() == candidates.len()
            && forall|i: int| 0 <= i < attempts.len() ==> !found_core(#[trigger] attempts[i]),
{
    lists::lemma_position(attempts, is_core());
    let at = lists::position(attempts, is_core()) as int;
    if at < attempts.len() {
        assert(is_core()(attempts[at]));
        if at < attempts.len() - 1 {
            assert(!found_core(attempts[at]));
        }
    } else {
        assert forall|i: int| 0 <= i < attempts.len() implies !found_core(
            #[trigger] attempts[i],
        ) by {
            assert(!is_core()(attempts[i]));
        }
    }
}

/// A declared URL is the only place that is probed, whatever else is known, and it
/// has no slash at its end.
pub proof fn law_declared_url_is_the_only_place(
    port: u16,
    declared_host: Option<Seq<char>>,
    u: Seq<char>,
    under_wsl2: bool,
    gateway: Option<Seq<char>>,
)
    ensures
        all_places(port, declared_host, Some(u), under_wsl2, gateway) == seq![declared_place(u)],
        declared_place(u).class != TopologyClass::WslHost,
        declared_place(u).base_url.len() > 0 ==> declared_place(u).base_url.last() != '/',
        declared_place(u).base_url == u.take(declared_place(u).base_url.len() as int),
{
    lemma_trim_end_of(u, '/');
}

proof fn lemma_trim_end_of(s: Seq<char>, c: char)
    ensures
        text::trim_end_of(s, c).len() <= s.len(),
        text::trim_end_of(s, c).len() > 0 ==> text::trim_end_of(s, c).last() != c,
        text::trim_end_of(s, c) == s.take(text::trim_end_of(s, c).len() as int),
    decreases s.len(),
{
    if s.len() > 0 && s.last() == c {
        lemma_trim_end_of(s.drop_last(), c);
        let n = text::trim_end_of(s, c).len() as int;
        assert(s.drop_last().take(n) =~= s.take(n));
    } else {
        assert(s.take(s.len() as int) =~= s);
    }
}

/// Where Core is local it binds to loopback only, and otherwise to every interface.
pub proof fn law_only_a_local_core_hides_behind_loopback(class: TopologyClass)
    ensures
        bind_text(class) == "127.0.0.1"@ <==> class == TopologyClass::Local,
{
    reveal_strlit("127.0.0.1");
    reveal_strlit("0.0.0.0");
    assert("127.0.0.1"@.len() != "0.0.0.0"@.len());
}

// ---- the places and the answers, one by one --------------------------------------------------

/// Hosts at one port have different URLs.
pub proof fn law_urls_tell_hosts_apart(a: Seq<char>, b: Seq<char>, port: u16)
    ensures
        url(a, port) == "http://"@ + a + ":"@ + text::decimal(port as nat),
        url(a, port) == url(b, port) <==> a == b,
{
    if url(a, port) == url(b, port) {
        let (h, t) = ("http://"@, ":"@ + text::decimal(port as nat));
        assert(url(a, port) =~= h + a + t);
        assert(url(b, port) =~= h + b + t);
        assert(a.len() == b.len());
        let n = h.len() as int;
        assert(a =~= url(a, port).subrange(n, n + a.len()));
        assert(b =~= url(b, port).subrange(n, n + b.len()));
    }
}

/// Where no URL is declared Core is looked for at loopback; then, under WSL2 only, at the
/// gateway; then at the host that was named. A gateway or a host that is blank is none,
/// the white space around one is not part of it, and no host is listed twice.
pub proof fn law_places_are_loopback_gateway_and_host(
    port: u16,
    host: Option<Seq<char>>,
    under_wsl2: bool,
    gateway: Option<Seq<char>>,
)
    ensures
        ({
            let g = text::trimmed(gateway->0);
            let h = text::trimmed(host->0);
            let gateway_counts = under_wsl2 && gateway is Some && g.len() > 0 && g
                != "127.0.0.1"@;
            let host_counts = host is Some && h.len() > 0 && h != "127.0.0.1"@ && !(gateway_counts
                && h == g);
            let at = |name: Seq<char>| "http://"@ + name + ":"@ + text::decimal(port as nat);
            let local = CandidateModel {
                class: TopologyClass::Local,
                base_url: at("127.0.0.1"@),
            };
            let wsl = CandidateModel { class: TopologyClass::WslHost, base_url: at(g) };
            let remote = CandidateModel { class: TopologyClass::Remote, base_url: at(h) };
            all_places(port, host, None, under_wsl2, gateway) == seq![local] + (
            if gateway_counts {
                seq![wsl]
            } else {
                Seq::empty()
            }) + (if host_counts {
                seq![remote]
            } else {
                Seq::empty()
            })
        }),
{
    let g = text::trimmed(gateway->0);
    let h = text::trimmed(host->0);
    let l = "127.0.0.1"@;
    law_urls_tell_hosts_apart(g, l, port);
    law_urls_tell_hosts_apart(h, l, port);
    law_urls_tell_hosts_apart(h, g, port);
    law_urls_tell_hosts_apart(l, l, port);
    let local = CandidateModel { class: TopologyClass::Local, base_url: url(l, port) };
    let wsl = CandidateModel { class: TopologyClass::WslHost, base_url: url(g, port) };
    let remote = CandidateModel { class: TopologyClass::Remote, base_url: url(h, port) };
    let one = seq![local];
    let d0 = distinct(Seq::<CandidateModel>::empty());
    assert(one.drop_last() =~= Seq::<CandidateModel>::empty());
    assert(!has_url(d0, url(l, port)));
    assert(distinct(one) =~= one);
    let two = one.push(wsl);
    assert(two.drop_last() =~= one);
    lemma_has_url_push(Seq::empty(), local, url(g, port));
    lemma_has_url_push(Seq::empty(), local, url(h, port));
    assert(Seq::<CandidateModel>::empty().push(local) =~= one);
    lemma_has_url_push(one, wsl, url(h, port));
    assert(one.push(remote).drop_last() =~= one);
    assert(two.push(remote).drop_last() =~= two);
    assert(has_url(one, url(g, port)) <==> g == l);
    assert(has_url(one, url(h, port)) <==> h == l);
    assert(distinct(two) == with_new(one, wsl));
    assert(distinct(one.push(remote)) == with_new(one, remote));
    assert(distinct(two.push(remote)) == with_new(distinct(two), remote));
    let places = all_places(port, host, None, under_wsl2, gateway);
    let gateway_counts = under_wsl2 && gateway is Some && g.len() > 0 && g != l;
    let host_counts = host is Some && h.len() > 0 && h != l && !(gateway_counts && h == g);
    let from_gateway = under_wsl2 && gateway is Some && g.len() > 0;
    let from_host = host is Some && h.len() > 0;
    let offers = offered(under_wsl2, gateway, host, port);
    assert(offers == (if from_gateway {
        if from_host {
            two.push(remote)
        } else {
            two
        }
    } else if from_host {
        one.push(remote)
    } else {
        one
    }));
    let expected = one + (if gateway_counts {
        seq![wsl]
    } else {
        Seq::empty()
    }) + (if host_counts {
        seq![remote]
    } else {
        Seq::empty()
    });
    if gateway_counts && host_counts {
        assert(places =~= expected);
    } else if gateway_counts {
        assert(places =~= expected);
    } else if host_counts {
        assert(places =~= expected);
    } else {
        assert(places =~= expected);
    }
}

proof fn lemma_has_url_push(s: Seq<CandidateModel>, c: CandidateModel, base_url: Seq<char>)
    ensures
        has_url(s.push(c), base_url) <==> has_url(s, base_url) || c.base_url == base_url,
{
    let t = s.push(c);
    if has_url(s, base_url) {
        let i = choose|i: int| 0 <= i < s.len() && (#[trigger] s[i]).base_url == base_url;
        assert(t[i].base_url == base_url);
    }
    if c.base_url == base_url {
        assert(t[s.len() as int].base_url == base_url);
    }
    if has_url(t, base_url) {
        let i = choose|i: int| 0 <= i < t.len() && (#[trigger] t[i]).base_url == base_url;
        if i < s.len() {
            assert(s[i].base_url == base_url);
        }
    }
}

/// A declared URL is probed as it is but for the slashes at its end, and it is local
/// exactly if it names loopback by number or by name.
pub proof fn law_declared_url_is_taken_as_it_is(u: Seq<char>)
    ensures
        ({
            let place = declared_place(u);
            let n = place.base_url.len() as int;
            &&& n <= u.len()
            &&& place.base_url == u.take(n)
            &&& forall|i: int| n <= i < u.len() ==> #[trigger] u[i] == '/'
            &&& n > 0 ==> u[n - 1] != '/'
            &&& place.class == TopologyClass::Local <==> text::occurs(
                place.base_url,
                "127.0.0.1"@,
            ) || text::occurs(place.base_url, "localhost"@)
            &&& place.class == TopologyClass::Local || place.class == TopologyClass::Remote
        }),
{
    text::law_copies_at_the_end_come_off(u, '/');
    let n = declared_place(u).base_url.len() as int;
    if n > 0 {
        assert(u.take(n).last() == u[n - 1]);
    }
}

/// A search tries the places in order from the first on, goes on exactly while what it
/// found was not Core, and does not leave a place out.
pub proof fn law_search_goes_on_while_core_is_not_found(
    candidates: Seq<CandidateModel>,
    attempts: Seq<AttemptModel>,
)
    ensures
        probed_in_order(candidates, attempts) <==> {
            &&& attempts.len() <= candidates.len()
            &&& forall|i: int|
                0 <= i < attempts.len() ==> (#[trigger] attempts[i]).candidate == candidates[i]
            &&& forall|i: int|
                0 <= i < attempts.len() - 1 ==> !((#[trigger] attempts[i]).outcome is Core)
            &&& attempts.len() < candidates.len() ==> attempts.len() > 0
                && attempts.last().outcome is Core
        },
        next_place(candidates, attempts) matches Some(c) ==> attempts.len() < candidates.len()
            && c == candidates[attempts.len() as int],
        next_place(candidates, attempts) is None <==> attempts.len() >= candidates.len() || (
        attempts.len() > 0 && attempts.last().outcome is Core),
{
    if probed_in_order(candidates, attempts) {
        assert forall|i: int| 0 <= i < attempts.len() - 1 implies !((
        #[trigger] attempts[i]).outcome is Core) by {
            assert(!found_core(attempts[i]));
        }
    }
}

/// The winner is the first attempt at which Core answered, authorized or not; there is
/// none exactly if Core answered at none.
pub proof fn law_winner_is_the_first_core(attempts: Seq<AttemptModel>, k: int)
    ensures
        (0 <= k < attempts.len() && attempts[k].outcome is Core && forall|i: int|
            0 <= i < k ==> !((#[trigger] attempts[i]).outcome is Core)) ==> lists::first(
            attempts,
            is_core(),
        ) == Some(attempts[k]),
        lists::first(attempts, is_core()) is None <==> forall|i: int|
            0 <= i < attempts.len() ==> !((#[trigger] attempts[i]).outcome is Core),
{
    let p = is_core();
    lists::lemma_position(attempts, p);
    if 0 <= k < attempts.len() && attempts[k].outcome is Core && forall|i: int|
        0 <= i < k ==> !((#[trigger] attempts[i]).outcome is Core) {
        lists::lemma_position_is(attempts, p, k);
    }
    if lists::first(attempts, p) is None {
        assert forall|i: int| 0 <= i < attempts.len() implies !((
        #[trigger] attempts[i]).outcome is Core) by {
            assert(!p(attempts[i]));
        }
    } else {
        assert(p(attempts[lists::position(attempts, p) as int]));
    }
}

/// The gateway of a route is the word behind the first `via` of a line that begins with
/// `default`; a line that does not, or has no `via` with a word behind it, has none.
pub proof fn law_gateway_stands_behind_via(words: Seq<Seq<char>>, k: int)
    ensures
        (1 <= k < words.len() - 1 && words[0] == "default"@ && words[k] == "via"@ && forall|
            i: int,
        |
            1 <= i < k ==> #[trigger] words[i] != "via"@) ==> route_gateway(words) == Some(
            words[k + 1],
        ),
        words.len() == 0 || words[0] != "default"@ ==> route_gateway(words) is None,
        (forall|i: int| 1 <= i < words.len() - 1 ==> #[trigger] words[i] != "via"@)
            ==> route_gateway(words) is None,
{
    let rest = words.skip(1);
    let p = reads("via"@);
    lists::lemma_position(rest, p);
    let at = lists::position(rest, p) as int;
    if 1 <= k < words.len() - 1 && words[k] == "via"@ && forall|i: int|
        1 <= i < k ==> #[trigger] words[i] != "via"@ {
        assert forall|i: int| 0 <= i < k - 1 implies !p(#[trigger] rest[i]) by {
            assert(rest[i] == words[i + 1]);
        }
        assert(rest[k - 1] == words[k]);
        lists::lemma_position_is(rest, p, k - 1);
        assert(rest[k] == words[k + 1]);
    }
    if forall|i: int| 1 <= i < words.len() - 1 ==> #[trigger] words[i] != "via"@ {
        if words.len() > 0 && at + 1 < rest.len() {
            assert(p(rest[at]));
            assert(rest[at] == words[at + 1]);
        }
    }
}

/// The gateway of a listing is that of its first route that has one.
pub proof fn law_first_route_with_a_gateway_counts(lines: Seq<Seq<char>>, k: int)
    ensures
        (0 <= k < lines.len() && route_gateway(text::words(lines[k])) is Some && forall|i: int|
            0 <= i < k ==> route_gateway(text::words(#[trigger] lines[i])) is None)
            ==> first_gateway(lines) == route_gateway(text::words(lines[k])),
        first_gateway(lines) is None <==> forall|i: int|
            0 <= i < lines.len() ==> route_gateway(text::words(#[trigger] lines[i])) is None,
    decreases lines.len(),
{
    if lines.len() > 0 {
        let rest = lines.skip(1);
        law_first_route_with_a_gateway_counts(rest, k - 1);
        if 0 < k < lines.len() && route_gateway(text::words(lines[k])) is Some && forall|i: int|
            0 <= i < k ==> route_gateway(text::words(#[trigger] lines[i])) is None {
            assert(route_gateway(text::words(lines[0])) is None);
            assert(rest[k - 1] == lines[k]);
            assert forall|i: int| 0 <= i < k - 1 implies route_gateway(
                text::words(#[trigger] rest[i]),
            ) is None by {
                assert(rest[i] == lines[i + 1]);
            }
        }
        if first_gateway(lines) is None {
            assert forall|i: int| 0 <= i < lines.len() implies route_gateway(
                text::words(#[trigger] lines[i]),
            ) is None by {
                if i > 0 {
                    assert(rest[i - 1] == lines[i]);
                }
            }
        }
        if forall|i: int|
            0 <= i < lines.len() ==> route_gateway(text::words(#[trigger] lines[i])) is None {
            assert(route_gateway(text::words(lines[0])) is None);
            assert forall|i: int| 0 <= i < rest.len() implies route_gateway(
                text::words(#[trigger] rest[i]),
            ) is None by {
                assert(rest[i] == lines[i + 1]);
            }
        }
    }
}

/// What each class is called, and what Core binds to in it.
pub proof fn law_classes_have_their_names_and_addresses()
    ensures
        class_text(TopologyClass::Local) == "local"@,
        class_text(TopologyClass::WslHost) == "wsl-host"@,
        class_text(TopologyClass::Remote) == "remote"@,
        bind_text(TopologyClass::Local) == "127.0.0.1"@,
        bind_text(TopologyClass::WslHost) == "0.0.0.0"@,
        bind_text(TopologyClass::Remote) == "0.0.0.0"@,
{
}

/// The outcome of every attempt is what the probe answered for that attempt's own URL.
pub proof fn law_outcomes_are_the_probes_answers<F: Fn(String) -> ProbeOutcome>(
    probe: F,
    attempts: Seq<Attempt>,
    a: Attempt,
)
    ensures
        answers_of(probe, Seq::empty()),
        answers_of(probe, attempts.push(a)) <==> answers_of(probe, attempts) && call_ensures(
            probe,
            (a.candidate.base_url,),
            a.outcome,
        ),
{
    let more = attempts.push(a);
    if answers_of(probe, more) {
        assert forall|i: int| 0 <= i < attempts.len() implies call_ensures(
            probe,
            ((#[trigger] attempts[i]).candidate.base_url,),
            attempts[i].outcome,
        ) by {
            assert(more[i] == attempts[i]);
        }
        assert(more[attempts.len() as int] == a);
    }
    if answers_of(probe, attempts) && call_ensures(probe, (a.candidate.base_url,), a.outcome) {
        assert forall|i: int| 0 <= i < more.len() implies call_ensures(
            probe,
            ((#[trigger] more[i]).candidate.base_url,),
            more[i].outcome,
        ) by {
            if i < attempts.len() {
                assert(more[i] == attempts[i]);
            }
        }
    }
}

} // verus!
