//! Alerts: what is kept of every mismatch that the identity gate catches.
//!
//! The log is a file of JSON lines. What a line holds is written down and read back
//! elsewhere; which lines count, and which alerts are recent, is decided here.

use crate::hardware::enrollment::EnrolledBoard;
use crate::lists;
use crate::text;
use vstd::prelude::*;
use vstd::string::*;

verus! {

/// Where the bench's user interface binds by default.
pub const UI_HOST: &'static str = "127.0.0.1";

pub const UI_PORT: u16 = 4890;

/// One mismatch that the identity gate caught.
#[derive(Debug, PartialEq, Eq)]
pub struct Alert {
    /// The time in hexadecimal milliseconds, and the process that raised it.
    pub id: String,
    pub occurred_at_utc_ms: u64,
    pub role: String,
    pub probe_serial: String,
    pub chip: String,
    pub recorded_hardware_id: String,
    pub live_hardware_id: Option<String>,
    pub reason: String,
}

#[verifier::ext_equal]
pub ghost struct AlertModel {
    pub id: Seq<char>,
    pub occurred_at_utc_ms: u64,
    pub role: Seq<char>,
    pub probe_serial: Seq<char>,
    pub chip: Seq<char>,
    pub recorded_hardware_id: Seq<char>,
    pub live_hardware_id: Option<Seq<char>>,
    pub reason: Seq<char>,
}

impl DeepView for Alert {
    type V = AlertModel;

    open spec fn deep_view(&self) -> AlertModel {
        AlertModel {
            id: self.id@,
            occurred_at_utc_ms: self.occurred_at_utc_ms,
            role: self.role@,
            probe_serial: self.probe_serial@,
            chip: self.chip@,
            recorded_hardware_id: self.recorded_hardware_id@,
            live_hardware_id: self.live_hardware_id.deep_view(),
            reason: self.reason@,
        }
    }
}

impl Clone for Alert {
    fn clone(&self) -> (r: Self)
        ensures
            r == *self,
    {
        Alert {
            id: self.id.clone(),
            occurred_at_utc_ms: self.occurred_at_utc_ms,
            role: self.role.clone(),
            probe_serial: self.probe_serial.clone(),
            chip: self.chip.clone(),
            recorded_hardware_id: self.recorded_hardware_id.clone(),
            live_hardware_id: self.live_hardware_id.clone(),
            reason: self.reason.clone(),
        }
    }
}

/// The alert for `known`, raised at a time by a process.
pub open spec fn raised(
    known: crate::hardware::enrollment::BoardModel,
    live_hardware_id: Option<Seq<char>>,
    reason: Seq<char>,
    occurred_at_utc_ms: u64,
    pid: u32,
) -> AlertModel {
    AlertModel {
        id: text::hex(occurred_at_utc_ms as nat) + "-"@ + text::decimal(pid as nat),
        occurred_at_utc_ms,
        role: known.role,
        probe_serial: text::or_empty(known.probe_serial),
        chip: known.chip,
        recorded_hardware_id: text::or_empty(known.hardware_id),
        live_hardware_id,
        reason,
    }
}

impl Alert {
    pub fn new(
        known: &EnrolledBoard,
        live_hardware_id: Option<String>,
        reason: String,
        occurred_at_utc_ms: u64,
        pid: u32,
    ) -> (r: Alert)
        ensures
            r.deep_view() == raised(
                known.deep_view(),
                live_hardware_id.deep_view(),
                reason@,
                occurred_at_utc_ms,
                pid,
            ),
    {
        let mut id = text::to_hex(occurred_at_utc_ms);
        id.append("-");
        id.append(text::to_decimal(pid as u64).as_str());
        Alert {
            id,
            occurred_at_utc_ms,
            role: known.role.clone(),
            probe_serial: text::text_or_empty(&known.probe_serial),
            chip: known.chip.clone(),
            recorded_hardware_id: text::text_or_empty(&known.hardware_id),
            live_hardware_id,
            reason,
        }
    }
}

pub open spec fn fix_it_text() -> Seq<char> {
    "http://"@ + UI_HOST@ + ":"@ + text::decimal(UI_PORT as nat) + "/#topology"@
}

/// Where a human goes to act on an alert: a fixed page that lists them.
pub fn fix_it_url() -> (r: String)
    ensures
        r@ == fix_it_text(),
{
    let mut r = "http://".to_string();
    r.append(UI_HOST);
    r.append(":");
    r.append(text::to_decimal(UI_PORT as u64).as_str());
    r.append("/#topology");
    r
}

// ---- the log ------------------------------------------------------------------

pub open spec fn is_blank(line: Seq<char>) -> bool {
    text::trimmed(line).len() == 0
}

/// The lines of the log that hold something.
pub open spec fn entries(contents: Seq<char>) -> Seq<Seq<char>> {
    text::lines(contents).filter(|l: Seq<char>| !is_blank(l))
}

/// The lines of the log that hold something, in order.
pub fn log_lines(contents: &str) -> (r: Vec<String>)
    ensures
        text::texts(r@) == entries(contents@),
{
    let mut r = text::split_lines(contents);
    assert(r.deep_view() =~= text::texts(r@));
    let holds_something = |l: &String| -> (b: bool)
        ensures
            b == !is_blank(l@)
    {
        let t = text::trim(l.as_str());
        text::to_chars(t.as_str()).len() > 0
    };
    lists::retain(&mut r, holds_something, Ghost(|l: Seq<char>| !is_blank(l)));
    assert(r.deep_view() =~= text::texts(r@));
    r
}

/// One alert, already written as JSON, as it is appended to the log.
pub fn log_entry(json: &str) -> (r: String)
    ensures
        r@ == json@ + seq!['\n'],
{
    let mut r = json.to_string();
    r.push('\n');
    assert(r@ =~= json@ + seq!['\n']);
    r
}

/// The last `limit` items; all of them if there are no more.
pub open spec fn latest<A>(all: Seq<A>, limit: nat) -> Seq<A> {
    if all.len() > limit {
        all.skip(all.len() - limit)
    } else {
        all
    }
}

/// The alerts among the parsed lines: a line that could not be read counts for
/// nothing.
pub open spec fn readable(parsed: Seq<Option<AlertModel>>) -> Seq<AlertModel> {
    parsed.filter_map(|a: Option<AlertModel>| a)
}

/// The most recent `limit` alerts, oldest first, from the entries of the log as
/// they were parsed; one that could not be parsed is `None`.
pub fn recent(parsed: &Vec<Option<Alert>>, limit: usize) -> (r: Vec<Alert>)
    ensures
        r.deep_view() == latest(readable(parsed.deep_view()), limit as nat),
{
    let mut all: Vec<Alert> = Vec::new();
    let ghost m = parsed.deep_view();
    let ghost f = |a: Option<AlertModel>| a;
    let mut i: usize = 0;
    assert(all.deep_view() =~= m.take(0).filter_map(f));
    while i < parsed.len()
        invariant
            i <= parsed@.len(),
            m == parsed.deep_view(),
            f == (|a: Option<AlertModel>| a),
            all.deep_view() == m.take(i as int).filter_map(f),
        decreases parsed@.len() - i,
    {
        let ghost before = all.deep_view();
        proof {
            m.lemma_filter_map_take_succ(f, i as int);
            assert(m[i as int] == parsed@[i as int].deep_view());
        }
        if let Some(a) = &parsed[i] {
            all.push(a.clone());
            assert(all.deep_view() =~= before + seq![a.deep_view()]);
        }
        assert(all.deep_view() =~= m.take(i + 1).filter_map(f));
        i += 1;
    }
    assert(m.take(i as int) =~= m);
    if all.len() > limit {
        let ghost before = all.deep_view();
        let cut: usize = all.len() - limit;
        let r = all.split_off(cut);
        assert(r.deep_view() =~= before.skip(cut as int));
        return r;
    }
    all
}

// ---- what the log promises -------------------------------------------------------

/// The alerts are the last ones, in order and at most `limit` many; with room for
/// all of them they are all of them.
pub proof fn law_recent_are_the_last(parsed: Seq<Option<AlertModel>>, limit: nat)
    ensures
        latest(readable(parsed), limit).len() <= limit,
        latest(readable(parsed), limit).is_suffix_of(readable(parsed)),
        parsed.len() <= limit ==> latest(readable(parsed), limit) == readable(parsed),
{
    lemma_readable_len(parsed);
    let all = readable(parsed);
    assert(latest(all, limit) =~= all.subrange(
        (all.len() - latest(all, limit).len()) as int,
        all.len() as int,
    ));
}

proof fn lemma_readable_len(parsed: Seq<Option<AlertModel>>)
    ensures
        readable(parsed).len() <= parsed.len(),
    decreases parsed.len(),
{
    if parsed.len() > 0 {
        lemma_readable_len(parsed.drop_last());
    }
}

/// An alert that was recorded last is the last of the recent ones, and a line that
/// could not be read changes nothing.
pub proof fn law_recorded_alert_is_recent(
    parsed: Seq<Option<AlertModel>>,
    alert: AlertModel,
    limit: nat,
)
    requires
        limit > 0,
    ensures
        latest(readable(parsed.push(Some(alert))), limit).len() > 0,
        latest(readable(parsed.push(Some(alert))), limit).last() == alert,
        readable(parsed.push(Some(alert))) == readable(parsed).push(alert),
        readable(parsed.push(None)) == readable(parsed),
{
    assert(parsed.push(Some(alert)).drop_last() =~= parsed);
    assert(parsed.push(None).drop_last() =~= parsed);
    assert(readable(parsed.push(Some(alert))) =~= readable(parsed).push(alert));
}

/// An entry appended to a log of whole lines is its one new line, after all the
/// others, and the log is then one of whole lines again. The line
/// itself holds no line end, and something else than white space.
pub proof fn law_appended_line_is_the_last_entry(contents: Seq<char>, line: Seq<char>)
    requires
        contents.len() > 0 ==> contents.last() == '\n',
        !line.contains('\n'),
        line.len() > 0 ==> line.last() != '\r',
        !is_blank(line),
    ensures
        entries(contents + (line + seq!['\n'])) == entries(contents).push(line),
        (contents + (line + seq!['\n'])).last() == '\n',
{
    assert(contents + (line + seq!['\n']) =~= contents + line + seq!['\n']);
    text::lemma_lines_append(contents, line);
    lists::lemma_filter_push(text::lines(contents), line, |l: Seq<char>| !is_blank(l));
}

/// An alert tells whose board it is and what was expected and read of it, as the row and
/// the check had them; a probe or an identity that the row lacks is told as nothing. Its
/// id is the time in hexadecimal, a hyphen and the process.
pub proof fn law_alert_tells_what_was_checked(
    known: crate::hardware::enrollment::BoardModel,
    live_hardware_id: Option<Seq<char>>,
    reason: Seq<char>,
    occurred_at_utc_ms: u64,
    pid: u32,
)
    ensures
        ({
            let a = raised(known, live_hardware_id, reason, occurred_at_utc_ms, pid);
            &&& a.role == known.role
            &&& a.chip == known.chip
            &&& a.live_hardware_id == live_hardware_id
            &&& a.reason == reason
            &&& a.occurred_at_utc_ms == occurred_at_utc_ms
            &&& known.probe_serial matches Some(s) ==> a.probe_serial == s
            &&& known.probe_serial is None ==> a.probe_serial.len() == 0
            &&& known.hardware_id matches Some(id) ==> a.recorded_hardware_id == id
            &&& known.hardware_id is None ==> a.recorded_hardware_id.len() == 0
            &&& a.id == text::hex(occurred_at_utc_ms as nat) + "-"@ + text::decimal(pid as nat)
        }),
{
}

/// Alerts of different times, or of different processes, have different ids.
pub proof fn law_alert_ids_are_distinct(ms: u64, pid: u32, other_ms: u64, other_pid: u32)
    ensures
        text::hex(ms as nat) + "-"@ + text::decimal(pid as nat) == text::hex(other_ms as nat)
            + "-"@ + text::decimal(other_pid as nat) ==> ms == other_ms && pid == other_pid,
{
    let (a, b) = (text::hex(ms as nat), text::hex(other_ms as nat));
    let (c, d) = (text::decimal(pid as nat), text::decimal(other_pid as nat));
    if a + "-"@ + c == b + "-"@ + d {
        reveal_strlit("-");
        text::law_hexadecimal_reads_back(ms as nat);
        text::law_hexadecimal_reads_back(other_ms as nat);
        text::law_decimal_reads_back(pid as nat);
        text::law_decimal_reads_back(other_pid as nat);
        let x = a + "-"@ + c;
        let y = b + "-"@ + d;
        if a.len() < b.len() {
            assert(x[a.len() as int] == '-');
            assert(y[a.len() as int] == b[a.len() as int]);
        }
        if b.len() < a.len() {
            assert(y[b.len() as int] == '-');
            assert(x[b.len() as int] == a[b.len() as int]);
        }
        assert(a =~= x.take(a.len() as int));
        assert(b =~= y.take(b.len() as int));
        assert(c =~= x.skip(a.len() as int + 1));
        assert(d =~= y.skip(b.len() as int + 1));
    }
}

/// Of the alerts that could be read the last ones are kept, as many as fit: none is lost
/// while there is room, and what is dropped is the oldest.
pub proof fn law_as_many_alerts_as_fit_are_kept<A>(all: Seq<A>, limit: nat)
    ensures
        all.len() <= limit ==> latest(all, limit) == all,
        all.len() > limit ==> latest(all, limit).len() == limit,
        forall|i: int|
            0 <= i < latest(all, limit).len() ==> #[trigger] latest(all, limit)[i] == all[all.len()
                - latest(all, limit).len() + i],
{
}

/// Every line that could be read is an alert, in order, and no other line is.
pub proof fn law_readable_lines_are_the_alerts(
    a: Seq<Option<AlertModel>>,
    b: Seq<Option<AlertModel>>,
    alert: AlertModel,
)
    ensures
        readable(a + b) == readable(a) + readable(b),
        readable(seq![Some(alert)]) == seq![alert],
        readable(seq![None]) == Seq::<AlertModel>::empty(),
        readable(Seq::empty()) == Seq::<AlertModel>::empty(),
    decreases b.len(),
{
    let f = |x: Option<AlertModel>| x;
    assert(readable(Seq::empty()) =~= Seq::<AlertModel>::empty());
    assert(Seq::<Option<AlertModel>>::empty().push(Some(alert)) =~= seq![Some(alert)]);
    assert(Seq::<Option<AlertModel>>::empty().push(None) =~= seq![None]);
    law_recorded_alert_is_recent(Seq::empty(), alert, 1);
    assert(readable(seq![Some(alert)]) =~= seq![alert]);
    if b.len() == 0 {
        assert(a + b =~= a);
        assert(readable(a) + readable(b) =~= readable(a));
    } else {
        let t = b.drop_last();
        law_readable_lines_are_the_alerts(a, t, alert);
        assert(a + b =~= (a + t).push(b.last()));
        assert(b =~= t.push(b.last()));
        match b.last() {
            Some(x) => {
                law_recorded_alert_is_recent(a + t, x, 1);
                law_recorded_alert_is_recent(t, x, 1);
            },
            None => {
                law_recorded_alert_is_recent(a + t, alert, 1);
                law_recorded_alert_is_recent(t, alert, 1);
            },
        }
        assert(readable(a + b) =~= readable(a) + readable(b));
    }
}

/// The entries of the log are its lines, in order, without those that are white space
/// alone.
pub proof fn law_entries_are_the_lines_that_say_something(contents: Seq<char>, line: Seq<char>)
    ensures
        entries(contents) == text::lines(contents).filter(
            |l: Seq<char>| exists|i: int| 0 <= i < l.len() && !text::is_white(#[trigger] l[i]),
        ),
        is_blank(line) <==> forall|i: int| 0 <= i < line.len() ==> text::is_white(#[trigger] line[i]),
{
    let p = |l: Seq<char>| !is_blank(l);
    let q = |l: Seq<char>| exists|i: int| 0 <= i < l.len() && !text::is_white(#[trigger] l[i]);
    assert forall|l: Seq<char>| #[trigger] p(l) == q(l) by {
        text::law_trimming_takes_off_white_space_alone(l);
    }
    assert(p =~= q);
    text::law_trimming_takes_off_white_space_alone(line);
}

/// Where a human is sent.
pub proof fn law_alerts_are_shown_on_the_local_page()
    ensures
        fix_it_text() == "http://127.0.0.1:4890/#topology"@,
{
    reveal_strlit("http://127.0.0.1:4890/#topology");
    reveal_strlit("http://");
    reveal_strlit("127.0.0.1");
    reveal_strlit(":");
    reveal_strlit("/#topology");
    reveal_with_fuel(text::decimal, 5);
    assert(text::decimal(4890) =~= seq!['4', '8', '9', '0']);
    assert(fix_it_text() =~= "http://127.0.0.1:4890/#topology"@);
}

} // verus!
