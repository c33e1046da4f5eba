//! Signals that leave a board, and where they go.
//!
//! A [`SignalLink`] is a declared fact: a wire between two headers is invisible
//! to software, so no detection can produce it.

use crate::hardware::enrollment::{Store, StoreModel};
use crate::hardware::port::{self, DetectedPort, Filter, SerialPortInfo};
use crate::lists;
use crate::text;
use vstd::prelude::*;
use vstd::string::*;

verus! {

/// Which way a signal travels.
#[derive(Debug, Clone, Copy, PartialEq, Eq, Structural)]
pub enum SignalDirection {
    DutToHost,
    HostToDut,
    Bidirectional,
}

/// Where a signal currently goes.
#[derive(Debug, PartialEq, Eq)]
pub enum Route {
    /// Straight to a serial port on the Core machine, bypassing dev-bench.
    /// `port_serial` is the bridge's own USB serial.
    Direct { port_serial: String },
    /// Terminates on declared dev-bench pins; dev-bench relays it over its own
    /// link, so it has no port of its own.
    ViaDevBench { rx_pin: String, tx_pin: String },
}

/// A named signal that originates at a board, with its declared route.
#[derive(Debug, PartialEq, Eq)]
pub struct SignalLink {
    /// What a study names when it taps this signal; unique within the table.
    pub name: String,
    /// The enrollment role the signal comes out of. A wire can be declared
    /// before the board that it leaves is enrolled.
    pub origin_role: String,
    pub direction: SignalDirection,
    pub route: Route,
}

pub ghost enum RouteModel {
    Direct { port_serial: Seq<char> },
    ViaDevBench { rx_pin: Seq<char>, tx_pin: Seq<char> },
}

#[verifier::ext_equal]
pub ghost struct SignalModel {
    pub name: Seq<char>,
    pub origin_role: Seq<char>,
    pub direction: SignalDirection,
    pub route: RouteModel,
}

impl DeepView for Route {
    type V = RouteModel;

    open spec fn deep_view(&self) -> RouteModel {
        match *self {
            Route::Direct { port_serial } => RouteModel::Direct { port_serial: port_serial@ },
            Route::ViaDevBench { rx_pin, tx_pin } => RouteModel::ViaDevBench {
                rx_pin: rx_pin@,
                tx_pin: tx_pin@,
            },
        }
    }
}

impl DeepView for SignalLink {
    type V = SignalModel;

    open spec fn deep_view(&self) -> SignalModel {
        SignalModel {
            name: self.name@,
            origin_role: self.origin_role@,
            direction: self.direction,
            route: self.route.deep_view(),
        }
    }
}

impl Clone for Route {
    fn clone(&self) -> (r: Self)
        ensures
            r == *self,
    {
        match self {
            Route::Direct { port_serial } => Route::Direct { port_serial: port_serial.clone() },
            Route::ViaDevBench { rx_pin, tx_pin } => Route::ViaDevBench {
                rx_pin: rx_pin.clone(),
                tx_pin: tx_pin.clone(),
            },
        }
    }
}

impl Clone for SignalLink {
    fn clone(&self) -> (r: Self)
        ensures
            r == *self,
    {
        SignalLink {
            name: self.name.clone(),
            origin_role: self.origin_role.clone(),
            direction: self.direction,
            route: self.route.clone(),
        }
    }
}

// ---- the table -----------------------------------------------------------------

pub open spec fn named(name: Seq<char>) -> spec_fn(SignalModel) -> bool {
    |s: SignalModel| s.name == name
}

pub open spec fn named_otherwise(name: Seq<char>) -> spec_fn(SignalModel) -> bool {
    |s: SignalModel| s.name != name
}

/// Every declared signal, in table order.
pub fn list(store: Store) -> (r: Vec<SignalLink>)
    ensures
        r == store.signals,
{
    store.signals
}

/// The signal declared as `name`; `None` when it is not declared yet.
pub fn find(store: &Store, name: &str) -> (r: Option<SignalLink>)
    ensures
        r.deep_view() == lists::first(store.deep_view().signals, named(name@)),
{
    let wanted = |s: &SignalLink| -> (x: bool)
        ensures
            x == named(name@)(s.deep_view())
    {
        text::same(s.name.as_str(), name)
    };
    let i: usize = lists::find_position(&store.signals, wanted, Ghost(named(name@)));
    if i < store.signals.len() {
        Some(store.signals[i].clone())
    } else {
        None
    }
}

/// The store after `link` was declared: it takes the place of what had its name.
pub open spec fn declared(store: StoreModel, link: SignalModel) -> StoreModel {
    StoreModel { signals: store.signals.filter(named_otherwise(link.name)).push(link), ..store }
}

pub open spec fn undeclared(store: StoreModel, name: Seq<char>) -> StoreModel {
    StoreModel { signals: store.signals.filter(named_otherwise(name)), ..store }
}

/// A signal without a name was to be declared.
#[derive(Debug, PartialEq, Eq)]
pub struct UnnamedSignal;

impl UnnamedSignal {
    pub fn message(&self) -> (r: String)
        ensures
            r@ == "a signal needs a name; it is what a Study taps it by"@,
    {
        "a signal needs a name; it is what a Study taps it by".to_string()
    }
}

/// Inserts `link`, or replaces the signal that has its name. A name that is blank
/// is refused, and nothing changes.
pub fn declare(store: &mut Store, link: SignalLink) -> (r: Result<(), UnnamedSignal>)
    ensures
        r is Err <==> text::trimmed(link.name@).len() == 0,
        r is Ok ==> final(store).deep_view() == declared(old(store).deep_view(), link.deep_view()),
        r is Err ==> *final(store) == *old(store),
{
    let name = text::trim(link.name.as_str());
    if text::to_chars(name.as_str()).len() == 0 {
        return Err(UnnamedSignal);
    }
    remove(store, link.name.as_str());
    let ghost kept = store.signals.deep_view();
    store.signals.push(link);
    assert(store.signals.deep_view() =~= kept.push(link.deep_view()));
    Ok(())
}

/// Removes the signal declared as `name`, and says whether there was one.
pub fn remove(store: &mut Store, name: &str) -> (removed: bool)
    ensures
        final(store).deep_view() == undeclared(old(store).deep_view(), name@),
        removed == (lists::first(old(store).deep_view().signals, named(name@)) is Some),
        !removed ==> *final(store) == *old(store),
{
    let wanted = |s: &SignalLink| -> (x: bool)
        ensures
            x == named(name@)(s.deep_view())
    {
        text::same(s.name.as_str(), name)
    };
    let i: usize = lists::find_position(&store.signals, wanted, Ghost(named(name@)));
    if i >= store.signals.len() {
        proof {
            lists::lemma_position(store.deep_view().signals, named(name@));
            lists::lemma_filter_all(store.deep_view().signals, named_otherwise(name@));
        }
        return false;
    }
    let stays = |s: &SignalLink| -> (x: bool)
        ensures
            x == named_otherwise(name@)(s.deep_view())
    {
        !text::same(s.name.as_str(), name)
    };
    lists::retain(&mut store.signals, stays, Ghost(named_otherwise(name@)));
    true
}

// ---- where a signal is now ---------------------------------------------------------

/// A declared signal is not where it says it is.
#[derive(Debug, PartialEq, Eq)]
pub struct SignalMismatch {
    pub name: String,
    pub origin_role: String,
    /// The USB serial that a `Direct` route declares.
    pub declared_port_serial: Option<String>,
    pub reason: String,
}

/// No signal is declared under this name: nothing has been wired yet.
#[derive(Debug, PartialEq, Eq)]
pub struct SignalNotDeclared {
    pub name: String,
}

/// Why a signal could not be resolved or validated.
#[derive(Debug, PartialEq, Eq)]
pub enum SignalError {
    NotDeclared(SignalNotDeclared),
    Mismatch(SignalMismatch),
    Enumeration(port::EnumerationFailed),
}

pub ghost enum SignalFailure {
    NotDeclared { name: Seq<char> },
    Mismatch {
        name: Seq<char>,
        origin_role: Seq<char>,
        declared_port_serial: Option<Seq<char>>,
        reason: Seq<char>,
    },
    Enumeration(Seq<char>),
}

impl DeepView for SignalError {
    type V = SignalFailure;

    open spec fn deep_view(&self) -> SignalFailure {
        match *self {
            SignalError::NotDeclared(e) => SignalFailure::NotDeclared { name: e.name@ },
            SignalError::Mismatch(e) => SignalFailure::Mismatch {
                name: e.name@,
                origin_role: e.origin_role@,
                declared_port_serial: e.declared_port_serial.deep_view(),
                reason: e.reason@,
            },
            SignalError::Enumeration(e) => SignalFailure::Enumeration(e.cause@),
        }
    }
}

pub open spec fn mismatch_text(
    name: Seq<char>,
    origin_role: Seq<char>,
    reason: Seq<char>,
) -> Seq<char> {
    "signal-mismatch: signal '"@ + name + "' (from role '"@ + origin_role + "') — "@ + reason
}

pub const DECLARE_FIRST: &'static str =
    "' — declare it first via \
     embarch_topology::hardware::declare_signal, since a wire between two headers \
     is invisible to software and can only ever be stated";

pub open spec fn not_declared_text(name: Seq<char>) -> Seq<char> {
    "no signal declared under the name '"@ + name + DECLARE_FIRST@
}

impl SignalMismatch {
    pub fn message(&self) -> (r: String)
        ensures
            r@ == mismatch_text(self.name@, self.origin_role@, self.reason@),
    {
        let mut r = "signal-mismatch: signal '".to_string();
        r.append(self.name.as_str());
        r.append("' (from role '");
        r.append(self.origin_role.as_str());
        r.append("') — ");
        r.append(self.reason.as_str());
        r
    }
}

impl SignalNotDeclared {
    pub fn message(&self) -> (r: String)
        ensures
            r@ == not_declared_text(self.name@),
    {
        let mut r = "no signal declared under the name '".to_string();
        r.append(self.name.as_str());
        r.append(DECLARE_FIRST);
        r
    }
}

impl SignalError {
    /// What a human is told.
    pub fn message(&self) -> (r: String)
        ensures
            r@ == (match self.deep_view() {
                SignalFailure::NotDeclared { name } => not_declared_text(name),
                SignalFailure::Mismatch { name, origin_role, reason, .. } => mismatch_text(
                    name,
                    origin_role,
                    reason,
                ),
                SignalFailure::Enumeration(_) => "failed to enumerate serial ports"@,
            }),
    {
        match self {
            SignalError::NotDeclared(e) => e.message(),
            SignalError::Mismatch(e) => e.message(),
            SignalError::Enumeration(e) => e.message(),
        }
    }
}

/// Why a relayed signal has no port.
pub const RELAYED: &'static str =
    "its route is via-dev-bench, so it has no port of its own — it arrives \
     relayed over dev-bench's existing link, resolved by \
     resolve_dev_bench_port()";

/// Why a direct signal's port was not found.
pub open spec fn bridge_missing_text(port_serial: Seq<char>, why: Seq<char>) -> Seq<char> {
    "its declared bridge (USB serial '"@ + port_serial
        + "') is not currently enumerable: "@ + why
}

/// The enumerated ports, or what the operating system answered instead.
pub open spec fn ports_view(ports: Result<Vec<SerialPortInfo>, String>) -> Result<
    Seq<port::SerialPortModel>,
    Seq<char>,
> {
    match ports {
        Ok(ps) => Ok(ps.deep_view()),
        Err(cause) => Err(cause@),
    }
}

/// The port that carries `link` now. A relayed signal has none; a direct one is on
/// the port with the declared serial.
pub open spec fn carrier(
    link: SignalModel,
    ports: Result<Seq<port::SerialPortModel>, Seq<char>>,
) -> Result<port::PortModel, SignalFailure> {
    match (link.route, ports) {
        (RouteModel::ViaDevBench { .. }, _) => Err(
            SignalFailure::Mismatch {
                name: link.name,
                origin_role: link.origin_role,
                declared_port_serial: None,
                reason: RELAYED@,
            },
        ),
        (RouteModel::Direct { .. }, Err(cause)) => Err(SignalFailure::Enumeration(cause)),
        (RouteModel::Direct { port_serial }, Ok(ps)) => match port::selected(
            ps,
            port::declared_serial_filter(port_serial),
        ) {
            Ok(p) => Ok(p),
            Err(e) => Err(
                SignalFailure::Mismatch {
                    name: link.name,
                    origin_role: link.origin_role,
                    declared_port_serial: Some(port_serial),
                    reason: bridge_missing_text(port_serial, port::select_failure_text(e)),
                },
            ),
        },
    }
}

pub open spec fn port_result(r: Result<DetectedPort, SignalError>) -> Result<
    port::PortModel,
    SignalFailure,
> {
    match r {
        Ok(p) => Ok(p.deep_view()),
        Err(e) => Err(e.deep_view()),
    }
}

/// Resolves `link` to the serial port that carries it.
pub fn resolve_link_port(
    link: &SignalLink,
    ports: &Result<Vec<SerialPortInfo>, String>,
) -> (r: Result<DetectedPort, SignalError>)
    ensures
        port_result(r) == carrier(link.deep_view(), ports_view(*ports)),
{
    let port_serial = match &link.route {
        Route::Direct { port_serial } => port_serial,
        Route::ViaDevBench { .. } => {
            return Err(
                SignalError::Mismatch(
                    SignalMismatch {
                        name: link.name.clone(),
                        origin_role: link.origin_role.clone(),
                        declared_port_serial: None,
                        reason: RELAYED.to_string(),
                    },
                ),
            );
        },
    };
    let ps = match ports {
        Ok(ps) => ps,
        Err(cause) => {
            return Err(
                SignalError::Enumeration(port::EnumerationFailed { cause: cause.clone() }),
            );
        },
    };
    match port::select(ps, &Filter::for_declared_serial(port_serial.as_str())) {
        Ok(p) => Ok(p),
        Err(e) => {
            let mut reason = "its declared bridge (USB serial '".to_string();
            reason.append(port_serial.as_str());
            reason.append("') is not currently enumerable: ");
            reason.append(e.message().as_str());
            Err(
                SignalError::Mismatch(
                    SignalMismatch {
                        name: link.name.clone(),
                        origin_role: link.origin_role.clone(),
                        declared_port_serial: Some(port_serial.clone()),
                        reason,
                    },
                ),
            )
        },
    }
}

/// What [`resolve_port`] returns.
pub open spec fn carrier_of(
    store: StoreModel,
    name: Seq<char>,
    ports: Result<Seq<port::SerialPortModel>, Seq<char>>,
) -> Result<port::PortModel, SignalFailure> {
    match lists::first(store.signals, named(name)) {
        Some(link) => carrier(link, ports),
        None => Err(SignalFailure::NotDeclared { name }),
    }
}

/// Resolves the signal declared as `name` to the serial port that carries it.
pub fn resolve_port(
    store: &Store,
    name: &str,
    ports: &Result<Vec<SerialPortInfo>, String>,
) -> (r: Result<DetectedPort, SignalError>)
    ensures
        port_result(r) == carrier_of(store.deep_view(), name@, ports_view(*ports)),
{
    match find(store, name) {
        Some(link) => resolve_link_port(&link, ports),
        None => Err(SignalError::NotDeclared(SignalNotDeclared { name: name.to_string() })),
    }
}

/// What [`validate`] returns: a relayed signal is valid for being declared, a
/// direct one if its port is there now.
pub open spec fn validated(
    store: StoreModel,
    name: Seq<char>,
    ports: Result<Seq<port::SerialPortModel>, Seq<char>>,
) -> Result<SignalModel, SignalFailure> {
    match lists::first(store.signals, named(name)) {
        Some(link) => match (link.route, carrier(link, ports)) {
            (RouteModel::ViaDevBench { .. }, _) => Ok(link),
            (RouteModel::Direct { .. }, Ok(_)) => Ok(link),
            (RouteModel::Direct { .. }, Err(e)) => Err(e),
        },
        None => Err(SignalFailure::NotDeclared { name }),
    }
}

pub open spec fn link_result(r: Result<SignalLink, SignalError>) -> Result<
    SignalModel,
    SignalFailure,
> {
    match r {
        Ok(link) => Ok(link.deep_view()),
        Err(e) => Err(e.deep_view()),
    }
}

/// Confirms that a declared signal is where it says it is, before an operation
/// that needs it. That the wire really lands on the declared bridge is something
/// that nothing observable over USB can say.
pub fn validate(
    store: &Store,
    name: &str,
    ports: &Result<Vec<SerialPortInfo>, String>,
) -> (r: Result<SignalLink, SignalError>)
    ensures
        link_result(r) == validated(store.deep_view(), name@, ports_view(*ports)),
{
    let link = match find(store, name) {
        Some(link) => link,
        None => {
            return Err(SignalError::NotDeclared(SignalNotDeclared { name: name.to_string() }));
        },
    };
    match &link.route {
        Route::Direct { .. } => {
            match resolve_link_port(&link, ports) {
                Ok(_) => {},
                Err(e) => {
                    return Err(e);
                },
            }
        },
        Route::ViaDevBench { .. } => {},
    }
    Ok(link)
}

// ---- what the table promises ----------------------------------------------------------

/// No two signals have one name.
pub open spec fn unique_names(signals: Seq<SignalModel>) -> bool {
    forall|i: int, j: int|
        0 <= i < j < signals.len() ==> (#[trigger] signals[i]).name != (#[trigger] signals[j]).name
}

/// Declaring and removing keep the names unique; the empty table has unique names.
pub proof fn law_names_stay_unique(store: StoreModel, link: SignalModel, name: Seq<char>)
    requires
        unique_names(store.signals),
    ensures
        unique_names(crate::hardware::enrollment::empty_store().signals),
        unique_names(declared(store, link).signals),
        unique_names(undeclared(store, name).signals),
{
    lemma_filter_unique(store.signals, named_otherwise(name));
    lemma_filter_unique(store.signals, named_otherwise(link.name));
    let kept = store.signals.filter(named_otherwise(link.name));
    assert forall|i: int| 0 <= i < kept.len() implies (#[trigger] kept[i]).name != link.name by {
        lists::lemma_filter_item(store.signals, named_otherwise(link.name), i);
    }
}

proof fn lemma_filter_unique(signals: Seq<SignalModel>, p: spec_fn(SignalModel) -> bool)
    requires
        unique_names(signals),
    ensures
        unique_names(signals.filter(p)),
{
    let kept = signals.filter(p);
    assert forall|i: int, j: int| 0 <= i < j < kept.len() implies (#[trigger] kept[i]).name != (
    #[trigger] kept[j]).name by {
        lists::lemma_filter_order(signals, p, i, j);
    }
}

/// A signal that was declared is found by its name, as it was declared last: to
/// declare it again is to move its route. Declaring is idempotent, and the other
/// signals and the boards stay.
pub proof fn law_declared_signal_is_found(store: StoreModel, link: SignalModel)
    ensures
        lists::first(declared(store, link).signals, named(link.name)) == Some(link),
        declared(declared(store, link), link) == declared(store, link),
        declared(store, link).boards == store.boards,
        forall|i: int|
            0 <= i < store.signals.len() && (#[trigger] store.signals[i]).name != link.name
                ==> declared(store, link).signals.contains(store.signals[i]),
{
    let p = named_otherwise(link.name);
    let kept = store.signals.filter(p);
    let after = kept.push(link);
    assert forall|i: int| 0 <= i < kept.len() implies p(#[trigger] kept[i]) && !named(link.name)(
        after[i],
    ) by {
        lists::lemma_filter_item(store.signals, p, i);
        assert(after[i] == kept[i]);
    }
    assert forall|i: int| 0 <= i < kept.len() implies !named(link.name)(#[trigger] after[i]) by {
        assert(p(kept[i]));
    }
    lists::lemma_position_is(after, named(link.name), kept.len() as int);
    lists::lemma_filter_all(kept, p);
    lists::lemma_filter_push(kept, link, p);
    assert forall|i: int|
        0 <= i < store.signals.len() && (#[trigger] store.signals[i]).name
            != link.name implies after.contains(store.signals[i]) by {
        store.signals.lemma_filter_contains(p, i);
        let k = choose|k: int| 0 <= k < kept.len() && kept[k] == store.signals[i];
        assert(after[k] == store.signals[i]);
    }
}

/// Declaring under a name replaces whatever the name stood for.
pub proof fn law_redeclaring_replaces(store: StoreModel, before: SignalModel, link: SignalModel)
    requires
        before.name == link.name,
    ensures
        declared(declared(store, before), link) == declared(store, link),
{
    let p = named_otherwise(link.name);
    let kept = store.signals.filter(p);
    assert forall|i: int| 0 <= i < kept.len() implies p(#[trigger] kept[i]) by {
        lists::lemma_filter_item(store.signals, p, i);
    }
    lists::lemma_filter_all(kept, p);
    lists::lemma_filter_push(kept, before, p);
}

/// After a signal was removed its name finds nothing, and the boards stay.
/// Removing takes back a declaration that replaced nothing.
pub proof fn law_removed_signal_is_gone(store: StoreModel, link: SignalModel, name: Seq<char>)
    ensures
        lists::first(undeclared(store, name).signals, named(name)) is None,
        undeclared(store, name).boards == store.boards,
        lists::first(store.signals, named(link.name)) is None ==> undeclared(
            declared(store, link),
            link.name,
        ) == store,
{
    let p = named_otherwise(name);
    let after = store.signals.filter(p);
    assert forall|i: int| 0 <= i < after.len() implies !named(name)(#[trigger] after[i]) by {
        lists::lemma_filter_item(store.signals, p, i);
    }
    lists::lemma_position_is(after, named(name), after.len() as int);
    if lists::first(store.signals, named(link.name)) is None {
        let q = named_otherwise(link.name);
        lists::lemma_position(store.signals, named(link.name));
        assert forall|i: int| 0 <= i < store.signals.len() implies q(
            #[trigger] store.signals[i],
        ) by {
            assert(!named(link.name)(store.signals[i]));
        }
        lists::lemma_filter_all(store.signals, q);
        lists::lemma_filter_push(store.signals, link, q);
    }
}

/// A signal is valid exactly if it is declared and, where its route is direct, its
/// port can be named; and what is valid is the declaration itself. A relayed signal
/// is valid whatever is plugged in, and never has a port.
pub proof fn law_valid_is_declared_and_carried(
    store: StoreModel,
    name: Seq<char>,
    ports: Result<Seq<port::SerialPortModel>, Seq<char>>,
)
    ensures
        validated(store, name, ports) is Ok <==> (match lists::first(store.signals, named(name)) {
            Some(link) => link.route is ViaDevBench || carrier_of(store, name, ports) is Ok,
            None => false,
        }),
        validated(store, name, ports) matches Ok(link) ==> lists::first(
            store.signals,
            named(name),
        ) == Some(link),
        lists::first(store.signals, named(name)) matches Some(link) && link.route is ViaDevBench
            ==> carrier_of(store, name, ports) is Err,
{
}

// ---- the table and the ports, item by item ------------------------------------------------

/// A name finds the first signal that has it, to the letter, and nothing where none has.
pub proof fn law_name_finds_the_first_signal_that_has_it(
    signals: Seq<SignalModel>,
    name: Seq<char>,
    k: int,
)
    ensures
        (0 <= k < signals.len() && signals[k].name == name && forall|i: int|
            0 <= i < k ==> (#[trigger] signals[i]).name != name) ==> lists::first(
            signals,
            named(name),
        ) == Some(signals[k]),
        lists::first(signals, named(name)) is None <==> forall|i: int|
            0 <= i < signals.len() ==> (#[trigger] signals[i]).name != name,
{
    let p = named(name);
    lists::lemma_position(signals, p);
    if 0 <= k < signals.len() && signals[k].name == name && forall|i: int|
        0 <= i < k ==> (#[trigger] signals[i]).name != name {
        lists::lemma_position_is(signals, p, k);
    }
    if lists::first(signals, p) is None {
        assert forall|i: int| 0 <= i < signals.len() implies (#[trigger] signals[i]).name
            != name by {
            assert(!p(signals[i]));
        }
    }
}

/// Declaring takes out the signals with the name and puts the new one last; removing only
/// takes them out. Every other signal stays, as it was and in its order, and so does
/// everything else in the store.
pub proof fn law_declaring_and_removing_touch_one_name(store: StoreModel, link: SignalModel)
    ensures
        ({
            let others = store.signals.filter(|s: SignalModel| s.name != link.name);
            &&& declared(store, link).signals == others.push(link)
            &&& undeclared(store, link.name).signals == others
            &&& declared(store, link) == StoreModel {
                signals: declared(store, link).signals,
                ..store
            }
            &&& undeclared(store, link.name) == StoreModel {
                signals: undeclared(store, link.name).signals,
                ..store
            }
        }),
        declared(store, link).signals.contains(link),
        forall|s: SignalModel|
            s.name != link.name ==> (declared(store, link).signals.contains(s)
                == #[trigger] store.signals.contains(s)),
        forall|i: int|
            0 <= i < declared(store, link).signals.len() - 1 ==> (
            #[trigger] declared(store, link).signals[i]).name != link.name,
        forall|s: SignalModel|
            undeclared(store, link.name).signals.contains(s) <==> s.name != link.name
                && #[trigger] store.signals.contains(s),
{
    let p = named_otherwise(link.name);
    let kept = store.signals.filter(p);
    assert(p =~= |s: SignalModel| s.name != link.name);
    assert forall|s: SignalModel|
        kept.contains(s) <==> s.name != link.name && #[trigger] store.signals.contains(s) by {
        if kept.contains(s) {
            let i = choose|i: int| 0 <= i < kept.len() && kept[i] == s;
            lists::lemma_filter_item(store.signals, p, i);
        }
        if s.name != link.name && store.signals.contains(s) {
            let i = choose|i: int| 0 <= i < store.signals.len() && store.signals[i] == s;
            store.signals.lemma_filter_contains(p, i);
        }
    }
    let after = declared(store, link).signals;
    assert(after == kept.push(link));
    assert(after[kept.len() as int] == link);
    assert forall|s: SignalModel| s.name != link.name implies after.contains(s)
        == #[trigger] store.signals.contains(s) by {
        if after.contains(s) {
            let i = choose|i: int| 0 <= i < after.len() && after[i] == s;
            assert(kept[i] == s);
            assert(kept.contains(s));
        }
        if store.signals.contains(s) {
            assert(kept.contains(s));
            let i = choose|i: int| 0 <= i < kept.len() && kept[i] == s;
            assert(after[i] == s);
        }
    }
    assert forall|i: int| 0 <= i < after.len() - 1 implies (#[trigger] after[i]).name
        != link.name by {
        lists::lemma_filter_item(store.signals, p, i);
        assert(after[i] == kept[i]);
    }
}

/// A direct signal is carried by a port that reports the serial it was declared with,
/// whatever the port's vendor and product: by the only one that does, and else by one of
/// the interfaces of the one device that does. The port is reported as it was enumerated.
/// Where no port reports the serial, the signal has none, and the refusal names the
/// signal, its board and that serial.
pub proof fn law_direct_signal_is_on_the_port_with_its_serial(
    link: SignalModel,
    port_serial: Seq<char>,
    ports: Seq<port::SerialPortModel>,
)
    requires
        link.route == (RouteModel::Direct { port_serial }),
    ensures
        match carrier(link, Ok(ports)) {
            Ok(p) => {
                &&& p.serial_number matches Some(s) && port::normalized(s) == port::normalized(
                    port_serial,
                )
                &&& p.detected_by == "declared-serial"@
                &&& exists|k: int|
                    {
                        &&& 0 <= k < ports.len()
                        &&& (#[trigger] ports[k]).usb is Some
                        &&& p.port_name == ports[k].port_name
                        &&& p.vendor_id == Some(ports[k].usb->0.vid)
                        &&& p.product_id == Some(ports[k].usb->0.pid)
                        &&& p.serial_number == ports[k].usb->0.serial_number
                        &&& p.product == ports[k].usb->0.product
                        &&& p.interface == ports[k].usb->0.interface
                    }
            },
            Err(SignalFailure::Mismatch { name, origin_role, declared_port_serial, .. }) => {
                &&& name == link.name
                &&& origin_role == link.origin_role
                &&& declared_port_serial == Some(port_serial)
            },
            Err(_) => false,
        },
        (forall|i: int| 0 <= i < ports.len() ==> !port::reports(#[trigger] ports[i], port_serial))
            ==> carrier(link, Ok(ports)) is Err,
        forall|k: int|
            (0 <= k < ports.len() && port::reports(#[trigger] ports[k], port_serial) && forall|
                i: int,
            |
                0 <= i < ports.len() && i != k ==> !port::reports(
                    #[trigger] ports[i],
                    port_serial,
                )) ==> carrier(link, Ok(ports)) == Ok::<port::PortModel, SignalFailure>(
                port::PortModel {
                    port_name: ports[k].port_name,
                    detected_by: "declared-serial"@,
                    vendor_id: Some(ports[k].usb->0.vid),
                    product_id: Some(ports[k].usb->0.pid),
                    serial_number: ports[k].usb->0.serial_number,
                    product: ports[k].usb->0.product,
                    interface: ports[k].usb->0.interface,
                    guessed_among: None,
                },
            ),
{
    let f = port::declared_serial_filter(port_serial);
    let q = port::meets(ports, f);
    let left = ports.filter(q);
    port::law_selection_is_among_the_ports_that_qualify(ports, f);
    assert forall|i: int| 0 <= i < ports.len() implies (q(#[trigger] ports[i]) <==> port::reports(
        ports[i],
        port_serial,
    )) by {}
    if let Ok(p) = carrier(link, Ok(ports)) {
        let l = choose|l: int|
            0 <= l < left.len() && port::PortModel { guessed_among: None, ..p } == port::found_as(
                #[trigger] left[l],
                f,
            );
        lists::lemma_filter_item(ports, q, l);
        let k = choose|k: int| 0 <= k < ports.len() && ports[k] == left[l];
        assert(port::reports(ports[k], port_serial));
    }
    assert forall|k: int|
        (0 <= k < ports.len() && port::reports(#[trigger] ports[k], port_serial) && forall|i: int|
            0 <= i < ports.len() && i != k ==> !port::reports(
                #[trigger] ports[i],
                port_serial,
            )) implies carrier(link, Ok(ports)) == Ok::<port::PortModel, SignalFailure>(
        port::PortModel {
            port_name: ports[k].port_name,
            detected_by: "declared-serial"@,
            vendor_id: Some(ports[k].usb->0.vid),
            product_id: Some(ports[k].usb->0.pid),
            serial_number: ports[k].usb->0.serial_number,
            product: ports[k].usb->0.product,
            interface: ports[k].usb->0.interface,
            guessed_among: None,
        },
    ) by {
        lists::lemma_filter_one(ports, q, k);
    }
    if forall|i: int| 0 <= i < ports.len() ==> !port::reports(#[trigger] ports[i], port_serial) {
        if left.len() > 0 {
            lists::lemma_filter_item(ports, q, 0);
        }
    }
}

/// Several ports that report a direct signal's serial carry it only if they are the
/// numbered interfaces of one device; the answer is then the lowest of them, and says how
/// many there were.
pub proof fn law_shared_serial_is_one_device_or_no_answer(
    link: SignalModel,
    port_serial: Seq<char>,
    ports: Seq<port::SerialPortModel>,
)
    requires
        link.route == (RouteModel::Direct { port_serial }),
    ensures
        ({
            let with_serial = ports.filter(
                |p: port::SerialPortModel| port::reports(p, port_serial),
            );
            &&& carrier(link, Ok(ports)) is Ok <==> with_serial.len() == 1 || (with_serial.len()
                > 1 && port::interfaces_of_one_device(with_serial))
            &&& carrier(link, Ok(ports)) matches Ok(p) ==> p.guessed_among == (
            if with_serial.len() > 1 {
                Some(with_serial.len())
            } else {
                None
            }) && forall|j: int|
                0 <= j < with_serial.len() ==> {
                    let u = (#[trigger] with_serial[j]).usb->0;
                    port::interface_rank(p.interface) < port::interface_rank(u.interface) || (
                    p.interface == u.interface && text::lex_le(
                        p.port_name,
                        with_serial[j].port_name,
                    ))
                }
        }),
{
    let f = port::declared_serial_filter(port_serial);
    let q = |p: port::SerialPortModel| port::reports(p, port_serial);
    port::law_selection_is_among_the_ports_that_qualify(ports, f);
    if let Ok(p) = carrier(link, Ok(ports)) {
        let left = ports.filter(port::meets(ports, f));
        assert(port::meets(ports, f) =~= q);
        assert forall|j: int| 0 <= j < left.len() implies ({
            let u = (#[trigger] left[j]).usb->0;
            port::interface_rank(p.interface) < port::interface_rank(u.interface) || (p.interface
                == u.interface && text::lex_le(p.port_name, left[j].port_name))
        }) by {
            assert(port::no_later(p, port::found_as(left[j], f)));
        }
    }
    assert(port::meets(ports, f) =~= |p: port::SerialPortModel| port::reports(p, port_serial));
}

/// A relayed signal never has a port of its own, whatever is plugged in and whether the
/// ports could be enumerated or not, and no serial is held against it. For a direct one
/// ports that could not be enumerated are that failure, with its cause, and no mismatch.
pub proof fn law_refusals_tell_relayed_from_missing(
    link: SignalModel,
    ports: Result<Seq<port::SerialPortModel>, Seq<char>>,
    cause: Seq<char>,
)
    ensures
        link.route is ViaDevBench ==> (carrier(link, ports) matches Err(
            SignalFailure::Mismatch { name, origin_role, declared_port_serial, reason },
        ) && name == link.name && origin_role == link.origin_role && declared_port_serial is None
            && reason == RELAYED@),
        link.route is Direct ==> carrier(link, Err(cause)) == Err::<port::PortModel, SignalFailure>(
            SignalFailure::Enumeration(cause),
        ),
        (link.route is Direct && ports matches Ok(ps)) ==> (carrier(link, ports) matches Err(e)
            ==> (e matches SignalFailure::Mismatch { reason, .. } && text::occurs(
            reason,
            "(USB serial '"@ + link.route->port_serial + "') is not currently enumerable: "@,
        ))),
{
    if link.route is Direct && ports is Ok {
        let serial = link.route->port_serial;
        if let Err(e) = port::selected(ports->Ok_0, port::declared_serial_filter(serial)) {
            let why = port::select_failure_text(e);
            let head = "its declared bridge "@;
            let middle = "(USB serial '"@ + serial + "') is not currently enumerable: "@;
            reveal_strlit("its declared bridge (USB serial '");
            reveal_strlit("its declared bridge ");
            reveal_strlit("(USB serial '");
            assert("its declared bridge (USB serial '"@ =~= head + "(USB serial '"@);
            assert(bridge_missing_text(serial, why) =~= head + middle + why);
            text::lemma_occurs_between(head, middle, why);
        }
    }
}

/// What a name resolves to and what it validates to are about the first signal that has
/// it: a relayed one is valid as declared, a direct one is valid, as declared, exactly if
/// it has a port, and otherwise refused in the same words. A name that no signal has is
/// refused by that name.
pub proof fn law_names_resolve_to_the_first_signal(
    store: StoreModel,
    name: Seq<char>,
    ports: Result<Seq<port::SerialPortModel>, Seq<char>>,
    k: int,
)
    ensures
        (0 <= k < store.signals.len() && store.signals[k].name == name && forall|i: int|
            0 <= i < k ==> (#[trigger] store.signals[i]).name != name) ==> ({
            let link = store.signals[k];
            &&& carrier_of(store, name, ports) == carrier(link, ports)
            &&& link.route is ViaDevBench ==> validated(store, name, ports) == Ok::<
                SignalModel,
                SignalFailure,
            >(link)
            &&& link.route is Direct ==> validated(store, name, ports) == (match carrier(
                link,
                ports,
            ) {
                Ok(_) => Ok::<SignalModel, SignalFailure>(link),
                Err(e) => Err(e),
            })
        }),
        (forall|i: int| 0 <= i < store.signals.len() ==> (#[trigger] store.signals[i]).name != name)
            ==> carrier_of(store, name, ports) == Err::<port::PortModel, SignalFailure>(
            SignalFailure::NotDeclared { name },
        ) && validated(store, name, ports) == Err::<SignalModel, SignalFailure>(
            SignalFailure::NotDeclared { name },
        ),
{
    law_name_finds_the_first_signal_that_has_it(store.signals, name, k);
}

/// A direct signal is valid only while a port that reports its serial is enumerated, and
/// one such port is enough.
pub proof fn law_direct_signal_is_valid_while_its_serial_is_there(
    store: StoreModel,
    name: Seq<char>,
    ports: Seq<port::SerialPortModel>,
    k: int,
)
    requires
        0 <= k < store.signals.len(),
        store.signals[k].name == name,
        forall|i: int| 0 <= i < k ==> (#[trigger] store.signals[i]).name != name,
        store.signals[k].route is Direct,
    ensures
        ({
            let serial = store.signals[k].route->port_serial;
            &&& validated(store, name, Ok(ports)) is Ok ==> exists|i: int|
                0 <= i < ports.len() && port::reports(#[trigger] ports[i], serial)
            &&& forall|i: int|
                (0 <= i < ports.len() && port::reports(#[trigger] ports[i], serial) && forall|
                    j: int,
                |
                    0 <= j < ports.len() && j != i ==> !port::reports(#[trigger] ports[j], serial))
                    ==> validated(store, name, Ok(ports)) is Ok
        }),
{
    law_names_resolve_to_the_first_signal(store, name, Ok(ports), k);
    law_direct_signal_is_on_the_port_with_its_serial(
        store.signals[k],
        store.signals[k].route->port_serial,
        ports,
    );
}

/// The messages name the signal that is meant, the board it leaves, and the reason.
pub proof fn law_signal_messages_name_the_signal(
    name: Seq<char>,
    origin_role: Seq<char>,
    reason: Seq<char>,
)
    ensures
        text::occurs(mismatch_text(name, origin_role, reason), "'"@ + name + "' (from role '"@),
        text::occurs(
            mismatch_text(name, origin_role, reason),
            "(from role '"@ + origin_role + "') — "@ + reason,
        ),
        text::occurs(not_declared_text(name), "under the name '"@ + name + "'"@),
{
    reveal_strlit("signal-mismatch: signal '");
    reveal_strlit("signal-mismatch: signal ");
    reveal_strlit("' (from role '");
    reveal_strlit("' ");
    reveal_strlit("'");
    reveal_strlit("(from role '");
    reveal_strlit("no signal declared under the name '");
    reveal_strlit("no signal declared ");
    reveal_strlit("under the name '");
    reveal_strlit(
        "' — declare it first via \
     embarch_topology::hardware::declare_signal, since a wire between two headers \
     is invisible to software and can only ever be stated",
    );
    let m = mismatch_text(name, origin_role, reason);
    let a = "signal-mismatch: signal "@;
    let n1 = "'"@ + name + "' (from role '"@;
    let b1 = origin_role + "') — "@ + reason;
    assert("signal-mismatch: signal '"@ =~= a + "'"@);
    assert(m =~= a + n1 + b1);
    text::lemma_occurs_between(a, n1, b1);
    let a2 = "signal-mismatch: signal '"@ + name + "' "@;
    let n2 = "(from role '"@ + origin_role + "') — "@ + reason;
    assert("' (from role '"@ =~= "' "@ + "(from role '"@);
    assert(m =~= a2 + n2 + Seq::empty());
    text::lemma_occurs_between(a2, n2, Seq::empty());
    let n3 = "under the name '"@ + name + "'"@;
    let b3 = DECLARE_FIRST@.skip(1);
    assert("no signal declared under the name '"@ =~= "no signal declared "@
        + "under the name '"@);
    assert(DECLARE_FIRST@ =~= "'"@ + b3);
    assert(not_declared_text(name) =~= "no signal declared "@ + n3 + b3);
    text::lemma_occurs_between("no signal declared "@, n3, b3);
}

} // verus!
