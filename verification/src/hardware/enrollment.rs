//! The enrollment table: which physical board a debug probe is wired to.
//!
//! It is the one thing that is persisted, because it is declared intent: nothing
//! in a USB descriptor says "I am wired to the DUT".

use crate::hardware::port::DEV_BENCH_ROLE;
use crate::hardware::signal::{SignalLink, SignalModel};
use crate::lists;
use crate::text;
use vstd::prelude::*;
use vstd::string::*;

verus! {

/// The one role a DUT is enrolled under.
pub const DUT_ROLE: &'static str = "dut";

/// The whole role vocabulary: closed where roles are written, tolerant where a
/// table is loaded.
pub const CANONICAL_ROLES: [&'static str; 2] = [DEV_BENCH_ROLE, DUT_ROLE];

pub open spec fn canonical_role(role: Seq<char>) -> bool {
    exists|i: int| 0 <= i < CANONICAL_ROLES@.len() && #[trigger] CANONICAL_ROLES@[i]@ == role
}

/// Whether `role` is one of the two roles.
pub fn is_canonical_role(role: &str) -> (r: bool)
    ensures
        r == canonical_role(role@),
        r == (role@ == DEV_BENCH_ROLE@ || role@ == DUT_ROLE@),
{
    let roles = CANONICAL_ROLES;
    assert(roles@.len() == 2 && roles@[0]@ == DEV_BENCH_ROLE@ && roles@[1]@ == DUT_ROLE@);
    text::same(role, roles[0]) || text::same(role, roles[1])
}

// ---- rows --------------------------------------------------------------------

/// One row: a role, the board type in it, and the probe that serves it.
#[derive(Debug, PartialEq, Eq)]
pub struct EnrolledBoard {
    /// The debug probe's USB serial. A role's probe and its board type are
    /// independent: a row without a probe is a role whose board is known and
    /// whose silicon was never read.
    pub probe_serial: Option<String>,
    pub role: String,
    /// The board type in this role, opaque here.
    pub name: String,
    pub chip: String,
    /// The identity read through the probe; `None` exactly when `probe_serial`
    /// is, since the two are written together.
    pub hardware_id: Option<String>,
    /// When the probe half was last written, in UTC milliseconds.
    pub confirmed_at_utc_ms: Option<u64>,
    /// The USB serial of this role's runtime link, where it was declared.
    pub link_port_serial: Option<String>,
    /// The USB interface that carries the link, where a serial cannot say.
    pub link_port_interface: Option<u8>,
}

#[verifier::ext_equal]
pub ghost struct BoardModel {
    pub probe_serial: Option<Seq<char>>,
    pub role: Seq<char>,
    pub name: Seq<char>,
    pub chip: Seq<char>,
    pub hardware_id: Option<Seq<char>>,
    pub confirmed_at_utc_ms: Option<u64>,
    pub link_port_serial: Option<Seq<char>>,
    pub link_port_interface: Option<u8>,
}

impl DeepView for EnrolledBoard {
    type V = BoardModel;

    open spec fn deep_view(&self) -> BoardModel {
        BoardModel {
            probe_serial: self.probe_serial.deep_view(),
            role: self.role@,
            name: self.name@,
            chip: self.chip@,
            hardware_id: self.hardware_id.deep_view(),
            confirmed_at_utc_ms: self.confirmed_at_utc_ms,
            link_port_serial: self.link_port_serial.deep_view(),
            link_port_interface: self.link_port_interface,
        }
    }
}

impl Clone for EnrolledBoard {
    fn clone(&self) -> (r: Self)
        ensures
            r == *self,
    {
        EnrolledBoard {
            probe_serial: self.probe_serial.clone(),
            role: self.role.clone(),
            name: self.name.clone(),
            chip: self.chip.clone(),
            hardware_id: self.hardware_id.clone(),
            confirmed_at_utc_ms: self.confirmed_at_utc_ms,
            link_port_serial: self.link_port_serial.clone(),
            link_port_interface: self.link_port_interface,
        }
    }
}

/// Everything that is persisted: the enrolled boards and the declared signals.
#[derive(Debug, PartialEq, Eq)]
pub struct Store {
    pub boards: Vec<EnrolledBoard>,
    pub signals: Vec<SignalLink>,
}

#[verifier::ext_equal]
pub ghost struct StoreModel {
    pub boards: Seq<BoardModel>,
    pub signals: Seq<SignalModel>,
}

impl DeepView for Store {
    type V = StoreModel;

    open spec fn deep_view(&self) -> StoreModel {
        StoreModel { boards: self.boards.deep_view(), signals: self.signals.deep_view() }
    }
}

impl Clone for Store {
    fn clone(&self) -> (r: Self)
        ensures
            r.deep_view() == self.deep_view(),
    {
        let r = Store { boards: self.boards.clone(), signals: self.signals.clone() };
        assert(r.boards.deep_view() =~= self.boards.deep_view());
        assert(r.signals.deep_view() =~= self.signals.deep_view());
        r
    }
}

pub open spec fn empty_store() -> StoreModel {
    StoreModel { boards: Seq::empty(), signals: Seq::empty() }
}

impl Default for Store {
    fn default() -> (r: Store)
        ensures
            r.deep_view() == empty_store(),
    {
        let r = Store { boards: Vec::new(), signals: Vec::new() };
        assert(r.deep_view() =~= empty_store());
        r
    }
}

/// The UTC milliseconds that a clock reading stands for: the low 64 bits of the
/// milliseconds since the epoch, and 0 for a clock set before it.
pub open spec fn utc_ms(since_epoch_ms: Option<u128>) -> u64 {
    match since_epoch_ms {
        Some(ms) => (ms % 0x1_0000_0000_0000_0000) as u64,
        None => 0,
    }
}

pub fn now_utc_ms(since_epoch_ms: Option<u128>) -> (r: u64)
    ensures
        r == utc_ms(since_epoch_ms),
        since_epoch_ms matches Some(ms) ==> (ms <= u64::MAX ==> r == ms),
{
    match since_epoch_ms {
        Some(ms) => (ms % 0x1_0000_0000_0000_0000) as u64,
        None => 0,
    }
}

/// The store to work on: what the file held, or an empty one where there is no
/// file yet. A missing file is no entries, not an error.
pub fn load_store(file: Option<Store>) -> (r: Store)
    ensures
        file matches Some(s) ==> r == s,
        file is None ==> r.deep_view() == empty_store(),
{
    match file {
        Some(s) => s,
        None => Store::default(),
    }
}

// ---- looking up ----------------------------------------------------------------

pub open spec fn serves(serial: Seq<char>) -> spec_fn(BoardModel) -> bool {
    |b: BoardModel| b.probe_serial == Some(serial)
}

pub open spec fn holds(role: Seq<char>) -> spec_fn(BoardModel) -> bool {
    |b: BoardModel| b.role == role
}

fn has_probe(b: &EnrolledBoard, serial: &str) -> (r: bool)
    ensures
        r == serves(serial@)(b.deep_view()),
{
    match &b.probe_serial {
        Some(s) => text::same(s.as_str(), serial),
        None => false,
    }
}

fn role_position(boards: &Vec<EnrolledBoard>, role: &str) -> (r: usize)
    ensures
        r == lists::position(boards.deep_view(), holds(role@)),
        r <= boards@.len(),
        r < boards@.len() ==> boards@[r as int].role@ == role@,
{
    let has_role = |b: &EnrolledBoard| -> (x: bool)
        ensures
            x == holds(role@)(b.deep_view())
    {
        text::same(b.role.as_str(), role)
    };
    lists::find_position(boards, has_role, Ghost(holds(role@)))
}

/// The row at `i`, if there is one.
fn row_at(boards: &Vec<EnrolledBoard>, i: usize) -> (r: Option<EnrolledBoard>)
    ensures
        r == (if i < boards@.len() {
            Some(boards@[i as int])
        } else {
            None
        }),
{
    if i < boards.len() {
        Some(boards[i].clone())
    } else {
        None
    }
}

/// The row that `probe_serial` serves; `None` when it is not enrolled yet.
pub fn find(store: &Store, probe_serial: &str) -> (r: Option<EnrolledBoard>)
    ensures
        r.deep_view() == lists::first(store.deep_view().boards, serves(probe_serial@)),
{
    let wanted = |b: &EnrolledBoard| -> (x: bool)
        ensures
            x == serves(probe_serial@)(b.deep_view())
    {
        has_probe(b, probe_serial)
    };
    let i: usize = lists::find_position(&store.boards, wanted, Ghost(serves(probe_serial@)));
    row_at(&store.boards, i)
}

/// The first row that holds `role`.
pub fn find_by_role(store: &Store, role: &str) -> (r: Option<EnrolledBoard>)
    ensures
        r.deep_view() == lists::first(store.deep_view().boards, holds(role@)),
{
    let i: usize = role_position(&store.boards, role);
    row_at(&store.boards, i)
}

/// Every enrolled board, in table order.
pub fn list(store: Store) -> (r: Vec<EnrolledBoard>)
    ensures
        r == store.boards,
{
    store.boards
}

// ---- changing the table ----------------------------------------------------------

/// A board that holds the role of `board` with another probe than its.
pub open spec fn rivals(board: BoardModel) -> spec_fn(BoardModel) -> bool {
    |b: BoardModel| b.role == board.role && b.probe_serial != board.probe_serial
}

/// A board that can stay beside `board`: one with another role and, where `board`
/// has a probe, without that probe. A row with no probe shares none.
pub open spec fn beside(board: BoardModel) -> spec_fn(BoardModel) -> bool {
    |b: BoardModel|
        !(board.probe_serial is Some && b.probe_serial == board.probe_serial) && b.role
            != board.role
}

pub open spec fn holds_other(role: Seq<char>) -> spec_fn(BoardModel) -> bool {
    |b: BoardModel| b.role != role
}

/// The store after `board` was enrolled.
pub open spec fn upserted(store: StoreModel, board: BoardModel) -> StoreModel {
    StoreModel { boards: store.boards.filter(beside(board)).push(board), ..store }
}

/// `b` with its board type set to `name` and `chip`.
pub open spec fn retyped(b: BoardModel, name: Seq<char>, chip: Seq<char>) -> BoardModel {
    BoardModel { name, chip, ..b }
}

/// A role whose board type is known and whose silicon was never read.
pub open spec fn unread_row(role: Seq<char>, name: Seq<char>, chip: Seq<char>) -> BoardModel {
    BoardModel {
        probe_serial: None,
        role,
        name,
        chip,
        hardware_id: None,
        confirmed_at_utc_ms: None,
        link_port_serial: None,
        link_port_interface: None,
    }
}

/// The row of `role` after its board type was declared.
pub open spec fn role_row(
    store: StoreModel,
    role: Seq<char>,
    name: Seq<char>,
    chip: Seq<char>,
) -> BoardModel {
    match lists::first(store.boards, holds(role)) {
        Some(b) => retyped(b, name, chip),
        None => unread_row(role, name, chip),
    }
}

/// The store after the board type in `role` was declared: its first row changes in
/// place, or a new row is added at the end.
pub open spec fn with_role_board(
    store: StoreModel,
    role: Seq<char>,
    name: Seq<char>,
    chip: Seq<char>,
) -> StoreModel {
    let at = lists::position(store.boards, holds(role));
    let row = role_row(store, role, name, chip);
    StoreModel {
        boards: if at < store.boards.len() {
            store.boards.update(at as int, row)
        } else {
            store.boards.push(row)
        },
        ..store
    }
}

/// The store with no row for `role`.
pub open spec fn without_role(store: StoreModel, role: Seq<char>) -> StoreModel {
    StoreModel { boards: store.boards.filter(holds_other(role)), ..store }
}

/// Inserts `board`, or replaces what it stands in for. Enrolling a probe again
/// overwrites its row, and a role is held by one row: every row with the probe or
/// the role of `board` goes. The first one that held the role with another probe
/// is returned, so that a caller can say what was displaced.
pub fn upsert(store: &mut Store, board: EnrolledBoard) -> (displaced: Option<EnrolledBoard>)
    ensures
        displaced.deep_view() == lists::first(
            old(store).deep_view().boards,
            rivals(board.deep_view()),
        ),
        final(store).deep_view() == upserted(old(store).deep_view(), board.deep_view()),
{
    let incoming = &board;
    let rival = |b: &EnrolledBoard| -> (x: bool)
        ensures
            x == rivals(incoming.deep_view())(b.deep_view())
    {
        text::same(b.role.as_str(), incoming.role.as_str()) && !text::same_opt(
            &b.probe_serial,
            &incoming.probe_serial,
        )
    };
    let at: usize = lists::find_position(&store.boards, rival, Ghost(rivals(board.deep_view())));
    let displaced = row_at(&store.boards, at);
    let stays = |b: &EnrolledBoard| -> (x: bool)
        ensures
            x == beside(incoming.deep_view())(b.deep_view())
    {
        !(incoming.probe_serial.is_some() && text::same_opt(&b.probe_serial, &incoming.probe_serial))
            && !text::same(b.role.as_str(), incoming.role.as_str())
    };
    lists::retain(&mut store.boards, stays, Ghost(beside(board.deep_view())));
    let ghost kept = store.boards.deep_view();
    store.boards.push(board);
    assert(store.boards.deep_view() =~= kept.push(board.deep_view()));
    displaced
}

/// Declares which board type is in `role`, and gives back its row. The probe half
/// and the link facts of an existing row stay as they are.
pub fn set_role_board(store: &mut Store, role: &str, name: &str, chip: &str) -> (r: EnrolledBoard)
    ensures
        r.deep_view() == role_row(old(store).deep_view(), role@, name@, chip@),
        final(store).deep_view() == with_role_board(old(store).deep_view(), role@, name@, chip@),
{
    let at: usize = role_position(&store.boards, role);
    if at < store.boards.len() {
        let mut row = store.boards[at].clone();
        row.name = name.to_string();
        row.chip = chip.to_string();
        let ghost before = store.boards.deep_view();
        store.boards.set(at, row.clone());
        assert(store.boards.deep_view() =~= before.update(at as int, row.deep_view()));
        return row;
    }
    let row = EnrolledBoard {
        probe_serial: None,
        role: role.to_string(),
        name: name.to_string(),
        chip: chip.to_string(),
        hardware_id: None,
        confirmed_at_utc_ms: None,
        link_port_serial: None,
        link_port_interface: None,
    };
    let ghost before = store.boards.deep_view();
    store.boards.push(row.clone());
    assert(store.boards.deep_view() =~= before.push(row.deep_view()));
    row
}

/// Removes every row that holds `role`, and gives back the first. `None` means
/// that nothing was enrolled under the role.
pub fn remove_by_role(store: &mut Store, role: &str) -> (removed: Option<EnrolledBoard>)
    ensures
        removed.deep_view() == lists::first(old(store).deep_view().boards, holds(role@)),
        final(store).deep_view() == without_role(old(store).deep_view(), role@),
        removed is None ==> *final(store) == *old(store),
{
    let at: usize = role_position(&store.boards, role);
    let removed = row_at(&store.boards, at);
    if removed.is_none() {
        proof {
            lists::lemma_position(store.deep_view().boards, holds(role@));
            lists::lemma_filter_all(store.deep_view().boards, holds_other(role@));
        }
        return None;
    }
    let stays = |b: &EnrolledBoard| -> (x: bool)
        ensures
            x == holds_other(role@)(b.deep_view())
    {
        !text::same(b.role.as_str(), role)
    };
    lists::retain(&mut store.boards, stays, Ghost(holds_other(role@)));
    removed
}

// ---- the runtime link of a role ---------------------------------------------------

/// A change to one of the two declared link facts of a row.
#[derive(Debug, PartialEq, Eq)]
pub enum LinkEdit {
    Serial(Option<String>),
    Interface(Option<u8>),
}

pub ghost enum LinkEditModel {
    Serial(Option<Seq<char>>),
    Interface(Option<u8>),
}

impl DeepView for LinkEdit {
    type V = LinkEditModel;

    open spec fn deep_view(&self) -> LinkEditModel {
        match *self {
            LinkEdit::Serial(s) => LinkEditModel::Serial(s.deep_view()),
            LinkEdit::Interface(i) => LinkEditModel::Interface(i),
        }
    }
}

pub open spec fn relinked(b: BoardModel, edit: LinkEditModel) -> BoardModel {
    match edit {
        LinkEditModel::Serial(s) => BoardModel { link_port_serial: s, ..b },
        LinkEditModel::Interface(i) => BoardModel { link_port_interface: i, ..b },
    }
}

pub open spec fn enrolled(store: StoreModel, role: Seq<char>) -> bool {
    lists::position(store.boards, holds(role)) < store.boards.len()
}

/// The store with `edit` made to the first row of `role`, and as it was where the
/// role is not enrolled.
pub open spec fn amended(
    store: StoreModel,
    role: Seq<char>,
    edit: LinkEditModel,
) -> StoreModel {
    let at = lists::position(store.boards, holds(role));
    if at < store.boards.len() {
        StoreModel {
            boards: store.boards.update(at as int, relinked(store.boards[at as int], edit)),
            ..store
        }
    } else {
        store
    }
}

/// No board holds the role whose link was to be declared.
#[derive(Debug, PartialEq, Eq)]
pub struct RoleNotEnrolled {
    pub role: String,
}

pub open spec fn role_not_enrolled_text(role: Seq<char>) -> Seq<char> {
    "no board enrolled as role '"@ + role + "' yet; enroll it first"@
}

impl RoleNotEnrolled {
    pub fn message(&self) -> (r: String)
        ensures
            r@ == role_not_enrolled_text(self.role@),
    {
        let mut s = "no board enrolled as role '".to_string();
        s.append(self.role.as_str());
        s.append("' yet; enroll it first");
        s
    }
}

/// Makes `edit` to the row of `role`. It amends a row and never creates one.
pub fn amend(store: &mut Store, role: &str, edit: LinkEdit) -> (r: Result<(), RoleNotEnrolled>)
    ensures
        final(store).deep_view() == amended(old(store).deep_view(), role@, edit.deep_view()),
        r is Ok <==> enrolled(old(store).deep_view(), role@),
        r matches Err(e) ==> e.role@ == role@ && *final(store) == *old(store),
{
    let at: usize = role_position(&store.boards, role);
    if at >= store.boards.len() {
        return Err(RoleNotEnrolled { role: role.to_string() });
    }
    let mut row = store.boards[at].clone();
    match edit {
        LinkEdit::Serial(s) => {
            row.link_port_serial = s;
        },
        LinkEdit::Interface(i) => {
            row.link_port_interface = i;
        },
    }
    let ghost before = store.boards.deep_view();
    let ghost new = row.deep_view();
    store.boards.set(at, row);
    assert(store.boards.deep_view() =~= before.update(at as int, new));
    Ok(())
}

/// Declares the USB serial of the runtime link of `role`, which must be enrolled.
pub fn set_link_port_serial(store: &mut Store, role: &str, serial: &str) -> (r: Result<
    (),
    RoleNotEnrolled,
>)
    ensures
        final(store).deep_view() == amended(
            old(store).deep_view(),
            role@,
            LinkEditModel::Serial(Some(serial@)),
        ),
        r is Ok <==> enrolled(old(store).deep_view(), role@),
        r matches Err(e) ==> e.role@ == role@ && *final(store) == *old(store),
{
    amend(store, role, LinkEdit::Serial(Some(serial.to_string())))
}

/// Declares which USB interface carries the runtime link of `role`.
pub fn set_link_port_interface(store: &mut Store, role: &str, interface: u8) -> (r: Result<
    (),
    RoleNotEnrolled,
>)
    ensures
        final(store).deep_view() == amended(
            old(store).deep_view(),
            role@,
            LinkEditModel::Interface(Some(interface)),
        ),
        r is Ok <==> enrolled(old(store).deep_view(), role@),
        r matches Err(e) ==> e.role@ == role@ && *final(store) == *old(store),
{
    amend(store, role, LinkEdit::Interface(Some(interface)))
}

/// Takes back the declared link serial of `role`.
pub fn clear_link_port_serial(store: &mut Store, role: &str) -> (r: Result<(), RoleNotEnrolled>)
    ensures
        final(store).deep_view() == amended(
            old(store).deep_view(),
            role@,
            LinkEditModel::Serial(None),
        ),
        r is Ok <==> enrolled(old(store).deep_view(), role@),
        r matches Err(e) ==> e.role@ == role@ && *final(store) == *old(store),
{
    amend(store, role, LinkEdit::Serial(None))
}

/// Takes back the declared link interface of `role`.
pub fn clear_link_port_interface(store: &mut Store, role: &str) -> (r: Result<
    (),
    RoleNotEnrolled,
>)
    ensures
        final(store).deep_view() == amended(
            old(store).deep_view(),
            role@,
            LinkEditModel::Interface(None),
        ),
        r is Ok <==> enrolled(old(store).deep_view(), role@),
        r matches Err(e) ==> e.role@ == role@ && *final(store) == *old(store),
{
    amend(store, role, LinkEdit::Interface(None))
}

// ---- what the table promises --------------------------------------------------------

/// No two rows hold one role.
pub open spec fn unique_roles(boards: Seq<BoardModel>) -> bool {
    forall|i: int, j: int|
        0 <= i < j < boards.len() ==> (#[trigger] boards[i]).role != (#[trigger] boards[j]).role
}

/// No two rows have one probe.
pub open spec fn unique_probes(boards: Seq<BoardModel>) -> bool {
    forall|i: int, j: int|
        0 <= i < j < boards.len() && (#[trigger] boards[i]).probe_serial is Some
            ==> boards[i].probe_serial != (#[trigger] boards[j]).probe_serial
}

/// The probe, the identity read through it and the time of the read are one fact.
pub open spec fn whole(b: BoardModel) -> bool {
    &&& b.probe_serial is Some <==> b.hardware_id is Some
    &&& b.probe_serial is Some <==> b.confirmed_at_utc_ms is Some
}

/// A table as this module's operations leave it.
pub open spec fn well_formed(boards: Seq<BoardModel>) -> bool {
    &&& unique_roles(boards)
    &&& unique_probes(boards)
    &&& forall|i: int| 0 <= i < boards.len() ==> whole(#[trigger] boards[i])
}

/// Enrolling keeps the table well formed, and so do declaring a board type, removing
/// a role and changing a link fact. The empty table is well formed.
pub proof fn law_operations_keep_the_table_well_formed(
    store: StoreModel,
    board: BoardModel,
    role: Seq<char>,
    name: Seq<char>,
    chip: Seq<char>,
    edit: LinkEditModel,
)
    requires
        well_formed(store.boards),
        whole(board),
    ensures
        well_formed(empty_store().boards),
        well_formed(upserted(store, board).boards),
        well_formed(with_role_board(store, role, name, chip).boards),
        well_formed(without_role(store, role).boards),
        well_formed(amended(store, role, edit).boards),
{
    lemma_filter_well_formed(store.boards, beside(board));
    let kept = store.boards.filter(beside(board));
    assert forall|i: int| 0 <= i < kept.len() implies beside(board)(#[trigger] kept[i]) by {
        lists::lemma_filter_item(store.boards, beside(board), i);
    }
    lists::lemma_position(store.boards, holds(role));
    lemma_filter_well_formed(store.boards, holds_other(role));
}

proof fn lemma_filter_well_formed(boards: Seq<BoardModel>, p: spec_fn(BoardModel) -> bool)
    requires
        well_formed(boards),
    ensures
        well_formed(boards.filter(p)),
{
    let kept = boards.filter(p);
    assert forall|i: int, j: int| 0 <= i < j < kept.len() implies (#[trigger] kept[i]).role != (
    #[trigger] kept[j]).role && (kept[i].probe_serial is Some ==> kept[i].probe_serial
        != kept[j].probe_serial) by {
        lists::lemma_filter_order(boards, p, i, j);
    }
    assert forall|i: int| 0 <= i < kept.len() implies whole(#[trigger] kept[i]) by {
        lists::lemma_filter_item(boards, p, i);
    }
}

/// What was enrolled last is what its role and its probe find, whatever the table
/// held before, and it is the only row with that role or that probe.
pub proof fn law_enrolled_board_is_found(store: StoreModel, board: BoardModel)
    ensures
        lists::first(upserted(store, board).boards, holds(board.role)) == Some(board),
        board.probe_serial matches Some(serial) ==> lists::first(
            upserted(store, board).boards,
            serves(serial),
        ) == Some(board),
        forall|i: int|
            0 <= i < upserted(store, board).boards.len() - 1 ==> {
                let b = #[trigger] upserted(store, board).boards[i];
                b.role != board.role && (board.probe_serial is Some ==> b.probe_serial
                    != board.probe_serial)
            },
{
    let kept = store.boards.filter(beside(board));
    let after = upserted(store, board).boards;
    assert forall|i: int| 0 <= i < kept.len() implies beside(board)(#[trigger] after[i]) by {
        lists::lemma_filter_item(store.boards, beside(board), i);
        assert(after[i] == kept[i]);
    }
    assert forall|i: int| 0 <= i < kept.len() implies !holds(board.role)(#[trigger] after[i]) by {
        assert(beside(board)(after[i]));
    }
    lists::lemma_position_is(after, holds(board.role), kept.len() as int);
    if let Some(serial) = board.probe_serial {
        assert forall|i: int| 0 <= i < kept.len() implies !serves(serial)(#[trigger] after[i]) by {
            assert(beside(board)(after[i]));
        }
        lists::lemma_position_is(after, serves(serial), kept.len() as int);
    }
}

/// Enrolling is idempotent.
pub proof fn law_enrolling_twice_is_enrolling_once(store: StoreModel, board: BoardModel)
    ensures
        upserted(upserted(store, board), board) == upserted(store, board),
        lists::first(upserted(store, board).boards, rivals(board)) is None,
{
    let p = beside(board);
    let kept = store.boards.filter(p);
    let after = kept.push(board);
    assert forall|i: int| 0 <= i < kept.len() implies p(#[trigger] kept[i]) by {
        lists::lemma_filter_item(store.boards, p, i);
    }
    lists::lemma_filter_all(kept, p);
    lists::lemma_filter_push(kept, board, p);
    assert forall|i: int| 0 <= i < after.len() implies !rivals(board)(#[trigger] after[i]) by {
        if i < kept.len() {
            assert(p(kept[i]));
        }
    }
    lists::lemma_position_is(after, rivals(board), after.len() as int);
}

/// Enrolling leaves the rows that can stay beside the board, in their order. A row
/// with another role stays unless it has the board's probe, so two roles of which
/// neither has a probe never push each other out.
pub proof fn law_enrolling_keeps_the_other_rows(store: StoreModel, board: BoardModel, i: int)
    requires
        0 <= i < store.boards.len(),
        store.boards[i].role != board.role,
        store.boards[i].probe_serial is None || store.boards[i].probe_serial != board.probe_serial,
    ensures
        upserted(store, board).boards.contains(store.boards[i]),
        upserted(store, board).boards.filter(beside(board)) == store.boards.filter(beside(board)),
{
    let p = beside(board);
    let kept = store.boards.filter(p);
    store.boards.lemma_filter_contains(p, i);
    let k = choose|k: int| 0 <= k < kept.len() && kept[k] == store.boards[i];
    assert(upserted(store, board).boards[k] == store.boards[i]);
    assert forall|i: int| 0 <= i < kept.len() implies p(#[trigger] kept[i]) by {
        lists::lemma_filter_item(store.boards, p, i);
    }
    lists::lemma_filter_all(kept, p);
    lists::lemma_filter_push(kept, board, p);
}

/// In a well-formed table a board is displaced exactly if the role was held with
/// another probe, and it is the one that the role found.
pub proof fn law_displaced_is_the_former_holder(store: StoreModel, board: BoardModel)
    requires
        well_formed(store.boards),
    ensures
        lists::first(store.boards, rivals(board)) == (match lists::first(
            store.boards,
            holds(board.role),
        ) {
            Some(b) if b.probe_serial != board.probe_serial => Some(b),
            _ => None,
        }),
{
    let s = store.boards;
    lists::lemma_position(s, rivals(board));
    lists::lemma_position(s, holds(board.role));
    let r = lists::position(s, rivals(board)) as int;
    let h = lists::position(s, holds(board.role)) as int;
    if r < s.len() {
        assert(rivals(board)(s[r]));
        assert(holds(board.role)(s[r]));
        assert(h <= r) by {
            if h > r {
                assert(!holds(board.role)(s[r]));
            }
        }
        assert(holds(board.role)(s[h]));
        assert(h == r);
    } else if h < s.len() {
        assert(holds(board.role)(s[h]));
        assert(!rivals(board)(s[h]));
    }
}

/// Declaring a board type changes the name and the chip of the role's row and
/// nothing else: its probe half and its link facts stay, and so does every other
/// row. The role then finds the row that was returned.
pub proof fn law_board_type_keeps_the_probe_half(
    store: StoreModel,
    role: Seq<char>,
    name: Seq<char>,
    chip: Seq<char>,
)
    ensures
        ({
            let after = with_role_board(store, role, name, chip).boards;
            let row = role_row(store, role, name, chip);
            let at = lists::position(store.boards, holds(role)) as int;
            &&& lists::first(after, holds(role)) == Some(row)
            &&& row.role == role && row.name == name && row.chip == chip
            &&& lists::first(store.boards, holds(role)) matches Some(b) ==> row.probe_serial
                == b.probe_serial && row.hardware_id == b.hardware_id && row.confirmed_at_utc_ms
                == b.confirmed_at_utc_ms && row.link_port_serial == b.link_port_serial
                && row.link_port_interface == b.link_port_interface
            &&& !enrolled(store, role) ==> row.probe_serial is None && after.len()
                == store.boards.len() + 1
            &&& forall|i: int|
                0 <= i < store.boards.len() && i != at ==> #[trigger] after[i] == store.boards[i]
        }),
{
    let after = with_role_board(store, role, name, chip).boards;
    let at = lists::position(store.boards, holds(role)) as int;
    lists::lemma_position(store.boards, holds(role));
    if at < store.boards.len() {
        assert(holds(role)(store.boards[at]));
    }
    assert forall|i: int| 0 <= i < at implies !holds(role)(#[trigger] after[i]) by {
        assert(!holds(role)(store.boards[i]));
    }
    lists::lemma_position_is(after, holds(role), at);
}

/// After a role was removed nothing holds it, and the rows of other roles are still
/// there.
pub proof fn law_removed_role_is_gone(store: StoreModel, role: Seq<char>)
    ensures
        lists::first(without_role(store, role).boards, holds(role)) is None,
        forall|i: int|
            0 <= i < store.boards.len() && (#[trigger] store.boards[i]).role != role
                ==> without_role(store, role).boards.contains(store.boards[i]),
        without_role(without_role(store, role), role) == without_role(store, role),
{
    let p = holds_other(role);
    let after = store.boards.filter(p);
    assert forall|i: int| 0 <= i < after.len() implies p(#[trigger] after[i]) && !holds(role)(
        after[i],
    ) by {
        lists::lemma_filter_item(store.boards, p, i);
    }
    lists::lemma_position_is(after, holds(role), after.len() as int);
    lists::lemma_filter_all(after, p);
    assert forall|i: int|
        0 <= i < store.boards.len() && (#[trigger] store.boards[i]).role
            != role implies after.contains(store.boards[i]) by {
        store.boards.lemma_filter_contains(p, i);
    }
}

/// Removing takes back an enrollment that pushed nothing out.
pub proof fn law_remove_undoes_a_fresh_enrollment(store: StoreModel, board: BoardModel)
    requires
        !enrolled(store, board.role),
        board.probe_serial matches Some(serial) ==> lists::first(store.boards, serves(serial))
            is None,
    ensures
        without_role(upserted(store, board), board.role) == store,
{
    let s = store.boards;
    lists::lemma_position(s, holds(board.role));
    if let Some(serial) = board.probe_serial {
        lists::lemma_position(s, serves(serial));
    }
    assert forall|i: int| 0 <= i < s.len() implies beside(board)(#[trigger] s[i]) && holds_other(
        board.role,
    )(s[i]) by {
        assert(!holds(board.role)(s[i]));
        if let Some(serial) = board.probe_serial {
            assert(!serves(serial)(s[i]));
        }
    }
    lists::lemma_filter_all(s, beside(board));
    lists::lemma_filter_all(s, holds_other(board.role));
    lists::lemma_filter_push(s, board, holds_other(board.role));
}

/// A link fact is declared on the role's row alone: the role finds that row with
/// the fact, and every other row and the table of signals stay.
pub proof fn law_link_fact_is_found(store: StoreModel, role: Seq<char>, edit: LinkEditModel)
    requires
        enrolled(store, role),
    ensures
        lists::first(amended(store, role, edit).boards, holds(role)) == Some(
            relinked(lists::first(store.boards, holds(role))->0, edit),
        ),
        forall|i: int|
            0 <= i < store.boards.len() && i != lists::position(store.boards, holds(role))
                ==> #[trigger] amended(store, role, edit).boards[i] == store.boards[i],
        amended(store, role, edit).boards.len() == store.boards.len(),
        amended(store, role, edit).signals == store.signals,
{
    let after = amended(store, role, edit).boards;
    let at = lists::position(store.boards, holds(role)) as int;
    lists::lemma_position(store.boards, holds(role));
    assert(holds(role)(store.boards[at]));
    assert forall|i: int| 0 <= i < at implies !holds(role)(#[trigger] after[i]) by {
        assert(!holds(role)(store.boards[i]));
    }
    lists::lemma_position_is(after, holds(role), at);
}

/// The last declaration of a link fact wins: setting and then clearing it is
/// clearing it, and gives the table back where the fact was not declared before.
/// The serial and the interface do not disturb each other.
pub proof fn law_link_facts_are_overwritten(
    store: StoreModel,
    role: Seq<char>,
    s: Option<Seq<char>>,
    t: Option<Seq<char>>,
    i: Option<u8>,
    j: Option<u8>,
)
    ensures
        amended(
            amended(store, role, LinkEditModel::Serial(s)),
            role,
            LinkEditModel::Serial(t),
        ) == amended(store, role, LinkEditModel::Serial(t)),
        amended(
            amended(store, role, LinkEditModel::Interface(i)),
            role,
            LinkEditModel::Interface(j),
        ) == amended(store, role, LinkEditModel::Interface(j)),
        amended(
            amended(store, role, LinkEditModel::Serial(s)),
            role,
            LinkEditModel::Interface(i),
        ) == amended(
            amended(store, role, LinkEditModel::Interface(i)),
            role,
            LinkEditModel::Serial(s),
        ),
        (lists::first(store.boards, holds(role)) matches Some(b) && b.link_port_serial is None)
            ==> amended(store, role, LinkEditModel::Serial(None)) == store,
        (lists::first(store.boards, holds(role)) matches Some(b) && b.link_port_interface is None)
            ==> amended(store, role, LinkEditModel::Interface(None)) == store,
{
    if enrolled(store, role) {
        let at = lists::position(store.boards, holds(role)) as int;
        lemma_amend_position(store, role, LinkEditModel::Serial(s));
        lemma_amend_position(store, role, LinkEditModel::Interface(i));
        assert(amended(
            amended(store, role, LinkEditModel::Serial(s)),
            role,
            LinkEditModel::Serial(t),
        ).boards =~= amended(store, role, LinkEditModel::Serial(t)).boards);
        assert(amended(
            amended(store, role, LinkEditModel::Interface(i)),
            role,
            LinkEditModel::Interface(j),
        ).boards =~= amended(store, role, LinkEditModel::Interface(j)).boards);
        assert(amended(
            amended(store, role, LinkEditModel::Serial(s)),
            role,
            LinkEditModel::Interface(i),
        ).boards =~= amended(
            amended(store, role, LinkEditModel::Interface(i)),
            role,
            LinkEditModel::Serial(s),
        ).boards);
        assert(store.boards.update(at, store.boards[at]) =~= store.boards);
    }
}

proof fn lemma_amend_position(store: StoreModel, role: Seq<char>, edit: LinkEditModel)
    requires
        enrolled(store, role),
    ensures
        lists::position(amended(store, role, edit).boards, holds(role)) == lists::position(
            store.boards,
            holds(role),
        ),
{
    let after = amended(store, role, edit).boards;
    let at = lists::position(store.boards, holds(role)) as int;
    lists::lemma_position(store.boards, holds(role));
    assert(holds(role)(store.boards[at]));
    assert forall|i: int| 0 <= i < at implies !holds(role)(#[trigger] after[i]) by {
        assert(!holds(role)(store.boards[i]));
    }
    lists::lemma_position_is(after, holds(role), at);
}

/// What is done to the boards leaves the declared signals as they were.
pub proof fn law_board_operations_keep_the_signals(
    store: StoreModel,
    board: BoardModel,
    role: Seq<char>,
    name: Seq<char>,
    chip: Seq<char>,
    edit: LinkEditModel,
)
    ensures
        upserted(store, board).signals == store.signals,
        with_role_board(store, role, name, chip).signals == store.signals,
        without_role(store, role).signals == store.signals,
        amended(store, role, edit).signals == store.signals,
{
}

// ---- the table, row by row -----------------------------------------------------------------

/// A role finds the first row that holds it to the letter, a probe the first row that has
/// its very serial, and neither finds anything where no row does. A row without a probe is
/// found by no serial.
pub proof fn law_lookups_find_the_first_row(boards: Seq<BoardModel>, key: Seq<char>, k: int)
    ensures
        (0 <= k < boards.len() && boards[k].role == key && forall|i: int|
            0 <= i < k ==> (#[trigger] boards[i]).role != key) ==> lists::first(
            boards,
            holds(key),
        ) == Some(boards[k]),
        lists::first(boards, holds(key)) is None <==> forall|i: int|
            0 <= i < boards.len() ==> (#[trigger] boards[i]).role != key,
        (0 <= k < boards.len() && boards[k].probe_serial == Some(key) && forall|i: int|
            0 <= i < k ==> (#[trigger] boards[i]).probe_serial != Some(key)) ==> lists::first(
            boards,
            serves(key),
        ) == Some(boards[k]),
        lists::first(boards, serves(key)) is None <==> forall|i: int|
            0 <= i < boards.len() ==> (#[trigger] boards[i]).probe_serial is None
                || boards[i].probe_serial->0 != key,
{
    lists::lemma_position(boards, holds(key));
    lists::lemma_position(boards, serves(key));
    if 0 <= k < boards.len() && boards[k].role == key && forall|i: int|
        0 <= i < k ==> (#[trigger] boards[i]).role != key {
        lists::lemma_position_is(boards, holds(key), k);
    }
    if 0 <= k < boards.len() && boards[k].probe_serial == Some(key) && forall|i: int|
        0 <= i < k ==> (#[trigger] boards[i]).probe_serial != Some(key) {
        lists::lemma_position_is(boards, serves(key), k);
    }
    if lists::first(boards, holds(key)) is None {
        assert forall|i: int| 0 <= i < boards.len() implies (#[trigger] boards[i]).role != key by {
            assert(!holds(key)(boards[i]));
        }
    }
    if lists::first(boards, serves(key)) is None {
        assert forall|i: int| 0 <= i < boards.len() implies (
        #[trigger] boards[i]).probe_serial is None || boards[i].probe_serial->0 != key by {
            assert(!serves(key)(boards[i]));
        }
    } else {
        let at = lists::position(boards, serves(key)) as int;
        assert(serves(key)(boards[at]));
        assert(boards[at].probe_serial is Some);
    }
}

/// There are two roles, and no other spelling of them.
pub proof fn law_roles_are_dev_bench_and_dut(role: Seq<char>)
    ensures
        canonical_role(role) <==> role == "dev-bench"@ || role == "dut"@,
{
    let roles = CANONICAL_ROLES;
    assert(roles@.len() == 2 && roles@[0]@ == "dev-bench"@ && roles@[1]@ == "dut"@);
    if role == "dev-bench"@ {
        assert(CANONICAL_ROLES@[0]@ == role);
    }
    if role == "dut"@ {
        assert(CANONICAL_ROLES@[1]@ == role);
    }
}

/// A clock reading that fits is the time itself, one that does not is counted on from
/// zero, and a clock set before the epoch is at zero.
pub proof fn law_clock_readings_wrap_around(ms: u128)
    ensures
        ms < 0x1_0000_0000_0000_0000 ==> utc_ms(Some(ms)) == ms,
        ms >= 0x1_0000_0000_0000_0000 ==> utc_ms(Some(ms)) == utc_ms(
            Some((ms - 0x1_0000_0000_0000_0000) as u128),
        ),
        utc_ms(None) == 0,
{
}

/// Enrolling takes out exactly the rows that hold the board's role or have its probe and
/// puts the board last; the others stay as they were and in their order. What is reported
/// as displaced is the first row that held the role with another probe or with none.
pub proof fn law_enrolling_replaces_role_and_probe(store: StoreModel, board: BoardModel, k: int)
    ensures
        ({
            let others = store.boards.filter(
                |b: BoardModel|
                    b.role != board.role && (b.probe_serial is None || b.probe_serial
                        != board.probe_serial),
            );
            &&& upserted(store, board).boards == others.push(board)
            &&& upserted(store, board).signals == store.signals
        }),
        (0 <= k < store.boards.len() && store.boards[k].role == board.role
            && store.boards[k].probe_serial != board.probe_serial && forall|i: int|
            0 <= i < k && (#[trigger] store.boards[i]).role == board.role
                ==> store.boards[i].probe_serial == board.probe_serial) ==> lists::first(
            store.boards,
            rivals(board),
        ) == Some(store.boards[k]),
        lists::first(store.boards, rivals(board)) is None <==> forall|i: int|
            0 <= i < store.boards.len() && (#[trigger] store.boards[i]).role == board.role
                ==> store.boards[i].probe_serial == board.probe_serial,
{
    let p = rivals(board);
    assert(beside(board) =~= |b: BoardModel|
        b.role != board.role && (b.probe_serial is None || b.probe_serial != board.probe_serial));
    lists::lemma_position(store.boards, p);
    if 0 <= k < store.boards.len() && store.boards[k].role == board.role
        && store.boards[k].probe_serial != board.probe_serial && forall|i: int|
        0 <= i < k && (#[trigger] store.boards[i]).role == board.role
            ==> store.boards[i].probe_serial == board.probe_serial {
        lists::lemma_position_is(store.boards, p, k);
    }
    if lists::first(store.boards, p) is None {
        assert forall|i: int|
            0 <= i < store.boards.len() && (#[trigger] store.boards[i]).role
                == board.role implies store.boards[i].probe_serial == board.probe_serial by {
            assert(!p(store.boards[i]));
        }
    } else {
        assert(p(store.boards[lists::position(store.boards, p) as int]));
    }
}

/// Declaring a board type rewrites the name and the chip of the role's first row, in its
/// place; a role that no row holds gets a row at the end, with nothing else known of it.
pub proof fn law_board_type_goes_to_the_roles_row(
    store: StoreModel,
    role: Seq<char>,
    name: Seq<char>,
    chip: Seq<char>,
    k: int,
)
    ensures
        (0 <= k < store.boards.len() && store.boards[k].role == role && forall|i: int|
            0 <= i < k ==> (#[trigger] store.boards[i]).role != role) ==> ({
            let b = store.boards[k];
            let row = role_row(store, role, name, chip);
            &&& row.name == name
            &&& row.chip == chip
            &&& row.role == b.role
            &&& row.probe_serial == b.probe_serial
            &&& row.hardware_id == b.hardware_id
            &&& row.confirmed_at_utc_ms == b.confirmed_at_utc_ms
            &&& row.link_port_serial == b.link_port_serial
            &&& row.link_port_interface == b.link_port_interface
            &&& with_role_board(store, role, name, chip).boards == store.boards.update(k, row)
        }),
        (forall|i: int| 0 <= i < store.boards.len() ==> (#[trigger] store.boards[i]).role != role)
            ==> ({
            let row = role_row(store, role, name, chip);
            &&& row.role == role
            &&& row.name == name
            &&& row.chip == chip
            &&& row.probe_serial is None
            &&& row.hardware_id is None
            &&& row.confirmed_at_utc_ms is None
            &&& row.link_port_serial is None
            &&& row.link_port_interface is None
            &&& with_role_board(store, role, name, chip).boards == store.boards.push(row)
        }),
        with_role_board(store, role, name, chip).signals == store.signals,
{
    law_lookups_find_the_first_row(store.boards, role, k);
    lists::lemma_position(store.boards, holds(role));
    if 0 <= k < store.boards.len() && store.boards[k].role == role && forall|i: int|
        0 <= i < k ==> (#[trigger] store.boards[i]).role != role {
        lists::lemma_position_is(store.boards, holds(role), k);
    }
}

/// Removing a role takes out every row that holds it and nothing else, and leaves the
/// others as they were and in their order.
pub proof fn law_removing_takes_out_the_role_alone(store: StoreModel, role: Seq<char>)
    ensures
        without_role(store, role).boards == store.boards.filter(|b: BoardModel| b.role != role),
        without_role(store, role).signals == store.signals,
        forall|b: BoardModel| #[trigger]
            without_role(store, role).boards.contains(b) <==> b.role != role
                && store.boards.contains(b),
        (forall|i: int| 0 <= i < store.boards.len() ==> (#[trigger] store.boards[i]).role != role)
            ==> without_role(store, role) == store,
{
    let p = holds_other(role);
    let after = store.boards.filter(p);
    assert(p =~= |b: BoardModel| b.role != role);
    assert forall|b: BoardModel| #[trigger]
        after.contains(b) <==> b.role != role && store.boards.contains(b) by {
        if after.contains(b) {
            let i = choose|i: int| 0 <= i < after.len() && after[i] == b;
            lists::lemma_filter_item(store.boards, p, i);
        }
        if b.role != role && store.boards.contains(b) {
            let i = choose|i: int| 0 <= i < store.boards.len() && store.boards[i] == b;
            store.boards.lemma_filter_contains(p, i);
        }
    }
    if forall|i: int| 0 <= i < store.boards.len() ==> (#[trigger] store.boards[i]).role != role {
        lists::lemma_filter_all(store.boards, p);
    }
}

/// A link fact is written to the first row of its role and to no other field of it: the
/// serial or the interface becomes what was given. Where no row holds the role the table
/// stays as it was, and a role is enrolled exactly if some row holds it.
pub proof fn law_link_fact_changes_one_field(
    store: StoreModel,
    role: Seq<char>,
    serial: Option<Seq<char>>,
    interface: Option<u8>,
    k: int,
)
    ensures
        (0 <= k < store.boards.len() && store.boards[k].role == role && forall|i: int|
            0 <= i < k ==> (#[trigger] store.boards[i]).role != role) ==> ({
            let b = store.boards[k];
            &&& amended(store, role, LinkEditModel::Serial(serial)) == StoreModel {
                boards: store.boards.update(k, BoardModel { link_port_serial: serial, ..b }),
                ..store
            }
            &&& amended(store, role, LinkEditModel::Interface(interface)) == StoreModel {
                boards: store.boards.update(
                    k,
                    BoardModel { link_port_interface: interface, ..b },
                ),
                ..store
            }
        }),
        enrolled(store, role) <==> exists|i: int|
            0 <= i < store.boards.len() && (#[trigger] store.boards[i]).role == role,
        (forall|i: int| 0 <= i < store.boards.len() ==> (#[trigger] store.boards[i]).role != role)
            ==> amended(store, role, LinkEditModel::Serial(serial)) == store && amended(
            store,
            role,
            LinkEditModel::Interface(interface),
        ) == store,
{
    let p = holds(role);
    lists::lemma_position(store.boards, p);
    if 0 <= k < store.boards.len() && store.boards[k].role == role && forall|i: int|
        0 <= i < k ==> (#[trigger] store.boards[i]).role != role {
        lists::lemma_position_is(store.boards, p, k);
    }
    let at = lists::position(store.boards, p) as int;
    if at < store.boards.len() {
        assert(p(store.boards[at]));
        assert(store.boards[at].role == role);
    } else if exists|i: int| 0 <= i < store.boards.len() && (#[trigger] store.boards[i]).role
        == role {
        let i = choose|i: int| 0 <= i < store.boards.len() && (#[trigger] store.boards[i]).role
            == role;
        assert(!p(store.boards[i]));
    }
}

/// The message for a role that is not enrolled names it.
pub proof fn law_missing_role_is_named(role: Seq<char>)
    ensures
        text::occurs(role_not_enrolled_text(role), "as role '"@ + role + "' yet"@),
{
    reveal_strlit("no board enrolled as role '");
    reveal_strlit("no board enrolled ");
    reveal_strlit("as role '");
    reveal_strlit("' yet; enroll it first");
    reveal_strlit("' yet");
    let n = "as role '"@ + role + "' yet"@;
    let b = "' yet; enroll it first"@.skip(5);
    assert("no board enrolled as role '"@ =~= "no board enrolled "@ + "as role '"@);
    assert("' yet; enroll it first"@ =~= "' yet"@ + b);
    assert(role_not_enrolled_text(role) =~= "no board enrolled "@ + n + b);
    text::lemma_occurs_between("no board enrolled "@, n, b);
}

} // verus!
