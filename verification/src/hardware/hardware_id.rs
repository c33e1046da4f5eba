//! The factory-burned unique ID of a chip: which registers hold it, how they are
//! written down, and how it relates to what the board says about itself.
//!
//! Only the chip families that are evidenced are known here. An unrecognized chip
//! is a named error, never a guess.

use crate::text;
use vstd::prelude::*;
use vstd::string::*;

verus! {

/// Nordic nRF5x/nRF9x: `FICR.DEVICEID[0..1]`.
pub const NRF5X_FICR_DEVICEID: [u64; 2] = [0x1000_0060, 0x1000_0064];

/// Nordic nRF54L: `FICR.INFO.DEVICEID[0..1]`.
pub const NRF54L_FICR_INFO_DEVICEID: [u64; 2] = [0x00FF_C304, 0x00FF_C308];

/// STM32G0: the 96-bit unique device ID, three words from `UID_BASE`. The base
/// moves between STM32 families, so this one is for the G0 alone.
pub const STM32G0_UID: [u64; 3] = [0x1FFF_7590, 0x1FFF_7594, 0x1FFF_7598];

/// ESP32-C5: the factory base MAC address, in two eFuse registers.
pub const ESP32C5_EFUSE_MAC_SYS0: u64 = 0x600B_4844;

pub const ESP32C5_EFUSE_MAC_SYS1: u64 = 0x600B_4848;

// ---- families --------------------------------------------------------------------

/// A chip's family, as far as reading its ID goes.
#[derive(Debug, Clone, Copy, PartialEq, Eq, Structural)]
pub enum ChipFamily {
    /// nRF54L: `FICR.INFO.DEVICEID[0..1]`.
    Nrf54InfoDeviceId,
    /// Classic nRF5x/nRF9x: `FICR.DEVICEID[0..1]`.
    NrfClassicDeviceId,
    Esp32C5,
    Stm32G0Uid,
}

/// The family of `chip`, by its name: `esp32c5` to the letter, the others by
/// prefix and in any case. nRF54H is no family here: neither register pair is
/// evidenced on it, so it must not be taken for a classic part.
pub open spec fn family(chip: Seq<char>) -> Option<ChipFamily> {
    let c = text::lower(chip);
    if chip == "esp32c5"@ {
        Some(ChipFamily::Esp32C5)
    } else if text::begins(c, "nrf54h"@) {
        None
    } else if text::begins(c, "nrf54l"@) {
        Some(ChipFamily::Nrf54InfoDeviceId)
    } else if text::begins(c, "nrf5"@) || text::begins(c, "nrf9"@) {
        Some(ChipFamily::NrfClassicDeviceId)
    } else if text::begins(c, "stm32g0"@) {
        Some(ChipFamily::Stm32G0Uid)
    } else {
        None
    }
}

/// Classifies `chip` by name. `None` for an unrecognized chip.
pub fn classify_chip(chip: &str) -> (r: Option<ChipFamily>)
    ensures
        r == family(chip@),
{
    if text::same(chip, "esp32c5") {
        return Some(ChipFamily::Esp32C5);
    }
    let lowered = text::to_lower(chip);
    let c = lowered.as_str();
    if text::starts_with(c, "nrf54h") {
        None
    } else if text::starts_with(c, "nrf54l") {
        Some(ChipFamily::Nrf54InfoDeviceId)
    } else if text::starts_with(c, "nrf5") || text::starts_with(c, "nrf9") {
        Some(ChipFamily::NrfClassicDeviceId)
    } else if text::starts_with(c, "stm32g0") {
        Some(ChipFamily::Stm32G0Uid)
    } else {
        None
    }
}

// ---- registers -------------------------------------------------------------------

/// The addresses of the ID words, in the order they are read.
pub open spec fn registers(f: ChipFamily) -> Seq<u64> {
    match f {
        ChipFamily::Nrf54InfoDeviceId => NRF54L_FICR_INFO_DEVICEID@,
        ChipFamily::NrfClassicDeviceId => NRF5X_FICR_DEVICEID@,
        ChipFamily::Esp32C5 => seq![ESP32C5_EFUSE_MAC_SYS0, ESP32C5_EFUSE_MAC_SYS1],
        ChipFamily::Stm32G0Uid => STM32G0_UID@,
    }
}

pub fn register_addresses(f: ChipFamily) -> (r: Vec<u64>)
    ensures
        r@ == registers(f),
{
    match f {
        ChipFamily::Nrf54InfoDeviceId => {
            let a = NRF54L_FICR_INFO_DEVICEID;
            vec![a[0], a[1]]
        },
        ChipFamily::NrfClassicDeviceId => {
            let a = NRF5X_FICR_DEVICEID;
            vec![a[0], a[1]]
        },
        ChipFamily::Esp32C5 => vec![ESP32C5_EFUSE_MAC_SYS0, ESP32C5_EFUSE_MAC_SYS1],
        ChipFamily::Stm32G0Uid => {
            let a = STM32G0_UID;
            vec![a[0], a[1], a[2]]
        },
    }
}

/// What the register array of a family is called.
pub open spec fn array_name(f: ChipFamily) -> Seq<char> {
    match f {
        ChipFamily::Nrf54InfoDeviceId => "FICR.INFO.DEVICEID"@,
        ChipFamily::NrfClassicDeviceId => "FICR.DEVICEID"@,
        ChipFamily::Esp32C5 => "EFUSE_RD_MAC"@,
        ChipFamily::Stm32G0Uid => "UID"@,
    }
}

/// What is said when word `i`, at `address`, could not be read.
pub open spec fn read_failure_text(f: ChipFamily, i: nat, address: u64) -> Seq<char> {
    match f {
        ChipFamily::Esp32C5 => if i == 0 {
            "failed to read EFUSE_RD_MAC_SYS0_REG"@
        } else {
            "failed to read EFUSE_RD_MAC_SYS1_REG"@
        },
        _ => "failed to read "@ + array_name(f) + "["@ + text::decimal(i) + "] at 0x"@ + text::hex(
            address as nat,
        ),
    }
}

fn read_failure(f: ChipFamily, i: usize, address: u64) -> (r: String)
    ensures
        r@ == read_failure_text(f, i as nat, address),
{
    let name = match f {
        ChipFamily::Esp32C5 => {
            return if i == 0 {
                "failed to read EFUSE_RD_MAC_SYS0_REG".to_string()
            } else {
                "failed to read EFUSE_RD_MAC_SYS1_REG".to_string()
            };
        },
        ChipFamily::Nrf54InfoDeviceId => "FICR.INFO.DEVICEID",
        ChipFamily::NrfClassicDeviceId => "FICR.DEVICEID",
        ChipFamily::Stm32G0Uid => "UID",
    };
    let mut r = "failed to read ".to_string();
    r.append(name);
    r.append("[");
    r.append(text::to_decimal(i as u64).as_str());
    r.append("] at 0x");
    r.append(text::to_hex(address).as_str());
    r
}

/// ID words as they are written down: lower-case hexadecimal, eight digits each.
pub open spec fn rendered(words: Seq<u32>) -> Seq<char>
    decreases words.len(),
{
    if words.len() == 0 {
        Seq::empty()
    } else {
        rendered(words.drop_last()) + text::hex_fixed(words.last() as nat, 8)
    }
}

/// Writes ID words down.
pub fn render(words: &Vec<u32>) -> (r: String)
    ensures
        r@ == rendered(words@),
{
    let mut r = String::new();
    let mut i: usize = 0;
    assert(r@ =~= rendered(words@.take(0)));
    while i < words.len()
        invariant
            i <= words@.len(),
            r@ == rendered(words@.take(i as int)),
        decreases words@.len() - i,
    {
        r.append(text::to_hex_fixed(words[i] as u64, 8).as_str());
        assert(words@.take(i + 1).drop_last() =~= words@.take(i as int));
        i += 1;
    }
    assert(words@.take(i as int) =~= words@);
    r
}

// ---- reading ---------------------------------------------------------------------

/// Why no ID was read.
#[derive(Debug, PartialEq, Eq)]
pub enum ReadError {
    /// Nothing is known of the chip.
    Unsupported { chip: String },
    /// A register could not be read; `cause` is what the probe answered.
    Register { what: String, cause: String },
}

pub ghost enum ReadFailure {
    Unsupported { chip: Seq<char> },
    Register { what: Seq<char>, cause: Seq<char> },
}

impl DeepView for ReadError {
    type V = ReadFailure;

    open spec fn deep_view(&self) -> ReadFailure {
        match *self {
            ReadError::Unsupported { chip } => ReadFailure::Unsupported { chip: chip@ },
            ReadError::Register { what, cause } => ReadFailure::Register {
                what: what@,
                cause: cause@,
            },
        }
    }
}

impl Clone for ReadError {
    fn clone(&self) -> (r: Self)
        ensures
            r == *self,
    {
        match self {
            ReadError::Unsupported { chip } => ReadError::Unsupported { chip: chip.clone() },
            ReadError::Register { what, cause } => ReadError::Register {
                what: what.clone(),
                cause: cause.clone(),
            },
        }
    }
}

pub const COVERED_CHIPS: &'static str =
    "' — enrollment/gating only \
     covers Nordic nRF5x/nRF9x/nRF54L, Espressif esp32c5 and ST STM32G0 today";

pub open spec fn read_error_text(e: ReadFailure) -> Seq<char> {
    match e {
        ReadFailure::Unsupported { chip } => "no hardware-id readback implemented for chip '"@
            + chip + COVERED_CHIPS@,
        ReadFailure::Register { what, cause } => what,
    }
}

impl ReadError {
    /// What a human is told.
    pub fn message(&self) -> (r: String)
        ensures
            r@ == read_error_text(self.deep_view()),
    {
        match self {
            ReadError::Unsupported { chip } => {
                let mut r = "no hardware-id readback implemented for chip '".to_string();
                r.append(chip.as_str());
                r.append(COVERED_CHIPS);
                r
            },
            ReadError::Register { what, .. } => what.clone(),
        }
    }
}

/// What comes next in reading an ID: another register, or the outcome.
#[derive(Debug, PartialEq, Eq)]
pub enum ReadStep {
    Read { address: u64 },
    Done(Result<String, ReadError>),
}

pub ghost enum ReadStepModel {
    Read { address: u64 },
    Done(Result<Seq<char>, ReadFailure>),
}

impl DeepView for ReadStep {
    type V = ReadStepModel;

    open spec fn deep_view(&self) -> ReadStepModel {
        match *self {
            ReadStep::Read { address } => ReadStepModel::Read { address },
            ReadStep::Done(r) => ReadStepModel::Done(read_view(r)),
        }
    }
}

pub open spec fn read_view(r: Result<String, ReadError>) -> Result<Seq<char>, ReadFailure> {
    match r {
        Ok(id) => Ok(id@),
        Err(e) => Err(e.deep_view()),
    }
}

/// The position of the first word that could not be read; the length if all could.
pub open spec fn first_failure(reads: Seq<Result<u32, String>>) -> nat
    decreases reads.len(),
{
    if reads.len() == 0 || reads[0] is Err {
        0
    } else {
        1 + first_failure(reads.skip(1))
    }
}

/// What comes next once the registers of `chip` were answered with `reads`, in
/// order: the first failure ends the reading, and so does the last word.
pub open spec fn read_next(chip: Seq<char>, reads: Seq<Result<u32, String>>) -> ReadStepModel {
    match family(chip) {
        None => ReadStepModel::Done(Err(ReadFailure::Unsupported { chip })),
        Some(f) => {
            let at = first_failure(reads) as int;
            if at < reads.len() && at < registers(f).len() {
                ReadStepModel::Done(
                    Err(
                        ReadFailure::Register {
                            what: read_failure_text(f, at as nat, registers(f)[at]),
                            cause: reads[at]->Err_0@,
                        },
                    ),
                )
            } else if reads.len() < registers(f).len() {
                ReadStepModel::Read { address: registers(f)[reads.len() as int] }
            } else {
                ReadStepModel::Done(
                    Ok(
                        rendered(
                            Seq::new(registers(f).len(), |i: int| reads[i]->Ok_0),
                        ),
                    ),
                )
            }
        },
    }
}

proof fn lemma_first_failure(reads: Seq<Result<u32, String>>)
    ensures
        first_failure(reads) <= reads.len(),
        forall|i: int| 0 <= i < first_failure(reads) ==> (#[trigger] reads[i]) is Ok,
        first_failure(reads) < reads.len() ==> reads[first_failure(reads) as int] is Err,
    decreases reads.len(),
{
    if reads.len() > 0 && reads[0] is Ok {
        lemma_first_failure(reads.skip(1));
        assert forall|i: int| 0 <= i < first_failure(reads) implies (
        #[trigger] reads[i]) is Ok by {
            if i > 0 {
                assert(reads.skip(1)[i - 1] == reads[i]);
            }
        }
        if first_failure(reads) < reads.len() {
            assert(reads.skip(1)[first_failure(reads.skip(1)) as int]
                == reads[first_failure(reads) as int]);
        }
    }
}

/// Decides what comes next in reading the ID of `chip`.
pub fn next_read(chip: &str, reads: &Vec<Result<u32, String>>) -> (r: ReadStep)
    ensures
        r.deep_view() == read_next(chip@, reads@),
{
    let f = match classify_chip(chip) {
        Some(f) => f,
        None => {
            return ReadStep::Done(Err(ReadError::Unsupported { chip: chip.to_string() }));
        },
    };
    let addresses = register_addresses(f);
    let mut words: Vec<u32> = Vec::new();
    let mut i: usize = 0;
    proof {
        lemma_first_failure(reads@);
    }
    while i < addresses.len() && i < reads.len()
        invariant
            i <= addresses@.len(),
            i <= reads@.len(),
            addresses@ == registers(f),
            family(chip@) == Some(f),
            first_failure(reads@) >= i,
            first_failure(reads@) <= reads@.len(),
            forall|j: int| 0 <= j < first_failure(reads@) ==> (#[trigger] reads@[j]) is Ok,
            first_failure(reads@) < reads@.len() ==> reads@[first_failure(reads@) as int] is Err,
            words@ =~= Seq::new(i as nat, |j: int| reads@[j]->Ok_0),
        decreases addresses@.len() - i,
    {
        match &reads[i] {
            Ok(word) => {
                words.push(*word);
            },
            Err(cause) => {
                let what = read_failure(f, i, addresses[i]);
                return ReadStep::Done(Err(ReadError::Register { what, cause: cause.clone() }));
            },
        }
        i += 1;
    }
    if i < addresses.len() {
        return ReadStep::Read { address: addresses[i] };
    }
    ReadStep::Done(Ok(render(&words)))
}

/// The answer at `i` is one of `read_word` for the register that was asked for next.
pub open spec fn answered_at<F: Fn(u64) -> Result<u32, String>>(
    read_word: F,
    chip: Seq<char>,
    reads: Seq<Result<u32, String>>,
    i: int,
) -> bool {
    read_next(chip, reads.take(i)) matches ReadStepModel::Read { address } && call_ensures(
        read_word,
        (address,),
        reads[i],
    )
}

/// `reads` are answers of `read_word` for the registers of `chip`, in order, each
/// asked for only after the ones before it were read.
pub open spec fn answered<F: Fn(u64) -> Result<u32, String>>(
    read_word: F,
    chip: Seq<char>,
    reads: Seq<Result<u32, String>>,
) -> bool {
    forall|i: int| 0 <= i < reads.len() ==> #[trigger] answered_at(read_word, chip, reads, i)
}

/// Reads the factory-unique ID of `chip` through `read_word`, which reads the word
/// at an address of the attached target.
pub fn read<F: Fn(u64) -> Result<u32, String>>(read_word: F, chip: &str) -> (r: Result<
    String,
    ReadError,
>)
    requires
        forall|address: u64| call_requires(read_word, (address,)),
    ensures
        exists|reads: Seq<Result<u32, String>>|
            #![trigger read_next(chip@, reads)]
            answered(read_word, chip@, reads) && read_next(chip@, reads) == ReadStepModel::Done(
                read_view(r),
            ),
{
    let mut reads: Vec<Result<u32, String>> = Vec::new();
    proof {
        assert(first_failure(reads@) == 0);
    }
    loop
        invariant
            answered(read_word, chip@, reads@),
            forall|address: u64| call_requires(read_word, (address,)),
            family(chip@) matches Some(f) ==> reads@.len() <= registers(f).len(),
        decreases (match family(chip@) {
            Some(f) => registers(f).len() - reads@.len(),
            None => 0,
        }),
    {
        match next_read(chip, &reads) {
            ReadStep::Done(r) => {
                return r;
            },
            ReadStep::Read { address } => {
                let ghost before = reads@;
                let word = read_word(address);
                reads.push(word);
                proof {
                    assert forall|i: int| 0 <= i < reads@.len() implies #[trigger] answered_at(
                        read_word,
                        chip@,
                        reads@,
                        i,
                    ) by {
                        assert(reads@.take(i) =~= before.take(i));
                        if i < before.len() {
                            assert(answered_at(read_word, chip@, before, i));
                        } else {
                            assert(before.take(i) =~= before);
                        }
                    }
                }
            },
        }
    }
}

// ---- what a board says of itself ----------------------------------------------------

/// How the identity that a board reports of itself relates to the one that was read
/// over JTAG.
#[derive(Debug, Clone, Copy, PartialEq, Eq, Structural)]
pub enum SelfReportedIdentity {
    /// The two name the same chip.
    Match,
    /// The two name different chips.
    Mismatch,
    /// The board reported nothing.
    NotReported,
    /// No relation is declared for this chip, so nothing can be concluded. This is
    /// not a match.
    Undeclared,
}

/// Sixteen hexadecimal digits: an ID of two words.
pub open spec fn two_words(id: Seq<char>) -> bool {
    id.len() == 16 && forall|i: int| 0 <= i < 16 ==> text::is_hex_char(#[trigger] id[i])
}

fn is_two_words(id: &Vec<char>) -> (r: bool)
    ensures
        r == two_words(id@),
{
    if id.len() != 16 {
        return false;
    }
    let mut i: usize = 0;
    while i < 16
        invariant
            i <= 16,
            id@.len() == 16,
            forall|j: int| 0 <= j < i ==> text::is_hex_char(#[trigger] id@[j]),
        decreases 16 - i,
    {
        if !text::exec_is_hex_char(id[i]) {
            return false;
        }
        i += 1;
    }
    true
}

/// What a Nordic board reports, given the ID read over JTAG: the same sixteen
/// digits with the two halves swapped, since its driver emits `DEVICEID[1]` first.
pub open spec fn nordic_report(jtag_read: Seq<char>) -> Option<Seq<char>> {
    if two_words(jtag_read) {
        Some(jtag_read.subrange(8, 16) + jtag_read.subrange(0, 8))
    } else {
        None
    }
}

/// What an ESP32-C5 reports, given the ID read over JTAG: the low half of the
/// second word, then the first word. The driver drops the checksum in the upper
/// half of the second word.
pub open spec fn esp32c5_report(jtag_read: Seq<char>) -> Option<Seq<char>> {
    if two_words(jtag_read) {
        Some(text::lower(jtag_read.subrange(12, 16)) + text::lower(jtag_read.subrange(0, 8)))
    } else {
        None
    }
}

pub fn nordic_expected_self_report(jtag_read: &str) -> (r: Option<String>)
    ensures
        r.deep_view() == nordic_report(jtag_read@),
{
    let v = text::to_chars(jtag_read);
    if !is_two_words(&v) {
        return None;
    }
    let mut r = text::from_chars(&v, 8, 16);
    r.append(text::from_chars(&v, 0, 8).as_str());
    Some(r)
}

pub fn esp32c5_expected_self_report(jtag_read: &str) -> (r: Option<String>)
    ensures
        r.deep_view() == esp32c5_report(jtag_read@),
{
    let v = text::to_chars(jtag_read);
    if !is_two_words(&v) {
        return None;
    }
    let mut r = text::to_lower(text::from_chars(&v, 12, 16).as_str());
    r.append(text::to_lower(text::from_chars(&v, 0, 8).as_str()).as_str());
    Some(r)
}

/// Whether the ID of `chip` is a `DEVICEID` pair: the set of chips for which
/// [`nordic_expected_self_report`] holds.
pub fn is_nordic_deviceid_chip(chip: &str) -> (r: bool)
    ensures
        r == is_nordic(chip@),
{
    match classify_chip(chip) {
        Some(ChipFamily::Nrf54InfoDeviceId) | Some(ChipFamily::NrfClassicDeviceId) => true,
        _ => false,
    }
}

pub open spec fn is_nordic(chip: Seq<char>) -> bool {
    family(chip) == Some(ChipFamily::Nrf54InfoDeviceId) || family(chip) == Some(
        ChipFamily::NrfClassicDeviceId,
    )
}

/// What a board with `chip` should report; `None` where no relation is declared or
/// the JTAG read has not the shape of an ID.
pub open spec fn expected_report(chip: Seq<char>, jtag_read: Seq<char>) -> Option<Seq<char>> {
    if chip == "esp32c5"@ {
        esp32c5_report(jtag_read)
    } else if is_nordic(chip) {
        nordic_report(jtag_read)
    } else {
        None
    }
}

/// What [`compare_self_reported`] returns. Letter case never matters.
pub open spec fn compared(
    chip: Seq<char>,
    jtag_read: Seq<char>,
    self_reported: Seq<char>,
) -> SelfReportedIdentity {
    if self_reported.len() == 0 {
        SelfReportedIdentity::NotReported
    } else if text::lower(self_reported) == text::lower(jtag_read) {
        SelfReportedIdentity::Match
    } else {
        match expected_report(chip, jtag_read) {
            Some(e) => if text::lower(self_reported) == text::lower(e) {
                SelfReportedIdentity::Match
            } else {
                SelfReportedIdentity::Mismatch
            },
            None => SelfReportedIdentity::Undeclared,
        }
    }
}

/// Relates the ID that a board reported of itself to the one that was read over
/// JTAG. Equality is conclusive for any chip; otherwise the two are related only
/// for the families whose relation is derived.
pub fn compare_self_reported(chip: &str, jtag_read: &str, self_reported: &str) -> (r:
    SelfReportedIdentity)
    ensures
        r == compared(chip@, jtag_read@, self_reported@),
{
    if text::to_chars(self_reported).len() == 0 {
        return SelfReportedIdentity::NotReported;
    }
    if text::same_ignoring_case(self_reported, jtag_read) {
        return SelfReportedIdentity::Match;
    }
    let expected = if text::same(chip, "esp32c5") {
        esp32c5_expected_self_report(jtag_read)
    } else if is_nordic_deviceid_chip(chip) {
        nordic_expected_self_report(jtag_read)
    } else {
        return SelfReportedIdentity::Undeclared;
    };
    match expected {
        Some(e) => if text::same_ignoring_case(self_reported, e.as_str()) {
            SelfReportedIdentity::Match
        } else {
            SelfReportedIdentity::Mismatch
        },
        None => SelfReportedIdentity::Undeclared,
    }
}

// ---- what the identities promise ------------------------------------------------------

/// No nRF54H part is given a family, in whatever case its name is written, so its
/// ID is never read and never compared by a relation.
pub proof fn law_nrf54h_is_never_classified(chip: Seq<char>, jtag_read: Seq<char>)
    requires
        text::begins(text::lower(chip), "nrf54h"@),
    ensures
        family(chip) is None,
        expected_report(chip, jtag_read) is None,
        forall|reads: Seq<Result<u32, String>>|
            (#[trigger] read_next(chip, reads)) == ReadStepModel::Done(
                Err(ReadFailure::Unsupported { chip }),
            ),
{
    reveal_strlit("nrf54h");
    reveal_strlit("esp32c5");
    if chip == "esp32c5"@ {
        assert(text::lower(chip)[0] == 'e');
        assert(text::lower(chip).take(6)[0] == "nrf54h"@[0]);
    }
}

/// A name of the nRF54L series is never taken for a classic part, in whatever case
/// it is written and whatever follows.
pub proof fn law_nrf54l_is_not_classic(chip: Seq<char>)
    requires
        text::begins(text::lower(chip), "nrf54l"@),
    ensures
        family(chip) == Some(ChipFamily::Nrf54InfoDeviceId),
{
    reveal_strlit("nrf54h");
    reveal_strlit("nrf54l");
    reveal_strlit("esp32c5");
    let c = text::lower(chip);
    assert(c.take(6)[0] == 'n' && c.take(6)[5] == 'l');
    if chip == "esp32c5"@ {
        assert(c[0] == 'e');
    }
}

/// An ID of `n` words has `8 * n` digits, and IDs of equally many words are written
/// alike only if they are the same.
pub proof fn law_written_ids_are_distinct(a: Seq<u32>, b: Seq<u32>)
    requires
        a.len() == b.len(),
    ensures
        rendered(a).len() == 8 * a.len(),
        rendered(a) == rendered(b) <==> a == b,
    decreases a.len(),
{
    if a.len() > 0 {
        let (s, t) = (a.drop_last(), b.drop_last());
        law_written_ids_are_distinct(s, t);
        text::lemma_hex_fixed(a.last() as nat, 8);
        text::lemma_hex_fixed(b.last() as nat, 8);
        if rendered(a) == rendered(b) {
            let n = rendered(s).len() as int;
            assert(rendered(a) == rendered(s) + text::hex_fixed(a.last() as nat, 8));
            assert(rendered(b) == rendered(t) + text::hex_fixed(b.last() as nat, 8));
            assert(rendered(t).len() == n);
            assert(rendered(a).take(n) =~= rendered(s));
            assert(rendered(b).take(n) =~= rendered(t));
            assert(rendered(a).skip(n) =~= text::hex_fixed(a.last() as nat, 8));
            assert(rendered(b).skip(n) =~= text::hex_fixed(b.last() as nat, 8));
            assert(vstd::arithmetic::power::pow(16, 8) == 0x1_0000_0000) by {
                vstd::arithmetic::power::lemma_pow0(16);
                reveal_with_fuel(vstd::arithmetic::power::pow, 9);
            }
            text::lemma_hex_fixed_injective(a.last() as nat, b.last() as nat, 8);
            assert(a =~= s.push(a.last()));
            assert(b =~= t.push(b.last()));
        }
    } else {
        assert(a =~= b);
    }
}

proof fn lemma_rendered_pair(x: u32, y: u32)
    ensures
        rendered(seq![x, y]) == text::hex_fixed(x as nat, 8) + text::hex_fixed(y as nat, 8),
        two_words(rendered(seq![x, y])),
        rendered(seq![x, y]).subrange(0, 8) == text::hex_fixed(x as nat, 8),
        rendered(seq![x, y]).subrange(8, 16) == text::hex_fixed(y as nat, 8),
{
    reveal_with_fuel(rendered, 3);
    text::lemma_hex_fixed(x as nat, 8);
    text::lemma_hex_fixed(y as nat, 8);
    let r = rendered(seq![x, y]);
    assert(seq![x, y].drop_last() =~= seq![x]);
    assert(seq![x].drop_last() =~= Seq::<u32>::empty());
    assert(r =~= text::hex_fixed(x as nat, 8) + text::hex_fixed(y as nat, 8));
    assert(r.subrange(0, 8) =~= text::hex_fixed(x as nat, 8));
    assert(r.subrange(8, 16) =~= text::hex_fixed(y as nat, 8));
}

/// A Nordic board that emits its two words in reverse order is matched with the ID
/// read in order, and one that emits any two other words in that way is not, unless
/// they are the ID itself.
pub proof fn law_nordic_report_is_the_swapped_pair(
    chip: Seq<char>,
    w0: u32,
    w1: u32,
    v0: u32,
    v1: u32,
)
    requires
        is_nordic(chip),
    ensures
        nordic_report(rendered(seq![w0, w1])) == Some(rendered(seq![w1, w0])),
        compared(chip, rendered(seq![w0, w1]), rendered(seq![w1, w0]))
            == SelfReportedIdentity::Match,
        compared(chip, rendered(seq![w0, w1]), rendered(seq![v1, v0]))
            == SelfReportedIdentity::Match <==> (v0 == w0 && v1 == w1) || (v0 == w1 && v1 == w0),
        compared(chip, rendered(seq![w0, w1]), rendered(seq![v1, v0]))
            != SelfReportedIdentity::Undeclared,
{
    reveal_strlit("esp32c5");
    lemma_rendered_pair(w0, w1);
    lemma_rendered_pair(w1, w0);
    lemma_rendered_pair(v1, v0);
    assert(chip != "esp32c5"@);
    lemma_rendered_is_lower(seq![w0, w1]);
    lemma_rendered_is_lower(seq![w1, w0]);
    lemma_rendered_is_lower(seq![v1, v0]);
    law_written_ids_are_distinct(seq![v1, v0], seq![w0, w1]);
    law_written_ids_are_distinct(seq![v1, v0], seq![w1, w0]);
    assert(seq![v1, v0] == seq![w0, w1] <==> (v1 == w0 && v0 == w1)) by {
        assert(seq![v1, v0][0] == v1 && seq![v1, v0][1] == v0);
        assert(seq![w0, w1][0] == w0 && seq![w0, w1][1] == w1);
    }
    assert(seq![v1, v0] == seq![w1, w0] <==> (v1 == w1 && v0 == w0)) by {
        assert(seq![v1, v0][0] == v1 && seq![v1, v0][1] == v0);
        assert(seq![w1, w0][0] == w1 && seq![w1, w0][1] == w0);
    }
}

proof fn lemma_rendered_is_lower(words: Seq<u32>)
    ensures
        text::lower(rendered(words)) == rendered(words),
    decreases words.len(),
{
    if words.len() > 0 {
        lemma_rendered_is_lower(words.drop_last());
        text::lemma_hex_fixed(words.last() as nat, 8);
        let (x, y) = (rendered(words.drop_last()), text::hex_fixed(words.last() as nat, 8));
        assert forall|i: int| 0 <= i < (x + y).len() implies text::lower(x + y)[i]
            == #[trigger] (x + y)[i] by {
            if i < x.len() {
                assert(text::lower(x)[i] == x[i]);
            }
        }
        assert(text::lower(x + y) =~= x + y);
    } else {
        assert(text::lower(rendered(words)) =~= rendered(words));
    }
}

/// The swap undoes itself.
pub proof fn law_nordic_swap_is_its_own_inverse(jtag_read: Seq<char>)
    requires
        two_words(jtag_read),
    ensures
        nordic_report(jtag_read) matches Some(r) && nordic_report(r) == Some(jtag_read),
{
    let r = nordic_report(jtag_read)->0;
    assert forall|i: int| 0 <= i < 16 implies text::is_hex_char(#[trigger] r[i]) by {
        if i < 8 {
            assert(r[i] == jtag_read[i + 8]);
        } else {
            assert(r[i] == jtag_read[i - 8]);
        }
    }
    assert(r.subrange(8, 16) + r.subrange(0, 8) =~= jtag_read);
}

/// An ESP32-C5 reports the low half of the second word and the whole first word.
/// The checksum in the upper half of the second word plays no part.
pub proof fn law_esp32c5_report_drops_the_checksum(sys0: u32, sys1: u32, other: u32)
    requires
        sys1 % 0x1_0000 == other % 0x1_0000,
    ensures
        esp32c5_report(rendered(seq![sys0, sys1])) == Some(
            text::hex_fixed((sys1 % 0x1_0000) as nat, 4) + text::hex_fixed(sys0 as nat, 8),
        ),
        esp32c5_report(rendered(seq![sys0, sys1])) == esp32c5_report(rendered(seq![sys0, other])),
        compared(
            "esp32c5"@,
            rendered(seq![sys0, sys1]),
            text::hex_fixed((sys1 % 0x1_0000) as nat, 4) + text::hex_fixed(sys0 as nat, 8),
        ) == SelfReportedIdentity::Match,
{
    lemma_esp32c5_pair(sys0, sys1);
    lemma_esp32c5_pair(sys0, other);
    text::lemma_hex_fixed((sys1 % 0x1_0000) as nat, 4);
    text::lemma_hex_fixed(sys0 as nat, 8);
}

proof fn lemma_esp32c5_pair(sys0: u32, sys1: u32)
    ensures
        esp32c5_report(rendered(seq![sys0, sys1])) == Some(
            text::hex_fixed((sys1 % 0x1_0000) as nat, 4) + text::hex_fixed(sys0 as nat, 8),
        ),
{
    lemma_rendered_pair(sys0, sys1);
    let r = rendered(seq![sys0, sys1]);
    let low = text::hex_fixed((sys1 % 0x1_0000) as nat, 4);
    text::lemma_hex_fixed_tail(sys1 as nat);
    text::lemma_hex_fixed((sys1 % 0x1_0000) as nat, 4);
    text::lemma_hex_fixed(sys0 as nat, 8);
    assert(r.subrange(12, 16) =~= r.subrange(8, 16).subrange(4, 8));
    assert(text::lower(low) =~= low);
    assert(text::lower(text::hex_fixed(sys0 as nat, 8)) =~= text::hex_fixed(sys0 as nat, 8));
}

/// Nothing reported is told from every other case; agreement is a match for any
/// chip; and where no relation is declared nothing but agreement is a match.
pub proof fn law_match_needs_agreement(
    chip: Seq<char>,
    jtag_read: Seq<char>,
    self_reported: Seq<char>,
)
    ensures
        compared(chip, jtag_read, self_reported) == SelfReportedIdentity::NotReported
            <==> self_reported.len() == 0,
        jtag_read.len() > 0 ==> compared(chip, jtag_read, jtag_read)
            == SelfReportedIdentity::Match,
        chip != "esp32c5"@ && !is_nordic(chip) && compared(chip, jtag_read, self_reported)
            == SelfReportedIdentity::Match ==> text::lower(self_reported) == text::lower(
            jtag_read,
        ),
        compared(chip, jtag_read, self_reported) == SelfReportedIdentity::Mismatch
            ==> expected_report(chip, jtag_read) is Some,
{
}

/// The comparison does not depend on the case of the digits.
pub proof fn law_case_of_an_id_never_matters(
    chip: Seq<char>,
    jtag_read: Seq<char>,
    self_reported: Seq<char>,
)
    ensures
        compared(chip, text::lower(jtag_read), text::lower(self_reported)) == compared(
            chip,
            jtag_read,
            self_reported,
        ),
{
    let j = text::lower(jtag_read);
    text::lemma_lower(jtag_read);
    text::lemma_lower(self_reported);
    if two_words(jtag_read) {
        assert forall|i: int| 0 <= i < 16 implies text::is_hex_char(#[trigger] j[i]) by {
            assert(text::is_hex_char(jtag_read[i]));
        }
    }
    if two_words(j) {
        assert forall|i: int| 0 <= i < 16 implies text::is_hex_char(#[trigger] jtag_read[i]) by {
            assert(text::is_hex_char(j[i]));
        }
        assert(text::lower(nordic_report(j)->0) =~= text::lower(nordic_report(jtag_read)->0));
        assert(text::lower(esp32c5_report(j)->0) =~= text::lower(
            esp32c5_report(jtag_read)->0,
        ));
    }
}

// ---- the identities, in terms of their digits ---------------------------------------------

/// Sixteen characters that are digits or the letters from a to f in either case.
pub open spec fn sixteen_digits(s: Seq<char>) -> bool {
    s.len() == 16 && forall|i: int|
        0 <= i < 16 ==> {
            let c = #[trigger] s[i];
            ('0' <= c <= '9') || ('a' <= c <= 'f') || ('A' <= c <= 'F')
        }
}

/// The two texts differ at most in the case of ASCII letters.
pub open spec fn same_but_for_case(a: Seq<char>, b: Seq<char>) -> bool {
    a.len() == b.len() && forall|i: int|
        0 <= i < a.len() ==> {
            let (x, y) = (#[trigger] a[i], b[i]);
            x == y || ('A' <= x <= 'Z' && y as int == x as int + 32) || ('A' <= y <= 'Z'
                && x as int == y as int + 32)
        }
}

/// A report is a match exactly if, letter case aside, it is the ID that was read, or is
/// made of that ID in the one way that the chip's family has: for an ESP32-C5 the last
/// four digits and then the first eight, for a Nordic part the second half and then the
/// first, whole and with nothing before or behind. Any other report is a mismatch where
/// the family has such a way and the ID has sixteen digits, and else undeclared; and a
/// board that reported nothing is neither.
pub proof fn law_report_is_judged_by_all_its_digits(
    chip: Seq<char>,
    jtag_read: Seq<char>,
    reported: Seq<char>,
)
    ensures
        ({
            let r = compared(chip, jtag_read, reported);
            let esp = chip == "esp32c5"@;
            let related = (esp || family(chip) == Some(ChipFamily::Nrf54InfoDeviceId) || family(
                chip,
            ) == Some(ChipFamily::NrfClassicDeviceId)) && sixteen_digits(jtag_read);
            let expected = if esp {
                jtag_read.subrange(12, 16) + jtag_read.subrange(0, 8)
            } else {
                jtag_read.subrange(8, 16) + jtag_read.subrange(0, 8)
            };
            let agrees = same_but_for_case(reported, jtag_read) || (related && same_but_for_case(
                reported,
                expected,
            ));
            &&& r == SelfReportedIdentity::NotReported <==> reported.len() == 0
            &&& r == SelfReportedIdentity::Match <==> reported.len() > 0 && agrees
            &&& r == SelfReportedIdentity::Mismatch <==> reported.len() > 0 && !agrees && related
            &&& r == SelfReportedIdentity::Undeclared <==> reported.len() > 0 && !agrees
                && !related
        }),
{
    reveal_strlit("esp32c5");
    lemma_same_but_for_case(reported, jtag_read);
    assert(two_words(jtag_read) == sixteen_digits(jtag_read)) by {
        if two_words(jtag_read) {
            assert forall|i: int| 0 <= i < 16 implies {
                let c = #[trigger] jtag_read[i];
                ('0' <= c <= '9') || ('a' <= c <= 'f') || ('A' <= c <= 'F')
            } by {
                assert(text::is_hex_char(jtag_read[i]));
            }
        }
        if sixteen_digits(jtag_read) {
            assert forall|i: int| 0 <= i < 16 implies text::is_hex_char(
                #[trigger] jtag_read[i],
            ) by {}
        }
    }
    if two_words(jtag_read) {
        let e = jtag_read.subrange(12, 16) + jtag_read.subrange(0, 8);
        lemma_same_but_for_case(reported, e);
        lemma_same_but_for_case(reported, jtag_read.subrange(8, 16) + jtag_read.subrange(0, 8));
        assert(text::lower(esp32c5_report(jtag_read)->0) =~= text::lower(e));
    }
}

proof fn lemma_same_but_for_case(a: Seq<char>, b: Seq<char>)
    ensures
        same_but_for_case(a, b) <==> text::lower(a) == text::lower(b),
{
    if text::lower(a) == text::lower(b) {
        assert(a.len() == text::lower(a).len() && b.len() == text::lower(b).len());
        assert forall|i: int| 0 <= i < a.len() implies {
            let (x, y) = (#[trigger] a[i], b[i]);
            x == y || ('A' <= x <= 'Z' && y as int == x as int + 32) || ('A' <= y <= 'Z' && x as int
                == y as int + 32)
        } by {
            assert(text::lower(a)[i] == text::lower_char(a[i]));
            assert(text::lower(b)[i] == text::lower_char(b[i]));
        }
    }
    if same_but_for_case(a, b) {
        assert forall|i: int| 0 <= i < a.len() implies text::lower(a)[i] == text::lower(b)[i] by {
            let (x, y) = (a[i], b[i]);
        }
        assert(text::lower(a) =~= text::lower(b));
    }
}

/// An ESP32-C5 that reports the address of some pair of words is matched exactly if it is
/// the address of the pair that was read: the whole first word and the low half of the
/// second. Otherwise it is another board.
pub proof fn law_esp32c5_boards_are_told_apart(
    sys0: u32,
    sys1: u32,
    other0: u32,
    other1: u32,
)
    ensures
        ({
            let r = compared(
                "esp32c5"@,
                rendered(seq![sys0, sys1]),
                text::hex_fixed((other1 % 0x1_0000) as nat, 4) + text::hex_fixed(
                    other0 as nat,
                    8,
                ),
            );
            let same = other0 == sys0 && other1 % 0x1_0000 == sys1 % 0x1_0000;
            &&& r == SelfReportedIdentity::Match <==> same
            &&& r == SelfReportedIdentity::Mismatch <==> !same
        }),
{
    let low = text::hex_fixed((other1 % 0x1_0000) as nat, 4);
    let high = text::hex_fixed(other0 as nat, 8);
    let own_low = text::hex_fixed((sys1 % 0x1_0000) as nat, 4);
    let own_high = text::hex_fixed(sys0 as nat, 8);
    text::lemma_hex_fixed((other1 % 0x1_0000) as nat, 4);
    text::lemma_hex_fixed(other0 as nat, 8);
    text::lemma_hex_fixed((sys1 % 0x1_0000) as nat, 4);
    text::lemma_hex_fixed(sys0 as nat, 8);
    lemma_esp32c5_pair(sys0, sys1);
    lemma_rendered_pair(sys0, sys1);
    assert(text::lower(low + high) =~= low + high);
    assert(text::lower(own_low + own_high) =~= own_low + own_high);
    assert(text::lower(rendered(seq![sys0, sys1])).len() == 16);
    assert(text::lower(low + high).len() == 12);
    if low + high == own_low + own_high {
        assert(low =~= (low + high).take(4));
        assert(own_low =~= (own_low + own_high).take(4));
        assert(high =~= (low + high).skip(4));
        assert(own_high =~= (own_low + own_high).skip(4));
        vstd::arithmetic::power::lemma_pow0(16);
        assert(vstd::arithmetic::power::pow(16, 4) == 0x1_0000
            && vstd::arithmetic::power::pow(16, 8) == 0x1_0000_0000) by {
            reveal_with_fuel(vstd::arithmetic::power::pow, 9);
        }
        text::lemma_hex_fixed_injective(
            (other1 % 0x1_0000) as nat,
            (sys1 % 0x1_0000) as nat,
            4,
        );
        text::lemma_hex_fixed_injective(other0 as nat, sys0 as nat, 8);
    }
}

/// What a board should report is made of the digits that were read and of nothing else,
/// and there is none exactly where those are not sixteen hexadecimal digits. The Nordic
/// halves keep their letters as they are; the ESP32-C5 address is in lower case.
pub proof fn law_expected_reports_are_made_of_the_digits_read(jtag_read: Seq<char>)
    ensures
        nordic_report(jtag_read) is Some <==> sixteen_digits(jtag_read),
        esp32c5_report(jtag_read) is Some <==> sixteen_digits(jtag_read),
        nordic_report(jtag_read) matches Some(r) ==> r.len() == 16 && forall|i: int|
            0 <= i < 16 ==> #[trigger] r[i] == jtag_read[(i + 8) % 16],
        esp32c5_report(jtag_read) matches Some(r) ==> r.len() == 12 && same_but_for_case(
            r,
            jtag_read.subrange(12, 16) + jtag_read.subrange(0, 8),
        ) && forall|i: int| 0 <= i < 12 ==> !('A' <= #[trigger] r[i] <= 'Z'),
{
    if two_words(jtag_read) {
        assert forall|i: int| 0 <= i < 16 implies {
            let c = #[trigger] jtag_read[i];
            ('0' <= c <= '9') || ('a' <= c <= 'f') || ('A' <= c <= 'F')
        } by {
            assert(text::is_hex_char(jtag_read[i]));
        }
        let e = jtag_read.subrange(12, 16) + jtag_read.subrange(0, 8);
        let r = esp32c5_report(jtag_read)->0;
        assert(r =~= text::lower(e));
        text::lemma_lower(e);
        lemma_same_but_for_case(r, e);
    }
    if sixteen_digits(jtag_read) {
        assert forall|i: int| 0 <= i < 16 implies text::is_hex_char(#[trigger] jtag_read[i]) by {}
    }
}

/// The family of a chip is decided by how its name begins, letter case aside, and for an
/// ESP32-C5 by the whole name. Whatever begins otherwise has none.
pub proof fn law_family_goes_by_the_name(chip: Seq<char>)
    ensures
        ({
            let begins = |prefix: Seq<char>| prefix.len() <= chip.len() && same_but_for_case(
                chip.take(prefix.len() as int),
                prefix,
            );
            &&& family(chip) == Some(ChipFamily::Esp32C5) <==> chip == "esp32c5"@
            &&& family(chip) == Some(ChipFamily::Nrf54InfoDeviceId) <==> begins("nrf54l"@)
            &&& family(chip) == Some(ChipFamily::NrfClassicDeviceId) <==> (begins("nrf5"@)
                || begins("nrf9"@)) && !begins("nrf54l"@) && !begins("nrf54h"@)
            &&& family(chip) == Some(ChipFamily::Stm32G0Uid) <==> begins("stm32g0"@)
        }),
{
    reveal_strlit("nrf54h");
    reveal_strlit("nrf54l");
    reveal_strlit("nrf5");
    reveal_strlit("nrf9");
    reveal_strlit("stm32g0");
    reveal_strlit("esp32c5");
    let c = text::lower(chip);
    lemma_begins(chip, "nrf54h"@);
    lemma_begins(chip, "nrf54l"@);
    lemma_begins(chip, "nrf5"@);
    lemma_begins(chip, "nrf9"@);
    lemma_begins(chip, "stm32g0"@);
    if chip == "esp32c5"@ {
        assert(c[0] == 'e');
    }
    if text::begins(c, "nrf54h"@) {
        assert(c[0] == 'n' && c[1] == 'r' && c[2] == 'f' && c[3] == '5' && c[5] == 'h');
    }
    if text::begins(c, "nrf54l"@) {
        assert(c[0] == 'n' && c[1] == 'r' && c[2] == 'f' && c[3] == '5' && c[5] == 'l');
    }
    if text::begins(c, "nrf5"@) {
        assert(c[0] == 'n' && c[3] == '5');
    }
    if text::begins(c, "nrf9"@) {
        assert(c[0] == 'n' && c[3] == '9');
    }
    if text::begins(c, "stm32g0"@) {
        assert(c[0] == 's');
    }
}

/// Beginning with lower-case letters, letter case aside.
proof fn lemma_begins(chip: Seq<char>, prefix: Seq<char>)
    requires
        forall|i: int| 0 <= i < prefix.len() ==> !('A' <= #[trigger] prefix[i] <= 'Z'),
    ensures
        text::begins(text::lower(chip), prefix) <==> prefix.len() <= chip.len()
            && same_but_for_case(chip.take(prefix.len() as int), prefix),
        text::begins(text::lower(chip), prefix) ==> forall|i: int|
            0 <= i < prefix.len() ==> #[trigger] text::lower(chip)[i] == prefix[i],
        (prefix.len() <= chip.len() && forall|i: int|
            0 <= i < prefix.len() ==> #[trigger] text::lower(chip)[i] == prefix[i])
            ==> text::begins(text::lower(chip), prefix),
{
    let c = text::lower(chip);
    let n = prefix.len() as int;
    if n <= chip.len() {
        lemma_same_but_for_case(chip.take(n), prefix);
        assert(text::lower(prefix) =~= prefix);
        assert(text::lower(chip.take(n)) =~= c.subrange(0, n));
        if text::begins(c, prefix) {
            assert forall|i: int| 0 <= i < n implies #[trigger] c[i] == prefix[i] by {
                assert(c.subrange(0, n)[i] == c[i]);
            }
        }
        if forall|i: int| 0 <= i < n ==> #[trigger] c[i] == prefix[i] {
            assert(c.subrange(0, n) =~= prefix);
        }
    }
}

/// The registers of each family.
pub proof fn law_registers_of_each_family()
    ensures
        registers(ChipFamily::Nrf54InfoDeviceId) == seq![0x00FF_C304u64, 0x00FF_C308u64],
        registers(ChipFamily::NrfClassicDeviceId) == seq![0x1000_0060u64, 0x1000_0064u64],
        registers(ChipFamily::Esp32C5) == seq![0x600B_4844u64, 0x600B_4848u64],
        registers(ChipFamily::Stm32G0Uid) == seq![
            0x1FFF_7590u64,
            0x1FFF_7594u64,
            0x1FFF_7598u64,
        ],
{
    assert(registers(ChipFamily::Nrf54InfoDeviceId) =~= seq![0x00FF_C304u64, 0x00FF_C308u64]);
    assert(registers(ChipFamily::NrfClassicDeviceId) =~= seq![0x1000_0060u64, 0x1000_0064u64]);
    assert(registers(ChipFamily::Stm32G0Uid) =~= seq![
        0x1FFF_7590u64,
        0x1FFF_7594u64,
        0x1FFF_7598u64,
    ]);
}

/// Words are written one after the other, each on its own.
pub proof fn law_words_are_written_in_order(a: Seq<u32>, b: Seq<u32>, w: u32)
    ensures
        rendered(a + b) == rendered(a) + rendered(b),
        rendered(seq![w]) == text::hex_fixed(w as nat, 8),
        rendered(Seq::empty()) == Seq::<char>::empty(),
    decreases b.len(),
{
    reveal_with_fuel(rendered, 2);
    assert(seq![w].drop_last() =~= Seq::<u32>::empty());
    assert(rendered(seq![w]) =~= text::hex_fixed(w as nat, 8));
    if b.len() == 0 {
        assert(a + b =~= a);
        assert(rendered(a) + rendered(b) =~= rendered(a));
    } else {
        law_words_are_written_in_order(a, b.drop_last(), w);
        assert((a + b).drop_last() =~= a + b.drop_last());
        assert(rendered(a + b) =~= rendered(a) + rendered(b));
    }
}

/// Reading asks for each register of the chip's family in turn. Once every one was read
/// the ID is those words, in order; the first that could not be read ends it with that
/// register's number and address in the message, and with its cause.
pub proof fn law_reading_goes_register_by_register(
    chip: Seq<char>,
    f: ChipFamily,
    words: Seq<u32>,
    cause: String,
    later: Seq<Result<u32, String>>,
)
    requires
        family(chip) == Some(f),
        words.len() <= registers(f).len(),
    ensures
        ({
            let good = Seq::new(words.len(), |i: int| Ok::<u32, String>(words[i]));
            &&& words.len() < registers(f).len() ==> read_next(chip, good) == (
            ReadStepModel::Read { address: registers(f)[words.len() as int] })
            &&& words.len() == registers(f).len() ==> read_next(chip, good + later)
                == ReadStepModel::Done(Ok(rendered(words)))
            &&& words.len() < registers(f).len() ==> (read_next(
                chip,
                good.push(Err(cause)) + later,
            ) matches ReadStepModel::Done(Err(ReadFailure::Register { what, cause: c })) && c
                == cause@ && what == read_failure_text(
                f,
                words.len(),
                registers(f)[words.len() as int],
            ))
        }),
{
    let good = Seq::new(words.len(), |i: int| Ok::<u32, String>(words[i]));
    lemma_first_failure(good);
    lemma_first_failure(good + later);
    let bad = good.push(Err(cause)) + later;
    lemma_first_failure(bad);
    let n = words.len() as int;
    assert(bad[n] is Err);
    assert forall|i: int| 0 <= i < n implies (#[trigger] bad[i]) is Ok by {
        assert(bad[i] == good[i]);
    }
    assert forall|i: int| 0 <= i < n implies (#[trigger] (good + later)[i]) is Ok by {
        assert((good + later)[i] == good[i]);
    }
    let at = first_failure(bad) as int;
    assert(at == n) by {
        if at < n {
            assert(bad[at] is Ok);
        }
    }
    let g = first_failure(good) as int;
    assert(g == n) by {
        if g < n {
            assert(good[g] is Ok);
        }
    }
    let gl = first_failure(good + later) as int;
    assert(gl >= n) by {
        if gl < n {
            assert((good + later)[gl] is Ok);
        }
    }
    if words.len() == registers(f).len() {
        assert(Seq::new(registers(f).len(), |i: int| (good + later)[i]->Ok_0) =~= words);
    }
}

/// The message for a register that could not be read names its number and its address,
/// or, on an ESP32-C5, the register itself.
pub proof fn law_read_failure_names_the_register(f: ChipFamily, i: nat, address: u64)
    ensures
        f != ChipFamily::Esp32C5 ==> read_failure_text(f, i, address) == (match f {
            ChipFamily::Nrf54InfoDeviceId => "failed to read "@ + "FICR.INFO.DEVICEID"@,
            ChipFamily::NrfClassicDeviceId => "failed to read "@ + "FICR.DEVICEID"@,
            _ => "failed to read "@ + "UID"@,
        }) + "["@ + text::decimal(i) + "] at 0x"@ + text::hex(address as nat),
        f == ChipFamily::Esp32C5 && i == 0 ==> read_failure_text(f, i, address)
            == "failed to read EFUSE_RD_MAC_SYS0_REG"@,
        f == ChipFamily::Esp32C5 && i == 1 ==> read_failure_text(f, i, address)
            == "failed to read EFUSE_RD_MAC_SYS1_REG"@,
{
}

/// A chip that is not known is refused by its name, and a register that could not be read
/// by what was to be read.
pub proof fn law_failed_reads_are_told_apart(chip: Seq<char>, what: Seq<char>, cause: Seq<char>)
    ensures
        read_error_text(ReadFailure::Unsupported { chip })
            == "no hardware-id readback implemented for chip '"@ + chip + COVERED_CHIPS@,
        read_error_text(ReadFailure::Register { what, cause }) == what,
        family(chip) is None ==> forall|reads: Seq<Result<u32, String>>|
            (#[trigger] read_next(chip, reads)) == ReadStepModel::Done(
                Err(ReadFailure::Unsupported { chip }),
            ),
{
}

/// The ID of a chip that was read is written in eight digits for each of its registers,
/// and reads back as the words: so IDs of different words are different.
pub proof fn law_written_words_read_back(w: u32)
    ensures
        rendered(seq![w]).len() == 8,
        text::value_of(rendered(seq![w]), 16) == w,
{
    law_words_are_written_in_order(Seq::empty(), Seq::empty(), w);
    assert(vstd::arithmetic::power::pow(16, 8) == 0x1_0000_0000) by {
        vstd::arithmetic::power::lemma_pow0(16);
        reveal_with_fuel(vstd::arithmetic::power::pow, 9);
    }
    text::law_fixed_hexadecimal_reads_back(w as nat, 8);
}

/// The answers of a reading are what was answered for the chip's registers, each at its
/// place; there are no more of them than registers, and none follows one that failed.
pub proof fn law_answers_are_those_of_the_registers<F: Fn(u64) -> Result<u32, String>>(
    read_word: F,
    chip: Seq<char>,
    f: ChipFamily,
    reads: Seq<Result<u32, String>>,
)
    requires
        family(chip) == Some(f),
    ensures
        answered(read_word, chip, reads) <==> reads.len() <= registers(f).len() && (forall|i: int|
            0 <= i < reads.len() ==> call_ensures(
                read_word,
                (registers(f)[i],),
                #[trigger] reads[i],
            )) && (forall|i: int| 0 <= i < reads.len() - 1 ==> (#[trigger] reads[i]) is Ok),
{
    let n = reads.len() as int;
    if answered(read_word, chip, reads) {
        if n > 0 {
            assert(answered_at(read_word, chip, reads, n - 1));
            let before = reads.take(n - 1);
            lemma_first_failure(before);
            let at = first_failure(before) as int;
            assert forall|i: int| 0 <= i < n - 1 implies (#[trigger] reads[i]) is Ok by {
                assert(before[i] == reads[i]);
            }
        }
        assert forall|i: int| 0 <= i < n implies call_ensures(
            read_word,
            (registers(f)[i],),
            #[trigger] reads[i],
        ) by {
            assert(answered_at(read_word, chip, reads, i));
            assert(reads.take(i).len() == i);
        }
    }
    if reads.len() <= registers(f).len() && (forall|i: int|
        0 <= i < reads.len() ==> call_ensures(
            read_word,
            (registers(f)[i],),
            #[trigger] reads[i],
        )) && (forall|i: int| 0 <= i < reads.len() - 1 ==> (#[trigger] reads[i]) is Ok) {
        assert forall|i: int| 0 <= i < n implies #[trigger] answered_at(
            read_word,
            chip,
            reads,
            i,
        ) by {
            let before = reads.take(i);
            lemma_first_failure(before);
            let at = first_failure(before) as int;
            if at < i {
                assert(before[at] == reads[at]);
            }
            assert(call_ensures(read_word, (registers(f)[i],), reads[i]));
        }
    }
}

} // verus!
