//! The commands of the EZO EC chip: what each one writes to the device, how long the device
//! takes over it, and the kind of reply that comes back.

use crate::errors::ErrorKind;
use crate::fixed::{
    lemma_digits_length, lemma_fixed_text_length, pow10,
    count_value, digits_of, fixed_string, fixed_text, fixed_value, lemma_fixed_text_reads_back,
    lemma_natural_reads_back, natural_string, parse_fixed, parse_u16,
};
use crate::number::{is_digit, is_number, lower, unsigned};
use crate::response::ResponseKind;
use crate::text::{after, equals, has_prefix, starts_with, upper, upper_chars_of};
use vstd::prelude::*;
use vstd::slice::slice_subrange;
use vstd::string::{StrSliceExecFns, StringExecFns};
use vstd::utf8::{char_is_scalar, encode_scalar, encode_utf8, has_width_1_encoding};

verus! {

/// Room for the longest reply: four hundred characters and the status byte before them.
pub const MAX_DATA: usize = 401;

/// The length of the longest frame of a command, in bytes: that of an import of twelve
/// characters of four bytes each.
pub const MAX_FRAME: usize = 56;

/// The bytes that go on the bus for a command: its text in UTF-8 and a nul byte.
pub open spec fn frame_of(text: Seq<char>) -> Seq<u8> {
    encode_utf8(text).push(0)
}

/// A text whose first `head` characters are ASCII takes one byte for each of them and at
/// most four for each of the others.
pub proof fn lemma_encoded_length(text: Seq<char>, head: nat)
    requires
        head <= text.len(),
        forall|i: int| 0 <= i < head ==> '\0' <= #[trigger] text[i] <= '\u{7f}',
    ensures
        encode_utf8(text).len() <= head + 4 * (text.len() - head),
    decreases text.len(),
{
    if text.len() > 0 {
        let rest = text.drop_first();
        let first = encode_scalar(text[0] as u32);
        assert(first.len() <= 4);
        if head > 0 {
            assert('\0' <= text[0] <= '\u{7f}');
            char_is_scalar(text[0]);
            assert(has_width_1_encoding(text[0] as u32));
            assert(first.len() == 1);
            assert forall|i: int| 0 <= i < head - 1 implies '\0' <= #[trigger] rest[i]
                <= '\u{7f}' by {
                assert(rest[i] == text[i + 1]);
            }
            lemma_encoded_length(rest, (head - 1) as nat);
        } else {
            lemma_encoded_length(rest, 0);
        }
    }
}

/// A command of the device: what is written, how long the device takes, and what comes back.
pub trait Command {
    /// The text that is written to the device.
    spec fn command_text(&self) -> Seq<char>;

    /// Whether the command is one that can be made: an import whose piece has one to twelve
    /// characters, and every value of every other command.
    spec fn well_formed(&self) -> bool;

    /// The frame of a command is never longer than `MAX_FRAME` bytes.
    proof fn lemma_frame_length(&self)
        requires
            self.well_formed(),
        ensures
            frame_of(self.command_text()).len() <= MAX_FRAME,
    ;

    /// How long the device takes over the command, in milliseconds.
    spec fn delay_ms(&self) -> u64;

    /// The kind of reply that the command expects.
    spec fn response_kind(&self) -> ResponseKind;

    /// The text that is written to the device. Its frame is never longer than `MAX_FRAME`
    /// bytes.
    fn get_command_string(&self) -> (out: String)
        ensures
            out@ == self.command_text(),
            frame_of(out@).len() <= MAX_FRAME,
    ;

    /// How long to wait after writing and before reading, in milliseconds.
    fn get_delay(&self) -> (ms: u64)
        ensures
            ms == self.delay_ms(),
    ;

    /// The kind of reply to read the payload as.
    fn get_response_kind(&self) -> (kind: ResponseKind)
        ensures
            kind == self.response_kind(),
    ;
}

/// A command that can be read back from its text.
pub trait ReadCommand: Command + Sized {
    /// The command that `text` stands for, where `text` is in upper case.
    spec fn read(text: Seq<char>) -> Option<Self>;

    /// Reads a command back from its text, in whatever case its ASCII letters are.
    fn parse(text: &str) -> (result: Result<Self, ErrorKind>)
        ensures
            result == match Self::read(upper(text@)) {
                Some(command) => Ok::<Self, ErrorKind>(command),
                None => Err::<Self, ErrorKind>(ErrorKind::CommandParse),
            },
    ;

    /// The text of a command reads back as that command, and so with the same delay and the
    /// same kind of reply.
    proof fn lemma_reads_back(&self)
        ensures
            Self::read(upper(self.command_text())) == Some(*self),
    ;
}

/// Whether `text`, with its ASCII letters in upper case, is `keyword`.
fn is_keyword(text: &str, keyword: &str) -> (b: bool)
    ensures
        b == (upper(text@) == keyword@),
{
    let chars = upper_chars_of(text);
    equals(chars.as_slice(), keyword)
}

/// The text of a command that carries a quantity: its key and the quantity.
pub open spec fn quantity_text(key: Seq<char>, value: i64, places: nat) -> Seq<char> {
    key + fixed_text(value as int, places)
}

/// The quantity that stands behind `key` in `text`: `text` must be `key` followed by one
/// numeric literal, and the quantity is the value of the literal in units of 10 to the power
/// `-places`, rounded to the nearest unit. There is none where the literal is `inf`,
/// `infinity` or `nan`, or where the rounded value is beyond sixty-four bits: a command is
/// written with a fixed number of decimals, and these have no such text.
pub open spec fn quantity_after(key: Seq<char>, text: Seq<char>, places: nat) -> Option<i64> {
    if has_prefix(text, key) && is_number(after(text, key.len())) {
        match fixed_value(after(text, key.len()), places) {
            Some(value) => if i64::MIN <= value <= i64::MAX {
                Some(value as i64)
            } else {
                None
            },
            None => None,
        }
    } else {
        None
    }
}

/// The frame of a command that carries a quantity of at most three decimals behind a key of
/// at most nine ASCII characters has at most 31 bytes.
proof fn lemma_quantity_frame(key: Seq<char>, value: i64, places: nat)
    requires
        key.len() <= 9,
        places <= 3,
        forall|i: int| 0 <= i < key.len() ==> '\0' <= #[trigger] key[i] <= '\u{7f}',
    ensures
        frame_of(quantity_text(key, value, places)).len() <= 31,
{
    let number = fixed_text(value as int, places);
    let text = quantity_text(key, value, places);
    lemma_fixed_text_reads_back(value as int, places);
    lemma_fixed_text_length(value, places);
    assert forall|i: int| 0 <= i < text.len() implies '\0' <= #[trigger] text[i] <= '\u{7f}' by {
        if i >= key.len() {
            let c = number[i - key.len()];
            assert(c == '-' || c == '.' || is_digit(c));
        }
    }
    lemma_encoded_length(text, text.len());
}

/// The text of a command that carries a quantity.
fn quantity_string(key: &str, value: i64, places: u8) -> (out: String)
    ensures
        out@ == quantity_text(key@, value, places as nat),
{
    let mut out = String::from_str(key);
    let number = fixed_string(value, places);
    out.append(number.as_str());
    out
}

/// Reads the quantity that stands behind `key` in `text`, in whatever case its letters are.
fn parse_quantity(key: &str, text: &str, places: u8) -> (value: Option<i64>)
    ensures
        value == quantity_after(key@, upper(text@), places as nat),
{
    let chars = upper_chars_of(text);
    if !starts_with(chars.as_slice(), key) {
        return None;
    }
    let rest = slice_subrange(chars.as_slice(), key.unicode_len(), chars.len());
    parse_fixed(rest, places)
}

/// Which texts a quantity is read from: a key followed by a numeric literal is refused only
/// where the literal is one of the words `inf`, `infinity` and `nan`, in either case and
/// with or without a sign, or where its rounded value is beyond sixty-four bits.
pub proof fn lemma_quantity_refused(key: Seq<char>, text: Seq<char>, places: nat)
    requires
        has_prefix(text, key),
        is_number(after(text, key.len())),
        quantity_after(key, text, places) is None,
    ensures
        ({
            let word = unsigned(lower(after(text, key.len())));
            ||| word == "inf"@
            ||| word == "infinity"@
            ||| word == "nan"@
            ||| (fixed_value(after(text, key.len()), places) matches Some(value) && !(i64::MIN
                <= value <= i64::MAX))
        }),
{
}

/// The text of a quantity behind its key reads back as the quantity, if the key has no
/// lower-case letter.
proof fn lemma_quantity_reads_back(key: Seq<char>, value: i64, places: nat)
    requires
        upper(key) == key,
    ensures
        quantity_after(key, upper(quantity_text(key, value, places)), places) == Some(value),
{
    let number = fixed_text(value as int, places);
    let text = quantity_text(key, value, places);
    lemma_fixed_text_reads_back(value as int, places);
    assert forall|i: int| 0 <= i < text.len() implies upper(text)[i] == text[i] by {
        if i < key.len() {
            assert(upper(key)[i] == key[i]);
        } else {
            let c = number[i - key.len()];
            assert(c == '-' || c == '.' || is_digit(c));
        }
    }
    assert(upper(text) =~= text);
    assert(text.subrange(0, key.len() as int) =~= key);
    assert(after(text, key.len()) =~= number);
}

/// `CAL,?` command. Asks for the calibration status; answered with a `CalibrationStatus`.
#[derive(Debug, Copy, Clone, PartialEq, Eq, Structural)]
pub struct CalibrationState;

impl Command for CalibrationState {
    open spec fn command_text(&self) -> Seq<char> {
        "CAL,?"@
    }

    open spec fn well_formed(&self) -> bool {
        true
    }

    proof fn lemma_frame_length(&self) {
        reveal_strlit("CAL,?");
        lemma_encoded_length("CAL,?"@, 0);
    }

    open spec fn delay_ms(&self) -> u64 {
        300
    }

    open spec fn response_kind(&self) -> ResponseKind {
        ResponseKind::CalibrationStatus
    }

    fn get_command_string(&self) -> (out: String) {
        proof {
            self.lemma_frame_length();
        }
        String::from_str("CAL,?")
    }

    fn get_delay(&self) -> (ms: u64) {
        300
    }

    fn get_response_kind(&self) -> (kind: ResponseKind) {
        ResponseKind::CalibrationStatus
    }
}

impl ReadCommand for CalibrationState {
    open spec fn read(text: Seq<char>) -> Option<Self> {
        if text == "CAL,?"@ {
            Some(CalibrationState)
        } else {
            None
        }
    }

    fn parse(text: &str) -> (result: Result<Self, ErrorKind>) {
        if is_keyword(text, "CAL,?") {
            Ok(CalibrationState)
        } else {
            Err(ErrorKind::CommandParse)
        }
    }

    proof fn lemma_reads_back(&self) {
        reveal_strlit("CAL,?");
        assert(upper("CAL,?"@) =~= "CAL,?"@);
    }
}

impl std::str::FromStr for CalibrationState {
    type Err = ErrorKind;

    /// Reads the command back from its text, as `parse` does, in whatever case its ASCII
    /// letters are.
    fn from_str(text: &str) -> (result: Result<Self, ErrorKind>)
        ensures
            result == match Self::read(upper(text@)) {
                Some(command) => Ok::<Self, ErrorKind>(command),
                None => Err::<Self, ErrorKind>(ErrorKind::CommandParse),
            },
    {
        <Self as ReadCommand>::parse(text)
    }
}

/// `CAL,DRY` command. Calibrates the dry probe.
#[derive(Debug, Copy, Clone, PartialEq, Eq, Structural)]
pub struct CalibrationDry;

impl Command for CalibrationDry {
    open spec fn command_text(&self) -> Seq<char> {
        "CAL,DRY"@
    }

    open spec fn well_formed(&self) -> bool {
        true
    }

    proof fn lemma_frame_length(&self) {
        reveal_strlit("CAL,DRY");
        lemma_encoded_length("CAL,DRY"@, 0);
    }

    open spec fn delay_ms(&self) -> u64 {
        800
    }

    open spec fn response_kind(&self) -> ResponseKind {
        ResponseKind::Ack
    }

    fn get_command_string(&self) -> (out: String) {
        proof {
            self.lemma_frame_length();
        }
        String::from_str("CAL,DRY")
    }

    fn get_delay(&self) -> (ms: u64) {
        800
    }

    fn get_response_kind(&self) -> (kind: ResponseKind) {
        ResponseKind::Ack
    }
}

impl ReadCommand for CalibrationDry {
    open spec fn read(text: Seq<char>) -> Option<Self> {
        if text == "CAL,DRY"@ {
            Some(CalibrationDry)
        } else {
            None
        }
    }

    fn parse(text: &str) -> (result: Result<Self, ErrorKind>) {
        if is_keyword(text, "CAL,DRY") {
            Ok(CalibrationDry)
        } else {
            Err(ErrorKind::CommandParse)
        }
    }

    proof fn lemma_reads_back(&self) {
        reveal_strlit("CAL,DRY");
        assert(upper("CAL,DRY"@) =~= "CAL,DRY"@);
    }
}

impl std::str::FromStr for CalibrationDry {
    type Err = ErrorKind;

    /// Reads the command back from its text, as `parse` does, in whatever case its ASCII
    /// letters are.
    fn from_str(text: &str) -> (result: Result<Self, ErrorKind>)
        ensures
            result == match Self::read(upper(text@)) {
                Some(command) => Ok::<Self, ErrorKind>(command),
                None => Err::<Self, ErrorKind>(ErrorKind::CommandParse),
            },
    {
        <Self as ReadCommand>::parse(text)
    }
}

/// `CAL,n` command. Calibrates at a single point. The field counts hundredths: 8400
/// stands for 84.00. Read back from a text, the number may be any numeric
/// literal: it is rounded to hundredths, and refused if it is `inf` or `nan` or beyond
/// sixty-four bits of hundredths, which cannot be written with two decimals.
#[derive(Debug, Copy, Clone, PartialEq, Eq, Structural)]
pub struct CalibrationOnePoint(pub i64);

impl Command for CalibrationOnePoint {
    open spec fn command_text(&self) -> Seq<char> {
        quantity_text("CAL,"@, self.0, 2)
    }

    open spec fn well_formed(&self) -> bool {
        true
    }

    proof fn lemma_frame_length(&self) {
        reveal_strlit("CAL,");
        lemma_quantity_frame("CAL,"@, self.0, 2);
    }

    open spec fn delay_ms(&self) -> u64 {
        800
    }

    open spec fn response_kind(&self) -> ResponseKind {
        ResponseKind::Ack
    }

    fn get_command_string(&self) -> (out: String) {
        proof {
            self.lemma_frame_length();
        }
        quantity_string("CAL,", self.0, 2)
    }

    fn get_delay(&self) -> (ms: u64) {
        800
    }

    fn get_response_kind(&self) -> (kind: ResponseKind) {
        ResponseKind::Ack
    }
}

impl ReadCommand for CalibrationOnePoint {
    open spec fn read(text: Seq<char>) -> Option<Self> {
        match quantity_after("CAL,"@, text, 2) {
            Some(value) => Some(CalibrationOnePoint(value)),
            None => None,
        }
    }

    fn parse(text: &str) -> (result: Result<Self, ErrorKind>) {
        match parse_quantity("CAL,", text, 2) {
            Some(value) => Ok(CalibrationOnePoint(value)),
            None => Err(ErrorKind::CommandParse),
        }
    }

    proof fn lemma_reads_back(&self) {
        reveal_strlit("CAL,");
        assert(upper("CAL,"@) =~= "CAL,"@);
        lemma_quantity_reads_back("CAL,"@, self.0, 2);
    }
}

impl std::str::FromStr for CalibrationOnePoint {
    type Err = ErrorKind;

    /// Reads the command back from its text, as `parse` does, in whatever case its ASCII
    /// letters are.
    fn from_str(text: &str) -> (result: Result<Self, ErrorKind>)
        ensures
            result == match Self::read(upper(text@)) {
                Some(command) => Ok::<Self, ErrorKind>(command),
                None => Err::<Self, ErrorKind>(ErrorKind::CommandParse),
            },
    {
        <Self as ReadCommand>::parse(text)
    }
}

/// `CAL,LOW,n` command. Calibrates the low end of the scale. The field counts hundredths.
/// Read back from a text, the number may be any numeric
/// literal: it is rounded to hundredths, and refused if it is `inf` or `nan` or beyond
/// sixty-four bits of hundredths, which cannot be written with two decimals.
#[derive(Debug, Copy, Clone, PartialEq, Eq, Structural)]
pub struct CalibrationLow(pub i64);

impl Command for CalibrationLow {
    open spec fn command_text(&self) -> Seq<char> {
        quantity_text("CAL,LOW,"@, self.0, 2)
    }

    open spec fn well_formed(&self) -> bool {
        true
    }

    proof fn lemma_frame_length(&self) {
        reveal_strlit("CAL,LOW,");
        lemma_quantity_frame("CAL,LOW,"@, self.0, 2);
    }

    open spec fn delay_ms(&self) -> u64 {
        800
    }

    open spec fn response_kind(&self) -> ResponseKind {
        ResponseKind::Ack
    }

    fn get_command_string(&self) -> (out: String) {
        proof {
            self.lemma_frame_length();
        }
        quantity_string("CAL,LOW,", self.0, 2)
    }

    fn get_delay(&self) -> (ms: u64) {
        800
    }

    fn get_response_kind(&self) -> (kind: ResponseKind) {
        ResponseKind::Ack
    }
}

impl ReadCommand for CalibrationLow {
    open spec fn read(text: Seq<char>) -> Option<Self> {
        match quantity_after("CAL,LOW,"@, text, 2) {
            Some(value) => Some(CalibrationLow(value)),
            None => None,
        }
    }

    fn parse(text: &str) -> (result: Result<Self, ErrorKind>) {
        match parse_quantity("CAL,LOW,", text, 2) {
            Some(value) => Ok(CalibrationLow(value)),
            None => Err(ErrorKind::CommandParse),
        }
    }

    proof fn lemma_reads_back(&self) {
        reveal_strlit("CAL,LOW,");
        assert(upper("CAL,LOW,"@) =~= "CAL,LOW,"@);
        lemma_quantity_reads_back("CAL,LOW,"@, self.0, 2);
    }
}

impl std::str::FromStr for CalibrationLow {
    type Err = ErrorKind;

    /// Reads the command back from its text, as `parse` does, in whatever case its ASCII
    /// letters are.
    fn from_str(text: &str) -> (result: Result<Self, ErrorKind>)
        ensures
            result == match Self::read(upper(text@)) {
                Some(command) => Ok::<Self, ErrorKind>(command),
                None => Err::<Self, ErrorKind>(ErrorKind::CommandParse),
            },
    {
        <Self as ReadCommand>::parse(text)
    }
}

/// `CAL,HIGH,n` command. Calibrates the high end of the scale. The field counts hundredths.
/// Read back from a text, the number may be any numeric
/// literal: it is rounded to hundredths, and refused if it is `inf` or `nan` or beyond
/// sixty-four bits of hundredths, which cannot be written with two decimals.
#[derive(Debug, Copy, Clone, PartialEq, Eq, Structural)]
pub struct CalibrationHigh(pub i64);

impl Command for CalibrationHigh {
    open spec fn command_text(&self) -> Seq<char> {
        quantity_text("CAL,HIGH,"@, self.0, 2)
    }

    open spec fn well_formed(&self) -> bool {
        true
    }

    proof fn lemma_frame_length(&self) {
        reveal_strlit("CAL,HIGH,");
        lemma_quantity_frame("CAL,HIGH,"@, self.0, 2);
    }

    open spec fn delay_ms(&self) -> u64 {
        800
    }

    open spec fn response_kind(&self) -> ResponseKind {
        ResponseKind::Ack
    }

    fn get_command_string(&self) -> (out: String) {
        proof {
            self.lemma_frame_length();
        }
        quantity_string("CAL,HIGH,", self.0, 2)
    }

    fn get_delay(&self) -> (ms: u64) {
        800
    }

    fn get_response_kind(&self) -> (kind: ResponseKind) {
        ResponseKind::Ack
    }
}

impl ReadCommand for CalibrationHigh {
    open spec fn read(text: Seq<char>) -> Option<Self> {
        match quantity_after("CAL,HIGH,"@, text, 2) {
            Some(value) => Some(CalibrationHigh(value)),
            None => None,
        }
    }

    fn parse(text: &str) -> (result: Result<Self, ErrorKind>) {
        match parse_quantity("CAL,HIGH,", text, 2) {
            Some(value) => Ok(CalibrationHigh(value)),
            None => Err(ErrorKind::CommandParse),
        }
    }

    proof fn lemma_reads_back(&self) {
        reveal_strlit("CAL,HIGH,");
        assert(upper("CAL,HIGH,"@) =~= "CAL,HIGH,"@);
        lemma_quantity_reads_back("CAL,HIGH,"@, self.0, 2);
    }
}

impl std::str::FromStr for CalibrationHigh {
    type Err = ErrorKind;

    /// Reads the command back from its text, as `parse` does, in whatever case its ASCII
    /// letters are.
    fn from_str(text: &str) -> (result: Result<Self, ErrorKind>)
        ensures
            result == match Self::read(upper(text@)) {
                Some(command) => Ok::<Self, ErrorKind>(command),
                None => Err::<Self, ErrorKind>(ErrorKind::CommandParse),
            },
    {
        <Self as ReadCommand>::parse(text)
    }
}

/// `CAL,CLEAR` command. Clears the calibration.
#[derive(Debug, Copy, Clone, PartialEq, Eq, Structural)]
pub struct CalibrationClear;

impl Command for CalibrationClear {
    open spec fn command_text(&self) -> Seq<char> {
        "CAL,CLEAR"@
    }

    open spec fn well_formed(&self) -> bool {
        true
    }

    proof fn lemma_frame_length(&self) {
        reveal_strlit("CAL,CLEAR");
        lemma_encoded_length("CAL,CLEAR"@, 0);
    }

    open spec fn delay_ms(&self) -> u64 {
        300
    }

    open spec fn response_kind(&self) -> ResponseKind {
        ResponseKind::Ack
    }

    fn get_command_string(&self) -> (out: String) {
        proof {
            self.lemma_frame_length();
        }
        String::from_str("CAL,CLEAR")
    }

    fn get_delay(&self) -> (ms: u64) {
        300
    }

    fn get_response_kind(&self) -> (kind: ResponseKind) {
        ResponseKind::Ack
    }
}

impl ReadCommand for CalibrationClear {
    open spec fn read(text: Seq<char>) -> Option<Self> {
        if text == "CAL,CLEAR"@ {
            Some(CalibrationClear)
        } else {
            None
        }
    }

    fn parse(text: &str) -> (result: Result<Self, ErrorKind>) {
        if is_keyword(text, "CAL,CLEAR") {
            Ok(CalibrationClear)
        } else {
            Err(ErrorKind::CommandParse)
        }
    }

    proof fn lemma_reads_back(&self) {
        reveal_strlit("CAL,CLEAR");
        assert(upper("CAL,CLEAR"@) =~= "CAL,CLEAR"@);
    }
}

impl std::str::FromStr for CalibrationClear {
    type Err = ErrorKind;

    /// Reads the command back from its text, as `parse` does, in whatever case its ASCII
    /// letters are.
    fn from_str(text: &str) -> (result: Result<Self, ErrorKind>)
        ensures
            result == match Self::read(upper(text@)) {
                Some(command) => Ok::<Self, ErrorKind>(command),
                None => Err::<Self, ErrorKind>(ErrorKind::CommandParse),
            },
    {
        <Self as ReadCommand>::parse(text)
    }
}

/// `K,0.1` command. Sets the probe type to 0.1.
#[derive(Debug, Copy, Clone, PartialEq, Eq, Structural)]
pub struct ProbeTypePointOne;

impl Command for ProbeTypePointOne {
    open spec fn command_text(&self) -> Seq<char> {
        "K,0.1"@
    }

    open spec fn well_formed(&self) -> bool {
        true
    }

    proof fn lemma_frame_length(&self) {
        reveal_strlit("K,0.1");
        lemma_encoded_length("K,0.1"@, 0);
    }

    open spec fn delay_ms(&self) -> u64 {
        600
    }

    open spec fn response_kind(&self) -> ResponseKind {
        ResponseKind::Ack
    }

    fn get_command_string(&self) -> (out: String) {
        proof {
            self.lemma_frame_length();
        }
        String::from_str("K,0.1")
    }

    fn get_delay(&self) -> (ms: u64) {
        600
    }

    fn get_response_kind(&self) -> (kind: ResponseKind) {
        ResponseKind::Ack
    }
}

impl ReadCommand for ProbeTypePointOne {
    open spec fn read(text: Seq<char>) -> Option<Self> {
        if text == "K,0.1"@ {
            Some(ProbeTypePointOne)
        } else {
            None
        }
    }

    fn parse(text: &str) -> (result: Result<Self, ErrorKind>) {
        if is_keyword(text, "K,0.1") {
            Ok(ProbeTypePointOne)
        } else {
            Err(ErrorKind::CommandParse)
        }
    }

    proof fn lemma_reads_back(&self) {
        reveal_strlit("K,0.1");
        assert(upper("K,0.1"@) =~= "K,0.1"@);
    }
}

impl std::str::FromStr for ProbeTypePointOne {
    type Err = ErrorKind;

    /// Reads the command back from its text, as `parse` does, in whatever case its ASCII
    /// letters are.
    fn from_str(text: &str) -> (result: Result<Self, ErrorKind>)
        ensures
            result == match Self::read(upper(text@)) {
                Some(command) => Ok::<Self, ErrorKind>(command),
                None => Err::<Self, ErrorKind>(ErrorKind::CommandParse),
            },
    {
        <Self as ReadCommand>::parse(text)
    }
}

/// `K,1.0` command. Sets the probe type to 1.0.
#[derive(Debug, Copy, Clone, PartialEq, Eq, Structural)]
pub struct ProbeTypeOne;

impl Command for ProbeTypeOne {
    open spec fn command_text(&self) -> Seq<char> {
        "K,1.0"@
    }

    open spec fn well_formed(&self) -> bool {
        true
    }

    proof fn lemma_frame_length(&self) {
        reveal_strlit("K,1.0");
        lemma_encoded_length("K,1.0"@, 0);
    }

    open spec fn delay_ms(&self) -> u64 {
        600
    }

    open spec fn response_kind(&self) -> ResponseKind {
        ResponseKind::Ack
    }

    fn get_command_string(&self) -> (out: String) {
        proof {
            self.lemma_frame_length();
        }
        String::from_str("K,1.0")
    }

    fn get_delay(&self) -> (ms: u64) {
        600
    }

    fn get_response_kind(&self) -> (kind: ResponseKind) {
        ResponseKind::Ack
    }
}

impl ReadCommand for ProbeTypeOne {
    open spec fn read(text: Seq<char>) -> Option<Self> {
        if text == "K,1.0"@ {
            Some(ProbeTypeOne)
        } else {
            None
        }
    }

    fn parse(text: &str) -> (result: Result<Self, ErrorKind>) {
        if is_keyword(text, "K,1.0") {
            Ok(ProbeTypeOne)
        } else {
            Err(ErrorKind::CommandParse)
        }
    }

    proof fn lemma_reads_back(&self) {
        reveal_strlit("K,1.0");
        assert(upper("K,1.0"@) =~= "K,1.0"@);
    }
}

impl std::str::FromStr for ProbeTypeOne {
    type Err = ErrorKind;

    /// Reads the command back from its text, as `parse` does, in whatever case its ASCII
    /// letters are.
    fn from_str(text: &str) -> (result: Result<Self, ErrorKind>)
        ensures
            result == match Self::read(upper(text@)) {
                Some(command) => Ok::<Self, ErrorKind>(command),
                None => Err::<Self, ErrorKind>(ErrorKind::CommandParse),
            },
    {
        <Self as ReadCommand>::parse(text)
    }
}

/// `K,10.0` command. Sets the probe type to 10.0.
#[derive(Debug, Copy, Clone, PartialEq, Eq, Structural)]
pub struct ProbeTypeTen;

impl Command for ProbeTypeTen {
    open spec fn command_text(&self) -> Seq<char> {
        "K,10.0"@
    }

    open spec fn well_formed(&self) -> bool {
        true
    }

    proof fn lemma_frame_length(&self) {
        reveal_strlit("K,10.0");
        lemma_encoded_length("K,10.0"@, 0);
    }

    open spec fn delay_ms(&self) -> u64 {
        600
    }

    open spec fn response_kind(&self) -> ResponseKind {
        ResponseKind::Ack
    }

    fn get_command_string(&self) -> (out: String) {
        proof {
            self.lemma_frame_length();
        }
        String::from_str("K,10.0")
    }

    fn get_delay(&self) -> (ms: u64) {
        600
    }

    fn get_response_kind(&self) -> (kind: ResponseKind) {
        ResponseKind::Ack
    }
}

impl ReadCommand for ProbeTypeTen {
    open spec fn read(text: Seq<char>) -> Option<Self> {
        if text == "K,10.0"@ {
            Some(ProbeTypeTen)
        } else {
            None
        }
    }

    fn parse(text: &str) -> (result: Result<Self, ErrorKind>) {
        if is_keyword(text, "K,10.0") {
            Ok(ProbeTypeTen)
        } else {
            Err(ErrorKind::CommandParse)
        }
    }

    proof fn lemma_reads_back(&self) {
        reveal_strlit("K,10.0");
        assert(upper("K,10.0"@) =~= "K,10.0"@);
    }
}

impl std::str::FromStr for ProbeTypeTen {
    type Err = ErrorKind;

    /// Reads the command back from its text, as `parse` does, in whatever case its ASCII
    /// letters are.
    fn from_str(text: &str) -> (result: Result<Self, ErrorKind>)
        ensures
            result == match Self::read(upper(text@)) {
                Some(command) => Ok::<Self, ErrorKind>(command),
                None => Err::<Self, ErrorKind>(ErrorKind::CommandParse),
            },
    {
        <Self as ReadCommand>::parse(text)
    }
}

/// `K,?` command. Asks for the probe type; answered with a `ProbeType`.
#[derive(Debug, Copy, Clone, PartialEq, Eq, Structural)]
pub struct ProbeTypeState;

impl Command for ProbeTypeState {
    open spec fn command_text(&self) -> Seq<char> {
        "K,?"@
    }

    open spec fn well_formed(&self) -> bool {
        true
    }

    proof fn lemma_frame_length(&self) {
        reveal_strlit("K,?");
        lemma_encoded_length("K,?"@, 0);
    }

    open spec fn delay_ms(&self) -> u64 {
        300
    }

    open spec fn response_kind(&self) -> ResponseKind {
        ResponseKind::ProbeType
    }

    fn get_command_string(&self) -> (out: String) {
        proof {
            self.lemma_frame_length();
        }
        String::from_str("K,?")
    }

    fn get_delay(&self) -> (ms: u64) {
        300
    }

    fn get_response_kind(&self) -> (kind: ResponseKind) {
        ResponseKind::ProbeType
    }
}

impl ReadCommand for ProbeTypeState {
    open spec fn read(text: Seq<char>) -> Option<Self> {
        if text == "K,?"@ {
            Some(ProbeTypeState)
        } else {
            None
        }
    }

    fn parse(text: &str) -> (result: Result<Self, ErrorKind>) {
        if is_keyword(text, "K,?") {
            Ok(ProbeTypeState)
        } else {
            Err(ErrorKind::CommandParse)
        }
    }

    proof fn lemma_reads_back(&self) {
        reveal_strlit("K,?");
        assert(upper("K,?"@) =~= "K,?"@);
    }
}

impl std::str::FromStr for ProbeTypeState {
    type Err = ErrorKind;

    /// Reads the command back from its text, as `parse` does, in whatever case its ASCII
    /// letters are.
    fn from_str(text: &str) -> (result: Result<Self, ErrorKind>)
        ensures
            result == match Self::read(upper(text@)) {
                Some(command) => Ok::<Self, ErrorKind>(command),
                None => Err::<Self, ErrorKind>(ErrorKind::CommandParse),
            },
    {
        <Self as ReadCommand>::parse(text)
    }
}

/// `R` command. Takes a single reading; answered with a `ProbeReading`.
#[derive(Debug, Copy, Clone, PartialEq, Eq, Structural)]
pub struct Reading;

impl Command for Reading {
    open spec fn command_text(&self) -> Seq<char> {
        "R"@
    }

    open spec fn well_formed(&self) -> bool {
        true
    }

    proof fn lemma_frame_length(&self) {
        reveal_strlit("R");
        lemma_encoded_length("R"@, 0);
    }

    open spec fn delay_ms(&self) -> u64 {
        600
    }

    open spec fn response_kind(&self) -> ResponseKind {
        ResponseKind::ProbeReading
    }

    fn get_command_string(&self) -> (out: String) {
        proof {
            self.lemma_frame_length();
        }
        String::from_str("R")
    }

    fn get_delay(&self) -> (ms: u64) {
        600
    }

    fn get_response_kind(&self) -> (kind: ResponseKind) {
        ResponseKind::ProbeReading
    }
}

impl ReadCommand for Reading {
    open spec fn read(text: Seq<char>) -> Option<Self> {
        if text == "R"@ {
            Some(Reading)
        } else {
            None
        }
    }

    fn parse(text: &str) -> (result: Result<Self, ErrorKind>) {
        if is_keyword(text, "R") {
            Ok(Reading)
        } else {
            Err(ErrorKind::CommandParse)
        }
    }

    proof fn lemma_reads_back(&self) {
        reveal_strlit("R");
        assert(upper("R"@) =~= "R"@);
    }
}

impl std::str::FromStr for Reading {
    type Err = ErrorKind;

    /// Reads the command back from its text, as `parse` does, in whatever case its ASCII
    /// letters are.
    fn from_str(text: &str) -> (result: Result<Self, ErrorKind>)
        ensures
            result == match Self::read(upper(text@)) {
                Some(command) => Ok::<Self, ErrorKind>(command),
                None => Err::<Self, ErrorKind>(ErrorKind::CommandParse),
            },
    {
        <Self as ReadCommand>::parse(text)
    }
}

/// `O,EC,0` command. Takes conductivity out of the output string.
#[derive(Debug, Copy, Clone, PartialEq, Eq, Structural)]
pub struct OutputDisableConductivity;

impl Command for OutputDisableConductivity {
    open spec fn command_text(&self) -> Seq<char> {
        "O,EC,0"@
    }

    open spec fn well_formed(&self) -> bool {
        true
    }

    proof fn lemma_frame_length(&self) {
        reveal_strlit("O,EC,0");
        lemma_encoded_length("O,EC,0"@, 0);
    }

    open spec fn delay_ms(&self) -> u64 {
        300
    }

    open spec fn response_kind(&self) -> ResponseKind {
        ResponseKind::Ack
    }

    fn get_command_string(&self) -> (out: String) {
        proof {
            self.lemma_frame_length();
        }
        String::from_str("O,EC,0")
    }

    fn get_delay(&self) -> (ms: u64) {
        300
    }

    fn get_response_kind(&self) -> (kind: ResponseKind) {
        ResponseKind::Ack
    }
}

impl ReadCommand for OutputDisableConductivity {
    open spec fn read(text: Seq<char>) -> Option<Self> {
        if text == "O,EC,0"@ {
            Some(OutputDisableConductivity)
        } else {
            None
        }
    }

    fn parse(text: &str) -> (result: Result<Self, ErrorKind>) {
        if is_keyword(text, "O,EC,0") {
            Ok(OutputDisableConductivity)
        } else {
            Err(ErrorKind::CommandParse)
        }
    }

    proof fn lemma_reads_back(&self) {
        reveal_strlit("O,EC,0");
        assert(upper("O,EC,0"@) =~= "O,EC,0"@);
    }
}

impl std::str::FromStr for OutputDisableConductivity {
    type Err = ErrorKind;

    /// Reads the command back from its text, as `parse` does, in whatever case its ASCII
    /// letters are.
    fn from_str(text: &str) -> (result: Result<Self, ErrorKind>)
        ensures
            result == match Self::read(upper(text@)) {
                Some(command) => Ok::<Self, ErrorKind>(command),
                None => Err::<Self, ErrorKind>(ErrorKind::CommandParse),
            },
    {
        <Self as ReadCommand>::parse(text)
    }
}

/// `O,EC,1` command. Puts conductivity into the output string.
#[derive(Debug, Copy, Clone, PartialEq, Eq, Structural)]
pub struct OutputEnableConductivity;

impl Command for OutputEnableConductivity {
    open spec fn command_text(&self) -> Seq<char> {
        "O,EC,1"@
    }

    open spec fn well_formed(&self) -> bool {
        true
    }

    proof fn lemma_frame_length(&self) {
        reveal_strlit("O,EC,1");
        lemma_encoded_length("O,EC,1"@, 0);
    }

    open spec fn delay_ms(&self) -> u64 {
        300
    }

    open spec fn response_kind(&self) -> ResponseKind {
        ResponseKind::Ack
    }

    fn get_command_string(&self) -> (out: String) {
        proof {
            self.lemma_frame_length();
        }
        String::from_str("O,EC,1")
    }

    fn get_delay(&self) -> (ms: u64) {
        300
    }

    fn get_response_kind(&self) -> (kind: ResponseKind) {
        ResponseKind::Ack
    }
}

impl ReadCommand for OutputEnableConductivity {
    open spec fn read(text: Seq<char>) -> Option<Self> {
        if text == "O,EC,1"@ {
            Some(OutputEnableConductivity)
        } else {
            None
        }
    }

    fn parse(text: &str) -> (result: Result<Self, ErrorKind>) {
        if is_keyword(text, "O,EC,1") {
            Ok(OutputEnableConductivity)
        } else {
            Err(ErrorKind::CommandParse)
        }
    }

    proof fn lemma_reads_back(&self) {
        reveal_strlit("O,EC,1");
        assert(upper("O,EC,1"@) =~= "O,EC,1"@);
    }
}

impl std::str::FromStr for OutputEnableConductivity {
    type Err = ErrorKind;

    /// Reads the command back from its text, as `parse` does, in whatever case its ASCII
    /// letters are.
    fn from_str(text: &str) -> (result: Result<Self, ErrorKind>)
        ensures
            result == match Self::read(upper(text@)) {
                Some(command) => Ok::<Self, ErrorKind>(command),
                None => Err::<Self, ErrorKind>(ErrorKind::CommandParse),
            },
    {
        <Self as ReadCommand>::parse(text)
    }
}

/// `O,TDS,0` command. Takes total dissolved solids out of the output string.
#[derive(Debug, Copy, Clone, PartialEq, Eq, Structural)]
pub struct OutputDisableTds;

impl Command for OutputDisableTds {
    open spec fn command_text(&self) -> Seq<char> {
        "O,TDS,0"@
    }

    open spec fn well_formed(&self) -> bool {
        true
    }

    proof fn lemma_frame_length(&self) {
        reveal_strlit("O,TDS,0");
        lemma_encoded_length("O,TDS,0"@, 0);
    }

    open spec fn delay_ms(&self) -> u64 {
        300
    }

    open spec fn response_kind(&self) -> ResponseKind {
        ResponseKind::Ack
    }

    fn get_command_string(&self) -> (out: String) {
        proof {
            self.lemma_frame_length();
        }
        String::from_str("O,TDS,0")
    }

    fn get_delay(&self) -> (ms: u64) {
        300
    }

    fn get_response_kind(&self) -> (kind: ResponseKind) {
        ResponseKind::Ack
    }
}

impl ReadCommand for OutputDisableTds {
    open spec fn read(text: Seq<char>) -> Option<Self> {
        if text == "O,TDS,0"@ {
            Some(OutputDisableTds)
        } else {
            None
        }
    }

    fn parse(text: &str) -> (result: Result<Self, ErrorKind>) {
        if is_keyword(text, "O,TDS,0") {
            Ok(OutputDisableTds)
        } else {
            Err(ErrorKind::CommandParse)
        }
    }

    proof fn lemma_reads_back(&self) {
        reveal_strlit("O,TDS,0");
        assert(upper("O,TDS,0"@) =~= "O,TDS,0"@);
    }
}

impl std::str::FromStr for OutputDisableTds {
    type Err = ErrorKind;

    /// Reads the command back from its text, as `parse` does, in whatever case its ASCII
    /// letters are.
    fn from_str(text: &str) -> (result: Result<Self, ErrorKind>)
        ensures
            result == match Self::read(upper(text@)) {
                Some(command) => Ok::<Self, ErrorKind>(command),
                None => Err::<Self, ErrorKind>(ErrorKind::CommandParse),
            },
    {
        <Self as ReadCommand>::parse(text)
    }
}

/// `O,TDS,1` command. Puts total dissolved solids into the output string.
#[derive(Debug, Copy, Clone, PartialEq, Eq, Structural)]
pub struct OutputEnableTds;

impl Command for OutputEnableTds {
    open spec fn command_text(&self) -> Seq<char> {
        "O,TDS,1"@
    }

    open spec fn well_formed(&self) -> bool {
        true
    }

    proof fn lemma_frame_length(&self) {
        reveal_strlit("O,TDS,1");
        lemma_encoded_length("O,TDS,1"@, 0);
    }

    open spec fn delay_ms(&self) -> u64 {
        300
    }

    open spec fn response_kind(&self) -> ResponseKind {
        ResponseKind::Ack
    }

    fn get_command_string(&self) -> (out: String) {
        proof {
            self.lemma_frame_length();
        }
        String::from_str("O,TDS,1")
    }

    fn get_delay(&self) -> (ms: u64) {
        300
    }

    fn get_response_kind(&self) -> (kind: ResponseKind) {
        ResponseKind::Ack
    }
}

impl ReadCommand for OutputEnableTds {
    open spec fn read(text: Seq<char>) -> Option<Self> {
        if text == "O,TDS,1"@ {
            Some(OutputEnableTds)
        } else {
            None
        }
    }

    fn parse(text: &str) -> (result: Result<Self, ErrorKind>) {
        if is_keyword(text, "O,TDS,1") {
            Ok(OutputEnableTds)
        } else {
            Err(ErrorKind::CommandParse)
        }
    }

    proof fn lemma_reads_back(&self) {
        reveal_strlit("O,TDS,1");
        assert(upper("O,TDS,1"@) =~= "O,TDS,1"@);
    }
}

impl std::str::FromStr for OutputEnableTds {
    type Err = ErrorKind;

    /// Reads the command back from its text, as `parse` does, in whatever case its ASCII
    /// letters are.
    fn from_str(text: &str) -> (result: Result<Self, ErrorKind>)
        ensures
            result == match Self::read(upper(text@)) {
                Some(command) => Ok::<Self, ErrorKind>(command),
                None => Err::<Self, ErrorKind>(ErrorKind::CommandParse),
            },
    {
        <Self as ReadCommand>::parse(text)
    }
}

/// `O,S,0` command. Takes salinity out of the output string.
#[derive(Debug, Copy, Clone, PartialEq, Eq, Structural)]
pub struct OutputDisableSalinity;

impl Command for OutputDisableSalinity {
    open spec fn command_text(&self) -> Seq<char> {
        "O,S,0"@
    }

    open spec fn well_formed(&self) -> bool {
        true
    }

    proof fn lemma_frame_length(&self) {
        reveal_strlit("O,S,0");
        lemma_encoded_length("O,S,0"@, 0);
    }

    open spec fn delay_ms(&self) -> u64 {
        300
    }

    open spec fn response_kind(&self) -> ResponseKind {
        ResponseKind::Ack
    }

    fn get_command_string(&self) -> (out: String) {
        proof {
            self.lemma_frame_length();
        }
        String::from_str("O,S,0")
    }

    fn get_delay(&self) -> (ms: u64) {
        300
    }

    fn get_response_kind(&self) -> (kind: ResponseKind) {
        ResponseKind::Ack
    }
}

impl ReadCommand for OutputDisableSalinity {
    open spec fn read(text: Seq<char>) -> Option<Self> {
        if text == "O,S,0"@ {
            Some(OutputDisableSalinity)
        } else {
            None
        }
    }

    fn parse(text: &str) -> (result: Result<Self, ErrorKind>) {
        if is_keyword(text, "O,S,0") {
            Ok(OutputDisableSalinity)
        } else {
            Err(ErrorKind::CommandParse)
        }
    }

    proof fn lemma_reads_back(&self) {
        reveal_strlit("O,S,0");
        assert(upper("O,S,0"@) =~= "O,S,0"@);
    }
}

impl std::str::FromStr for OutputDisableSalinity {
    type Err = ErrorKind;

    /// Reads the command back from its text, as `parse` does, in whatever case its ASCII
    /// letters are.
    fn from_str(text: &str) -> (result: Result<Self, ErrorKind>)
        ensures
            result == match Self::read(upper(text@)) {
                Some(command) => Ok::<Self, ErrorKind>(command),
                None => Err::<Self, ErrorKind>(ErrorKind::CommandParse),
            },
    {
        <Self as ReadCommand>::parse(text)
    }
}

/// `O,S,1` command. Puts salinity into the output string.
#[derive(Debug, Copy, Clone, PartialEq, Eq, Structural)]
pub struct OutputEnableSalinity;

impl Command for OutputEnableSalinity {
    open spec fn command_text(&self) -> Seq<char> {
        "O,S,1"@
    }

    open spec fn well_formed(&self) -> bool {
        true
    }

    proof fn lemma_frame_length(&self) {
        reveal_strlit("O,S,1");
        lemma_encoded_length("O,S,1"@, 0);
    }

    open spec fn delay_ms(&self) -> u64 {
        300
    }

    open spec fn response_kind(&self) -> ResponseKind {
        ResponseKind::Ack
    }

    fn get_command_string(&self) -> (out: String) {
        proof {
            self.lemma_frame_length();
        }
        String::from_str("O,S,1")
    }

    fn get_delay(&self) -> (ms: u64) {
        300
    }

    fn get_response_kind(&self) -> (kind: ResponseKind) {
        ResponseKind::Ack
    }
}

impl ReadCommand for OutputEnableSalinity {
    open spec fn read(text: Seq<char>) -> Option<Self> {
        if text == "O,S,1"@ {
            Some(OutputEnableSalinity)
        } else {
            None
        }
    }

    fn parse(text: &str) -> (result: Result<Self, ErrorKind>) {
        if is_keyword(text, "O,S,1") {
            Ok(OutputEnableSalinity)
        } else {
            Err(ErrorKind::CommandParse)
        }
    }

    proof fn lemma_reads_back(&self) {
        reveal_strlit("O,S,1");
        assert(upper("O,S,1"@) =~= "O,S,1"@);
    }
}

impl std::str::FromStr for OutputEnableSalinity {
    type Err = ErrorKind;

    /// Reads the command back from its text, as `parse` does, in whatever case its ASCII
    /// letters are.
    fn from_str(text: &str) -> (result: Result<Self, ErrorKind>)
        ensures
            result == match Self::read(upper(text@)) {
                Some(command) => Ok::<Self, ErrorKind>(command),
                None => Err::<Self, ErrorKind>(ErrorKind::CommandParse),
            },
    {
        <Self as ReadCommand>::parse(text)
    }
}

/// `O,SG,0` command. Takes specific gravity out of the output string.
#[derive(Debug, Copy, Clone, PartialEq, Eq, Structural)]
pub struct OutputDisableSpecificGravity;

impl Command for OutputDisableSpecificGravity {
    open spec fn command_text(&self) -> Seq<char> {
        "O,SG,0"@
    }

    open spec fn well_formed(&self) -> bool {
        true
    }

    proof fn lemma_frame_length(&self) {
        reveal_strlit("O,SG,0");
        lemma_encoded_length("O,SG,0"@, 0);
    }

    open spec fn delay_ms(&self) -> u64 {
        300
    }

    open spec fn response_kind(&self) -> ResponseKind {
        ResponseKind::Ack
    }

    fn get_command_string(&self) -> (out: String) {
        proof {
            self.lemma_frame_length();
        }
        String::from_str("O,SG,0")
    }

    fn get_delay(&self) -> (ms: u64) {
        300
    }

    fn get_response_kind(&self) -> (kind: ResponseKind) {
        ResponseKind::Ack
    }
}

impl ReadCommand for OutputDisableSpecificGravity {
    open spec fn read(text: Seq<char>) -> Option<Self> {
        if text == "O,SG,0"@ {
            Some(OutputDisableSpecificGravity)
        } else {
            None
        }
    }

    fn parse(text: &str) -> (result: Result<Self, ErrorKind>) {
        if is_keyword(text, "O,SG,0") {
            Ok(OutputDisableSpecificGravity)
        } else {
            Err(ErrorKind::CommandParse)
        }
    }

    proof fn lemma_reads_back(&self) {
        reveal_strlit("O,SG,0");
        assert(upper("O,SG,0"@) =~= "O,SG,0"@);
    }
}

impl std::str::FromStr for OutputDisableSpecificGravity {
    type Err = ErrorKind;

    /// Reads the command back from its text, as `parse` does, in whatever case its ASCII
    /// letters are.
    fn from_str(text: &str) -> (result: Result<Self, ErrorKind>)
        ensures
            result == match Self::read(upper(text@)) {
                Some(command) => Ok::<Self, ErrorKind>(command),
                None => Err::<Self, ErrorKind>(ErrorKind::CommandParse),
            },
    {
        <Self as ReadCommand>::parse(text)
    }
}

/// `O,SG,1` command. Puts specific gravity into the output string.
#[derive(Debug, Copy, Clone, PartialEq, Eq, Structural)]
pub struct OutputEnableSpecificGravity;

impl Command for OutputEnableSpecificGravity {
    open spec fn command_text(&self) -> Seq<char> {
        "O,SG,1"@
    }

    open spec fn well_formed(&self) -> bool {
        true
    }

    proof fn lemma_frame_length(&self) {
        reveal_strlit("O,SG,1");
        lemma_encoded_length("O,SG,1"@, 0);
    }

    open spec fn delay_ms(&self) -> u64 {
        300
    }

    open spec fn response_kind(&self) -> ResponseKind {
        ResponseKind::Ack
    }

    fn get_command_string(&self) -> (out: String) {
        proof {
            self.lemma_frame_length();
        }
        String::from_str("O,SG,1")
    }

    fn get_delay(&self) -> (ms: u64) {
        300
    }

    fn get_response_kind(&self) -> (kind: ResponseKind) {
        ResponseKind::Ack
    }
}

impl ReadCommand for OutputEnableSpecificGravity {
    open spec fn read(text: Seq<char>) -> Option<Self> {
        if text == "O,SG,1"@ {
            Some(OutputEnableSpecificGravity)
        } else {
            None
        }
    }

    fn parse(text: &str) -> (result: Result<Self, ErrorKind>) {
        if is_keyword(text, "O,SG,1") {
            Ok(OutputEnableSpecificGravity)
        } else {
            Err(ErrorKind::CommandParse)
        }
    }

    proof fn lemma_reads_back(&self) {
        reveal_strlit("O,SG,1");
        assert(upper("O,SG,1"@) =~= "O,SG,1"@);
    }
}

impl std::str::FromStr for OutputEnableSpecificGravity {
    type Err = ErrorKind;

    /// Reads the command back from its text, as `parse` does, in whatever case its ASCII
    /// letters are.
    fn from_str(text: &str) -> (result: Result<Self, ErrorKind>)
        ensures
            result == match Self::read(upper(text@)) {
                Some(command) => Ok::<Self, ErrorKind>(command),
                None => Err::<Self, ErrorKind>(ErrorKind::CommandParse),
            },
    {
        <Self as ReadCommand>::parse(text)
    }
}

/// `O,?` command. Asks which parameters are in the output string; answered with an
/// `OutputStringStatus`.
#[derive(Debug, Copy, Clone, PartialEq, Eq, Structural)]
pub struct OutputState;

impl Command for OutputState {
    open spec fn command_text(&self) -> Seq<char> {
        "O,?"@
    }

    open spec fn well_formed(&self) -> bool {
        true
    }

    proof fn lemma_frame_length(&self) {
        reveal_strlit("O,?");
        lemma_encoded_length("O,?"@, 0);
    }

    open spec fn delay_ms(&self) -> u64 {
        300
    }

    open spec fn response_kind(&self) -> ResponseKind {
        ResponseKind::OutputStringStatus
    }

    fn get_command_string(&self) -> (out: String) {
        proof {
            self.lemma_frame_length();
        }
        String::from_str("O,?")
    }

    fn get_delay(&self) -> (ms: u64) {
        300
    }

    fn get_response_kind(&self) -> (kind: ResponseKind) {
        ResponseKind::OutputStringStatus
    }
}

impl ReadCommand for OutputState {
    open spec fn read(text: Seq<char>) -> Option<Self> {
        if text == "O,?"@ {
            Some(OutputState)
        } else {
            None
        }
    }

    fn parse(text: &str) -> (result: Result<Self, ErrorKind>) {
        if is_keyword(text, "O,?") {
            Ok(OutputState)
        } else {
            Err(ErrorKind::CommandParse)
        }
    }

    proof fn lemma_reads_back(&self) {
        reveal_strlit("O,?");
        assert(upper("O,?"@) =~= "O,?"@);
    }
}

impl std::str::FromStr for OutputState {
    type Err = ErrorKind;

    /// Reads the command back from its text, as `parse` does, in whatever case its ASCII
    /// letters are.
    fn from_str(text: &str) -> (result: Result<Self, ErrorKind>)
        ensures
            result == match Self::read(upper(text@)) {
                Some(command) => Ok::<Self, ErrorKind>(command),
                None => Err::<Self, ErrorKind>(ErrorKind::CommandParse),
            },
    {
        <Self as ReadCommand>::parse(text)
    }
}

/// `T,n` command. Sets the temperature that readings are compensated for. The field
/// counts thousandths: 19500 stands for 19.500. Read back from a text, the number may be any
/// numeric literal: it is rounded to thousandths, and refused if it is `inf` or `nan` or
/// beyond sixty-four bits of thousandths, which cannot be written with three decimals.
#[derive(Debug, Copy, Clone, PartialEq, Eq, Structural)]
pub struct TemperatureCompensation(pub i64);

impl Command for TemperatureCompensation {
    open spec fn command_text(&self) -> Seq<char> {
        quantity_text("T,"@, self.0, 3)
    }

    open spec fn well_formed(&self) -> bool {
        true
    }

    proof fn lemma_frame_length(&self) {
        reveal_strlit("T,");
        lemma_quantity_frame("T,"@, self.0, 3);
    }

    open spec fn delay_ms(&self) -> u64 {
        300
    }

    open spec fn response_kind(&self) -> ResponseKind {
        ResponseKind::Ack
    }

    fn get_command_string(&self) -> (out: String) {
        proof {
            self.lemma_frame_length();
        }
        quantity_string("T,", self.0, 3)
    }

    fn get_delay(&self) -> (ms: u64) {
        300
    }

    fn get_response_kind(&self) -> (kind: ResponseKind) {
        ResponseKind::Ack
    }
}

impl ReadCommand for TemperatureCompensation {
    open spec fn read(text: Seq<char>) -> Option<Self> {
        match quantity_after("T,"@, text, 3) {
            Some(value) => Some(TemperatureCompensation(value)),
            None => None,
        }
    }

    fn parse(text: &str) -> (result: Result<Self, ErrorKind>) {
        match parse_quantity("T,", text, 3) {
            Some(value) => Ok(TemperatureCompensation(value)),
            None => Err(ErrorKind::CommandParse),
        }
    }

    proof fn lemma_reads_back(&self) {
        reveal_strlit("T,");
        assert(upper("T,"@) =~= "T,"@);
        lemma_quantity_reads_back("T,"@, self.0, 3);
    }
}

impl std::str::FromStr for TemperatureCompensation {
    type Err = ErrorKind;

    /// Reads the command back from its text, as `parse` does, in whatever case its ASCII
    /// letters are.
    fn from_str(text: &str) -> (result: Result<Self, ErrorKind>)
        ensures
            result == match Self::read(upper(text@)) {
                Some(command) => Ok::<Self, ErrorKind>(command),
                None => Err::<Self, ErrorKind>(ErrorKind::CommandParse),
            },
    {
        <Self as ReadCommand>::parse(text)
    }
}

/// `T,?` command. Asks for the temperature that readings are compensated for; answered
/// with a `CompensationValue`.
#[derive(Debug, Copy, Clone, PartialEq, Eq, Structural)]
pub struct CompensatedTemperatureValue;

impl Command for CompensatedTemperatureValue {
    open spec fn command_text(&self) -> Seq<char> {
        "T,?"@
    }

    open spec fn well_formed(&self) -> bool {
        true
    }

    proof fn lemma_frame_length(&self) {
        reveal_strlit("T,?");
        lemma_encoded_length("T,?"@, 0);
    }

    open spec fn delay_ms(&self) -> u64 {
        300
    }

    open spec fn response_kind(&self) -> ResponseKind {
        ResponseKind::CompensationValue
    }

    fn get_command_string(&self) -> (out: String) {
        proof {
            self.lemma_frame_length();
        }
        String::from_str("T,?")
    }

    fn get_delay(&self) -> (ms: u64) {
        300
    }

    fn get_response_kind(&self) -> (kind: ResponseKind) {
        ResponseKind::CompensationValue
    }
}

impl ReadCommand for CompensatedTemperatureValue {
    open spec fn read(text: Seq<char>) -> Option<Self> {
        if text == "T,?"@ {
            Some(CompensatedTemperatureValue)
        } else {
            None
        }
    }

    fn parse(text: &str) -> (result: Result<Self, ErrorKind>) {
        if is_keyword(text, "T,?") {
            Ok(CompensatedTemperatureValue)
        } else {
            Err(ErrorKind::CommandParse)
        }
    }

    proof fn lemma_reads_back(&self) {
        reveal_strlit("T,?");
        assert(upper("T,?"@) =~= "T,?"@);
    }
}

impl std::str::FromStr for CompensatedTemperatureValue {
    type Err = ErrorKind;

    /// Reads the command back from its text, as `parse` does, in whatever case its ASCII
    /// letters are.
    fn from_str(text: &str) -> (result: Result<Self, ErrorKind>)
        ensures
            result == match Self::read(upper(text@)) {
                Some(command) => Ok::<Self, ErrorKind>(command),
                None => Err::<Self, ErrorKind>(ErrorKind::CommandParse),
            },
    {
        <Self as ReadCommand>::parse(text)
    }
}

/// `I` command. Asks what the device is; answered with a `DeviceInfo`.
#[derive(Debug, Copy, Clone, PartialEq, Eq, Structural)]
pub struct DeviceInformation;

impl Command for DeviceInformation {
    open spec fn command_text(&self) -> Seq<char> {
        "I"@
    }

    open spec fn well_formed(&self) -> bool {
        true
    }

    proof fn lemma_frame_length(&self) {
        reveal_strlit("I");
        lemma_encoded_length("I"@, 0);
    }

    open spec fn delay_ms(&self) -> u64 {
        300
    }

    open spec fn response_kind(&self) -> ResponseKind {
        ResponseKind::DeviceInfo
    }

    fn get_command_string(&self) -> (out: String) {
        proof {
            self.lemma_frame_length();
        }
        String::from_str("I")
    }

    fn get_delay(&self) -> (ms: u64) {
        300
    }

    fn get_response_kind(&self) -> (kind: ResponseKind) {
        ResponseKind::DeviceInfo
    }
}

impl ReadCommand for DeviceInformation {
    open spec fn read(text: Seq<char>) -> Option<Self> {
        if text == "I"@ {
            Some(DeviceInformation)
        } else {
            None
        }
    }

    fn parse(text: &str) -> (result: Result<Self, ErrorKind>) {
        if is_keyword(text, "I") {
            Ok(DeviceInformation)
        } else {
            Err(ErrorKind::CommandParse)
        }
    }

    proof fn lemma_reads_back(&self) {
        reveal_strlit("I");
        assert(upper("I"@) =~= "I"@);
    }
}

impl std::str::FromStr for DeviceInformation {
    type Err = ErrorKind;

    /// Reads the command back from its text, as `parse` does, in whatever case its ASCII
    /// letters are.
    fn from_str(text: &str) -> (result: Result<Self, ErrorKind>)
        ensures
            result == match Self::read(upper(text@)) {
                Some(command) => Ok::<Self, ErrorKind>(command),
                None => Err::<Self, ErrorKind>(ErrorKind::CommandParse),
            },
    {
        <Self as ReadCommand>::parse(text)
    }
}

/// `STATUS` command. Asks how the device is; answered with a `DeviceStatus`.
#[derive(Debug, Copy, Clone, PartialEq, Eq, Structural)]
pub struct Status;

impl Command for Status {
    open spec fn command_text(&self) -> Seq<char> {
        "STATUS"@
    }

    open spec fn well_formed(&self) -> bool {
        true
    }

    proof fn lemma_frame_length(&self) {
        reveal_strlit("STATUS");
        lemma_encoded_length("STATUS"@, 0);
    }

    open spec fn delay_ms(&self) -> u64 {
        300
    }

    open spec fn response_kind(&self) -> ResponseKind {
        ResponseKind::DeviceStatus
    }

    fn get_command_string(&self) -> (out: String) {
        proof {
            self.lemma_frame_length();
        }
        String::from_str("STATUS")
    }

    fn get_delay(&self) -> (ms: u64) {
        300
    }

    fn get_response_kind(&self) -> (kind: ResponseKind) {
        ResponseKind::DeviceStatus
    }
}

impl ReadCommand for Status {
    open spec fn read(text: Seq<char>) -> Option<Self> {
        if text == "STATUS"@ {
            Some(Status)
        } else {
            None
        }
    }

    fn parse(text: &str) -> (result: Result<Self, ErrorKind>) {
        if is_keyword(text, "STATUS") {
            Ok(Status)
        } else {
            Err(ErrorKind::CommandParse)
        }
    }

    proof fn lemma_reads_back(&self) {
        reveal_strlit("STATUS");
        assert(upper("STATUS"@) =~= "STATUS"@);
    }
}

impl std::str::FromStr for Status {
    type Err = ErrorKind;

    /// Reads the command back from its text, as `parse` does, in whatever case its ASCII
    /// letters are.
    fn from_str(text: &str) -> (result: Result<Self, ErrorKind>)
        ensures
            result == match Self::read(upper(text@)) {
                Some(command) => Ok::<Self, ErrorKind>(command),
                None => Err::<Self, ErrorKind>(ErrorKind::CommandParse),
            },
    {
        <Self as ReadCommand>::parse(text)
    }
}

/// `EXPORT` command. Asks for the next piece of the calibration; answered with an
/// `Exported`.
#[derive(Debug, Copy, Clone, PartialEq, Eq, Structural)]
pub struct Export;

impl Command for Export {
    open spec fn command_text(&self) -> Seq<char> {
        "EXPORT"@
    }

    open spec fn well_formed(&self) -> bool {
        true
    }

    proof fn lemma_frame_length(&self) {
        reveal_strlit("EXPORT");
        lemma_encoded_length("EXPORT"@, 0);
    }

    open spec fn delay_ms(&self) -> u64 {
        300
    }

    open spec fn response_kind(&self) -> ResponseKind {
        ResponseKind::Exported
    }

    fn get_command_string(&self) -> (out: String) {
        proof {
            self.lemma_frame_length();
        }
        String::from_str("EXPORT")
    }

    fn get_delay(&self) -> (ms: u64) {
        300
    }

    fn get_response_kind(&self) -> (kind: ResponseKind) {
        ResponseKind::Exported
    }
}

impl ReadCommand for Export {
    open spec fn read(text: Seq<char>) -> Option<Self> {
        if text == "EXPORT"@ {
            Some(Export)
        } else {
            None
        }
    }

    fn parse(text: &str) -> (result: Result<Self, ErrorKind>) {
        if is_keyword(text, "EXPORT") {
            Ok(Export)
        } else {
            Err(ErrorKind::CommandParse)
        }
    }

    proof fn lemma_reads_back(&self) {
        reveal_strlit("EXPORT");
        assert(upper("EXPORT"@) =~= "EXPORT"@);
    }
}

impl std::str::FromStr for Export {
    type Err = ErrorKind;

    /// Reads the command back from its text, as `parse` does, in whatever case its ASCII
    /// letters are.
    fn from_str(text: &str) -> (result: Result<Self, ErrorKind>)
        ensures
            result == match Self::read(upper(text@)) {
                Some(command) => Ok::<Self, ErrorKind>(command),
                None => Err::<Self, ErrorKind>(ErrorKind::CommandParse),
            },
    {
        <Self as ReadCommand>::parse(text)
    }
}

/// `EXPORT,?` command. Asks how much there is to export; answered with an `ExportedInfo`.
#[derive(Debug, Copy, Clone, PartialEq, Eq, Structural)]
pub struct ExportInfo;

impl Command for ExportInfo {
    open spec fn command_text(&self) -> Seq<char> {
        "EXPORT,?"@
    }

    open spec fn well_formed(&self) -> bool {
        true
    }

    proof fn lemma_frame_length(&self) {
        reveal_strlit("EXPORT,?");
        lemma_encoded_length("EXPORT,?"@, 0);
    }

    open spec fn delay_ms(&self) -> u64 {
        300
    }

    open spec fn response_kind(&self) -> ResponseKind {
        ResponseKind::ExportedInfo
    }

    fn get_command_string(&self) -> (out: String) {
        proof {
            self.lemma_frame_length();
        }
        String::from_str("EXPORT,?")
    }

    fn get_delay(&self) -> (ms: u64) {
        300
    }

    fn get_response_kind(&self) -> (kind: ResponseKind) {
        ResponseKind::ExportedInfo
    }
}

impl ReadCommand for ExportInfo {
    open spec fn read(text: Seq<char>) -> Option<Self> {
        if text == "EXPORT,?"@ {
            Some(ExportInfo)
        } else {
            None
        }
    }

    fn parse(text: &str) -> (result: Result<Self, ErrorKind>) {
        if is_keyword(text, "EXPORT,?") {
            Ok(ExportInfo)
        } else {
            Err(ErrorKind::CommandParse)
        }
    }

    proof fn lemma_reads_back(&self) {
        reveal_strlit("EXPORT,?");
        assert(upper("EXPORT,?"@) =~= "EXPORT,?"@);
    }
}

impl std::str::FromStr for ExportInfo {
    type Err = ErrorKind;

    /// Reads the command back from its text, as `parse` does, in whatever case its ASCII
    /// letters are.
    fn from_str(text: &str) -> (result: Result<Self, ErrorKind>)
        ensures
            result == match Self::read(upper(text@)) {
                Some(command) => Ok::<Self, ErrorKind>(command),
                None => Err::<Self, ErrorKind>(ErrorKind::CommandParse),
            },
    {
        <Self as ReadCommand>::parse(text)
    }
}

/// `FACTORY` command. Resets the device to its factory settings. The device restarts and
/// does not answer.
#[derive(Debug, Copy, Clone, PartialEq, Eq, Structural)]
pub struct Factory;

impl Command for Factory {
    open spec fn command_text(&self) -> Seq<char> {
        "FACTORY"@
    }

    open spec fn well_formed(&self) -> bool {
        true
    }

    proof fn lemma_frame_length(&self) {
        reveal_strlit("FACTORY");
        lemma_encoded_length("FACTORY"@, 0);
    }

    open spec fn delay_ms(&self) -> u64 {
        0
    }

    open spec fn response_kind(&self) -> ResponseKind {
        ResponseKind::Nothing
    }

    fn get_command_string(&self) -> (out: String) {
        proof {
            self.lemma_frame_length();
        }
        String::from_str("FACTORY")
    }

    fn get_delay(&self) -> (ms: u64) {
        0
    }

    fn get_response_kind(&self) -> (kind: ResponseKind) {
        ResponseKind::Nothing
    }
}

impl ReadCommand for Factory {
    open spec fn read(text: Seq<char>) -> Option<Self> {
        if text == "FACTORY"@ {
            Some(Factory)
        } else {
            None
        }
    }

    fn parse(text: &str) -> (result: Result<Self, ErrorKind>) {
        if is_keyword(text, "FACTORY") {
            Ok(Factory)
        } else {
            Err(ErrorKind::CommandParse)
        }
    }

    proof fn lemma_reads_back(&self) {
        reveal_strlit("FACTORY");
        assert(upper("FACTORY"@) =~= "FACTORY"@);
    }
}

impl std::str::FromStr for Factory {
    type Err = ErrorKind;

    /// Reads the command back from its text, as `parse` does, in whatever case its ASCII
    /// letters are.
    fn from_str(text: &str) -> (result: Result<Self, ErrorKind>)
        ensures
            result == match Self::read(upper(text@)) {
                Some(command) => Ok::<Self, ErrorKind>(command),
                None => Err::<Self, ErrorKind>(ErrorKind::CommandParse),
            },
    {
        <Self as ReadCommand>::parse(text)
    }
}

/// `F` command. Makes the LED of the device blink, so that it can be found.
#[derive(Debug, Copy, Clone, PartialEq, Eq, Structural)]
pub struct Find;

impl Command for Find {
    open spec fn command_text(&self) -> Seq<char> {
        "F"@
    }

    open spec fn well_formed(&self) -> bool {
        true
    }

    proof fn lemma_frame_length(&self) {
        reveal_strlit("F");
        lemma_encoded_length("F"@, 0);
    }

    open spec fn delay_ms(&self) -> u64 {
        300
    }

    open spec fn response_kind(&self) -> ResponseKind {
        ResponseKind::Ack
    }

    fn get_command_string(&self) -> (out: String) {
        proof {
            self.lemma_frame_length();
        }
        String::from_str("F")
    }

    fn get_delay(&self) -> (ms: u64) {
        300
    }

    fn get_response_kind(&self) -> (kind: ResponseKind) {
        ResponseKind::Ack
    }
}

impl ReadCommand for Find {
    open spec fn read(text: Seq<char>) -> Option<Self> {
        if text == "F"@ {
            Some(Find)
        } else {
            None
        }
    }

    fn parse(text: &str) -> (result: Result<Self, ErrorKind>) {
        if is_keyword(text, "F") {
            Ok(Find)
        } else {
            Err(ErrorKind::CommandParse)
        }
    }

    proof fn lemma_reads_back(&self) {
        reveal_strlit("F");
        assert(upper("F"@) =~= "F"@);
    }
}

impl std::str::FromStr for Find {
    type Err = ErrorKind;

    /// Reads the command back from its text, as `parse` does, in whatever case its ASCII
    /// letters are.
    fn from_str(text: &str) -> (result: Result<Self, ErrorKind>)
        ensures
            result == match Self::read(upper(text@)) {
                Some(command) => Ok::<Self, ErrorKind>(command),
                None => Err::<Self, ErrorKind>(ErrorKind::CommandParse),
            },
    {
        <Self as ReadCommand>::parse(text)
    }
}

/// `L,0` command. Turns the LED off.
#[derive(Debug, Copy, Clone, PartialEq, Eq, Structural)]
pub struct LedOff;

impl Command for LedOff {
    open spec fn command_text(&self) -> Seq<char> {
        "L,0"@
    }

    open spec fn well_formed(&self) -> bool {
        true
    }

    proof fn lemma_frame_length(&self) {
        reveal_strlit("L,0");
        lemma_encoded_length("L,0"@, 0);
    }

    open spec fn delay_ms(&self) -> u64 {
        300
    }

    open spec fn response_kind(&self) -> ResponseKind {
        ResponseKind::Ack
    }

    fn get_command_string(&self) -> (out: String) {
        proof {
            self.lemma_frame_length();
        }
        String::from_str("L,0")
    }

    fn get_delay(&self) -> (ms: u64) {
        300
    }

    fn get_response_kind(&self) -> (kind: ResponseKind) {
        ResponseKind::Ack
    }
}

impl ReadCommand for LedOff {
    open spec fn read(text: Seq<char>) -> Option<Self> {
        if text == "L,0"@ {
            Some(LedOff)
        } else {
            None
        }
    }

    fn parse(text: &str) -> (result: Result<Self, ErrorKind>) {
        if is_keyword(text, "L,0") {
            Ok(LedOff)
        } else {
            Err(ErrorKind::CommandParse)
        }
    }

    proof fn lemma_reads_back(&self) {
        reveal_strlit("L,0");
        assert(upper("L,0"@) =~= "L,0"@);
    }
}

impl std::str::FromStr for LedOff {
    type Err = ErrorKind;

    /// Reads the command back from its text, as `parse` does, in whatever case its ASCII
    /// letters are.
    fn from_str(text: &str) -> (result: Result<Self, ErrorKind>)
        ensures
            result == match Self::read(upper(text@)) {
                Some(command) => Ok::<Self, ErrorKind>(command),
                None => Err::<Self, ErrorKind>(ErrorKind::CommandParse),
            },
    {
        <Self as ReadCommand>::parse(text)
    }
}

/// `L,1` command. Turns the LED on.
#[derive(Debug, Copy, Clone, PartialEq, Eq, Structural)]
pub struct LedOn;

impl Command for LedOn {
    open spec fn command_text(&self) -> Seq<char> {
        "L,1"@
    }

    open spec fn well_formed(&self) -> bool {
        true
    }

    proof fn lemma_frame_length(&self) {
        reveal_strlit("L,1");
        lemma_encoded_length("L,1"@, 0);
    }

    open spec fn delay_ms(&self) -> u64 {
        300
    }

    open spec fn response_kind(&self) -> ResponseKind {
        ResponseKind::Ack
    }

    fn get_command_string(&self) -> (out: String) {
        proof {
            self.lemma_frame_length();
        }
        String::from_str("L,1")
    }

    fn get_delay(&self) -> (ms: u64) {
        300
    }

    fn get_response_kind(&self) -> (kind: ResponseKind) {
        ResponseKind::Ack
    }
}

impl ReadCommand for LedOn {
    open spec fn read(text: Seq<char>) -> Option<Self> {
        if text == "L,1"@ {
            Some(LedOn)
        } else {
            None
        }
    }

    fn parse(text: &str) -> (result: Result<Self, ErrorKind>) {
        if is_keyword(text, "L,1") {
            Ok(LedOn)
        } else {
            Err(ErrorKind::CommandParse)
        }
    }

    proof fn lemma_reads_back(&self) {
        reveal_strlit("L,1");
        assert(upper("L,1"@) =~= "L,1"@);
    }
}

impl std::str::FromStr for LedOn {
    type Err = ErrorKind;

    /// Reads the command back from its text, as `parse` does, in whatever case its ASCII
    /// letters are.
    fn from_str(text: &str) -> (result: Result<Self, ErrorKind>)
        ensures
            result == match Self::read(upper(text@)) {
                Some(command) => Ok::<Self, ErrorKind>(command),
                None => Err::<Self, ErrorKind>(ErrorKind::CommandParse),
            },
    {
        <Self as ReadCommand>::parse(text)
    }
}

/// `L,?` command. Asks whether the LED is on; answered with a `LedStatus`.
#[derive(Debug, Copy, Clone, PartialEq, Eq, Structural)]
pub struct LedState;

impl Command for LedState {
    open spec fn command_text(&self) -> Seq<char> {
        "L,?"@
    }

    open spec fn well_formed(&self) -> bool {
        true
    }

    proof fn lemma_frame_length(&self) {
        reveal_strlit("L,?");
        lemma_encoded_length("L,?"@, 0);
    }

    open spec fn delay_ms(&self) -> u64 {
        300
    }

    open spec fn response_kind(&self) -> ResponseKind {
        ResponseKind::LedStatus
    }

    fn get_command_string(&self) -> (out: String) {
        proof {
            self.lemma_frame_length();
        }
        String::from_str("L,?")
    }

    fn get_delay(&self) -> (ms: u64) {
        300
    }

    fn get_response_kind(&self) -> (kind: ResponseKind) {
        ResponseKind::LedStatus
    }
}

impl ReadCommand for LedState {
    open spec fn read(text: Seq<char>) -> Option<Self> {
        if text == "L,?"@ {
            Some(LedState)
        } else {
            None
        }
    }

    fn parse(text: &str) -> (result: Result<Self, ErrorKind>) {
        if is_keyword(text, "L,?") {
            Ok(LedState)
        } else {
            Err(ErrorKind::CommandParse)
        }
    }

    proof fn lemma_reads_back(&self) {
        reveal_strlit("L,?");
        assert(upper("L,?"@) =~= "L,?"@);
    }
}

impl std::str::FromStr for LedState {
    type Err = ErrorKind;

    /// Reads the command back from its text, as `parse` does, in whatever case its ASCII
    /// letters are.
    fn from_str(text: &str) -> (result: Result<Self, ErrorKind>)
        ensures
            result == match Self::read(upper(text@)) {
                Some(command) => Ok::<Self, ErrorKind>(command),
                None => Err::<Self, ErrorKind>(ErrorKind::CommandParse),
            },
    {
        <Self as ReadCommand>::parse(text)
    }
}

/// `PLOCK,0` command. Lets the device change its protocol again.
#[derive(Debug, Copy, Clone, PartialEq, Eq, Structural)]
pub struct ProtocolLockDisable;

impl Command for ProtocolLockDisable {
    open spec fn command_text(&self) -> Seq<char> {
        "PLOCK,0"@
    }

    open spec fn well_formed(&self) -> bool {
        true
    }

    proof fn lemma_frame_length(&self) {
        reveal_strlit("PLOCK,0");
        lemma_encoded_length("PLOCK,0"@, 0);
    }

    open spec fn delay_ms(&self) -> u64 {
        300
    }

    open spec fn response_kind(&self) -> ResponseKind {
        ResponseKind::Ack
    }

    fn get_command_string(&self) -> (out: String) {
        proof {
            self.lemma_frame_length();
        }
        String::from_str("PLOCK,0")
    }

    fn get_delay(&self) -> (ms: u64) {
        300
    }

    fn get_response_kind(&self) -> (kind: ResponseKind) {
        ResponseKind::Ack
    }
}

impl ReadCommand for ProtocolLockDisable {
    open spec fn read(text: Seq<char>) -> Option<Self> {
        if text == "PLOCK,0"@ {
            Some(ProtocolLockDisable)
        } else {
            None
        }
    }

    fn parse(text: &str) -> (result: Result<Self, ErrorKind>) {
        if is_keyword(text, "PLOCK,0") {
            Ok(ProtocolLockDisable)
        } else {
            Err(ErrorKind::CommandParse)
        }
    }

    proof fn lemma_reads_back(&self) {
        reveal_strlit("PLOCK,0");
        assert(upper("PLOCK,0"@) =~= "PLOCK,0"@);
    }
}

impl std::str::FromStr for ProtocolLockDisable {
    type Err = ErrorKind;

    /// Reads the command back from its text, as `parse` does, in whatever case its ASCII
    /// letters are.
    fn from_str(text: &str) -> (result: Result<Self, ErrorKind>)
        ensures
            result == match Self::read(upper(text@)) {
                Some(command) => Ok::<Self, ErrorKind>(command),
                None => Err::<Self, ErrorKind>(ErrorKind::CommandParse),
            },
    {
        <Self as ReadCommand>::parse(text)
    }
}

/// `PLOCK,1` command. Locks the device to the I2C protocol.
#[derive(Debug, Copy, Clone, PartialEq, Eq, Structural)]
pub struct ProtocolLockEnable;

impl Command for ProtocolLockEnable {
    open spec fn command_text(&self) -> Seq<char> {
        "PLOCK,1"@
    }

    open spec fn well_formed(&self) -> bool {
        true
    }

    proof fn lemma_frame_length(&self) {
        reveal_strlit("PLOCK,1");
        lemma_encoded_length("PLOCK,1"@, 0);
    }

    open spec fn delay_ms(&self) -> u64 {
        300
    }

    open spec fn response_kind(&self) -> ResponseKind {
        ResponseKind::Ack
    }

    fn get_command_string(&self) -> (out: String) {
        proof {
            self.lemma_frame_length();
        }
        String::from_str("PLOCK,1")
    }

    fn get_delay(&self) -> (ms: u64) {
        300
    }

    fn get_response_kind(&self) -> (kind: ResponseKind) {
        ResponseKind::Ack
    }
}

impl ReadCommand for ProtocolLockEnable {
    open spec fn read(text: Seq<char>) -> Option<Self> {
        if text == "PLOCK,1"@ {
            Some(ProtocolLockEnable)
        } else {
            None
        }
    }

    fn parse(text: &str) -> (result: Result<Self, ErrorKind>) {
        if is_keyword(text, "PLOCK,1") {
            Ok(ProtocolLockEnable)
        } else {
            Err(ErrorKind::CommandParse)
        }
    }

    proof fn lemma_reads_back(&self) {
        reveal_strlit("PLOCK,1");
        assert(upper("PLOCK,1"@) =~= "PLOCK,1"@);
    }
}

impl std::str::FromStr for ProtocolLockEnable {
    type Err = ErrorKind;

    /// Reads the command back from its text, as `parse` does, in whatever case its ASCII
    /// letters are.
    fn from_str(text: &str) -> (result: Result<Self, ErrorKind>)
        ensures
            result == match Self::read(upper(text@)) {
                Some(command) => Ok::<Self, ErrorKind>(command),
                None => Err::<Self, ErrorKind>(ErrorKind::CommandParse),
            },
    {
        <Self as ReadCommand>::parse(text)
    }
}

/// `PLOCK,?` command. Asks whether the protocol is locked; answered with a
/// `ProtocolLockStatus`.
#[derive(Debug, Copy, Clone, PartialEq, Eq, Structural)]
pub struct ProtocolLockState;

impl Command for ProtocolLockState {
    open spec fn command_text(&self) -> Seq<char> {
        "PLOCK,?"@
    }

    open spec fn well_formed(&self) -> bool {
        true
    }

    proof fn lemma_frame_length(&self) {
        reveal_strlit("PLOCK,?");
        lemma_encoded_length("PLOCK,?"@, 0);
    }

    open spec fn delay_ms(&self) -> u64 {
        300
    }

    open spec fn response_kind(&self) -> ResponseKind {
        ResponseKind::ProtocolLockStatus
    }

    fn get_command_string(&self) -> (out: String) {
        proof {
            self.lemma_frame_length();
        }
        String::from_str("PLOCK,?")
    }

    fn get_delay(&self) -> (ms: u64) {
        300
    }

    fn get_response_kind(&self) -> (kind: ResponseKind) {
        ResponseKind::ProtocolLockStatus
    }
}

impl ReadCommand for ProtocolLockState {
    open spec fn read(text: Seq<char>) -> Option<Self> {
        if text == "PLOCK,?"@ {
            Some(ProtocolLockState)
        } else {
            None
        }
    }

    fn parse(text: &str) -> (result: Result<Self, ErrorKind>) {
        if is_keyword(text, "PLOCK,?") {
            Ok(ProtocolLockState)
        } else {
            Err(ErrorKind::CommandParse)
        }
    }

    proof fn lemma_reads_back(&self) {
        reveal_strlit("PLOCK,?");
        assert(upper("PLOCK,?"@) =~= "PLOCK,?"@);
    }
}

impl std::str::FromStr for ProtocolLockState {
    type Err = ErrorKind;

    /// Reads the command back from its text, as `parse` does, in whatever case its ASCII
    /// letters are.
    fn from_str(text: &str) -> (result: Result<Self, ErrorKind>)
        ensures
            result == match Self::read(upper(text@)) {
                Some(command) => Ok::<Self, ErrorKind>(command),
                None => Err::<Self, ErrorKind>(ErrorKind::CommandParse),
            },
    {
        <Self as ReadCommand>::parse(text)
    }
}

/// `SLEEP` command. Puts the device to sleep. The device does not answer.
#[derive(Debug, Copy, Clone, PartialEq, Eq, Structural)]
pub struct Sleep;

impl Command for Sleep {
    open spec fn command_text(&self) -> Seq<char> {
        "SLEEP"@
    }

    open spec fn well_formed(&self) -> bool {
        true
    }

    proof fn lemma_frame_length(&self) {
        reveal_strlit("SLEEP");
        lemma_encoded_length("SLEEP"@, 0);
    }

    open spec fn delay_ms(&self) -> u64 {
        0
    }

    open spec fn response_kind(&self) -> ResponseKind {
        ResponseKind::Nothing
    }

    fn get_command_string(&self) -> (out: String) {
        proof {
            self.lemma_frame_length();
        }
        String::from_str("SLEEP")
    }

    fn get_delay(&self) -> (ms: u64) {
        0
    }

    fn get_response_kind(&self) -> (kind: ResponseKind) {
        ResponseKind::Nothing
    }
}

impl ReadCommand for Sleep {
    open spec fn read(text: Seq<char>) -> Option<Self> {
        if text == "SLEEP"@ {
            Some(Sleep)
        } else {
            None
        }
    }

    fn parse(text: &str) -> (result: Result<Self, ErrorKind>) {
        if is_keyword(text, "SLEEP") {
            Ok(Sleep)
        } else {
            Err(ErrorKind::CommandParse)
        }
    }

    proof fn lemma_reads_back(&self) {
        reveal_strlit("SLEEP");
        assert(upper("SLEEP"@) =~= "SLEEP"@);
    }
}

impl std::str::FromStr for Sleep {
    type Err = ErrorKind;

    /// Reads the command back from its text, as `parse` does, in whatever case its ASCII
    /// letters are.
    fn from_str(text: &str) -> (result: Result<Self, ErrorKind>)
        ensures
            result == match Self::read(upper(text@)) {
                Some(command) => Ok::<Self, ErrorKind>(command),
                None => Err::<Self, ErrorKind>(ErrorKind::CommandParse),
            },
    {
        <Self as ReadCommand>::parse(text)
    }
}

/// The speeds at which the device talks in UART mode, in bits per second.
#[derive(Debug, Copy, Clone, PartialEq, Eq, Structural)]
pub enum BpsRate {
    Bps300,
    Bps1200,
    Bps2400,
    Bps9600,
    Bps19200,
    Bps38400,
    Bps57600,
    Bps115200,
}

impl BpsRate {
    /// The speed in bits per second.
    pub open spec fn bps(self) -> u32 {
        match self {
            BpsRate::Bps300 => 300,
            BpsRate::Bps1200 => 1200,
            BpsRate::Bps2400 => 2400,
            BpsRate::Bps9600 => 9600,
            BpsRate::Bps19200 => 19200,
            BpsRate::Bps38400 => 38400,
            BpsRate::Bps57600 => 57600,
            BpsRate::Bps115200 => 115200,
        }
    }

    /// The speed in bits per second.
    pub fn parse(&self) -> (bps: u32)
        ensures
            bps == self.bps(),
    {
        match self {
            BpsRate::Bps300 => 300,
            BpsRate::Bps1200 => 1200,
            BpsRate::Bps2400 => 2400,
            BpsRate::Bps9600 => 9600,
            BpsRate::Bps19200 => 19200,
            BpsRate::Bps38400 => 38400,
            BpsRate::Bps57600 => 57600,
            BpsRate::Bps115200 => 115200,
        }
    }
}

/// `BAUD,n` command. Switches the device to UART mode at the given speed. The device
/// leaves the bus and does not answer.
#[derive(Debug, Copy, Clone, PartialEq, Eq, Structural)]
pub struct Baud(pub BpsRate);

impl Command for Baud {
    open spec fn command_text(&self) -> Seq<char> {
        match self.0 {
            BpsRate::Bps300 => "BAUD,300"@,
            BpsRate::Bps1200 => "BAUD,1200"@,
            BpsRate::Bps2400 => "BAUD,2400"@,
            BpsRate::Bps9600 => "BAUD,9600"@,
            BpsRate::Bps19200 => "BAUD,19200"@,
            BpsRate::Bps38400 => "BAUD,38400"@,
            BpsRate::Bps57600 => "BAUD,57600"@,
            BpsRate::Bps115200 => "BAUD,115200"@,
        }
    }

    open spec fn well_formed(&self) -> bool {
        true
    }

    proof fn lemma_frame_length(&self) {
        reveal_strlit("BAUD,300");
        reveal_strlit("BAUD,1200");
        reveal_strlit("BAUD,2400");
        reveal_strlit("BAUD,9600");
        reveal_strlit("BAUD,19200");
        reveal_strlit("BAUD,38400");
        reveal_strlit("BAUD,57600");
        reveal_strlit("BAUD,115200");
        lemma_encoded_length(self.command_text(), 0);
    }

    open spec fn delay_ms(&self) -> u64 {
        0
    }

    open spec fn response_kind(&self) -> ResponseKind {
        ResponseKind::Nothing
    }

    fn get_command_string(&self) -> (out: String) {
        proof {
            self.lemma_frame_length();
        }
        match self.0 {
            BpsRate::Bps300 => String::from_str("BAUD,300"),
            BpsRate::Bps1200 => String::from_str("BAUD,1200"),
            BpsRate::Bps2400 => String::from_str("BAUD,2400"),
            BpsRate::Bps9600 => String::from_str("BAUD,9600"),
            BpsRate::Bps19200 => String::from_str("BAUD,19200"),
            BpsRate::Bps38400 => String::from_str("BAUD,38400"),
            BpsRate::Bps57600 => String::from_str("BAUD,57600"),
            BpsRate::Bps115200 => String::from_str("BAUD,115200"),
        }
    }

    fn get_delay(&self) -> (ms: u64) {
        0
    }

    fn get_response_kind(&self) -> (kind: ResponseKind) {
        ResponseKind::Nothing
    }
}

impl ReadCommand for Baud {
    open spec fn read(text: Seq<char>) -> Option<Self> {
        if text == "BAUD,300"@ {
            Some(Baud(BpsRate::Bps300))
        } else if text == "BAUD,1200"@ {
            Some(Baud(BpsRate::Bps1200))
        } else if text == "BAUD,2400"@ {
            Some(Baud(BpsRate::Bps2400))
        } else if text == "BAUD,9600"@ {
            Some(Baud(BpsRate::Bps9600))
        } else if text == "BAUD,19200"@ {
            Some(Baud(BpsRate::Bps19200))
        } else if text == "BAUD,38400"@ {
            Some(Baud(BpsRate::Bps38400))
        } else if text == "BAUD,57600"@ {
            Some(Baud(BpsRate::Bps57600))
        } else if text == "BAUD,115200"@ {
            Some(Baud(BpsRate::Bps115200))
        } else {
            None
        }
    }

    fn parse(text: &str) -> (result: Result<Self, ErrorKind>) {
        let chars = upper_chars_of(text);
        if equals(chars.as_slice(), "BAUD,300") {
            Ok(Baud(BpsRate::Bps300))
        } else if equals(chars.as_slice(), "BAUD,1200") {
            Ok(Baud(BpsRate::Bps1200))
        } else if equals(chars.as_slice(), "BAUD,2400") {
            Ok(Baud(BpsRate::Bps2400))
        } else if equals(chars.as_slice(), "BAUD,9600") {
            Ok(Baud(BpsRate::Bps9600))
        } else if equals(chars.as_slice(), "BAUD,19200") {
            Ok(Baud(BpsRate::Bps19200))
        } else if equals(chars.as_slice(), "BAUD,38400") {
            Ok(Baud(BpsRate::Bps38400))
        } else if equals(chars.as_slice(), "BAUD,57600") {
            Ok(Baud(BpsRate::Bps57600))
        } else if equals(chars.as_slice(), "BAUD,115200") {
            Ok(Baud(BpsRate::Bps115200))
        } else {
            Err(ErrorKind::CommandParse)
        }
    }

    proof fn lemma_reads_back(&self) {
        reveal_strlit("BAUD,300");
        reveal_strlit("BAUD,1200");
        reveal_strlit("BAUD,2400");
        reveal_strlit("BAUD,9600");
        reveal_strlit("BAUD,19200");
        reveal_strlit("BAUD,38400");
        reveal_strlit("BAUD,57600");
        reveal_strlit("BAUD,115200");
        assert(upper("BAUD,300"@) =~= "BAUD,300"@);
        assert(upper("BAUD,1200"@) =~= "BAUD,1200"@);
        assert(upper("BAUD,2400"@) =~= "BAUD,2400"@);
        assert(upper("BAUD,9600"@) =~= "BAUD,9600"@);
        assert(upper("BAUD,19200"@) =~= "BAUD,19200"@);
        assert(upper("BAUD,38400"@) =~= "BAUD,38400"@);
        assert(upper("BAUD,57600"@) =~= "BAUD,57600"@);
        assert(upper("BAUD,115200"@) =~= "BAUD,115200"@);
        assert("BAUD,300"@[5] == '3');
        assert("BAUD,1200"@[5] == '1' && "BAUD,1200"@[6] == '2');
        assert("BAUD,2400"@[5] == '2');
        assert("BAUD,9600"@[5] == '9');
        assert("BAUD,19200"@[5] == '1' && "BAUD,19200"@[6] == '9');
        assert("BAUD,38400"@[5] == '3');
        assert("BAUD,57600"@[5] == '5');
        assert("BAUD,115200"@[5] == '1' && "BAUD,115200"@[6] == '1');
    }
}

impl std::str::FromStr for Baud {
    type Err = ErrorKind;

    /// Reads the command back from its text, as `parse` does, in whatever case its ASCII
    /// letters are.
    fn from_str(text: &str) -> (result: Result<Self, ErrorKind>)
        ensures
            result == match Self::read(upper(text@)) {
                Some(command) => Ok::<Self, ErrorKind>(command),
                None => Err::<Self, ErrorKind>(ErrorKind::CommandParse),
            },
    {
        <Self as ReadCommand>::parse(text)
    }
}

/// `I2C,n` command. Gives the device the address `n` on the bus. The device restarts and
/// does not answer.
#[derive(Debug, Copy, Clone, PartialEq, Eq, Structural)]
pub struct DeviceAddress(pub u16);

impl Command for DeviceAddress {
    open spec fn command_text(&self) -> Seq<char> {
        "I2C,"@ + digits_of(self.0 as nat)
    }

    open spec fn well_formed(&self) -> bool {
        true
    }

    proof fn lemma_frame_length(&self) {
        reveal_strlit("I2C,");
        assert(pow10(5) == 100000) by {
            reveal_with_fuel(pow10, 6);
        }
        lemma_digits_length(self.0 as nat, 5);
        lemma_encoded_length(self.command_text(), 0);
    }

    open spec fn delay_ms(&self) -> u64 {
        300
    }

    open spec fn response_kind(&self) -> ResponseKind {
        ResponseKind::Nothing
    }

    fn get_command_string(&self) -> (out: String) {
        proof {
            self.lemma_frame_length();
        }
        let mut out = String::from_str("I2C,");
        let number = natural_string(self.0 as u64);
        out.append(number.as_str());
        out
    }

    fn get_delay(&self) -> (ms: u64) {
        300
    }

    fn get_response_kind(&self) -> (kind: ResponseKind) {
        ResponseKind::Nothing
    }
}

impl ReadCommand for DeviceAddress {
    open spec fn read(text: Seq<char>) -> Option<Self> {
        if has_prefix(text, "I2C,"@) {
            match count_value(after(text, 4)) {
                Some(address) => Some(DeviceAddress(address)),
                None => None,
            }
        } else {
            None
        }
    }

    fn parse(text: &str) -> (result: Result<Self, ErrorKind>) {
        let chars = upper_chars_of(text);
        proof {
            reveal_strlit("I2C,");
        }
        if !starts_with(chars.as_slice(), "I2C,") {
            return Err(ErrorKind::CommandParse);
        }
        match parse_u16(slice_subrange(chars.as_slice(), 4, chars.len())) {
            Some(address) => Ok(DeviceAddress(address)),
            None => Err(ErrorKind::CommandParse),
        }
    }

    proof fn lemma_reads_back(&self) {
        reveal_strlit("I2C,");
        let number = digits_of(self.0 as nat);
        let text = self.command_text();
        lemma_natural_reads_back(self.0 as nat);
        assert forall|i: int| 0 <= i < text.len() implies upper(text)[i] == text[i] by {
            if i >= 4 {
                assert(is_digit(number[i - 4]));
            }
        }
        assert(upper(text) =~= text);
        assert(text.subrange(0, 4) =~= "I2C,"@);
        assert(after(text, 4) =~= number);
    }
}

impl std::str::FromStr for DeviceAddress {
    type Err = ErrorKind;

    /// Reads the command back from its text, as `parse` does, in whatever case its ASCII
    /// letters are.
    fn from_str(text: &str) -> (result: Result<Self, ErrorKind>)
        ensures
            result == match Self::read(upper(text@)) {
                Some(command) => Ok::<Self, ErrorKind>(command),
                None => Err::<Self, ErrorKind>(ErrorKind::CommandParse),
            },
    {
        <Self as ReadCommand>::parse(text)
    }
}

/// The one-character text of the upper-case form of a lower-case ASCII letter.
fn upper_letter_text(c: char) -> (text: &'static str)
    requires
        'a' <= c && c <= 'z',
    ensures
        text@ == seq![crate::text::upper_char(c)],
{
    proof {
        reveal_strlit("A");
        reveal_strlit("B");
        reveal_strlit("C");
        reveal_strlit("D");
        reveal_strlit("E");
        reveal_strlit("F");
        reveal_strlit("G");
        reveal_strlit("H");
        reveal_strlit("I");
        reveal_strlit("J");
        reveal_strlit("K");
        reveal_strlit("L");
        reveal_strlit("M");
        reveal_strlit("N");
        reveal_strlit("O");
        reveal_strlit("P");
        reveal_strlit("Q");
        reveal_strlit("R");
        reveal_strlit("S");
        reveal_strlit("T");
        reveal_strlit("U");
        reveal_strlit("V");
        reveal_strlit("W");
        reveal_strlit("X");
        reveal_strlit("Y");
        reveal_strlit("Z");
    }
    let text = if c == 'a' {
        "A"
    } else if c == 'b' {
        "B"
    } else if c == 'c' {
        "C"
    } else if c == 'd' {
        "D"
    } else if c == 'e' {
        "E"
    } else if c == 'f' {
        "F"
    } else if c == 'g' {
        "G"
    } else if c == 'h' {
        "H"
    } else if c == 'i' {
        "I"
    } else if c == 'j' {
        "J"
    } else if c == 'k' {
        "K"
    } else if c == 'l' {
        "L"
    } else if c == 'm' {
        "M"
    } else if c == 'n' {
        "N"
    } else if c == 'o' {
        "O"
    } else if c == 'p' {
        "P"
    } else if c == 'q' {
        "Q"
    } else if c == 'r' {
        "R"
    } else if c == 's' {
        "S"
    } else if c == 't' {
        "T"
    } else if c == 'u' {
        "U"
    } else if c == 'v' {
        "V"
    } else if c == 'w' {
        "W"
    } else if c == 'x' {
        "X"
    } else if c == 'y' {
        "Y"
    } else {
        "Z"
    };
    proof {
        assert(text@ =~= seq![crate::text::upper_char(c)]);
    }
    text
}

/// `IMPORT,n` command. Gives the device one piece of a calibration that was exported. A
/// piece has one to twelve characters.
#[derive(Debug, PartialEq, Eq)]
pub struct Import {
    piece: String,
}

impl View for Import {
    type V = Seq<char>;

    /// The piece of calibration.
    closed spec fn view(&self) -> Seq<char> {
        self.piece@
    }
}

impl Clone for Import {
    fn clone(&self) -> (copy: Import)
        ensures
            copy@ == self@,
    {
        proof {
            use_type_invariant(self);
        }
        Import { piece: self.piece.clone() }
    }
}

impl Import {
    #[verifier::type_invariant]
    spec fn well_formed(self) -> bool {
        1 <= self.piece@.len() <= 12
    }

    /// The piece that stands behind `IMPORT,` in `text`, where `text` is in upper case: what
    /// follows the key, if that has one to twelve characters.
    pub open spec fn read(text: Seq<char>) -> Option<Seq<char>> {
        if has_prefix(text, "IMPORT,"@) && 1 <= after(text, 7).len() <= 12 {
            Some(after(text, 7))
        } else {
            None
        }
    }

    /// The command that imports `piece`. A piece that is empty or has more than twelve
    /// characters is refused.
    pub fn new(piece: &str) -> (result: Result<Import, ErrorKind>)
        ensures
            match result {
                Ok(command) => command@ == piece@ && 1 <= piece@.len() <= 12,
                Err(kind) => kind == ErrorKind::CommandParse && !(1 <= piece@.len() <= 12),
            },
    {
        let length = piece.unicode_len();
        if 1 <= length && length <= 12 {
            Ok(Import { piece: String::from_str(piece) })
        } else {
            Err(ErrorKind::CommandParse)
        }
    }

    /// The piece of calibration. It has one to twelve characters.
    pub fn piece(&self) -> (piece: &str)
        ensures
            piece@ == self@,
            1 <= self@.len() <= 12,
    {
        proof {
            use_type_invariant(self);
        }
        self.piece.as_str()
    }

    /// Reads the command back from its text. The letters of the key count in either case;
    /// the piece is taken in upper case.
    pub fn parse(text: &str) -> (result: Result<Import, ErrorKind>)
        ensures
            match result {
                Ok(command) => Self::read(upper(text@)) == Some(command@),
                Err(kind) => kind == ErrorKind::CommandParse && Self::read(upper(text@)) is None,
            },
    {
        let chars = upper_chars_of(text);
        proof {
            reveal_strlit("IMPORT,");
        }
        if !starts_with(chars.as_slice(), "IMPORT,") {
            return Err(ErrorKind::CommandParse);
        }
        let length = chars.len() - 7;
        if !(1 <= length && length <= 12) {
            return Err(ErrorKind::CommandParse);
        }
        let mut piece = String::new();
        let mut i: usize = 7;
        while i < chars.len()
            invariant
                7 <= i <= chars@.len(),
                chars@ == upper(text@),
                piece@ == chars@.subrange(7, i as int),
            decreases chars@.len() - i,
        {
            let from = text.substring_char(i, i + 1);
            let c = text.get_char(i);
            proof {
                assert(from@ =~= seq![c]);
                assert(chars@[i as int] == crate::text::upper_char(c));
            }
            if 'a' <= c && c <= 'z' {
                piece.append(upper_letter_text(c));
            } else {
                piece.append(from);
            }
            i += 1;
            proof {
                assert(piece@ =~= chars@.subrange(7, i as int));
            }
        }
        Ok(Import { piece })
    }

    /// The text of a command reads back as the command that imports the same piece in upper
    /// case. Every such command takes as long and expects the same kind of reply.
    pub proof fn lemma_reads_back(command: Import, other: Import)
        requires
            1 <= command@.len() <= 12,
        ensures
            Self::read(upper(command.command_text())) == Some(upper(command@)),
            other.delay_ms() == command.delay_ms(),
            other.response_kind() == command.response_kind(),
    {
        reveal_strlit("IMPORT,");
        let text = command.command_text();
        assert(upper(text).subrange(0, 7) =~= "IMPORT,"@);
        assert(after(upper(text), 7) =~= upper(command@));
    }
}

impl Command for Import {
    open spec fn command_text(&self) -> Seq<char> {
        "IMPORT,"@ + self@
    }

    open spec fn well_formed(&self) -> bool {
        1 <= self@.len() <= 12
    }

    proof fn lemma_frame_length(&self) {
        reveal_strlit("IMPORT,");
        lemma_encoded_length(self.command_text(), 7);
    }

    open spec fn delay_ms(&self) -> u64 {
        300
    }

    open spec fn response_kind(&self) -> ResponseKind {
        ResponseKind::Ack
    }

    fn get_command_string(&self) -> (out: String) {
        proof {
            use_type_invariant(self);
            self.lemma_frame_length();
        }
        let mut out = String::from_str("IMPORT,");
        out.append(self.piece.as_str());
        out
    }

    fn get_delay(&self) -> (ms: u64) {
        300
    }

    fn get_response_kind(&self) -> (kind: ResponseKind) {
        ResponseKind::Ack
    }
}

impl std::str::FromStr for Import {
    type Err = ErrorKind;

    /// Reads the command back from its text, as `parse` does: the letters of the key count
    /// in either case, and the piece is taken in upper case.
    fn from_str(text: &str) -> (result: Result<Self, ErrorKind>)
        ensures
            match result {
                Ok(command) => Import::read(upper(text@)) == Some(command@),
                Err(kind) => kind == ErrorKind::CommandParse && Import::read(upper(text@)) is None,
            },
    {
        Import::parse(text)
    }
}

} // verus!
