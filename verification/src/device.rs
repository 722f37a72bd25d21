//! The answers that every EZO device gives, whatever it measures: what it is, how it was
//! restarted, the state of its LED and of its protocol lock, and its calibration in
//! exported form.

use crate::errors::ErrorKind;
use crate::fixed::{count_value, digits_of, lemma_natural_reads_back, natural_string, parse_u16};
use crate::number::{is_digit, is_digits, is_number, lemma_number_has_no_comma, Number};
use crate::text::{
    after, chars_of, equals, field_bounds, free_of, has_prefix, join, lemma_split_join, split,
    starts_with,
};
use vstd::prelude::*;
use vstd::slice::slice_subrange;
use vstd::string::{StrSliceExecFns, StringExecFns};

verus! {

/// Whether the LED of the device is on.
#[derive(Debug, Copy, Clone, PartialEq, Eq, Structural)]
pub enum LedStatus {
    Off,
    On,
}

impl LedStatus {
    /// The payload that stands for this status.
    pub open spec fn payload(self) -> Seq<char> {
        match self {
            LedStatus::On => "?L,1"@,
            LedStatus::Off => "?L,0"@,
        }
    }

    /// Whether `result` is what reading `response` gives: the status whose payload
    /// `response` is, or `ResponseParse` if it is the payload of none.
    pub open spec fn reads_as(response: Seq<char>, result: Result<LedStatus, ErrorKind>) -> bool {
        match result {
            Ok(status) => response == status.payload(),
            Err(kind) => kind == ErrorKind::ResponseParse && forall|status: LedStatus|
                response != #[trigger] status.payload(),
        }
    }

    /// Reads the answer to the `L,?` command: `?L,` and one of the digits 0 and 1.
    pub fn parse(response: &str) -> (result: Result<LedStatus, ErrorKind>)
        ensures
            Self::reads_as(response@, result),
    {
        let chars = chars_of(response);
        if equals(chars.as_slice(), "?L,1") {
            Ok(LedStatus::On)
        } else if equals(chars.as_slice(), "?L,0") {
            Ok(LedStatus::Off)
        } else {
            Err(ErrorKind::ResponseParse)
        }
    }

    /// The payload that the device sends for this status.
    pub fn to_payload(&self) -> (out: String)
        ensures
            out@ == self.payload(),
    {
        match self {
            LedStatus::On => String::from_str("?L,1"),
            LedStatus::Off => String::from_str("?L,0"),
        }
    }

    /// The two statuses have different payloads, so that reading `status.payload()` gives
    /// `status` back.
    pub proof fn lemma_payload_injective(a: LedStatus, b: LedStatus)
        requires
            a.payload() == b.payload(),
        ensures
            a == b,
    {
        reveal_strlit("?L,1");
        reveal_strlit("?L,0");
        assert("?L,1"@[3] == '1');
        assert("?L,0"@[3] == '0');
    }

    /// Reading the payload of a status gives the status back: whatever `parse` returns on
    /// `status.payload()` is `Ok(status)`.
    pub proof fn lemma_round_trip(status: LedStatus, result: Result<LedStatus, ErrorKind>)
        requires
            Self::reads_as(status.payload(), result),
        ensures
            result == Ok::<LedStatus, ErrorKind>(status),
    {
        match result {
            Ok(read) => {
                Self::lemma_payload_injective(read, status);
            },
            Err(_) => {
                assert(status.payload() == status.payload());
            },
        }
    }
}

/// Whether the protocol of the device is locked to I2C.
#[derive(Debug, Copy, Clone, PartialEq, Eq, Structural)]
pub enum ProtocolLockStatus {
    Off,
    On,
}

impl ProtocolLockStatus {
    /// The payload that stands for this status.
    pub open spec fn payload(self) -> Seq<char> {
        match self {
            ProtocolLockStatus::On => "?PLOCK,1"@,
            ProtocolLockStatus::Off => "?PLOCK,0"@,
        }
    }

    /// Whether `result` is what reading `response` gives: the status whose payload
    /// `response` is, or `ResponseParse` if it is the payload of none.
    pub open spec fn reads_as(
        response: Seq<char>,
        result: Result<ProtocolLockStatus, ErrorKind>,
    ) -> bool {
        match result {
            Ok(status) => response == status.payload(),
            Err(kind) => kind == ErrorKind::ResponseParse && forall|status: ProtocolLockStatus|
                response != #[trigger] status.payload(),
        }
    }

    /// Reads the answer to the `PLOCK,?` command: `?PLOCK,` and one of the digits 0 and 1.
    pub fn parse(response: &str) -> (result: Result<ProtocolLockStatus, ErrorKind>)
        ensures
            Self::reads_as(response@, result),
    {
        let chars = chars_of(response);
        if equals(chars.as_slice(), "?PLOCK,1") {
            Ok(ProtocolLockStatus::On)
        } else if equals(chars.as_slice(), "?PLOCK,0") {
            Ok(ProtocolLockStatus::Off)
        } else {
            Err(ErrorKind::ResponseParse)
        }
    }

    /// The payload that the device sends for this status.
    pub fn to_payload(&self) -> (out: String)
        ensures
            out@ == self.payload(),
    {
        match self {
            ProtocolLockStatus::On => String::from_str("?PLOCK,1"),
            ProtocolLockStatus::Off => String::from_str("?PLOCK,0"),
        }
    }

    /// The two statuses have different payloads, so that reading `status.payload()` gives
    /// `status` back.
    pub proof fn lemma_payload_injective(a: ProtocolLockStatus, b: ProtocolLockStatus)
        requires
            a.payload() == b.payload(),
        ensures
            a == b,
    {
        reveal_strlit("?PLOCK,1");
        reveal_strlit("?PLOCK,0");
        assert("?PLOCK,1"@[7] == '1');
        assert("?PLOCK,0"@[7] == '0');
    }

    /// Reading the payload of a status gives the status back: whatever `parse` returns on
    /// `status.payload()` is `Ok(status)`.
    pub proof fn lemma_round_trip(
        status: ProtocolLockStatus,
        result: Result<ProtocolLockStatus, ErrorKind>,
    )
        requires
            Self::reads_as(status.payload(), result),
        ensures
            result == Ok::<ProtocolLockStatus, ErrorKind>(status),
    {
        match result {
            Ok(read) => {
                Self::lemma_payload_injective(read, status);
            },
            Err(_) => {
                assert(status.payload() == status.payload());
            },
        }
    }
}

/// Why the device restarted last.
#[derive(Debug, Copy, Clone, PartialEq, Eq, Structural)]
pub enum RestartReason {
    PoweredOff,
    SoftwareReset,
    BrownOut,
    Watchdog,
    Unknown,
}

impl RestartReason {
    /// The letter that stands for this reason.
    pub open spec fn code(self) -> Seq<char> {
        match self {
            RestartReason::PoweredOff => "P"@,
            RestartReason::SoftwareReset => "S"@,
            RestartReason::BrownOut => "B"@,
            RestartReason::Watchdog => "W"@,
            RestartReason::Unknown => "U"@,
        }
    }

    /// The reason that `code` stands for, if it stands for one.
    fn of_code(code: &[char]) -> (reason: Option<RestartReason>)
        ensures
            match reason {
                Some(r) => code@ == r.code(),
                None => forall|r: RestartReason| code@ != #[trigger] r.code(),
            },
    {
        if equals(code, "P") {
            Some(RestartReason::PoweredOff)
        } else if equals(code, "S") {
            Some(RestartReason::SoftwareReset)
        } else if equals(code, "B") {
            Some(RestartReason::BrownOut)
        } else if equals(code, "W") {
            Some(RestartReason::Watchdog)
        } else if equals(code, "U") {
            Some(RestartReason::Unknown)
        } else {
            None
        }
    }

    /// The letter that stands for this reason.
    fn code_text(&self) -> (code: &'static str)
        ensures
            code@ == self.code(),
    {
        match self {
            RestartReason::PoweredOff => "P",
            RestartReason::SoftwareReset => "S",
            RestartReason::BrownOut => "B",
            RestartReason::Watchdog => "W",
            RestartReason::Unknown => "U",
        }
    }

    /// Each reason has a letter of its own, and a letter is no comma.
    pub proof fn lemma_codes(a: RestartReason, b: RestartReason)
        ensures
            a.code() == b.code() ==> a == b,
            a.code().len() == 1,
            free_of(a.code(), ','),
    {
        reveal_strlit("P");
        reveal_strlit("S");
        reveal_strlit("B");
        reveal_strlit("W");
        reveal_strlit("U");
        assert("P"@[0] == 'P');
        assert("S"@[0] == 'S');
        assert("B"@[0] == 'B');
        assert("W"@[0] == 'W');
        assert("U"@[0] == 'U');
    }
}

/// The answer to the `STATUS` command: why the device restarted last, and the voltage at
/// its supply pin.
#[derive(Debug, Clone, PartialEq, Eq)]
pub struct DeviceStatus {
    pub restart_reason: RestartReason,
    pub vcc_voltage: Number,
}

impl DeviceStatus {
    /// The two fields that follow `?STATUS,`.
    pub open spec fn fields(self) -> Seq<Seq<char>> {
        seq![self.restart_reason.code(), self.vcc_voltage@]
    }

    /// The payload that stands for this status: `?STATUS,`, the letter of the reason, a comma
    /// and the voltage.
    pub open spec fn payload(self) -> Seq<char> {
        "?STATUS,"@ + join(self.fields(), ',')
    }

    /// Whether `payload` is a device status: `?STATUS,`, then exactly two fields, the letter
    /// of a restart reason and a number.
    pub open spec fn accepts(payload: Seq<char>) -> bool {
        let fields = split(after(payload, 8), ',');
        &&& has_prefix(payload, "?STATUS,"@)
        &&& fields.len() == 2
        &&& exists|reason: RestartReason| fields[0] == #[trigger] reason.code()
        &&& is_number(fields[1])
    }

    /// Reads the answer to the `STATUS` command.
    pub fn parse(response: &str) -> (result: Result<DeviceStatus, ErrorKind>)
        ensures
            match result {
                Ok(status) => Self::accepts(response@) && status.fields() == split(
                    after(response@, 8),
                    ',',
                ),
                Err(kind) => kind == ErrorKind::ResponseParse && !Self::accepts(response@),
            },
    {
        let chars = chars_of(response);
        proof {
            reveal_strlit("?STATUS,");
        }
        if !starts_with(chars.as_slice(), "?STATUS,") {
            return Err(ErrorKind::ResponseParse);
        }
        let rest = slice_subrange(chars.as_slice(), 8, chars.len());
        let bounds = field_bounds(rest, ',');
        if bounds.len() != 2 {
            return Err(ErrorKind::ResponseParse);
        }
        let ghost fields = split(rest@, ',');
        let reason = match RestartReason::of_code(slice_subrange(rest, bounds[0].0, bounds[0].1)) {
            Some(reason) => reason,
            None => {
                return Err(ErrorKind::ResponseParse);
            },
        };
        let voltage = response.substring_char(8 + bounds[1].0, 8 + bounds[1].1);
        proof {
            assert(voltage@ =~= fields[1]);
        }
        match Number::parse(voltage) {
            Some(number) => {
                proof {
                    assert(fields =~= seq![reason.code(), number@]);
                }
                Ok(DeviceStatus { restart_reason: reason, vcc_voltage: number })
            },
            None => Err(ErrorKind::ResponseParse),
        }
    }

    /// The payload that the device sends for this status.
    pub fn to_payload(&self) -> (out: String)
        ensures
            out@ == self.payload(),
    {
        let mut out = String::from_str("?STATUS,");
        out.append(self.restart_reason.code_text());
        out.append(",");
        out.append(self.vcc_voltage.as_str());
        proof {
            reveal_strlit(",");
            let fields = self.fields();
            assert(fields.drop_last() =~= seq![fields[0]]);
            assert(join(seq![fields[0]], ',') == fields[0]);
            assert(","@ =~= seq![',']);
            assert(out@ =~= self.payload());
        }
        out
    }

    /// The payload of a status reads back as a status with the same reason and the same
    /// voltage.
    pub proof fn lemma_payload_reads_back(status: DeviceStatus)
        requires
            is_number(status.vcc_voltage@),
        ensures
            Self::accepts(status.payload()),
            split(after(status.payload(), 8), ',') == status.fields(),
    {
        reveal_strlit("?STATUS,");
        let fields = status.fields();
        let rest = join(fields, ',');
        assert(status.payload().subrange(0, 8) =~= "?STATUS,"@);
        assert(after(status.payload(), 8) =~= rest);
        RestartReason::lemma_codes(status.restart_reason, status.restart_reason);
        lemma_number_has_no_comma(status.vcc_voltage@);
        assert forall|k: int| 0 <= k < fields.len() implies free_of(#[trigger] fields[k], ',') by {
            if k == 0 {
            } else {
                assert(fields[k] == status.vcc_voltage@);
            }
        }
        lemma_split_join(fields, ',');
        assert(fields[0] == status.restart_reason.code());
    }
}

/// The answer to the `I` command: the type of the device and the version of its firmware.
#[derive(Debug, Clone, PartialEq, Eq)]
pub struct DeviceInfo {
    pub device: String,
    pub firmware: String,
}

impl DeviceInfo {
    /// The two fields that follow `?I,`.
    pub open spec fn fields(self) -> Seq<Seq<char>> {
        seq![self.device@, self.firmware@]
    }

    /// The payload that stands for this information: `?I,`, the device type, a comma and the
    /// firmware version.
    pub open spec fn payload(self) -> Seq<char> {
        "?I,"@ + join(self.fields(), ',')
    }

    /// Whether `payload` is a device information: `?I,`, then exactly two fields, neither of
    /// them empty.
    pub open spec fn accepts(payload: Seq<char>) -> bool {
        let fields = split(after(payload, 3), ',');
        &&& has_prefix(payload, "?I,"@)
        &&& fields.len() == 2
        &&& fields[0].len() > 0
        &&& fields[1].len() > 0
    }

    /// Reads the answer to the `I` command.
    pub fn parse(response: &str) -> (result: Result<DeviceInfo, ErrorKind>)
        ensures
            match result {
                Ok(info) => Self::accepts(response@) && info.fields() == split(
                    after(response@, 3),
                    ',',
                ),
                Err(kind) => kind == ErrorKind::ResponseParse && !Self::accepts(response@),
            },
    {
        let chars = chars_of(response);
        proof {
            reveal_strlit("?I,");
        }
        if !starts_with(chars.as_slice(), "?I,") {
            return Err(ErrorKind::ResponseParse);
        }
        let rest = slice_subrange(chars.as_slice(), 3, chars.len());
        let bounds = field_bounds(rest, ',');
        if bounds.len() != 2 {
            return Err(ErrorKind::ResponseParse);
        }
        let ghost fields = split(rest@, ',');
        if bounds[0].0 == bounds[0].1 || bounds[1].0 == bounds[1].1 {
            return Err(ErrorKind::ResponseParse);
        }
        let device = response.substring_char(3 + bounds[0].0, 3 + bounds[0].1);
        let firmware = response.substring_char(3 + bounds[1].0, 3 + bounds[1].1);
        proof {
            assert(device@ =~= fields[0]);
            assert(firmware@ =~= fields[1]);
            assert(fields =~= seq![device@, firmware@]);
        }
        Ok(DeviceInfo { device: String::from_str(device), firmware: String::from_str(firmware) })
    }

    /// The payload that the device sends for this information.
    pub fn to_payload(&self) -> (out: String)
        ensures
            out@ == self.payload(),
    {
        let mut out = String::from_str("?I,");
        out.append(self.device.as_str());
        out.append(",");
        out.append(self.firmware.as_str());
        proof {
            reveal_strlit(",");
            let fields = self.fields();
            assert(fields.drop_last() =~= seq![fields[0]]);
            assert(join(seq![fields[0]], ',') == fields[0]);
            assert(","@ =~= seq![',']);
            assert(out@ =~= self.payload());
        }
        out
    }

    /// The payload of an information whose fields are not empty and hold no comma reads back
    /// as an information with the same fields.
    pub proof fn lemma_payload_reads_back(info: DeviceInfo)
        requires
            info.device@.len() > 0,
            info.firmware@.len() > 0,
            free_of(info.device@, ','),
            free_of(info.firmware@, ','),
        ensures
            Self::accepts(info.payload()),
            split(after(info.payload(), 3), ',') == info.fields(),
    {
        reveal_strlit("?I,");
        let fields = info.fields();
        assert(info.payload().subrange(0, 3) =~= "?I,"@);
        assert(after(info.payload(), 3) =~= join(fields, ','));
        lemma_split_join(fields, ',');
    }
}

/// One answer to the `EXPORT` command: a piece of the calibration, or the mark that all
/// pieces have been given.
#[derive(Debug, Clone, PartialEq, Eq)]
pub enum Exported {
    ExportString(String),
    Done,
}

impl Exported {
    /// The payload that stands for this answer: the piece itself, or `*DONE`.
    pub open spec fn payload(self) -> Seq<char> {
        match self {
            Exported::ExportString(piece) => piece@,
            Exported::Done => "*DONE"@,
        }
    }

    /// Whether `payload` is an answer to `EXPORT`: `*DONE`, or one to twelve characters of
    /// which the first is no asterisk.
    pub open spec fn accepts(payload: Seq<char>) -> bool {
        if payload.len() > 0 && payload[0] == '*' {
            payload == "*DONE"@
        } else {
            1 <= payload.len() <= 12
        }
    }

    /// Reads an answer to the `EXPORT` command. A payload that begins with an asterisk must
    /// be the mark `*DONE`; any other payload is a piece of the calibration, of one to
    /// twelve characters.
    pub fn parse(response: &str) -> (result: Result<Exported, ErrorKind>)
        ensures
            match result {
                Ok(exported) => Self::accepts(response@) && response@ == exported.payload() && (
                exported is Done <==> response@ == "*DONE"@),
                Err(kind) => kind == ErrorKind::ResponseParse && !Self::accepts(response@),
            },
    {
        let chars = chars_of(response);
        proof {
            reveal_strlit("*DONE");
            reveal_strlit("*");
        }
        if starts_with(chars.as_slice(), "*") {
            proof {
                assert("*"@ =~= seq!['*']);
                assert(chars@.subrange(0, 1)[0] == chars@[0]);
                assert(chars@[0] == '*');
            }
            if equals(chars.as_slice(), "*DONE") {
                Ok(Exported::Done)
            } else {
                Err(ErrorKind::ResponseParse)
            }
        } else {
            proof {
                assert("*"@ =~= seq!['*']);
                if chars@.len() > 0 && chars@[0] == '*' {
                    assert(chars@.subrange(0, 1) =~= seq!['*']);
                }
                assert("*DONE"@[0] == '*');
            }
            if 1 <= chars.len() && chars.len() <= 12 {
                Ok(Exported::ExportString(String::from_str(response)))
            } else {
                Err(ErrorKind::ResponseParse)
            }
        }
    }

    /// The payload of an answer reads back as an answer of the same kind with the same
    /// piece, if the piece has one to twelve characters and does not begin with an asterisk.
    pub proof fn lemma_payload_reads_back(exported: Exported)
        requires
            exported matches Exported::ExportString(piece) ==> 1 <= piece@.len() <= 12
                && piece@[0] != '*',
        ensures
            Self::accepts(exported.payload()),
            exported is Done <==> exported.payload() == "*DONE"@,
    {
        reveal_strlit("*DONE");
        assert("*DONE"@[0] == '*');
    }

    /// The payload that the device sends for this answer.
    pub fn to_payload(&self) -> (out: String)
        ensures
            out@ == self.payload(),
    {
        match self {
            Exported::ExportString(piece) => piece.clone(),
            Exported::Done => String::from_str("*DONE"),
        }
    }
}

/// The answer to the `EXPORT,?` command: how much there is to export.
#[derive(Debug, Copy, Clone, PartialEq, Eq, Structural)]
pub struct ExportedInfo {
    /// The number of pieces.
    pub lines: u16,
    /// The number of bytes in all pieces together.
    pub total_bytes: u16,
}

impl ExportedInfo {
    /// The payload that stands for this information: `?EXPORT,` and the two numbers in
    /// decimal with a comma between them.
    pub open spec fn payload(self) -> Seq<char> {
        "?EXPORT,"@ + join(
            seq![digits_of(self.lines as nat), digits_of(self.total_bytes as nat)],
            ',',
        )
    }

    /// The information that `payload` stands for: `?EXPORT,`, then exactly two fields, each
    /// a natural number of at most sixteen bits.
    pub open spec fn read(payload: Seq<char>) -> Option<ExportedInfo> {
        let fields = split(after(payload, 8), ',');
        if has_prefix(payload, "?EXPORT,"@) && fields.len() == 2 {
            match (count_value(fields[0]), count_value(fields[1])) {
                (Some(lines), Some(total_bytes)) => Some(ExportedInfo { lines, total_bytes }),
                _ => None,
            }
        } else {
            None
        }
    }

    /// Reads the answer to the `EXPORT,?` command.
    pub fn parse(response: &str) -> (result: Result<ExportedInfo, ErrorKind>)
        ensures
            result == match Self::read(response@) {
                Some(info) => Ok::<ExportedInfo, ErrorKind>(info),
                None => Err::<ExportedInfo, ErrorKind>(ErrorKind::ResponseParse),
            },
    {
        let chars = chars_of(response);
        proof {
            reveal_strlit("?EXPORT,");
        }
        if !starts_with(chars.as_slice(), "?EXPORT,") {
            return Err(ErrorKind::ResponseParse);
        }
        let rest = slice_subrange(chars.as_slice(), 8, chars.len());
        let bounds = field_bounds(rest, ',');
        if bounds.len() != 2 {
            return Err(ErrorKind::ResponseParse);
        }
        let lines = match parse_u16(slice_subrange(rest, bounds[0].0, bounds[0].1)) {
            Some(lines) => lines,
            None => {
                return Err(ErrorKind::ResponseParse);
            },
        };
        let total_bytes = match parse_u16(slice_subrange(rest, bounds[1].0, bounds[1].1)) {
            Some(total_bytes) => total_bytes,
            None => {
                return Err(ErrorKind::ResponseParse);
            },
        };
        Ok(ExportedInfo { lines, total_bytes })
    }

    /// The payload that the device sends for this information.
    pub fn to_payload(&self) -> (out: String)
        ensures
            out@ == self.payload(),
    {
        let mut out = String::from_str("?EXPORT,");
        let lines = natural_string(self.lines as u64);
        let total_bytes = natural_string(self.total_bytes as u64);
        out.append(lines.as_str());
        out.append(",");
        out.append(total_bytes.as_str());
        proof {
            reveal_strlit(",");
            let fields = seq![digits_of(self.lines as nat), digits_of(self.total_bytes as nat)];
            assert(fields.drop_last() =~= seq![fields[0]]);
            assert(join(seq![fields[0]], ',') == fields[0]);
            assert(","@ =~= seq![',']);
            assert(out@ =~= self.payload());
        }
        out
    }

    /// The payload of an information reads back as that information.
    pub proof fn lemma_payload_reads_back(info: ExportedInfo)
        ensures
            Self::read(info.payload()) == Some(info),
    {
        reveal_strlit("?EXPORT,");
        let fields = seq![digits_of(info.lines as nat), digits_of(info.total_bytes as nat)];
        assert(info.payload().subrange(0, 8) =~= "?EXPORT,"@);
        assert(after(info.payload(), 8) =~= join(fields, ','));
        lemma_natural_reads_back(info.lines as nat);
        lemma_natural_reads_back(info.total_bytes as nat);
        assert forall|k: int| 0 <= k < fields.len() implies free_of(#[trigger] fields[k], ',') by {
            assert(is_digits(fields[k]));
            assert forall|j: int| 0 <= j < fields[k].len() implies fields[k][j] != ',' by {
                assert(is_digit(fields[k][j]));
            }
        }
        lemma_split_join(fields, ',');
    }
}

} // verus!
