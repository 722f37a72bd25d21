//! The values that the EZO EC chip answers with, and how each is read from a payload.

pub use crate::device::{
    DeviceInfo, DeviceStatus, Exported, ExportedInfo, LedStatus, ProtocolLockStatus, RestartReason,
};
use crate::errors::ErrorKind;
use crate::number::{is_number, lemma_number_has_no_comma, Number};
use crate::text::{
    after, chars_of, equals, field_bounds, free_of, has_prefix, join, lemma_join_split,
    lemma_split_join, lemma_split_nonempty, lemma_split_plain, split, starts_with,
};
use vstd::prelude::*;
use vstd::slice::slice_subrange;
use vstd::string::{StrSliceExecFns, StringExecFns};

verus! {

/// Calibration status of the EC EZO chip.
#[derive(Debug, Copy, Clone, PartialEq, Eq, Structural)]
pub enum CalibrationStatus {
    OnePoint,
    TwoPoint,
    NotCalibrated,
}

impl CalibrationStatus {
    /// The payload that stands for this status.
    pub open spec fn payload(self) -> Seq<char> {
        match self {
            CalibrationStatus::OnePoint => "?CAL,1"@,
            CalibrationStatus::TwoPoint => "?CAL,2"@,
            CalibrationStatus::NotCalibrated => "?CAL,0"@,
        }
    }

    /// How this status reads to a person.
    pub open spec fn text(self) -> Seq<char> {
        match self {
            CalibrationStatus::OnePoint => "one-point"@,
            CalibrationStatus::TwoPoint => "two-point"@,
            CalibrationStatus::NotCalibrated => "none"@,
        }
    }

    /// Whether `result` is what reading `response` gives: the status whose payload
    /// `response` is, or `ResponseParse` if it is the payload of none.
    pub open spec fn reads_as(
        response: Seq<char>,
        result: Result<CalibrationStatus, ErrorKind>,
    ) -> bool {
        match result {
            Ok(status) => response == status.payload(),
            Err(kind) => kind == ErrorKind::ResponseParse && forall|status: CalibrationStatus|
                response != #[trigger] status.payload(),
        }
    }

    /// Reads the answer to the `CAL,?` command: `?CAL,` and one of the digits 0, 1 and 2,
    /// with nothing after it.
    pub fn parse(response: &str) -> (result: Result<CalibrationStatus, ErrorKind>)
        ensures
            Self::reads_as(response@, result),
    {
        let chars = chars_of(response);
        if equals(chars.as_slice(), "?CAL,2") {
            Ok(CalibrationStatus::TwoPoint)
        } else if equals(chars.as_slice(), "?CAL,1") {
            Ok(CalibrationStatus::OnePoint)
        } else if equals(chars.as_slice(), "?CAL,0") {
            Ok(CalibrationStatus::NotCalibrated)
        } else {
            Err(ErrorKind::ResponseParse)
        }
    }

    /// The payload that the device sends for this status.
    pub fn to_payload(&self) -> (out: String)
        ensures
            out@ == self.payload(),
    {
        match self {
            CalibrationStatus::OnePoint => String::from_str("?CAL,1"),
            CalibrationStatus::TwoPoint => String::from_str("?CAL,2"),
            CalibrationStatus::NotCalibrated => String::from_str("?CAL,0"),
        }
    }

    /// How this status reads to a person: `one-point`, `two-point` or `none`.
    pub fn to_string(&self) -> (out: String)
        ensures
            out@ == self.text(),
    {
        match self {
            CalibrationStatus::OnePoint => String::from_str("one-point"),
            CalibrationStatus::TwoPoint => String::from_str("two-point"),
            CalibrationStatus::NotCalibrated => String::from_str("none"),
        }
    }

    /// No two calibration statuses share a payload, so that reading `status.payload()` gives
    /// `status` back.
    pub proof fn lemma_payload_injective(a: CalibrationStatus, b: CalibrationStatus)
        requires
            a.payload() == b.payload(),
        ensures
            a == b,
    {
        reveal_strlit("?CAL,0");
        reveal_strlit("?CAL,1");
        reveal_strlit("?CAL,2");
        assert("?CAL,0"@[5] == '0');
        assert("?CAL,1"@[5] == '1');
        assert("?CAL,2"@[5] == '2');
    }

    /// Reading the payload of a status gives the status back: whatever `parse` returns on
    /// `status.payload()` is `Ok(status)`.
    pub proof fn lemma_round_trip(
        status: CalibrationStatus,
        result: Result<CalibrationStatus, ErrorKind>,
    )
        requires
            Self::reads_as(status.payload(), result),
        ensures
            result == Ok::<CalibrationStatus, ErrorKind>(status),
    {
        match result {
            Ok(read) => {
                Self::lemma_payload_injective(read, status);
            },
            Err(_) => {
                assert(status.payload() == status.payload());
            },
        }
    }
}

/// The probe type of the conductivity sensor: its cell constant K.
#[derive(Debug, Copy, Clone, PartialEq, Eq, Structural)]
pub enum ProbeType {
    PointOne,
    One,
    Ten,
}

impl ProbeType {
    /// The payload that stands for this probe type.
    pub open spec fn payload(self) -> Seq<char> {
        match self {
            ProbeType::PointOne => "?K,0.1"@,
            ProbeType::One => "?K,1.0"@,
            ProbeType::Ten => "?K,10.0"@,
        }
    }

    /// The cell constant as the device writes it.
    pub open spec fn text(self) -> Seq<char> {
        match self {
            ProbeType::PointOne => "0.1"@,
            ProbeType::One => "1.0"@,
            ProbeType::Ten => "10.0"@,
        }
    }

    /// Whether `result` is what reading `response` gives: the probe type whose payload
    /// `response` is, or `ResponseParse` if it is the payload of none.
    pub open spec fn reads_as(response: Seq<char>, result: Result<ProbeType, ErrorKind>) -> bool {
        match result {
            Ok(probe) => response == probe.payload(),
            Err(kind) => kind == ErrorKind::ResponseParse && forall|probe: ProbeType|
                response != #[trigger] probe.payload(),
        }
    }

    /// Reads the answer to the `K,?` command: `?K,` and one of `0.1`, `1.0` and `10.0`, with
    /// nothing after it.
    pub fn parse(response: &str) -> (result: Result<ProbeType, ErrorKind>)
        ensures
            Self::reads_as(response@, result),
    {
        let chars = chars_of(response);
        if equals(chars.as_slice(), "?K,0.1") {
            Ok(ProbeType::PointOne)
        } else if equals(chars.as_slice(), "?K,1.0") {
            Ok(ProbeType::One)
        } else if equals(chars.as_slice(), "?K,10.0") {
            Ok(ProbeType::Ten)
        } else {
            Err(ErrorKind::ResponseParse)
        }
    }

    /// The payload that the device sends for this probe type.
    pub fn to_payload(&self) -> (out: String)
        ensures
            out@ == self.payload(),
    {
        match self {
            ProbeType::PointOne => String::from_str("?K,0.1"),
            ProbeType::One => String::from_str("?K,1.0"),
            ProbeType::Ten => String::from_str("?K,10.0"),
        }
    }

    /// The cell constant as the device writes it: `0.1`, `1.0` or `10.0`.
    pub fn to_string(&self) -> (out: String)
        ensures
            out@ == self.text(),
    {
        match self {
            ProbeType::PointOne => String::from_str("0.1"),
            ProbeType::One => String::from_str("1.0"),
            ProbeType::Ten => String::from_str("10.0"),
        }
    }

    /// No two probe types share a payload, so that reading `probe.payload()` gives `probe`
    /// back.
    pub proof fn lemma_payload_injective(a: ProbeType, b: ProbeType)
        requires
            a.payload() == b.payload(),
        ensures
            a == b,
    {
        reveal_strlit("?K,0.1");
        reveal_strlit("?K,1.0");
        reveal_strlit("?K,10.0");
        assert("?K,0.1"@[3] == '0');
        assert("?K,1.0"@[3] == '1');
        assert("?K,1.0"@.len() == 6);
        assert("?K,10.0"@.len() == 7);
    }

    /// Reading the payload of a probe type gives the probe type back: whatever `parse` returns on
    /// `probe.payload()` is `Ok(probe)`.
    pub proof fn lemma_round_trip(probe: ProbeType, result: Result<ProbeType, ErrorKind>)
        requires
            Self::reads_as(probe.payload(), result),
        ensures
            result == Ok::<ProbeType, ErrorKind>(probe),
    {
        match result {
            Ok(read) => {
                Self::lemma_payload_injective(read, probe);
            },
            Err(_) => {
                assert(probe.payload() == probe.payload());
            },
        }
    }
}

/// Whether one parameter appears in the output string.
#[derive(Debug, Copy, Clone, PartialEq, Eq, Structural)]
pub enum ParameterStatus {
    On,
    Off,
}

/// Which of the four sensing metrics appear in the output string.
#[derive(Debug, Copy, Clone, PartialEq, Eq, Structural)]
pub struct OutputStringStatus {
    pub electric_conductivity: ParameterStatus,
    pub total_dissolved_solids: ParameterStatus,
    pub salinity: ParameterStatus,
    pub specific_gravity: ParameterStatus,
}

/// The name of the parameter at `rank` in the canonical order EC, TDS, S, SG.
pub open spec fn parameter_name(rank: int) -> Seq<char> {
    if rank == 0 {
        "EC"@
    } else if rank == 1 {
        "TDS"@
    } else if rank == 2 {
        "S"@
    } else {
        "SG"@
    }
}

/// One name if the parameter is on, nothing if it is off.
pub open spec fn name_if_on(status: ParameterStatus, rank: int) -> Seq<Seq<char>> {
    if status == ParameterStatus::On {
        seq![parameter_name(rank)]
    } else {
        Seq::<Seq<char>>::empty()
    }
}

impl OutputStringStatus {
    /// The status of the parameter at `rank`.
    pub open spec fn at(self, rank: int) -> ParameterStatus {
        if rank == 0 {
            self.electric_conductivity
        } else if rank == 1 {
            self.total_dissolved_solids
        } else if rank == 2 {
            self.salinity
        } else {
            self.specific_gravity
        }
    }

    /// The names of the parameters that are on, in canonical order.
    pub open spec fn names(self) -> Seq<Seq<char>> {
        name_if_on(self.electric_conductivity, 0) + name_if_on(self.total_dissolved_solids, 1)
            + name_if_on(self.salinity, 2) + name_if_on(self.specific_gravity, 3)
    }

    /// The list that the device prints: the names that are on, separated by commas,
    /// or `No output` when none is.
    pub open spec fn text(self) -> Seq<char> {
        if self.names().len() == 0 {
            "No output"@
        } else {
            join(self.names(), ',')
        }
    }

    /// The payload that stands for this status: `?O,` and the list.
    pub open spec fn payload(self) -> Seq<char> {
        "?O,"@ + self.text()
    }

    /// The status with every parameter off.
    pub fn new() -> (status: OutputStringStatus)
        ensures
            status == (OutputStringStatus {
                electric_conductivity: ParameterStatus::Off,
                total_dissolved_solids: ParameterStatus::Off,
                salinity: ParameterStatus::Off,
                specific_gravity: ParameterStatus::Off,
            }),
    {
        OutputStringStatus {
            electric_conductivity: ParameterStatus::Off,
            total_dissolved_solids: ParameterStatus::Off,
            salinity: ParameterStatus::Off,
            specific_gravity: ParameterStatus::Off,
        }
    }
}

/// Where `name` stands in the canonical order, or -1 if it names no parameter.
pub open spec fn rank_of(name: Seq<char>) -> int {
    if name == "EC"@ {
        0
    } else if name == "TDS"@ {
        1
    } else if name == "S"@ {
        2
    } else if name == "SG"@ {
        3
    } else {
        -1
    }
}

proof fn lemma_parameter_names()
    ensures
        "EC"@ == seq!['E', 'C'],
        "TDS"@ == seq!['T', 'D', 'S'],
        "S"@ == seq!['S'],
        "SG"@ == seq!['S', 'G'],
        "No output"@ == seq!['N', 'o', ' ', 'o', 'u', 't', 'p', 'u', 't'],
        "?O,"@ == seq!['?', 'O', ','],
        forall|r: int| 0 <= r <= 3 ==> rank_of(#[trigger] parameter_name(r)) == r,
        forall|r: int| free_of(#[trigger] parameter_name(r), ','),
        rank_of("No output"@) == -1,
        free_of("No output"@, ','),
{
    reveal_strlit("EC");
    reveal_strlit("TDS");
    reveal_strlit("S");
    reveal_strlit("SG");
    reveal_strlit("No output");
    reveal_strlit("?O,");
    assert("EC"@ =~= seq!['E', 'C']);
    assert("TDS"@ =~= seq!['T', 'D', 'S']);
    assert("S"@ =~= seq!['S']);
    assert("SG"@ =~= seq!['S', 'G']);
    assert("No output"@ =~= seq!['N', 'o', ' ', 'o', 'u', 't', 'p', 'u', 't']);
    assert("?O,"@ =~= seq!['?', 'O', ',']);
}

/// The names of a status are parameter names, each later in the canonical order than the one
/// before it.
proof fn lemma_names_ordered(status: OutputStringStatus)
    ensures
        status.names().len() <= 4,
        forall|j: int|
            0 <= j < status.names().len() ==> 0 <= rank_of(#[trigger] status.names()[j]) <= 3,
        forall|j: int, k: int|
            0 <= j < k < status.names().len() ==> rank_of(#[trigger] status.names()[j])
                < rank_of(#[trigger] status.names()[k]),
        forall|k: int|
            0 <= k < status.names().len() ==> free_of(#[trigger] status.names()[k], ','),
{
    lemma_parameter_names();
    let a = name_if_on(status.electric_conductivity, 0);
    let b = name_if_on(status.total_dissolved_solids, 1);
    let c = name_if_on(status.salinity, 2);
    let d = name_if_on(status.specific_gravity, 3);
    let names = status.names();
    assert(names == a + b + c + d);
    assert forall|j: int| 0 <= j < names.len() implies {
        &&& 0 <= rank_of(#[trigger] names[j]) <= 3
        &&& free_of(names[j], ',')
        &&& (rank_of(names[j]) == 0 ==> j == 0)
        &&& (rank_of(names[j]) == 1 ==> j == a.len())
        &&& (rank_of(names[j]) == 2 ==> j == a.len() + b.len())
        &&& (rank_of(names[j]) == 3 ==> j == a.len() + b.len() + c.len())
    } by {
        if j < a.len() {
            assert(names[j] == parameter_name(0));
        } else if j < a.len() + b.len() {
            assert(names[j] == parameter_name(1));
        } else if j < a.len() + b.len() + c.len() {
            assert(names[j] == parameter_name(2));
        } else {
            assert(names[j] == parameter_name(3));
        }
    }
}

/// What the list of a status splits into.
proof fn lemma_text_fields(status: OutputStringStatus)
    ensures
        split(status.text(), ',') == if status.names().len() == 0 {
            seq!["No output"@]
        } else {
            status.names()
        },
{
    lemma_parameter_names();
    lemma_names_ordered(status);
    if status.names().len() == 0 {
        lemma_split_plain("No output"@, ',');
    } else {
        lemma_split_join(status.names(), ',');
    }
}

/// A list whose fields are the names of a status, or the one field `No output` for the
/// status without names, makes the payload of that status.
proof fn lemma_payload_of_fields(rest: Seq<char>, status: OutputStringStatus)
    requires
        split(rest, ',') == if status.names().len() == 0 {
            seq!["No output"@]
        } else {
            status.names()
        },
    ensures
        "?O,"@ + rest == status.payload(),
{
    lemma_join_split(rest, ',');
    lemma_text_fields(status);
    lemma_join_split(status.text(), ',');
}

/// A list whose fields are the names of no status, and not the one field `No output`, makes
/// the payload of no status.
proof fn lemma_no_payload(rest: Seq<char>)
    requires
        split(rest, ',') != seq!["No output"@],
        forall|status: OutputStringStatus| split(rest, ',') != #[trigger] status.names(),
    ensures
        forall|status: OutputStringStatus| "?O,"@ + rest != #[trigger] status.payload(),
{
    assert forall|status: OutputStringStatus| "?O,"@ + rest != #[trigger] status.payload() by {
        if "?O,"@ + rest == status.payload() {
            reveal_strlit("?O,");
            assert(rest =~= ("?O,"@ + rest).subrange(3, 3 + rest.len() as int));
            assert(status.text() =~= status.payload().subrange(3, 3 + status.text().len() as int));
            lemma_text_fields(status);
        }
    }
}

/// Every payload of a status begins with `?O,`.
proof fn lemma_payload_prefix(response: Seq<char>)
    requires
        !has_prefix(response, "?O,"@),
    ensures
        forall|status: OutputStringStatus| response != #[trigger] status.payload(),
{
    assert forall|status: OutputStringStatus| response != #[trigger] status.payload() by {
        reveal_strlit("?O,");
        assert(status.payload().subrange(0, 3) =~= "?O,"@);
    }
}

impl OutputStringStatus {
    /// This status with the parameter at `rank` on.
    pub open spec fn with(self, rank: int) -> OutputStringStatus {
        if rank == 0 {
            OutputStringStatus { electric_conductivity: ParameterStatus::On, ..self }
        } else if rank == 1 {
            OutputStringStatus { total_dissolved_solids: ParameterStatus::On, ..self }
        } else if rank == 2 {
            OutputStringStatus { salinity: ParameterStatus::On, ..self }
        } else {
            OutputStringStatus { specific_gravity: ParameterStatus::On, ..self }
        }
    }

    proof fn lemma_names_with(self, rank: int)
        requires
            0 <= rank <= 3,
            forall|q: int| rank <= q <= 3 ==> self.at(q) == ParameterStatus::Off,
        ensures
            self.with(rank).names() == self.names().push(parameter_name(rank)),
    {
        assert(self.at(3) == ParameterStatus::Off);
        if rank <= 2 {
            assert(self.at(2) == ParameterStatus::Off);
        }
        if rank <= 1 {
            assert(self.at(1) == ParameterStatus::Off);
        }
        if rank <= 0 {
            assert(self.at(0) == ParameterStatus::Off);
        }
        assert(self.with(rank).names() =~= self.names().push(parameter_name(rank)));
    }

    /// Which names a status has: that of each parameter that is on, and no other.
    proof fn lemma_names_membership(self, rank: int)
        requires
            0 <= rank <= 3,
        ensures
            self.names().contains(parameter_name(rank)) == (self.at(rank) == ParameterStatus::On),
    {
        lemma_parameter_names();
        let a = name_if_on(self.electric_conductivity, 0);
        let b = name_if_on(self.total_dissolved_solids, 1);
        let c = name_if_on(self.salinity, 2);
        let d = name_if_on(self.specific_gravity, 3);
        let names = self.names();
        assert(names == a + b + c + d);
        if self.at(rank) == ParameterStatus::On {
            let j = if rank == 0 {
                0
            } else if rank == 1 {
                a.len() as int
            } else if rank == 2 {
                (a.len() + b.len()) as int
            } else {
                (a.len() + b.len() + c.len()) as int
            };
            assert(names[j] == parameter_name(rank));
        } else {
            assert forall|j: int| 0 <= j < names.len() implies names[j] != parameter_name(
                rank,
            ) by {
                if j < a.len() {
                    assert(names[j] == parameter_name(0));
                } else if j < a.len() + b.len() {
                    assert(names[j] == parameter_name(1));
                } else if j < a.len() + b.len() + c.len() {
                    assert(names[j] == parameter_name(2));
                } else {
                    assert(names[j] == parameter_name(3));
                }
            }
        }
    }

    /// No two statuses share a payload, so that reading `status.payload()` gives `status`
    /// back: for each of the sixteen subsets of the four parameters, the round trip through
    /// the wire format is the identity.
    pub proof fn lemma_payload_injective(a: OutputStringStatus, b: OutputStringStatus)
        requires
            a.payload() == b.payload(),
        ensures
            a == b,
    {
        lemma_parameter_names();
        assert(a.text() =~= a.payload().subrange(3, a.payload().len() as int));
        assert(b.text() =~= b.payload().subrange(3, b.payload().len() as int));
        lemma_text_fields(a);
        lemma_text_fields(b);
        lemma_names_ordered(a);
        lemma_names_ordered(b);
        if a.names().len() == 0 && b.names().len() > 0 {
            assert(b.names()[0] == "No output"@);
        }
        if b.names().len() == 0 && a.names().len() > 0 {
            assert(a.names()[0] == "No output"@);
        }
        assert(a.names() == b.names());
        a.lemma_names_membership(0);
        a.lemma_names_membership(1);
        a.lemma_names_membership(2);
        a.lemma_names_membership(3);
        b.lemma_names_membership(0);
        b.lemma_names_membership(1);
        b.lemma_names_membership(2);
        b.lemma_names_membership(3);
    }

    /// Reading the payload of a status gives the status back: whatever `parse` returns on
    /// `status.payload()` is `Ok(status)`.
    pub proof fn lemma_round_trip(
        status: OutputStringStatus,
        result: Result<OutputStringStatus, ErrorKind>,
    )
        requires
            Self::reads_as(status.payload(), result),
        ensures
            result == Ok::<OutputStringStatus, ErrorKind>(status),
    {
        match result {
            Ok(read) => {
                Self::lemma_payload_injective(read, status);
            },
            Err(_) => {
                assert(status.payload() == status.payload());
            },
        }
    }

    fn set_on(&mut self, rank: usize)
        requires
            rank <= 3,
        ensures
            *final(self) == old(self).with(rank as int),
    {
        if rank == 0 {
            self.electric_conductivity = ParameterStatus::On;
        } else if rank == 1 {
            self.total_dissolved_solids = ParameterStatus::On;
        } else if rank == 2 {
            self.salinity = ParameterStatus::On;
        } else {
            self.specific_gravity = ParameterStatus::On;
        }
    }

    /// Whether `result` is what reading `response` gives: the status whose payload
    /// `response` is, or `ResponseParse` if it is the payload of none.
    pub open spec fn reads_as(
        response: Seq<char>,
        result: Result<OutputStringStatus, ErrorKind>,
    ) -> bool {
        match result {
            Ok(status) => response == status.payload(),
            Err(kind) => kind == ErrorKind::ResponseParse && forall|status: OutputStringStatus|
                response != #[trigger] status.payload(),
        }
    }

    /// Reads the answer to the `O,?` command. The payload must be `?O,` followed by the names
    /// of the parameters that are on, in canonical order and separated by commas, or by
    /// `No output`. Anything else is refused: an unknown name, a name out of order or given
    /// twice, an empty field.
    pub fn parse(response: &str) -> (result: Result<OutputStringStatus, ErrorKind>)
        ensures
            Self::reads_as(response@, result),
    {
        let chars = chars_of(response);
        proof {
            reveal_strlit("?O,");
        }
        if !starts_with(chars.as_slice(), "?O,") {
            proof {
                lemma_payload_prefix(response@);
            }
            return Err(ErrorKind::ResponseParse);
        }
        let rest = slice_subrange(chars.as_slice(), 3, chars.len());
        let bounds = field_bounds(rest, ',');
        proof {
            assert(response@ =~= "?O,"@ + rest@);
        }
        if bounds.len() == 1 && equals(
            slice_subrange(rest, bounds[0].0, bounds[0].1),
            "No output",
        ) {
            let status = OutputStringStatus::new();
            proof {
                assert(split(rest@, ',') =~= seq!["No output"@]);
                lemma_payload_of_fields(rest@, status);
            }
            return Ok(status);
        }
        match Self::read_names(rest, &bounds) {
            Some(status) => {
                proof {
                    lemma_split_nonempty(rest@, ',');
                    lemma_payload_of_fields(rest@, status);
                }
                Ok(status)
            },
            None => {
                proof {
                    assert(split(rest@, ',') != seq!["No output"@]);
                    lemma_no_payload(rest@);
                }
                Err(ErrorKind::ResponseParse)
            },
        }
    }

    /// The status whose names are the fields of `rest`, if there is one.
    fn read_names(rest: &[char], bounds: &Vec<(usize, usize)>) -> (found: Option<
        OutputStringStatus,
    >)
        requires
            bounds@.len() == split(rest@, ',').len(),
            forall|k: int|
                0 <= k < bounds@.len() ==> {
                    &&& (#[trigger] bounds@[k]).0 <= bounds@[k].1 <= rest@.len()
                    &&& split(rest@, ',')[k] == rest@.subrange(
                        bounds@[k].0 as int,
                        bounds@[k].1 as int,
                    )
                },
        ensures
            match found {
                Some(status) => split(rest@, ',') == status.names(),
                None => forall|status: OutputStringStatus|
                    split(rest@, ',') != #[trigger] status.names(),
            },
    {
        let n = bounds.len();
        let ghost fields = split(rest@, ',');
        let mut status = OutputStringStatus::new();
        let mut next: usize = 0;
        let mut i: usize = 0;
        proof {
            lemma_parameter_names();
            assert(fields.subrange(0, 0) =~= status.names());
        }
        while i < n
            invariant
                i <= n,
                next <= 4,
                n == bounds@.len(),
                n == fields.len(),
                fields == split(rest@, ','),
                forall|k: int|
                    0 <= k < bounds@.len() ==> {
                        &&& (#[trigger] bounds@[k]).0 <= bounds@[k].1 <= rest@.len()
                        &&& fields[k] == rest@.subrange(bounds@[k].0 as int, bounds@[k].1 as int)
                    },
                fields.subrange(0, i as int) == status.names(),
                forall|q: int| next <= q <= 3 ==> status.at(q) == ParameterStatus::Off,
                i > 0 ==> rank_of(fields[i - 1]) == next - 1,
                i == 0 ==> next == 0,
            decreases n - i,
        {
            let field = slice_subrange(rest, bounds[i].0, bounds[i].1);
            let rank = rank(field);
            if rank == 4 || rank < next {
                proof {
                    assert forall|other: OutputStringStatus|
                        fields != #[trigger] other.names() by {
                        if fields == other.names() {
                            lemma_names_ordered(other);
                            assert(fields[i as int] == other.names()[i as int]);
                            if i > 0 {
                                assert(fields[i - 1] == other.names()[i - 1]);
                            }
                        }
                    }
                }
                return None;
            }
            proof {
                lemma_parameter_names();
                status.lemma_names_with(rank as int);
                assert(fields.subrange(0, i + 1) =~= fields.subrange(0, i as int).push(
                    fields[i as int],
                ));
            }
            let ghost before = status;
            status.set_on(rank);
            next = rank + 1;
            i += 1;
            proof {
                assert forall|q: int| next <= q <= 3 implies #[trigger] status.at(q)
                    == ParameterStatus::Off by {
                    assert(before.at(q) == ParameterStatus::Off);
                }
            }
        }
        proof {
            assert(fields.subrange(0, n as int) =~= fields);
        }
        Some(status)
    }

    /// The list that the device prints for this status: the names of the parameters that
    /// are on, in canonical order and separated by commas, or `No output`.
    pub fn to_string(&self) -> (out: String)
        ensures
            out@ == self.text(),
    {
        let mut out = String::new();
        let mut any = false;
        let ghost mut names = Seq::<Seq<char>>::empty();
        if self.electric_conductivity == ParameterStatus::On {
            out = append_field(out, any, Ghost(names), "EC");
            any = true;
            proof {
                names = names.push("EC"@);
            }
        }
        if self.total_dissolved_solids == ParameterStatus::On {
            out = append_field(out, any, Ghost(names), "TDS");
            any = true;
            proof {
                names = names.push("TDS"@);
            }
        }
        if self.salinity == ParameterStatus::On {
            out = append_field(out, any, Ghost(names), "S");
            any = true;
            proof {
                names = names.push("S"@);
            }
        }
        if self.specific_gravity == ParameterStatus::On {
            out = append_field(out, any, Ghost(names), "SG");
            any = true;
            proof {
                names = names.push("SG"@);
            }
        }
        proof {
            assert(names =~= self.names());
        }
        if any {
            out
        } else {
            String::from_str("No output")
        }
    }

    /// The payload that the device sends for this status: `?O,` and the list.
    pub fn to_payload(&self) -> (out: String)
        ensures
            out@ == self.payload(),
    {
        let mut out = String::from_str("?O,");
        let list = self.to_string();
        out.append(list.as_str());
        out
    }
}

/// The temperature that the device compensates its readings for.
#[derive(Debug, Clone, PartialEq, Eq)]
pub struct CompensationValue(pub Number);

impl CompensationValue {
    /// The payload that stands for this value: `?T,` and the number.
    pub open spec fn payload(self) -> Seq<char> {
        "?T,"@ + self.0@
    }

    /// Reads the answer to the `T,?` command: `?T,` and one number, with nothing after it.
    pub fn parse(response: &str) -> (result: Result<CompensationValue, ErrorKind>)
        ensures
            match result {
                Ok(value) => response@ == value.payload() && is_number(value.0@),
                Err(kind) => kind == ErrorKind::ResponseParse && !(has_prefix(response@, "?T,"@)
                    && is_number(after(response@, 3))),
            },
    {
        let chars = chars_of(response);
        proof {
            reveal_strlit("?T,");
        }
        if !starts_with(chars.as_slice(), "?T,") {
            return Err(ErrorKind::ResponseParse);
        }
        let rest = response.substring_char(3, chars.len());
        match Number::parse(rest) {
            Some(number) => {
                proof {
                    assert(response@ =~= "?T,"@ + rest@);
                }
                Ok(CompensationValue(number))
            },
            None => Err(ErrorKind::ResponseParse),
        }
    }

    /// The payload of a value reads back as a value with the same number.
    pub proof fn lemma_payload_reads_back(value: CompensationValue)
        requires
            is_number(value.0@),
        ensures
            has_prefix(value.payload(), "?T,"@),
            after(value.payload(), 3) == value.0@,
    {
        reveal_strlit("?T,");
        assert(value.payload().subrange(0, 3) =~= "?T,"@);
        assert(after(value.payload(), 3) =~= value.0@);
    }

    /// The payload that the device sends for this value.
    pub fn to_payload(&self) -> (out: String)
        ensures
            out@ == self.payload(),
    {
        let mut out = String::from_str("?T,");
        out.append(self.0.as_str());
        out
    }
}

/// One metric of a reading, with what it measures.
#[derive(Debug, Clone, PartialEq, Eq)]
pub enum ProbeMetric {
    ElectricConductivity(Number),
    TotalDissolvedSolids(Number),
    Salinity(Number),
    SpecificGravity(Number),
}

/// A sample reading: the numbers that the device sent, from none to four of them.
#[derive(Debug, Clone, PartialEq, Eq)]
pub enum ProbeReading {
    NoParameters,
    OneParameter(Number),
    TwoParameters(Number, Number),
    ThreeParameters(Number, Number, Number),
    FourParameters(Number, Number, Number, Number),
}

/// Whether `payload` is a reading: at most four fields, each of them a number.
pub open spec fn is_reading(payload: Seq<char>) -> bool {
    let fields = split(payload, ',');
    fields.len() <= 4 && forall|k: int| 0 <= k < fields.len() ==> is_number(#[trigger] fields[k])
}

/// The number that stands in `response` between the given bounds.
fn number_between(response: &str, bounds: (usize, usize)) -> (number: Option<Number>)
    requires
        bounds.0 <= bounds.1 <= response@.len(),
    ensures
        number is Some == is_number(response@.subrange(bounds.0 as int, bounds.1 as int)),
        number matches Some(n) ==> n@ == response@.subrange(bounds.0 as int, bounds.1 as int),
{
    Number::parse(response.substring_char(bounds.0, bounds.1))
}

impl ProbeReading {
    /// The literals of the numbers of this reading, in the order in which they came.
    pub open spec fn fields(self) -> Seq<Seq<char>> {
        match self {
            ProbeReading::NoParameters => Seq::<Seq<char>>::empty(),
            ProbeReading::OneParameter(a) => seq![a@],
            ProbeReading::TwoParameters(a, b) => seq![a@, b@],
            ProbeReading::ThreeParameters(a, b, c) => seq![a@, b@, c@],
            ProbeReading::FourParameters(a, b, c, d) => seq![a@, b@, c@, d@],
        }
    }

    /// The text that stands for this reading: its numbers, separated by commas, or `none`
    /// if it has no number.
    pub open spec fn payload(self) -> Seq<char> {
        match self {
            ProbeReading::NoParameters => "none"@,
            _ => join(self.fields(), ','),
        }
    }

    /// Reads the answer to the `R` command: one to four numbers, separated by commas. How
    /// many there are decides the shape of the reading. A fifth field is refused, and so is
    /// a field that is no number, an empty one too.
    pub fn parse(response: &str) -> (result: Result<ProbeReading, ErrorKind>)
        ensures
            match result {
                Ok(reading) => is_reading(response@) && reading.fields() == split(
                    response@,
                    ',',
                ) && !(reading is NoParameters),
                Err(kind) => kind == ErrorKind::ResponseParse && !is_reading(response@),
            },
    {
        let chars = chars_of(response);
        let bounds = field_bounds(chars.as_slice(), ',');
        let n = bounds.len();
        let ghost fields = split(response@, ',');
        proof {
            lemma_split_nonempty(response@, ',');
        }
        if n > 4 {
            return Err(ErrorKind::ResponseParse);
        }
        let one = match number_between(response, bounds[0]) {
            Some(number) => number,
            None => {
                proof {
                    assert(!is_number(fields[0]));
                }
                return Err(ErrorKind::ResponseParse);
            },
        };
        if n == 1 {
            proof {
                assert(fields =~= seq![one@]);
            }
            return Ok(ProbeReading::OneParameter(one));
        }
        let two = match number_between(response, bounds[1]) {
            Some(number) => number,
            None => {
                proof {
                    assert(!is_number(fields[1]));
                }
                return Err(ErrorKind::ResponseParse);
            },
        };
        if n == 2 {
            proof {
                assert(fields =~= seq![one@, two@]);
            }
            return Ok(ProbeReading::TwoParameters(one, two));
        }
        let three = match number_between(response, bounds[2]) {
            Some(number) => number,
            None => {
                proof {
                    assert(!is_number(fields[2]));
                }
                return Err(ErrorKind::ResponseParse);
            },
        };
        if n == 3 {
            proof {
                assert(fields =~= seq![one@, two@, three@]);
            }
            return Ok(ProbeReading::ThreeParameters(one, two, three));
        }
        let four = match number_between(response, bounds[3]) {
            Some(number) => number,
            None => {
                proof {
                    assert(!is_number(fields[3]));
                }
                return Err(ErrorKind::ResponseParse);
            },
        };
        proof {
            assert(fields =~= seq![one@, two@, three@, four@]);
        }
        Ok(ProbeReading::FourParameters(one, two, three, four))
    }

    /// The payload of a reading that has a number reads back as a reading with the same
    /// numbers in the same order.
    pub proof fn lemma_payload_reads_back(reading: ProbeReading)
        requires
            !(reading is NoParameters),
            forall|k: int|
                0 <= k < reading.fields().len() ==> is_number(#[trigger] reading.fields()[k]),
        ensures
            is_reading(reading.payload()),
            split(reading.payload(), ',') == reading.fields(),
    {
        let fields = reading.fields();
        assert forall|k: int| 0 <= k < fields.len() implies free_of(#[trigger] fields[k], ',') by {
            lemma_number_has_no_comma(fields[k]);
        }
        lemma_split_join(fields, ',');
    }

    /// The text that stands for this reading: its numbers as they were received, separated
    /// by commas, or `none`.
    pub fn to_payload(&self) -> (out: String)
        ensures
            out@ == self.payload(),
    {
        match self {
            ProbeReading::NoParameters => String::from_str("none"),
            ProbeReading::OneParameter(a) => String::from_str(a.as_str()),
            ProbeReading::TwoParameters(a, b) => {
                let ghost first = seq![a@];
                let out = String::from_str(a.as_str());
                let out = append_field(out, true, Ghost(first), b.as_str());
                proof {
                    assert(first.push(b@) =~= seq![a@, b@]);
                }
                out
            },
            ProbeReading::ThreeParameters(a, b, c) => {
                let ghost first = seq![a@];
                let ghost second = seq![a@, b@];
                let out = String::from_str(a.as_str());
                let out = append_field(out, true, Ghost(first), b.as_str());
                proof {
                    assert(first.push(b@) =~= second);
                }
                let out = append_field(out, true, Ghost(second), c.as_str());
                proof {
                    assert(second.push(c@) =~= seq![a@, b@, c@]);
                }
                out
            },
            ProbeReading::FourParameters(a, b, c, d) => {
                let ghost first = seq![a@];
                let ghost second = seq![a@, b@];
                let ghost third = seq![a@, b@, c@];
                let out = String::from_str(a.as_str());
                let out = append_field(out, true, Ghost(first), b.as_str());
                proof {
                    assert(first.push(b@) =~= second);
                }
                let out = append_field(out, true, Ghost(second), c.as_str());
                proof {
                    assert(second.push(c@) =~= third);
                }
                let out = append_field(out, true, Ghost(third), d.as_str());
                proof {
                    assert(third.push(d@) =~= seq![a@, b@, c@, d@]);
                }
                out
            },
        }
    }
}

/// Where `field` stands in the canonical order of the parameter names; 4 if it is none of them.
fn rank(field: &[char]) -> (rank: usize)
    ensures
        rank <= 4,
        rank <= 3 ==> rank_of(field@) == rank,
        rank == 4 ==> rank_of(field@) == -1,
{
    if equals(field, "EC") {
        0
    } else if equals(field, "TDS") {
        1
    } else if equals(field, "S") {
        2
    } else if equals(field, "SG") {
        3
    } else {
        4
    }
}

/// The shape of the reply that a command expects.
#[derive(Debug, Copy, Clone, PartialEq, Eq, Structural)]
pub enum ResponseKind {
    /// The command is not answered: nothing is read.
    Nothing,
    /// The device only acknowledges the command.
    Ack,
    CalibrationStatus,
    CompensationValue,
    ProbeType,
    OutputStringStatus,
    ProbeReading,
    DeviceInfo,
    DeviceStatus,
    Exported,
    ExportedInfo,
    LedStatus,
    ProtocolLockStatus,
}

/// What a command was answered with.
#[derive(Debug, Clone, PartialEq, Eq)]
pub enum Response {
    /// The command expects no answer.
    Nothing,
    /// The device acknowledged the command.
    Ack,
    CalibrationStatus(CalibrationStatus),
    CompensationValue(CompensationValue),
    ProbeType(ProbeType),
    OutputStringStatus(OutputStringStatus),
    ProbeReading(ProbeReading),
    DeviceInfo(DeviceInfo),
    DeviceStatus(DeviceStatus),
    Exported(Exported),
    ExportedInfo(ExportedInfo),
    LedStatus(LedStatus),
    ProtocolLockStatus(ProtocolLockStatus),
}

impl Response {
    /// The kind of reply that this is.
    pub open spec fn kind(self) -> ResponseKind {
        match self {
            Response::Nothing => ResponseKind::Nothing,
            Response::Ack => ResponseKind::Ack,
            Response::CalibrationStatus(_) => ResponseKind::CalibrationStatus,
            Response::CompensationValue(_) => ResponseKind::CompensationValue,
            Response::ProbeType(_) => ResponseKind::ProbeType,
            Response::OutputStringStatus(_) => ResponseKind::OutputStringStatus,
            Response::ProbeReading(_) => ResponseKind::ProbeReading,
            Response::DeviceInfo(_) => ResponseKind::DeviceInfo,
            Response::DeviceStatus(_) => ResponseKind::DeviceStatus,
            Response::Exported(_) => ResponseKind::Exported,
            Response::ExportedInfo(_) => ResponseKind::ExportedInfo,
            Response::LedStatus(_) => ResponseKind::LedStatus,
            Response::ProtocolLockStatus(_) => ResponseKind::ProtocolLockStatus,
        }
    }

    /// Whether `payload` is what the device sends for this reply. A reply without a value
    /// goes with any payload.
    pub open spec fn read_from(self, payload: Seq<char>) -> bool {
        match self {
            Response::Nothing => true,
            Response::Ack => true,
            Response::CalibrationStatus(status) => payload == status.payload(),
            Response::CompensationValue(value) => payload == value.payload(),
            Response::ProbeType(probe) => payload == probe.payload(),
            Response::OutputStringStatus(status) => payload == status.payload(),
            Response::ProbeReading(reading) => reading.fields() == split(payload, ',')
                && !(reading is NoParameters),
            Response::DeviceInfo(info) => info.fields() == split(after(payload, 3), ','),
            Response::DeviceStatus(status) => status.fields() == split(after(payload, 8), ','),
            Response::Exported(exported) => payload == exported.payload() && (exported is Done
                <==> payload == "*DONE"@),
            Response::ExportedInfo(info) => ExportedInfo::read(payload) == Some(info),
            Response::LedStatus(status) => payload == status.payload(),
            Response::ProtocolLockStatus(status) => payload == status.payload(),
        }
    }
}

/// Whether a payload has the shape that `kind` asks for.
pub open spec fn is_payload_of(kind: ResponseKind, payload: Seq<char>) -> bool {
    match kind {
        ResponseKind::Nothing => true,
        ResponseKind::Ack => true,
        ResponseKind::CalibrationStatus => exists|status: CalibrationStatus|
            payload == #[trigger] status.payload(),
        ResponseKind::CompensationValue => has_prefix(payload, "?T,"@) && is_number(
            after(payload, 3),
        ),
        ResponseKind::ProbeType => exists|probe: ProbeType| payload == #[trigger] probe.payload(),
        ResponseKind::OutputStringStatus => exists|status: OutputStringStatus|
            payload == #[trigger] status.payload(),
        ResponseKind::ProbeReading => is_reading(payload),
        ResponseKind::DeviceInfo => DeviceInfo::accepts(payload),
        ResponseKind::DeviceStatus => DeviceStatus::accepts(payload),
        ResponseKind::Exported => Exported::accepts(payload),
        ResponseKind::ExportedInfo => ExportedInfo::read(payload) is Some,
        ResponseKind::LedStatus => exists|status: LedStatus| payload == #[trigger] status.payload(),
        ResponseKind::ProtocolLockStatus => exists|status: ProtocolLockStatus|
            payload == #[trigger] status.payload(),
    }
}

/// Whether `result` is what reading `payload` as `kind` gives: a response of that kind that
/// the payload stands for, or `ResponseParse` where the payload has not the shape of the
/// kind.
pub open spec fn decodes_to(
    kind: ResponseKind,
    payload: Seq<char>,
    result: Result<Response, ErrorKind>,
) -> bool {
    match result {
        Ok(response) => response.kind() == kind && response.read_from(payload) && is_payload_of(
            kind,
            payload,
        ),
        Err(error) => error == ErrorKind::ResponseParse && !is_payload_of(kind, payload),
    }
}

/// Reads a payload as the kind of reply that the command expects, with the decoder of that
/// kind. A command that expects no value is answered without a look at the payload.
pub fn decode(kind: ResponseKind, payload: &str) -> (result: Result<Response, ErrorKind>)
    ensures
        decodes_to(kind, payload@, result),
{
    match kind {
        ResponseKind::Nothing => Ok(Response::Nothing),
        ResponseKind::Ack => Ok(Response::Ack),
        ResponseKind::CalibrationStatus => decode_calibration_status(payload),
        ResponseKind::CompensationValue => decode_compensation_value(payload),
        ResponseKind::ProbeType => decode_probe_type(payload),
        ResponseKind::OutputStringStatus => decode_output_string_status(payload),
        ResponseKind::ProbeReading => decode_probe_reading(payload),
        ResponseKind::DeviceInfo => decode_device_info(payload),
        ResponseKind::DeviceStatus => decode_device_status(payload),
        ResponseKind::Exported => decode_exported(payload),
        ResponseKind::ExportedInfo => decode_exported_info(payload),
        ResponseKind::LedStatus => decode_led_status(payload),
        ResponseKind::ProtocolLockStatus => decode_protocol_lock_status(payload),
    }
}

/// Reads a payload as a `CalibrationStatus`.
fn decode_calibration_status(payload: &str) -> (result: Result<Response, ErrorKind>)
    ensures
        decodes_to(ResponseKind::CalibrationStatus, payload@, result),
{
    match CalibrationStatus::parse(payload) {
        Ok(status) => {
            Ok(Response::CalibrationStatus(status))
        },
        Err(error) => Err(error),
    }
}

/// Reads a payload as a `CompensationValue`.
fn decode_compensation_value(payload: &str) -> (result: Result<Response, ErrorKind>)
    ensures
        decodes_to(ResponseKind::CompensationValue, payload@, result),
{
    match CompensationValue::parse(payload) {
        Ok(value) => {
            proof {
                reveal_strlit("?T,");
                assert(payload@.subrange(0, 3) =~= "?T,"@);
                assert(after(payload@, 3) =~= value.0@);
            }
            Ok(Response::CompensationValue(value))
        },
        Err(error) => Err(error),
    }
}

/// Reads a payload as a `ProbeType`.
fn decode_probe_type(payload: &str) -> (result: Result<Response, ErrorKind>)
    ensures
        decodes_to(ResponseKind::ProbeType, payload@, result),
{
    match ProbeType::parse(payload) {
        Ok(probe) => {
            Ok(Response::ProbeType(probe))
        },
        Err(error) => Err(error),
    }
}

/// Reads a payload as an `OutputStringStatus`.
fn decode_output_string_status(payload: &str) -> (result: Result<Response, ErrorKind>)
    ensures
        decodes_to(ResponseKind::OutputStringStatus, payload@, result),
{
    match OutputStringStatus::parse(payload) {
        Ok(status) => {
            Ok(Response::OutputStringStatus(status))
        },
        Err(error) => Err(error),
    }
}

/// Reads a payload as a `ProbeReading`.
fn decode_probe_reading(payload: &str) -> (result: Result<Response, ErrorKind>)
    ensures
        decodes_to(ResponseKind::ProbeReading, payload@, result),
{
    match ProbeReading::parse(payload) {
        Ok(reading) => {
            Ok(Response::ProbeReading(reading))
        },
        Err(error) => Err(error),
    }
}

/// Reads a payload as a `DeviceInfo`.
fn decode_device_info(payload: &str) -> (result: Result<Response, ErrorKind>)
    ensures
        decodes_to(ResponseKind::DeviceInfo, payload@, result),
{
    match DeviceInfo::parse(payload) {
        Ok(info) => {
            Ok(Response::DeviceInfo(info))
        },
        Err(error) => Err(error),
    }
}

/// Reads a payload as a `DeviceStatus`.
fn decode_device_status(payload: &str) -> (result: Result<Response, ErrorKind>)
    ensures
        decodes_to(ResponseKind::DeviceStatus, payload@, result),
{
    match DeviceStatus::parse(payload) {
        Ok(status) => {
            Ok(Response::DeviceStatus(status))
        },
        Err(error) => Err(error),
    }
}

/// Reads a payload as an `Exported`.
fn decode_exported(payload: &str) -> (result: Result<Response, ErrorKind>)
    ensures
        decodes_to(ResponseKind::Exported, payload@, result),
{
    match Exported::parse(payload) {
        Ok(exported) => {
            Ok(Response::Exported(exported))
        },
        Err(error) => Err(error),
    }
}

/// Reads a payload as an `ExportedInfo`.
fn decode_exported_info(payload: &str) -> (result: Result<Response, ErrorKind>)
    ensures
        decodes_to(ResponseKind::ExportedInfo, payload@, result),
{
    match ExportedInfo::parse(payload) {
        Ok(info) => {
            Ok(Response::ExportedInfo(info))
        },
        Err(error) => Err(error),
    }
}

/// Reads a payload as a `LedStatus`.
fn decode_led_status(payload: &str) -> (result: Result<Response, ErrorKind>)
    ensures
        decodes_to(ResponseKind::LedStatus, payload@, result),
{
    match LedStatus::parse(payload) {
        Ok(status) => {
            Ok(Response::LedStatus(status))
        },
        Err(error) => Err(error),
    }
}

/// Reads a payload as a `ProtocolLockStatus`.
fn decode_protocol_lock_status(payload: &str) -> (result: Result<Response, ErrorKind>)
    ensures
        decodes_to(ResponseKind::ProtocolLockStatus, payload@, result),
{
    match ProtocolLockStatus::parse(payload) {
        Ok(status) => {
            Ok(Response::ProtocolLockStatus(status))
        },
        Err(error) => Err(error),
    }
}

/// Adds one field to a comma-separated list.
fn append_field(list: String, any: bool, fields: Ghost<Seq<Seq<char>>>, field: &str) -> (out:
    String)
    requires
        any == (fields@.len() > 0),
        list@ == join(fields@, ','),
    ensures
        out@ == join(fields@.push(field@), ','),
{
    let mut out = list;
    proof {
        reveal_strlit(",");
        assert(fields@.push(field@).drop_last() =~= fields@);
    }
    if any {
        out.append(",");
        proof {
            assert(","@ =~= seq![',']);
            assert(out@ =~= join(fields@, ',').push(','));
        }
    }
    out.append(field);
    out
}

} // verus!
