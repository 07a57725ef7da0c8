//! XTCE enumerations and PUS body entries of the mission database, with the
//! JSON forms in which they are sent as command arguments.
use vstd::prelude::*;
use crate::error::YamcsTcError;
use crate::json::{JsonValue, JsonView, items_view, object2, object1, push_item};
use crate::text::{concat, decimal, u64_to_string};

verus! {

broadcast use vstd::string::group_string_axioms;

/// Full Function_ID_t enumeration from XTCE.
///
/// EPS channels:  512–534
/// PAY1:           0–7
/// PAY2:         256–263
/// SYSTEM:       768–778
/// EOM:          776–778  (overlap with SYSTEM range, same numeric space)
#[derive(Debug, Clone, Copy, PartialEq, Eq, Structural)]
pub enum FunctionId {
    UcfPay1Start,
    UcfPay1Stop,
    UcfPay1SetMode,
    UcfPay1Reset,
    UcfPay1GetStatus,
    UcfPay1GetHk,
    UcfPay1StopTime,
    UcfPay1DownloadPacket,
    UcfPay2Start,
    UcfPay2Stop,
    UcfPay2SetMode,
    UcfPay2Reset,
    UcfPay2GetStatus,
    UcfPay2GetHk,
    UcfPay2StopTime,
    UcfPay2DownloadPacket,
    UcfEpsOutputBusChannelOn,
    UcfEpsOutputBusChannelOff,
    UcfEpsCorrectTime,
    UcfSystemGetHk,
    UcfSystemReset,
    UcfSystemSetMode,
    UcfSystemGetStatus,
    UcfSystemSaveConfig,
    UcfSystemLoadConfig,
    UcfSystemChangeTime,
    UcfSystemCompressFile,
    UcfSystemEndOfMission,
    UcfSystemEndOfMission2,
    UcfSystemEndOfMission3,
}

/// The numeric code of each value.
pub open spec fn function_id_code(v: FunctionId) -> u16 {
    match v {
        FunctionId::UcfPay1Start => 0,
        FunctionId::UcfPay1Stop => 1,
        FunctionId::UcfPay1SetMode => 2,
        FunctionId::UcfPay1Reset => 3,
        FunctionId::UcfPay1GetStatus => 4,
        FunctionId::UcfPay1GetHk => 5,
        FunctionId::UcfPay1StopTime => 6,
        FunctionId::UcfPay1DownloadPacket => 7,
        FunctionId::UcfPay2Start => 256,
        FunctionId::UcfPay2Stop => 257,
        FunctionId::UcfPay2SetMode => 258,
        FunctionId::UcfPay2Reset => 259,
        FunctionId::UcfPay2GetStatus => 260,
        FunctionId::UcfPay2GetHk => 261,
        FunctionId::UcfPay2StopTime => 262,
        FunctionId::UcfPay2DownloadPacket => 263,
        FunctionId::UcfEpsOutputBusChannelOn => 516,
        FunctionId::UcfEpsOutputBusChannelOff => 517,
        FunctionId::UcfEpsCorrectTime => 533,
        FunctionId::UcfSystemGetHk => 768,
        FunctionId::UcfSystemReset => 769,
        FunctionId::UcfSystemSetMode => 770,
        FunctionId::UcfSystemGetStatus => 771,
        FunctionId::UcfSystemSaveConfig => 772,
        FunctionId::UcfSystemLoadConfig => 773,
        FunctionId::UcfSystemChangeTime => 774,
        FunctionId::UcfSystemCompressFile => 775,
        FunctionId::UcfSystemEndOfMission => 776,
        FunctionId::UcfSystemEndOfMission2 => 777,
        FunctionId::UcfSystemEndOfMission3 => 778,
    }
}

impl FunctionId {
    pub fn as_u16(self) -> (r: u16)
        ensures
            r == function_id_code(self),
    {
        match self {
            FunctionId::UcfPay1Start => 0,
            FunctionId::UcfPay1Stop => 1,
            FunctionId::UcfPay1SetMode => 2,
            FunctionId::UcfPay1Reset => 3,
            FunctionId::UcfPay1GetStatus => 4,
            FunctionId::UcfPay1GetHk => 5,
            FunctionId::UcfPay1StopTime => 6,
            FunctionId::UcfPay1DownloadPacket => 7,
            FunctionId::UcfPay2Start => 256,
            FunctionId::UcfPay2Stop => 257,
            FunctionId::UcfPay2SetMode => 258,
            FunctionId::UcfPay2Reset => 259,
            FunctionId::UcfPay2GetStatus => 260,
            FunctionId::UcfPay2GetHk => 261,
            FunctionId::UcfPay2StopTime => 262,
            FunctionId::UcfPay2DownloadPacket => 263,
            FunctionId::UcfEpsOutputBusChannelOn => 516,
            FunctionId::UcfEpsOutputBusChannelOff => 517,
            FunctionId::UcfEpsCorrectTime => 533,
            FunctionId::UcfSystemGetHk => 768,
            FunctionId::UcfSystemReset => 769,
            FunctionId::UcfSystemSetMode => 770,
            FunctionId::UcfSystemGetStatus => 771,
            FunctionId::UcfSystemSaveConfig => 772,
            FunctionId::UcfSystemLoadConfig => 773,
            FunctionId::UcfSystemChangeTime => 774,
            FunctionId::UcfSystemCompressFile => 775,
            FunctionId::UcfSystemEndOfMission => 776,
            FunctionId::UcfSystemEndOfMission2 => 777,
            FunctionId::UcfSystemEndOfMission3 => 778,
        }
    }
}

/// Full HK_Structure_ID_Type enumeration from XTCE: normal mode (1..12),
/// safe mode (17..21), nominal mode (33..37), orbit mode (49..53) and the
/// transceiver diagnostic mode.
#[derive(Debug, Clone, Copy, PartialEq, Eq, Structural)]
pub enum HkStructureId {
    Adcs,
    EpsPbu,
    EpsPdu,
    EpsPiu,
    EpsSys,
    SolarPanels,
    Transceiver,
    EpsPcu,
    EpsPiuOcf,
    EpsPbuAbf,
    EpsParam,
    EpsObcMode,
    AdcsSm,
    EpsPbuSm,
    EpsPduSm,
    EpsPiuSm,
    EpsSysSm,
    AdcsNm,
    EpsPbuNm,
    EpsPduNm,
    EpsPiuNm,
    EpsSysNm,
    AdcsOm,
    EpsPbuOm,
    EpsPduOm,
    EpsPiuOm,
    EpsSysOm,
    TransceiverDm,
}

/// The numeric code of each value.
pub open spec fn hk_code(v: HkStructureId) -> u16 {
    match v {
        HkStructureId::Adcs => 1,
        HkStructureId::EpsPbu => 2,
        HkStructureId::EpsPdu => 3,
        HkStructureId::EpsPiu => 4,
        HkStructureId::EpsSys => 5,
        HkStructureId::SolarPanels => 6,
        HkStructureId::Transceiver => 7,
        HkStructureId::EpsPcu => 8,
        HkStructureId::EpsPiuOcf => 9,
        HkStructureId::EpsPbuAbf => 10,
        HkStructureId::EpsParam => 11,
        HkStructureId::EpsObcMode => 12,
        HkStructureId::AdcsSm => 17,
        HkStructureId::EpsPbuSm => 18,
        HkStructureId::EpsPduSm => 19,
        HkStructureId::EpsPiuSm => 20,
        HkStructureId::EpsSysSm => 21,
        HkStructureId::AdcsNm => 33,
        HkStructureId::EpsPbuNm => 34,
        HkStructureId::EpsPduNm => 35,
        HkStructureId::EpsPiuNm => 36,
        HkStructureId::EpsSysNm => 37,
        HkStructureId::AdcsOm => 49,
        HkStructureId::EpsPbuOm => 50,
        HkStructureId::EpsPduOm => 51,
        HkStructureId::EpsPiuOm => 52,
        HkStructureId::EpsSysOm => 53,
        HkStructureId::TransceiverDm => 71,
    }
}

impl HkStructureId {
    pub fn as_u16(self) -> (r: u16)
        ensures
            r == hk_code(self),
    {
        match self {
            HkStructureId::Adcs => 1,
            HkStructureId::EpsPbu => 2,
            HkStructureId::EpsPdu => 3,
            HkStructureId::EpsPiu => 4,
            HkStructureId::EpsSys => 5,
            HkStructureId::SolarPanels => 6,
            HkStructureId::Transceiver => 7,
            HkStructureId::EpsPcu => 8,
            HkStructureId::EpsPiuOcf => 9,
            HkStructureId::EpsPbuAbf => 10,
            HkStructureId::EpsParam => 11,
            HkStructureId::EpsObcMode => 12,
            HkStructureId::AdcsSm => 17,
            HkStructureId::EpsPbuSm => 18,
            HkStructureId::EpsPduSm => 19,
            HkStructureId::EpsPiuSm => 20,
            HkStructureId::EpsSysSm => 21,
            HkStructureId::AdcsNm => 33,
            HkStructureId::EpsPbuNm => 34,
            HkStructureId::EpsPduNm => 35,
            HkStructureId::EpsPiuNm => 36,
            HkStructureId::EpsSysNm => 37,
            HkStructureId::AdcsOm => 49,
            HkStructureId::EpsPbuOm => 50,
            HkStructureId::EpsPduOm => 51,
            HkStructureId::EpsPiuOm => 52,
            HkStructureId::EpsSysOm => 53,
            HkStructureId::TransceiverDm => 71,
        }
    }
}

// ---------------------------------------------------------------------------
// PUS 3-31 body entry
// ---------------------------------------------------------------------------

#[derive(Debug, Clone, Copy)]
pub struct Pus331Entry {
    pub hk_parameter_report_structure_id: u16,
    pub collection_interval: u32,
}

impl Pus331Entry {
    pub fn new(hk: HkStructureId, interval: u32) -> (r: Self)
        ensures
            r.hk_parameter_report_structure_id == hk_code(hk),
            r.collection_interval == interval,
    {
        Self { hk_parameter_report_structure_id: hk.as_u16(), collection_interval: interval }
    }
}

/// The JSON object of a PUS 3-31 entry.
pub open spec fn pus331_view(e: Pus331Entry) -> JsonView {
    JsonView::Object(
        seq![
            ("HK_Parameter_Report_Structure_ID"@, JsonView::PosInt(e.hk_parameter_report_structure_id as u64)),
            ("Collection_Interval"@, JsonView::PosInt(e.collection_interval as u64)),
        ],
    )
}

impl Pus331Entry {
    /// The entry as a JSON object (`json!(entry)`).
    pub fn to_json(&self) -> (r: JsonValue)
        ensures
            r@ == pus331_view(*self),
    {
        object2(
            "HK_Parameter_Report_Structure_ID",
            JsonValue::from_u64(self.hk_parameter_report_structure_id as u64),
            "Collection_Interval",
            JsonValue::from_u64(self.collection_interval as u64),
        )
    }
}

// ---------------------------------------------------------------------------
// PUS 20-3 body entry  (Parameter_ID + Value)
// ---------------------------------------------------------------------------

#[derive(Debug, Clone, Copy)]
pub struct Pus203Entry {
    pub parameter_id: u16,
    pub value: u32,
}

impl Pus203Entry {
    pub fn new(parameter_id: u16, value: u32) -> (r: Self)
        ensures
            r.parameter_id == parameter_id,
            r.value == value,
    {
        Self { parameter_id, value }
    }
}

/// The JSON object of a PUS 20-3 entry.
pub open spec fn pus203_view(e: Pus203Entry) -> JsonView {
    JsonView::Object(
        seq![
            ("Parameter_ID"@, JsonView::PosInt(e.parameter_id as u64)),
            ("Value"@, JsonView::PosInt(e.value as u64)),
        ],
    )
}

impl Pus203Entry {
    /// The entry as a JSON object (`json!(entry)`).
    pub fn to_json(&self) -> (r: JsonValue)
        ensures
            r@ == pus203_view(*self),
    {
        object2(
            "Parameter_ID",
            JsonValue::from_u64(self.parameter_id as u64),
            "Value",
            JsonValue::from_u64(self.value as u64),
        )
    }
}

// ---------------------------------------------------------------------------
// PUS 8-1 variable-size body entry  (array of u32 function arguments)
// ---------------------------------------------------------------------------

/// A single 32-bit word in the body of a PUS_8_1_Variable_Size command.
#[derive(Debug, Clone, Copy)]
pub struct Pus81BodyEntry {
    pub arg: u32,
}

impl Pus81BodyEntry {
    pub fn new(arg: u32) -> (r: Self)
        ensures
            r.arg == arg,
    {
        Self { arg }
    }
}

/// The JSON object of a PUS 8-1 body word.
pub open spec fn pus81_view(e: Pus81BodyEntry) -> JsonView {
    JsonView::Object(seq![("Arg"@, JsonView::PosInt(e.arg as u64))])
}

impl Pus81BodyEntry {
    /// The entry as a JSON object (`json!(entry)`).
    pub fn to_json(&self) -> (r: JsonValue)
        ensures
            r@ == pus81_view(*self),
    {
        object1("Arg", JsonValue::from_u64(self.arg as u64))
    }
}

// ---------------------------------------------------------------------------
// Helper: validate N == items.len()
// ---------------------------------------------------------------------------

/// The message of a count mismatch.
pub open spec fn count_mismatch_text(field: Seq<char>, n: nat, len: nat) -> Seq<char> {
    field + " count "@ + decimal(n) + " does not match provided items "@ + decimal(len)
}

/// `Ok` exactly when `n` is the number of items; otherwise a validation error
/// naming the field and both counts.
pub fn ensure_count_matches<T>(n: usize, items: &[T], field: &str) -> (r: Result<(), YamcsTcError>)
    ensures
        r is Ok <==> n == items@.len(),
        r matches Err(e) ==> e matches YamcsTcError::Validation(m) && m@ == count_mismatch_text(
            field@,
            n as nat,
            items@.len(),
        ),
{
    if n != items.len() {
        let mut m = concat(field, " count ");
        let a = u64_to_string(n as u64);
        m.append(a.as_str());
        m.append(" does not match provided items ");
        let b = u64_to_string(items.len() as u64);
        m.append(b.as_str());
        return Err(YamcsTcError::Validation(m));
    }
    Ok(())
}

// ---------------------------------------------------------------------------
// Range-limited integer helpers
// ---------------------------------------------------------------------------

/// The largest value of a 24-bit unsigned field.
pub const U24_MAX: u32 = 0x00FF_FFFF;

/// `value` itself when it fits in 24 bits; otherwise a validation error.
pub fn u24(value: u32) -> (r: Result<u32, YamcsTcError>)
    ensures
        value <= U24_MAX ==> r == Ok::<u32, YamcsTcError>(value),
        value > U24_MAX ==> (r matches Err(e) && e matches YamcsTcError::Validation(m)
            && m@ == "value "@ + decimal(value as nat) + " exceeds u24 range"@),
{
    if value > U24_MAX {
        let mut m = String::from_str("value ");
        let a = u64_to_string(value as u64);
        m.append(a.as_str());
        m.append(" exceeds u24 range");
        return Err(YamcsTcError::Validation(m));
    }
    Ok(value)
}

// ---------------------------------------------------------------------------
// JSON array helpers
// ---------------------------------------------------------------------------

/// The array of the HK structure codes.
pub open spec fn hk_array_view(items: Seq<HkStructureId>) -> JsonView {
    JsonView::Array(Seq::new(items.len(), |i: int| JsonView::PosInt(hk_code(items[i]) as u64)))
}

/// The array of the given 16-bit numbers.
pub open spec fn u16_array_view(items: Seq<u16>) -> JsonView {
    JsonView::Array(Seq::new(items.len(), |i: int| JsonView::PosInt(items[i] as u64)))
}

pub open spec fn pus331_array_view(items: Seq<Pus331Entry>) -> JsonView {
    JsonView::Array(Seq::new(items.len(), |i: int| pus331_view(items[i])))
}

pub open spec fn pus203_array_view(items: Seq<Pus203Entry>) -> JsonView {
    JsonView::Array(Seq::new(items.len(), |i: int| pus203_view(items[i])))
}

pub open spec fn pus81_array_view(items: Seq<Pus81BodyEntry>) -> JsonView {
    JsonView::Array(Seq::new(items.len(), |i: int| pus81_view(items[i])))
}

pub fn hk_array_value(items: &[HkStructureId]) -> (r: JsonValue)
    ensures
        r@ == hk_array_view(items@),
{
    let mut out: Vec<JsonValue> = Vec::new();
    let mut i: usize = 0;
    while i < items.len()
        invariant
            i <= items@.len(),
            items_view(out@) == Seq::new(i as nat, |k: int| JsonView::PosInt(hk_code(items@[k]) as u64)),
        decreases items@.len() - i,
    {
        push_item(&mut out, JsonValue::from_u64(items[i].as_u16() as u64));
        assert(items_view(out@) =~= Seq::new((i + 1) as nat, |k: int| JsonView::PosInt(hk_code(items@[k]) as u64)));
        i = i + 1;
    }
    JsonValue::Array(out)
}

pub fn u16_array_value(items: &[u16]) -> (r: JsonValue)
    ensures
        r@ == u16_array_view(items@),
{
    let mut out: Vec<JsonValue> = Vec::new();
    let mut i: usize = 0;
    while i < items.len()
        invariant
            i <= items@.len(),
            items_view(out@) == Seq::new(i as nat, |k: int| JsonView::PosInt(items@[k] as u64)),
        decreases items@.len() - i,
    {
        push_item(&mut out, JsonValue::from_u64(items[i] as u64));
        assert(items_view(out@) =~= Seq::new((i + 1) as nat, |k: int| JsonView::PosInt(items@[k] as u64)));
        i = i + 1;
    }
    JsonValue::Array(out)
}

pub fn pus331_array_value(items: &[Pus331Entry]) -> (r: JsonValue)
    ensures
        r@ == pus331_array_view(items@),
{
    let mut out: Vec<JsonValue> = Vec::new();
    let mut i: usize = 0;
    while i < items.len()
        invariant
            i <= items@.len(),
            items_view(out@) == Seq::new(i as nat, |k: int| pus331_view(items@[k])),
        decreases items@.len() - i,
    {
        push_item(&mut out, items[i].to_json());
        assert(items_view(out@) =~= Seq::new((i + 1) as nat, |k: int| pus331_view(items@[k])));
        i = i + 1;
    }
    JsonValue::Array(out)
}

pub fn pus203_array_value(items: &[Pus203Entry]) -> (r: JsonValue)
    ensures
        r@ == pus203_array_view(items@),
{
    let mut out: Vec<JsonValue> = Vec::new();
    let mut i: usize = 0;
    while i < items.len()
        invariant
            i <= items@.len(),
            items_view(out@) == Seq::new(i as nat, |k: int| pus203_view(items@[k])),
        decreases items@.len() - i,
    {
        push_item(&mut out, items[i].to_json());
        assert(items_view(out@) =~= Seq::new((i + 1) as nat, |k: int| pus203_view(items@[k])));
        i = i + 1;
    }
    JsonValue::Array(out)
}

pub fn pus81_body_array_value(items: &[Pus81BodyEntry]) -> (r: JsonValue)
    ensures
        r@ == pus81_array_view(items@),
{
    let mut out: Vec<JsonValue> = Vec::new();
    let mut i: usize = 0;
    while i < items.len()
        invariant
            i <= items@.len(),
            items_view(out@) == Seq::new(i as nat, |k: int| pus81_view(items@[k])),
        decreases items@.len() - i,
    {
        push_item(&mut out, items[i].to_json());
        assert(items_view(out@) =~= Seq::new((i + 1) as nat, |k: int| pus81_view(items@[k])));
        i = i + 1;
    }
    JsonValue::Array(out)
}

} // verus!
