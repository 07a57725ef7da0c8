//! Prepared PUS telecommands: the command name, its JSON arguments and a
//! description, as the mission database expects them.
use vstd::prelude::*;
use crate::error::YamcsTcError;
use crate::json::{JsonValue, JsonView, object1, object2, object3};
use crate::xtce_types::{
    HkStructureId, Pus331Entry, Pus203Entry, Pus81BodyEntry, U24_MAX, u24, hk_code,
    ensure_count_matches, hk_array_value, hk_array_view, u16_array_value, u16_array_view,
    pus331_array_value, pus331_array_view, pus203_array_value, pus203_array_view,
    pus81_body_array_value, pus81_array_view,
};

verus! {

broadcast use vstd::string::group_string_axioms;

#[derive(Debug)]
pub struct PreparedCommand {
    pub name: String,
    pub args: JsonValue,
    pub description: Option<String>,
}

impl PreparedCommand {
    pub fn new(name: &str, args: JsonValue) -> (r: Self)
        ensures
            r.name@ == name@,
            r.args@ == args@,
            r.description is None,
    {
        Self { name: String::from_str(name), args, description: None }
    }

    pub fn with_description(self, text: &str) -> (r: Self)
        ensures
            r.name@ == self.name@,
            r.args@ == self.args@,
            r.description matches Some(d) && d@ == text@,
    {
        Self { name: self.name, args: self.args, description: Some(String::from_str(text)) }
    }
}

/// `cmd` is the command `name` with arguments `args` and description `desc`.
pub open spec fn prepared(cmd: PreparedCommand, name: Seq<char>, args: JsonView, desc: Seq<char>) -> bool {
    &&& cmd.name@ == name
    &&& cmd.args@ == args
    &&& cmd.description matches Some(d) && d@ == desc
}

pub struct Commands;

impl Commands {
    pub fn pus_17_1() -> (r: PreparedCommand)
        ensures
            prepared(r, "PUS_17_1"@, JsonView::Object(Seq::empty()), "Are-you-alive request"@),
    {
        PreparedCommand::new("PUS_17_1", JsonValue::empty_object()).with_description("Are-you-alive request")
    }

    pub fn pus_8_1(function_id: u16) -> (r: PreparedCommand)
        ensures
            prepared(r, "PUS_8_1"@, JsonView::Object(seq![("Function_ID"@, JsonView::PosInt(function_id as u64))]), "Generic PUS 8-1 command"@),
    {
        PreparedCommand::new("PUS_8_1", object1("Function_ID", JsonValue::from_u64(function_id as u64))).with_description("Generic PUS 8-1 command")
    }

    pub fn pus_8_1_eps_output_bus_channel_on(channel_id: u8) -> (r: PreparedCommand)
        ensures
            prepared(r, "PUS_8_1_EPS_OUTPUT_BUS_CHANNEL_ON"@, JsonView::Object(seq![("Channel_ID"@, JsonView::PosInt(channel_id as u64))]), "Turn on EPS output bus channel"@),
    {
        PreparedCommand::new("PUS_8_1_EPS_OUTPUT_BUS_CHANNEL_ON", object1("Channel_ID", JsonValue::from_u64(channel_id as u64))).with_description("Turn on EPS output bus channel")
    }

    pub fn pus_8_1_eps_output_bus_channel_off(channel_id: u8) -> (r: PreparedCommand)
        ensures
            prepared(r, "PUS_8_1_EPS_OUTPUT_BUS_CHANNEL_OFF"@, JsonView::Object(seq![("Channel_ID"@, JsonView::PosInt(channel_id as u64))]), "Turn off EPS output bus channel"@),
    {
        PreparedCommand::new("PUS_8_1_EPS_OUTPUT_BUS_CHANNEL_OFF", object1("Channel_ID", JsonValue::from_u64(channel_id as u64))).with_description("Turn off EPS output bus channel")
    }

    pub fn pus_8_1_system_change_time(unix_time: u32) -> (r: PreparedCommand)
        ensures
            prepared(r, "PUS_8_1_SYSTEM_CHANGE_TIME"@, JsonView::Object(seq![("Time"@, JsonView::PosInt(unix_time as u64))]), "Update spacecraft UNIX time"@),
    {
        PreparedCommand::new("PUS_8_1_SYSTEM_CHANGE_TIME", object1("Time", JsonValue::from_u64(unix_time as u64))).with_description("Update spacecraft UNIX time")
    }

    pub fn pus_8_1_eps_correct_time(delta_seconds: i32) -> (r: PreparedCommand)
        ensures
            prepared(r, "PUS_8_1_EPS_CORRECT_TIME"@, JsonView::Object(seq![("Time"@, (if delta_seconds < 0 { JsonView::NegInt(delta_seconds as i64) } else { JsonView::PosInt(delta_seconds as u64) }))]), "Correct EPS time"@),
    {
        PreparedCommand::new("PUS_8_1_EPS_CORRECT_TIME", object1("Time", JsonValue::from_i64(delta_seconds as i64))).with_description("Correct EPS time")
    }

    /// Fails with the validation error of [`u24`] when the stop time does not fit in 24 bits.
    pub fn pus_8_1_pay_1_stop_time_id(stop_time: u32) -> (r: Result<PreparedCommand, YamcsTcError>)
        ensures
            stop_time <= U24_MAX ==> (r matches Ok(c) && prepared(
                c,
                "PUS_8_1_PAY1_STOP_TIME_ID"@,
                JsonView::Object(seq![("Stop_Time"@, JsonView::PosInt(stop_time as u64))]),
                "Set payload 1 stop time"@,
            )),
            stop_time > U24_MAX ==> (r matches Err(e) && e is Validation),
    {
        let t = u24(stop_time)?;
        Ok(PreparedCommand::new("PUS_8_1_PAY1_STOP_TIME_ID", object1("Stop_Time", JsonValue::from_u64(t as u64))).with_description("Set payload 1 stop time"))
    }

    /// Fails with the validation error of [`u24`] when the stop time does not fit in 24 bits.
    pub fn pus_8_1_pay_2_stop_time_id(stop_time: u32) -> (r: Result<PreparedCommand, YamcsTcError>)
        ensures
            stop_time <= U24_MAX ==> (r matches Ok(c) && prepared(
                c,
                "PUS_8_1_PAY2_STOP_TIME_ID"@,
                JsonView::Object(seq![("Stop_Time"@, JsonView::PosInt(stop_time as u64))]),
                "Set payload 2 stop time"@,
            )),
            stop_time > U24_MAX ==> (r matches Err(e) && e is Validation),
    {
        let t = u24(stop_time)?;
        Ok(PreparedCommand::new("PUS_8_1_PAY2_STOP_TIME_ID", object1("Stop_Time", JsonValue::from_u64(t as u64))).with_description("Set payload 2 stop time"))
    }

    pub fn pus_8_1_pay_1_download_exp(packet_id: u32) -> (r: PreparedCommand)
        ensures
            prepared(r, "PUS_8_1_PAY1_DOWNLOAD_EXP"@, JsonView::Object(seq![("PacketID"@, JsonView::PosInt(packet_id as u64))]), "Download payload 1 experiment packet"@),
    {
        PreparedCommand::new("PUS_8_1_PAY1_DOWNLOAD_EXP", object1("PacketID", JsonValue::from_u64(packet_id as u64))).with_description("Download payload 1 experiment packet")
    }

    pub fn pus_8_1_pay_2_download_exp(packet_id: u32) -> (r: PreparedCommand)
        ensures
            prepared(r, "PUS_8_1_PAY2_DOWNLOAD_EXP"@, JsonView::Object(seq![("PacketID"@, JsonView::PosInt(packet_id as u64))]), "Download payload 2 experiment packet"@),
    {
        PreparedCommand::new("PUS_8_1_PAY2_DOWNLOAD_EXP", object1("PacketID", JsonValue::from_u64(packet_id as u64))).with_description("Download payload 2 experiment packet")
    }

    pub fn pus_8_1_end_of_mission() -> (r: PreparedCommand)
        ensures
            prepared(r, "PUS_8_1_END_OF_MISSION"@, JsonView::Object(Seq::empty()), "End of mission"@),
    {
        PreparedCommand::new("PUS_8_1_END_OF_MISSION", JsonValue::empty_object()).with_description("End of mission")
    }

    pub fn pus_8_1_end_of_mission_2(decrypted_val: u64) -> (r: PreparedCommand)
        ensures
            prepared(r, "PUS_8_1_END_OF_MISSION_2"@, JsonView::Object(seq![("DecryptedVal"@, JsonView::PosInt(decrypted_val as u64))]), "End of mission 2 with decryption"@),
    {
        PreparedCommand::new("PUS_8_1_END_OF_MISSION_2", object1("DecryptedVal", JsonValue::from_u64(decrypted_val as u64))).with_description("End of mission 2 with decryption")
    }

    pub fn pus_8_1_end_of_mission_3(decrypted_val: u64) -> (r: PreparedCommand)
        ensures
            prepared(r, "PUS_8_1_END_OF_MISSION_3"@, JsonView::Object(seq![("DecryptedVal"@, JsonView::PosInt(decrypted_val as u64))]), "End of mission 3 with decryption"@),
    {
        PreparedCommand::new("PUS_8_1_END_OF_MISSION_3", object1("DecryptedVal", JsonValue::from_u64(decrypted_val as u64))).with_description("End of mission 3 with decryption")
    }

    pub fn pus_3_31(entries: Vec<Pus331Entry>) -> (r: Result<PreparedCommand, YamcsTcError>)
        ensures
            r matches Ok(c) && prepared(c, "PUS_3_31"@, JsonView::Object(seq![("N"@, JsonView::PosInt(entries@.len() as u64)), ("PUS_3_31_Body"@, pus331_array_view(entries@))]), "Change HK collection intervals"@),
    {
        let n = entries.len();
        ensure_count_matches(n, entries.as_slice(), "PUS331Body")?;
        Ok(PreparedCommand::new("PUS_3_31", object2("N", JsonValue::from_u64(n as u64), "PUS_3_31_Body", pus331_array_value(entries.as_slice()))).with_description("Change HK collection intervals"))
    }

    pub fn pus_3_33(hk_ids: Vec<HkStructureId>) -> (r: Result<PreparedCommand, YamcsTcError>)
        ensures
            r matches Ok(c) && prepared(c, "PUS_3_33"@, JsonView::Object(seq![("N"@, JsonView::PosInt(hk_ids@.len() as u64)), ("HK_Structure_ID"@, hk_array_view(hk_ids@))]), "Query HK collection interval information"@),
    {
        let n = hk_ids.len();
        ensure_count_matches(n, hk_ids.as_slice(), "HK_Structure_ID")?;
        Ok(PreparedCommand::new("PUS_3_33", object2("N", JsonValue::from_u64(n as u64), "HK_Structure_ID", hk_array_value(hk_ids.as_slice()))).with_description("Query HK collection interval information"))
    }

    pub fn pus_5_5(event_ids: Vec<u16>) -> (r: Result<PreparedCommand, YamcsTcError>)
        ensures
            r matches Ok(c) && prepared(c, "PUS_5_5"@, JsonView::Object(seq![("N"@, JsonView::PosInt(event_ids@.len() as u64)), ("Event_ID"@, u16_array_view(event_ids@))]), "Enable event reports"@),
    {
        let n = event_ids.len();
        ensure_count_matches(n, event_ids.as_slice(), "EventID")?;
        Ok(PreparedCommand::new("PUS_5_5", object2("N", JsonValue::from_u64(n as u64), "Event_ID", u16_array_value(event_ids.as_slice()))).with_description("Enable event reports"))
    }

    pub fn pus_5_6(event_ids: Vec<u16>) -> (r: Result<PreparedCommand, YamcsTcError>)
        ensures
            r matches Ok(c) && prepared(c, "PUS_5_6"@, JsonView::Object(seq![("N"@, JsonView::PosInt(event_ids@.len() as u64)), ("Event_ID"@, u16_array_view(event_ids@))]), "Disable event reports"@),
    {
        let n = event_ids.len();
        ensure_count_matches(n, event_ids.as_slice(), "EventID")?;
        Ok(PreparedCommand::new("PUS_5_6", object2("N", JsonValue::from_u64(n as u64), "Event_ID", u16_array_value(event_ids.as_slice()))).with_description("Disable event reports"))
    }

    pub fn pus_24_1(hk: HkStructureId, parameter_ids: Vec<u16>) -> (r: Result<PreparedCommand, YamcsTcError>)
        ensures
            r matches Ok(c) && prepared(c, "PUS_24_1"@, JsonView::Object(seq![("HK_Structure_ID"@, JsonView::PosInt(hk_code(hk) as u64)), ("N"@, JsonView::PosInt(parameter_ids@.len() as u64)), ("Parameter_ID"@, u16_array_view(parameter_ids@))]), "Enable parameter collection for HK structure"@),
    {
        let n = parameter_ids.len();
        ensure_count_matches(n, parameter_ids.as_slice(), "ParameterID")?;
        Ok(PreparedCommand::new("PUS_24_1", object3("HK_Structure_ID", JsonValue::from_u64(hk.as_u16() as u64), "N", JsonValue::from_u64(n as u64), "Parameter_ID", u16_array_value(parameter_ids.as_slice()))).with_description("Enable parameter collection for HK structure"))
    }

    pub fn pus_24_2(hk: HkStructureId, parameter_ids: Vec<u16>) -> (r: Result<PreparedCommand, YamcsTcError>)
        ensures
            r matches Ok(c) && prepared(c, "PUS_24_2"@, JsonView::Object(seq![("HK_Structure_ID"@, JsonView::PosInt(hk_code(hk) as u64)), ("N"@, JsonView::PosInt(parameter_ids@.len() as u64)), ("Parameter_ID"@, u16_array_view(parameter_ids@))]), "Disable parameter collection for HK structure"@),
    {
        let n = parameter_ids.len();
        ensure_count_matches(n, parameter_ids.as_slice(), "ParameterID")?;
        Ok(PreparedCommand::new("PUS_24_2", object3("HK_Structure_ID", JsonValue::from_u64(hk.as_u16() as u64), "N", JsonValue::from_u64(n as u64), "Parameter_ID", u16_array_value(parameter_ids.as_slice()))).with_description("Disable parameter collection for HK structure"))
    }

    pub fn pus_24_3(hk: HkStructureId) -> (r: PreparedCommand)
        ensures
            prepared(r, "PUS_24_3"@, JsonView::Object(seq![("HK_Structure_ID"@, JsonView::PosInt(hk_code(hk) as u64))]), "Query active parameters for HK structure"@),
    {
        PreparedCommand::new("PUS_24_3", object1("HK_Structure_ID", JsonValue::from_u64(hk.as_u16() as u64))).with_description("Query active parameters for HK structure")
    }

    /// PUS 4-1: Request statistics report for all HK parameters.
    ///
    /// `reset_flag` — 0 = do not reset, 1 = reset after reporting.
    pub fn pus_4_1(reset_flag: u8) -> (r: PreparedCommand)
        ensures
            prepared(r, "PUS_4_1"@, JsonView::Object(seq![("Reset_Flag"@, JsonView::PosInt(reset_flag as u64))]), "Request statistics report for all HK parameters"@),
    {
        PreparedCommand::new("PUS_4_1", object1("Reset_Flag", JsonValue::from_u64(reset_flag as u64))).with_description("Request statistics report for all HK parameters")
    }

    /// PUS 4-3: Reset all statistics data.
    pub fn pus_4_3() -> (r: PreparedCommand)
        ensures
            prepared(r, "PUS_4_3"@, JsonView::Object(Seq::empty()), "Reset all HK statistics data"@),
    {
        PreparedCommand::new("PUS_4_3", JsonValue::empty_object()).with_description("Reset all HK statistics data")
    }

    /// PUS 4-4: Enable periodic statistics reporting.
    ///
    /// `reporting_interval` — interval in seconds (uint32).
    pub fn pus_4_4(reporting_interval: u32) -> (r: PreparedCommand)
        ensures
            prepared(r, "PUS_4_4"@, JsonView::Object(seq![("Reporting_Interval"@, JsonView::PosInt(reporting_interval as u64))]), "Enable periodic HK statistics reporting"@),
    {
        PreparedCommand::new("PUS_4_4", object1("Reporting_Interval", JsonValue::from_u64(reporting_interval as u64))).with_description("Enable periodic HK statistics reporting")
    }

    /// PUS 4-5: Stop periodic statistics reporting.
    pub fn pus_4_5() -> (r: PreparedCommand)
        ensures
            prepared(r, "PUS_4_5"@, JsonView::Object(Seq::empty()), "Stop periodic HK statistics reporting"@),
    {
        PreparedCommand::new("PUS_4_5", JsonValue::empty_object()).with_description("Stop periodic HK statistics reporting")
    }

    /// PUS 5-7: Request list of disabled event reports.
    pub fn pus_5_7() -> (r: PreparedCommand)
        ensures
            prepared(r, "PUS_5_7"@, JsonView::Object(Seq::empty()), "Request list of disabled event reports"@),
    {
        PreparedCommand::new("PUS_5_7", JsonValue::empty_object()).with_description("Request list of disabled event reports")
    }

    /// PUS 8-1 variable-size: Function call with N + 32-bit argument array.
    ///
    /// `function_id` — 16-bit function identifier.
    /// `body` — variable-length list of 32-bit function arguments.
    pub fn pus_8_1_variable_size(function_id: u16, body: Vec<Pus81BodyEntry>) -> (r: Result<PreparedCommand, YamcsTcError>)
        ensures
            r matches Ok(c) && prepared(c, "PUS_8_1_Variable_Size"@, JsonView::Object(seq![("Function_ID"@, JsonView::PosInt(function_id as u64)), ("N"@, JsonView::PosInt(body@.len() as u64)), ("PUS_8_1_Body"@, pus81_array_view(body@))]), "PUS 8-1 variable-size function call"@),
    {
        let n = body.len();
        ensure_count_matches(n, body.as_slice(), "PUS_8_1_Body")?;
        Ok(PreparedCommand::new("PUS_8_1_Variable_Size", object3("Function_ID", JsonValue::from_u64(function_id as u64), "N", JsonValue::from_u64(n as u64), "PUS_8_1_Body", pus81_body_array_value(body.as_slice()))).with_description("PUS 8-1 variable-size function call"))
    }

    /// PUS 8-1 SYSTEM_COMPRESS_FILE: Compress a file on the spacecraft.
    ///
    /// `file_src` — path to the source file (e.g. "/flash0/hk.bin").
    pub fn pus_8_1_system_compress_file(file_src: &str) -> (r: PreparedCommand)
        ensures
            prepared(r, "PUS_8_1__SYSTEM_COMPRESS_FILE"@, JsonView::Object(seq![("FileSrc"@, JsonView::Str(file_src@))]), "Compress file on spacecraft"@),
    {
        PreparedCommand::new("PUS_8_1__SYSTEM_COMPRESS_FILE", object1("FileSrc", JsonValue::from_str(file_src))).with_description("Compress file on spacecraft")
    }

    /// PUS 20-1: Get parameter values.
    ///
    /// `parameter_ids` — list of 16-bit Parameter_ID values to read.
    pub fn pus_20_1(parameter_ids: Vec<u16>) -> (r: Result<PreparedCommand, YamcsTcError>)
        ensures
            r matches Ok(c) && prepared(c, "PUS_20_1"@, JsonView::Object(seq![("N"@, JsonView::PosInt(parameter_ids@.len() as u64)), ("Parameter_ID"@, u16_array_view(parameter_ids@))]), "Get parameter values"@),
    {
        let n = parameter_ids.len();
        ensure_count_matches(n, parameter_ids.as_slice(), "Parameter_ID")?;
        Ok(PreparedCommand::new("PUS_20_1", object2("N", JsonValue::from_u64(n as u64), "Parameter_ID", u16_array_value(parameter_ids.as_slice()))).with_description("Get parameter values"))
    }

    /// PUS 20-3: Set parameter values.
    ///
    /// `entries` — list of (Parameter_ID, Value) pairs to write.
    pub fn pus_20_3(entries: Vec<Pus203Entry>) -> (r: Result<PreparedCommand, YamcsTcError>)
        ensures
            r matches Ok(c) && prepared(c, "PUS_20_3"@, JsonView::Object(seq![("N"@, JsonView::PosInt(entries@.len() as u64)), ("TC_20_3_Body"@, pus203_array_view(entries@))]), "Set parameter values"@),
    {
        let n = entries.len();
        ensure_count_matches(n, entries.as_slice(), "TC_20_3_Body")?;
        Ok(PreparedCommand::new("PUS_20_3", object2("N", JsonValue::from_u64(n as u64), "TC_20_3_Body", pus203_array_value(entries.as_slice()))).with_description("Set parameter values"))
    }

    /// PUS 21-1 (base): Load an inline sequence header.
    ///
    /// `sequence_id` — 16-bit sequence identifier.
    /// `n` — number of commands in the sequence (u8).
    pub fn pus_21_1_base(sequence_id: u16, n: u8) -> (r: PreparedCommand)
        ensures
            prepared(r, "PUS_21_1_Base"@, JsonView::Object(seq![("Sequence_ID"@, JsonView::PosInt(sequence_id as u64)), ("N"@, JsonView::PosInt(n as u64))]), "Load inline sequence header"@),
    {
        PreparedCommand::new("PUS_21_1_Base", object2("Sequence_ID", JsonValue::from_u64(sequence_id as u64), "N", JsonValue::from_u64(n as u64))).with_description("Load inline sequence header")
    }

    /// PUS 21-2: Load sequence by file reference.
    ///
    /// `sequence_id` — 16-bit sequence identifier.
    /// `repository_path` — path on the spacecraft filesystem (e.g. "/flash0").
    /// `file_name` — file name within the repository path.
    pub fn pus_21_2(sequence_id: u16, repository_path: &str, file_name: &str) -> (r: PreparedCommand)
        ensures
            prepared(r, "PUS_21_2"@, JsonView::Object(seq![("Sequence_ID"@, JsonView::PosInt(sequence_id as u64)), ("Repository_Path"@, JsonView::Str(repository_path@)), ("File_Name"@, JsonView::Str(file_name@))]), "Load sequence by file reference"@),
    {
        PreparedCommand::new("PUS_21_2", object3("Sequence_ID", JsonValue::from_u64(sequence_id as u64), "Repository_Path", JsonValue::from_str(repository_path), "File_Name", JsonValue::from_str(file_name))).with_description("Load sequence by file reference")
    }

    /// PUS 21-3: Unload sequence.
    pub fn pus_21_3(sequence_id: u16) -> (r: PreparedCommand)
        ensures
            prepared(r, "PUS_21_3"@, JsonView::Object(seq![("Sequence_ID"@, JsonView::PosInt(sequence_id as u64))]), "Unload sequence"@),
    {
        PreparedCommand::new("PUS_21_3", object1("Sequence_ID", JsonValue::from_u64(sequence_id as u64))).with_description("Unload sequence")
    }

    /// PUS 21-4: Activate (execute) sequence.
    pub fn pus_21_4(sequence_id: u16) -> (r: PreparedCommand)
        ensures
            prepared(r, "PUS_21_4"@, JsonView::Object(seq![("Sequence_ID"@, JsonView::PosInt(sequence_id as u64))]), "Activate sequence"@),
    {
        PreparedCommand::new("PUS_21_4", object1("Sequence_ID", JsonValue::from_u64(sequence_id as u64))).with_description("Activate sequence")
    }

    /// PUS 21-5: Hold (pause) sequence.
    pub fn pus_21_5(sequence_id: u16) -> (r: PreparedCommand)
        ensures
            prepared(r, "PUS_21_5"@, JsonView::Object(seq![("Sequence_ID"@, JsonView::PosInt(sequence_id as u64))]), "Hold (pause) sequence"@),
    {
        PreparedCommand::new("PUS_21_5", object1("Sequence_ID", JsonValue::from_u64(sequence_id as u64))).with_description("Hold (pause) sequence")
    }

    /// PUS 21-6: Resume sequence.
    pub fn pus_21_6() -> (r: PreparedCommand)
        ensures
            prepared(r, "PUS_21_6"@, JsonView::Object(Seq::empty()), "Resume sequence"@),
    {
        PreparedCommand::new("PUS_21_6", JsonValue::empty_object()).with_description("Resume sequence")
    }

    /// PUS 21-13: Abort sequence.
    pub fn pus_21_13() -> (r: PreparedCommand)
        ensures
            prepared(r, "PUS_21_13"@, JsonView::Object(Seq::empty()), "Abort sequence"@),
    {
        PreparedCommand::new("PUS_21_13", JsonValue::empty_object()).with_description("Abort sequence")
    }
}

} // verus!
