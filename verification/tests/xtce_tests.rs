//! Tests of the XTCE enumerations, the range and count checks, and the
//! graphics and calendar helpers.
use rust_and_vulkan::beacon::days_since_epoch;
use rust_and_vulkan::error::YamcsTcError;
use rust_and_vulkan::graphics::{append_mesh_indices, batch_meshes, pack_color, spirv_words, DrawRange, Error, Format, GraphicsContext, MemoryType};
use rust_and_vulkan::json::JsonValue;
use rust_and_vulkan::xtce_types::{
    ensure_count_matches, hk_array_value, pus203_array_value, pus81_body_array_value, u24,
    FunctionId, HkStructureId, Pus203Entry, Pus331Entry, Pus81BodyEntry,
};
use rust_and_vulkan::commands::Commands;

#[test]
fn function_and_hk_codes() {
    assert_eq!(FunctionId::UcfPay1Start.as_u16(), 0);
    assert_eq!(FunctionId::UcfPay2DownloadPacket.as_u16(), 263);
    assert_eq!(FunctionId::UcfEpsCorrectTime.as_u16(), 533);
    assert_eq!(FunctionId::UcfSystemEndOfMission3.as_u16(), 778);
    assert_eq!(HkStructureId::EpsObcMode.as_u16(), 12);
    assert_eq!(HkStructureId::TransceiverDm.as_u16(), 71);
}

#[test]
fn u24_range() {
    assert_eq!(u24(0xFF_FFFF).unwrap(), 0xFF_FFFF);
    let err = u24(0x100_0000).unwrap_err();
    assert!(matches!(err, YamcsTcError::Validation(m) if m == "value 16777216 exceeds u24 range"));
    let cmd = Commands::pus_8_1_pay_2_stop_time_id(0x100_0000);
    assert!(matches!(cmd, Err(YamcsTcError::Validation(_))));
}

#[test]
fn count_mismatch_message() {
    assert!(ensure_count_matches(2, &[1u8, 2], "X").is_ok());
    let err = ensure_count_matches(3, &[1u8, 2], "EventID").unwrap_err();
    assert!(matches!(err, YamcsTcError::Validation(m) if m == "EventID count 3 does not match provided items 2"));
    assert_eq!(err_text(YamcsTcError::Verification("x".to_string())), "telemetry verification failed: x");
}

fn err_text(e: YamcsTcError) -> String {
    e.message()
}

#[test]
fn entry_objects() {
    let e = Pus331Entry::new(HkStructureId::EpsSys, 10).to_json();
    assert!(matches!(e.get("HK_Parameter_Report_Structure_ID"), Some(JsonValue::PosInt(5))));
    assert!(matches!(e.get("Collection_Interval"), Some(JsonValue::PosInt(10))));
    let a = pus203_array_value(&[Pus203Entry::new(7, 9)]);
    let first = &a.as_array().unwrap()[0];
    assert!(matches!(first.get("Parameter_ID"), Some(JsonValue::PosInt(7))));
    assert!(matches!(first.get("Value"), Some(JsonValue::PosInt(9))));
    let b = pus81_body_array_value(&[Pus81BodyEntry::new(1), Pus81BodyEntry::new(2)]);
    assert!(matches!(b.as_array().unwrap()[1].get("Arg"), Some(JsonValue::PosInt(2))));
    let h = hk_array_value(&[HkStructureId::AdcsOm]);
    assert!(matches!(h.as_array().unwrap()[0], JsonValue::PosInt(49)));
}

#[test]
fn more_commands() {
    let c = Commands::pus_8_1_variable_size(775, vec![Pus81BodyEntry::new(4)]).unwrap();
    assert_eq!(c.name, "PUS_8_1_Variable_Size");
    assert!(matches!(c.args.get("N"), Some(JsonValue::PosInt(1))));
    assert!(matches!(c.args.get("Function_ID"), Some(JsonValue::PosInt(775))));
    let c = Commands::pus_21_2(3, "/flash0", "seq.bin");
    assert!(matches!(c.args.get("Repository_Path"), Some(JsonValue::Str(p)) if p == "/flash0"));
    assert_eq!(c.description.as_deref(), Some("Load sequence by file reference"));
    let c = Commands::pus_8_1_system_compress_file("/flash0/hk.bin");
    assert_eq!(c.name, "PUS_8_1__SYSTEM_COMPRESS_FILE");
    let c = Commands::pus_20_3(vec![Pus203Entry::new(1, 2), Pus203Entry::new(3, 4)]).unwrap();
    assert!(matches!(c.args.get("N"), Some(JsonValue::PosInt(2))));
    let c = Commands::pus_4_1(1);
    assert!(matches!(c.args.get("Reset_Flag"), Some(JsonValue::PosInt(1))));
}

#[test]
fn epoch_day_counts() {
    assert_eq!(days_since_epoch(1970, 1, 1), Some(0));
    assert_eq!(days_since_epoch(2000, 3, 1), Some(11017));
    assert_eq!(days_since_epoch(2024, 2, 29), Some(19782));
    assert_eq!(days_since_epoch(1969, 12, 31), Some(-1));
    assert_eq!(days_since_epoch(2000, 1, 1), Some(10957));
    let a = days_since_epoch(2000, 3, 1).unwrap();
    let b = days_since_epoch(1970, 1, 1).unwrap();
    assert_eq!(a - b, 11017);
}

#[test]
fn vulkan_formats_and_memory_types() {
    assert_eq!(Format::Rgba8Unorm.to_vk_format(), 37);
    assert_eq!(Format::Depth32Float.to_vk_format(), 126);
    let ctx = GraphicsContext::new(1, 2, 3, 4, 5, 6, vec![0x1, 0x6, 0xE]).unwrap();
    assert_eq!(ctx.find_memory_type(MemoryType::GpuOnly).unwrap(), 0);
    assert_eq!(ctx.find_memory_type(MemoryType::CpuMapped).unwrap(), 1);
    assert_eq!(ctx.find_memory_type(MemoryType::CpuCached).unwrap(), 2);
    let ctx = GraphicsContext::new(1, 2, 3, 4, 5, 6, vec![0x1]).unwrap();
    assert!(matches!(ctx.find_memory_type(MemoryType::CpuCached), Err(Error::Unsupported)));
    assert_eq!(Error::Vulkan("x".to_string()).message(), "Vulkan error: x");
    assert!(GraphicsContext::new(1, 2, 3, 4, 5, 6, vec![0; 33]).is_err());
}

#[test]
fn spirv_word_decoding() {
    let w = spirv_words(&[0x03, 0x02, 0x23, 0x07, 1, 0, 0, 0], "a.spv").unwrap();
    assert_eq!(w, vec![0x0723_0203, 1]);
    assert_eq!(spirv_words(&[1, 2, 3], "b.spv").unwrap_err(), "SPIR-V file not u32-aligned: b.spv");
}

#[test]
fn ui_vertex_colours_and_index_batches() {
    assert_eq!(pack_color(0x01, 0x02, 0x03, 0x04), 0x0403_0201);
    assert_eq!(pack_color(255, 0, 0, 255), 0xFF00_00FF);
    let mut indices = vec![0u32, 1, 2];
    let d = append_mesh_indices(&mut indices, 3, &[0, 1, 2, 2, 1, 3]);
    assert_eq!(d, DrawRange { first_index: 3, index_count: 6 });
    assert_eq!(indices, vec![0, 1, 2, 3, 4, 5, 5, 4, 6]);
}

#[test]
fn ui_meshes_batch_into_draws() {
    let meshes = vec![(3usize, vec![0u32, 1, 2]), (4, vec![]), (2, vec![0, 1, 1])];
    let (indices, draws) = batch_meshes(&meshes);
    assert_eq!(indices, vec![0, 1, 2, 3, 4, 4]);
    assert_eq!(
        draws,
        vec![
            DrawRange { first_index: 0, index_count: 3 },
            DrawRange { first_index: 3, index_count: 3 },
        ]
    );
}
