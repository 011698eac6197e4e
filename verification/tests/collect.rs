use amdtelem::telem::{
    mclk_from_pm_info, GpuTelemetry, HwmonError, HwmonReadings, MclkError, TelemetryData,
};

fn full_readings() -> HwmonReadings {
    HwmonReadings {
        temp1_input: Some(37000),
        power1_average: Some(38_000_000),
        power1_input: Some(40_000_000),
        freq1_input: Some(85_000_000),
        in0_input: Some(629),
        in1_input: None,
        temp2_input: Some(49000),
        temp3_input: Some(50000),
        fan1_input: Some(0),
    }
}

const PM_INFO: &str = "GFX Clocks and Power:\n\t772 MHz (MCLK)\n\t85 MHz (SCLK)\n\t13.24 W (current SoC including CPU)\n\nGPU Temperature: 37 C\nGPU Load: 12 %\nVCN Load: 3 %\n";

const GEM_INFO: &str = "pid     9032 command kgx:\n\t0x00000001:      2097152 byte VRAM NO_CPU_ACCESS\npid     3403 command gnome-shell:\n\t0x00000002:      4096 byte GTT\n";

#[test]
fn blank_data_on_init() {
    let t = GpuTelemetry::init("RX 7900".to_string());
    assert_eq!(t.get_gpu_name(), "RX 7900");
    assert_eq!(t.data.edge_temp_mc, 0);
    assert!(t.data.gem_clients.is_empty());
    assert_eq!(t.data.vddnb_mv, None);
    let d = TelemetryData::default();
    assert_eq!(d.mclk_mhz, 0);
    assert!(d.last_errors.is_empty());
}

#[test]
fn hwmon_full_round() {
    let mut t = GpuTelemetry::init("gpu".to_string());
    assert!(t.collect_hwmon(&full_readings()).is_ok());
    assert_eq!(t.data.edge_temp_mc, 37000);
    assert_eq!(t.data.power_avg_uw, 38_000_000);
    assert_eq!(t.data.sclk_mhz, 85);
    assert_eq!(t.data.vddgfx_mv, 629);
    assert_eq!(t.data.vddnb_mv, None);
    assert_eq!(t.data.junction_temp_mc, Some(49000));
    assert_eq!(t.data.memory_temp_mc, Some(50000));
    assert_eq!(t.data.fan_rpm, Some(0));
}

#[test]
fn hwmon_power_falls_back_to_input() {
    let mut t = GpuTelemetry::init("gpu".to_string());
    let mut r = full_readings();
    r.power1_average = None;
    assert!(t.collect_hwmon(&r).is_ok());
    assert_eq!(t.data.power_avg_uw, 40_000_000);
}

#[test]
fn hwmon_missing_edge_temp_changes_nothing() {
    let mut t = GpuTelemetry::init("gpu".to_string());
    let mut r = full_readings();
    r.temp1_input = None;
    assert!(matches!(t.collect_hwmon(&r), Err(HwmonError::MissingEdgeTemp)));
    assert_eq!(t.data.power_avg_uw, 0);
    assert_eq!(t.data.junction_temp_mc, None);
}

#[test]
fn hwmon_missing_power_keeps_later_fields() {
    let mut t = GpuTelemetry::init("gpu".to_string());
    let mut r = full_readings();
    r.power1_average = None;
    r.power1_input = None;
    assert!(matches!(t.collect_hwmon(&r), Err(HwmonError::MissingPower)));
    assert_eq!(t.data.edge_temp_mc, 37000);
    assert_eq!(t.data.sclk_mhz, 0);
    assert_eq!(t.data.fan_rpm, None);
}

#[test]
fn hwmon_missing_clock_and_voltage() {
    let mut t = GpuTelemetry::init("gpu".to_string());
    let mut r = full_readings();
    r.freq1_input = None;
    assert!(matches!(t.collect_hwmon(&r), Err(HwmonError::MissingShaderClock)));
    assert_eq!(t.data.power_avg_uw, 38_000_000);
    let mut r = full_readings();
    r.in0_input = None;
    assert!(matches!(t.collect_hwmon(&r), Err(HwmonError::MissingVddgfx)));
    assert_eq!(t.data.sclk_mhz, 85);
    assert_eq!(t.data.memory_temp_mc, None);
}

#[test]
fn pm_info_loads_and_soc_tokens() {
    let mut t = GpuTelemetry::init("gpu".to_string());
    let soc = t.collect_pm_info(PM_INFO);
    assert_eq!(soc, vec!["13.24".to_string()]);
    assert_eq!(t.data.gpu_load_pct, 12);
    assert_eq!(t.data.vcn_load_pct, 3);
    assert_eq!(t.data.mclk_mhz, 0);
}

#[test]
fn pm_info_bad_reading_keeps_old_value() {
    let mut t = GpuTelemetry::init("gpu".to_string());
    t.data.gpu_load_pct = 55;
    t.data.vcn_load_pct = 9;
    let soc = t.collect_pm_info("GPU Load: n/a\nVCN Load:\n");
    assert!(soc.is_empty());
    assert_eq!(t.data.gpu_load_pct, 55);
    assert_eq!(t.data.vcn_load_pct, 9);
}

#[test]
fn pm_info_last_line_wins_and_repeated_label() {
    let mut t = GpuTelemetry::init("gpu".to_string());
    t.collect_pm_info("GPU Load: 10 %\nGPU Load:GPU Load: 20 %\nGPU Load: x\n");
    assert_eq!(t.data.gpu_load_pct, 20);
}

#[test]
fn pm_info_sclk_line_takes_precedence() {
    let mut t = GpuTelemetry::init("gpu".to_string());
    let soc = t.collect_pm_info("GPU Load: 77 (SCLK)\n 5 W current SoC including CPU (SCLK)\n");
    assert!(soc.is_empty());
    assert_eq!(t.data.gpu_load_pct, 0);
}

#[test]
fn pm_info_crlf_lines() {
    let mut t = GpuTelemetry::init("gpu".to_string());
    let soc = t.collect_pm_info("VCN Load: 4 %\r\n  2.5 W (current SoC including CPU)\r\n");
    assert_eq!(t.data.vcn_load_pct, 4);
    assert_eq!(soc, vec!["2.5".to_string()]);
}

#[test]
fn mclk_prefers_hwmon() {
    let mut t = GpuTelemetry::init("gpu".to_string());
    assert!(t.collect_mclk(Some(772_000_000), Some("1 MHz (MCLK)\n")).is_ok());
    assert_eq!(t.data.mclk_mhz, 772);
}

#[test]
fn mclk_from_dri_fallback() {
    let mut t = GpuTelemetry::init("gpu".to_string());
    assert!(t.collect_mclk(None, Some(PM_INFO)).is_ok());
    assert_eq!(t.data.mclk_mhz, 772);
}

#[test]
fn mclk_errors_keep_old_value() {
    let mut t = GpuTelemetry::init("gpu".to_string());
    t.data.mclk_mhz = 5;
    assert!(matches!(t.collect_mclk(None, None), Err(MclkError::PmInfoUnreadable)));
    assert!(matches!(t.collect_mclk(None, Some("nothing\n")), Err(MclkError::NotFound)));
    match t.collect_mclk(None, Some("  fast (MCLK) \n")) {
        Err(MclkError::UnparsableLine(l)) => assert_eq!(l, "fast (MCLK)"),
        _ => panic!("expected an unparsable line"),
    }
    assert_eq!(t.data.mclk_mhz, 5);
}

#[test]
fn mclk_first_matching_line() {
    assert!(matches!(mclk_from_pm_info("x\n 10 MHz (MCLK)\n20 MHz (MCLK)\n"), Ok(10)));
    assert!(matches!(mclk_from_pm_info(""), Err(MclkError::NotFound)));
}

#[test]
fn gem_clients_from_text() {
    let mut t = GpuTelemetry::init("gpu".to_string());
    t.collect_gem_info(GEM_INFO);
    let c: Vec<(u32, String)> =
        t.data.gem_clients.iter().map(|c| (c.pid, c.command.clone())).collect();
    assert_eq!(c, vec![(9032, "kgx".to_string()), (3403, "gnome-shell".to_string())]);
}

#[test]
fn gem_clients_replaced_each_round() {
    let mut t = GpuTelemetry::init("gpu".to_string());
    t.collect_gem_info(GEM_INFO);
    t.collect_gem_info("pid 1 command a::\n");
    assert_eq!(t.data.gem_clients.len(), 1);
    assert_eq!(t.data.gem_clients[0].pid, 1);
    assert_eq!(t.data.gem_clients[0].command, "a");
}

#[test]
fn gem_lines_that_name_no_client() {
    let mut t = GpuTelemetry::init("gpu".to_string());
    t.collect_gem_info("pid 12 command\npid: 3 command x:\npid -4 command y:\npid 4294967296 command z:\npidx 5 c w:\n");
    assert!(t.data.gem_clients.is_empty());
}

#[test]
fn gem_concat_law_on_values() {
    let a = "pid 1 command a:\n";
    let b = "pid 2 command b:\n";
    let mut t1 = GpuTelemetry::init("gpu".to_string());
    t1.collect_gem_info(&format!("{}{}", a, b));
    let mut t2 = GpuTelemetry::init("gpu".to_string());
    t2.collect_gem_info(a);
    let mut first: Vec<u32> = t2.data.gem_clients.iter().map(|c| c.pid).collect();
    t2.collect_gem_info(b);
    first.extend(t2.data.gem_clients.iter().map(|c| c.pid));
    let all: Vec<u32> = t1.data.gem_clients.iter().map(|c| c.pid).collect();
    assert_eq!(all, first);
}
