use amdtelem::dashboard::{error_line, error_panel_height, is_quit_key, ErrorSource};

#[test]
fn error_lines_carry_their_source() {
    assert_eq!(error_line(ErrorSource::Hwmon, "temp1_input not found"), "[hwmon error] temp1_input not found");
    assert_eq!(error_line(ErrorSource::PmInfo, "x"), "[pm error] x");
    assert_eq!(error_line(ErrorSource::GemInfo, ""), "[gem error] ");
    assert_eq!(error_line(ErrorSource::Mclk, "MCLK not found in amdgpu_pm_info"), "[mclk error] MCLK not found in amdgpu_pm_info");
}

#[test]
fn quit_on_q_press_only() {
    assert!(is_quit_key(true, Some('q')));
    assert!(!is_quit_key(false, Some('q')));
    assert!(!is_quit_key(true, Some('Q')));
    assert!(!is_quit_key(true, None));
}

#[test]
fn error_panel_rows() {
    assert_eq!(error_panel_height(&vec![]), 0);
    assert_eq!(error_panel_height(&vec!["[pm error] x".to_string()]), 3);
    assert_eq!(error_panel_height(&vec!["a".to_string(), "b".to_string()]), 3);
}
