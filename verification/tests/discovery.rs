use amdtelem::discover::{
    first_hwmon_dir, gpu_name_brackets_reversed, is_amd_vendor, is_card_name, lspci_device_name,
    pci_slot_name, select_card, short_gpu_name, short_slot,
};
use amdtelem::severity::{load_severity, temp_severity, Severity};

#[test]
fn card_names() {
    assert!(is_card_name("card0"));
    assert!(is_card_name("card12"));
    assert!(is_card_name("card"));
    assert!(!is_card_name("card0-DP-1"));
    assert!(!is_card_name("renderD128"));
    assert!(!is_card_name("car"));
    assert!(!is_card_name("card١"));
}

#[test]
fn amd_vendor() {
    assert!(is_amd_vendor("0x1002\n"));
    assert!(is_amd_vendor("  0x1002"));
    assert!(!is_amd_vendor("0x10de\n"));
    assert!(!is_amd_vendor("0x10021"));
    assert!(!is_amd_vendor(""));
}

#[test]
fn card_with_most_vram() {
    assert_eq!(select_card(&vec![]), None);
    assert_eq!(select_card(&vec![512]), Some(0));
    assert_eq!(select_card(&vec![512, 24_000, 8_000]), Some(1));
    assert_eq!(select_card(&vec![8, 16, 16, 2]), Some(2));
}

#[test]
fn hwmon_dir() {
    let names = vec![Some("device".to_string()), None, Some("hwmon3".to_string()), Some("hwmon4".to_string())];
    assert_eq!(first_hwmon_dir(&names), Some(2));
    assert_eq!(first_hwmon_dir(&vec![Some("hwmo".to_string())]), None);
    assert_eq!(first_hwmon_dir(&vec![]), None);
}

#[test]
fn pci_slot_from_uevent() {
    let uevent = "DRIVER=amdgpu\nPCI_CLASS=30000\nPCI_SLOT_NAME=0000:03:00.0\r\nMODALIAS=pci:v1002\n";
    assert_eq!(pci_slot_name(uevent), Some("0000:03:00.0".to_string()));
    assert_eq!(pci_slot_name("DRIVER=amdgpu\n"), None);
    assert_eq!(pci_slot_name(" PCI_SLOT_NAME=x\nPCI_SLOT_NAME=y"), Some("y".to_string()));
}

#[test]
fn slot_without_domain() {
    assert_eq!(short_slot("0000:03:00.0"), "03:00.0");
    assert_eq!(short_slot("03.0"), "03.0");
    assert_eq!(short_slot(":x"), "x");
}

#[test]
fn lspci_description() {
    let out = "03:00.0 VGA compatible controller: Advanced Micro Devices, Inc. [AMD/ATI] Navi 31 [Radeon RX 7900 XT/7900 XTX/7900 GRE/7900M] (rev c8)\n";
    let name = lspci_device_name(out).unwrap();
    assert_eq!(
        name,
        "Advanced Micro Devices, Inc. [AMD/ATI] Navi 31 [Radeon RX 7900 XT/7900 XTX/7900 GRE/7900M] (rev c8)"
    );
    assert!(!gpu_name_brackets_reversed(&name));
    assert_eq!(short_gpu_name(&name), "Radeon RX 7900 XT/7900 XTX/7900 GRE/7900M");
    assert_eq!(lspci_device_name("only: one colon"), None);
    assert_eq!(lspci_device_name(""), None);
}

#[test]
fn short_names() {
    assert_eq!(short_gpu_name("Plain Name"), "Plain Name");
    assert_eq!(short_gpu_name("Open [only"), "Open [only");
    assert_eq!(short_gpu_name("[]"), "");
    assert!(gpu_name_brackets_reversed("a] b [c"));
    assert!(!gpu_name_brackets_reversed("a [b] c"));
}

#[test]
fn temperature_bands() {
    assert_eq!(temp_severity(0), Severity::Normal);
    assert_eq!(temp_severity(60), Severity::Normal);
    assert_eq!(temp_severity(61), Severity::Elevated);
    assert_eq!(temp_severity(85), Severity::Elevated);
    assert_eq!(temp_severity(86), Severity::Critical);
}

#[test]
fn load_bands() {
    assert_eq!(load_severity(40), Severity::Normal);
    assert_eq!(load_severity(41), Severity::Elevated);
    assert_eq!(load_severity(80), Severity::Elevated);
    assert_eq!(load_severity(81), Severity::Critical);
    assert_eq!(load_severity(u64::MAX), Severity::Critical);
}

#[test]
fn bands_are_monotone_on_values() {
    let rank = |s: Severity| match s {
        Severity::Normal => 0,
        Severity::Elevated => 1,
        Severity::Critical => 2,
    };
    for a in 0..120u64 {
        assert!(rank(temp_severity(a)) <= rank(temp_severity(a + 1)));
        assert!(rank(load_severity(a)) <= rank(load_severity(a + 1)));
    }
}
