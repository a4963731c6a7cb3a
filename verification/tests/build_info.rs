use herdr::build_info::{build_id, channel, is_preview, non_empty, version, BuildStamp};

const BASE_VERSION: &str = "0.1.0";

fn stamp(channel: Option<&'static str>, build_id: Option<&'static str>) -> BuildStamp {
    BuildStamp { base_version: BASE_VERSION, channel, build_id }
}

#[test]
fn stable_version_defaults_to_cargo_version() {
    assert!(!version(&stamp(None, None)).is_empty());
}

#[test]
fn stable_version_with_build_id_appends_stamp() {
    for s in [stamp(None, None), stamp(None, Some("20260814.1")), stamp(Some("preview"), Some("abc"))] {
        let v = version(&s);
        assert!(v.starts_with(BASE_VERSION));
        if let Some(build_id) = build_id(&s) {
            assert!(v.contains(build_id), "version {v:?} missing build_id {build_id:?}");
        }
    }
}

#[test]
fn version_formats_per_channel() {
    assert_eq!(version(&stamp(None, None)), "0.1.0");
    assert_eq!(version(&stamp(Some("stable"), Some("b7"))), "0.1.0-b7");
    assert_eq!(version(&stamp(Some("preview"), None)), "0.1.0-preview");
    assert_eq!(version(&stamp(Some("preview"), Some("b7"))), "0.1.0-preview.b7");
}

#[test]
fn blank_settings_count_as_absent_and_are_trimmed() {
    assert_eq!(non_empty(Some("   ")), None);
    assert_eq!(non_empty(None), None);
    assert_eq!(non_empty(Some("  preview\t")), Some("preview"));
    assert_eq!(non_empty(Some("\u{3000}b1\u{85}\u{2028}")), Some("b1"));
    assert_eq!(non_empty(Some("\u{200B}")), Some("\u{200B}"));
    assert_eq!(channel(&stamp(Some(" \n "), None)), "stable");
    assert_eq!(channel(&stamp(Some("  preview  "), None)), "preview");
    assert!(is_preview(&stamp(Some(" preview "), None)));
    assert!(!is_preview(&stamp(None, None)));
    assert_eq!(build_id(&stamp(None, Some("  "))), None);
}
