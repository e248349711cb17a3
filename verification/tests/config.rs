use shard::config::{
    apply_preset, build_config_from_args, check_dpi_input, clean_path_input, default_output_path,
    preset_at, AppConfig, OutputFormat, Preset, TARGET_HIGH, TARGET_LOW, TARGET_MEDIUM,
};

fn usable() -> AppConfig {
    build_config_from_args(b"/in".to_vec(), b"/out".to_vec(), 150, false)
}

#[test]
fn targets_are_the_bits_of_their_numbers() {
    assert_eq!(f64::from_bits(TARGET_MEDIUM), 85.0);
    assert_eq!(f64::from_bits(TARGET_HIGH), 92.0);
    assert_eq!(f64::from_bits(TARGET_LOW), 75.0);
}

#[test]
fn default_settings_are_those_of_the_program() {
    let c = AppConfig::default();
    assert!(c.source_path.is_empty() && c.output_path.is_empty());
    assert_eq!(c.format, OutputFormat::Webp);
    assert_eq!((c.dpi, c.quality, c.svg_precision), (150, 75, 4));
    assert!(c.adaptive_encoding && c.svg_strip_background);
    assert!(!c.svg_no_text && !c.overwrite);
    assert_eq!(f64::from_bits(c.quality_target), 85.0);
}

#[test]
fn arguments_become_settings() {
    let c = build_config_from_args(b"/in".to_vec(), b"/out".to_vec(), 120, true);
    assert_eq!(c.source_path, b"/in");
    assert_eq!(c.output_path, b"/out");
    assert_eq!(c.dpi, 120);
    assert!(c.overwrite);
    assert_eq!(c.quality, 75);
}

#[test]
fn usable_settings_have_no_errors() {
    assert!(usable().validate(true, true).is_empty());
}

#[test]
fn source_path_is_checked() {
    let mut c = usable();
    assert_eq!(c.validate(false, false), vec!["Source path does not exist: /in"]);
    assert_eq!(c.validate(true, false), vec!["Source path is not a directory: /in"]);
    c.source_path = vec![];
    assert_eq!(c.validate(false, false), vec!["Source path is not set"]);
}

#[test]
fn all_errors_are_listed_in_order() {
    let mut c = usable();
    c.source_path = vec![];
    c.output_path = vec![];
    c.dpi = 89;
    c.quality = 0;
    assert_eq!(
        c.validate(false, false),
        vec![
            "Source path is not set",
            "Output path is not set",
            "DPI must be between 90 and 200",
            "Quality must be between 1 and 100",
        ]
    );
}

#[test]
fn ranges_hold_at_their_ends() {
    let mut c = usable();
    for (dpi, ok) in [(89, false), (90, true), (200, true), (201, false)] {
        c.dpi = dpi;
        assert_eq!(c.validate(true, true).is_empty(), ok);
    }
    c.dpi = 150;
    for (q, ok) in [(0, false), (1, true), (100, true), (101, false)] {
        c.quality = q;
        assert_eq!(c.validate(true, true).is_empty(), ok);
    }
    c.format = OutputFormat::Svg;
    for (p, ok) in [(0, false), (1, true), (10, true), (11, false)] {
        c.svg_precision = p;
        let errors = c.validate(true, true);
        assert_eq!(errors.is_empty(), ok);
        if !ok {
            assert_eq!(errors, vec!["SVG precision must be between 1 and 10"]);
        }
    }
}

#[test]
fn typed_paths_are_cleaned() {
    assert_eq!(clean_path_input("  '/my files'  \n"), "/my files");
    assert_eq!(clean_path_input("/a b"), "/a b");
    assert_eq!(clean_path_input("' /a '"), " /a ");
    assert_eq!(clean_path_input("  "), "");
}

#[test]
fn output_is_proposed_beside_the_source() {
    assert_eq!(default_output_path(b"/data/pdfs"), b"/data/webp-output");
    assert_eq!(default_output_path(b"pdfs"), b"webp-output");
    assert_eq!(default_output_path(b"/"), b"/webp-output");
    assert_eq!(default_output_path(b""), b"webp-output");
}

#[test]
fn typed_resolutions_are_checked() {
    assert_eq!(check_dpi_input(" 150 "), Ok(()));
    assert_eq!(check_dpi_input("50"), Ok(()));
    assert_eq!(check_dpi_input("300"), Ok(()));
    assert_eq!(check_dpi_input("49"), Err("DPI must be between 50 and 300"));
    assert_eq!(check_dpi_input("301"), Err("DPI must be between 50 and 300"));
    assert_eq!(check_dpi_input("many"), Err("Please enter a number"));
}

#[test]
fn presets_set_resolution_and_target() {
    let levels: Vec<_> = (0..5).map(preset_at).collect();
    assert_eq!(
        levels,
        vec![
            Some(Preset::Medium),
            Some(Preset::High),
            Some(Preset::Low),
            Some(Preset::Custom),
            None
        ]
    );
    for (preset, input, dpi, target) in [
        (Preset::Medium, "", 150, 85.0),
        (Preset::High, "", 200, 92.0),
        (Preset::Low, "", 90, 75.0),
        (Preset::Custom, " 72 ", 72, 85.0),
        (Preset::Custom, "x", 150, 85.0),
    ] {
        let mut c = usable();
        c.adaptive_encoding = false;
        apply_preset(&mut c, preset, input);
        assert_eq!(c.dpi, dpi);
        assert!(c.adaptive_encoding);
        assert_eq!(f64::from_bits(c.quality_target), target);
        assert_eq!(c.source_path, b"/in");
    }
}
