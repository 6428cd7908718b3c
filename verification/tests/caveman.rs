use contribai::analysis::caveman::{
    caveman_system_prompt, CavemanMode, AUTO_CLARITY, BOUNDARIES, PREAMBLE, RULES_FULL,
    RULES_LITE, RULES_ULTRA,
};

#[test]
fn test_off_returns_none() {
    assert!(caveman_system_prompt(CavemanMode::Off).is_none());
}

#[test]
fn test_lite_returns_prompt() {
    let prompt = caveman_system_prompt(CavemanMode::Lite).unwrap();
    assert!(prompt.contains("OUTPUT COMPRESSION"));
    assert!(prompt.contains("Intensity: lite"));
    assert!(prompt.contains("Keep articles and full sentences"));
}

#[test]
fn test_full_returns_prompt() {
    let prompt = caveman_system_prompt(CavemanMode::Full).unwrap();
    assert!(prompt.contains("Intensity: full"));
    assert!(prompt.contains("Drop articles, fragments OK"));
}

#[test]
fn test_ultra_returns_prompt() {
    let prompt = caveman_system_prompt(CavemanMode::Ultra).unwrap();
    assert!(prompt.contains("Intensity: ultra"));
    assert!(prompt.contains("Abbreviate"));
    assert!(prompt.contains("arrows for causality"));
}

#[test]
fn test_auto_clarity_present() {
    for mode in [CavemanMode::Lite, CavemanMode::Full, CavemanMode::Ultra] {
        let prompt = caveman_system_prompt(mode).unwrap();
        assert!(
            prompt.contains("Auto-Clarity"),
            "Auto-Clarity missing for {}",
            mode.to_string()
        );
    }
}

#[test]
fn test_boundaries_present() {
    for mode in [CavemanMode::Lite, CavemanMode::Full, CavemanMode::Ultra] {
        let prompt = caveman_system_prompt(mode).unwrap();
        assert!(
            prompt.contains("Boundaries"),
            "Boundaries missing for {}",
            mode.to_string()
        );
    }
}

#[test]
fn test_is_active() {
    assert!(!CavemanMode::Off.is_active());
    assert!(CavemanMode::Lite.is_active());
    assert!(CavemanMode::Full.is_active());
    assert!(CavemanMode::Ultra.is_active());
}

#[test]
fn test_display() {
    assert_eq!(CavemanMode::Off.to_string(), "off");
    assert_eq!(CavemanMode::Lite.to_string(), "lite");
    assert_eq!(CavemanMode::Full.to_string(), "full");
    assert_eq!(CavemanMode::Ultra.to_string(), "ultra");
}

#[test]
fn test_default_is_off() {
    assert_eq!(CavemanMode::default(), CavemanMode::Off);
}

#[test]
fn prompt_is_assembled_from_its_sections() {
    let cases = [
        (CavemanMode::Lite, "lite", RULES_LITE),
        (CavemanMode::Full, "full", RULES_FULL),
        (CavemanMode::Ultra, "ultra", RULES_ULTRA),
    ];
    for (mode, name, rules) in cases {
        let expected = format!(
            "{}\n\n## Intensity: {}\n\n{}\n\n{}\n\n{}",
            PREAMBLE, name, rules, AUTO_CLARITY, BOUNDARIES
        );
        assert_eq!(caveman_system_prompt(mode).unwrap(), expected);
    }
}

#[test]
fn prompt_starts_with_preamble_and_ends_with_boundaries() {
    for mode in [CavemanMode::Lite, CavemanMode::Full, CavemanMode::Ultra] {
        let prompt = caveman_system_prompt(mode).unwrap();
        assert!(prompt.starts_with(PREAMBLE));
        assert!(prompt.ends_with(BOUNDARIES));
    }
}

#[test]
fn mode_names_are_distinct() {
    let modes = [
        CavemanMode::Off,
        CavemanMode::Lite,
        CavemanMode::Full,
        CavemanMode::Ultra,
    ];
    for a in modes {
        for b in modes {
            assert_eq!(a == b, a.to_string() == b.to_string());
        }
    }
}

#[test]
fn prompts_hold_only_their_own_rules() {
    let lite = caveman_system_prompt(CavemanMode::Lite).unwrap();
    let full = caveman_system_prompt(CavemanMode::Full).unwrap();
    let ultra = caveman_system_prompt(CavemanMode::Ultra).unwrap();
    assert!(lite != full && full != ultra && lite != ultra);
    assert!(!lite.contains("Drop articles, fragments OK") && !lite.contains("Abbreviate"));
    assert!(!full.contains("Keep articles and full sentences") && !full.contains("Abbreviate"));
    assert!(
        !ultra.contains("Keep articles and full sentences")
            && !ultra.contains("Drop articles, fragments OK")
    );
    for (prompt, name) in [(&lite, "lite"), (&full, "full"), (&ultra, "ultra")] {
        assert!(prompt.starts_with("OUTPUT COMPRESSION"));
        assert_eq!(prompt.matches("Intensity: ").count(), 1);
        assert!(prompt.contains(&format!("## Intensity: {}", name)));
    }
}
