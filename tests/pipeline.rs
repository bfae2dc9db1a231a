use nano::pipeline::{is_source_file, next_stage, tool_for, BuildStage, Tool};

#[test]
fn install_failure_stops_before_bundle() {
    let s = next_stage(BuildStage::Install, Some(1));
    assert_eq!(s, BuildStage::Failed { code: 1 });
    assert_eq!(tool_for(s), None);
    assert_eq!(next_stage(s, Some(0)), s);
}

#[test]
fn signal_kill_reports_minus_one() {
    assert_eq!(
        next_stage(BuildStage::Bundle, None),
        BuildStage::Failed { code: -1 }
    );
}

#[test]
fn successful_build_order() {
    assert_eq!(tool_for(BuildStage::Install), Some(Tool::Installer));
    let s = next_stage(BuildStage::Install, Some(0));
    assert_eq!(s, BuildStage::Bundle);
    assert_eq!(tool_for(s), Some(Tool::Bundler));
    let s = next_stage(s, Some(0));
    assert_eq!(s, BuildStage::Cleanup);
    assert_eq!(tool_for(s), None);
}

#[test]
fn source_extensions() {
    assert!(is_source_file(&"ts".to_string()));
    assert!(is_source_file(&"tsx".to_string()));
    assert!(is_source_file(&"scss".to_string()));
    assert!(!is_source_file(&"js".to_string()));
    assert!(!is_source_file(&"css".to_string()));
}
