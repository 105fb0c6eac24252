use hytale_backup::log_filter::{detect_log_level, should_filter_line, LogLevel};

#[test]
fn test_filter_disabled() {
    assert!(!should_filter_line("INFO] Some message", false));
    assert!(!should_filter_line("-=|Setup|50.0", false));
}

#[test]
fn test_filter_info_lines() {
    assert!(should_filter_line("INFO] Some message", true));
    assert!(should_filter_line("[2026-01-14] INFO] Test", true));
}

#[test]
fn test_filter_setup_lines() {
    assert!(should_filter_line("=|Setup|7.000000000000001", true));
    assert!(should_filter_line("-=|Setup|9.0", true));
    assert!(should_filter_line("-=|Setup|10.0", true));
}

#[test]
fn test_filter_shutdown_lines() {
    assert!(should_filter_line("-=|Shutdown Modules|86.0", true));
    assert!(should_filter_line("=|Shutdown Modules|88.0", true));
}

#[test]
fn test_keep_error_lines() {
    assert!(!should_filter_line("ERROR] Something went wrong", true));
}

#[test]
fn test_keep_warn_lines() {
    assert!(!should_filter_line("WARN] Warning message", true));
}

#[test]
fn test_detect_log_level() {
    assert_eq!(detect_log_level("ERROR] Test"), LogLevel::Error);
    assert_eq!(detect_log_level("WARN] Test"), LogLevel::Warning);
    assert_eq!(detect_log_level("INFO] Test"), LogLevel::Info);
    assert_eq!(detect_log_level("Some other line"), LogLevel::Info);
}

#[test]
fn noise_examples_are_hidden_and_errors_are_kept() {
    assert!(should_filter_line("[INFO] started", true));
    assert!(!should_filter_line("[ERROR] failed", true));
    assert!(should_filter_line("-=|Setup|9.0", true));
}

#[test]
fn nothing_is_hidden_while_filtering_is_off() {
    for line in ["", "INFO]", "[INFO] started", "=|Setup|1", "-=|Shutdown Modules|3", "plain"] {
        assert!(!should_filter_line(line, false));
    }
}

#[test]
fn classification_is_repeatable() {
    for line in ["ERROR and WARN", "WARN only", "nothing", "", "ERRO", "xxWARNxx"] {
        assert_eq!(detect_log_level(line), detect_log_level(line));
        assert_eq!(should_filter_line(line, true), should_filter_line(line, true));
    }
}

#[test]
fn error_wins_over_warning() {
    assert_eq!(detect_log_level("WARN then ERROR"), LogLevel::Error);
    assert_eq!(detect_log_level("ERRO WAR"), LogLevel::Info);
    assert_eq!(detect_log_level("xxWARNxx"), LogLevel::Warning);
}

#[test]
fn markers_are_found_anywhere_in_the_line() {
    assert!(should_filter_line("12:00 [x] =|Shutdown Modules|100.0 done", true));
    assert!(!should_filter_line("=|Setup", true));
    assert!(!should_filter_line("INFO", true));
    assert!(!should_filter_line("", true));
    assert!(should_filter_line("héllo INFO] wörld", true));
}
