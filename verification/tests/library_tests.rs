use script_lang::error::{error_report, CompilerError};
use script_lang::literal::{is_float_text, parse_bool, parse_i64};
use script_lang::scope_manager::ScopeManager;
use script_lang::traits::{JsonNumber, JsonValue, Size};

#[test]
fn i64_text_agrees_with_the_standard_parser() {
    for s in ["0", "42", "-7", "+5", "", "-", "+", "1a", "9223372036854775807", "9223372036854775808",
        "-9223372036854775808", "-9223372036854775809", "007", " 1", "12345678901234567890123"] {
        assert_eq!(parse_i64(s), s.parse::<i64>().ok(), "{}", s);
    }
}

#[test]
fn i64_text_reads_the_smallest_value() {
    assert_eq!(parse_i64("-9223372036854775808"), Some(i64::MIN));
}

#[test]
fn float_text_agrees_with_the_standard_parser() {
    for s in ["1", "1.", ".5", "1.5", "1e5", "1E-5", "1e", "e5", ".", "1.2.3", "inf", "-Infinity", "NaN",
        "+nan", "infin", "1e+", "-.5e3", "", "+", "1_0", "0x10"] {
        assert_eq!(is_float_text(s), s.parse::<f64>().is_ok(), "{}", s);
    }
}

#[test]
fn bool_text_is_true_or_false() {
    assert_eq!(parse_bool("true"), Some(true));
    assert_eq!(parse_bool("false"), Some(false));
    assert_eq!(parse_bool("True"), None);
}

#[test]
fn error_report_renders_one_message() {
    colored::control::set_override(false);
    let r = error_report("error", 2, 3, "f.sc", "a\nbcde\n", "boom");
    assert_eq!(r, "error: boom\n  --> f.sc:2:3\n2 |   bcde  \n   |     ^  \n");
}

#[test]
fn error_report_without_the_line_has_only_the_head() {
    colored::control::set_override(false);
    let r = error_report("warning", 9, 1, "f.sc", "a", "late");
    assert_eq!(r, "warning: late\n  --> f.sc:9:1\n");
}

#[test]
fn compiler_error_renders_groups_and_notes() {
    colored::control::set_override(false);
    let mut e = CompilerError::new();
    e.add_group_message("note", vec![(1, 1), (2, 2)], "two places");
    e.add_child_message(0, "note", "see here");
    e.add_child_message(0, "other", "plain");
    e.add_child_message(5, "note", "ignored");
    e.add_message("odd", 1, 2, "info level");
    let r = e.format_error_string("g.sc", "xy\nzw");
    assert_eq!(
        r,
        "note: two places\n  --> g.sc:1:1\n1 |   xy  \n   |   ^  \n2 |   zw  \n   |    ^  \n  = note: see here\n  = info: plain\ninfo: info level\n  --> g.sc:1:2\n1 |   xy  \n   |    ^  \n"
    );
}

#[test]
fn error_report_is_coloured_when_asked() {
    colored::control::set_override(true);
    let r = error_report("error", 1, 1, "f.sc", "", "x");
    assert!(r.starts_with("\u{1b}[1;31merror\u{1b}[0m: x"));
    colored::control::unset_override();
}

#[test]
fn set_then_get_gives_the_value() {
    let mut m: ScopeManager<i64> = ScopeManager::new();
    m.create_scope();
    assert!(m.set_variable("a".to_string(), 3).is_ok());
    assert_eq!(m.get_variable("a"), Some(3));
    assert!(m.set_variable("a".to_string(), 4).is_ok());
    assert_eq!(m.get_variable("a"), Some(4));
}

#[test]
fn setting_one_name_keeps_the_others() {
    let mut m: ScopeManager<i64> = ScopeManager::new();
    m.create_scope();
    m.set_variable("a".to_string(), 1).unwrap();
    m.set_variable("b".to_string(), 2).unwrap();
    assert_eq!(m.get_variable("a"), Some(1));
    assert_eq!(m.get_variable("c"), None);
}

#[test]
fn a_new_scope_sees_the_outer_one_and_shadows_it() {
    let mut m: ScopeManager<i64> = ScopeManager::new();
    m.create_scope();
    m.set_variable("a".to_string(), 1).unwrap();
    m.create_scope();
    assert_eq!(m.get_variable("a"), Some(1));
    m.set_variable("a".to_string(), 2).unwrap();
    assert_eq!(m.get_variable("a"), Some(2));
    m.destroy_scope();
    assert_eq!(m.get_variable("a"), Some(1));
}

#[test]
fn a_closed_scope_forgets_its_names() {
    let mut m: ScopeManager<i64> = ScopeManager::new();
    m.create_scope();
    m.create_scope();
    m.set_variable("t".to_string(), 9).unwrap();
    m.destroy_scope();
    assert_eq!(m.get_variable("t"), None);
}

#[test]
fn a_new_manager_has_one_scope() {
    let mut m: ScopeManager<i64> = ScopeManager::new();
    assert!(m.set_variable("a".to_string(), 1).is_ok());
    assert_eq!(m.get_variable("a"), Some(1));
}

#[test]
fn setting_without_a_scope_is_refused() {
    let mut m: ScopeManager<i64> = ScopeManager::new();
    m.destroy_scope();
    assert_eq!(m.set_variable("a".to_string(), 1), Err("No scope exists".to_string()));
    m.destroy_scope();
    assert_eq!(m.get_variable("a"), None);
}

#[test]
fn json_sizes_follow_the_kinds() {
    assert_eq!(JsonValue::Null.size(), 0);
    assert_eq!(JsonValue::Bool(true).size(), std::mem::size_of::<bool>());
    assert_eq!(JsonValue::Number(JsonNumber::PosInt(u64::MAX)).size(), 8);
    assert_eq!(JsonValue::Number(JsonNumber::NegInt(-1)).size(), 8);
    assert_eq!(JsonValue::Number(JsonNumber::Float("1.5".to_string())).size(), 8);
    assert_eq!(JsonValue::String("héllo".to_string()).size(), std::mem::size_of::<String>() + 6);
    let arr = JsonValue::Array(vec![JsonValue::Null, JsonValue::Bool(false)]);
    assert_eq!(arr.size(), std::mem::size_of::<Vec<serde_json::Value>>() + 1);
    let obj = JsonValue::Object(vec![("ab".to_string(), arr)]);
    assert_eq!(
        obj.size(),
        std::mem::size_of::<serde_json::Map<String, serde_json::Value>>() + 2
            + std::mem::size_of::<Vec<serde_json::Value>>() + 1
    );
}
