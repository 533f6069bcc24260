use grid::ai::{build_prompt, extract_csv, failure_message};

#[test]
fn the_prompt_holds_sheet_and_instruction() {
    let p = build_prompt("a,b\n", "add a total");
    assert!(p.starts_with("You are editing a spreadsheet. Below is the current sheet as CSV (RFC 4180;"));
    assert!(p.contains("return the COMPLETE resulting sheet.\nRules:\n- A cell starting with `=`"));
    assert!(p.contains("a line `<<<CSV` and a line `CSV>>>`. No text before or after.\n\n"));
    assert!(p.ends_with("INSTRUCTION: add a total\n\n<<<CSV\na,b\nCSV>>>\n"));
}

#[test]
fn marked_replies() {
    assert_eq!(extract_csv("Sure!\n<<<CSV\n1,2\n3,4\nCSV>>>\nDone."), Some("1,2\n3,4".to_string()));
    assert_eq!(
        extract_csv("<<<CSV\nold\nCSV>>> no: <<<CSV\nnew\nCSV>>>"),
        Some("new".to_string())
    );
    assert_eq!(extract_csv("<<<CSV\nCSV>>>"), Some(String::new()));
    assert_eq!(
        extract_csv("caf\u{e9} <<<CSV\u{e9}CSV>>> CSV>>>"),
        Some("\u{e9}".to_string())
    );
}

#[test]
fn fenced_replies() {
    assert_eq!(extract_csv("here:\n```csv\na,b\n```\n"), Some("a,b".to_string()));
    assert_eq!(extract_csv("```\na\n```"), Some("a".to_string()));
    assert_eq!(extract_csv("```x``` y"), Some("x".to_string()));
    assert_eq!(extract_csv("<<<CSV\nlost ```\nkept\n```"), Some("kept".to_string()));
}

#[test]
fn other_replies() {
    assert_eq!(extract_csv("  a,b \n"), Some("a,b".to_string()));
    assert_eq!(extract_csv(" \n\t"), None);
    assert_eq!(extract_csv(""), None);
    assert_eq!(extract_csv("``` open"), Some("``` open".to_string()));
}

#[test]
fn failures() {
    assert_eq!(failure_message("ai", " no key \n", "out"), "ai failed: no key");
    assert_eq!(failure_message("ai", " \n", " quota\n"), "ai failed: quota");
    let long = "x".repeat(300);
    assert_eq!(failure_message("ai", "", &long), format!("ai failed: {}", "x".repeat(200)));
}
