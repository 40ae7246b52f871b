use notes_kit::tasks::is_planning_text;

#[test]
fn test_is_planning_text() {
    assert!(is_planning_text("CLOSED: [2025-12-17 mer. 11:30]"));
    assert!(is_planning_text("SCHEDULED: <2025-12-18>"));
    assert!(is_planning_text("DEADLINE: <2025-12-20>"));
    assert!(!is_planning_text("Some regular paragraph."));
    assert!(!is_planning_text("CLOCK: [2025-12-17]"));
}

use notes_kit::tasks::{clock_minutes, sum_clock_minutes};
use orgize::ast::Headline;
use orgize::Org;

#[test]
fn test_sum_clock_minutes_single() {
    let content = "* DONE Task\n:LOGBOOK:\nCLOCK: [2025-12-17 mer. 11:00]--[2025-12-17 mer. 11:15] =>  0:15\n:END:\n";
    let org = Org::parse(content);
    let hdl = org.first_node::<Headline>().unwrap();
    assert_eq!(sum_clock_minutes(&hdl), Some(15));
}

#[test]
fn test_sum_clock_minutes_multiple() {
    let content = "* DONE Task\n:LOGBOOK:\nCLOCK: [2025-12-18 jeu. 13:00]--[2025-12-18 jeu. 14:00] =>  1:00\nCLOCK: [2025-12-17 mer. 16:30]--[2025-12-17 mer. 17:15] =>  0:45\n:END:\n";
    let org = Org::parse(content);
    let hdl = org.first_node::<Headline>().unwrap();
    assert_eq!(sum_clock_minutes(&hdl), Some(105));
}

#[test]
fn test_sum_clock_minutes_no_logbook() {
    let content = "* DONE Task\nSome text.\n";
    let org = Org::parse(content);
    let hdl = org.first_node::<Headline>().unwrap();
    assert_eq!(sum_clock_minutes(&hdl), Some(0));
}

#[test]
fn clock_minutes_reads_logbooks_only_and_reports_overflow() {
    let drawers = vec![
        ("logbook".to_string(), "CLOCK: x =>  2:05\nnoise\nCLOCK: y => +1:+1\n".to_string()),
        ("PROPERTIES".to_string(), "CLOCK: z => 9:00\n".to_string()),
    ];
    assert_eq!(clock_minutes(&drawers), Some(125 + 61));
    let huge = vec![("LOGBOOK".to_string(), "=> 18446744073709551615:0\n".to_string())];
    assert_eq!(clock_minutes(&huge), None);
    let bad = vec![("LOGBOOK".to_string(), "=> 99999999999999999999:1\n=> 1:x\n".to_string())];
    assert_eq!(clock_minutes(&bad), Some(0));
}
