use serde_json::Value;
use stayfocused::session::{
    normalize_response, ResponseBlock, Role, Session, TurnBlock, TURN_BUDGET,
};
use stayfocused::stayfocused::{History, StayFocusedOptions};
use stayfocused::tools::{decode_tool_call, process_tool_call, ArgValue, ToolInvocation};

fn fresh(capacity: usize) -> History {
    History::new(StayFocusedOptions { histfile: "h".to_string(), tail: capacity })
}

fn object(key: &str, value: ArgValue) -> ArgValue {
    ArgValue::Object(vec![(key.to_string(), value)])
}

fn text(s: &str) -> ArgValue {
    ArgValue::Text(s.to_string())
}

fn tool_use(id: &str, name: &str, args: ArgValue) -> ResponseBlock {
    ResponseBlock::ToolUse { id: id.to_string(), name: name.to_string(), input: Value::Null, args }
}

#[test]
fn unknown_tool_reports_error_and_changes_nothing() {
    let mut h = fresh(10);
    h.primary_objective = Some("keep".to_string());
    let out = process_tool_call(&"delete_everything".to_string(), &ArgValue::Object(Vec::new()), &mut h);
    assert!(out.is_error);
    assert_eq!(out.text, "Error: Unknown tool 'delete_everything'");
    assert_eq!(h.primary_objective.as_deref(), Some("keep"));
    assert!(h.side_quests.is_none());
}

#[test]
fn set_primary_task_without_task_field_reports_error() {
    let mut h = fresh(10);
    let input = object("goal", text("x"));
    let out = process_tool_call(&"set_primary_task".to_string(), &input, &mut h);
    assert!(out.is_error);
    assert_eq!(out.text, "Error: Invalid arguments for set_primary_task");
    assert!(h.primary_objective.is_none());
    assert!(h.side_quests.is_none());
}

#[test]
fn set_primary_task_with_wrong_type_reports_error() {
    let mut h = fresh(10);
    let input = object("task", ArgValue::Other);
    let out = process_tool_call(&"set_primary_task".to_string(), &input, &mut h);
    assert!(out.is_error);
    assert!(h.primary_objective.is_none());
}

#[test]
fn decode_reads_arguments() {
    let input = object("task", text("Write tests"));
    match decode_tool_call(&"set_primary_task".to_string(), &input) {
        ToolInvocation::SetPrimaryTask(Some(t)) => assert_eq!(t, "Write tests"),
        _ => panic!("expected a decoded task"),
    }
    let list = ArgValue::List(vec![text("a"), text("b")]);
    match decode_tool_call(&"set_side_quests".to_string(), &object("side_quests", list)) {
        ToolInvocation::SetSideQuests(Some(q)) => assert_eq!(q, vec!["a".to_string(), "b".to_string()]),
        _ => panic!("expected decoded side quests"),
    }
    let bad = ArgValue::List(vec![text("a"), ArgValue::Other]);
    assert!(matches!(
        decode_tool_call(&"set_side_quests".to_string(), &object("side_quests", bad)),
        ToolInvocation::SetSideQuests(None)
    ));
    assert!(matches!(decode_tool_call(&"nop".to_string(), &ArgValue::Other), ToolInvocation::Nop));
}

#[test]
fn set_side_quests_through_json() {
    let mut h = fresh(10);
    let list = ArgValue::List(vec![text("a")]);
    let out = process_tool_call(&"set_side_quests".to_string(), &object("side_quests", list), &mut h);
    assert!(!out.is_error);
    assert_eq!(out.text, "Side quests set: [\"a\"]");
    assert_eq!(h.side_quests, Some(vec!["a".to_string()]));
}

#[test]
fn new_session_seeds_one_user_turn() {
    let mut h = fresh(10);
    h.merge(vec!["ls".to_string()]);
    let s = Session::new(h);
    assert_eq!(s.rounds, 0);
    assert!(!s.done);
    assert!(s.needs_request());
    assert_eq!(s.transcript.len(), 1);
    assert!(matches!(s.transcript[0].role, Role::User));
    match &s.transcript[0].blocks[0] {
        TurnBlock::Text(t) => assert_eq!(t, "<histfile>\nls\n</histfile>\n"),
        _ => panic!("expected text"),
    }
}

#[test]
fn loop_stops_after_three_rounds_of_tool_use() {
    let mut s = Session::new(fresh(10));
    let mut requests = 0;
    while s.needs_request() {
        requests += 1;
        let blocks = vec![tool_use("t", "nop", ArgValue::Object(Vec::new()))];
        assert!(s.record_response(blocks, true).is_ok());
        assert!(requests <= 10);
    }
    assert_eq!(requests, 3);
    assert_eq!(s.rounds, TURN_BUDGET);
    assert!(s.done);
    // user, then assistant and tool results for each round
    assert_eq!(s.transcript.len(), 7);
}

#[test]
fn natural_stop_ends_the_loop() {
    let mut s = Session::new(fresh(10));
    let blocks = vec![ResponseBlock::Text("All good.".to_string())];
    assert!(s.record_response(blocks, false).is_ok());
    assert!(s.done);
    assert!(!s.needs_request());
    assert_eq!(s.rounds, 1);
    assert_eq!(s.transcript.len(), 2);
    assert!(matches!(s.transcript[1].role, Role::Assistant));
}

#[test]
fn tool_results_follow_in_invocation_order() {
    let mut s = Session::new(fresh(10));
    let blocks = vec![
        ResponseBlock::Text("thinking aloud".to_string()),
        tool_use("1", "set_primary_task", object("task", text("A"))),
        tool_use("2", "delete_everything", ArgValue::Other),
    ];
    assert!(s.record_response(blocks, true).is_ok());
    assert!(!s.done);
    assert_eq!(s.transcript.len(), 3);
    let results = &s.transcript[2];
    assert!(matches!(results.role, Role::User));
    assert_eq!(results.blocks.len(), 2);
    match &results.blocks[0] {
        TurnBlock::ToolResult { tool_use_id, text, is_error } => {
            assert_eq!(tool_use_id, "1");
            assert_eq!(text, "Primary task set to: A");
            assert!(!is_error);
        }
        _ => panic!("expected a tool result"),
    }
    match &results.blocks[1] {
        TurnBlock::ToolResult { tool_use_id, text, is_error } => {
            assert_eq!(tool_use_id, "2");
            assert_eq!(text, "Error: Unknown tool 'delete_everything'");
            assert!(is_error);
        }
        _ => panic!("expected a tool result"),
    }
    assert_eq!(s.history.primary_objective.as_deref(), Some("A"));
}

#[test]
fn server_tool_use_aborts() {
    let mut s = Session::new(fresh(10));
    let blocks = vec![ResponseBlock::Text("x".to_string()), ResponseBlock::ServerToolUse];
    assert!(s.record_response(blocks, true).is_err());
    assert_eq!(s.rounds, 0);
    assert_eq!(s.transcript.len(), 1);
}

#[test]
fn reasoning_becomes_text() {
    let r = normalize_response(vec![
        ResponseBlock::Thinking("hmm".to_string()),
        ResponseBlock::RedactedThinking,
    ]);
    let blocks = match r {
        Ok(b) => b,
        Err(_) => panic!("expected blocks"),
    };
    match (&blocks[0], &blocks[1]) {
        (TurnBlock::Text(a), TurnBlock::Text(b)) => {
            assert_eq!(a, "hmm");
            assert_eq!(b, "[Thinking was redacted]");
        }
        _ => panic!("expected text blocks"),
    }
}

#[test]
fn end_to_end_two_rounds() {
    let mut h = fresh(10);
    h.merge(vec!["cd repo".to_string(), "grep TODO".to_string(), "vim notes.md".to_string()]);
    assert_eq!(h.tail, vec!["cd repo", "grep TODO", "vim notes.md"]);
    let mut s = Session::new(h);
    let mut round = 0;
    while s.needs_request() {
        round += 1;
        let (blocks, stop) = if round == 1 {
            (vec![tool_use("a", "set_primary_task", object("task", text("Clean up TODOs")))], true)
        } else {
            (vec![ResponseBlock::Text("Done.".to_string())], false)
        };
        assert!(s.record_response(blocks, stop).is_ok());
    }
    assert_eq!(round, 2);
    assert_eq!(s.rounds, 2);
    // user, assistant, tool results (sent with the second request), assistant
    assert_eq!(s.transcript.len(), 4);
    match &s.transcript[2].blocks[0] {
        TurnBlock::ToolResult { tool_use_id, text, is_error } => {
            assert_eq!(tool_use_id, "a");
            assert_eq!(text, "Primary task set to: Clean up TODOs");
            assert!(!is_error);
        }
        _ => panic!("expected a tool result"),
    }
    assert_eq!(s.history.primary_objective.as_deref(), Some("Clean up TODOs"));
    assert!(s.history.side_quests.is_none());
}

#[test]
fn set_primary_task_among_other_members() {
    let mut h = fresh(10);
    let input = ArgValue::Object(vec![
        ("note".to_string(), ArgValue::Other),
        ("task".to_string(), text("Ship")),
    ]);
    let out = process_tool_call(&"set_primary_task".to_string(), &input, &mut h);
    assert!(!out.is_error);
    assert_eq!(h.primary_objective.as_deref(), Some("Ship"));
}

#[test]
fn arguments_not_an_object_report_error() {
    let mut h = fresh(10);
    let out = process_tool_call(&"set_side_quests".to_string(), &ArgValue::List(vec![text("a")]), &mut h);
    assert!(out.is_error);
    assert_eq!(out.text, "Error: Invalid arguments for set_side_quests");
    assert!(h.side_quests.is_none());
}

#[test]
fn every_round_dispatches_until_budget() {
    let mut s = Session::new(fresh(10));
    let mut requests = 0;
    while s.needs_request() {
        requests += 1;
        let args = object("side_quests", ArgValue::List(vec![text("x")]));
        assert!(s.record_response(vec![tool_use("u", "set_side_quests", args)], true).is_ok());
        let last = s.transcript.last().expect("a turn");
        assert!(matches!(last.role, Role::User));
        match &last.blocks[0] {
            TurnBlock::ToolResult { tool_use_id, text, is_error } => {
                assert_eq!(tool_use_id, "u");
                assert_eq!(text, "Side quests set: [\"x\"]");
                assert!(!is_error);
            }
            _ => panic!("expected a tool result"),
        }
    }
    assert_eq!(requests, 3);
    assert!(s.done);
    assert_eq!(s.history.side_quests, Some(vec!["x".to_string()]));
    assert!(s.history.primary_objective.is_none());
}
