use cbor_tool::stream::DecodeEvent;
use cbor_tool::stream::DumpAction;
use cbor_tool::stream::HeadAction;
use cbor_tool::stream::dump_step;
use cbor_tool::stream::head_step;
use cbor_tool::stream::run_dump;
use cbor_tool::stream::run_head;
use cbor_tool::tree::DisplayTree;
use cbor_tool::value::Number;
use cbor_tool::value::Value;

#[test]
fn dump_stops_at_first_malformed_item() {
    let events = vec![
        DecodeEvent::Item(Value::Unsigned(1)),
        DecodeEvent::Item(Value::Bool(true)),
        DecodeEvent::Malformed,
        DecodeEvent::Item(Value::Unsigned(9)),
    ];
    let (trees, failed) = run_dump(&events);
    assert!(failed);
    assert_eq!(trees.len(), 2);
    match &trees[0] {
        DisplayTree::Number(n) => {
            assert_eq!(*n, Number { positive: true, mantissa: 1, exponent: 0 })
        },
        _ => panic!("expected a number"),
    }
    assert!(matches!(trees[1], DisplayTree::Boolean(true)));
}

#[test]
fn dump_finishes_cleanly_at_end() {
    let events = vec![DecodeEvent::Item(Value::Null), DecodeEvent::End];
    let (trees, failed) = run_dump(&events);
    assert!(!failed);
    assert_eq!(trees.len(), 1);
}

#[test]
fn dump_of_empty_stream_prints_nothing() {
    let (trees, failed) = run_dump(&vec![DecodeEvent::End]);
    assert!(!failed);
    assert!(trees.is_empty());
}

#[test]
fn dump_fails_on_immediately_malformed_stream() {
    let (trees, failed) = run_dump(&vec![DecodeEvent::Malformed]);
    assert!(failed);
    assert!(trees.is_empty());
}

#[test]
fn head_skips_malformed_items() {
    let events = vec![
        DecodeEvent::Malformed,
        DecodeEvent::Item(Value::Unsigned(2)),
        DecodeEvent::Item(Value::Unsigned(3)),
    ];
    assert_eq!(run_head(&events), Some(1));
}

#[test]
fn head_of_empty_stream_emits_nothing() {
    assert_eq!(run_head(&vec![DecodeEvent::End]), None);
    assert_eq!(run_head(&vec![]), None);
    assert_eq!(run_head(&vec![DecodeEvent::Malformed, DecodeEvent::End]), None);
}

#[test]
fn head_does_not_look_past_the_end() {
    let events = vec![DecodeEvent::End, DecodeEvent::Item(Value::Null)];
    assert_eq!(run_head(&events), None);
}

#[test]
fn step_decisions_match_the_policies() {
    assert!(matches!(dump_step(&DecodeEvent::Malformed), DumpAction::Abort));
    assert!(matches!(dump_step(&DecodeEvent::End), DumpAction::Finish));
    match dump_step(&DecodeEvent::Item(Value::Bool(false))) {
        DumpAction::Print(t) => assert!(matches!(t, DisplayTree::Boolean(false))),
        _ => panic!("expected a printed tree"),
    }
    assert!(matches!(head_step(&DecodeEvent::Item(Value::Null)), HeadAction::Emit));
    assert!(matches!(head_step(&DecodeEvent::Malformed), HeadAction::Skip));
    assert!(matches!(head_step(&DecodeEvent::End), HeadAction::Finish));
}
