use moa_cli::api_response::{ApiResponse, Choice, Completion, Data, Message, MoaError, Model};
use moa_cli::moa::{Moa, Request};
use moa_cli::text::{compose_task, decimal, fill_template, wrap};

fn backend(texts: &[&str]) -> Model {
    let choices: Vec<Choice> = texts.iter().map(|t| Choice::new(Message::new(t.to_string()))).collect();
    Model::new(Completion::new(choices).expect("at least one candidate"))
}

fn envelope(entries: &[(&str, &str)]) -> ApiResponse {
    let mut data = Data::new();
    for (id, text) in entries {
        data = data.with_entry(id.to_string(), backend(&[text]));
    }
    ApiResponse::new(data)
}

fn roster(ids: &[&str]) -> Vec<String> {
    ids.iter().map(|s| s.to_string()).collect()
}

fn not_found(r: Result<String, MoaError>) -> String {
    match r {
        Err(MoaError::BackendNotFound(id)) => id,
        Err(_) => panic!("another failure"),
        Ok(s) => panic!("unexpected success: {}", s),
    }
}

#[test]
fn two_backends_wrapped_in_roster_order() {
    let env = envelope(&[("modelA", "foo"), ("modelB", "bar")]);
    let out = env.process_middle(&roster(&["modelA", "modelB"]), &String::new()).unwrap();
    assert_eq!(
        out,
        "<model1_response>\nfoo\n</model1_response>\n\n<model2_response>\nbar\n</model2_response>\n\n"
    );
}

#[test]
fn missing_backend_is_reported() {
    let env = envelope(&[("modelA", "foo")]);
    let r = env.process_middle(&roster(&["modelA", "modelB"]), &String::new());
    assert_eq!(not_found(r), "modelB");
}

#[test]
fn first_missing_backend_in_roster_order_is_reported() {
    let env = envelope(&[("b", "2")]);
    let r = env.process_middle(&roster(&["b", "c", "a"]), &"prefix".to_string());
    assert_eq!(not_found(r), "c");
}

#[test]
fn envelope_key_order_does_not_change_the_merge() {
    let ids = roster(&["x", "y", "z"]);
    let p = "merge:\n".to_string();
    let one = envelope(&[("x", "1"), ("y", "2"), ("z", "3")]).process_middle(&ids, &p).unwrap();
    let two = envelope(&[("z", "3"), ("x", "1"), ("y", "2")]).process_middle(&ids, &p).unwrap();
    assert_eq!(one, two);
    assert_eq!(
        one,
        "merge:\n<model1_response>\n1\n</model1_response>\n\n<model2_response>\n2\n</model2_response>\n\n<model3_response>\n3\n</model3_response>\n\n"
    );
}

#[test]
fn sections_are_numbered_past_nine() {
    let names: Vec<String> = (0..11).map(|i| format!("m{}", i)).collect();
    let mut data = Data::new();
    for n in &names {
        data = data.with_entry(n.clone(), backend(&[n.as_str()]));
    }
    let out = ApiResponse::new(data).process_middle(&names, &String::new()).unwrap();
    assert_eq!(out.matches("_response>\n").count(), 22);
    assert!(out.ends_with("<model11_response>\nm10\n</model11_response>\n\n"));
    assert!(out.contains("<model10_response>\nm9\n</model10_response>\n\n"));
}

#[test]
fn empty_roster_gives_the_prompt() {
    let env = envelope(&[("a", "1")]);
    assert_eq!(env.process_middle(&Vec::new(), &"only".to_string()).unwrap(), "only");
}

#[test]
fn extraction_takes_first_candidate() {
    let data = Data::new().with_entry("a".to_string(), backend(&["first", "second"]));
    let env = ApiResponse::new(data);
    assert_eq!(env.process_response("a").unwrap(), "first");
}

#[test]
fn extraction_is_repeatable() {
    let env = envelope(&[("a", "text"), ("b", "other")]);
    let one = env.process_response("b").unwrap();
    let two = env.process_response("b").unwrap();
    assert_eq!(one, two);
    assert_eq!(one, "other");
}

#[test]
fn extraction_of_absent_backend_fails() {
    let env = envelope(&[("a", "text")]);
    assert_eq!(not_found(env.process_response("z")), "z");
}

#[test]
fn later_entry_replaces_earlier() {
    let env = envelope(&[("a", "old"), ("a", "new")]);
    assert_eq!(env.process_response("a").unwrap(), "new");
}

#[test]
fn completion_needs_a_candidate() {
    assert!(Completion::new(Vec::new()).is_none());
    let c = Completion::new(vec![Choice::new(Message::new("t".to_string()))]).unwrap();
    assert_eq!(c.first_text(), "t");
}

#[test]
fn message_keeps_its_text() {
    assert_eq!(Message::new("hi".to_string()).content(), "hi");
}

#[test]
fn decimal_numbers() {
    assert_eq!(decimal(0), "0");
    assert_eq!(decimal(7), "7");
    assert_eq!(decimal(10), "10");
    assert_eq!(decimal(4096), "4096");
    assert_eq!(decimal(usize::MAX), usize::MAX.to_string());
}

#[test]
fn wrap_puts_tags_on_lines() {
    assert_eq!(wrap("body".to_string(), "query"), "<query>\nbody\n</query>\n");
    assert_eq!(wrap(String::new(), "x"), "<x>\n\n</x>\n");
}

#[test]
fn template_receives_the_task() {
    assert_eq!(fill_template("Task: {} -- again {}.", "T"), "Task: T -- again T.");
    assert_eq!(fill_template("no marker", "T"), "no marker");
    assert_eq!(fill_template("{{}}", "T"), "{T}");
    assert_eq!(fill_template("{", "T"), "{");
    assert_eq!(fill_template("", "T"), "");
}

#[test]
fn task_is_composed_in_order() {
    let files = vec!["f1".to_string(), "f2".to_string()];
    let t = compose_task("q".to_string(), Some("s".to_string()), &files);
    assert_eq!(
        t,
        "<query>\nq\n</query>\n\n<snippet>\ns\n</snippet>\n\n<file_contents>\nf1\n</file_contents>\n<file_contents>\nf2\n</file_contents>\n"
    );
    assert_eq!(compose_task("q".to_string(), None, &Vec::new()), "<query>\nq\n</query>\n\n\n");
}

/// Answers each request as a deterministic stub would: every backend echoes a
/// marker for the request number followed by the message it was sent.
fn stub_reply(req: &Request, number: usize) -> ApiResponse {
    let mut data = Data::new();
    for m in &req.models {
        let text = format!("[r{} {}]{}", number, m, req.message);
        data = data.with_entry(m.clone(), backend(&[text.as_str()]));
    }
    ApiResponse::new(data)
}

#[test]
fn full_run_goes_through_every_round() {
    let layer = roster(&["l1", "l2"]);
    let mut moa = Moa::new("TASK".to_string(), "merge {}\n", layer.clone(), "agg".to_string(), 4);
    let mut asked: Vec<Vec<String>> = Vec::new();
    let mut number = 1;
    while let Some(req) = moa.request() {
        asked.push(req.models.clone());
        let reply = stub_reply(&req, number);
        moa.step(Ok(reply));
        number += 1;
    }
    assert!(moa.is_finished());
    let out = moa.into_outcome().unwrap().unwrap();
    assert_eq!(asked.len(), 5);
    for models in &asked[..4] {
        assert_eq!(models, &layer);
    }
    assert_eq!(asked[4], vec!["agg".to_string()]);
    assert!(out.starts_with("[r5 agg]merge TASK\n<model1_response>\n[r4 l1]merge TASK\n"));
    for marker in ["[r1 l1]TASK", "[r1 l2]TASK", "[r2 l1]", "[r3 l2]", "[r4 l1]", "[r5 agg]"] {
        assert!(out.contains(marker), "missing {}", marker);
    }
}

#[test]
fn zero_rounds_asks_the_aggregator_only() {
    let mut moa = Moa::new("T".to_string(), "{}", roster(&["l1"]), "agg".to_string(), 0);
    let req = moa.request().unwrap();
    assert_eq!(req.models, vec!["agg".to_string()]);
    assert_eq!(req.message, "T");
    moa.step(Ok(envelope(&[("agg", "done")])));
    assert!(moa.request().is_none());
    assert_eq!(moa.into_outcome().unwrap().unwrap(), "done");
}

#[test]
fn first_round_carries_the_task_and_later_rounds_the_merge() {
    let mut moa = Moa::new("T".to_string(), "orig={};", roster(&["a"]), "g".to_string(), 2);
    let first = moa.request().unwrap();
    assert_eq!(first.message, "T");
    moa.step(Ok(envelope(&[("a", "x")])));
    let second = moa.request().unwrap();
    assert_eq!(second.message, "orig=T;<model1_response>\nx\n</model1_response>\n\n");
    assert!(!moa.is_finished());
}

#[test]
fn transport_failure_ends_the_run() {
    let mut moa = Moa::new("T".to_string(), "{}", roster(&["a"]), "g".to_string(), 4);
    moa.step(Ok(envelope(&[("a", "x")])));
    moa.step(Err(MoaError::Transport("connection reset".to_string())));
    assert!(moa.is_finished());
    assert!(moa.request().is_none());
    moa.step(Ok(envelope(&[("a", "y")])));
    match moa.into_outcome() {
        Some(Err(MoaError::Transport(m))) => assert_eq!(m, "connection reset"),
        _ => panic!("expected the transport failure"),
    }
}

#[test]
fn decode_failure_ends_the_run() {
    let mut moa = Moa::new("T".to_string(), "{}", roster(&["a"]), "g".to_string(), 1);
    moa.step(Err(MoaError::Decode("bad body".to_string())));
    assert!(matches!(moa.into_outcome(), Some(Err(MoaError::Decode(_)))));
}

#[test]
fn missing_layer_backend_ends_the_run() {
    let mut moa = Moa::new("T".to_string(), "{}", roster(&["a", "b"]), "g".to_string(), 4);
    moa.step(Ok(envelope(&[("a", "x")])));
    match moa.into_outcome() {
        Some(Err(MoaError::BackendNotFound(id))) => assert_eq!(id, "b"),
        _ => panic!("expected a missing backend"),
    }
}

#[test]
fn missing_aggregator_ends_the_run() {
    let mut moa = Moa::new("T".to_string(), "{}", roster(&["a"]), "g".to_string(), 1);
    moa.step(Ok(envelope(&[("a", "x")])));
    assert_eq!(moa.request().unwrap().models, vec!["g".to_string()]);
    moa.step(Ok(envelope(&[("a", "x")])));
    match moa.into_outcome() {
        Some(Err(MoaError::BackendNotFound(id))) => assert_eq!(id, "g"),
        _ => panic!("expected a missing aggregator"),
    }
}

#[test]
fn unfinished_run_has_no_outcome() {
    let moa = Moa::new("T".to_string(), "{}", roster(&["a"]), "g".to_string(), 4);
    assert!(moa.into_outcome().is_none());
}
