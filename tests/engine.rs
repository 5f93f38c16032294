use std::cell::{Cell, RefCell};
use std::rc::Rc;

use nx_request_handler::engine::{check_arguments, preview};
use nx_request_handler::{Handler, Message, MessageContext, Outcome, RequestEngine, Transport};

struct Recorder {
    sent: RefCell<Vec<String>>,
    exited: Cell<bool>,
    waited: Cell<bool>,
}

impl Recorder {
    fn new() -> Self {
        Recorder { sent: RefCell::new(Vec::new()), exited: Cell::new(false), waited: Cell::new(false) }
    }
}

impl Transport for Recorder {
    fn send(&self, message: &str) {
        self.sent.borrow_mut().push(message.to_string());
    }
    fn exit(&self) {
        self.exited.set(true);
    }
    fn wait_for_exit(&self) {
        assert!(self.exited.get());
        self.waited.set(true);
    }
}

type Callback = Box<dyn Fn(&mut MessageContext<'_, Recorder>) -> Result<String, String>>;

struct FnHandler(Callback);

impl Handler<Recorder> for FnHandler {
    fn call(&self, context: &mut MessageContext<'_, Recorder>) -> Result<String, String> {
        (self.0)(context)
    }
}

fn handler(f: impl Fn(&mut MessageContext<'_, Recorder>) -> Result<String, String> + 'static) -> FnHandler {
    FnHandler(Box::new(f))
}

fn message(id: &str, call_name: &str, arguments: Option<Vec<&str>>) -> Message {
    Message {
        id: id.to_string(),
        call_name: call_name.to_string(),
        arguments: arguments.map(|a| a.into_iter().map(|s| s.to_string()).collect()),
    }
}

fn sent(engine: &RequestEngine<Recorder, FnHandler>) -> Vec<String> {
    engine.session().sent.borrow().clone()
}

fn echo_engine(runs: Rc<Cell<u32>>) -> RequestEngine<Recorder, FnHandler> {
    let mut engine = RequestEngine::new(Recorder::new());
    engine.register(
        "echo",
        Some(1),
        handler(move |context| {
            runs.set(runs.get() + 1);
            Ok(context.arguments.as_ref().unwrap()[0].clone())
        }),
    );
    engine
}

#[test]
fn can_construct() {
    let mut engine: RequestEngine<Recorder, FnHandler> = RequestEngine::new(Recorder::new());
    engine.register(
        "test",
        None,
        handler(|context| {
            context.send_progress("{\"title\":\"Progress\",\"info\":\"progress!\",\"progress\":50}");
            Ok(String::new())
        }),
    );
    let outcome = engine.handle(message("7", "test", None));
    assert_eq!(outcome, Outcome::Answered);
    let sent = sent(&engine);
    assert_eq!(sent.len(), 2);
    assert!(sent[0].starts_with("{\"id\":\"progress\""));
    assert!(sent[0].contains("progress!"));
    assert_eq!(sent[1], "{\"id\":\"7\",\"ok\":true,\"message\":\"\",\"more\":false}");
}

#[test]
fn echo_single_envelope() {
    let runs = Rc::new(Cell::new(0));
    let mut engine = echo_engine(runs.clone());
    let outcome = engine.handle(message("1", "echo", Some(vec!["hi"])));
    assert_eq!(outcome, Outcome::Answered);
    assert_eq!(runs.get(), 1);
    assert_eq!(sent(&engine), vec!["{\"id\":\"1\",\"ok\":true,\"message\":\"hi\",\"more\":false}".to_string()]);
}

#[test]
fn echo_with_no_arguments_is_rejected() {
    let runs = Rc::new(Cell::new(0));
    let mut engine = echo_engine(runs.clone());
    let outcome = engine.handle(message("2", "echo", Some(vec![])));
    assert_eq!(outcome, Outcome::Rejected);
    assert_eq!(runs.get(), 0);
    assert_eq!(
        sent(&engine),
        vec!["{\"id\":\"2\",\"ok\":false,\"message\":\"Incorrect number of arguments were provided for echo\",\"more\":false}".to_string()]
    );
}

#[test]
fn too_many_arguments_are_rejected() {
    let runs = Rc::new(Cell::new(0));
    let mut engine = echo_engine(runs.clone());
    let outcome = engine.handle(message("3", "echo", Some(vec!["a", "b"])));
    assert_eq!(outcome, Outcome::Rejected);
    assert_eq!(runs.get(), 0);
    assert_eq!(sent(&engine).len(), 1);
    assert!(sent(&engine)[0].starts_with("{\"id\":\"3\",\"ok\":false,"));
}

#[test]
fn absent_arguments_are_rejected() {
    let runs = Rc::new(Cell::new(0));
    let mut engine = echo_engine(runs.clone());
    let outcome = engine.handle(message("4", "echo", None));
    assert_eq!(outcome, Outcome::Rejected);
    assert_eq!(runs.get(), 0);
    assert_eq!(
        sent(&engine),
        vec!["{\"id\":\"4\",\"ok\":false,\"message\":\"No arguments were provided for echo\",\"more\":false}".to_string()]
    );
}

#[test]
fn no_count_accepts_any_arguments() {
    let mut engine: RequestEngine<Recorder, FnHandler> = RequestEngine::new(Recorder::new());
    engine.register("log", None, handler(|_| Ok("logged".to_string())));
    assert_eq!(engine.handle(message("5", "log", None)), Outcome::Answered);
    assert_eq!(engine.handle(message("6", "log", Some(vec!["a", "b", "c"]))), Outcome::Answered);
    assert_eq!(sent(&engine).len(), 2);
}

#[test]
fn unknown_call_gets_no_reply() {
    let runs = Rc::new(Cell::new(0));
    let mut engine = echo_engine(runs.clone());
    assert_eq!(engine.handle(message("8", "nothing", Some(vec!["x"]))), Outcome::Ignored);
    assert!(sent(&engine).is_empty());
    assert_eq!(runs.get(), 0);
}

#[test]
fn handler_error_is_sent_as_failure() {
    let mut engine: RequestEngine<Recorder, FnHandler> = RequestEngine::new(Recorder::new());
    engine.register("fail", Some(0), handler(|_| Err("it broke".to_string())));
    assert_eq!(engine.handle(message("10", "fail", Some(vec![]))), Outcome::Answered);
    assert_eq!(sent(&engine), vec!["{\"id\":\"10\",\"ok\":false,\"message\":\"it broke\",\"more\":false}".to_string()]);
}

#[test]
fn second_registration_replaces_first() {
    let mut engine: RequestEngine<Recorder, FnHandler> = RequestEngine::new(Recorder::new());
    engine.register("greet", Some(1), handler(|_| Ok("first".to_string())));
    engine.register("greet", None, handler(|_| Ok("second".to_string())));
    assert_eq!(engine.handle(message("11", "greet", None)), Outcome::Answered);
    assert_eq!(sent(&engine), vec!["{\"id\":\"11\",\"ok\":true,\"message\":\"second\",\"more\":false}".to_string()]);
}

#[test]
fn progress_comes_before_the_reply() {
    let mut engine: RequestEngine<Recorder, FnHandler> = RequestEngine::new(Recorder::new());
    engine.register(
        "work",
        Some(0),
        handler(|context| {
            context.send_progress("{\"title\":\"t\",\"info\":\"i\",\"progress\":0.25}");
            context.send_progress("{\"title\":\"t\",\"info\":\"i\",\"progress\":0.75}");
            Ok("done".to_string())
        }),
    );
    assert_eq!(engine.handle(message("12", "work", Some(vec![]))), Outcome::Answered);
    let sent = sent(&engine);
    assert_eq!(sent.len(), 3);
    assert_eq!(
        sent[0],
        "{\"id\":\"progress\",\"message\":\"{\\\\\\\"title\\\\\\\":\\\\\\\"t\\\\\\\",\\\\\\\"info\\\\\\\":\\\\\\\"i\\\\\\\",\\\\\\\"progress\\\\\\\":0.25}\",\"more\":false}"
    );
    assert!(sent[1].starts_with("{\"id\":\"progress\"") && sent[1].contains("0.75"));
    assert_eq!(sent[2], "{\"id\":\"12\",\"ok\":true,\"message\":\"done\",\"more\":false}");
}

#[test]
fn shutdown_stops_without_reply() {
    let mut engine: RequestEngine<Recorder, FnHandler> = RequestEngine::new(Recorder::new());
    engine.register(
        "exit_session",
        None,
        handler(|context| {
            context.shutdown();
            assert!(context.is_shutdown());
            Ok("closing".to_string())
        }),
    );
    assert_eq!(engine.handle(message("13", "exit_session", None)), Outcome::Stopped);
    assert!(sent(&engine).is_empty());
    assert!(engine.session().exited.get());
    assert!(engine.session().waited.get());
}

#[test]
fn check_arguments_messages() {
    assert_eq!(check_arguments("x", None, &None), None);
    assert_eq!(check_arguments("x", Some(0), &Some(vec![])), None);
    assert_eq!(
        check_arguments("x", Some(0), &None),
        Some("No arguments were provided for x".to_string())
    );
    assert_eq!(
        check_arguments("x", Some(2), &Some(vec!["a".to_string()])),
        Some("Incorrect number of arguments were provided for x".to_string())
    );
}

#[test]
fn preview_keeps_short_text() {
    assert_eq!(preview("not json"), "not json");
    let exact: String = "a".repeat(300);
    assert_eq!(preview(&exact), exact);
}

#[test]
fn preview_cuts_long_text() {
    let long: String = "é".repeat(301);
    let expected = format!("{} <truncated for performance>", "é".repeat(299));
    assert_eq!(preview(&long), expected);
}

#[test]
fn message_describe() {
    let m = message("42", "read_file", Some(vec!["/a"]));
    assert_eq!(m.describe(), "(id: 42, call_name: read_file)");
}

#[test]
fn registrations_chain() {
    let mut engine: RequestEngine<Recorder, FnHandler> = RequestEngine::new(Recorder::new());
    engine
        .register("one", Some(0), handler(|_| Ok("1".to_string())))
        .register("two", Some(0), handler(|_| Ok("2".to_string())));
    assert_eq!(engine.handle(message("a", "one", Some(vec![]))), Outcome::Answered);
    assert_eq!(engine.handle(message("b", "two", Some(vec![]))), Outcome::Answered);
    assert_eq!(
        sent(&engine),
        vec![
            "{\"id\":\"a\",\"ok\":true,\"message\":\"1\",\"more\":false}".to_string(),
            "{\"id\":\"b\",\"ok\":true,\"message\":\"2\",\"more\":false}".to_string(),
        ]
    );
}

#[test]
fn handler_sees_the_call() {
    let mut engine: RequestEngine<Recorder, FnHandler> = RequestEngine::new(Recorder::new());
    engine.register(
        "show",
        None,
        handler(|context| Ok(format!("{}|{}|{:?}", context.id, context.call_name, context.arguments))),
    );
    assert_eq!(engine.handle(message("q", "show", Some(vec!["x", "y"]))), Outcome::Answered);
    assert_eq!(
        sent(&engine),
        vec!["{\"id\":\"q\",\"ok\":true,\"message\":\"q|show|Some([\\\\\\\"x\\\\\\\", \\\\\\\"y\\\\\\\"])\",\"more\":false}".to_string()]
    );
}
