use cmdtree::{Action, BuildError, Builder, Commander, Handler, LineResult, RecordingHandler};

#[test]
fn action_debug_test() {
    let a = Action::blank_fn("action-name", "help me!");
    assert_eq!(&a.debug_string(), "Action { name: action-name, help: help me! }");
}

#[test]
fn action_equality_ignores_handler_slot() {
    let a = Action { name: "go".to_string(), help: "h".to_string(), handler: 0 };
    let b = Action { name: "go".to_string(), help: "h".to_string(), handler: 7 };
    assert_eq!(a, b);
    let c = Action { name: "go".to_string(), help: "other".to_string(), handler: 0 };
    assert_ne!(a, c);
    let d = Action { name: "stop".to_string(), help: "h".to_string(), handler: 0 };
    assert_ne!(a, d);
}

#[test]
fn action_invocation_hands_over_residual_tokens() {
    let mut cmder = Builder::default_config("base")
        .add_action("greet", "records what it is told", RecordingHandler::new())
        .into_commander()
        .unwrap();
    let r = cmder.parse_line("greet hello world", false, &mut Vec::new());
    assert_eq!(r, LineResult::ActionDone);
    assert_eq!(cmder.handlers[0].calls, vec![vec!["hello".to_string(), "world".to_string()]]);
}

#[test]
fn action_after_navigation_gets_only_the_rest() {
    let mut cmder = Builder::default_config("base")
        .begin_class("one", "")
        .add_action("greet", "", RecordingHandler::new())
        .into_commander()
        .unwrap();
    let r = cmder.parse_line("one GREET x", false, &mut Vec::new());
    assert_eq!(r, LineResult::ActionDone);
    assert_eq!(cmder.path(), "base.one");
    assert_eq!(cmder.handlers[0].calls, vec![vec!["x".to_string()]]);
}

#[test]
fn action_with_no_arguments_is_invoked_with_none() {
    let mut cmder = Builder::default_config("base")
        .add_action("ping", "", RecordingHandler::new())
        .into_commander()
        .unwrap();
    let r = cmder.parse_line("ping", false, &mut Vec::new());
    assert_eq!(r, LineResult::ActionDone);
    assert_eq!(cmder.handlers[0].calls, vec![Vec::<String>::new()]);
}

#[test]
fn actions_keep_their_own_handler_slots() {
    let mut cmder = Builder::default_config("base")
        .add_action("first", "", RecordingHandler::new())
        .add_action("second", "", RecordingHandler::new())
        .into_commander()
        .unwrap();
    let r = cmder.parse_line("second a b", false, &mut Vec::new());
    assert_eq!(r, LineResult::ActionDone);
    assert!(cmder.handlers[0].calls.is_empty());
    assert_eq!(cmder.handlers[1].calls, vec![vec!["a".to_string(), "b".to_string()]]);
}

struct Countdown {
    remaining: u32,
}

impl Handler for Countdown {
    fn handle(&mut self, _args: &Vec<String>) {
        self.remaining = self.remaining.saturating_sub(1);
    }
}

#[test]
fn user_defined_handlers_are_invoked() {
    let mut cmder = Builder::default_config("base")
        .add_action("tick", "", Countdown { remaining: 2 })
        .into_commander()
        .unwrap();
    cmder.parse_line("tick", false, &mut Vec::new());
    cmder.parse_line("tick", false, &mut Vec::new());
    assert_eq!(cmder.handlers[0].remaining, 0);
}

#[test]
fn builder_rejects_action_shadowing_a_class() {
    let r: Result<Commander<RecordingHandler>, BuildError> = Builder::default_config("base")
        .begin_class("one", "")
        .end_class()
        .add_action("one", "", RecordingHandler::new())
        .into_commander();
    assert!(matches!(r, Err(BuildError::DuplicateName)));
}

#[test]
fn builder_rejects_duplicate_action_names() {
    let r: Result<Commander<RecordingHandler>, BuildError> = Builder::default_config("base")
        .add_action("go", "", RecordingHandler::new())
        .add_action("GO", "", RecordingHandler::new())
        .into_commander();
    assert!(matches!(r, Err(BuildError::DuplicateName)));
}

#[test]
fn echo_lists_classes_and_actions() {
    let mut cmder = Builder::default_config("base")
        .begin_class("one", "")
        .end_class()
        .add_action("greet", "", RecordingHandler::new())
        .into_commander()
        .unwrap();
    let mut sink: Vec<String> = Vec::new();
    let r = cmder.parse_line("zzz", true, &mut sink);
    assert_eq!(r, LineResult::Error(cmdtree::ParseError::UnrecognizedToken));
    assert_eq!(
        sink,
        vec![
            "unrecognized token: zzz".to_string(),
            "class: one".to_string(),
            "action: greet".to_string(),
        ]
    );
}
