use cmdtree::{BuildError, Builder, Commander, LineResult, ParseError, SubClass};

fn sample_commander() -> Commander {
    Builder::default_config("base")
        .begin_class("one", "")
        .begin_class("two", "")
        .into_commander()
        .unwrap()
}

#[test]
fn current_path_test() {
    let mut cmder = sample_commander();

    let w = &mut Vec::new();

    assert_eq!(cmder.path(), "base");

    cmder.parse_line("one two", true, w);
    assert_eq!(cmder.path(), "base.one.two");

    cmder.parse_line("c", true, w);
    assert_eq!(cmder.path(), "base.one");

    cmder.parse_line("c", true, w);
    assert_eq!(cmder.path(), "base");

    cmder.parse_line("one", true, w);
    assert_eq!(cmder.path(), "base.one");
}

#[test]
fn subclass_with_name_test() {
    let sc = SubClass::with_name("NAME", "Help Message");
    assert_eq!(&sc.name, "name");
    assert_eq!(sc.help, "Help Message");
}

#[test]
fn moved_result_carries_new_path() {
    let mut cmder = sample_commander();
    let r = cmder.parse_line("one", false, &mut Vec::new());
    assert_eq!(r, LineResult::Moved("base.one".to_string()));
    let r = cmder.parse_line("two", false, &mut Vec::new());
    assert_eq!(r, LineResult::Moved("base.one.two".to_string()));
}

#[test]
fn blank_line_is_continue() {
    let mut cmder = sample_commander();
    let r = cmder.parse_line("", true, &mut Vec::new());
    assert_eq!(r, LineResult::Continue);
    let r = cmder.parse_line("   \t  ", true, &mut Vec::new());
    assert_eq!(r, LineResult::Continue);
    assert_eq!(cmder.path(), "base");
}

#[test]
fn matching_is_case_insensitive() {
    let mut upper = sample_commander();
    let mut lower = sample_commander();
    let r1 = upper.parse_line("ONE", false, &mut Vec::new());
    let r2 = lower.parse_line("one", false, &mut Vec::new());
    assert_eq!(r1, r2);
    assert_eq!(upper.path(), "base.one");
    assert_eq!(lower.path(), "base.one");
    let r = upper.parse_line("TWO", false, &mut Vec::new());
    assert_eq!(r, LineResult::Moved("base.one.two".to_string()));
}

#[test]
fn ascend_moves_to_parent() {
    let mut cmder = sample_commander();
    cmder.parse_line("one two", false, &mut Vec::new());
    let r = cmder.parse_line("c", false, &mut Vec::new());
    assert_eq!(r, LineResult::Moved("base.one".to_string()));
}

#[test]
fn ascend_at_root_is_an_error() {
    let mut cmder = sample_commander();
    let r = cmder.parse_line("c", false, &mut Vec::new());
    assert_eq!(r, LineResult::Error(ParseError::AttemptToAscendPastRoot));
    assert_eq!(cmder.path(), "base");
}

#[test]
fn root_keyword_resets_position() {
    let mut cmder = sample_commander();
    cmder.parse_line("one two", false, &mut Vec::new());
    let r = cmder.parse_line("root", false, &mut Vec::new());
    assert_eq!(r, LineResult::Moved("base".to_string()));
    assert_eq!(cmder.path(), "base");
}

#[test]
fn exit_keyword_wins_over_remaining_tokens() {
    let mut cmder = sample_commander();
    let r = cmder.parse_line("exit one two", false, &mut Vec::new());
    assert_eq!(r, LineResult::Exit);
    let r = cmder.parse_line("EXIT", false, &mut Vec::new());
    assert_eq!(r, LineResult::Exit);
}

#[test]
fn exit_commits_the_navigation_before_it() {
    let mut cmder = sample_commander();
    let r = cmder.parse_line("one exit", false, &mut Vec::new());
    assert_eq!(r, LineResult::Exit);
    assert_eq!(cmder.path(), "base.one");
}

#[test]
fn unrecognized_token_leaves_state_unchanged() {
    let mut cmder = sample_commander();
    cmder.parse_line("one", false, &mut Vec::new());
    let r = cmder.parse_line("bogus", false, &mut Vec::new());
    assert_eq!(r, LineResult::Error(ParseError::UnrecognizedToken));
    assert_eq!(cmder.path(), "base.one");
}

#[test]
fn failed_line_rolls_back_its_navigation() {
    let mut cmder = sample_commander();
    let r = cmder.parse_line("one bogus", false, &mut Vec::new());
    assert_eq!(r, LineResult::Error(ParseError::UnrecognizedToken));
    assert_eq!(cmder.path(), "base");
}

#[test]
fn mixed_navigation_in_one_line() {
    let mut cmder = sample_commander();
    let r = cmder.parse_line("one c one two", false, &mut Vec::new());
    assert_eq!(r, LineResult::Moved("base.one.two".to_string()));
}

#[test]
fn echo_writes_feedback_only_when_asked() {
    let mut cmder = sample_commander();
    let mut silent: Vec<String> = Vec::new();
    let r = cmder.parse_line("bogus", false, &mut silent);
    assert_eq!(r, LineResult::Error(ParseError::UnrecognizedToken));
    assert!(silent.is_empty());

    let mut sink: Vec<String> = Vec::new();
    let r = cmder.parse_line("bogus", true, &mut sink);
    assert_eq!(r, LineResult::Error(ParseError::UnrecognizedToken));
    assert_eq!(sink, vec!["unrecognized token: bogus".to_string(), "class: one".to_string()]);
}

#[test]
fn echo_reports_ascending_past_root() {
    let mut cmder = sample_commander();
    let mut sink: Vec<String> = Vec::new();
    let r = cmder.parse_line("c", true, &mut sink);
    assert_eq!(r, LineResult::Error(ParseError::AttemptToAscendPastRoot));
    assert_eq!(sink, vec!["cannot ascend above the root class".to_string()]);
}

#[test]
fn builder_rejects_duplicate_sibling_classes() {
    let r: Result<Commander, BuildError> = Builder::default_config("base")
        .begin_class("one", "")
        .end_class()
        .begin_class("ONE", "")
        .into_commander();
    assert!(matches!(r, Err(BuildError::DuplicateName)));
}

#[test]
fn builder_rejects_empty_or_whitespace_names() {
    let r: Result<Commander, BuildError> =
        Builder::default_config("base").begin_class("", "").into_commander();
    assert!(matches!(r, Err(BuildError::InvalidName)));

    let r: Result<Commander, BuildError> =
        Builder::default_config("base").begin_class("bad name", "").into_commander();
    assert!(matches!(r, Err(BuildError::InvalidName)));
}

#[test]
fn builder_accepts_distinct_names() {
    let c: Commander = Builder::default_config("base")
        .begin_class("one", "")
        .end_class()
        .begin_class("two", "")
        .into_commander()
        .unwrap();
    assert_eq!(c.path(), "base");
}

#[test]
fn repeated_whitespace_separates_tokens() {
    let mut cmder = sample_commander();
    let r = cmder.parse_line("  one \t  two ", false, &mut Vec::new());
    assert_eq!(r, LineResult::Moved("base.one.two".to_string()));
}

#[test]
fn validity_check_accepts_built_commanders() {
    let cmder = sample_commander();
    assert!(cmder.is_wf());
}

#[test]
fn validity_check_rejects_altered_commanders() {
    let mut cmder = sample_commander();
    cmder.current = 99;
    assert!(!cmder.is_wf());

    let mut cmder = sample_commander();
    cmder.path = "elsewhere".to_string();
    assert!(!cmder.is_wf());
}

#[test]
fn non_ascii_capitals_match_only_themselves() {
    let mut cmder: Commander = Builder::default_config("base")
        .begin_class("\u{c9}cole", "")
        .into_commander()
        .unwrap();
    let r = cmder.parse_line("\u{e9}cole", false, &mut Vec::new());
    assert_eq!(r, LineResult::Error(ParseError::UnrecognizedToken));
    let r = cmder.parse_line("\u{c9}cole", false, &mut Vec::new());
    assert_eq!(r, LineResult::Moved("base.\u{c9}cole".to_string()));
}
