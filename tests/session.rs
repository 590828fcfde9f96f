use tempest::config::{compile, Action, Config, Mode, RawBinding, RawConfig};
use tempest::matcher::TrieMatchBookkeeper;
use tempest::state::State;

fn binding(phrase: &str, action: Action) -> RawBinding {
    RawBinding { phrase: phrase.to_string(), action }
}

fn command(args: &[&str]) -> Action {
    Action::Command(args.iter().map(|s| s.to_string()).collect())
}

fn keys(names: &[&str]) -> Action {
    Action::Keys(names.iter().map(|s| s.to_string()).collect())
}

fn scenario_config() -> Config {
    compile(RawConfig {
        wake_phrase: "TEMPEST RISE".to_string(),
        rest_phrase: "TEMPEST REST".to_string(),
        infer_phrase: "LISTEN".to_string(),
        actions: vec![binding("CONSOLE", command(&["blackbox"]))],
        ollama_model: "model".to_string(),
        ollama_endpoint: "http://localhost:11434/api/chat".to_string(),
    })
}

fn session(conf: Config) -> (State, TrieMatchBookkeeper, Vec<(String, Action)>) {
    let actions: Vec<(String, Action)> = conf
        .actions
        .iter()
        .map(|(p, a)| {
            let a = match a {
                Action::Keys(k) => Action::Keys(k.clone()),
                Action::Command(c) => Action::Command(c.clone()),
            };
            (p.clone(), a)
        })
        .collect();
    (State::default(), TrieMatchBookkeeper::new(conf), actions)
}

#[test]
fn wake_then_command_fires_once() {
    let (mut state, mut bk, actions) = session(scenario_config());
    assert!(state.on_partial_text(&mut bk, "TEMPEST").is_empty());
    assert!(!state.listening);
    assert!(state.on_partial_text(&mut bk, "TEMPEST RISE").is_empty());
    assert!(state.listening);
    let fired = state.on_partial_text(&mut bk, "TEMPEST RISE CONSOLE");
    assert_eq!(fired.len(), 1);
    assert_eq!(actions[fired[0]].0, "console");
    match &actions[fired[0]].1 {
        Action::Command(c) => assert_eq!(c, &vec!["blackbox".to_string()]),
        Action::Keys(_) => panic!("expected a command"),
    }
    assert!(state.already_commanded);
}

#[test]
fn same_partial_twice_fires_nothing_more() {
    let (mut state, mut bk, _) = session(scenario_config());
    state.on_partial_text(&mut bk, "TEMPEST RISE");
    assert_eq!(state.on_partial_text(&mut bk, "TEMPEST RISE CONSOLE").len(), 1);
    assert!(state.on_partial_text(&mut bk, "TEMPEST RISE CONSOLE").is_empty());
    assert!(state.on_partial_text(&mut bk, "TEMPEST RISE CONSOLE").is_empty());
}

#[test]
fn asleep_session_ignores_actions() {
    let (mut state, mut bk, _) = session(scenario_config());
    assert!(state.on_partial_text(&mut bk, "console").is_empty());
    assert!(!state.listening);
    assert!(!state.already_commanded);
}

#[test]
fn text_before_wake_does_not_fire() {
    let (mut state, mut bk, _) = session(scenario_config());
    state.on_partial_text(&mut bk, "console tempest rise");
    assert!(state.listening);
    assert_eq!(bk.actions_consumed_upto, "console tempest rise".len());
    assert!(state.on_partial_text(&mut bk, "console tempest rise").is_empty());
}

#[test]
fn rest_puts_session_to_sleep() {
    let (mut state, mut bk, _) = session(scenario_config());
    state.on_partial_text(&mut bk, "tempest rise");
    state.on_partial_text(&mut bk, "tempest rise tempest rest");
    assert!(!state.listening);
    assert!(state.on_partial_text(&mut bk, "tempest rise tempest rest console").is_empty());
}

#[test]
fn second_wake_is_consumed_without_effect() {
    let (mut state, mut bk, _) = session(scenario_config());
    state.on_partial_text(&mut bk, "tempest rise console");
    assert!(state.already_commanded);
    state.on_partial_text(&mut bk, "tempest rise console tempest rise");
    assert!(state.listening);
    assert!(state.already_commanded);
    assert_eq!(bk.modes_consumed_upto, "tempest rise console tempest rise".len());
}

#[test]
fn shorter_revision_is_ignored() {
    let (mut state, mut bk, _) = session(scenario_config());
    state.on_partial_text(&mut bk, "tempest rise");
    state.on_partial_text(&mut bk, "tempest rise and");
    assert_eq!(state.length, 16);
    assert!(state.on_partial_text(&mut bk, "tempest rise").is_empty());
    assert_eq!(state.length, 16);
}

#[test]
fn final_resets_cursors_and_flag() {
    let (mut state, mut bk, _) = session(scenario_config());
    state.on_partial_text(&mut bk, "tempest rise console");
    assert!(bk.actions_consumed_upto > 0);
    assert!(bk.modes_consumed_upto > 0);
    let out = state.on_final(&mut bk, "tempest rise console", Some(0));
    assert_eq!(out.action, None);
    assert_eq!(out.prompt, None);
    assert_eq!(bk.actions_consumed_upto, 0);
    assert_eq!(bk.modes_consumed_upto, 0);
    assert!(!state.already_commanded);
    assert_eq!(state.length, 0);
    assert!(state.listening);
}

#[test]
fn fallback_only_when_awake_and_idle() {
    let (mut state, mut bk, _) = session(scenario_config());
    assert!(!state.wants_fallback());
    assert_eq!(state.on_final(&mut bk, "open the console", Some(0)).action, None);
    state.on_partial_text(&mut bk, "tempest rise");
    state.on_final(&mut bk, "tempest rise", None);
    assert!(state.wants_fallback());
    assert_eq!(state.on_final(&mut bk, "open the console", Some(0)).action, Some(0));
    assert_eq!(state.on_final(&mut bk, "open the console", Some(7)).action, None);
    assert_eq!(state.on_final(&mut bk, "open the console", None).action, None);
}

#[test]
fn dictation_hands_text_to_the_relay() {
    let (mut state, mut bk, _) = session(scenario_config());
    state.on_partial_text(&mut bk, "tempest rise");
    state.on_final(&mut bk, "tempest rise", None);
    state.on_partial_text(&mut bk, "listen");
    assert!(state.infer);
    assert!(state.on_partial_text(&mut bk, "listen write a console poem").is_empty());
    assert!(!state.wants_fallback());
    let out = state.on_final(&mut bk, "listen write a console poem", Some(0));
    assert_eq!(out.prompt, Some(" write a console poem".to_string()));
    assert_eq!(out.action, None);
    assert!(!state.infer);
    assert!(state.listening);
}

#[test]
fn dictation_prompt_needs_a_boundary() {
    let (mut state, mut bk, _) = session(scenario_config());
    state.on_partial_text(&mut bk, "tempest rise listen");
    assert!(state.infer);
    let out = state.on_final(&mut bk, "tempest", None);
    assert_eq!(out.prompt, None);
}

#[test]
fn clear_keeps_listening() {
    let mut state = State::default();
    state.listening = true;
    state.infer = true;
    state.length = 9;
    state.already_commanded = true;
    state.clear();
    assert!(state.listening);
    assert!(!state.infer);
    assert_eq!(state.length, 0);
    assert!(!state.already_commanded);
}

#[test]
fn relay_channel_is_kept() {
    let (tx, rx) = std::sync::mpsc::channel();
    let mut state = State::default();
    assert!(state.to_ollama.is_none());
    state.ollama_channel(tx);
    state.clear();
    state.to_ollama.as_ref().unwrap().send("hello".to_string()).unwrap();
    assert_eq!(rx.recv().unwrap(), "hello");
}

#[test]
fn trigger_modes_resolve() {
    let conf = compile(RawConfig {
        wake_phrase: "Wake Up".to_string(),
        rest_phrase: "go rest".to_string(),
        infer_phrase: "take note".to_string(),
        actions: vec![binding("lock screen", keys(&["LEFTMETA", "L"]))],
        ollama_model: String::new(),
        ollama_endpoint: String::new(),
    });
    let mut bk = TrieMatchBookkeeper::new(conf);
    assert_eq!(bk.word_to_trigger(b"please wake up and go rest"), Some(Mode::Wake));
    assert_eq!(bk.modes_consumed_upto, 14);
    assert_eq!(bk.word_to_trigger(b"please wake up and go rest"), Some(Mode::Rest));
    assert_eq!(bk.word_to_trigger(b"please wake up and go rest"), None);
    assert_eq!(bk.modes_consumed_upto, 26);
    bk.clear();
    assert_eq!(bk.modes_consumed_upto, 0);
    assert_eq!(bk.word_to_trigger(b"take note"), Some(Mode::Infer));
}
