use tempest::config::{compile, Action, Mode, RawBinding, RawConfig};
use tempest::matcher::TrieMatchBookkeeper;

fn binding(phrase: &str, action: Action) -> RawBinding {
    RawBinding { phrase: phrase.to_string(), action }
}

fn command(args: &[&str]) -> Action {
    Action::Command(args.iter().map(|s| s.to_string()).collect())
}

fn raw(actions: Vec<RawBinding>) -> RawConfig {
    RawConfig {
        wake_phrase: "Computer".to_string(),
        rest_phrase: "Sleep Now".to_string(),
        infer_phrase: "Write This".to_string(),
        actions,
        ollama_model: "llama3".to_string(),
        ollama_endpoint: "http://127.0.0.1:11434/api/chat".to_string(),
    }
}

#[test]
fn compile_folds_case_and_keeps_last_binding() {
    let conf = compile(raw(vec![
        binding("Open Browser", command(&["firefox"])),
        binding("", command(&["nothing"])),
        binding("Terminal", command(&["xterm"])),
        binding("OPEN BROWSER", command(&["chromium"])),
    ]));
    assert_eq!(conf.actions.len(), 2);
    assert_eq!(conf.actions[0].0, "open browser");
    match &conf.actions[0].1 {
        Action::Command(c) => assert_eq!(c, &vec!["chromium".to_string()]),
        Action::Keys(_) => panic!("expected a command"),
    }
    assert_eq!(conf.actions[1].0, "terminal");
    assert_eq!(conf.keys, vec!["open browser".to_string(), "terminal".to_string()]);
    assert!(conf.word_trie.exact_match("terminal"));
    assert!(!conf.word_trie.exact_match(""));
    assert_eq!(conf.ollama_model, "llama3");
    let modes: Vec<(String, Mode)> = conf.modes.iter().map(|(p, m)| (p.clone(), *m)).collect();
    assert_eq!(
        modes,
        vec![
            ("computer".to_string(), Mode::Wake),
            ("sleep now".to_string(), Mode::Rest),
            ("write this".to_string(), Mode::Infer),
        ]
    );
}

#[test]
fn same_trigger_phrase_keeps_last_mode() {
    let mut r = raw(vec![]);
    r.rest_phrase = "COMPUTER".to_string();
    let conf = compile(r);
    assert_eq!(conf.modes.len(), 2);
    assert_eq!(conf.modes[0].0, "computer");
    assert_eq!(conf.modes[0].1, Mode::Rest);
}

#[test]
fn actions_fire_left_to_right_without_overlap() {
    let conf = compile(raw(vec![
        binding("open", command(&["a"])),
        binding("pen drive", command(&["b"])),
        binding("close", command(&["c"])),
    ]));
    let mut bk = TrieMatchBookkeeper::new(conf);
    let fired = bk.word_to_action(b"open drive close");
    assert_eq!(fired, vec![0, 2]);
    assert_eq!(bk.actions_consumed_upto, 16);
    assert!(bk.word_to_action(b"open drive close").is_empty());
}

#[test]
fn earliest_completion_wins() {
    let conf = compile(raw(vec![
        binding("go", command(&["short"])),
        binding("gone", command(&["long"])),
    ]));
    let mut bk = TrieMatchBookkeeper::new(conf);
    // "go" is also the start of "gone": nothing is decided while both remain.
    assert!(bk.word_to_action(b"go").is_empty());
    assert_eq!(bk.word_to_action(b"gone"), vec![1]);
}

#[test]
fn growing_transcript_fires_each_phrase_once() {
    let make = || {
        TrieMatchBookkeeper::new(compile(raw(vec![
            binding("volume up", command(&["up"])),
            binding("next track", command(&["next"])),
        ])))
    };
    let whole = b"please volume up then next track now";
    let mut at_once = make();
    let all = at_once.word_to_action(whole);
    assert_eq!(all, vec![0, 1]);

    let mut stepwise = make();
    let mut fired = Vec::new();
    let mut steps_with_fire = Vec::new();
    for end in 1..=whole.len() {
        let got = stepwise.word_to_action(&whole[..end]);
        if !got.is_empty() {
            steps_with_fire.push(end);
        }
        fired.extend(got);
    }
    assert_eq!(fired, all);
    assert_eq!(steps_with_fire, vec![16, 32]);
    assert_eq!(stepwise.actions_consumed_upto, at_once.actions_consumed_upto);
}

#[test]
fn failed_partial_match_resynchronizes() {
    let conf = compile(raw(vec![binding("ab", command(&["x"]))]));
    let mut bk = TrieMatchBookkeeper::new(conf);
    assert_eq!(bk.word_to_action(b"aab"), vec![0]);
    assert_eq!(bk.actions_consumed_upto, 3);
}
