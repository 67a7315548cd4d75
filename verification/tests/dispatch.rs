use debounce_dispatch::debounce::on_command_received;
use debounce_dispatch::debounce::DebounceState;
use debounce_dispatch::debounce::Submission;
use debounce_dispatch::parser::open_prefixes;
use debounce_dispatch::parser::parse;
use debounce_dispatch::parser::parse_prefix;
use debounce_dispatch::parser::search_prefixes;
use debounce_dispatch::parser::Intent;
use debounce_dispatch::resolver::chain_action;
use debounce_dispatch::resolver::chain_outcome;
use debounce_dispatch::resolver::chain_start;
use debounce_dispatch::resolver::chain_step;
use debounce_dispatch::resolver::open_for_app;
use debounce_dispatch::resolver::open_url_outcome;
use debounce_dispatch::resolver::resolve;
use debounce_dispatch::resolver::resolve_command;
use debounce_dispatch::resolver::search_for_app;
use debounce_dispatch::resolver::try_launch_app;
use debounce_dispatch::resolver::Action;
use debounce_dispatch::text::chars_of;

fn cs(s: &str) -> Vec<char> {
    s.chars().collect()
}

fn expect_open(text: &str, arg: &str) {
    match parse(&cs(text)) {
        Intent::Open { arg: a } => assert_eq!(a, cs(arg), "argument for {:?}", text),
        _ => panic!("{:?} did not parse as Open", text),
    }
}

fn expect_search(text: &str, arg: &str) {
    match parse(&cs(text)) {
        Intent::Search { arg: a } => assert_eq!(a, cs(arg), "argument for {:?}", text),
        _ => panic!("{:?} did not parse as Search", text),
    }
}

const ALT_OPEN: &str = "\u{e40}\u{e1b}\u{e34}\u{e14}";
const ALT_SEARCH: &str = "\u{e04}\u{e49}\u{e19}\u{e2b}\u{e32}";

#[test]
fn parse_open_every_prefix() {
    expect_open("open calculator", "calculator");
    expect_open("opencalculator", "calculator");
    expect_open(&format!("{} calculator", ALT_OPEN), "calculator");
    expect_open(&format!("{}calculator", ALT_OPEN), "calculator");
}

#[test]
fn parse_search_every_prefix() {
    expect_search("search rust programming", "rust programming");
    expect_search("searchrust", "rust");
    expect_search(&format!("{} rust", ALT_SEARCH), "rust");
    expect_search(&format!("{}rust", ALT_SEARCH), "rust");
}

#[test]
fn parse_normalizes_case_and_whitespace() {
    expect_open("  OPEN Calculator  ", "calculator");
    expect_search("\tSearch Rust Programming\n", "rust programming");
}

#[test]
fn parse_trims_argument() {
    expect_open("open    notepad   ", "notepad");
}

#[test]
fn parse_bare_prefix_gives_empty_argument() {
    expect_open("open", "");
    expect_search("search", "");
}

#[test]
fn parse_unrecognized_is_invalid() {
    assert!(matches!(parse(&cs("xyz")), Intent::Invalid));
    assert!(matches!(parse(&cs("")), Intent::Invalid));
    assert!(matches!(parse(&cs("   ")), Intent::Invalid));
    assert!(matches!(parse(&cs("help me")), Intent::Invalid));
}

#[test]
fn parse_prefix_takes_first_listed_match() {
    let r = parse_prefix(&cs("open abc"), &open_prefixes());
    assert_eq!(r, Some(cs("abc")));
    let r = parse_prefix(&cs("nothing"), &open_prefixes());
    assert_eq!(r, None);
    let r = parse_prefix(&cs("search abc"), &search_prefixes());
    assert_eq!(r, Some(cs("abc")));
}

#[test]
fn open_plan_orders_the_three_attempts() {
    let plan = try_launch_app(&cs("visual studio code"));
    assert_eq!(plan.steps.len(), 3);
    match &plan.steps[0].action {
        Action::RunApp { id } => assert_eq!(id, &cs("visualstudiocode")),
        _ => panic!("first attempt is not a direct launch"),
    }
    assert_eq!(plan.steps[0].outcome, cs("launched app: visualstudiocode"));
    match &plan.steps[1].action {
        Action::RunLauncher { id } => assert_eq!(id, &cs("visualstudiocode")),
        _ => panic!("second attempt is not the secondary launcher"),
    }
    assert_eq!(plan.steps[1].outcome, cs("launched via fallback: visualstudiocode"));
    match &plan.steps[2].action {
        Action::OpenUrl { url } => assert_eq!(url, &cs("https://visualstudiocode.com/")),
        _ => panic!("third attempt is not the web fallback"),
    }
    assert_eq!(
        plan.steps[2].outcome,
        cs("app not found, opened: https://visualstudiocode.com/")
    );
    assert_eq!(plan.failure, cs("failed to open: https://visualstudiocode.com/"));
}

#[test]
fn fallback_only_after_direct_launch_fails() {
    let plan = resolve(&Intent::Open { arg: cs("calc") });
    let chain = chain_start(plan);
    match chain_action(&chain) {
        Some(Action::RunApp { id }) => assert_eq!(id, &cs("calc")),
        _ => panic!("chain does not start with the direct launch"),
    }
    let chain = chain_step(chain, false);
    match chain_action(&chain) {
        Some(Action::RunLauncher { id }) => assert_eq!(id, &cs("calc")),
        _ => panic!("failed direct launch does not fall back to the launcher"),
    }
    let chain = chain_step(chain, true);
    assert_eq!(chain_outcome(&chain), Some(&cs("launched via fallback: calc")));
    assert!(chain_action(&chain).is_none(), "web fallback attempted after success");
}

#[test]
fn first_success_short_circuits() {
    let plan = resolve(&Intent::Open { arg: cs("calc") });
    let chain = chain_start(plan);
    let chain = chain_step(chain, true);
    assert_eq!(chain_outcome(&chain), Some(&cs("launched app: calc")));
    assert!(chain_action(&chain).is_none());
}

#[test]
fn exhausted_chain_reports_terminal_failure() {
    let plan = resolve(&Intent::Open { arg: cs("calc") });
    let mut chain = chain_start(plan);
    let mut attempts = 0;
    while chain_action(&chain).is_some() {
        chain = chain_step(chain, false);
        attempts += 1;
    }
    assert_eq!(attempts, 3);
    assert_eq!(chain_outcome(&chain), Some(&cs("failed to open: https://calc.com/")));
}

#[test]
fn search_builds_plus_encoded_url() {
    let plan = resolve(&Intent::Search { arg: cs("rust programming") });
    assert_eq!(plan.steps.len(), 1);
    match &plan.steps[0].action {
        Action::OpenUrl { url } => {
            assert_eq!(url, &cs("https://www.google.com/search?q=rust+programming"))
        }
        _ => panic!("search does not open a URL"),
    }
    assert_eq!(plan.steps[0].outcome, cs("searching for: rust programming"));
}

#[test]
fn invalid_plan_makes_no_attempt() {
    let plan = resolve(&Intent::Invalid);
    assert_eq!(plan.steps.len(), 0);
    let chain = chain_start(plan);
    assert!(chain_action(&chain).is_none(), "an invalid command reached an OS action");
    assert_eq!(chain_outcome(&chain), Some(&cs("invalid command")));
}

#[test]
fn url_request_outcomes() {
    let req = open_for_app(&cs("calc"));
    assert_eq!(req.url, cs("https://calc.com/"));
    assert_eq!(req.success, cs("app not found, opened: https://calc.com/"));
    assert_eq!(open_url_outcome(&req, true), cs("app not found, opened: https://calc.com/"));
    assert_eq!(open_url_outcome(&req, false), cs("failed to open: https://calc.com/"));
    let req = search_for_app(&cs("rust programming"));
    assert_eq!(req.url, cs("https://www.google.com/search?q=rust+programming"));
    assert_eq!(req.success, cs("searching for: rust programming"));
}

#[test]
fn burst_keeps_only_last_submission() {
    // Two submissions 100 ms apart, well inside the 1500 ms quiet window:
    // when each deferred check runs, only the later token still matches.
    let mut state = DebounceState::new(0);
    let t0 = on_command_received(&mut state, &cs("open calculator"), 0);
    assert_eq!(t0, cs("Waiting for final input..."));
    let _ = on_command_received(&mut state, &cs("open notepad"), 100);
    assert_eq!(state.deferred_check(0), None, "superseded submission fired");
    let fired = state.deferred_check(100).expect("latest submission did not fire");
    assert_eq!(fired, cs("open notepad"));
    match parse(&fired) {
        Intent::Open { arg } => assert_eq!(arg, cs("notepad")),
        _ => panic!("surviving command is not an Open"),
    }
}

#[test]
fn spaced_submissions_both_fire() {
    // Separated by more than the quiet window: the first check runs before
    // the second submission arrives and still sees its own timestamp.
    let mut state = DebounceState::new(0);
    state.submit(cs("open calculator"), 0);
    let first = state.deferred_check(0).expect("first submission did not fire");
    assert_eq!(first, cs("open calculator"));
    state.submit(cs("open notepad"), 2000);
    let second = state.deferred_check(2000).expect("second submission did not fire");
    assert_eq!(second, cs("open notepad"));
}

#[test]
fn every_call_is_acknowledged_alike() {
    let mut state = DebounceState::new(0);
    for i in 0..5u64 {
        let ack = on_command_received(&mut state, &cs("open calculator"), i);
        assert_eq!(ack, cs("Waiting for final input..."));
    }
}

#[test]
fn duplicate_text_resets_the_window() {
    // Same text, later timestamp: the earlier token no longer matches.
    let mut state = DebounceState::new(0);
    state.submit(cs("open calculator"), 10);
    state.submit(cs("open calculator"), 20);
    assert_eq!(state.deferred_check(10), None);
    assert!(state.deferred_check(20).is_some());
}

#[test]
fn replay_burst_last_write_wins() {
    let mut state = DebounceState::new(0);
    let subs = vec![
        Submission { text: cs("open calculator"), received_at: 1 },
        Submission { text: cs("open notepad"), received_at: 2 },
        Submission { text: cs("search rust"), received_at: 3 },
    ];
    debounce_dispatch::debounce::replay(&mut state, &subs);
    assert_eq!(state.latest.text, cs("search rust"));
    assert_eq!(state.latest.received_at, 3);
}

#[test]
fn search_scenario_end_to_end() {
    let mut state = DebounceState::new(0);
    let ack = on_command_received(&mut state, &cs("search rust programming"), 0);
    assert_eq!(ack, cs("Waiting for final input..."));
    let cmd = state.deferred_check(0).expect("lone submission did not fire");
    let plan = resolve_command(&cmd);
    match &plan.steps[0].action {
        Action::OpenUrl { url } => {
            assert_eq!(url, &cs("https://www.google.com/search?q=rust+programming"))
        }
        _ => panic!("search scenario does not open a URL"),
    }
    let chain = chain_step(chain_start(plan), true);
    let outcome = chain_outcome(&chain).expect("chain not finished");
    let rendered: String = outcome.iter().collect();
    assert!(rendered.contains("searching for: rust programming"));
}

#[test]
fn invalid_scenario_end_to_end() {
    let mut state = DebounceState::new(0);
    on_command_received(&mut state, &cs("xyz"), 0);
    let cmd = state.deferred_check(0).expect("lone submission did not fire");
    let plan = resolve_command(&cmd);
    let chain = chain_start(plan);
    assert!(chain_action(&chain).is_none());
    assert_eq!(chain_outcome(&chain), Some(&cs("invalid command")));
}

#[test]
fn chars_of_round_trip() {
    let v = chars_of("open calculator");
    assert_eq!(v, cs("open calculator"));
    let s: String = v.iter().collect();
    assert_eq!(s, "open calculator");
}
