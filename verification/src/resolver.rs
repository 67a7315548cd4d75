//! The action resolver: turns an intent into an ordered plan of OS-level
//! actions with their outcomes, and a chain state machine that walks the plan
//! one attempt at a time, short-circuiting on the first success.
//!
//! Performing an action (spawning a process, opening a URL) is a capability
//! of the surrounding program; this module only decides what to attempt next
//! and what the outcome reads.

use vstd::prelude::*;

use crate::parser::Intent;
use crate::text::chars_of;
use crate::text::plus_for_spaces;
use crate::text::plus_for_spaces_spec;
use crate::text::push_all;
use crate::text::strip_spaces;
use crate::text::strip_spaces_spec;

verus! {

/// One OS-level action the resolver may ask for.
pub enum Action {
    /// Launch a process directly by identifier.
    RunApp { id: Vec<char> },
    /// Launch through the platform's secondary launcher.
    RunLauncher { id: Vec<char> },
    /// Open a URL or document with the platform's opener.
    OpenUrl { url: Vec<char> },
}

/// One attempt of a plan: the action to try and the outcome reported if it
/// succeeds.
pub struct Step {
    pub action: Action,
    pub outcome: Vec<char>,
}

/// A URL to open together with the outcome reported on success.
pub struct UrlRequest {
    pub url: Vec<char>,
    pub success: Vec<char>,
}

/// The ordered attempts for one intent, and the outcome when all of them
/// fail.
pub struct ResolutionPlan {
    pub steps: Vec<Step>,
    pub failure: Vec<char>,
}

/// The fallback web address for an unresolved application identifier.
pub open spec fn app_url_spec(id: Seq<char>) -> Seq<char> {
    "https://"@ + id + ".com/"@
}

/// The search-engine query URL for an argument, spaces plus-encoded.
pub open spec fn search_url_spec(arg: Seq<char>) -> Seq<char> {
    "https://www.google.com/search?q="@ + plus_for_spaces_spec(arg)
}

/// Outcome of a successful direct launch.
pub open spec fn launched_msg(id: Seq<char>) -> Seq<char> {
    "launched app: "@ + id
}

/// Outcome of a successful secondary-launcher launch.
pub open spec fn fallback_msg(id: Seq<char>) -> Seq<char> {
    "launched via fallback: "@ + id
}

/// Outcome of opening the fallback web address.
pub open spec fn opened_msg(url: Seq<char>) -> Seq<char> {
    "app not found, opened: "@ + url
}

/// Outcome when a URL could not be opened.
pub open spec fn failed_msg(url: Seq<char>) -> Seq<char> {
    "failed to open: "@ + url
}

/// Outcome of a search.
pub open spec fn searching_msg(arg: Seq<char>) -> Seq<char> {
    "searching for: "@ + arg
}

/// Outcome for a command with no recognized prefix.
pub open spec fn invalid_msg() -> Seq<char> {
    "invalid command"@
}

/// The plan owed to `Open(arg)`: direct launch, then the secondary launcher,
/// then the fallback web address, in that order.
pub open spec fn open_plan_ok(p: ResolutionPlan, arg: Seq<char>) -> bool {
    let id = strip_spaces_spec(arg);
    let url = app_url_spec(id);
    &&& p.steps@.len() == 3
    &&& p.steps@[0].action matches Action::RunApp { id: i } && i@ == id
    &&& p.steps@[0].outcome@ == launched_msg(id)
    &&& p.steps@[1].action matches Action::RunLauncher { id: i } && i@ == id
    &&& p.steps@[1].outcome@ == fallback_msg(id)
    &&& p.steps@[2].action matches Action::OpenUrl { url: u } && u@ == url
    &&& p.steps@[2].outcome@ == opened_msg(url)
    &&& p.failure@ == failed_msg(url)
}

/// The plan owed to `Search(arg)`: one attempt, opening the query URL.
pub open spec fn search_plan_ok(p: ResolutionPlan, arg: Seq<char>) -> bool {
    let url = search_url_spec(arg);
    &&& p.steps@.len() == 1
    &&& p.steps@[0].action matches Action::OpenUrl { url: u } && u@ == url
    &&& p.steps@[0].outcome@ == searching_msg(arg)
    &&& p.failure@ == failed_msg(url)
}

/// The plan owed to `Invalid`: no attempt, no OS interaction.
pub open spec fn invalid_plan_ok(p: ResolutionPlan) -> bool {
    &&& p.steps@.len() == 0
    &&& p.failure@ == invalid_msg()
}

/// The plan owed to each intent.
pub open spec fn plan_for_intent(p: ResolutionPlan, i: Intent) -> bool {
    match i {
        Intent::Open { arg } => open_plan_ok(p, arg@),
        Intent::Search { arg } => search_plan_ok(p, arg@),
        Intent::Invalid => invalid_plan_ok(p),
    }
}

/// The fallback web request for an unresolved identifier.
pub fn open_for_app(input: &Vec<char>) -> (r: UrlRequest)
    ensures
        r.url@ == app_url_spec(input@),
        r.success@ == opened_msg(app_url_spec(input@)),
{
    let mut url = chars_of("https://");
    push_all(&mut url, input);
    let tail = chars_of(".com/");
    push_all(&mut url, &tail);
    let mut success = chars_of("app not found, opened: ");
    push_all(&mut success, &url);
    UrlRequest { url, success }
}

/// The search request for an argument.
pub fn search_for_app(input: &Vec<char>) -> (r: UrlRequest)
    ensures
        r.url@ == search_url_spec(input@),
        r.success@ == searching_msg(input@),
{
    let mut url = chars_of("https://www.google.com/search?q=");
    let encoded = plus_for_spaces(input);
    push_all(&mut url, &encoded);
    let mut success = chars_of("searching for: ");
    push_all(&mut success, input);
    UrlRequest { url, success }
}

/// The full launch chain for an application name: the name loses its spaces
/// to become the identifier, then direct launch, secondary launcher, and the
/// fallback web address are tried in order.
pub fn try_launch_app(app_name: &Vec<char>) -> (p: ResolutionPlan)
    ensures
        open_plan_ok(p, app_name@),
{
    let id = strip_spaces(app_name);
    let req = open_for_app(&id);
    let mut steps: Vec<Step> = Vec::new();
    let mut launched = chars_of("launched app: ");
    push_all(&mut launched, &id);
    let id_copy = crate::text::copied(&id);
    steps.push(Step { action: Action::RunApp { id: id_copy }, outcome: launched });
    let mut fallback = chars_of("launched via fallback: ");
    push_all(&mut fallback, &id);
    steps.push(Step { action: Action::RunLauncher { id }, outcome: fallback });
    let url_copy = crate::text::copied(&req.url);
    let mut failure = chars_of("failed to open: ");
    push_all(&mut failure, &req.url);
    steps.push(Step { action: Action::OpenUrl { url: url_copy }, outcome: req.success });
    ResolutionPlan { steps, failure }
}

/// The plan for an intent, as the resolver contract orders it.
pub fn resolve(intent: &Intent) -> (p: ResolutionPlan)
    ensures
        plan_for_intent(p, *intent),
{
    match intent {
        Intent::Open { arg } => try_launch_app(arg),
        Intent::Search { arg } => {
            let req = search_for_app(arg);
            let mut steps: Vec<Step> = Vec::new();
            let url_copy = crate::text::copied(&req.url);
            let mut failure = chars_of("failed to open: ");
            push_all(&mut failure, &req.url);
            steps.push(Step { action: Action::OpenUrl { url: url_copy }, outcome: req.success });
            ResolutionPlan { steps, failure }
        },
        Intent::Invalid => {
            let steps: Vec<Step> = Vec::new();
            let failure = chars_of("invalid command");
            ResolutionPlan { steps, failure }
        },
    }
}

/// What the deferred check does with a surviving command: parse it, then lay
/// out the resolution plan its intent is owed.
pub fn resolve_command(cmd: &Vec<char>) -> (p: ResolutionPlan)
    ensures
        match crate::parser::open_arg_of(cmd@) {
            Some(a) => open_plan_ok(p, a),
            None => match crate::parser::search_arg_of(cmd@) {
                Some(a) => search_plan_ok(p, a),
                None => invalid_plan_ok(p),
            },
        },
{
    let intent = crate::parser::parse(cmd);
    resolve(&intent)
}

/// The walk through a plan: either about to try the step at `index`, or
/// finished with an outcome.
pub enum ChainState {
    Trying { plan: ResolutionPlan, index: usize },
    Finished { outcome: Vec<char> },
}

/// A chain never points past its plan's last step.
pub open spec fn chain_wf(s: ChainState) -> bool {
    s matches ChainState::Trying { plan, index } ==> index < plan.steps@.len()
}

/// Where walking `plan` begins: at its first step, or, for an empty plan,
/// already finished with the failure outcome.
pub open spec fn chain_start_spec(plan: ResolutionPlan) -> ChainState {
    if plan.steps@.len() == 0 {
        ChainState::Finished { outcome: plan.failure }
    } else {
        ChainState::Trying { plan, index: 0 }
    }
}

/// One transition of the chain: success finishes with the current step's
/// outcome; failure moves to the next step, or, past the last one, finishes
/// with the plan's failure outcome.
pub open spec fn chain_step_spec(s: ChainState, ok: bool) -> ChainState {
    match s {
        ChainState::Trying { plan, index } => {
            if ok {
                ChainState::Finished { outcome: plan.steps@[index as int].outcome }
            } else if index + 1 < plan.steps@.len() {
                ChainState::Trying { plan, index: (index + 1) as usize }
            } else {
                ChainState::Finished { outcome: plan.failure }
            }
        },
        ChainState::Finished { outcome } => ChainState::Finished { outcome },
    }
}

/// The action the chain asks for next, if it is not finished.
pub open spec fn chain_action_spec(s: ChainState) -> Option<Action> {
    match s {
        ChainState::Trying { plan, index } => Some(plan.steps@[index as int].action),
        ChainState::Finished { .. } => None,
    }
}

/// Begins walking a plan.
pub fn chain_start(plan: ResolutionPlan) -> (s: ChainState)
    ensures
        s == chain_start_spec(plan),
        chain_wf(s),
{
    if plan.steps.len() == 0 {
        ChainState::Finished { outcome: plan.failure }
    } else {
        ChainState::Trying { plan, index: 0 }
    }
}

/// Advances the chain after the current action reported `ok`.
pub fn chain_step(s: ChainState, ok: bool) -> (t: ChainState)
    requires
        chain_wf(s),
    ensures
        t == chain_step_spec(s, ok),
        chain_wf(t),
{
    match s {
        ChainState::Trying { plan, index } => {
            let n = plan.steps.len();
            assert(index < n);
            if ok {
                chain_finish_exact(plan, index)
            } else if index + 1 < n {
                ChainState::Trying { plan, index: index + 1 }
            } else {
                ChainState::Finished { outcome: plan.failure }
            }
        },
        ChainState::Finished { outcome } => ChainState::Finished { outcome },
    }
}

/// Finishes the chain with the outcome of the step at `index`.
fn chain_finish_exact(plan: ResolutionPlan, index: usize) -> (t: ChainState)
    requires
        index < plan.steps@.len(),
    ensures
        t == (ChainState::Finished { outcome: plan.steps@[index as int].outcome }),
{
    // Take the step out of the vector to hand its outcome over by value.
    let mut steps = plan.steps;
    let ghost steps0 = steps@;
    let step = steps.remove(index);
    proof {
        assert(step == steps0[index as int]);
    }
    ChainState::Finished { outcome: step.outcome }
}

/// The action the chain asks for next, or nothing if it is finished.
pub fn chain_action(s: &ChainState) -> (a: Option<&Action>)
    requires
        chain_wf(*s),
    ensures
        match a {
            Some(act) => chain_action_spec(*s) == Some(*act),
            None => chain_action_spec(*s) is None,
        },
{
    match s {
        ChainState::Trying { plan, index } => Some(&plan.steps[*index].action),
        ChainState::Finished { .. } => None,
    }
}

/// The finished outcome, or nothing while attempts remain.
pub fn chain_outcome(s: &ChainState) -> (r: Option<&Vec<char>>)
    ensures
        match r {
            Some(o) => s matches ChainState::Finished { outcome } && o == &outcome,
            None => s is Trying,
        },
{
    match s {
        ChainState::Trying { .. } => None,
        ChainState::Finished { outcome } => Some(outcome),
    }
}

/// Fallback ordering: on an Open plan, when the direct launch fails and the
/// secondary launcher succeeds, the chain finishes with the secondary
/// launcher's outcome and asks for no further action — the web fallback is
/// never attempted.
pub proof fn lemma_fallback_ordering(plan: ResolutionPlan, arg: Seq<char>)
    requires
        open_plan_ok(plan, arg),
    ensures
        ({
            let after_direct = chain_step_spec(chain_start_spec(plan), false);
            let after_launcher = chain_step_spec(after_direct, true);
            &&& after_direct == (ChainState::Trying { plan, index: 1usize })
            &&& after_launcher matches ChainState::Finished { outcome } && outcome@ == fallback_msg(
                strip_spaces_spec(arg),
            )
            &&& chain_action_spec(after_launcher) is None
        }),
{
}

/// The outcome of a URL request once the opener reported success or failure.
pub fn open_url_outcome(req: &UrlRequest, ok: bool) -> (r: Vec<char>)
    ensures
        ok ==> r@ == req.success@,
        !ok ==> r@ == failed_msg(req.url@),
{
    if ok {
        crate::text::copied(&req.success)
    } else {
        let mut r = chars_of("failed to open: ");
        push_all(&mut r, &req.url);
        r
    }
}

} // verus!
