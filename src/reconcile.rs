use vstd::prelude::*;

use crate::provision::start_instance;
use crate::text::opt_view;
use crate::urls::{cloud_urls, first_match, get_current_url, project_name_of};

verus! {

/// Why a reconciliation pass resolved no endpoint.
#[derive(Clone, Copy, Debug, PartialEq, Eq, Structural)]
pub enum ReconcileError {
    /// The deploy ran, but its output names no instance of the project.
    NoUrlInDeployOutput,
    /// The provisioning tool could not be launched.
    SubprocessSpawnFailure,
    /// No instance of the project is live and there is nothing to deploy.
    NoRunningOrDeployableInstance,
}

/// What a pass does once the live instances have been listed.
#[derive(Debug)]
pub enum Step {
    /// A live instance of the project answers at this URL.
    Resolved(String),
    /// Run the tool with these arguments to deploy the project.
    Deploy(Vec<String>),
    /// The pass ends without an endpoint.
    Failed(ReconcileError),
}

/// The mathematical value of a `Step`.
pub enum StepView {
    Resolved(Seq<char>),
    Deploy(Seq<Seq<char>>),
    Failed(ReconcileError),
}

impl View for Step {
    type V = StepView;

    open spec fn view(&self) -> StepView {
        match self {
            Step::Resolved(u) => StepView::Resolved(u@),
            Step::Deploy(a) => StepView::Deploy(a@.map_values(|s: String| s@)),
            Step::Failed(e) => StepView::Failed(*e),
        }
    }
}

pub open spec fn deploy_word() -> Seq<char> {
    seq!['d', 'e', 'p', 'l', 'o', 'y']
}

/// The step after listing: the first live instance of the project if there is
/// one; else a deploy of the descriptor, if one is configured. `None` for the
/// output means that the tool could not be launched.
pub open spec fn list_step(
    project_name: Seq<char>,
    flow_yml_path: Option<Seq<char>>,
    list_output: Option<Seq<char>>,
) -> StepView {
    match list_output {
        None => StepView::Failed(ReconcileError::SubprocessSpawnFailure),
        Some(out) => match first_match(cloud_urls(out), project_name) {
            Some(u) => StepView::Resolved(u),
            None => match flow_yml_path {
                Some(p) => StepView::Deploy(seq![deploy_word(), p]),
                None => StepView::Failed(ReconcileError::NoRunningOrDeployableInstance),
            },
        },
    }
}

/// The outcome of a pass that deployed: the first instance of the project that
/// the deploy's own output names.
pub open spec fn deploy_outcome(project_name: Seq<char>, deploy_output: Option<Seq<char>>) -> Result<
    Seq<char>,
    ReconcileError,
> {
    match deploy_output {
        None => Err(ReconcileError::SubprocessSpawnFailure),
        Some(out) => match first_match(cloud_urls(out), project_name) {
            Some(u) => Ok(u),
            None => Err(ReconcileError::NoUrlInDeployOutput),
        },
    }
}

pub open spec fn result_view(r: Result<String, ReconcileError>) -> Result<Seq<char>, ReconcileError> {
    match r {
        Ok(u) => Ok(u@),
        Err(e) => Err(e),
    }
}

/// Decides a pass after the tool's `list` command: `list_output` is what it
/// printed, or `None` where it could not be launched. A live instance of the
/// project is always taken over a deploy.
pub fn check_jcloud(project_name: &str, flow_yml_path: &Option<String>, list_output: &Option<String>) -> (r:
    Step)
    ensures
        r@ == list_step(project_name@, opt_view(*flow_yml_path), opt_view(*list_output)),
{
    match list_output {
        None => Step::Failed(ReconcileError::SubprocessSpawnFailure),
        Some(out) => match get_current_url(out.as_str(), project_name) {
            Some(u) => Step::Resolved(u),
            None => match flow_yml_path {
                Some(p) => {
                    let a = start_instance(p.as_str());
                    assert(a@.map_values(|s: String| s@) =~= seq![deploy_word(), p@]);
                    Step::Deploy(a)
                },
                None => Step::Failed(ReconcileError::NoRunningOrDeployableInstance),
            },
        },
    }
}

/// Ends a pass that deployed: `deploy_output` is what the deploy printed, or
/// `None` where the tool could not be launched.
pub fn finish_deploy(project_name: &str, deploy_output: &Option<String>) -> (r: Result<
    String,
    ReconcileError,
>)
    ensures
        result_view(r) == deploy_outcome(project_name@, opt_view(*deploy_output)),
{
    match deploy_output {
        None => Err(ReconcileError::SubprocessSpawnFailure),
        Some(out) => match get_current_url(out.as_str(), project_name) {
            Some(u) => Ok(u),
            None => Err(ReconcileError::NoUrlInDeployOutput),
        },
    }
}

/// Where some URL of a list carries the project's name, the first such URL is found.
proof fn lemma_first_match_found(urls: Seq<Seq<char>>, name: Seq<char>, i: int)
    requires
        0 <= i < urls.len(),
        project_name_of(urls[i]) == Some(name),
    ensures
        first_match(urls, name) matches Some(u) && project_name_of(u) == Some(name),
    decreases urls.len(),
{
    if project_name_of(urls[0]) != Some(name) {
        assert(urls.drop_first()[i - 1] == urls[i]);
        lemma_first_match_found(urls.drop_first(), name, i - 1);
    }
}

/// A live instance of the project is never deployed again: where the `list`
/// output names a URL that carries the project's name, the pass resolves to an
/// instance of the project, whether or not a descriptor is configured.
pub proof fn live_instance_is_never_redeployed(
    project_name: Seq<char>,
    flow_yml_path: Option<Seq<char>>,
    list_output: Seq<char>,
    i: int,
)
    requires
        0 <= i < cloud_urls(list_output).len(),
        project_name_of(cloud_urls(list_output)[i]) == Some(project_name),
    ensures
        list_step(project_name, flow_yml_path, Some(list_output)) matches StepView::Resolved(u)
            && project_name_of(u) == Some(project_name),
{
    lemma_first_match_found(cloud_urls(list_output), project_name, i);
}

} // verus!
