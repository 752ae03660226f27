//! The arguments of a command that rewrites a shell command.
use vstd::prelude::*;

use super::running::{KeyModel, RequestModel, key_of, request_model, request_models};
use crate::rules::PackRequest;
use crate::text::{join2, opens_with, same_text, starts_with, texts};

verus! {

/// What the arguments of a rewrite say.
#[derive(Debug)]
pub struct ParsedRewrite {
    pub packs: Vec<PackRequest>,
    pub reference: Option<CallReference>,
    pub command: String,
}

/// The archived call that a rewritten command belongs to.
#[derive(Debug)]
pub struct CallReference {
    pub agent: String,
    pub account: String,
    pub session_id: String,
    pub call_id: String,
}

/// The contents of a reference.
pub open spec fn is_reference(reference: CallReference, model: KeyModel) -> bool {
    &&& reference.agent@ == model.agent
    &&& reference.account@ == model.account
    &&& reference.session_id@ == model.session
    &&& reference.call_id@ == model.call
}

/// The options of a rewrite that were read so far.
#[verifier::ext_equal]
pub struct RewriteModel {
    pub root: Option<Seq<char>>,
    pub project_pack: bool,
    pub agent: Option<Seq<char>>,
    pub account: Option<Seq<char>>,
    pub session: Option<Seq<char>>,
    pub call: Option<Seq<char>>,
    pub packs: Seq<RequestModel>,
}

/// No options, with the packs of the configuration.
pub open spec fn no_rewrite_options(packs: Seq<RequestModel>) -> RewriteModel {
    RewriteModel {
        root: None,
        project_pack: false,
        agent: None,
        account: None,
        session: None,
        call: None,
        packs,
    }
}

/// A request for a pack at a path.
pub open spec fn plain_request(path: Seq<char>) -> RequestModel {
    RequestModel { path, source: None, compiled: None }
}

/// The options of a rewrite from a place on, and the place after them. `canonical` holds, for the
/// place of each option, where the project keeps the pack that is named after it.
pub open spec fn rewrite_scanned(
    arguments: Seq<Seq<char>>,
    canonical: Seq<Result<String, String>>,
    index: nat,
    found: RewriteModel,
) -> Result<(RewriteModel, nat), Seq<char>>
    decreases arguments.len() - index,
{
    if index + 1 >= arguments.len() {
        Ok((found, index))
    } else {
        let option = arguments[index as int];
        let value = arguments[index as int + 1];
        if option == "--project-root"@ && found.root is None {
            rewrite_scanned(
                arguments,
                canonical,
                index + 2,
                RewriteModel { root: Some(value), ..found },
            )
        } else if option == "--rule-pack"@ {
            if found.root is Some {
                match canonical[index as int] {
                    Err(error) => Err(error@),
                    Ok(path) => rewrite_scanned(
                        arguments,
                        canonical,
                        index + 2,
                        RewriteModel {
                            project_pack: true,
                            packs: found.packs.push(plain_request(path@)),
                            ..found
                        },
                    ),
                }
            } else {
                rewrite_scanned(
                    arguments,
                    canonical,
                    index + 2,
                    RewriteModel { packs: found.packs.push(plain_request(value)), ..found },
                )
            }
        } else if option == "--archive-agent"@ && found.agent is None {
            rewrite_scanned(
                arguments,
                canonical,
                index + 2,
                RewriteModel { agent: Some(value), ..found },
            )
        } else if option == "--archive-account"@ && found.account is None {
            rewrite_scanned(
                arguments,
                canonical,
                index + 2,
                RewriteModel { account: Some(value), ..found },
            )
        } else if option == "--archive-session"@ && found.session is None {
            rewrite_scanned(
                arguments,
                canonical,
                index + 2,
                RewriteModel { session: Some(value), ..found },
            )
        } else if option == "--archive-call"@ && found.call is None {
            rewrite_scanned(
                arguments,
                canonical,
                index + 2,
                RewriteModel { call: Some(value), ..found },
            )
        } else if opens_with(option, "--"@) {
            Err("unknown or duplicate rewrite option: "@ + option)
        } else {
            Ok((found, index))
        }
    }
}

/// What the arguments of a rewrite say.
#[verifier::ext_equal]
pub struct RewriteOutcome {
    pub packs: Seq<RequestModel>,
    pub reference: Option<KeyModel>,
    pub command: Seq<char>,
}

/// What the arguments of a rewrite say, given the packs of the configuration.
pub open spec fn rewrite_of(
    arguments: Seq<Seq<char>>,
    canonical: Seq<Result<String, String>>,
    configured: Result<Seq<RequestModel>, Seq<char>>,
) -> Result<RewriteOutcome, Seq<char>> {
    match configured {
        Err(error) => Err(error),
        Ok(packs) => match rewrite_scanned(arguments, canonical, 0, no_rewrite_options(packs)) {
            Err(error) => Err(error),
            Ok((found, index)) => if index + 1 != arguments.len() {
                Err("rewrite requires one shell command"@)
            } else if found.root is Some && !found.project_pack {
                Err("--project-root requires a following --rule-pack"@)
            } else {
                match key_of(found.agent, found.account, found.session, found.call) {
                    Err(_) => Err("archived rewrite requires every archive identifier"@),
                    Ok(reference) => Ok(
                        RewriteOutcome {
                            packs: found.packs,
                            reference,
                            command: arguments[index as int],
                        },
                    ),
                }
            },
        },
    }
}

/// The outcome is what the arguments say.
pub open spec fn is_rewrite(
    result: Result<ParsedRewrite, String>,
    expected: Result<RewriteOutcome, Seq<char>>,
) -> bool {
    match (result, expected) {
        (Err(error), Err(message)) => error@ == message,
        (Ok(rewrite), Ok(outcome)) => {
            &&& request_models(rewrite.packs@) == outcome.packs
            &&& rewrite.command@ == outcome.command
            &&& match (rewrite.reference, outcome.reference) {
                (None, None) => true,
                (Some(reference), Some(model)) => is_reference(reference, model),
                _ => false,
            }
        },
        _ => false,
    }
}

struct RewriteState {
    root: Option<String>,
    project_pack: bool,
    agent: Option<String>,
    account: Option<String>,
    session: Option<String>,
    call: Option<String>,
    packs: Vec<PackRequest>,
}

spec fn text_model(value: Option<String>) -> Option<Seq<char>> {
    match value {
        Some(text) => Some(text@),
        None => None,
    }
}

impl RewriteState {
    spec fn model(self) -> RewriteModel {
        RewriteModel {
            root: text_model(self.root),
            project_pack: self.project_pack,
            agent: text_model(self.agent),
            account: text_model(self.account),
            session: text_model(self.session),
            call: text_model(self.call),
            packs: request_models(self.packs@),
        }
    }

    fn add_pack(&mut self, path: String)
        ensures
            final(self).model() == (RewriteModel {
                packs: old(self).model().packs.push(plain_request(path@)),
                ..old(self).model()
            }),
    {
        let ghost before = self.packs@;
        let request = PackRequest {
            path,
            expected_digest: None,
            expected_compiled_digest: None,
        };
        self.packs.push(request);
        assert(request_model(request) == plain_request(path@));
        assert(request_models(self.packs@) =~= request_models(before).push(plain_request(path@)));
    }
}

fn scan_rewrite(
    arguments: &[String],
    canonical: &Vec<Result<String, String>>,
    configured: Vec<PackRequest>,
) -> (result: Result<(RewriteState, usize), String>)
    requires
        arguments@.len() < usize::MAX - 4,
        canonical@.len() == arguments@.len(),
    ensures
        match (
            result,
            rewrite_scanned(
                texts(arguments@),
                canonical@,
                0,
                no_rewrite_options(request_models(configured@)),
            ),
        ) {
            (Ok((state, index)), Ok((found, at))) => state.model() == found && index == at && index
                <= arguments@.len() + 1,
            (Err(error), Err(message)) => error@ == message,
            _ => false,
        },
{
    let ghost all = texts(arguments@);
    let ghost begin = no_rewrite_options(request_models(configured@));
    let mut state = RewriteState {
        root: None,
        project_pack: false,
        agent: None,
        account: None,
        session: None,
        call: None,
        packs: configured,
    };
    let mut index: usize = 0;
    while index + 1 < arguments.len()
        invariant
            index <= arguments@.len() < usize::MAX - 4,
            canonical@.len() == arguments@.len(),
            all == texts(arguments@),
            begin == no_rewrite_options(request_models(configured@)),
            rewrite_scanned(all, canonical@, 0, begin) == rewrite_scanned(
                all,
                canonical@,
                index as nat,
                state.model(),
            ),
        decreases arguments@.len() - index,
    {
        assert(all[index as int] == arguments@[index as int]@);
        assert(all[index + 1] == arguments@[index + 1]@);
        let option = arguments[index].as_str();
        let value = arguments[index + 1].clone();
        if same_text(option, "--project-root") && state.root.is_none() {
            state.root = Some(value);
        } else if same_text(option, "--rule-pack") {
            if state.root.is_some() {
                match &canonical[index] {
                    Ok(path) => {
                        state.project_pack = true;
                        state.add_pack(path.clone());
                    },
                    Err(error) => {
                        return Err(error.clone());
                    },
                }
            } else {
                state.add_pack(value);
            }
        } else if same_text(option, "--archive-agent") && state.agent.is_none() {
            state.agent = Some(value);
        } else if same_text(option, "--archive-account") && state.account.is_none() {
            state.account = Some(value);
        } else if same_text(option, "--archive-session") && state.session.is_none() {
            state.session = Some(value);
        } else if same_text(option, "--archive-call") && state.call.is_none() {
            state.call = Some(value);
        } else if starts_with(option, "--") {
            return Err(join2("unknown or duplicate rewrite option: ", option));
        } else {
            return Ok((state, index));
        }
        index = index + 2;
    }
    Ok((state, index))
}

/// Read the arguments of a rewrite, given the packs of the configuration and where the project
/// keeps the packs that the arguments name.
///
/// # Errors
///
/// Returns an error when the configuration or a pack of the project cannot be used, when an option
/// is unknown or comes twice, when not exactly one command is left, or when only some of the
/// options that belong together are given.
pub fn parse_rewrite(
    arguments: &[String],
    canonical: &Vec<Result<String, String>>,
    configured: Result<Vec<PackRequest>, String>,
) -> (result: Result<ParsedRewrite, String>)
    requires
        arguments@.len() < usize::MAX - 4,
        canonical@.len() == arguments@.len(),
    ensures
        is_rewrite(
            result,
            rewrite_of(
                texts(arguments@),
                canonical@,
                match configured {
                    Ok(packs) => Ok(request_models(packs@)),
                    Err(error) => Err(error@),
                },
            ),
        ),
{
    let packs = match configured {
        Ok(packs) => packs,
        Err(error) => {
            return Err(error);
        },
    };
    let (state, index) = match scan_rewrite(arguments, canonical, packs) {
        Ok(found) => found,
        Err(error) => {
            return Err(error);
        },
    };
    if index + 1 != arguments.len() {
        return Err("rewrite requires one shell command".to_owned());
    }
    if state.root.is_some() && !state.project_pack {
        return Err("--project-root requires a following --rule-pack".to_owned());
    }
    assert(texts(arguments@)[index as int] == arguments@[index as int]@);
    let RewriteState { agent, account, session, call, packs, .. } = state;
    let reference = match (agent, account, session, call) {
        (None, None, None, None) => None,
        (Some(agent), Some(account), Some(session_id), Some(call_id)) => Some(
            CallReference { agent, account, session_id, call_id },
        ),
        _ => {
            return Err("archived rewrite requires every archive identifier".to_owned());
        },
    };
    Ok(ParsedRewrite { packs, reference, command: arguments[index].clone() })
}

} // verus!
