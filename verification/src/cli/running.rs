//! The arguments of a command that runs another one.
use vstd::prelude::*;

use crate::archive::model::{ArchiveKey, SessionIdentity};
use crate::digest::{digest_of, parse_digest};
use crate::rules::PackRequest;
use crate::text::{join2, opens_with, same_text, starts_with, texts};

verus! {

/// The contents of a [`PackRequest`].
#[verifier::ext_equal]
pub struct RequestModel {
    pub path: Seq<char>,
    pub source: Option<Seq<u8>>,
    pub compiled: Option<Seq<u8>>,
}

/// The contents of an optional digest.
pub open spec fn digest_model(digest: Option<[u8; 32]>) -> Option<Seq<u8>> {
    match digest {
        Some(bytes) => Some(bytes@),
        None => None,
    }
}

/// The contents of a request.
pub open spec fn request_model(request: PackRequest) -> RequestModel {
    RequestModel {
        path: request.path@,
        source: digest_model(request.expected_digest),
        compiled: digest_model(request.expected_compiled_digest),
    }
}

/// The contents of some requests.
pub open spec fn request_models(requests: Seq<PackRequest>) -> Seq<RequestModel> {
    requests.map_values(|request: PackRequest| request_model(request))
}

/// The rule that a run expects to be selected.
#[derive(Clone, Debug)]
pub struct ExpectedSelection {
    pub pack_id: String,
    pub rule_id: String,
    pub source_digest: [u8; 32],
}

/// What the arguments of a run say.
#[derive(Debug)]
pub struct ParsedRun {
    pub key: Option<ArchiveKey>,
    pub child: Vec<String>,
    pub packs: Vec<PackRequest>,
    pub expected: Option<ExpectedSelection>,
}

/// The call of an archive key.
#[verifier::ext_equal]
pub struct KeyModel {
    pub agent: Seq<char>,
    pub account: Seq<char>,
    pub session: Seq<char>,
    pub call: Seq<char>,
}

/// The contents of an archive key. It does not say when the session started.
pub open spec fn is_key(key: ArchiveKey, model: KeyModel) -> bool {
    &&& key.session.agent@ == model.agent
    &&& key.session.account@ == model.account
    &&& key.session.source_session_id@ == model.session
    &&& key.session.started_at_ms is None
    &&& key.source_call_id@ == model.call
}

/// The options of a run that were read so far.
#[verifier::ext_equal]
pub struct RunModel {
    pub pack: Option<Seq<char>>,
    pub rule: Option<Seq<char>>,
    pub digest: Option<Seq<u8>>,
    pub agent: Option<Seq<char>>,
    pub account: Option<Seq<char>>,
    pub session: Option<Seq<char>>,
    pub call: Option<Seq<char>>,
    pub packs: Seq<RequestModel>,
}

/// No options.
pub open spec fn no_options() -> RunModel {
    RunModel {
        pack: None,
        rule: None,
        digest: None,
        agent: None,
        account: None,
        session: None,
        call: None,
        packs: Seq::empty(),
    }
}

/// A digest that may follow at a place, and the place after it.
pub open spec fn digest_option(arguments: Seq<Seq<char>>, index: nat, option: Seq<char>) -> Result<
    (Option<Seq<u8>>, nat),
    Seq<char>,
> {
    if index < arguments.len() && arguments[index as int] == option {
        if index + 1 >= arguments.len() {
            Err(option + " requires a value"@)
        } else {
            match digest_of(vstd::utf8::encode_utf8(arguments[index as int + 1])) {
                Ok(digest) => Ok((Some(digest), index + 2)),
                Err(error) => Err(error),
            }
        }
    } else {
        Ok((None, index))
    }
}

/// A pack that is named at a place with its digests, and the place after it.
pub open spec fn pack_option(arguments: Seq<Seq<char>>, index: nat) -> Result<
    (RequestModel, nat),
    Seq<char>,
> {
    match digest_option(arguments, index + 2, "--rule-pack-digest"@) {
        Err(error) => Err(error),
        Ok((source, second)) => match digest_option(
            arguments,
            second,
            "--rule-pack-compiled-digest"@,
        ) {
            Err(error) => Err(error),
            Ok((compiled, next)) => if source is Some != compiled is Some {
                Err("rule pack source and compiled digests must be supplied together"@)
            } else {
                Ok((RequestModel { path: arguments[index as int + 1], source, compiled }, next))
            },
        },
    }
}

/// The options of a run from a place on, and the place of the separator.
pub open spec fn scanned(arguments: Seq<Seq<char>>, index: nat, found: RunModel) -> Result<
    (RunModel, nat),
    Seq<char>,
>
    decreases arguments.len() - index,
{
    if index >= arguments.len() || arguments[index as int] == "--"@ {
        Ok((found, index))
    } else {
        let option = arguments[index as int];
        if index + 1 >= arguments.len() {
            Err(option + " requires a value"@)
        } else {
            let value = arguments[index as int + 1];
            if option == "--selected-pack"@ && found.pack is None {
                scanned(arguments, index + 2, RunModel { pack: Some(value), ..found })
            } else if option == "--selected-rule"@ && found.rule is None {
                scanned(arguments, index + 2, RunModel { rule: Some(value), ..found })
            } else if option == "--selected-digest"@ && found.digest is None {
                match digest_of(vstd::utf8::encode_utf8(value)) {
                    Ok(digest) => scanned(
                        arguments,
                        index + 2,
                        RunModel { digest: Some(digest), ..found },
                    ),
                    Err(error) => Err(error),
                }
            } else if option == "--archive-agent"@ && found.agent is None {
                scanned(arguments, index + 2, RunModel { agent: Some(value), ..found })
            } else if option == "--archive-account"@ && found.account is None {
                scanned(arguments, index + 2, RunModel { account: Some(value), ..found })
            } else if option == "--archive-session"@ && found.session is None {
                scanned(arguments, index + 2, RunModel { session: Some(value), ..found })
            } else if option == "--archive-call"@ && found.call is None {
                scanned(arguments, index + 2, RunModel { call: Some(value), ..found })
            } else if option == "--rule-pack"@ {
                match pack_option(arguments, index) {
                    Err(error) => Err(error),
                    Ok((request, next)) => if next > index {
                        scanned(
                            arguments,
                            next,
                            RunModel { packs: found.packs.push(request), ..found },
                        )
                    } else {
                        Err(Seq::empty())
                    },
                }
            } else if opens_with(option, "--"@) {
                Err("unknown or duplicate run option: "@ + option)
            } else {
                Err("invalid run option: "@ + option)
            }
        }
    }
}

/// The four identifiers of a call: all of them, or none.
pub open spec fn key_of(
    agent: Option<Seq<char>>,
    account: Option<Seq<char>>,
    session: Option<Seq<char>>,
    call: Option<Seq<char>>,
) -> Result<Option<KeyModel>, ()> {
    match (agent, account, session, call) {
        (None, None, None, None) => Ok(None),
        (Some(agent), Some(account), Some(session), Some(call)) => Ok(
            Some(KeyModel { agent, account, session, call }),
        ),
        _ => Err(()),
    }
}

/// What the arguments of a run say.
#[verifier::ext_equal]
pub struct RunOutcome {
    pub key: Option<KeyModel>,
    pub child: Seq<Seq<char>>,
    pub packs: Seq<RequestModel>,
    pub expected: Option<(Seq<char>, Seq<char>, Seq<u8>)>,
}

/// What the arguments of a run say, given the packs of the configuration. Those are used unless a
/// rule was selected before.
pub open spec fn run_of(
    arguments: Seq<Seq<char>>,
    configured: Result<Seq<RequestModel>, Seq<char>>,
) -> Result<RunOutcome, Seq<char>> {
    match scanned(arguments, 0, no_options()) {
        Err(error) => Err(error),
        Ok((found, index)) => if index + 1 >= arguments.len() {
            Err("run requires -- and a child command"@)
        } else {
            let expected = match (found.pack, found.rule, found.digest) {
                (None, None, None) => Ok(None),
                (Some(pack), Some(rule), Some(digest)) => Ok(Some((pack, rule, digest))),
                _ => Err("run requires selected pack, selected rule, and selected digest together"@),
            };
            let child = arguments.skip(index as int + 1);
            match (expected, key_of(found.agent, found.account, found.session, found.call)) {
                (Err(error), _) => Err(error),
                (Ok(_), Err(_)) => Err("archived run requires every archive identifier"@),
                (Ok(Some(selection)), Ok(key)) => Ok(
                    RunOutcome { key, child, packs: found.packs, expected: Some(selection) },
                ),
                (Ok(None), Ok(key)) => match configured {
                    Err(error) => Err(error),
                    Ok(packs) => Ok(
                        RunOutcome { key, child, packs: packs + found.packs, expected: None },
                    ),
                },
            }
        },
    }
}

/// The outcome is what the arguments say.
pub open spec fn is_run(
    result: Result<ParsedRun, String>,
    expected: Result<RunOutcome, Seq<char>>,
) -> bool {
    match (result, expected) {
        (Err(error), Err(message)) => error@ == message,
        (Ok(run), Ok(outcome)) => {
            &&& match (run.key, outcome.key) {
                (None, None) => true,
                (Some(key), Some(model)) => is_key(key, model),
                _ => false,
            }
            &&& texts(run.child@) == outcome.child
            &&& request_models(run.packs@) == outcome.packs
            &&& match (run.expected, outcome.expected) {
                (None, None) => true,
                (Some(selection), Some((pack, rule, digest))) => selection.pack_id@ == pack
                    && selection.rule_id@ == rule && selection.source_digest@ == digest,
                _ => false,
            }
        },
        _ => false,
    }
}

struct RunState {
    pack: Option<String>,
    rule: Option<String>,
    digest: Option<[u8; 32]>,
    agent: Option<String>,
    account: Option<String>,
    session: Option<String>,
    call: Option<String>,
    packs: Vec<PackRequest>,
}

spec fn text_model(value: Option<String>) -> Option<Seq<char>> {
    match value {
        Some(text) => Some(text@),
        None => None,
    }
}

impl RunState {
    spec fn model(self) -> RunModel {
        RunModel {
            pack: text_model(self.pack),
            rule: text_model(self.rule),
            digest: digest_model(self.digest),
            agent: text_model(self.agent),
            account: text_model(self.account),
            session: text_model(self.session),
            call: text_model(self.call),
            packs: request_models(self.packs@),
        }
    }
}

fn parse_digest_option(arguments: &[String], index: usize, option: &str) -> (result: Result<
    (Option<[u8; 32]>, usize),
    String,
>)
    requires
        index <= arguments@.len() + 1,
        arguments@.len() < usize::MAX - 4,
    ensures
        match (result, digest_option(texts(arguments@), index as nat, option@)) {
            (Ok((digest, next)), Ok((bytes, at))) => digest_model(digest) == bytes && next == at,
            (Err(error), Err(message)) => error@ == message,
            _ => false,
        },
        result matches Ok((digest, next)) ==> index <= next <= index + 2 && (digest is Some ==> next
            <= arguments@.len()) && (digest is None ==> next == index),
{
    if index >= arguments.len() {
        return Ok((None, index));
    }
    assert(texts(arguments@)[index as int] == arguments@[index as int]@);
    if !same_text(arguments[index].as_str(), option) {
        return Ok((None, index));
    }
    if index + 1 >= arguments.len() {
        return Err(join2(option, " requires a value"));
    }
    assert(texts(arguments@)[index + 1] == arguments@[index + 1]@);
    match parse_digest(arguments[index + 1].as_str()) {
        Ok(digest) => Ok((Some(digest), index + 2)),
        Err(error) => Err(error),
    }
}

/// Read a pack that is named at a place, with its digests.
///
/// # Errors
///
/// Returns an error when a digest lacks its value or is no digest, or when only one is given.
pub fn parse_run_pack(arguments: &[String], index: usize) -> (result: Result<
    (PackRequest, usize),
    String,
>)
    requires
        index + 1 < arguments@.len(),
        arguments@.len() < usize::MAX - 4,
    ensures
        match (result, pack_option(texts(arguments@), index as nat)) {
            (Ok((request, next)), Ok((model, at))) => request_model(request) == model && next == at,
            (Err(error), Err(message)) => error@ == message,
            _ => false,
        },
        result matches Ok((request, next)) ==> index + 2 <= next <= arguments@.len(),
{
    let (expected_digest, second) = match parse_digest_option(
        arguments,
        index + 2,
        "--rule-pack-digest",
    ) {
        Ok(found) => found,
        Err(error) => {
            return Err(error);
        },
    };
    let (expected_compiled_digest, next) = match parse_digest_option(
        arguments,
        second,
        "--rule-pack-compiled-digest",
    ) {
        Ok(found) => found,
        Err(error) => {
            return Err(error);
        },
    };
    if expected_digest.is_some() != expected_compiled_digest.is_some() {
        return Err("rule pack source and compiled digests must be supplied together".to_owned());
    }
    assert(texts(arguments@)[index + 1] == arguments@[index + 1]@);
    Ok(
        (
            PackRequest {
                path: arguments[index + 1].clone(),
                expected_digest,
                expected_compiled_digest,
            },
            next,
        ),
    )
}

fn scan(arguments: &[String]) -> (result: Result<(RunState, usize), String>)
    requires
        arguments@.len() < usize::MAX - 4,
    ensures
        match (result, scanned(texts(arguments@), 0, no_options())) {
            (Ok((state, index)), Ok((found, at))) => state.model() == found && index == at && index
                <= arguments@.len(),
            (Err(error), Err(message)) => error@ == message,
            _ => false,
        },
{
    let ghost all = texts(arguments@);
    let mut state = RunState {
        pack: None,
        rule: None,
        digest: None,
        agent: None,
        account: None,
        session: None,
        call: None,
        packs: Vec::new(),
    };
    let mut index: usize = 0;
    assert(request_models(state.packs@) =~= Seq::empty());
    while index < arguments.len()
        invariant
            index <= arguments@.len() < usize::MAX - 4,
            all == texts(arguments@),
            scanned(all, 0, no_options()) == scanned(all, index as nat, state.model()),
        decreases arguments@.len() - index,
    {
        assert(all[index as int] == arguments@[index as int]@);
        let option = arguments[index].as_str();
        if same_text(option, "--") {
            return Ok((state, index));
        }
        if index + 1 >= arguments.len() {
            return Err(join2(option, " requires a value"));
        }
        assert(all[index + 1] == arguments@[index + 1]@);
        let value = arguments[index + 1].clone();
        if same_text(option, "--selected-pack") && state.pack.is_none() {
            state.pack = Some(value);
        } else if same_text(option, "--selected-rule") && state.rule.is_none() {
            state.rule = Some(value);
        } else if same_text(option, "--selected-digest") && state.digest.is_none() {
            match parse_digest(value.as_str()) {
                Ok(digest) => {
                    state.digest = Some(digest);
                },
                Err(error) => {
                    return Err(error);
                },
            }
        } else if same_text(option, "--archive-agent") && state.agent.is_none() {
            state.agent = Some(value);
        } else if same_text(option, "--archive-account") && state.account.is_none() {
            state.account = Some(value);
        } else if same_text(option, "--archive-session") && state.session.is_none() {
            state.session = Some(value);
        } else if same_text(option, "--archive-call") && state.call.is_none() {
            state.call = Some(value);
        } else if same_text(option, "--rule-pack") {
            match parse_run_pack(arguments, index) {
                Ok((request, next)) => {
                    let ghost before = state.packs@;
                    state.packs.push(request);
                    assert(request_models(state.packs@) =~= request_models(before).push(
                        request_model(request),
                    ));
                    index = next;
                    continue;
                },
                Err(error) => {
                    return Err(error);
                },
            }
        } else if starts_with(option, "--") {
            return Err(join2("unknown or duplicate run option: ", option));
        } else {
            return Err(join2("invalid run option: ", option));
        }
        index = index + 2;
    }
    Ok((state, index))
}

/// Read the arguments of a run, given the packs of the configuration.
///
/// # Errors
///
/// Returns an error when an option is unknown, comes twice or lacks its value, when the command is
/// missing, when only some of the options that belong together are given, or when the configuration
/// is needed and cannot be used.
pub fn parse_run(arguments: &[String], configured: Result<Vec<PackRequest>, String>) -> (result:
    Result<ParsedRun, String>)
    requires
        arguments@.len() < usize::MAX - 4,
    ensures
        is_run(
            result,
            run_of(
                texts(arguments@),
                match configured {
                    Ok(packs) => Ok(request_models(packs@)),
                    Err(error) => Err(error@),
                },
            ),
        ),
{
    let (state, index) = match scan(arguments) {
        Ok(found) => found,
        Err(error) => {
            return Err(error);
        },
    };
    if index + 1 >= arguments.len() {
        return Err("run requires -- and a child command".to_owned());
    }
    let mut child: Vec<String> = Vec::new();
    let mut i: usize = index + 1;
    while i < arguments.len()
        invariant
            index + 1 <= i <= arguments@.len(),
            child@.len() == i - (index + 1),
            forall|j: int| 0 <= j < child@.len() ==> #[trigger] child@[j]@ == arguments@[index + 1 + j]@,
        decreases arguments@.len() - i,
    {
        child.push(arguments[i].clone());
        i += 1;
    }
    assert(texts(child@) =~= texts(arguments@).skip(index + 1));
    let RunState { pack, rule, digest, agent, account, session, call, mut packs } = state;
    let expected = match (pack, rule, digest) {
        (None, None, None) => None,
        (Some(pack_id), Some(rule_id), Some(source_digest)) => Some(
            ExpectedSelection { pack_id, rule_id, source_digest },
        ),
        _ => {
            return Err(
                "run requires selected pack, selected rule, and selected digest together".to_owned(),
            );
        },
    };
    let key = match (agent, account, session, call) {
        (None, None, None, None) => None,
        (Some(agent), Some(account), Some(source_session_id), Some(source_call_id)) => Some(
            ArchiveKey {
                session: SessionIdentity {
                    agent,
                    account,
                    source_session_id,
                    started_at_ms: None,
                },
                source_call_id,
            },
        ),
        _ => {
            return Err("archived run requires every archive identifier".to_owned());
        },
    };
    if expected.is_none() {
        let ghost named = packs@;
        match configured {
            Ok(mut all) => {
                let ghost before = all@;
                all.append(&mut packs);
                assert(request_models(all@) =~= request_models(before) + request_models(named));
                return Ok(ParsedRun { key, child, packs: all, expected });
            },
            Err(error) => {
                return Err(error);
            },
        }
    }
    Ok(ParsedRun { key, child, packs, expected })
}

/// Read the four options that name an archived call, which stand in a fixed order.
///
/// # Errors
///
/// Returns an error when there are other arguments or other options.
pub fn parse_archive_key(arguments: &[String]) -> (result: Result<ArchiveKey, String>)
    ensures
        ({
            let all = texts(arguments@);
            if all.len() != 8 {
                result matches Err(error) && error@ == "invalid archive key arguments"@
            } else if all[0] != "--archive-agent"@ || all[2] != "--archive-account"@ || all[4]
                != "--archive-session"@ || all[6] != "--archive-call"@ {
                result matches Err(error) && error@ == "invalid archive key options"@
            } else {
                result matches Ok(key) && is_key(
                    key,
                    KeyModel { agent: all[1], account: all[3], session: all[5], call: all[7] },
                )
            }
        }),
{
    if arguments.len() != 8 {
        return Err("invalid archive key arguments".to_owned());
    }
    assert(forall|i: int| 0 <= i < 8 ==> texts(arguments@)[i] == #[trigger] arguments@[i]@);
    if !same_text(arguments[0].as_str(), "--archive-agent") || !same_text(
        arguments[2].as_str(),
        "--archive-account",
    ) || !same_text(arguments[4].as_str(), "--archive-session") || !same_text(
        arguments[6].as_str(),
        "--archive-call",
    ) {
        return Err("invalid archive key options".to_owned());
    }
    Ok(
        ArchiveKey {
            session: SessionIdentity {
                agent: arguments[1].clone(),
                account: arguments[3].clone(),
                source_session_id: arguments[5].clone(),
                started_at_ms: None,
            },
            source_call_id: arguments[7].clone(),
        },
    )
}

} // verus!
