//! What the command line of the laboratory asks for.

use crate::acquisition::{AcquisitionModel, AcquisitionPlan, NoisePolicy, RequestedResidency};
use crate::lab_suite::{prepared, PrepareError, PrepareErrorView};
use crate::order::{take_one_more, views, views_push};
use crate::text::{joined, text_eq};
use vstd::prelude::*;

verus! {

broadcast use views_push;

/// The largest input file that is read.
pub const MAX_BENCHMARK_INPUT_BYTES: u64 = 67_108_864;

/// How a candidate is materialized.
#[derive(Debug, Clone, Copy, PartialEq, Eq, Structural)]
pub enum CandidateBackend {
    Dense,
    LowRank,
    Sparse,
    Steering,
}

impl CandidateBackend {
    /// The word for a backend.
    pub open spec fn word(self) -> Seq<char> {
        match self {
            CandidateBackend::Dense => "dense"@,
            CandidateBackend::LowRank => "low-rank"@,
            CandidateBackend::Sparse => "sparse"@,
            CandidateBackend::Steering => "steering"@,
        }
    }
}

/// The backend of the given word, where there is one.
pub open spec fn candidate_backend(word: Seq<char>) -> Option<CandidateBackend> {
    if word == CandidateBackend::Dense.word() {
        Some(CandidateBackend::Dense)
    } else if word == CandidateBackend::LowRank.word() {
        Some(CandidateBackend::LowRank)
    } else if word == CandidateBackend::Sparse.word() {
        Some(CandidateBackend::Sparse)
    } else if word == CandidateBackend::Steering.word() {
        Some(CandidateBackend::Steering)
    } else {
        None
    }
}

/// The backend of the given word.
pub fn parse_candidate_backend(word: &str) -> (backend: Option<CandidateBackend>)
    ensures
        backend == candidate_backend(word@),
{
    if text_eq(word, "dense") {
        Some(CandidateBackend::Dense)
    } else if text_eq(word, "low-rank") {
        Some(CandidateBackend::LowRank)
    } else if text_eq(word, "sparse") {
        Some(CandidateBackend::Sparse)
    } else if text_eq(word, "steering") {
        Some(CandidateBackend::Steering)
    } else {
        None
    }
}

/// Every backend has a word of its own, by which it is found.
pub proof fn backends_are_found_by_their_words(backend: CandidateBackend)
    ensures
        candidate_backend(backend.word()) == Some(backend),
{
    reveal_strlit("dense");
    reveal_strlit("low-rank");
    reveal_strlit("sparse");
    reveal_strlit("steering");
    assert("dense"@[0] != "sparse"@[0] && "dense"@[0] != "steering"@[0]);
    assert("sparse"@[1] != "steering"@[1]);
    assert("low-rank"@[0] == 'l');
}

/// A command.
#[derive(Debug)]
pub enum Command {
    WorkspaceCreate { name: String, target: String },
    WorkspaceUse { name: String },
    WorkspaceShow,
    ModelAdd { name: String, provider: String, endpoint: String, model: String },
    ModelUse { name: String },
    /// Acquire the whole project, or the given path of it.
    Acquire { selected: Option<String> },
    BenchmarkPortability { path: String },
    CompileUniversal { path: String },
    /// Inspect the checkpoint at a root as a receiver.
    ReceiverInspect { root: String, path: String },
    DiscoverCapabilities { path: String },
    CompileUniversalPlan { path: String },
    /// Materialize a planned candidate from the given inputs.
    Materialize { backend: CandidateBackend, inputs: Vec<String> },
    /// Evaluate a candidate with an authenticated runner.
    ShadowRun { runner: String, path: String },
    SelectBackend { path: String },
    MeasureUniversality { path: String },
    GatePromotion { path: String },
    Capabilities,
}

/// The model of a [`Command`].
pub enum CommandModel {
    WorkspaceCreate { name: Seq<char>, target: Seq<char> },
    WorkspaceUse { name: Seq<char> },
    WorkspaceShow,
    ModelAdd { name: Seq<char>, provider: Seq<char>, endpoint: Seq<char>, model: Seq<char> },
    ModelUse { name: Seq<char> },
    Acquire { selected: Option<Seq<char>> },
    BenchmarkPortability { path: Seq<char> },
    CompileUniversal { path: Seq<char> },
    ReceiverInspect { root: Seq<char>, path: Seq<char> },
    DiscoverCapabilities { path: Seq<char> },
    CompileUniversalPlan { path: Seq<char> },
    Materialize { backend: CandidateBackend, inputs: Seq<Seq<char>> },
    ShadowRun { runner: Seq<char>, path: Seq<char> },
    SelectBackend { path: Seq<char> },
    MeasureUniversality { path: Seq<char> },
    GatePromotion { path: Seq<char> },
    Capabilities,
}

impl View for Command {
    type V = CommandModel;

    open spec fn view(&self) -> CommandModel {
        match self {
            Command::WorkspaceCreate { name, target } => CommandModel::WorkspaceCreate {
                name: name@,
                target: target@,
            },
            Command::WorkspaceUse { name } => CommandModel::WorkspaceUse { name: name@ },
            Command::WorkspaceShow => CommandModel::WorkspaceShow,
            Command::ModelAdd { name, provider, endpoint, model } => CommandModel::ModelAdd {
                name: name@,
                provider: provider@,
                endpoint: endpoint@,
                model: model@,
            },
            Command::ModelUse { name } => CommandModel::ModelUse { name: name@ },
            Command::Acquire { selected } => CommandModel::Acquire {
                selected: match selected {
                    Some(path) => Some(path@),
                    None => None,
                },
            },
            Command::BenchmarkPortability { path } => CommandModel::BenchmarkPortability {
                path: path@,
            },
            Command::CompileUniversal { path } => CommandModel::CompileUniversal { path: path@ },
            Command::ReceiverInspect { root, path } => CommandModel::ReceiverInspect {
                root: root@,
                path: path@,
            },
            Command::DiscoverCapabilities { path } => CommandModel::DiscoverCapabilities {
                path: path@,
            },
            Command::CompileUniversalPlan { path } => CommandModel::CompileUniversalPlan {
                path: path@,
            },
            Command::Materialize { backend, inputs } => CommandModel::Materialize {
                backend: *backend,
                inputs: views(inputs@),
            },
            Command::ShadowRun { runner, path } => CommandModel::ShadowRun {
                runner: runner@,
                path: path@,
            },
            Command::SelectBackend { path } => CommandModel::SelectBackend { path: path@ },
            Command::MeasureUniversality { path } => CommandModel::MeasureUniversality {
                path: path@,
            },
            Command::GatePromotion { path } => CommandModel::GatePromotion { path: path@ },
            Command::Capabilities => CommandModel::Capabilities,
        }
    }
}

/// How the command line is used.
pub open spec fn usage_text() -> Seq<char> {
    "usage:\n  tidex workspace create <name> --target <absolute-path>\n  tidex workspace use <name>\n  tidex workspace show\n  tidex model add <name> --provider openai-compatible --url <endpoint> --model <model>\n  tidex model use <name>\n  tidex acquire [--path <relative-project-path>]\n  tidex benchmark portability <input.json>\n  tidex compile universal <input.json>\n  tidex receiver inspect-safetensors <model-root> <receiver-request.json>\n  tidex discover capabilities <discovery-request.json>\n  tidex compile universal-plan <planning-request.json>\n  tidex materialize {dense|low-rank|sparse|steering} <input>...\n  tidex shadow run <authenticated-runner> <shadow-input.json>\n  tidex select backend <selection-input.json>\n  tidex measure universality <universality-input.json>\n  tidex gate promotion <promotion-gate-input.json>\n  tidex capabilities"@
}

/// How the command line is used.
pub fn usage() -> (text: &'static str)
    ensures
        text@ == usage_text(),
{
    "usage:\n  tidex workspace create <name> --target <absolute-path>\n  tidex workspace use <name>\n  tidex workspace show\n  tidex model add <name> --provider openai-compatible --url <endpoint> --model <model>\n  tidex model use <name>\n  tidex acquire [--path <relative-project-path>]\n  tidex benchmark portability <input.json>\n  tidex compile universal <input.json>\n  tidex receiver inspect-safetensors <model-root> <receiver-request.json>\n  tidex discover capabilities <discovery-request.json>\n  tidex compile universal-plan <planning-request.json>\n  tidex materialize {dense|low-rank|sparse|steering} <input>...\n  tidex shadow run <authenticated-runner> <shadow-input.json>\n  tidex select backend <selection-input.json>\n  tidex measure universality <universality-input.json>\n  tidex gate promotion <promotion-gate-input.json>\n  tidex capabilities"
}

/// The command that arguments stand for, where they stand for one.
pub open spec fn command_of(args: Seq<Seq<char>>) -> Option<CommandModel> {
    if args.len() == 5 && args[0] == "workspace"@ && args[1] == "create"@ && args[3]
        == "--target"@ {
        Some(CommandModel::WorkspaceCreate { name: args[2], target: args[4] })
    } else if args.len() == 3 && args[0] == "workspace"@ && args[1] == "use"@ {
        Some(CommandModel::WorkspaceUse { name: args[2] })
    } else if args.len() == 2 && args[0] == "workspace"@ && args[1] == "show"@ {
        Some(CommandModel::WorkspaceShow)
    } else if args.len() == 9 && args[0] == "model"@ && args[1] == "add"@ && args[3]
        == "--provider"@ && args[5] == "--url"@ && args[7] == "--model"@ {
        Some(
            CommandModel::ModelAdd {
                name: args[2],
                provider: args[4],
                endpoint: args[6],
                model: args[8],
            },
        )
    } else if args.len() == 3 && args[0] == "model"@ && args[1] == "use"@ {
        Some(CommandModel::ModelUse { name: args[2] })
    } else if args.len() == 1 && args[0] == "acquire"@ {
        Some(CommandModel::Acquire { selected: None })
    } else if args.len() == 3 && args[0] == "acquire"@ && args[1] == "--path"@ {
        Some(CommandModel::Acquire { selected: Some(args[2]) })
    } else if args.len() == 3 && args[0] == "benchmark"@ && args[1] == "portability"@ {
        Some(CommandModel::BenchmarkPortability { path: args[2] })
    } else if args.len() == 3 && args[0] == "compile"@ && args[1] == "universal"@ {
        Some(CommandModel::CompileUniversal { path: args[2] })
    } else if args.len() == 4 && args[0] == "receiver"@ && args[1] == "inspect-safetensors"@ {
        Some(CommandModel::ReceiverInspect { root: args[2], path: args[3] })
    } else if args.len() == 3 && args[0] == "discover"@ && args[1] == "capabilities"@ {
        Some(CommandModel::DiscoverCapabilities { path: args[2] })
    } else if args.len() == 3 && args[0] == "compile"@ && args[1] == "universal-plan"@ {
        Some(CommandModel::CompileUniversalPlan { path: args[2] })
    } else if args.len() >= 3 && args[0] == "materialize"@ && candidate_backend(args[1]) is Some {
        Some(
            CommandModel::Materialize {
                backend: candidate_backend(args[1])->0,
                inputs: args.skip(2),
            },
        )
    } else if args.len() == 4 && args[0] == "shadow"@ && args[1] == "run"@ {
        Some(CommandModel::ShadowRun { runner: args[2], path: args[3] })
    } else if args.len() == 3 && args[0] == "select"@ && args[1] == "backend"@ {
        Some(CommandModel::SelectBackend { path: args[2] })
    } else if args.len() == 3 && args[0] == "measure"@ && args[1] == "universality"@ {
        Some(CommandModel::MeasureUniversality { path: args[2] })
    } else if args.len() == 3 && args[0] == "gate"@ && args[1] == "promotion"@ {
        Some(CommandModel::GatePromotion { path: args[2] })
    } else if args.len() == 1 && args[0] == "capabilities"@ {
        Some(CommandModel::Capabilities)
    } else {
        None
    }
}

/// Whether an argument is the given word.
fn is_word(args: &Vec<String>, at: usize, word: &str) -> (yes: bool)
    requires
        at < args@.len(),
    ensures
        yes == (views(args@)[at as int] == word@),
{
    assert(views(args@)[at as int] == args@[at as int]@);
    text_eq(args[at].as_str(), word)
}

/// A copy of an argument.
fn word(args: &Vec<String>, at: usize) -> (text: String)
    requires
        at < args@.len(),
    ensures
        text@ == views(args@)[at as int],
{
    args[at].clone()
}

/// Whether an argument is the word for a backend.
fn is_backend(args: &Vec<String>, at: usize) -> (yes: bool)
    requires
        at < args@.len(),
    ensures
        yes == (candidate_backend(views(args@)[at as int]) is Some),
{
    assert(views(args@)[at as int] == args@[at as int]@);
    parse_candidate_backend(args[at].as_str()).is_some()
}

/// Copies of the arguments from a position on.
fn words_from(args: &Vec<String>, from: usize) -> (words: Vec<String>)
    requires
        from <= args@.len(),
    ensures
        views(words@) == views(args@).skip(from as int),
{
    let ghost rest = views(args@).skip(from as int);
    let mut words: Vec<String> = Vec::new();
    assert(rest.take(0) =~= views(words@));
    for i in from..args.len()
        invariant
            rest == views(args@).skip(from as int),
            from <= args@.len(),
            views(words@) == rest.take(i - from),
    {
        words.push(args[i].clone());
        proof {
            take_one_more(rest, i - from);
            assert(rest[i - from] == args@[i as int]@);
        }
    }
    assert(rest.take(rest.len() as int) == rest);
    words
}

/// Reads a command; without one, the error is how the command line is used.
pub fn parse_command(args: &Vec<String>) -> (command: Result<Command, PrepareError>)
    ensures
        prepared(command) == (match command_of(views(args@)) {
            Some(command) => Ok(command),
            None => Err(PrepareErrorView::Message(usage_text())),
        }),
{
    let n: usize = args.len();
    let command = if n == 5 && is_word(args, 0, "workspace") && is_word(args, 1, "create")
        && is_word(args, 3, "--target") {
        Command::WorkspaceCreate { name: word(args, 2), target: word(args, 4) }
    } else if n == 3 && is_word(args, 0, "workspace") && is_word(args, 1, "use") {
        Command::WorkspaceUse { name: word(args, 2) }
    } else if n == 2 && is_word(args, 0, "workspace") && is_word(args, 1, "show") {
        Command::WorkspaceShow
    } else if n == 9 && is_word(args, 0, "model") && is_word(args, 1, "add") && is_word(
        args,
        3,
        "--provider",
    ) && is_word(args, 5, "--url") && is_word(args, 7, "--model") {
        Command::ModelAdd {
            name: word(args, 2),
            provider: word(args, 4),
            endpoint: word(args, 6),
            model: word(args, 8),
        }
    } else if n == 3 && is_word(args, 0, "model") && is_word(args, 1, "use") {
        Command::ModelUse { name: word(args, 2) }
    } else if n == 1 && is_word(args, 0, "acquire") {
        Command::Acquire { selected: None }
    } else if n == 3 && is_word(args, 0, "acquire") && is_word(args, 1, "--path") {
        Command::Acquire { selected: Some(word(args, 2)) }
    } else if n == 3 && is_word(args, 0, "benchmark") && is_word(args, 1, "portability") {
        Command::BenchmarkPortability { path: word(args, 2) }
    } else if n == 3 && is_word(args, 0, "compile") && is_word(args, 1, "universal") {
        Command::CompileUniversal { path: word(args, 2) }
    } else if n == 4 && is_word(args, 0, "receiver") && is_word(args, 1, "inspect-safetensors") {
        Command::ReceiverInspect { root: word(args, 2), path: word(args, 3) }
    } else if n == 3 && is_word(args, 0, "discover") && is_word(args, 1, "capabilities") {
        Command::DiscoverCapabilities { path: word(args, 2) }
    } else if n == 3 && is_word(args, 0, "compile") && is_word(args, 1, "universal-plan") {
        Command::CompileUniversalPlan { path: word(args, 2) }
    } else if n >= 3 && is_word(args, 0, "materialize") && is_backend(args, 1) {
        assert(views(args@)[1] == args@[1]@);
        match parse_candidate_backend(args[1].as_str()) {
            Some(backend) => Command::Materialize { backend, inputs: words_from(args, 2) },
            None => {
                return Err(PrepareError::message(usage()));
            },
        }
    } else if n == 4 && is_word(args, 0, "shadow") && is_word(args, 1, "run") {
        Command::ShadowRun { runner: word(args, 2), path: word(args, 3) }
    } else if n == 3 && is_word(args, 0, "select") && is_word(args, 1, "backend") {
        Command::SelectBackend { path: word(args, 2) }
    } else if n == 3 && is_word(args, 0, "measure") && is_word(args, 1, "universality") {
        Command::MeasureUniversality { path: word(args, 2) }
    } else if n == 3 && is_word(args, 0, "gate") && is_word(args, 1, "promotion") {
        Command::GatePromotion { path: word(args, 2) }
    } else if n == 1 && is_word(args, 0, "capabilities") {
        Command::Capabilities
    } else {
        return Err(PrepareError::message(usage()));
    };
    Ok(command)
}

/// Who serves a model.
#[derive(Debug, Clone, Copy, PartialEq, Eq, Structural)]
pub enum ModelProvider {
    OpenAiCompatible,
}

impl View for ModelProvider {
    type V = ModelProvider;

    open spec fn view(&self) -> ModelProvider {
        *self
    }
}

/// The provider of the given name.
pub fn parse_provider(name: &str) -> (provider: Result<ModelProvider, PrepareError>)
    ensures
        prepared(provider) == (if name@ == "openai-compatible"@ {
            Ok(ModelProvider::OpenAiCompatible)
        } else {
            Err(PrepareErrorView::Message("model_provider_invalid"@))
        }),
{
    if text_eq(name, "openai-compatible") {
        Ok(ModelProvider::OpenAiCompatible)
    } else {
        Err(PrepareError::message("model_provider_invalid"))
    }
}

/// Refuses an input that is larger than what may be read.
pub fn check_input_length(bytes: &Vec<u8>) -> (checked: Result<(), PrepareError>)
    ensures
        prepared(checked) == (if bytes@.len() > MAX_BENCHMARK_INPUT_BYTES {
            Err(PrepareErrorView::Message("tidex_benchmark_input_too_large"@))
        } else {
            Ok(())
        }),
{
    if bytes.len() as u64 > MAX_BENCHMARK_INPUT_BYTES {
        return Err(PrepareError::message("tidex_benchmark_input_too_large"));
    }
    Ok(())
}

/// What an acquisition of the named workspace captures: at most a hundred
/// thousand files and eight gibibytes, without what tools have generated.
pub fn acquire_workspace(workspace: &str, selected: Option<String>) -> (plan: AcquisitionPlan)
    ensures
        plan@ == (AcquisitionModel {
            acquisition_id: "workspace-"@ + workspace@ + "-capture"@,
            declared_path: match selected {
                Some(path) => Some(path@),
                None => None,
            },
            residency: RequestedResidency::BestVerified,
            noise_policy: NoisePolicy::ConservativeGeneratedArtifacts,
            max_files: 100_000,
            max_total_bytes: 8_589_934_592,
        }),
{
    let prefix = joined("workspace-", workspace);
    AcquisitionPlan {
        acquisition_id: joined(prefix.as_str(), "-capture"),
        declared_path: selected,
        residency: RequestedResidency::BestVerified,
        noise_policy: NoisePolicy::ConservativeGeneratedArtifacts,
        max_files: 100_000,
        max_total_bytes: 8_589_934_592,
    }
}

/// The words that a command is given by.
pub open spec fn words_of(command: CommandModel) -> Seq<Seq<char>> {
    match command {
        CommandModel::WorkspaceCreate { name, target } => seq![
            "workspace"@,
            "create"@,
            name,
            "--target"@,
            target,
        ],
        CommandModel::WorkspaceUse { name } => seq!["workspace"@, "use"@, name],
        CommandModel::WorkspaceShow => seq!["workspace"@, "show"@],
        CommandModel::ModelAdd { name, provider, endpoint, model } => seq![
            "model"@,
            "add"@,
            name,
            "--provider"@,
            provider,
            "--url"@,
            endpoint,
            "--model"@,
            model,
        ],
        CommandModel::ModelUse { name } => seq!["model"@, "use"@, name],
        CommandModel::Acquire { selected } => match selected {
            None => seq!["acquire"@],
            Some(path) => seq!["acquire"@, "--path"@, path],
        },
        CommandModel::BenchmarkPortability { path } => seq!["benchmark"@, "portability"@, path],
        CommandModel::CompileUniversal { path } => seq!["compile"@, "universal"@, path],
        CommandModel::ReceiverInspect { root, path } => seq![
            "receiver"@,
            "inspect-safetensors"@,
            root,
            path,
        ],
        CommandModel::DiscoverCapabilities { path } => seq!["discover"@, "capabilities"@, path],
        CommandModel::CompileUniversalPlan { path } => seq!["compile"@, "universal-plan"@, path],
        CommandModel::Materialize { backend, inputs } => seq!["materialize"@, backend.word()]
            + inputs,
        CommandModel::ShadowRun { runner, path } => seq!["shadow"@, "run"@, runner, path],
        CommandModel::SelectBackend { path } => seq!["select"@, "backend"@, path],
        CommandModel::MeasureUniversality { path } => seq!["measure"@, "universality"@, path],
        CommandModel::GatePromotion { path } => seq!["gate"@, "promotion"@, path],
        CommandModel::Capabilities => seq!["capabilities"@],
    }
}

/// Commands and their words correspond: a command is recognised in its own words, and
/// nothing else is recognised as it. Only a materialization needs an input at least.
pub proof fn commands_are_recognised_by_their_words(command: CommandModel, args: Seq<Seq<char>>)
    ensures
        command_of(args) == Some(command) ==> args == words_of(command),
        !(command is Materialize && command->inputs.len() == 0) ==> command_of(words_of(command))
            == Some(command),
{
    if command_of(args) == Some(command) {
        if command is Materialize {
            assert(candidate_backend(args[1])->0.word() == args[1]);
            assert(args =~= seq!["materialize"@, args[1]] + args.skip(2));
        }
        assert(args =~= words_of(command));
    }
    reveal_strlit("workspace");
    reveal_strlit("model");
    reveal_strlit("acquire");
    reveal_strlit("benchmark");
    reveal_strlit("compile");
    reveal_strlit("discover");
    reveal_strlit("materialize");
    reveal_strlit("select");
    reveal_strlit("measure");
    reveal_strlit("gate");
    reveal_strlit("receiver");
    reveal_strlit("shadow");
    reveal_strlit("capabilities");
    reveal_strlit("universal");
    reveal_strlit("universal-plan");
    assert("workspace"@.len() == 9 && "model"@.len() == 5 && "acquire"@.len() == 7);
    assert("benchmark"@.len() == 9 && "compile"@.len() == 7 && "discover"@.len() == 8);
    assert("materialize"@.len() == 11 && "select"@.len() == 6 && "measure"@.len() == 7);
    assert("gate"@.len() == 4 && "receiver"@.len() == 8 && "shadow"@.len() == 6);
    assert("capabilities"@.len() == 12 && "universal"@.len() == 9 && "universal-plan"@.len() == 14);
    assert("workspace"@[0] == 'w' && "benchmark"@[0] == 'b');
    assert("acquire"@[0] == 'a' && "compile"@[0] == 'c' && "measure"@[0] == 'm');
    assert("discover"@[0] == 'd' && "receiver"@[0] == 'r');
    assert("select"@[1] == 'e' && "shadow"@[1] == 'h');
    let words = words_of(command);
    if let CommandModel::Materialize { backend, inputs } = command {
        backends_are_found_by_their_words(backend);
        assert(words[0] == "materialize"@ && words[1] == backend.word());
        assert(words.skip(2) =~= inputs);
    }
}

} // verus!
