//! The `hoplite` command line: which command the arguments name, and the
//! arguments of `hoplite verify`.

use vstd::prelude::*;
use crate::text::{chars_of, owned, push_str, same_text};

verus! {

/// A command of the `hoplite` program.
#[derive(Debug, PartialEq, Eq)]
pub enum Command {
    Version,
    Serve,
    Doctor,
    Inspect,
    Verify,
    Package,
    /// `eval`, with the expression its arguments spell.
    Eval(String),
    /// `run`, with the file to run.
    Run(String),
    Repl,
    Help,
}

pub enum CommandModel {
    Version,
    Serve,
    Doctor,
    Inspect,
    Verify,
    Package,
    Eval(Seq<char>),
    Run(Seq<char>),
    Repl,
    Help,
}

/// Texts joined by single spaces.
pub open spec fn space_joined(texts: Seq<Seq<char>>) -> Seq<char>
    decreases texts.len(),
{
    if texts.len() == 0 {
        Seq::empty()
    } else if texts.len() == 1 {
        texts[0]
    } else {
        space_joined(texts.drop_last()) + " "@ + texts.last()
    }
}

/// The command the arguments name, or why they name none.
pub open spec fn command_spec(arguments: Seq<Seq<char>>) -> Result<CommandModel, Seq<char>> {
    if arguments.len() == 0 {
        Ok(CommandModel::Repl)
    } else {
        let first = arguments[0];
        if first == "version"@ || first == "--version"@ || first == "-V"@ {
            Ok(CommandModel::Version)
        } else if first == "serve"@ {
            Ok(CommandModel::Serve)
        } else if first == "doctor"@ {
            Ok(CommandModel::Doctor)
        } else if first == "inspect"@ {
            Ok(CommandModel::Inspect)
        } else if first == "verify"@ {
            Ok(CommandModel::Verify)
        } else if first == "package"@ {
            Ok(CommandModel::Package)
        } else if first == "eval"@ {
            let source = space_joined(arguments.skip(1));
            if source.len() == 0 {
                Err("eval requires a Hara expression"@)
            } else {
                Ok(CommandModel::Eval(source))
            }
        } else if first == "run"@ {
            if arguments.len() < 2 {
                Err("run requires a .hal file"@)
            } else {
                Ok(CommandModel::Run(arguments[1]))
            }
        } else if first == "repl"@ {
            Ok(CommandModel::Repl)
        } else if first == "help"@ || first == "--help"@ || first == "-h"@ {
            Ok(CommandModel::Help)
        } else {
            Err("unknown command: "@ + first)
        }
    }
}

pub open spec fn command_view(r: Result<Command, String>) -> Result<CommandModel, Seq<char>> {
    match r {
        Ok(Command::Version) => Ok(CommandModel::Version),
        Ok(Command::Serve) => Ok(CommandModel::Serve),
        Ok(Command::Doctor) => Ok(CommandModel::Doctor),
        Ok(Command::Inspect) => Ok(CommandModel::Inspect),
        Ok(Command::Verify) => Ok(CommandModel::Verify),
        Ok(Command::Package) => Ok(CommandModel::Package),
        Ok(Command::Eval(source)) => Ok(CommandModel::Eval(source@)),
        Ok(Command::Run(path)) => Ok(CommandModel::Run(path@)),
        Ok(Command::Repl) => Ok(CommandModel::Repl),
        Ok(Command::Help) => Ok(CommandModel::Help),
        Err(m) => Err(m@),
    }
}

pub open spec fn texts(arguments: Seq<String>) -> Seq<Seq<char>> {
    arguments.map_values(|a: String| a@)
}

/// The command the arguments (the program's name left out) name. The
/// arguments after the first belong to the command.
pub fn command(arguments: &Vec<String>) -> (r: Result<Command, String>)
    ensures
        command_view(r) == command_spec(texts(arguments@)),
{
    if arguments.len() == 0 {
        return Ok(Command::Repl);
    }
    let ghost args = texts(arguments@);
    let first = arguments[0].as_str();
    assert(args[0] == first@);
    if same_text(first, "version") || same_text(first, "--version") || same_text(first, "-V") {
        Ok(Command::Version)
    } else if same_text(first, "serve") {
        Ok(Command::Serve)
    } else if same_text(first, "doctor") {
        Ok(Command::Doctor)
    } else if same_text(first, "inspect") {
        Ok(Command::Inspect)
    } else if same_text(first, "verify") {
        Ok(Command::Verify)
    } else if same_text(first, "package") {
        Ok(Command::Package)
    } else if same_text(first, "eval") {
        let mut source = String::new();
        let mut i: usize = 1;
        assert(args.skip(1).take(0) =~= Seq::<Seq<char>>::empty());
        while i < arguments.len()
            invariant
                args == texts(arguments@),
                1 <= i <= arguments@.len(),
                source@ == space_joined(args.skip(1).take(i - 1)),
            decreases arguments@.len() - i,
        {
            assert(args.skip(1).take(i as int).drop_last() =~= args.skip(1).take(i - 1));
            assert(args.skip(1).take(i as int).last() == arguments@[i as int]@);
            if i > 1 {
                push_str(&mut source, " ");
            }
            push_str(&mut source, arguments[i].as_str());
            proof {
                if i == 1 {
                    assert(source@ =~= args.skip(1).take(1)[0]);
                }
            }
            i = i + 1;
        }
        assert(args.skip(1).take(i - 1) =~= args.skip(1));
        if chars_of(source.as_str()).len() == 0 {
            return Err(owned("eval requires a Hara expression"));
        }
        Ok(Command::Eval(source))
    } else if same_text(first, "run") {
        if arguments.len() < 2 {
            Err(owned("run requires a .hal file"))
        } else {
            Ok(Command::Run(arguments[1].clone()))
        }
    } else if same_text(first, "repl") {
        Ok(Command::Repl)
    } else if same_text(first, "help") || same_text(first, "--help") || same_text(first, "-h") {
        Ok(Command::Help)
    } else {
        let mut message = owned("unknown command: ");
        push_str(&mut message, first);
        Err(message)
    }
}

/// What `hoplite verify` is asked: help, or a target and a manifest, each
/// where given.
#[derive(Debug, PartialEq, Eq)]
pub enum VerifyRequest {
    Help,
    Verify { target: Option<String>, manifest: Option<String> },
}

pub enum VerifyModel {
    Help,
    Verify { target: Option<Seq<char>>, manifest: Option<Seq<char>> },
}

/// Reading `verify`'s arguments from position `i` on: `--manifest FILE`
/// sets the manifest (the last one given counts), the first other argument
/// is the target, and any further one is refused.
pub open spec fn verify_from(
    arguments: Seq<Seq<char>>,
    i: int,
    target: Option<Seq<char>>,
    manifest: Option<Seq<char>>,
) -> Result<(Option<Seq<char>>, Option<Seq<char>>), Seq<char>>
    decreases arguments.len() - i,
{
    if i < 0 || i >= arguments.len() {
        Ok((target, manifest))
    } else if arguments[i] == "--manifest"@ {
        if i + 1 >= arguments.len() {
            Err("verify --manifest requires a file"@)
        } else {
            verify_from(arguments, i + 2, target, Some(arguments[i + 1]))
        }
    } else if target is None {
        verify_from(arguments, i + 1, Some(arguments[i]), manifest)
    } else {
        Err("unexpected verify argument: "@ + arguments[i])
    }
}

pub open spec fn verify_spec(arguments: Seq<Seq<char>>) -> Result<VerifyModel, Seq<char>> {
    if arguments.len() > 0 && (arguments[0] == "--help"@ || arguments[0] == "-h"@ || arguments[0] == "help"@) {
        Ok(VerifyModel::Help)
    } else {
        match verify_from(arguments, 0, None, None) {
            Err(m) => Err(m),
            Ok((target, manifest)) => Ok(VerifyModel::Verify { target, manifest }),
        }
    }
}

pub open spec fn optional_text(value: Option<String>) -> Option<Seq<char>> {
    match value {
        Some(t) => Some(t@),
        None => None,
    }
}

pub open spec fn verify_view(r: Result<VerifyRequest, String>) -> Result<VerifyModel, Seq<char>> {
    match r {
        Ok(VerifyRequest::Help) => Ok(VerifyModel::Help),
        Ok(VerifyRequest::Verify { target, manifest }) => Ok(
            VerifyModel::Verify { target: optional_text(target), manifest: optional_text(manifest) },
        ),
        Err(m) => Err(m@),
    }
}

fn copy_text(text: &String) -> (copy: String)
    ensures
        copy@ == text@,
{
    text.clone()
}

/// The arguments of `hoplite verify`.
pub fn verify_arguments(arguments: &Vec<String>) -> (r: Result<VerifyRequest, String>)
    ensures
        verify_view(r) == verify_spec(texts(arguments@)),
{
    let ghost args = texts(arguments@);
    if arguments.len() > 0 {
        let first = arguments[0].as_str();
        assert(args[0] == first@);
        if same_text(first, "--help") || same_text(first, "-h") || same_text(first, "help") {
            return Ok(VerifyRequest::Help);
        }
    }
    let mut target: Option<String> = None;
    let mut manifest: Option<String> = None;
    let mut i: usize = 0;
    let ghost outcome = match verify_from(args, 0, None, None) {
        Err(m) => Err(m),
        Ok((t, m)) => Ok(VerifyModel::Verify { target: t, manifest: m }),
    };
    assert(verify_spec(args) == outcome);
    while i < arguments.len()
        invariant
            args == texts(arguments@),
            verify_spec(args) == outcome,
            outcome == match verify_from(args, 0, None, None) {
                Err(m) => Err(m),
                Ok((t, m)) => Ok(VerifyModel::Verify { target: t, manifest: m }),
            },
            i <= arguments@.len() + 1,
            verify_from(args, 0, None, None) == verify_from(args, i as int, optional_text(target), optional_text(manifest)),
        decreases arguments@.len() + 1 - i,
    {
        let argument = arguments[i].as_str();
        assert(args[i as int] == argument@);
        if same_text(argument, "--manifest") {
            if i + 1 >= arguments.len() {
                return Err(owned("verify --manifest requires a file"));
            }
            manifest = Some(copy_text(&arguments[i + 1]));
            i = i + 2;
        } else if target.is_none() {
            target = Some(copy_text(&arguments[i]));
            i = i + 1;
        } else {
            let mut message = owned("unexpected verify argument: ");
            push_str(&mut message, argument);
            return Err(message);
        }
    }
    Ok(VerifyRequest::Verify { target, manifest })
}

/// What `hoplite serve` does.
#[derive(Clone, Copy, Debug, PartialEq, Eq, Structural)]
pub enum ServeAction {
    Start,
    Foreground,
    Install,
    Uninstall,
    Status,
    Reload,
    Stop,
    Build,
    Check,
}

/// What `hoplite serve` is asked.
#[derive(Debug, PartialEq, Eq)]
pub enum ServeRequest {
    Help,
    Serve { action: ServeAction, project: Option<String>, profile: Option<String>, production: bool },
}

pub enum ServeModel {
    Help,
    Serve { action: ServeAction, project: Option<Seq<char>>, profile: Option<Seq<char>>, production: bool },
}

/// The action a first argument names, if any.
pub open spec fn action_named(name: Seq<char>) -> Option<ServeAction> {
    if name == "start"@ {
        Some(ServeAction::Start)
    } else if name == "foreground"@ {
        Some(ServeAction::Foreground)
    } else if name == "install"@ {
        Some(ServeAction::Install)
    } else if name == "uninstall"@ {
        Some(ServeAction::Uninstall)
    } else if name == "status"@ {
        Some(ServeAction::Status)
    } else if name == "reload"@ {
        Some(ServeAction::Reload)
    } else if name == "stop"@ {
        Some(ServeAction::Stop)
    } else if name == "build"@ {
        Some(ServeAction::Build)
    } else if name == "check"@ {
        Some(ServeAction::Check)
    } else {
        None
    }
}

/// Reading `serve`'s options from position `i` on.
pub open spec fn serve_from(
    arguments: Seq<Seq<char>>,
    i: int,
    action: ServeAction,
    project: Option<Seq<char>>,
    profile: Option<Seq<char>>,
    production: bool,
) -> Result<ServeModel, Seq<char>>
    decreases arguments.len() - i,
{
    if i < 0 || i >= arguments.len() {
        Ok(ServeModel::Serve { action, project, profile, production })
    } else {
        let a = arguments[i];
        if a == "--profile"@ {
            if i + 1 >= arguments.len() {
                Err("--profile requires a name"@)
            } else {
                serve_from(arguments, i + 2, action, project, Some(arguments[i + 1]), production)
            }
        } else if a == "--mode"@ {
            if i + 1 < arguments.len() && arguments[i + 1] == "dev"@ {
                serve_from(arguments, i + 2, action, project, profile, false)
            } else if i + 1 < arguments.len() && arguments[i + 1] == "prod"@ {
                serve_from(arguments, i + 2, action, project, profile, true)
            } else {
                Err("--mode must be dev or prod"@)
            }
        } else if project is None {
            serve_from(arguments, i + 1, action, Some(a), profile, production)
        } else {
            Err("unexpected serve argument: "@ + a)
        }
    }
}

pub open spec fn serve_spec(arguments: Seq<Seq<char>>) -> Result<ServeModel, Seq<char>> {
    if arguments.len() > 0 && (arguments[0] == "--help"@ || arguments[0] == "-h"@ || arguments[0] == "help"@) {
        Ok(ServeModel::Help)
    } else if arguments.len() > 0 && action_named(arguments[0]) is Some {
        serve_from(arguments, 1, action_named(arguments[0])->0, None, None, false)
    } else {
        serve_from(arguments, 0, ServeAction::Start, None, None, false)
    }
}

pub open spec fn serve_view(r: Result<ServeRequest, String>) -> Result<ServeModel, Seq<char>> {
    match r {
        Ok(ServeRequest::Help) => Ok(ServeModel::Help),
        Ok(ServeRequest::Serve { action, project, profile, production }) => Ok(
            ServeModel::Serve { action, project: optional_text(project), profile: optional_text(profile), production },
        ),
        Err(m) => Err(m@),
    }
}

fn named_action(name: &str) -> (r: Option<ServeAction>)
    ensures
        r == action_named(name@),
{
    if same_text(name, "start") {
        Some(ServeAction::Start)
    } else if same_text(name, "foreground") {
        Some(ServeAction::Foreground)
    } else if same_text(name, "install") {
        Some(ServeAction::Install)
    } else if same_text(name, "uninstall") {
        Some(ServeAction::Uninstall)
    } else if same_text(name, "status") {
        Some(ServeAction::Status)
    } else if same_text(name, "reload") {
        Some(ServeAction::Reload)
    } else if same_text(name, "stop") {
        Some(ServeAction::Stop)
    } else if same_text(name, "build") {
        Some(ServeAction::Build)
    } else if same_text(name, "check") {
        Some(ServeAction::Check)
    } else {
        None
    }
}

/// The arguments of `hoplite serve`.
pub fn serve_arguments(arguments: &Vec<String>) -> (r: Result<ServeRequest, String>)
    ensures
        serve_view(r) == serve_spec(texts(arguments@)),
{
    let ghost args = texts(arguments@);
    let mut action = ServeAction::Start;
    let mut i: usize = 0;
    if arguments.len() > 0 {
        let first = arguments[0].as_str();
        assert(args[0] == first@);
        if same_text(first, "--help") || same_text(first, "-h") || same_text(first, "help") {
            return Ok(ServeRequest::Help);
        }
        match named_action(first) {
            Some(named) => {
                action = named;
                i = 1;
            },
            None => {},
        }
    }
    let ghost outcome = serve_from(args, i as int, action, None, None, false);
    assert(serve_spec(args) == outcome);
    let mut project: Option<String> = None;
    let mut profile: Option<String> = None;
    let mut production = false;
    while i < arguments.len()
        invariant
            args == texts(arguments@),
            serve_spec(args) == outcome,
            outcome == serve_from(args, i as int, action, optional_text(project), optional_text(profile), production),
        decreases arguments@.len() + 1 - i,
    {
        let a = arguments[i].as_str();
        assert(args[i as int] == a@);
        if same_text(a, "--profile") {
            if i + 1 >= arguments.len() {
                return Err(owned("--profile requires a name"));
            }
            profile = Some(copy_text(&arguments[i + 1]));
            i = i + 2;
        } else if same_text(a, "--mode") {
            if i + 1 < arguments.len() && same_text(arguments[i + 1].as_str(), "dev") {
                production = false;
            } else if i + 1 < arguments.len() && same_text(arguments[i + 1].as_str(), "prod") {
                production = true;
            } else {
                return Err(owned("--mode must be dev or prod"));
            }
            i = i + 2;
        } else if project.is_none() {
            project = Some(copy_text(&arguments[i]));
            i = i + 1;
        } else {
            let mut message = owned("unexpected serve argument: ");
            push_str(&mut message, a);
            return Err(message);
        }
    }
    Ok(ServeRequest::Serve { action, project, profile, production })
}


/// Each command word names its command, whatever follows it: `version`,
/// `--version` and `-V` give `Version`; `serve`, `doctor`, `inspect`,
/// `verify` and `package` their commands; `repl`, or no argument at all,
/// the REPL; `help`, `--help` and `-h` help; `run FILE` runs `FILE`.
pub proof fn law_command_words_name_their_commands(arguments: Seq<Seq<char>>)
    ensures
        arguments.len() == 0 ==> command_spec(arguments) == Ok::<CommandModel, Seq<char>>(CommandModel::Repl),
        arguments.len() > 0 && (arguments[0] == "version"@ || arguments[0] == "--version"@ || arguments[0] == "-V"@)
            ==> command_spec(arguments) == Ok::<CommandModel, Seq<char>>(CommandModel::Version),
        arguments.len() > 0 && arguments[0] == "serve"@ ==> command_spec(arguments) == Ok::<CommandModel, Seq<char>>(
            CommandModel::Serve,
        ),
        arguments.len() > 0 && arguments[0] == "doctor"@ ==> command_spec(arguments) == Ok::<CommandModel, Seq<char>>(
            CommandModel::Doctor,
        ),
        arguments.len() > 0 && arguments[0] == "inspect"@ ==> command_spec(arguments) == Ok::<CommandModel, Seq<char>>(
            CommandModel::Inspect,
        ),
        arguments.len() > 0 && arguments[0] == "verify"@ ==> command_spec(arguments) == Ok::<CommandModel, Seq<char>>(
            CommandModel::Verify,
        ),
        arguments.len() > 0 && arguments[0] == "package"@ ==> command_spec(arguments) == Ok::<CommandModel, Seq<char>>(
            CommandModel::Package,
        ),
        arguments.len() > 0 && arguments[0] == "repl"@ ==> command_spec(arguments) == Ok::<CommandModel, Seq<char>>(
            CommandModel::Repl,
        ),
        arguments.len() > 0 && (arguments[0] == "help"@ || arguments[0] == "--help"@ || arguments[0] == "-h"@)
            ==> command_spec(arguments) == Ok::<CommandModel, Seq<char>>(CommandModel::Help),
        arguments.len() > 1 && arguments[0] == "run"@ ==> command_spec(arguments) == Ok::<CommandModel, Seq<char>>(
            CommandModel::Run(arguments[1]),
        ),
{
    reveal_strlit("version");
    reveal_strlit("--version");
    reveal_strlit("-V");
    reveal_strlit("serve");
    reveal_strlit("doctor");
    reveal_strlit("inspect");
    reveal_strlit("verify");
    reveal_strlit("package");
    reveal_strlit("eval");
    reveal_strlit("run");
    reveal_strlit("repl");
    reveal_strlit("help");
    reveal_strlit("--help");
    reveal_strlit("-h");
    if arguments.len() > 0 {
        let first = arguments[0];
        if first == "version"@ {
        }
        if first == "--version"@ {
            assert("--version"@.len() != "version"@.len());
        }
        if first == "-V"@ {
            assert("-V"@.len() != "version"@.len());
            assert("-V"@.len() != "--version"@.len());
        }
        if first == "serve"@ {
            assert("serve"@.len() != "version"@.len());
            assert("serve"@.len() != "--version"@.len());
            assert("serve"@.len() != "-V"@.len());
        }
        if first == "doctor"@ {
            assert("doctor"@.len() != "version"@.len());
            assert("doctor"@.len() != "--version"@.len());
            assert("doctor"@.len() != "-V"@.len());
            assert("doctor"@.len() != "serve"@.len());
        }
        if first == "inspect"@ {
            assert("inspect"@[0] != "version"@[0]);
            assert("inspect"@.len() != "--version"@.len());
            assert("inspect"@.len() != "-V"@.len());
            assert("inspect"@.len() != "serve"@.len());
            assert("inspect"@.len() != "doctor"@.len());
        }
        if first == "verify"@ {
            assert("verify"@.len() != "version"@.len());
            assert("verify"@.len() != "--version"@.len());
            assert("verify"@.len() != "-V"@.len());
            assert("verify"@.len() != "serve"@.len());
            assert("verify"@[0] != "doctor"@[0]);
            assert("verify"@.len() != "inspect"@.len());
        }
        if first == "package"@ {
            assert("package"@[0] != "version"@[0]);
            assert("package"@.len() != "--version"@.len());
            assert("package"@.len() != "-V"@.len());
            assert("package"@.len() != "serve"@.len());
            assert("package"@.len() != "doctor"@.len());
            assert("package"@[0] != "inspect"@[0]);
            assert("package"@.len() != "verify"@.len());
        }
        if first == "eval"@ {
            assert("eval"@.len() != "version"@.len());
            assert("eval"@.len() != "--version"@.len());
            assert("eval"@.len() != "-V"@.len());
            assert("eval"@.len() != "serve"@.len());
            assert("eval"@.len() != "doctor"@.len());
            assert("eval"@.len() != "inspect"@.len());
            assert("eval"@.len() != "verify"@.len());
            assert("eval"@.len() != "package"@.len());
        }
        if first == "run"@ {
            assert("run"@.len() != "version"@.len());
            assert("run"@.len() != "--version"@.len());
            assert("run"@.len() != "-V"@.len());
            assert("run"@.len() != "serve"@.len());
            assert("run"@.len() != "doctor"@.len());
            assert("run"@.len() != "inspect"@.len());
            assert("run"@.len() != "verify"@.len());
            assert("run"@.len() != "package"@.len());
            assert("run"@.len() != "eval"@.len());
        }
        if first == "repl"@ {
            assert("repl"@.len() != "version"@.len());
            assert("repl"@.len() != "--version"@.len());
            assert("repl"@.len() != "-V"@.len());
            assert("repl"@.len() != "serve"@.len());
            assert("repl"@.len() != "doctor"@.len());
            assert("repl"@.len() != "inspect"@.len());
            assert("repl"@.len() != "verify"@.len());
            assert("repl"@.len() != "package"@.len());
            assert("repl"@[0] != "eval"@[0]);
            assert("repl"@.len() != "run"@.len());
        }
        if first == "help"@ {
            assert("help"@.len() != "version"@.len());
            assert("help"@.len() != "--version"@.len());
            assert("help"@.len() != "-V"@.len());
            assert("help"@.len() != "serve"@.len());
            assert("help"@.len() != "doctor"@.len());
            assert("help"@.len() != "inspect"@.len());
            assert("help"@.len() != "verify"@.len());
            assert("help"@.len() != "package"@.len());
            assert("help"@[0] != "eval"@[0]);
            assert("help"@.len() != "run"@.len());
            assert("help"@[0] != "repl"@[0]);
        }
        if first == "--help"@ {
            assert("--help"@.len() != "version"@.len());
            assert("--help"@.len() != "--version"@.len());
            assert("--help"@.len() != "-V"@.len());
            assert("--help"@.len() != "serve"@.len());
            assert("--help"@[0] != "doctor"@[0]);
            assert("--help"@.len() != "inspect"@.len());
            assert("--help"@[0] != "verify"@[0]);
            assert("--help"@.len() != "package"@.len());
            assert("--help"@.len() != "eval"@.len());
            assert("--help"@.len() != "run"@.len());
            assert("--help"@.len() != "repl"@.len());
            assert("--help"@.len() != "help"@.len());
        }
        if first == "-h"@ {
            assert("-h"@.len() != "version"@.len());
            assert("-h"@.len() != "--version"@.len());
            assert("-h"@[1] != "-V"@[1]);
            assert("-h"@.len() != "serve"@.len());
            assert("-h"@.len() != "doctor"@.len());
            assert("-h"@.len() != "inspect"@.len());
            assert("-h"@.len() != "verify"@.len());
            assert("-h"@.len() != "package"@.len());
            assert("-h"@.len() != "eval"@.len());
            assert("-h"@.len() != "run"@.len());
            assert("-h"@.len() != "repl"@.len());
            assert("-h"@.len() != "help"@.len());
            assert("-h"@.len() != "--help"@.len());
        }
    }
}

} // verus!
