//! Production server configuration: worker-count overrides and the
//! allowlist of environment names that Nginx hands to its workers.

use vstd::prelude::*;
use crate::text::{
    chars_of, debug_quoted, debug_text, find_chars, find_from, lemma_find_from_bounds, owned,
    parse_unsigned, parse_unsigned_chars, push_char, push_str, same_chars, split_at, split_chars,
    string_of,
};

verus! {

pub const MAX_DISTRIBUTION_WORKER_ENVIRONMENT_NAMES: usize = 32;
pub const MAX_DISTRIBUTION_WORKER_ENVIRONMENT_NAME_BYTES: usize = 128;

pub open spec fn is_environment_name_start(c: char) -> bool {
    ('A' <= c && c <= 'Z') || ('a' <= c && c <= 'z') || c == '_'
}

pub open spec fn is_environment_name_char(c: char) -> bool {
    is_environment_name_start(c) || ('0' <= c && c <= '9')
}

/// Environment names: 1 to 128 ASCII characters, a letter or `_` first and
/// letters, digits or `_` after.
pub open spec fn is_environment_name(name: Seq<char>) -> bool {
    &&& 0 < name.len() <= MAX_DISTRIBUTION_WORKER_ENVIRONMENT_NAME_BYTES
    &&& is_environment_name_start(name[0])
    &&& forall|i: int| 1 <= i < name.len() ==> is_environment_name_char(#[trigger] name[i])
}

pub open spec fn invalid_environment_name_message(name: Seq<char>) -> Seq<char> {
    "invalid distribution worker environment name "@ + debug_text(name)
}

pub fn validate_worker_environment_name(name: &str) -> (r: Result<(), String>)
    ensures
        match r {
            Ok(()) => is_environment_name(name@),
            Err(message) => !is_environment_name(name@) && message@
                == invalid_environment_name_message(name@),
        },
{
    let chars = chars_of(name);
    let n = chars.len();
    let mut valid = 0 < n && n <= MAX_DISTRIBUTION_WORKER_ENVIRONMENT_NAME_BYTES;
    if valid {
        let first = chars[0];
        valid = ('A' <= first && first <= 'Z') || ('a' <= first && first <= 'z') || first == '_';
    }
    let mut i: usize = 1;
    while valid && i < n
        invariant
            1 <= i,
            n == chars@.len(),
            chars@ == name@,
            valid ==> 0 < n <= MAX_DISTRIBUTION_WORKER_ENVIRONMENT_NAME_BYTES
                && is_environment_name_start(chars@[0]),
            valid ==> forall|j: int| 1 <= j < i && j < n ==> is_environment_name_char(#[trigger] chars@[j]),
            !valid ==> !is_environment_name(name@),
        decreases n - i,
    {
        let c = chars[i];
        if !(('A' <= c && c <= 'Z') || ('a' <= c && c <= 'z') || c == '_' || ('0' <= c && c <= '9')) {
            valid = false;
        }
        i = i + 1;
    }
    if valid {
        Ok(())
    } else {
        let mut message = owned("invalid distribution worker environment name ");
        let quoted = debug_quoted(name);
        push_str(&mut message, quoted.as_str());
        Err(message)
    }
}

/// The characters of `auto`.
pub open spec fn auto_chars() -> Seq<char> {
    seq!['a', 'u', 't', 'o']
}

/// A worker override is `auto` or a positive integer.
pub open spec fn is_worker_override(value: Seq<char>) -> bool {
    value == auto_chars() || (parse_unsigned(value, usize::MAX as nat) matches Some(n) && n > 0)
}

pub fn validate_workers(value: &str) -> (r: Result<(), String>)
    ensures
        match r {
            Ok(()) => is_worker_override(value@),
            Err(message) => !is_worker_override(value@) && message@
                == "worker override must be auto or a positive integer; got "@ + debug_text(value@),
        },
{
    let chars = chars_of(value);
    let auto: [char; 4] = ['a', 'u', 't', 'o'];
    assert(auto@ =~= auto_chars());
    if same_chars(chars.as_slice(), auto.as_slice()) {
        return Ok(());
    }
    match parse_unsigned_chars(chars.as_slice(), usize::MAX as u64) {
        Some(workers) => {
            if workers > 0 {
                return Ok(());
            }
        },
        None => {},
    }
    let mut message = owned("worker override must be auto or a positive integer; got ");
    let quoted = debug_quoted(value);
    push_str(&mut message, quoted.as_str());
    Err(message)
}


/// `daemon off;`
pub open spec fn daemon_off_chars() -> Seq<char> {
    "daemon off;"@
}

/// The global Nginx directives after the first `count` allowlisted names
/// have been taken in order, or the first refusal: more than 32 names, an
/// invalid name, or a repeated name.
pub open spec fn directives_after(names: Seq<Seq<char>>, count: int) -> Result<Seq<char>, Seq<char>>
    decreases count,
{
    if count <= 0 {
        Ok(daemon_off_chars())
    } else {
        match directives_after(names, count - 1) {
            Err(message) => Err(message),
            Ok(directives) => {
                let name = names[count - 1];
                if count - 1 == MAX_DISTRIBUTION_WORKER_ENVIRONMENT_NAMES {
                    Err("distribution worker environment exceeds 32 names"@)
                } else if !is_environment_name(name) {
                    Err(invalid_environment_name_message(name))
                } else if names.take(count - 1).contains(name) {
                    Err("distribution worker environment contains duplicate name "@ + debug_text(name))
                } else {
                    Ok(directives + " env "@ + name + seq![';'])
                }
            },
        }
    }
}

/// A refusal stays the answer however many names follow.
proof fn lemma_directives_error_persists(names: Seq<Seq<char>>, count: int, later: int)
    requires
        count <= later,
        directives_after(names, count) is Err,
    ensures
        directives_after(names, later) == directives_after(names, count),
    decreases later - count,
{
    if count < later {
        lemma_directives_error_persists(names, count, later - 1);
    }
}

/// The global directives for an optional comma-separated allowlist.
pub open spec fn global_directives(environment: Option<Seq<char>>) -> Result<Seq<char>, Seq<char>> {
    match environment {
        None => Ok(daemon_off_chars()),
        Some(names) => directives_after(split_at(names, ','), split_at(names, ',').len() as int),
    }
}

pub open spec fn string_result_model(r: Result<String, String>) -> Result<Seq<char>, Seq<char>> {
    match r {
        Ok(text) => Ok(text@),
        Err(message) => Err(message@),
    }
}

fn contains_name(names: &Vec<Vec<char>>, count: usize, name: &Vec<char>) -> (r: bool)
    requires
        count <= names@.len(),
    ensures
        r == names@.map_values(|piece: Vec<char>| piece@).take(count as int).contains(name@),
{
    let ghost seen = names@.map_values(|piece: Vec<char>| piece@).take(count as int);
    let mut i: usize = 0;
    while i < count
        invariant
            i <= count <= names@.len(),
            seen == names@.map_values(|piece: Vec<char>| piece@).take(count as int),
            forall|j: int| 0 <= j < i ==> seen[j] != name@,
        decreases count - i,
    {
        if same_chars(names[i].as_slice(), name.as_slice()) {
            assert(seen[i as int] == name@);
            return true;
        }
        i = i + 1;
    }
    false
}

/// The Nginx `-g` directives: `daemon off;` and one `env NAME;` per
/// allowlisted name.
pub fn nginx_global_directives_for(environment: Option<&str>) -> (r: Result<String, String>)
    ensures
        string_result_model(r) == global_directives(
            match environment {
                Some(text) => Some(text@),
                None => None,
            },
        ),
{
    let mut directives = owned("daemon off;");
    let allowlist = match environment {
        None => return Ok(directives),
        Some(text) => text,
    };
    let chars = chars_of(allowlist);
    let names = split_chars(chars.as_slice(), ',');
    let ghost all = names@.map_values(|piece: Vec<char>| piece@);
    let mut i: usize = 0;
    while i < names.len()
        invariant
            i <= names@.len(),
            all == names@.map_values(|piece: Vec<char>| piece@),
            environment == Some(allowlist),
            all == split_at(allowlist@, ','),
            directives_after(all, i as int) == Ok::<Seq<char>, Seq<char>>(directives@),
        decreases names@.len() - i,
    {
        let name = &names[i];
        assert(all[i as int] == name@);
        if i == MAX_DISTRIBUTION_WORKER_ENVIRONMENT_NAMES {
            let message = owned("distribution worker environment exceeds 32 names");
            proof {
                assert(directives_after(all, i + 1) == Err::<Seq<char>, Seq<char>>(message@));
                lemma_directives_error_persists(all, i + 1, all.len() as int);
                assert(directives_after(all, all.len() as int) == Err::<Seq<char>, Seq<char>>(message@));
                assert(global_directives(Some(allowlist@)) == Err::<Seq<char>, Seq<char>>(message@));
            }
            return Err(message);
        }
        let text = string_of(name.as_slice());
        match validate_worker_environment_name(text.as_str()) {
            Ok(()) => {},
            Err(message) => {
                proof {
                    lemma_directives_error_persists(all, i + 1, all.len() as int);
                }
                return Err(message);
            },
        }
        if contains_name(&names, i, name) {
            let mut message = owned("distribution worker environment contains duplicate name ");
            let quoted = debug_quoted(text.as_str());
            push_str(&mut message, quoted.as_str());
            proof {
                lemma_directives_error_persists(all, i + 1, all.len() as int);
            }
            return Err(message);
        }
        let ghost before = directives@;
        push_str(&mut directives, " env ");
        push_str(&mut directives, text.as_str());
        push_char(&mut directives, ';');
        proof {
            assert(all.take(i as int).contains(name@) == false);
            assert(directives@ =~= before + " env "@ + name@ + seq![';']);
        }
        i = i + 1;
    }
    assert(all.len() == i);
    Ok(directives)
}

} // verus!

verus! {

/// `worker_processes ` as the generated configuration spells it.
pub open spec fn worker_directive_chars() -> Seq<char> {
    "worker_processes "@
}

/// The configuration with its first `worker_processes` directive (from the
/// directive's name through the next `;`) replaced by one that names
/// `workers`, or the reason it cannot be rendered.
pub open spec fn worker_configuration(source: Seq<char>, workers: Seq<char>) -> Result<
    Seq<char>,
    Seq<char>,
> {
    if !is_worker_override(workers) {
        Err("worker override must be auto or a positive integer; got "@ + debug_text(workers))
    } else {
        match find_from(source, worker_directive_chars(), 0) {
            None => Err("generated Nginx configuration has no worker_processes directive"@),
            Some(start) => match find_from(source, seq![';'], start) {
                None => Err("generated Nginx worker_processes directive is incomplete"@),
                Some(semicolon) => Ok(
                    source.take(start) + worker_directive_chars() + workers + seq![';']
                        + source.skip(semicolon + 1),
                ),
            },
        }
    }
}

/// Appends `chars[from..to]` to `out`.
fn push_range(out: &mut String, chars: &[char], from: usize, to: usize)
    requires
        from <= to <= chars@.len(),
    ensures
        final(out)@ == old(out)@ + chars@.subrange(from as int, to as int),
{
    let mut i: usize = from;
    while i < to
        invariant
            from <= i <= to <= chars@.len(),
            out@ == old(out)@ + chars@.subrange(from as int, i as int),
        decreases to - i,
    {
        let ghost before = out@;
        push_char(out, chars[i]);
        assert(chars@.subrange(from as int, i + 1) =~= chars@.subrange(from as int, i as int).push(
            chars@[i as int],
        ));
        assert(out@ =~= old(out)@ + chars@.subrange(from as int, i + 1));
        i = i + 1;
    }
}

/// Rewrites the generated `worker_processes` directive to name the
/// override.
pub fn render_worker_configuration(source: &str, workers: &str) -> (r: Result<String, String>)
    ensures
        string_result_model(r) == worker_configuration(source@, workers@),
{
    match validate_workers(workers) {
        Ok(()) => {},
        Err(message) => return Err(message),
    }
    let text = chars_of(source);
    let directive: [char; 17] = [
        'w', 'o', 'r', 'k', 'e', 'r', '_', 'p', 'r', 'o', 'c', 'e', 's', 's', 'e', 's', ' ',
    ];
    proof {
        reveal_strlit("worker_processes ");
        assert(directive@ =~= worker_directive_chars());
    }
    let start = match find_chars(text.as_slice(), directive.as_slice(), 0) {
        Some(start) => start,
        None => return Err(owned("generated Nginx configuration has no worker_processes directive")),
    };
    let semicolon: [char; 1] = [';'];
    assert(semicolon@ =~= seq![';']);
    let end = match find_chars(text.as_slice(), semicolon.as_slice(), start) {
        Some(at) => at,
        None => return Err(owned("generated Nginx worker_processes directive is incomplete")),
    };
    proof {
        lemma_find_from_bounds(text@, seq![';'], start as int);
        assert(find_from(text@, seq![';'], start as int) == Some(end as int));
        assert(end + 1 <= text@.len());
    }
    let n = text.len();
    let mut rendered = String::new();
    push_range(&mut rendered, text.as_slice(), 0, start);
    push_str(&mut rendered, "worker_processes ");
    push_str(&mut rendered, workers);
    push_char(&mut rendered, ';');
    push_range(&mut rendered, text.as_slice(), end + 1, n);
    proof {
        assert(text@.subrange(0, start as int) =~= text@.take(start as int));
        assert(text@.subrange(end + 1, text@.len() as int) =~= text@.skip(end + 1));
        assert(rendered@ =~= text@.take(start as int) + worker_directive_chars() + workers@
            + seq![';'] + text@.skip(end + 1));
    }
    Ok(rendered)
}

} // verus!

verus! {

/// The comma-separated allowlist embedded in this build. The generic server
/// embeds none, so its workers inherit no provider environment.
pub const DISTRIBUTION_WORKER_ENVIRONMENT: Option<&'static str> = None;

/// The `-g` directives for this build's embedded allowlist.
pub fn nginx_global_directives() -> (r: Result<String, String>)
    ensures
        string_result_model(r) == global_directives(None),
{
    nginx_global_directives_for(DISTRIBUTION_WORKER_ENVIRONMENT)
}

/// No directive that the allowlist produces carries a value: every accepted
/// name is made of letters, digits and `_`, so no `=` appears.
proof fn lemma_directives_have_no_assignment(names: Seq<Seq<char>>, count: int)
    ensures
        directives_after(names, count) matches Ok(d) ==> !d.contains('='),
    decreases count,
{
    if count > 0 {
        lemma_directives_have_no_assignment(names, count - 1);
        if let Ok(before) = directives_after(names, count - 1) {
            let name = names[count - 1];
            if directives_after(names, count) is Ok {
                let d = before + " env "@ + name + seq![';'];
                assert(" env "@ =~= seq![' ', 'e', 'n', 'v', ' ']) by {
                    reveal_strlit(" env ");
                }
                assert forall|i: int| 0 <= i < d.len() implies d[i] != '=' by {
                    if i < before.len() {
                        assert(d[i] == before[i]);
                    } else if i < before.len() + 5 {
                    } else if i < before.len() + 5 + name.len() {
                        let k = i - before.len() - 5;
                        if k > 0 {
                            assert(is_environment_name_char(name[k]));
                        }
                    }
                }
            }
        }
    } else {
        assert(daemon_off_chars() =~= seq!['d', 'a', 'e', 'm', 'o', 'n', ' ', 'o', 'f', 'f', ';'])
            by {
            reveal_strlit("daemon off;");
        }
    }
}

/// Whatever allowlist a distribution embeds, the directives it yields only
/// name environment variables and never assign one.
pub proof fn law_directives_never_assign_values(environment: Option<Seq<char>>)
    ensures
        global_directives(environment) matches Ok(d) ==> !d.contains('='),
{
    match environment {
        None => lemma_directives_have_no_assignment(Seq::empty(), 0),
        Some(names) => lemma_directives_have_no_assignment(
            split_at(names, ','),
            split_at(names, ',').len() as int,
        ),
    }
}

} // verus!

verus! {

/// What `hoplite-server` was asked to do.
#[derive(Clone, Debug, PartialEq, Eq)]
pub enum ServerCommand {
    Version,
    Help,
    Serve { project: Option<String>, workers: Option<String> },
}

/// The project and worker override after reading the arguments from
/// `index` on, or the first refusal.
pub open spec fn scan_server_arguments(
    arguments: Seq<Seq<char>>,
    index: int,
    project: Option<Seq<char>>,
    workers: Option<Seq<char>>,
) -> Result<(Option<Seq<char>>, Option<Seq<char>>), Seq<char>>
    decreases arguments.len() - index,
{
    if index < 0 || index >= arguments.len() {
        Ok((project, workers))
    } else {
        let argument = arguments[index];
        if argument == "--workers"@ {
            if index + 1 < arguments.len() {
                scan_server_arguments(arguments, index + 2, project, Some(arguments[index + 1]))
            } else {
                Err("--workers requires auto or a positive integer"@)
            }
        } else if "--workers="@.is_prefix_of(argument) {
            scan_server_arguments(arguments, index + 1, project, Some(argument.skip(10)))
        } else if argument.len() > 0 && argument[0] == '-' {
            Err("unknown option: "@ + argument)
        } else if project is None {
            scan_server_arguments(arguments, index + 1, Some(argument), workers)
        } else {
            Err("unexpected argument: "@ + argument)
        }
    }
}

pub open spec fn server_command_model(
    arguments: Seq<Seq<char>>,
    default_workers: Option<Seq<char>>,
) -> Result<Option<Option<(Option<Seq<char>>, Option<Seq<char>>)>>, Seq<char>> {
    if arguments.len() > 0 && (arguments[0] == "version"@ || arguments[0] == "--version"@
        || arguments[0] == "-V"@) {
        Ok(None)
    } else if arguments.len() > 0 && (arguments[0] == "help"@ || arguments[0] == "--help"@
        || arguments[0] == "-h"@) {
        Ok(Some(None))
    } else {
        match scan_server_arguments(arguments, 0, None, default_workers) {
            Ok(serve) => Ok(Some(Some(serve))),
            Err(message) => Err(message),
        }
    }
}

pub open spec fn optional_chars(value: Option<String>) -> Option<Seq<char>> {
    match value {
        Some(text) => Some(text@),
        None => None,
    }
}

pub open spec fn server_command_view(r: Result<ServerCommand, String>) -> Result<
    Option<Option<(Option<Seq<char>>, Option<Seq<char>>)>>,
    Seq<char>,
> {
    match r {
        Ok(ServerCommand::Version) => Ok(None),
        Ok(ServerCommand::Help) => Ok(Some(None)),
        Ok(ServerCommand::Serve { project, workers }) => Ok(
            Some(Some((optional_chars(project), optional_chars(workers)))),
        ),
        Err(message) => Err(message@),
    }
}

fn is_word(argument: &Vec<char>, word: &str) -> (r: bool)
    ensures
        r == (argument@ == word@),
{
    let chars = chars_of(word);
    same_chars(argument.as_slice(), chars.as_slice())
}

/// Reads `hoplite-server [--workers auto|N] [PROJECT]`, `version` or
/// `help`; `default_workers` is the non-empty `HOPLITE_WORKERS`, if any.
pub fn parse_server_arguments(arguments: &Vec<String>, default_workers: Option<String>) -> (r: Result<
    ServerCommand,
    String,
>)
    ensures
        server_command_view(r) == server_command_model(
            arguments@.map_values(|a: String| a@),
            optional_chars(default_workers),
        ),
{
    let ghost words = arguments@.map_values(|a: String| a@);
    if arguments.len() > 0 {
        let first = chars_of(arguments[0].as_str());
        assert(words[0] == first@);
        if is_word(&first, "version") || is_word(&first, "--version") || is_word(&first, "-V") {
            return Ok(ServerCommand::Version);
        }
        if is_word(&first, "help") || is_word(&first, "--help") || is_word(&first, "-h") {
            return Ok(ServerCommand::Help);
        }
    }
    let flag: [char; 10] = ['-', '-', 'w', 'o', 'r', 'k', 'e', 'r', 's', '='];
    proof {
        reveal_strlit("--workers=");
        assert(flag@ =~= "--workers="@);
    }
    let mut project: Option<String> = None;
    let mut workers = default_workers;
    let mut index: usize = 0;
    while index < arguments.len()
        invariant
            index <= arguments@.len(),
            words == arguments@.map_values(|a: String| a@),
            flag@ == "--workers="@,
            !(words.len() > 0 && (words[0] == "version"@ || words[0] == "--version"@ || words[0]
                == "-V"@)),
            !(words.len() > 0 && (words[0] == "help"@ || words[0] == "--help"@ || words[0]
                == "-h"@)),
            scan_server_arguments(words, index as int, optional_chars(project), optional_chars(workers))
                == scan_server_arguments(words, 0, None, optional_chars(default_workers)),
        decreases arguments@.len() - index,
    {
        let argument = chars_of(arguments[index].as_str());
        assert(words[index as int] == argument@);
        if is_word(&argument, "--workers") {
            if index + 1 < arguments.len() {
                workers = Some(owned(arguments[index + 1].as_str()));
                assert(words[index + 1] == arguments@[index + 1]@);
                index = index + 2;
            } else {
                return Err(owned("--workers requires auto or a positive integer"));
            }
        } else if argument.len() >= 10 && same_chars(&argument.as_slice()[0..10], flag.as_slice()) {
            proof {
                assert(argument@.subrange(0, 10) =~= flag@);
            }
            let n = argument.len();
            let rest = string_of(&argument.as_slice()[10..n]);
            assert(rest@ =~= argument@.skip(10));
            workers = Some(rest);
            index = index + 1;
        } else if argument.len() > 0 && argument[0] == '-' {
            proof {
                if "--workers="@.is_prefix_of(argument@) {
                    assert(argument@.subrange(0, 10) =~= flag@);
                }
            }
            let mut message = owned("unknown option: ");
            push_str(&mut message, arguments[index].as_str());
            return Err(message);
        } else {
            proof {
                if "--workers="@.is_prefix_of(argument@) {
                    assert(argument@[0] == flag@[0]);
                }
            }
            if project.is_none() {
                project = Some(owned(arguments[index].as_str()));
                index = index + 1;
            } else {
                let mut message = owned("unexpected argument: ");
                push_str(&mut message, arguments[index].as_str());
                return Err(message);
            }
        }
    }
    Ok(ServerCommand::Serve { project, workers })
}

} // verus!
