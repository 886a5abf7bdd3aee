//! `hoplite doctor`: the checks it reports, how probe results become
//! checks, and the human-readable report.

use vstd::prelude::*;
use crate::text::{
    chars_of, decimal_chars, find_chars, find_from, owned, push_char, push_decimal, push_str,
};
use vstd::utf8::encode_utf8;

verus! {

pub const FORMAT: &'static str = "hoplite.doctor/0-alpha";

#[derive(Clone, Copy, Debug, PartialEq, Eq, Structural)]
pub enum CheckStatus {
    Pass,
    Warn,
    Fail,
}

pub open spec fn status_name(status: CheckStatus) -> Seq<char> {
    match status {
        CheckStatus::Pass => "pass"@,
        CheckStatus::Warn => "warn"@,
        CheckStatus::Fail => "fail"@,
    }
}

impl CheckStatus {
    pub fn as_str(self) -> (name: &'static str)
        ensures
            name@ == status_name(self),
    {
        match self {
            CheckStatus::Pass => "pass",
            CheckStatus::Warn => "warn",
            CheckStatus::Fail => "fail",
        }
    }
}

/// One diagnosis: a stable id, its outcome, a summary, and optionally a
/// stable error class and a path (the path only when paths are shown).
#[derive(Clone, Debug, PartialEq, Eq)]
pub struct Check {
    pub id: String,
    pub status: CheckStatus,
    pub summary: String,
    pub detail: Option<String>,
    pub path: Option<String>,
}

pub struct CheckModel {
    pub id: Seq<char>,
    pub status: CheckStatus,
    pub summary: Seq<char>,
    pub detail: Option<Seq<char>>,
    pub path: Option<Seq<char>>,
}

pub open spec fn optional_text(value: Option<String>) -> Option<Seq<char>> {
    match value {
        Some(text) => Some(text@),
        None => None,
    }
}

impl View for Check {
    type V = CheckModel;

    open spec fn view(&self) -> CheckModel {
        CheckModel {
            id: self.id@,
            status: self.status,
            summary: self.summary@,
            detail: optional_text(self.detail),
            path: optional_text(self.path),
        }
    }
}

pub open spec fn plain_check(id: Seq<char>, status: CheckStatus, summary: Seq<char>) -> CheckModel {
    CheckModel { id, status, summary, detail: None, path: None }
}

pub open spec fn with_detail(check: CheckModel, detail: Seq<char>) -> CheckModel {
    CheckModel { detail: Some(detail), ..check }
}

pub open spec fn with_path(check: CheckModel, path: Option<Seq<char>>, show_paths: bool) -> CheckModel {
    CheckModel { path: if show_paths { path } else { None }, ..check }
}

impl Check {
    pub fn pass(id: &str, summary: String) -> (check: Check)
        ensures
            check@ == plain_check(id@, CheckStatus::Pass, summary@),
    {
        Check { id: owned(id), status: CheckStatus::Pass, summary, detail: None, path: None }
    }

    pub fn warn(id: &str, summary: String) -> (check: Check)
        ensures
            check@ == plain_check(id@, CheckStatus::Warn, summary@),
    {
        Check { id: owned(id), status: CheckStatus::Warn, summary, detail: None, path: None }
    }

    pub fn fail(id: &str, summary: String) -> (check: Check)
        ensures
            check@ == plain_check(id@, CheckStatus::Fail, summary@),
    {
        Check { id: owned(id), status: CheckStatus::Fail, summary, detail: None, path: None }
    }

    /// Attaches the stable error class.
    pub fn detail(self, detail: &str) -> (check: Check)
        ensures
            check@ == with_detail(self@, detail@),
    {
        Check { detail: Some(owned(detail)), ..self }
    }

    /// Attaches the path when paths are shown, and clears it otherwise.
    pub fn path(self, path: Option<&str>, show_paths: bool) -> (check: Check)
        ensures
            check@ == with_path(
                self@,
                match path {
                    Some(p) => Some(p@),
                    None => None,
                },
                show_paths,
            ),
    {
        let shown = if show_paths {
            match path {
                Some(p) => Some(owned(p)),
                None => None,
            }
        } else {
            None
        };
        Check { path: shown, ..self }
    }
}

/// How many of the checks have the given status.
pub open spec fn count_status(checks: Seq<CheckModel>, status: CheckStatus) -> nat
    decreases checks.len(),
{
    if checks.len() == 0 {
        0
    } else {
        count_status(checks.drop_last(), status) + if checks.last().status == status {
            1nat
        } else {
            0nat
        }
    }
}

pub open spec fn check_models(checks: Seq<Check>) -> Seq<CheckModel> {
    checks.map_values(|check: Check| check@)
}

proof fn lemma_count_status_bounded(checks: Seq<CheckModel>, status: CheckStatus)
    ensures
        count_status(checks, status) <= checks.len(),
    decreases checks.len(),
{
    if checks.len() > 0 {
        lemma_count_status_bounded(checks.drop_last(), status);
    }
}

#[derive(Clone, Debug, PartialEq, Eq)]
pub struct Report {
    pub deep: bool,
    pub strict: bool,
    pub operating_system: String,
    pub architecture: String,
    pub nginx_distribution: String,
    pub checks: Vec<Check>,
}

fn count_checks(checks: &Vec<Check>, status: CheckStatus) -> (n: usize)
    ensures
        n == count_status(check_models(checks@), status),
{
    let ghost models = check_models(checks@);
    let mut n: usize = 0;
    let mut i: usize = 0;
    while i < checks.len()
        invariant
            i <= checks@.len(),
            models == check_models(checks@),
            n == count_status(models.take(i as int), status),
            n <= i,
        decreases checks@.len() - i,
    {
        proof {
            assert(models.take(i + 1).drop_last() =~= models.take(i as int));
        }
        if checks[i].status == status {
            n = n + 1;
        }
        i = i + 1;
    }
    assert(models.take(i as int) =~= models);
    n
}

impl Report {
    pub open spec fn failure_count(&self) -> nat {
        count_status(check_models(self.checks@), CheckStatus::Fail)
    }

    pub open spec fn warning_count(&self) -> nat {
        count_status(check_models(self.checks@), CheckStatus::Warn)
    }

    pub fn failures(&self) -> (n: usize)
        ensures
            n == self.failure_count(),
    {
        count_checks(&self.checks, CheckStatus::Fail)
    }

    pub fn warnings(&self) -> (n: usize)
        ensures
            n == self.warning_count(),
    {
        count_checks(&self.checks, CheckStatus::Warn)
    }

    pub fn passed(&self) -> (n: usize)
        ensures
            n == count_status(check_models(self.checks@), CheckStatus::Pass),
    {
        count_checks(&self.checks, CheckStatus::Pass)
    }

    /// No required check failed.
    pub fn healthy(&self) -> (r: bool)
        ensures
            r == (self.failure_count() == 0),
    {
        self.failures() == 0
    }

    /// Healthy, and no check warned either.
    pub fn complete(&self) -> (r: bool)
        ensures
            r == (self.failure_count() == 0 && self.warning_count() == 0),
    {
        self.healthy() && self.warnings() == 0
    }
}

/// The lines of a process's output: the pieces between `\n` bytes, each
/// without one trailing `\r`.
pub open spec fn output_pieces(bytes: Seq<u8>) -> Seq<Seq<u8>>
    decreases bytes.len(),
{
    if bytes.len() == 0 {
        seq![Seq::<u8>::empty()]
    } else {
        let pieces = output_pieces(bytes.drop_last());
        if bytes.last() == 10u8 {
            pieces.push(Seq::<u8>::empty())
        } else {
            pieces.update(pieces.len() - 1, pieces.last().push(bytes.last()))
        }
    }
}

pub open spec fn without_carriage_return(line: Seq<u8>) -> Seq<u8> {
    if line.len() > 0 && line.last() == 13u8 {
        line.drop_last()
    } else {
        line
    }
}

/// Some line of the output is exactly `expected`.
pub open spec fn has_line(bytes: Seq<u8>, expected: Seq<u8>) -> bool {
    exists|k: int|
        0 <= k < output_pieces(bytes).len() && without_carriage_return(
            #[trigger] output_pieces(bytes)[k],
        ) == expected
}

/// Some line of the output starts with `prefix`.
pub open spec fn has_line_prefix(bytes: Seq<u8>, prefix: Seq<u8>) -> bool {
    exists|k: int|
        0 <= k < output_pieces(bytes).len() && prefix.is_prefix_of(
            without_carriage_return(#[trigger] output_pieces(bytes)[k]),
        )
}

proof fn lemma_output_pieces_nonempty(bytes: Seq<u8>)
    ensures
        output_pieces(bytes).len() >= 1,
    decreases bytes.len(),
{
    if bytes.len() > 0 {
        lemma_output_pieces_nonempty(bytes.drop_last());
    }
}

fn output_lines(bytes: &[u8]) -> (lines: Vec<Vec<u8>>)
    ensures
        lines@.map_values(|line: Vec<u8>| without_carriage_return(line@))
            == output_pieces(bytes@).map_values(|piece: Seq<u8>| without_carriage_return(piece)),
{
    let mut pieces: Vec<Vec<u8>> = Vec::new();
    let mut current: Vec<u8> = Vec::new();
    let mut i: usize = 0;
    while i < bytes.len()
        invariant
            i <= bytes@.len(),
            pieces@.map_values(|piece: Vec<u8>| piece@).push(current@) == output_pieces(
                bytes@.take(i as int),
            ),
        decreases bytes@.len() - i,
    {
        proof {
            assert(bytes@.take(i + 1).drop_last() =~= bytes@.take(i as int));
            lemma_output_pieces_nonempty(bytes@.take(i as int));
        }
        if bytes[i] == 10u8 {
            let finished = current;
            current = Vec::new();
            pieces.push(finished);
            assert(pieces@.map_values(|piece: Vec<u8>| piece@).push(current@) =~= output_pieces(
                bytes@.take(i + 1),
            ));
        } else {
            current.push(bytes[i]);
            assert(pieces@.map_values(|piece: Vec<u8>| piece@).push(current@) =~= output_pieces(
                bytes@.take(i + 1),
            ));
        }
        i = i + 1;
    }
    assert(bytes@.take(i as int) =~= bytes@);
    pieces.push(current);
    let ghost raw = pieces@.map_values(|piece: Vec<u8>| piece@);
    assert(raw == output_pieces(bytes@));
    assert(pieces@.map_values(|line: Vec<u8>| without_carriage_return(line@)) =~= output_pieces(
        bytes@,
    ).map_values(|piece: Seq<u8>| without_carriage_return(piece)));
    pieces
}

/// The line with one trailing `\r` removed, as a slice of it.
fn line_body(line: &Vec<u8>) -> (n: usize)
    ensures
        n <= line@.len(),
        line@.take(n as int) == without_carriage_return(line@),
{
    let n = line.len();
    if n > 0 && line[n - 1] == 13u8 {
        assert(line@.take(n - 1) =~= line@.drop_last());
        n - 1
    } else {
        assert(line@.take(n as int) =~= line@);
        n
    }
}

fn starts_with_bytes(text: &[u8], len: usize, prefix: &[u8]) -> (r: bool)
    requires
        len <= text@.len(),
    ensures
        r == prefix@.is_prefix_of(text@.take(len as int)),
{
    if prefix.len() > len {
        return false;
    }
    let mut i: usize = 0;
    while i < prefix.len()
        invariant
            i <= prefix@.len() <= len <= text@.len(),
            forall|j: int| 0 <= j < i ==> prefix@[j] == text@[j],
        decreases prefix@.len() - i,
    {
        if prefix[i] != text[i] {
            return false;
        }
        i = i + 1;
    }
    assert(prefix@ =~= text@.take(len as int).take(prefix@.len() as int));
    true
}

/// Whether some output line is exactly `expected`.
pub fn stream_has_line(bytes: &[u8], expected: &[u8]) -> (r: bool)
    ensures
        r == has_line(bytes@, expected@),
{
    let lines = output_lines(bytes);
    let ghost stripped = output_pieces(bytes@).map_values(|piece: Seq<u8>| without_carriage_return(piece));
    let mut k: usize = 0;
    while k < lines.len()
        invariant
            k <= lines@.len(),
            lines@.map_values(|line: Vec<u8>| without_carriage_return(line@)) == stripped,
            stripped == output_pieces(bytes@).map_values(|piece: Seq<u8>| without_carriage_return(piece)),
            forall|j: int| 0 <= j < k ==> stripped[j] != expected@,
        decreases lines@.len() - k,
    {
        let line = &lines[k];
        let n = line_body(line);
        proof {
            assert(lines@.map_values(|line: Vec<u8>| without_carriage_return(line@)).len()
                == lines@.len());
            assert(stripped.len() == output_pieces(bytes@).len());
            assert(lines@.map_values(|line: Vec<u8>| without_carriage_return(line@))[k as int]
                == without_carriage_return(lines@[k as int]@));
            assert(stripped[k as int] == without_carriage_return(output_pieces(bytes@)[k as int]));
        }
        assert(stripped[k as int] == line@.take(n as int));
        if n == expected.len() && starts_with_bytes(line.as_slice(), n, expected) {
            assert(line@.take(n as int) =~= expected@);
            assert(without_carriage_return(output_pieces(bytes@)[k as int]) == expected@);
            return true;
        }
        proof {
            if line@.take(n as int) == expected@ {
                assert(expected@.is_prefix_of(line@.take(n as int)));
            }
        }
        k = k + 1;
    }
    proof {
        assert forall|j: int| 0 <= j < output_pieces(bytes@).len() implies without_carriage_return(
            #[trigger] output_pieces(bytes@)[j],
        ) != expected@ by {
            assert(lines@.map_values(|line: Vec<u8>| without_carriage_return(line@)).len()
                == lines@.len());
            assert(stripped.len() == output_pieces(bytes@).len());
            assert(stripped[j] == without_carriage_return(output_pieces(bytes@)[j]));
        }
    }
    false
}

/// Whether some output line starts with `prefix`.
pub fn stream_has_line_prefix(bytes: &[u8], prefix: &[u8]) -> (r: bool)
    ensures
        r == has_line_prefix(bytes@, prefix@),
{
    let lines = output_lines(bytes);
    let ghost stripped = output_pieces(bytes@).map_values(|piece: Seq<u8>| without_carriage_return(piece));
    let mut k: usize = 0;
    while k < lines.len()
        invariant
            k <= lines@.len(),
            lines@.map_values(|line: Vec<u8>| without_carriage_return(line@)) == stripped,
            stripped == output_pieces(bytes@).map_values(|piece: Seq<u8>| without_carriage_return(piece)),
            forall|j: int| 0 <= j < k ==> !prefix@.is_prefix_of(#[trigger] stripped[j]),
        decreases lines@.len() - k,
    {
        let line = &lines[k];
        let n = line_body(line);
        proof {
            assert(lines@.map_values(|line: Vec<u8>| without_carriage_return(line@)).len()
                == lines@.len());
            assert(stripped.len() == output_pieces(bytes@).len());
            assert(lines@.map_values(|line: Vec<u8>| without_carriage_return(line@))[k as int]
                == without_carriage_return(lines@[k as int]@));
            assert(stripped[k as int] == without_carriage_return(output_pieces(bytes@)[k as int]));
        }
        assert(stripped[k as int] == line@.take(n as int));
        if starts_with_bytes(line.as_slice(), n, prefix) {
            assert(prefix@.is_prefix_of(without_carriage_return(output_pieces(bytes@)[k as int])));
            return true;
        }
        k = k + 1;
    }
    proof {
        assert forall|j: int| 0 <= j < output_pieces(bytes@).len() implies !prefix@.is_prefix_of(
            without_carriage_return(#[trigger] output_pieces(bytes@)[j]),
        ) by {
            assert(lines@.map_values(|line: Vec<u8>| without_carriage_return(line@)).len()
                == lines@.len());
            assert(stripped.len() == output_pieces(bytes@).len());
            assert(stripped[j] == without_carriage_return(output_pieces(bytes@)[j]));
        }
    }
    false
}

pub open spec fn mentions(text: Seq<char>, pattern: Seq<char>) -> bool {
    find_from(text, pattern, 0) is Some
}

fn contains_text(text: &str, pattern: &str) -> (r: bool)
    ensures
        r == mentions(text@, pattern@),
{
    let t = chars_of(text);
    let p = chars_of(pattern);
    find_chars(t.as_slice(), p.as_slice(), 0).is_some()
}

/// The stable class of a project discovery error, so that reports never
/// carry the error's paths.
pub open spec fn project_error_class(error: Seq<char>) -> Seq<char> {
    if mentions(error, "no project.edn"@) {
        "hoplite/doctor-project-not-found"@
    } else if mentions(error, "cannot read"@) {
        "hoplite/doctor-project-unreadable"@
    } else {
        "hoplite/doctor-project-invalid"@
    }
}

pub fn classify_project_error(error: &str) -> (class: &'static str)
    ensures
        class@ == project_error_class(error@),
{
    if contains_text(error, "no project.edn") {
        "hoplite/doctor-project-not-found"
    } else if contains_text(error, "cannot read") {
        "hoplite/doctor-project-unreadable"
    } else {
        "hoplite/doctor-project-invalid"
    }
}

} // verus!

verus! {

/// What a probe process reported.
#[derive(Clone, Debug)]
pub struct ProcessOutput {
    pub success: bool,
    pub stdout: Vec<u8>,
    pub stderr: Vec<u8>,
}

/// Some line of standard output or standard error is exactly `line`.
pub open spec fn reports_line(output: ProcessOutput, line: Seq<char>) -> bool {
    has_line(output.stdout@, encode_utf8(line)) || has_line(output.stderr@, encode_utf8(line))
}

/// Some line of standard output or standard error starts with `prefix`.
pub open spec fn reports_line_prefix(output: ProcessOutput, prefix: Seq<char>) -> bool {
    has_line_prefix(output.stdout@, encode_utf8(prefix)) || has_line_prefix(
        output.stderr@,
        encode_utf8(prefix),
    )
}

pub fn output_has_line(output: &ProcessOutput, expected: &str) -> (r: bool)
    ensures
        r == reports_line(*output, expected@),
{
    let bytes = expected.as_bytes();
    stream_has_line(output.stdout.as_slice(), bytes) || stream_has_line(
        output.stderr.as_slice(),
        bytes,
    )
}

pub fn output_has_line_prefix(output: &ProcessOutput, prefix: &str) -> (r: bool)
    ensures
        r == reports_line_prefix(*output, prefix@),
{
    let bytes = prefix.as_bytes();
    stream_has_line_prefix(output.stdout.as_slice(), bytes) || stream_has_line_prefix(
        output.stderr.as_slice(),
        bytes,
    )
}

/// How the running Hoplite executable was found.
#[derive(Clone, Debug)]
pub enum ExecutableProbe {
    Unresolved,
    NotRegular(String),
    Regular(String),
}

/// How the selected Nginx binary answered `nginx -v`.
#[derive(Clone, Debug)]
pub enum NginxProbe {
    Unresolved,
    Missing(String),
    NotExecutable(String),
    ExecFailed(String),
    Ran(String, ProcessOutput),
}

/// How the companion `hoplite-server` answered `version`.
#[derive(Clone, Debug)]
pub enum ServerProbe {
    Unlocated,
    NotBeside(String),
    ExecFailed(String),
    Ran(String, ProcessOutput),
}

/// What the host reported about itself, gathered before any decision.
#[derive(Clone, Debug)]
pub struct PlatformProbes {
    pub operating_system: String,
    pub executable: ExecutableProbe,
    pub nginx: NginxProbe,
    pub server: ServerProbe,
    pub trusted_ca: Option<String>,
}

pub open spec fn shown(path: Seq<char>, show_paths: bool) -> Option<Seq<char>> {
    if show_paths {
        Some(path)
    } else {
        None
    }
}

pub open spec fn failed(id: Seq<char>, summary: Seq<char>, class: Seq<char>) -> CheckModel {
    with_detail(plain_check(id, CheckStatus::Fail, summary), class)
}

pub open spec fn warned(id: Seq<char>, summary: Seq<char>, class: Seq<char>) -> CheckModel {
    with_detail(plain_check(id, CheckStatus::Warn, summary), class)
}

pub open spec fn at_path(check: CheckModel, path: Seq<char>, show_paths: bool) -> CheckModel {
    CheckModel { path: shown(path, show_paths), ..check }
}

pub open spec fn operating_system_check(os: Seq<char>) -> CheckModel {
    if os == "linux"@ || os == "macos"@ {
        plain_check("operating-system"@, CheckStatus::Pass, os + " is a supported Hoplite host"@)
    } else {
        failed(
            "operating-system"@,
            os + " is not a supported Hoplite host"@,
            "hoplite/doctor-operating-system-unsupported"@,
        )
    }
}

pub open spec fn executable_check(probe: ExecutableProbe, show_paths: bool) -> CheckModel {
    match probe {
        ExecutableProbe::Regular(path) => at_path(
            plain_check("hoplite-executable"@, CheckStatus::Pass, "the Hoplite executable is readable"@),
            path@,
            show_paths,
        ),
        ExecutableProbe::NotRegular(path) => at_path(
            failed(
                "hoplite-executable"@,
                "the current Hoplite executable is not a regular file"@,
                "hoplite/doctor-executable-not-regular"@,
            ),
            path@,
            show_paths,
        ),
        ExecutableProbe::Unresolved => failed(
            "hoplite-executable"@,
            "the current Hoplite executable cannot be resolved"@,
            "hoplite/doctor-executable-unavailable"@,
        ),
    }
}

pub open spec fn nginx_check(probe: NginxProbe, show_paths: bool, distribution: Seq<char>) -> CheckModel {
    match probe {
        NginxProbe::Ran(path, output) => at_path(
            if output.success && reports_line(output, "nginx version: nginx/1.30.4"@) {
                plain_check(
                    "nginx-runtime"@,
                    CheckStatus::Pass,
                    "Nginx 1.30.4 ("@ + distribution + ") is executable"@,
                )
            } else if output.success {
                failed(
                    "nginx-runtime"@,
                    "the selected Nginx does not report required version 1.30.4"@,
                    "hoplite/doctor-nginx-version-incompatible"@,
                )
            } else {
                failed(
                    "nginx-runtime"@,
                    "Nginx version probing failed"@,
                    "hoplite/doctor-nginx-probe-failed"@,
                )
            },
            path@,
            show_paths,
        ),
        NginxProbe::NotExecutable(path) => at_path(
            failed(
                "nginx-runtime"@,
                "the Nginx binary is not executable"@,
                "hoplite/doctor-nginx-not-executable"@,
            ),
            path@,
            show_paths,
        ),
        NginxProbe::ExecFailed(path) => at_path(
            failed(
                "nginx-runtime"@,
                "the Nginx binary could not be executed"@,
                "hoplite/doctor-nginx-exec-failed"@,
            ),
            path@,
            show_paths,
        ),
        NginxProbe::Missing(path) => at_path(
            failed(
                "nginx-runtime"@,
                "the configured Nginx binary is missing"@,
                "hoplite/doctor-nginx-not-found"@,
            ),
            path@,
            show_paths,
        ),
        NginxProbe::Unresolved => failed(
            "nginx-runtime"@,
            "the Nginx runtime could not be resolved"@,
            "hoplite/doctor-nginx-unavailable"@,
        ),
    }
}

pub open spec fn server_check(probe: ServerProbe, show_paths: bool, version: Seq<char>) -> CheckModel {
    match probe {
        ServerProbe::Ran(path, output) => at_path(
            if output.success && reports_line(output, "Hoplite server "@ + version)
                && reports_line_prefix(output, "Nginx 1.30.4 ("@) {
                plain_check(
                    "hoplite-server"@,
                    CheckStatus::Pass,
                    "the source-free production server executable is compatible"@,
                )
            } else if output.success {
                failed(
                    "hoplite-server"@,
                    "the companion production server reports an incompatible identity"@,
                    "hoplite/doctor-server-cli-incompatible"@,
                )
            } else {
                failed(
                    "hoplite-server"@,
                    "the companion production server version probe failed"@,
                    "hoplite/doctor-server-cli-probe-failed"@,
                )
            },
            path@,
            show_paths,
        ),
        ServerProbe::ExecFailed(path) => at_path(
            failed(
                "hoplite-server"@,
                "the companion production server could not be executed"@,
                "hoplite/doctor-server-cli-exec-failed"@,
            ),
            path@,
            show_paths,
        ),
        ServerProbe::NotBeside(path) => at_path(
            warned(
                "hoplite-server"@,
                "the source-free production server executable is not beside hoplite"@,
                "hoplite/doctor-server-cli-not-found"@,
            ),
            path@,
            show_paths,
        ),
        ServerProbe::Unlocated => warned(
            "hoplite-server"@,
            "the source-free production server executable could not be located"@,
            "hoplite/doctor-server-cli-unavailable"@,
        ),
    }
}

pub open spec fn trusted_ca_check(trusted_ca: Option<String>, show_paths: bool) -> CheckModel {
    match trusted_ca {
        Some(path) => at_path(
            plain_check(
                "trusted-ca-bundle"@,
                CheckStatus::Pass,
                "a trusted CA bundle is available for secure static upstreams"@,
            ),
            path@,
            show_paths,
        ),
        None => warned(
            "trusted-ca-bundle"@,
            "no trusted CA bundle is available for secure static upstreams"@,
            "hoplite/doctor-ca-bundle-unavailable"@,
        ),
    }
}

/// The five host checks, in report order.
pub open spec fn platform_check_models(
    probes: PlatformProbes,
    show_paths: bool,
    version: Seq<char>,
    distribution: Seq<char>,
) -> Seq<CheckModel> {
    seq![
        operating_system_check(probes.operating_system@),
        executable_check(probes.executable, show_paths),
        nginx_check(probes.nginx, show_paths, distribution),
        server_check(probes.server, show_paths, version),
        trusted_ca_check(probes.trusted_ca, show_paths),
    ]
}

fn text_of(parts_a: &str, parts_b: &str) -> (out: String)
    ensures
        out@ == parts_a@ + parts_b@,
{
    let mut out = owned(parts_a);
    push_str(&mut out, parts_b);
    out
}

fn operating_system_entry(os: &String) -> (check: Check)
    ensures
        check@ == operating_system_check(os@),
{
    proof {
        reveal_strlit("linux");
        reveal_strlit("macos");
    }
    let chars = chars_of(os.as_str());
    let linux: [char; 5] = ['l', 'i', 'n', 'u', 'x'];
    let macos: [char; 5] = ['m', 'a', 'c', 'o', 's'];
    assert(linux@ =~= "linux"@);
    assert(macos@ =~= "macos"@);
    let supported = crate::text::same_chars(chars.as_slice(), linux.as_slice())
        || crate::text::same_chars(chars.as_slice(), macos.as_slice());
    if supported {
        Check::pass("operating-system", text_of(os.as_str(), " is a supported Hoplite host"))
    } else {
        Check::fail("operating-system", text_of(os.as_str(), " is not a supported Hoplite host"))
            .detail("hoplite/doctor-operating-system-unsupported")
    }
}

fn executable_entry(probe: &ExecutableProbe, show_paths: bool) -> (check: Check)
    ensures
        check@ == executable_check(*probe, show_paths),
{
    match probe {
        ExecutableProbe::Regular(path) => Check::pass(
            "hoplite-executable",
            owned("the Hoplite executable is readable"),
        ).path(Some(path.as_str()), show_paths),
        ExecutableProbe::NotRegular(path) => Check::fail(
            "hoplite-executable",
            owned("the current Hoplite executable is not a regular file"),
        ).detail("hoplite/doctor-executable-not-regular").path(Some(path.as_str()), show_paths),
        ExecutableProbe::Unresolved => Check::fail(
            "hoplite-executable",
            owned("the current Hoplite executable cannot be resolved"),
        ).detail("hoplite/doctor-executable-unavailable"),
    }
}

fn nginx_entry(probe: &NginxProbe, show_paths: bool, distribution: &str) -> (check: Check)
    ensures
        check@ == nginx_check(*probe, show_paths, distribution@),
{
    match probe {
        NginxProbe::Ran(path, output) => {
            let check = if output.success && output_has_line(output, "nginx version: nginx/1.30.4") {
                let mut summary = owned("Nginx 1.30.4 (");
                push_str(&mut summary, distribution);
                push_str(&mut summary, ") is executable");
                Check::pass("nginx-runtime", summary)
            } else if output.success {
                Check::fail(
                    "nginx-runtime",
                    owned("the selected Nginx does not report required version 1.30.4"),
                ).detail("hoplite/doctor-nginx-version-incompatible")
            } else {
                Check::fail("nginx-runtime", owned("Nginx version probing failed")).detail(
                    "hoplite/doctor-nginx-probe-failed",
                )
            };
            check.path(Some(path.as_str()), show_paths)
        },
        NginxProbe::NotExecutable(path) => Check::fail(
            "nginx-runtime",
            owned("the Nginx binary is not executable"),
        ).detail("hoplite/doctor-nginx-not-executable").path(Some(path.as_str()), show_paths),
        NginxProbe::ExecFailed(path) => Check::fail(
            "nginx-runtime",
            owned("the Nginx binary could not be executed"),
        ).detail("hoplite/doctor-nginx-exec-failed").path(Some(path.as_str()), show_paths),
        NginxProbe::Missing(path) => Check::fail(
            "nginx-runtime",
            owned("the configured Nginx binary is missing"),
        ).detail("hoplite/doctor-nginx-not-found").path(Some(path.as_str()), show_paths),
        NginxProbe::Unresolved => Check::fail(
            "nginx-runtime",
            owned("the Nginx runtime could not be resolved"),
        ).detail("hoplite/doctor-nginx-unavailable"),
    }
}

fn server_entry(probe: &ServerProbe, show_paths: bool, version: &str) -> (check: Check)
    ensures
        check@ == server_check(*probe, show_paths, version@),
{
    match probe {
        ServerProbe::Ran(path, output) => {
            let identity = text_of("Hoplite server ", version);
            let check = if output.success && output_has_line(output, identity.as_str())
                && output_has_line_prefix(output, "Nginx 1.30.4 (") {
                Check::pass(
                    "hoplite-server",
                    owned("the source-free production server executable is compatible"),
                )
            } else if output.success {
                Check::fail(
                    "hoplite-server",
                    owned("the companion production server reports an incompatible identity"),
                ).detail("hoplite/doctor-server-cli-incompatible")
            } else {
                Check::fail(
                    "hoplite-server",
                    owned("the companion production server version probe failed"),
                ).detail("hoplite/doctor-server-cli-probe-failed")
            };
            check.path(Some(path.as_str()), show_paths)
        },
        ServerProbe::ExecFailed(path) => Check::fail(
            "hoplite-server",
            owned("the companion production server could not be executed"),
        ).detail("hoplite/doctor-server-cli-exec-failed").path(Some(path.as_str()), show_paths),
        ServerProbe::NotBeside(path) => Check::warn(
            "hoplite-server",
            owned("the source-free production server executable is not beside hoplite"),
        ).detail("hoplite/doctor-server-cli-not-found").path(Some(path.as_str()), show_paths),
        ServerProbe::Unlocated => Check::warn(
            "hoplite-server",
            owned("the source-free production server executable could not be located"),
        ).detail("hoplite/doctor-server-cli-unavailable"),
    }
}

fn trusted_ca_entry(trusted_ca: &Option<String>, show_paths: bool) -> (check: Check)
    ensures
        check@ == trusted_ca_check(*trusted_ca, show_paths),
{
    match trusted_ca {
        Some(path) => Check::pass(
            "trusted-ca-bundle",
            owned("a trusted CA bundle is available for secure static upstreams"),
        ).path(Some(path.as_str()), show_paths),
        None => Check::warn(
            "trusted-ca-bundle",
            owned("no trusted CA bundle is available for secure static upstreams"),
        ).detail("hoplite/doctor-ca-bundle-unavailable"),
    }
}

/// Appends the host checks: supported operating system, readable Hoplite
/// executable, the exact Nginx release, a compatible companion server, and
/// a trusted CA bundle.
pub fn collect_platform_checks(
    probes: &PlatformProbes,
    show_paths: bool,
    hoplite_version: &str,
    nginx_distribution: &str,
    checks: &mut Vec<Check>,
)
    ensures
        check_models(final(checks)@) == check_models(old(checks)@) + platform_check_models(
            *probes,
            show_paths,
            hoplite_version@,
            nginx_distribution@,
        ),
{
    let ghost before = checks@;
    checks.push(operating_system_entry(&probes.operating_system));
    checks.push(executable_entry(&probes.executable, show_paths));
    checks.push(nginx_entry(&probes.nginx, show_paths, nginx_distribution));
    checks.push(server_entry(&probes.server, show_paths, hoplite_version));
    checks.push(trusted_ca_entry(&probes.trusted_ca, show_paths));
    assert(check_models(checks@) =~= check_models(before) + platform_check_models(
        *probes,
        show_paths,
        hoplite_version@,
        nginx_distribution@,
    ));
}

} // verus!

verus! {

/// `s` unless there is exactly one.
pub open spec fn plural(n: nat) -> Seq<char> {
    if n == 1 {
        Seq::empty()
    } else {
        seq!['s']
    }
}

fn push_plural(out: &mut String, n: usize)
    ensures
        final(out)@ == old(out)@ + plural(n as nat),
{
    if n != 1 {
        push_char(out, 's');
    } else {
        assert(old(out)@ + plural(n as nat) =~= old(out)@);
    }
}

/// The project's default profile as discovery resolved it.
#[derive(Clone, Debug)]
pub enum ProfileProbe {
    Invalid,
    Missing,
    Found { name: String, language: String, main: String },
}

/// What discovering the project found.
#[derive(Clone, Debug)]
pub struct ProjectProbe {
    pub id: String,
    pub version: String,
    pub manifest_path: String,
    pub profile: ProfileProbe,
    /// The number of HAL source files, or `None` when their paths could not
    /// be read.
    pub source_files: Option<usize>,
    pub capabilities: Vec<String>,
    /// The number of validated platform module activations, or `None` when
    /// the platform or package lock is invalid.
    pub platform_modules: Option<usize>,
}

pub open spec fn profile_check(profile: ProfileProbe) -> CheckModel {
    match profile {
        ProfileProbe::Found { name, language, main } => if language@ == "hoplite"@ && main@.contains(
            '/',
        ) {
            plain_check(
                "project-profile"@,
                CheckStatus::Pass,
                "default profile "@ + name@ + " selects qualified Hoplite main "@ + main@,
            )
        } else if language@ != "hoplite"@ {
            failed(
                "project-profile"@,
                "default profile "@ + name@ + " uses language "@ + language@ + " instead of hoplite"@,
                "hoplite/doctor-profile-language-invalid"@,
            )
        } else {
            failed(
                "project-profile"@,
                "default profile "@ + name@ + " has an unqualified main value"@,
                "hoplite/doctor-profile-main-invalid"@,
            )
        },
        ProfileProbe::Missing => failed(
            "project-profile"@,
            "the project has no runnable profile"@,
            "hoplite/doctor-profile-missing"@,
        ),
        ProfileProbe::Invalid => failed(
            "project-profile"@,
            "the default project profile is invalid"@,
            "hoplite/doctor-profile-invalid"@,
        ),
    }
}

pub open spec fn source_check(source_files: Option<usize>) -> CheckModel {
    match source_files {
        Some(n) => if n == 0 {
            failed(
                "application-source"@,
                "the project contains no HAL source files"@,
                "hoplite/doctor-source-empty"@,
            )
        } else {
            plain_check(
                "application-source"@,
                CheckStatus::Pass,
                decimal_chars(n as nat) + " HAL source file"@ + plural(n as nat) + " are discoverable"@,
            )
        },
        None => failed(
            "application-source"@,
            "HAL source paths could not be read"@,
            "hoplite/doctor-source-unreadable"@,
        ),
    }
}

pub open spec fn capability_check(capabilities: Seq<String>) -> CheckModel {
    if exists|i: int| 0 <= i < capabilities.len() && (#[trigger] capabilities[i])@ == "host/nginx"@ {
        plain_check(
            "project-capability"@,
            CheckStatus::Pass,
            "the project declares the host/nginx capability"@,
        )
    } else {
        warned(
            "project-capability"@,
            "the project does not declare the host/nginx capability"@,
            "hoplite/doctor-nginx-capability-missing"@,
        )
    }
}

pub open spec fn platform_contract_check(platform_modules: Option<usize>) -> CheckModel {
    match platform_modules {
        Some(n) => plain_check(
            "platform-contract"@,
            CheckStatus::Pass,
            decimal_chars(n as nat) + " platform module activation"@ + plural(n as nat) + " validated"@,
        ),
        None => failed(
            "platform-contract"@,
            "the selected platform and package lock are invalid"@,
            "hoplite/doctor-platform-invalid"@,
        ),
    }
}

/// The project checks: discovery, then (for a discovered project) its
/// profile, sources, capability and platform contract.
pub open spec fn project_check_models(
    discovery: Result<ProjectProbe, String>,
    target: Seq<char>,
    show_paths: bool,
) -> Seq<CheckModel> {
    match discovery {
        Err(error) => seq![
            at_path(
                failed(
                    "project"@,
                    "a valid project.edn could not be discovered"@,
                    project_error_class(error@),
                ),
                target,
                show_paths,
            ),
        ],
        Ok(project) => seq![
            at_path(
                plain_check(
                    "project"@,
                    CheckStatus::Pass,
                    "project "@ + project.id@ + seq![' '] + project.version@ + " is readable"@,
                ),
                project.manifest_path@,
                show_paths,
            ),
            profile_check(project.profile),
            source_check(project.source_files),
            capability_check(project.capabilities@),
            platform_contract_check(project.platform_modules),
        ],
    }
}

fn profile_entry(profile: &ProfileProbe) -> (check: Check)
    ensures
        check@ == profile_check(*profile),
{
    match profile {
        ProfileProbe::Found { name, language, main } => {
            let hoplite: [char; 7] = ['h', 'o', 'p', 'l', 'i', 't', 'e'];
            proof {
                reveal_strlit("hoplite");
                assert(hoplite@ =~= "hoplite"@);
            }
            let language_chars = chars_of(language.as_str());
            let is_hoplite = crate::text::same_chars(language_chars.as_slice(), hoplite.as_slice());
            let main_chars = chars_of(main.as_str());
            let slash: [char; 1] = ['/'];
            let qualified = find_chars(main_chars.as_slice(), slash.as_slice(), 0).is_some();
            proof {
                crate::text::lemma_find_from_bounds(main@, slash@, 0);
                assert(slash@ =~= seq!['/']);
                if qualified {
                    let k = find_from(main@, slash@, 0)->0;
                    assert(main@.subrange(k, k + 1) == slash@);
                    assert(main@[k] == main@.subrange(k, k + 1)[0]);
                    assert(main@[k] == '/');
                    assert(main@.contains('/'));
                }
                if main@.contains('/') {
                    lemma_find_single(main@, '/');
                }
            }
            if is_hoplite && qualified {
                let mut summary = owned("default profile ");
                push_str(&mut summary, name.as_str());
                push_str(&mut summary, " selects qualified Hoplite main ");
                push_str(&mut summary, main.as_str());
                Check::pass("project-profile", summary)
            } else if !is_hoplite {
                let mut summary = owned("default profile ");
                push_str(&mut summary, name.as_str());
                push_str(&mut summary, " uses language ");
                push_str(&mut summary, language.as_str());
                push_str(&mut summary, " instead of hoplite");
                Check::fail("project-profile", summary).detail(
                    "hoplite/doctor-profile-language-invalid",
                )
            } else {
                let mut summary = owned("default profile ");
                push_str(&mut summary, name.as_str());
                push_str(&mut summary, " has an unqualified main value");
                Check::fail("project-profile", summary).detail("hoplite/doctor-profile-main-invalid")
            }
        },
        ProfileProbe::Missing => Check::fail(
            "project-profile",
            owned("the project has no runnable profile"),
        ).detail("hoplite/doctor-profile-missing"),
        ProfileProbe::Invalid => Check::fail(
            "project-profile",
            owned("the default project profile is invalid"),
        ).detail("hoplite/doctor-profile-invalid"),
    }
}

/// A character that occurs in the text is found by a search from the start.
proof fn lemma_find_single(text: Seq<char>, c: char)
    requires
        text.contains(c),
    ensures
        find_from(text, seq![c], 0) is Some,
{
    let k = choose|k: int| 0 <= k < text.len() && text[k] == c;
    lemma_find_reaches(text, c, 0, k);
}

proof fn lemma_find_reaches(text: Seq<char>, c: char, from: int, k: int)
    requires
        0 <= from <= k < text.len(),
        text[k] == c,
    ensures
        find_from(text, seq![c], from) is Some,
    decreases k - from,
{
    if text.subrange(from, from + 1) != seq![c] {
        if from == k {
            assert(text.subrange(from, from + 1) =~= seq![c]);
        } else {
            lemma_find_reaches(text, c, from + 1, k);
        }
    }
}

fn source_entry(source_files: Option<usize>) -> (check: Check)
    ensures
        check@ == source_check(source_files),
{
    match source_files {
        Some(n) => if n == 0 {
            Check::fail("application-source", owned("the project contains no HAL source files")).detail(
                "hoplite/doctor-source-empty",
            )
        } else {
            let mut summary = String::new();
            push_decimal(&mut summary, n as u64);
            push_str(&mut summary, " HAL source file");
            push_plural(&mut summary, n);
            push_str(&mut summary, " are discoverable");
            assert(summary@ =~= decimal_chars(n as nat) + " HAL source file"@ + plural(n as nat)
                + " are discoverable"@);
            Check::pass("application-source", summary)
        },
        None => Check::fail("application-source", owned("HAL source paths could not be read")).detail(
            "hoplite/doctor-source-unreadable",
        ),
    }
}

fn capability_entry(capabilities: &Vec<String>) -> (check: Check)
    ensures
        check@ == capability_check(capabilities@),
{
    let wanted: [char; 10] = ['h', 'o', 's', 't', '/', 'n', 'g', 'i', 'n', 'x'];
    proof {
        reveal_strlit("host/nginx");
        assert(wanted@ =~= "host/nginx"@);
    }
    let mut found = false;
    let mut i: usize = 0;
    while i < capabilities.len()
        invariant
            i <= capabilities@.len(),
            wanted@ == "host/nginx"@,
            found == exists|j: int| 0 <= j < i && (#[trigger] capabilities@[j])@ == "host/nginx"@,
        decreases capabilities@.len() - i,
    {
        let chars = chars_of(capabilities[i].as_str());
        if crate::text::same_chars(chars.as_slice(), wanted.as_slice()) {
            found = true;
        }
        i = i + 1;
    }
    if found {
        Check::pass("project-capability", owned("the project declares the host/nginx capability"))
    } else {
        Check::warn(
            "project-capability",
            owned("the project does not declare the host/nginx capability"),
        ).detail("hoplite/doctor-nginx-capability-missing")
    }
}

fn platform_contract_entry(platform_modules: Option<usize>) -> (check: Check)
    ensures
        check@ == platform_contract_check(platform_modules),
{
    match platform_modules {
        Some(n) => {
            let mut summary = String::new();
            push_decimal(&mut summary, n as u64);
            push_str(&mut summary, " platform module activation");
            push_plural(&mut summary, n);
            push_str(&mut summary, " validated");
            assert(summary@ =~= decimal_chars(n as nat) + " platform module activation"@ + plural(
                n as nat,
            ) + " validated"@);
            Check::pass("platform-contract", summary)
        },
        None => Check::fail(
            "platform-contract",
            owned("the selected platform and package lock are invalid"),
        ).detail("hoplite/doctor-platform-invalid"),
    }
}

/// Appends the project checks and says whether a project was discovered.
/// Discovery errors are reported by their stable class only.
pub fn collect_project_checks(
    discovery: &Result<ProjectProbe, String>,
    target: &str,
    show_paths: bool,
    checks: &mut Vec<Check>,
) -> (found: bool)
    ensures
        found == discovery is Ok,
        check_models(final(checks)@) == check_models(old(checks)@) + project_check_models(
            *discovery,
            target@,
            show_paths,
        ),
{
    let ghost before = checks@;
    match discovery {
        Err(error) => {
            checks.push(
                Check::fail("project", owned("a valid project.edn could not be discovered")).detail(
                    classify_project_error(error.as_str()),
                ).path(Some(target), show_paths),
            );
            assert(check_models(checks@) =~= check_models(before) + project_check_models(
                *discovery,
                target@,
                show_paths,
            ));
            false
        },
        Ok(project) => {
            let mut summary = owned("project ");
            push_str(&mut summary, project.id.as_str());
            push_str(&mut summary, " ");
            push_str(&mut summary, project.version.as_str());
            push_str(&mut summary, " is readable");
            proof {
                reveal_strlit(" ");
                assert(summary@ =~= "project "@ + project.id@ + seq![' '] + project.version@
                    + " is readable"@);
            }
            checks.push(
                Check::pass("project", summary).path(Some(project.manifest_path.as_str()), show_paths),
            );
            checks.push(profile_entry(&project.profile));
            checks.push(source_entry(project.source_files));
            checks.push(capability_entry(&project.capabilities));
            checks.push(platform_contract_entry(project.platform_modules));
            assert(check_models(checks@) =~= check_models(before) + project_check_models(
                *discovery,
                target@,
                show_paths,
            ));
            true
        },
    }
}

/// The validated shape of a generated application, or `None` when the
/// bundle or its manifest is invalid.
#[derive(Clone, Copy, Debug)]
pub struct ApplicationHealth {
    pub applications: usize,
    pub routes: usize,
    pub source_inputs: usize,
}

pub open spec fn generated_check(
    output: Seq<char>,
    bundle_present: bool,
    manifest_present: bool,
    health: Option<ApplicationHealth>,
    show_paths: bool,
) -> CheckModel {
    at_path(
        if !bundle_present && !manifest_present {
            warned(
                "generated-application"@,
                "the project has not been built into source-free serving artifacts"@,
                "hoplite/doctor-application-not-built"@,
            )
        } else if bundle_present && manifest_present {
            match health {
                Some(h) => if h.source_inputs == 0 {
                    plain_check(
                        "generated-application"@,
                        CheckStatus::Pass,
                        "validated "@ + decimal_chars(h.applications as nat) + " application"@
                            + plural(h.applications as nat) + ", "@ + decimal_chars(h.routes as nat)
                            + " route"@ + plural(h.routes as nat) + ", and source-free output"@,
                    )
                } else {
                    warned(
                        "generated-application"@,
                        "generated output contains "@ + decimal_chars(h.source_inputs as nat)
                            + " application source input"@ + plural(h.source_inputs as nat)
                            + " and is not production source-free"@,
                        "hoplite/doctor-application-not-source-free"@,
                    )
                },
                None => failed(
                    "generated-application"@,
                    "the generated HAB0 application or exact manifest is invalid"@,
                    "hoplite/doctor-built-application-invalid"@,
                ),
            }
        } else {
            failed(
                "generated-application"@,
                "generated output contains only one of app.hbx and apps.hta"@,
                "hoplite/doctor-application-incomplete"@,
            )
        },
        output,
        show_paths,
    )
}

/// Appends the check of the generated serving artifacts in `output`
/// (`.hoplite`); `health` is consulted only when both artifacts exist.
pub fn collect_generated_application_checks(
    output: &str,
    bundle_present: bool,
    manifest_present: bool,
    health: Option<ApplicationHealth>,
    show_paths: bool,
    checks: &mut Vec<Check>,
)
    ensures
        check_models(final(checks)@) == check_models(old(checks)@).push(
            generated_check(output@, bundle_present, manifest_present, health, show_paths),
        ),
{
    let ghost before = checks@;
    let check = if !bundle_present && !manifest_present {
        Check::warn(
            "generated-application",
            owned("the project has not been built into source-free serving artifacts"),
        ).detail("hoplite/doctor-application-not-built")
    } else if bundle_present && manifest_present {
        match health {
            Some(h) => if h.source_inputs == 0 {
                let mut summary = owned("validated ");
                push_decimal(&mut summary, h.applications as u64);
                push_str(&mut summary, " application");
                push_plural(&mut summary, h.applications);
                push_str(&mut summary, ", ");
                push_decimal(&mut summary, h.routes as u64);
                push_str(&mut summary, " route");
                push_plural(&mut summary, h.routes);
                push_str(&mut summary, ", and source-free output");
                Check::pass("generated-application", summary)
            } else {
                let mut summary = owned("generated output contains ");
                push_decimal(&mut summary, h.source_inputs as u64);
                push_str(&mut summary, " application source input");
                push_plural(&mut summary, h.source_inputs);
                push_str(&mut summary, " and is not production source-free");
                Check::warn("generated-application", summary).detail(
                    "hoplite/doctor-application-not-source-free",
                )
            },
            None => Check::fail(
                "generated-application",
                owned("the generated HAB0 application or exact manifest is invalid"),
            ).detail("hoplite/doctor-built-application-invalid"),
        }
    } else {
        Check::fail(
            "generated-application",
            owned("generated output contains only one of app.hbx and apps.hta"),
        ).detail("hoplite/doctor-application-incomplete")
    };
    checks.push(check.path(Some(output), show_paths));
    assert(check_models(checks@) =~= check_models(before).push(
        generated_check(output@, bundle_present, manifest_present, health, show_paths),
    ));
}

pub open spec fn deep_preflight_check(passed: Option<bool>) -> CheckModel {
    match passed {
        Some(true) => plain_check(
            "deep-preflight"@,
            CheckStatus::Pass,
            "source compilation, app evaluation, HAB0 construction, and platform preflight passed"@,
        ),
        Some(false) => failed(
            "deep-preflight"@,
            "the full source compilation and application preflight failed"@,
            "hoplite/doctor-deep-preflight-failed"@,
        ),
        None => failed(
            "deep-preflight"@,
            "deep preflight requires a valid Hoplite project"@,
            "hoplite/doctor-deep-preflight-unavailable"@,
        ),
    }
}

/// Appends the deep preflight check: its outcome for a discovered project,
/// or `None` when there was no valid project to compile.
pub fn collect_deep_preflight(passed: Option<bool>, checks: &mut Vec<Check>)
    ensures
        check_models(final(checks)@) == check_models(old(checks)@).push(deep_preflight_check(passed)),
{
    let ghost before = checks@;
    let check = match passed {
        Some(true) => Check::pass(
            "deep-preflight",
            owned(
                "source compilation, app evaluation, HAB0 construction, and platform preflight passed",
            ),
        ),
        Some(false) => Check::fail(
            "deep-preflight",
            owned("the full source compilation and application preflight failed"),
        ).detail("hoplite/doctor-deep-preflight-failed"),
        None => Check::fail(
            "deep-preflight",
            owned("deep preflight requires a valid Hoplite project"),
        ).detail("hoplite/doctor-deep-preflight-unavailable"),
    };
    checks.push(check);
    assert(check_models(checks@) =~= check_models(before).push(deep_preflight_check(passed)));
}

} // verus!

verus! {

pub open spec fn optional_line(label: Seq<char>, value: Option<Seq<char>>) -> Seq<char> {
    match value {
        Some(text) => "    "@ + label + ": "@ + text + "\n"@,
        None => Seq::empty(),
    }
}

/// `[status] id: summary`, then the class and the path when present.
pub open spec fn check_text(check: CheckModel) -> Seq<char> {
    "["@ + status_name(check.status) + "] "@ + check.id + ": "@ + check.summary + "\n"@
        + optional_line("class"@, check.detail) + optional_line("path"@, check.path)
}

pub open spec fn checks_text(checks: Seq<CheckModel>) -> Seq<char>
    decreases checks.len(),
{
    if checks.len() == 0 {
        Seq::empty()
    } else {
        checks_text(checks.drop_last()) + check_text(checks.last())
    }
}

/// The human report: its header, one entry per check, and the verdict with
/// the warning and failure counts.
pub open spec fn human_report(
    deep: bool,
    strict: bool,
    operating_system: Seq<char>,
    architecture: Seq<char>,
    nginx_distribution: Seq<char>,
    checks: Seq<CheckModel>,
    version: Seq<char>,
) -> Seq<char> {
    let warnings = count_status(checks, CheckStatus::Warn);
    let failures = count_status(checks, CheckStatus::Fail);
    "Hoplite doctor\nreport format: hoplite.doctor/0-alpha\nsystem: "@ + operating_system + "/"@
        + architecture + "; Hoplite "@ + version + "; Nginx 1.30.4 ("@ + nginx_distribution
        + ")\nmode: "@ + (if deep {
        "deep"@
    } else {
        "read-only"@
    }) + (if strict {
        ", strict"@
    } else {
        Seq::empty()
    }) + "\n\n"@ + checks_text(checks) + "\nresult: "@ + (if failures == 0 {
        "healthy"@
    } else {
        "unhealthy"@
    }) + " ("@ + decimal_chars(warnings) + " warning"@ + plural(warnings) + ", "@ + decimal_chars(
        failures,
    ) + " failure"@ + plural(failures) + ")\n"@
}

fn push_optional_line(out: &mut String, label: &str, value: &Option<String>)
    ensures
        final(out)@ == old(out)@ + optional_line(label@, optional_text(*value)),
{
    match value {
        Some(text) => {
            let ghost before = out@;
            push_str(out, "    ");
            push_str(out, label);
            push_str(out, ": ");
            push_str(out, text.as_str());
            push_str(out, "\n");
            assert(out@ =~= before + optional_line(label@, optional_text(*value)));
        },
        None => {
            assert(out@ =~= old(out)@ + optional_line(label@, optional_text(*value)));
        },
    }
}

fn push_check(out: &mut String, check: &Check)
    ensures
        final(out)@ == old(out)@ + check_text(check@),
{
    let ghost before = out@;
    push_str(out, "[");
    push_str(out, check.status.as_str());
    push_str(out, "] ");
    push_str(out, check.id.as_str());
    push_str(out, ": ");
    push_str(out, check.summary.as_str());
    push_str(out, "\n");
    push_optional_line(out, "class", &check.detail);
    push_optional_line(out, "path", &check.path);
    assert(out@ =~= before + check_text(check@));
}

/// Renders the report for a terminal; `hoplite_version` is the version this
/// executable was built as.
pub fn render_human(report: &Report, hoplite_version: &str) -> (text: String)
    ensures
        text@ == human_report(
            report.deep,
            report.strict,
            report.operating_system@,
            report.architecture@,
            report.nginx_distribution@,
            check_models(report.checks@),
            hoplite_version@,
        ),
{
    let mut output = owned("Hoplite doctor\nreport format: hoplite.doctor/0-alpha\nsystem: ");
    push_str(&mut output, report.operating_system.as_str());
    push_str(&mut output, "/");
    push_str(&mut output, report.architecture.as_str());
    push_str(&mut output, "; Hoplite ");
    push_str(&mut output, hoplite_version);
    push_str(&mut output, "; Nginx 1.30.4 (");
    push_str(&mut output, report.nginx_distribution.as_str());
    push_str(&mut output, ")\nmode: ");
    if report.deep {
        push_str(&mut output, "deep");
    } else {
        push_str(&mut output, "read-only");
    }
    if report.strict {
        push_str(&mut output, ", strict");
    } else {
        assert(output@ + Seq::<char>::empty() =~= output@);
    }
    push_str(&mut output, "\n\n");
    let ghost header = output@;
    let ghost models = check_models(report.checks@);
    let mut i: usize = 0;
    while i < report.checks.len()
        invariant
            i <= report.checks@.len(),
            models == check_models(report.checks@),
            output@ == header + checks_text(models.take(i as int)),
        decreases report.checks@.len() - i,
    {
        push_check(&mut output, &report.checks[i]);
        proof {
            assert(models.take(i + 1).drop_last() =~= models.take(i as int));
            assert(output@ =~= header + checks_text(models.take(i + 1)));
        }
        i = i + 1;
    }
    assert(models.take(i as int) =~= models);
    let warnings = report.warnings();
    let failures = report.failures();
    push_str(&mut output, "\nresult: ");
    if failures == 0 {
        push_str(&mut output, "healthy");
    } else {
        push_str(&mut output, "unhealthy");
    }
    push_str(&mut output, " (");
    push_decimal(&mut output, warnings as u64);
    push_str(&mut output, " warning");
    push_plural(&mut output, warnings);
    push_str(&mut output, ", ");
    push_decimal(&mut output, failures as u64);
    push_str(&mut output, " failure");
    push_plural(&mut output, failures);
    push_str(&mut output, ")\n");
    output
}

} // verus!

verus! {

/// What `hoplite doctor` was asked to do.
#[derive(Clone, Debug, PartialEq, Eq)]
pub enum DoctorCommand {
    Help,
    Diagnose {
        target: Option<String>,
        json: bool,
        show_paths: bool,
        deep: bool,
        strict: bool,
    },
}

pub open spec fn is_help_word(word: Seq<char>) -> bool {
    word == "--help"@ || word == "-h"@ || word == "help"@
}

/// The options after the first `count` arguments have been read, or the
/// first refusal.
pub open spec fn doctor_options_after(arguments: Seq<Seq<char>>, count: int) -> Result<
    (Option<Seq<char>>, bool, bool, bool, bool),
    Seq<char>,
>
    decreases count,
{
    if count <= 0 {
        Ok((None, false, false, false, false))
    } else {
        match doctor_options_after(arguments, count - 1) {
            Err(e) => Err(e),
            Ok((target, json, show_paths, deep, strict)) => {
                let argument = arguments[count - 1];
                if argument == "--json"@ {
                    Ok((target, true, show_paths, deep, strict))
                } else if argument == "--show-paths"@ {
                    Ok((target, json, true, deep, strict))
                } else if argument == "--deep"@ {
                    Ok((target, json, show_paths, true, strict))
                } else if argument == "--strict"@ {
                    Ok((target, json, show_paths, deep, true))
                } else if argument.len() > 0 && argument[0] == '-' {
                    Err("hoplite/doctor-argument-invalid: unknown option "@ + crate::text::debug_text(argument))
                } else if target is None {
                    Ok((Some(argument), json, show_paths, deep, strict))
                } else {
                    Err("hoplite/doctor-argument-invalid: unexpected target "@ + crate::text::debug_text(argument))
                }
            },
        }
    }
}

pub open spec fn doctor_command_model(arguments: Seq<Seq<char>>) -> Result<
    Option<(Option<Seq<char>>, bool, bool, bool, bool)>,
    Seq<char>,
> {
    if arguments.len() > 0 && is_help_word(arguments[0]) {
        Ok(None)
    } else {
        match doctor_options_after(arguments, arguments.len() as int) {
            Ok(options) => Ok(Some(options)),
            Err(e) => Err(e),
        }
    }
}

pub open spec fn doctor_command_view(r: Result<DoctorCommand, String>) -> Result<
    Option<(Option<Seq<char>>, bool, bool, bool, bool)>,
    Seq<char>,
> {
    match r {
        Ok(DoctorCommand::Help) => Ok(None),
        Ok(DoctorCommand::Diagnose { target, json, show_paths, deep, strict }) => Ok(
            Some((optional_text(target), json, show_paths, deep, strict)),
        ),
        Err(message) => Err(message@),
    }
}

fn is_word(argument: &Vec<char>, word: &str) -> (r: bool)
    ensures
        r == (argument@ == word@),
{
    let chars = chars_of(word);
    crate::text::same_chars(argument.as_slice(), chars.as_slice())
}

/// Reads `hoplite doctor [--json] [--show-paths] [--deep] [--strict]
/// [PROJECT]`.
pub fn parse_doctor_arguments(arguments: &Vec<String>) -> (r: Result<DoctorCommand, String>)
    ensures
        doctor_command_view(r) == doctor_command_model(
            arguments@.map_values(|a: String| a@),
        ),
{
    let ghost words = arguments@.map_values(|a: String| a@);
    if arguments.len() > 0 {
        let first = chars_of(arguments[0].as_str());
        if is_word(&first, "--help") || is_word(&first, "-h") || is_word(&first, "help") {
            return Ok(DoctorCommand::Help);
        }
    }
    let mut target: Option<String> = None;
    let mut json = false;
    let mut show_paths = false;
    let mut deep = false;
    let mut strict = false;
    let mut i: usize = 0;
    while i < arguments.len()
        invariant
            i <= arguments@.len(),
            words == arguments@.map_values(|a: String| a@),
            !(arguments@.len() > 0 && is_help_word(words[0])),
            doctor_options_after(words, i as int) == Ok::<_, Seq<char>>(
                (optional_text(target), json, show_paths, deep, strict),
            ),
        decreases arguments@.len() - i,
    {
        let argument = chars_of(arguments[i].as_str());
        assert(words[i as int] == argument@);
        if is_word(&argument, "--json") {
            json = true;
        } else if is_word(&argument, "--show-paths") {
            show_paths = true;
        } else if is_word(&argument, "--deep") {
            deep = true;
        } else if is_word(&argument, "--strict") {
            strict = true;
        } else if argument.len() > 0 && argument[0] == '-' {
            let mut message = owned("hoplite/doctor-argument-invalid: unknown option ");
            let quoted = crate::text::debug_quoted(arguments[i].as_str());
            push_str(&mut message, quoted.as_str());
            proof {
                lemma_doctor_error_persists(words, i + 1, words.len() as int);
            }
            return Err(message);
        } else if target.is_none() {
            target = Some(owned(arguments[i].as_str()));
        } else {
            let mut message = owned("hoplite/doctor-argument-invalid: unexpected target ");
            let quoted = crate::text::debug_quoted(arguments[i].as_str());
            push_str(&mut message, quoted.as_str());
            proof {
                lemma_doctor_error_persists(words, i + 1, words.len() as int);
            }
            return Err(message);
        }
        i = i + 1;
    }
    Ok(DoctorCommand::Diagnose { target, json, show_paths, deep, strict })
}

proof fn lemma_doctor_error_persists(arguments: Seq<Seq<char>>, count: int, later: int)
    requires
        count <= later,
        doctor_options_after(arguments, count) is Err,
    ensures
        doctor_options_after(arguments, later) == doctor_options_after(arguments, count),
    decreases later - count,
{
    if count < later {
        lemma_doctor_error_persists(arguments, count, later - 1);
    }
}

/// How `hoplite doctor` ends: unhealthy when a required check failed,
/// incomplete when `--strict` meets a warning, and otherwise successful.
pub open spec fn doctor_verdict(checks: Seq<CheckModel>, strict: bool) -> Result<(), Seq<char>> {
    let failures = count_status(checks, CheckStatus::Fail);
    let warnings = count_status(checks, CheckStatus::Warn);
    if failures != 0 {
        Err("hoplite/doctor-unhealthy: "@ + decimal_chars(failures) + " required check"@ + plural(
            failures,
        ) + " failed"@)
    } else if strict && warnings != 0 {
        Err("hoplite/doctor-incomplete: "@ + decimal_chars(warnings) + " warning"@ + plural(
            warnings,
        ) + " under --strict"@)
    } else {
        Ok(())
    }
}

pub fn verdict(report: &Report, strict: bool) -> (r: Result<(), String>)
    ensures
        match r {
            Ok(()) => doctor_verdict(check_models(report.checks@), strict) is Ok,
            Err(message) => doctor_verdict(check_models(report.checks@), strict) == Err::<(), Seq<char>>(message@),
        },
{
    let failures = report.failures();
    if failures != 0 {
        let mut message = owned("hoplite/doctor-unhealthy: ");
        push_decimal(&mut message, failures as u64);
        push_str(&mut message, " required check");
        push_plural(&mut message, failures);
        push_str(&mut message, " failed");
        return Err(message);
    }
    let warnings = report.warnings();
    if strict && warnings != 0 {
        let mut message = owned("hoplite/doctor-incomplete: ");
        push_decimal(&mut message, warnings as u64);
        push_str(&mut message, " warning");
        push_plural(&mut message, warnings);
        push_str(&mut message, " under --strict");
        return Err(message);
    }
    Ok(())
}

/// Without `--show-paths`, no check that the doctor produces carries a
/// path, whatever the probes found.
pub proof fn law_paths_are_redacted_by_default(
    probes: PlatformProbes,
    version: Seq<char>,
    distribution: Seq<char>,
    discovery: Result<ProjectProbe, String>,
    target: Seq<char>,
    output: Seq<char>,
    bundle_present: bool,
    manifest_present: bool,
    health: Option<ApplicationHealth>,
    deep_passed: Option<bool>,
)
    ensures
        forall|i: int|
            0 <= i < platform_check_models(probes, false, version, distribution).len()
                ==> (#[trigger] platform_check_models(probes, false, version, distribution)[i]).path
                is None,
        forall|i: int|
            0 <= i < project_check_models(discovery, target, false).len()
                ==> (#[trigger] project_check_models(discovery, target, false)[i]).path is None,
        generated_check(output, bundle_present, manifest_present, health, false).path is None,
        deep_preflight_check(deep_passed).path is None,
{
}

/// A report is healthy exactly when it holds no failed check, and complete
/// exactly when it also holds no warning; a healthy report ends the run
/// successfully unless `--strict` meets a warning.
pub proof fn law_verdict_follows_health(checks: Seq<CheckModel>, strict: bool)
    ensures
        (doctor_verdict(checks, strict) is Ok) == (count_status(checks, CheckStatus::Fail) == 0 && (
        !strict || count_status(checks, CheckStatus::Warn) == 0)),
{
}

} // verus!
