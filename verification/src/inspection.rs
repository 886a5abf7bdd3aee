//! What `hoplite inspect` reports of generated output: the arguments it
//! takes, and its human-readable and JSON renderings of an inspection.

use vstd::prelude::*;
use crate::bundle::{FORMAT, RUNTIME_ABI_VERSION};
use crate::host::Json;
use crate::manifest::{ManifestSummary, array_of, json_number_is, json_text_is, member_at, object_keys, push_signed, signed_decimal};
use crate::text::{debug_quoted, debug_text, decimal_chars, owned, push_decimal, push_str, same_text};

verus! {

/// The format of an inspection report.
pub const INSPECTION_FORMAT: &'static str = "hoplite.inspect/0-alpha";

/// A generated file that may be absent.
#[derive(Debug)]
pub struct Artifact {
    pub present: bool,
    pub bytes: Option<usize>,
    pub sha256: Option<String>,
}

/// The source files found in the output, with a few of their names.
#[derive(Debug)]
pub struct SourceInputs {
    pub count: usize,
    pub examples: Vec<String>,
}

#[derive(Debug)]
pub struct InspectionPaths {
    pub output: String,
    pub bundle: String,
    pub manifest: String,
}

/// Everything an inspection found.
#[derive(Debug)]
pub struct Inspection {
    pub bundle_bytes: usize,
    pub bundle_sha256: String,
    pub manifest_bytes: usize,
    pub manifest_sha256: String,
    pub bytecode_bytes: usize,
    pub manifest: ManifestSummary,
    pub nginx_configuration: Artifact,
    pub platform_hta: Artifact,
    pub platform_edn: Artifact,
    pub openapi_documents: usize,
    pub source_inputs: SourceInputs,
    pub paths: Option<InspectionPaths>,
}

pub open spec fn dec(n: nat) -> Seq<char> {
    decimal_chars(n)
}

/// `absent`, or the artifact's size and digest.
pub open spec fn artifact_text(artifact: Artifact) -> Seq<char> {
    if !artifact.present {
        "absent"@
    } else {
        dec(
            match artifact.bytes {
                Some(n) => n as nat,
                None => 0,
            },
        ) + " bytes (sha256:"@ + match artifact.sha256 {
            Some(s) => s@,
            None => "unknown"@,
        } + ")"@
    }
}

/// `name=count` entries joined by `, `.
pub open spec fn adapter_entries(adapters: Seq<(String, usize)>) -> Seq<char>
    decreases adapters.len(),
{
    if adapters.len() == 0 {
        Seq::empty()
    } else if adapters.len() == 1 {
        adapters[0].0@ + "="@ + dec(adapters[0].1 as nat)
    } else {
        adapter_entries(adapters.drop_last()) + ", "@ + adapters.last().0@ + "="@ + dec(adapters.last().1 as nat)
    }
}

pub open spec fn adapters_line(adapters: Seq<(String, usize)>) -> Seq<char> {
    if adapters.len() == 0 {
        "none"@
    } else {
        adapter_entries(adapters)
    }
}

pub open spec fn example_lines(examples: Seq<String>) -> Seq<char>
    decreases examples.len(),
{
    if examples.len() == 0 {
        Seq::empty()
    } else {
        example_lines(examples.drop_last()) + "  source input: "@ + examples.last()@ + "\n"@
    }
}

pub open spec fn sources_text(inputs: SourceInputs) -> Seq<char> {
    if inputs.count == 0 {
        "source-free output: yes\n"@
    } else {
        "source-free output: no ("@ + dec(inputs.count as nat) + " source input"@ + (if inputs.count == 1 {
            ""@
        } else {
            "s"@
        }) + ")\n"@ + example_lines(inputs.examples@)
    }
}

pub open spec fn paths_text(paths: Option<InspectionPaths>) -> Seq<char> {
    match paths {
        Some(p) => "output: "@ + p.output@ + "\nbundle path: "@ + p.bundle@ + "\nmanifest path: "@ + p.manifest@ + "\n"@,
        None => "paths: redacted (use --show-paths)\n"@,
    }
}

/// The report's lines on the bundle and the manifest.
pub open spec fn bundle_lines(i: Inspection) -> Seq<char> {
    "Hoplite application inspection\ninspection format: "@ + INSPECTION_FORMAT@ + "\napplication bundle: "@
        + FORMAT@ + "\nruntime ABI: "@ + dec(RUNTIME_ABI_VERSION as nat) + "\nbundle: "@ + dec(
        i.bundle_bytes as nat,
    ) + " bytes (sha256:"@ + i.bundle_sha256@ + ")\nmanifest: format "@ + signed_decimal(i.manifest.format as int)
        + ", "@ + dec(i.manifest_bytes as nat) + " bytes (sha256:"@ + i.manifest_sha256@ + ")\n"@
}

/// The report's lines on the bytecode, the routes and the other artifacts.
pub open spec fn content_lines(i: Inspection) -> Seq<char> {
    "embedded HBX0: "@ + dec(i.bytecode_bytes as nat) + " bytes\napplications: "@ + dec(
        i.manifest.applications as nat,
    ) + "; routes: "@ + dec(i.manifest.routes as nat) + "\nroute adapters: "@ + adapters_line(
        i.manifest.adapters@,
    ) + "\nnginx configuration: "@ + artifact_text(i.nginx_configuration) + "\nplatform HTA: "@ + artifact_text(
        i.platform_hta,
    ) + "\nplatform EDN: "@ + artifact_text(i.platform_edn) + "\nOpenAPI documents: "@ + dec(
        i.openapi_documents as nat,
    ) + "\n"@
}

/// The human-readable report of an inspection, line by line.
pub open spec fn human_text(i: Inspection) -> Seq<char> {
    bundle_lines(i) + content_lines(i) + sources_text(i.source_inputs) + paths_text(i.paths)
}

/// The size and digest of an artifact, or `absent`.
pub fn describe_artifact(artifact: &Artifact) -> (text: String)
    ensures
        text@ == artifact_text(*artifact),
{
    if !artifact.present {
        return owned("absent");
    }
    let mut text = String::new();
    let bytes: usize = match artifact.bytes {
        Some(n) => n,
        None => 0,
    };
    push_decimal(&mut text, bytes as u64);
    push_str(&mut text, " bytes (sha256:");
    match &artifact.sha256 {
        Some(s) => push_str(&mut text, s.as_str()),
        None => push_str(&mut text, "unknown"),
    }
    push_str(&mut text, ")");
    text
}

fn push_adapters(out: &mut String, adapters: &Vec<(String, usize)>)
    ensures
        final(out)@ == old(out)@ + adapters_line(adapters@),
{
    if adapters.len() == 0 {
        push_str(out, "none");
        return;
    }
    let ghost start = out@;
    let mut i: usize = 0;
    assert(adapters@.take(0) =~= Seq::<(String, usize)>::empty());
    assert(out@ =~= start + adapter_entries(adapters@.take(0)));
    while i < adapters.len()
        invariant
            i <= adapters@.len(),
            out@ == start + adapter_entries(adapters@.take(i as int)),
        decreases adapters@.len() - i,
    {
        assert(adapters@.take(i + 1).drop_last() =~= adapters@.take(i as int));
        assert(adapters@.take(i + 1).last() == adapters@[i as int]);
        if i > 0 {
            push_str(out, ", ");
        }
        push_str(out, adapters[i].0.as_str());
        push_str(out, "=");
        push_decimal(out, adapters[i].1 as u64);
        proof {
            if i == 0 {
                assert(adapters@.take(1).len() == 1);
            }
        }
        assert(out@ =~= start + adapter_entries(adapters@.take(i + 1)));
        i = i + 1;
    }
    assert(adapters@.take(i as int) =~= adapters@);
}

fn push_bundle_lines(out: &mut String, i: &Inspection)
    ensures
        final(out)@ == old(out)@ + bundle_lines(*i),
{
    push_str(out, "Hoplite application inspection\ninspection format: ");
    push_str(out, INSPECTION_FORMAT);
    push_str(out, "\napplication bundle: ");
    push_str(out, FORMAT);
    push_str(out, "\nruntime ABI: ");
    push_decimal(out, RUNTIME_ABI_VERSION as u64);
    push_str(out, "\nbundle: ");
    push_decimal(out, i.bundle_bytes as u64);
    push_str(out, " bytes (sha256:");
    push_str(out, i.bundle_sha256.as_str());
    push_str(out, ")\nmanifest: format ");
    push_signed(out, i.manifest.format);
    push_str(out, ", ");
    push_decimal(out, i.manifest_bytes as u64);
    push_str(out, " bytes (sha256:");
    push_str(out, i.manifest_sha256.as_str());
    push_str(out, ")\n");
    assert(final(out)@ =~= old(out)@ + bundle_lines(*i));
}

fn push_content_lines(out: &mut String, i: &Inspection)
    ensures
        final(out)@ == old(out)@ + content_lines(*i),
{
    push_str(out, "embedded HBX0: ");
    push_decimal(out, i.bytecode_bytes as u64);
    push_str(out, " bytes\napplications: ");
    push_decimal(out, i.manifest.applications as u64);
    push_str(out, "; routes: ");
    push_decimal(out, i.manifest.routes as u64);
    push_str(out, "\nroute adapters: ");
    push_adapters(out, &i.manifest.adapters);
    push_str(out, "\nnginx configuration: ");
    push_str(out, describe_artifact(&i.nginx_configuration).as_str());
    push_str(out, "\nplatform HTA: ");
    push_str(out, describe_artifact(&i.platform_hta).as_str());
    push_str(out, "\nplatform EDN: ");
    push_str(out, describe_artifact(&i.platform_edn).as_str());
    push_str(out, "\nOpenAPI documents: ");
    push_decimal(out, i.openapi_documents as u64);
    push_str(out, "\n");
    assert(final(out)@ =~= old(out)@ + content_lines(*i));
}

fn push_sources(out: &mut String, inputs: &SourceInputs)
    ensures
        final(out)@ == old(out)@ + sources_text(*inputs),
{
    if inputs.count == 0 {
        push_str(out, "source-free output: yes\n");
        return;
    }
    push_str(out, "source-free output: no (");
    push_decimal(out, inputs.count as u64);
    push_str(out, " source input");
    if inputs.count == 1 {
        push_str(out, "");
    } else {
        push_str(out, "s");
    }
    push_str(out, ")\n");
    let ghost lead = out@;
    let examples = &inputs.examples;
    let mut k: usize = 0;
    assert(examples@.take(0) =~= Seq::<String>::empty());
    assert(out@ =~= lead + example_lines(examples@.take(0)));
    while k < examples.len()
        invariant
            k <= examples@.len(),
            out@ == lead + example_lines(examples@.take(k as int)),
        decreases examples@.len() - k,
    {
        assert(examples@.take(k + 1).drop_last() =~= examples@.take(k as int));
        assert(examples@.take(k + 1).last() == examples@[k as int]);
        push_str(out, "  source input: ");
        push_str(out, examples[k].as_str());
        push_str(out, "\n");
        assert(out@ =~= lead + example_lines(examples@.take(k + 1)));
        k = k + 1;
    }
    assert(examples@.take(k as int) =~= examples@);
    assert(final(out)@ =~= old(out)@ + sources_text(*inputs));
}

fn push_paths(out: &mut String, paths: &Option<InspectionPaths>)
    ensures
        final(out)@ == old(out)@ + paths_text(*paths),
{
    match paths {
        Some(p) => {
            push_str(out, "output: ");
            push_str(out, p.output.as_str());
            push_str(out, "\nbundle path: ");
            push_str(out, p.bundle.as_str());
            push_str(out, "\nmanifest path: ");
            push_str(out, p.manifest.as_str());
            push_str(out, "\n");
        },
        None => push_str(out, "paths: redacted (use --show-paths)\n"),
    }
    assert(final(out)@ =~= old(out)@ + paths_text(*paths));
}

/// The human-readable report of an inspection.
pub fn render_human(inspection: &Inspection) -> (text: String)
    ensures
        text@ == human_text(*inspection),
{
    let mut out = String::new();
    push_bundle_lines(&mut out, inspection);
    push_content_lines(&mut out, inspection);
    push_sources(&mut out, &inspection.source_inputs);
    push_paths(&mut out, &inspection.paths);
    assert(out@ =~= human_text(*inspection));
    out
}

// ---------------------------------------------------------------------------
// Arguments
// ---------------------------------------------------------------------------

/// What `hoplite inspect` is asked.
#[derive(Debug, PartialEq, Eq)]
pub enum InspectRequest {
    Help,
    Inspect { target: Option<String>, manifest: Option<String>, json: bool, show_paths: bool },
}

pub enum InspectModel {
    Help,
    Inspect { target: Option<Seq<char>>, manifest: Option<Seq<char>>, json: bool, show_paths: bool },
}

pub open spec fn invalid_argument(detail: Seq<char>) -> Seq<char> {
    "hoplite/inspect-argument-invalid: "@ + detail
}

/// Reading `inspect`'s arguments from position `i` on.
pub open spec fn inspect_from(
    arguments: Seq<Seq<char>>,
    i: int,
    target: Option<Seq<char>>,
    manifest: Option<Seq<char>>,
    json: bool,
    show_paths: bool,
) -> Result<InspectModel, Seq<char>>
    decreases arguments.len() - i,
{
    if i < 0 || i >= arguments.len() {
        Ok(InspectModel::Inspect { target, manifest, json, show_paths })
    } else {
        let a = arguments[i];
        if a == "--json"@ {
            inspect_from(arguments, i + 1, target, manifest, true, show_paths)
        } else if a == "--show-paths"@ {
            inspect_from(arguments, i + 1, target, manifest, json, true)
        } else if a == "--manifest"@ {
            if i + 1 >= arguments.len() {
                Err(invalid_argument("--manifest requires a file"@))
            } else {
                inspect_from(arguments, i + 2, target, Some(arguments[i + 1]), json, show_paths)
            }
        } else if a.len() > 0 && a[0] == '-' {
            Err(invalid_argument("unknown option "@ + debug_text(a)))
        } else if target is None {
            inspect_from(arguments, i + 1, Some(a), manifest, json, show_paths)
        } else {
            Err(invalid_argument("unexpected target "@ + debug_text(a)))
        }
    }
}

pub open spec fn inspect_spec(arguments: Seq<Seq<char>>) -> Result<InspectModel, Seq<char>> {
    if arguments.len() > 0 && (arguments[0] == "--help"@ || arguments[0] == "-h"@ || arguments[0] == "help"@) {
        Ok(InspectModel::Help)
    } else {
        inspect_from(arguments, 0, None, None, false, false)
    }
}

pub open spec fn optional_view(value: Option<String>) -> Option<Seq<char>> {
    match value {
        Some(t) => Some(t@),
        None => None,
    }
}

pub open spec fn inspect_view(r: Result<InspectRequest, String>) -> Result<InspectModel, Seq<char>> {
    match r {
        Ok(InspectRequest::Help) => Ok(InspectModel::Help),
        Ok(InspectRequest::Inspect { target, manifest, json, show_paths }) => Ok(
            InspectModel::Inspect { target: optional_view(target), manifest: optional_view(manifest), json, show_paths },
        ),
        Err(m) => Err(m@),
    }
}

fn invalid(detail: &str) -> (message: String)
    ensures
        message@ == invalid_argument(detail@),
{
    let mut message = owned("hoplite/inspect-argument-invalid: ");
    push_str(&mut message, detail);
    message
}

/// The arguments of `hoplite inspect`.
pub fn inspect_arguments(arguments: &Vec<String>) -> (r: Result<InspectRequest, String>)
    ensures
        inspect_view(r) == inspect_spec(arguments@.map_values(|a: String| a@)),
{
    let ghost args = arguments@.map_values(|a: String| a@);
    if arguments.len() > 0 {
        let first = arguments[0].as_str();
        assert(args[0] == first@);
        if same_text(first, "--help") || same_text(first, "-h") || same_text(first, "help") {
            return Ok(InspectRequest::Help);
        }
    }
    let ghost outcome = inspect_from(args, 0, None, None, false, false);
    assert(inspect_spec(args) == outcome);
    let mut target: Option<String> = None;
    let mut manifest: Option<String> = None;
    let mut json = false;
    let mut show_paths = false;
    let mut i: usize = 0;
    while i < arguments.len()
        invariant
            args == arguments@.map_values(|a: String| a@),
            inspect_spec(args) == outcome,
            outcome == inspect_from(args, i as int, optional_view(target), optional_view(manifest), json, show_paths),
        decreases arguments@.len() + 1 - i,
    {
        let a = arguments[i].as_str();
        assert(args[i as int] == a@);
        if same_text(a, "--json") {
            json = true;
            i = i + 1;
        } else if same_text(a, "--show-paths") {
            show_paths = true;
            i = i + 1;
        } else if same_text(a, "--manifest") {
            if i + 1 >= arguments.len() {
                return Err(invalid("--manifest requires a file"));
            }
            manifest = Some(arguments[i + 1].clone());
            i = i + 2;
        } else if crate::text::chars_of(a).len() > 0 && crate::text::chars_of(a)[0] == '-' {
            let mut detail = owned("unknown option ");
            push_str(&mut detail, debug_quoted(a).as_str());
            return Err(invalid(detail.as_str()));
        } else if target.is_none() {
            target = Some(arguments[i].clone());
            i = i + 1;
        } else {
            let mut detail = owned("unexpected target ");
            push_str(&mut detail, debug_quoted(a).as_str());
            return Err(invalid(detail.as_str()));
        }
    }
    Ok(InspectRequest::Inspect { target, manifest, json, show_paths })
}

// ---------------------------------------------------------------------------
// The JSON report
// ---------------------------------------------------------------------------

pub open spec fn json_signed_is(value: Json, n: int) -> bool {
    value matches Json::Number(t) && t@ == signed_decimal(n)
}

pub open spec fn optional_number_is(value: Json, n: Option<usize>) -> bool {
    match n {
        Some(k) => json_number_is(value, k as nat),
        None => value == Json::Null,
    }
}

pub open spec fn optional_text_is(value: Json, t: Option<String>) -> bool {
    match t {
        Some(s) => json_text_is(value, s@),
        None => value == Json::Null,
    }
}

pub open spec fn artifact_json_of(value: Json, artifact: Artifact) -> bool {
    &&& object_keys(value, seq!["present"@, "bytes"@, "sha256"@])
    &&& member_at(value, 0) == Json::Bool(artifact.present)
    &&& optional_number_is(member_at(value, 1), artifact.bytes)
    &&& optional_text_is(member_at(value, 2), artifact.sha256)
}

pub open spec fn adapters_json_of(value: Json, adapters: Seq<(String, usize)>) -> bool {
    value matches Json::Object(members) && members@.len() == adapters.len() && forall|i: int|
        0 <= i < adapters.len() ==> (#[trigger] members@[i]).0@ == adapters[i].0@ && json_number_is(
            members@[i].1,
            adapters[i].1 as nat,
        )
}

pub open spec fn bundle_json_of(value: Json, i: Inspection) -> bool {
    &&& object_keys(value, seq!["format"@, "runtime_abi"@, "bytes"@, "sha256"@, "embedded_hbx0_bytes"@])
    &&& json_text_is(member_at(value, 0), FORMAT@)
    &&& json_number_is(member_at(value, 1), RUNTIME_ABI_VERSION as nat)
    &&& json_number_is(member_at(value, 2), i.bundle_bytes as nat)
    &&& json_text_is(member_at(value, 3), i.bundle_sha256@)
    &&& json_number_is(member_at(value, 4), i.bytecode_bytes as nat)
}

pub open spec fn manifest_json_of(value: Json, i: Inspection) -> bool {
    &&& object_keys(value, seq!["format"@, "bytes"@, "sha256"@, "applications"@, "routes"@, "adapters"@])
    &&& json_signed_is(member_at(value, 0), i.manifest.format as int)
    &&& json_number_is(member_at(value, 1), i.manifest_bytes as nat)
    &&& json_text_is(member_at(value, 2), i.manifest_sha256@)
    &&& json_number_is(member_at(value, 3), i.manifest.applications as nat)
    &&& json_number_is(member_at(value, 4), i.manifest.routes as nat)
    &&& adapters_json_of(member_at(value, 5), i.manifest.adapters@)
}

pub open spec fn artifacts_json_of(value: Json, i: Inspection) -> bool {
    &&& object_keys(value, seq!["nginx_configuration"@, "platform_hta"@, "platform_edn"@, "openapi_documents"@])
    &&& artifact_json_of(member_at(value, 0), i.nginx_configuration)
    &&& artifact_json_of(member_at(value, 1), i.platform_hta)
    &&& artifact_json_of(member_at(value, 2), i.platform_edn)
    &&& json_number_is(member_at(value, 3), i.openapi_documents as nat)
}

pub open spec fn inputs_json_of(value: Json, inputs: SourceInputs) -> bool {
    &&& object_keys(value, seq!["count"@, "examples"@])
    &&& json_number_is(member_at(value, 0), inputs.count as nat)
    &&& array_of(
        member_at(value, 1),
        inputs.examples@.map_values(|e: String| e@),
        |v: Json, t: Seq<char>| json_text_is(v, t),
    )
}

pub open spec fn paths_json_of(value: Json, paths: Option<InspectionPaths>) -> bool {
    match paths {
        None => value == Json::Null,
        Some(p) => {
            &&& object_keys(value, seq!["output"@, "bundle"@, "manifest"@])
            &&& json_text_is(member_at(value, 0), p.output@)
            &&& json_text_is(member_at(value, 1), p.bundle@)
            &&& json_text_is(member_at(value, 2), p.manifest@)
        },
    }
}

/// The JSON report of an inspection.
pub open spec fn inspection_json_of(value: Json, i: Inspection) -> bool {
    &&& object_keys(
        value,
        seq![
            "format"@,
            "application_bundle"@,
            "manifest"@,
            "artifacts"@,
            "source_free"@,
            "source_inputs"@,
            "paths"@,
        ],
    )
    &&& json_text_is(member_at(value, 0), INSPECTION_FORMAT@)
    &&& bundle_json_of(member_at(value, 1), i)
    &&& manifest_json_of(member_at(value, 2), i)
    &&& artifacts_json_of(member_at(value, 3), i)
    &&& member_at(value, 4) == Json::Bool(i.source_inputs.count == 0)
    &&& inputs_json_of(member_at(value, 5), i.source_inputs)
    &&& paths_json_of(member_at(value, 6), i.paths)
}

fn text_json(text: &str) -> (value: Json)
    ensures
        json_text_is(value, text@),
{
    Json::Text(owned(text))
}

fn number_json(n: u64) -> (value: Json)
    ensures
        json_number_is(value, n as nat),
{
    let mut text = String::new();
    push_decimal(&mut text, n);
    assert(text@ =~= decimal_chars(n as nat));
    Json::Number(text)
}

fn members(names: &[&str], values: Vec<Json>) -> (value: Json)
    requires
        names@.len() == values@.len(),
    ensures
        value matches Json::Object(m) && m@.len() == names@.len() && forall|k: int|
            0 <= k < names@.len() ==> (#[trigger] m@[k]).0@ == names@[k]@ && m@[k].1 == values@[k],
{
    let mut out: Vec<(String, Json)> = Vec::new();
    let ghost all = values@;
    let mut reversed: Vec<Json> = Vec::new();
    let mut rest = values;
    while rest.len() > 0
        invariant
            rest@.len() + reversed@.len() == all.len(),
            forall|j: int| 0 <= j < rest@.len() ==> rest@[j] == all[j],
            forall|j: int| 0 <= j < reversed@.len() ==> reversed@[j] == all[all.len() - 1 - j],
        decreases rest@.len(),
    {
        let last = rest.pop().unwrap();
        reversed.push(last);
    }
    let mut k: usize = 0;
    while k < names.len()
        invariant
            names@.len() == all.len(),
            k <= names@.len(),
            reversed@.len() == all.len() - k,
            forall|j: int| 0 <= j < reversed@.len() ==> reversed@[j] == all[all.len() - 1 - j],
            out@.len() == k,
            forall|j: int| 0 <= j < k ==> (#[trigger] out@[j]).0@ == names@[j]@ && out@[j].1 == all[j],
        decreases names@.len() - k,
    {
        let value = reversed.pop().unwrap();
        out.push((owned(names[k]), value));
        k = k + 1;
    }
    Json::Object(out)
}

fn artifact_json(artifact: &Artifact) -> (value: Json)
    ensures
        artifact_json_of(value, *artifact),
{
    let bytes = match artifact.bytes {
        Some(n) => number_json(n as u64),
        None => Json::Null,
    };
    let sha = match &artifact.sha256 {
        Some(s) => text_json(s.as_str()),
        None => Json::Null,
    };
    members(&["present", "bytes", "sha256"], vec![Json::Bool(artifact.present), bytes, sha])
}

/// The JSON report of an inspection.
pub fn inspection_json(i: &Inspection) -> (value: Json)
    ensures
        inspection_json_of(value, *i),
{
    let bundle = members(
        &["format", "runtime_abi", "bytes", "sha256", "embedded_hbx0_bytes"],
        vec![
            text_json(FORMAT),
            number_json(RUNTIME_ABI_VERSION as u64),
            number_json(i.bundle_bytes as u64),
            text_json(i.bundle_sha256.as_str()),
            number_json(i.bytecode_bytes as u64),
        ],
    );
    let mut format = String::new();
    push_signed(&mut format, i.manifest.format);
    let mut adapters: Vec<(String, Json)> = Vec::new();
    let mut k: usize = 0;
    while k < i.manifest.adapters.len()
        invariant
            k <= i.manifest.adapters@.len(),
            adapters@.len() == k,
            forall|j: int|
                0 <= j < k ==> (#[trigger] adapters@[j]).0@ == i.manifest.adapters@[j].0@ && json_number_is(
                    adapters@[j].1,
                    i.manifest.adapters@[j].1 as nat,
                ),
        decreases i.manifest.adapters@.len() - k,
    {
        adapters.push((i.manifest.adapters[k].0.clone(), number_json(i.manifest.adapters[k].1 as u64)));
        k = k + 1;
    }
    let manifest = members(
        &["format", "bytes", "sha256", "applications", "routes", "adapters"],
        vec![
            Json::Number(format),
            number_json(i.manifest_bytes as u64),
            text_json(i.manifest_sha256.as_str()),
            number_json(i.manifest.applications as u64),
            number_json(i.manifest.routes as u64),
            Json::Object(adapters),
        ],
    );
    let artifacts = members(
        &["nginx_configuration", "platform_hta", "platform_edn", "openapi_documents"],
        vec![
            artifact_json(&i.nginx_configuration),
            artifact_json(&i.platform_hta),
            artifact_json(&i.platform_edn),
            number_json(i.openapi_documents as u64),
        ],
    );
    let mut examples: Vec<Json> = Vec::new();
    let mut k: usize = 0;
    while k < i.source_inputs.examples.len()
        invariant
            k <= i.source_inputs.examples@.len(),
            examples@.len() == k,
            forall|j: int| 0 <= j < k ==> json_text_is(#[trigger] examples@[j], i.source_inputs.examples@[j]@),
        decreases i.source_inputs.examples@.len() - k,
    {
        examples.push(text_json(i.source_inputs.examples[k].as_str()));
        k = k + 1;
    }
    let inputs = members(
        &["count", "examples"],
        vec![number_json(i.source_inputs.count as u64), Json::Array(examples)],
    );
    let paths = match &i.paths {
        None => Json::Null,
        Some(p) => members(
            &["output", "bundle", "manifest"],
            vec![text_json(p.output.as_str()), text_json(p.bundle.as_str()), text_json(p.manifest.as_str())],
        ),
    };
    members(
        &["format", "application_bundle", "manifest", "artifacts", "source_free", "source_inputs", "paths"],
        vec![
            text_json(INSPECTION_FORMAT),
            bundle,
            manifest,
            artifacts,
            Json::Bool(i.source_inputs.count == 0),
            inputs,
            paths,
        ],
    )
}

} // verus!
