//! The macOS launchd job that keeps a built project serving.

use vstd::prelude::*;
use crate::text::{chars_of, owned, push_char, push_str};

verus! {

/// Characters a launchd label keeps; every other character becomes `-`.
pub open spec fn is_label_char(c: char) -> bool {
    ('a' <= c && c <= 'z') || ('A' <= c && c <= 'Z') || ('0' <= c && c <= '9') || c == '.'
        || c == '-'
}

pub open spec fn label_suffix(project_id: Seq<char>) -> Seq<char> {
    Seq::new(project_id.len(), |i: int| if is_label_char(project_id[i]) { project_id[i] } else { '-' })
}

/// `org.hara.hoplite.` followed by the project id with every character
/// outside `[A-Za-z0-9.-]` replaced by `-`.
pub open spec fn label_of(project_id: Seq<char>) -> Seq<char> {
    "org.hara.hoplite."@ + label_suffix(project_id)
}

pub fn launchd_label(project_id: &str) -> (label: String)
    ensures
        label@ == label_of(project_id@),
{
    let chars = chars_of(project_id);
    let mut label = owned("org.hara.hoplite.");
    let ghost prefix = label@;
    let mut i: usize = 0;
    while i < chars.len()
        invariant
            i <= chars@.len(),
            chars@ == project_id@,
            prefix == "org.hara.hoplite."@,
            label@ == prefix + label_suffix(project_id@).take(i as int),
        decreases chars@.len() - i,
    {
        let c = chars[i];
        let kept = if ('a' <= c && c <= 'z') || ('A' <= c && c <= 'Z') || ('0' <= c && c <= '9')
            || c == '.' || c == '-' {
            c
        } else {
            '-'
        };
        push_char(&mut label, kept);
        assert(label_suffix(project_id@).take(i + 1) =~= label_suffix(project_id@).take(
            i as int,
        ).push(kept));
        i = i + 1;
    }
    assert(label_suffix(project_id@).take(i as int) =~= label_suffix(project_id@));
    label
}

/// The XML escape of one character.
pub open spec fn xml_escape_char(c: char) -> Seq<char> {
    if c == '&' {
        "&amp;"@
    } else if c == '<' {
        "&lt;"@
    } else if c == '>' {
        "&gt;"@
    } else if c == '"' {
        "&quot;"@
    } else if c == '\'' {
        "&apos;"@
    } else {
        seq![c]
    }
}

/// The value with `&`, `<`, `>`, `"` and `'` replaced by their XML
/// entities and every other character kept.
pub open spec fn xml_escaped(value: Seq<char>) -> Seq<char>
    decreases value.len(),
{
    if value.len() == 0 {
        Seq::empty()
    } else {
        xml_escaped(value.drop_last()) + xml_escape_char(value.last())
    }
}

/// Whatever a label or path holds, its escaped form holds no `<`, `>`, `"`
/// or `'`, so it cannot close the element or open another one.
pub proof fn law_xml_escape_leaves_no_markup(value: Seq<char>)
    ensures
        forall|i: int|
            0 <= i < xml_escaped(value).len() ==> {
                let c = #[trigger] xml_escaped(value)[i];
                c != '<' && c != '>' && c != '"' && c != '\''
            },
    decreases value.len(),
{
    if value.len() > 0 {
        law_xml_escape_leaves_no_markup(value.drop_last());
        let before = xml_escaped(value.drop_last());
        let last = xml_escape_char(value.last());
        lemma_entities_are_plain();
        assert forall|i: int| 0 <= i < xml_escaped(value).len() implies {
            let c = #[trigger] xml_escaped(value)[i];
            c != '<' && c != '>' && c != '"' && c != '\''
        } by {
            if i < before.len() {
                assert(xml_escaped(value)[i] == before[i]);
            } else {
                assert(xml_escaped(value)[i] == last[i - before.len()]);
            }
        }
    }
}

proof fn lemma_entities_are_plain()
    ensures
        "&amp;"@ == seq!['&', 'a', 'm', 'p', ';'],
        "&lt;"@ == seq!['&', 'l', 't', ';'],
        "&gt;"@ == seq!['&', 'g', 't', ';'],
        "&quot;"@ == seq!['&', 'q', 'u', 'o', 't', ';'],
        "&apos;"@ == seq!['&', 'a', 'p', 'o', 's', ';'],
{
    reveal_strlit("&amp;");
    reveal_strlit("&lt;");
    reveal_strlit("&gt;");
    reveal_strlit("&quot;");
    reveal_strlit("&apos;");
}

/// Appends the XML escape of `value`.
fn push_xml_escaped(out: &mut String, value: &str)
    ensures
        final(out)@ == old(out)@ + xml_escaped(value@),
{
    let chars = chars_of(value);
    let mut i: usize = 0;
    while i < chars.len()
        invariant
            i <= chars@.len(),
            chars@ == value@,
            out@ == old(out)@ + xml_escaped(value@.take(i as int)),
        decreases chars@.len() - i,
    {
        let c = chars[i];
        let ghost before = out@;
        if c == '&' {
            push_str(out, "&amp;");
        } else if c == '<' {
            push_str(out, "&lt;");
        } else if c == '>' {
            push_str(out, "&gt;");
        } else if c == '"' {
            push_str(out, "&quot;");
        } else if c == '\'' {
            push_str(out, "&apos;");
        } else {
            push_char(out, c);
        }
        assert(value@.take(i + 1).drop_last() =~= value@.take(i as int));
        assert(out@ =~= old(out)@ + xml_escaped(value@.take(i + 1)));
        i = i + 1;
    }
    assert(value@.take(i as int) =~= value@);
}

/// Escapes text for an XML element.
pub fn xml_escape(value: &str) -> (escaped: String)
    ensures
        escaped@ == xml_escaped(value@),
{
    let mut escaped = String::new();
    push_xml_escaped(&mut escaped, value);
    assert(escaped@ =~= xml_escaped(value@));
    escaped
}

/// `Path::join` of a relative path onto a directory: a `/` is put between
/// them unless the directory is empty or already ends with one.
pub open spec fn joined_path(directory: Seq<char>, relative: Seq<char>) -> Seq<char> {
    if directory.len() == 0 || directory.last() == '/' {
        directory + relative
    } else {
        directory + seq!['/'] + relative
    }
}

fn push_joined_path(out: &mut String, directory: &str, relative: &str)
    ensures
        final(out)@ == old(out)@ + joined_path(directory@, relative@),
{
    let chars = chars_of(directory);
    let n = chars.len();
    push_str(out, directory);
    if n > 0 && chars[n - 1] != '/' {
        push_char(out, '/');
    }
    push_str(out, relative);
    assert(out@ =~= old(out)@ + joined_path(directory@, relative@));
}

/// The property list for a job that runs `hoplite serve foreground` in the
/// project, at load and again whenever it exits, with its output in the
/// project's `.hoplite` directory. Every interpolated value is XML-escaped.
pub open spec fn plist_text(label: Seq<char>, executable: Seq<char>, root: Seq<char>) -> Seq<char> {
    "<?xml version=\"1.0\" encoding=\"UTF-8\"?>\n<!DOCTYPE plist PUBLIC \"-//Apple//DTD PLIST 1.0//EN\" \"http://www.apple.com/DTDs/PropertyList-1.0.dtd\">\n<plist version=\"1.0\">\n<dict>\n  <key>Label</key><string>"@
        + xml_escaped(label)
        + "</string>\n  <key>ProgramArguments</key>\n  <array>\n    <string>"@
        + xml_escaped(executable)
        + "</string>\n    <string>serve</string>\n    <string>foreground</string>\n    <string>"@
        + xml_escaped(root) + "</string>\n  </array>\n  <key>WorkingDirectory</key><string>"@
        + xml_escaped(root)
        + "</string>\n  <key>RunAtLoad</key><true/>\n  <key>KeepAlive</key><true/>\n  <key>ProcessType</key><string>Background</string>\n  <key>StandardOutPath</key><string>"@
        + xml_escaped(joined_path(root, ".hoplite/launchd.stdout.log"@))
        + "</string>\n  <key>StandardErrorPath</key><string>"@
        + xml_escaped(joined_path(root, ".hoplite/launchd.stderr.log"@))
        + "</string>\n</dict>\n</plist>\n"@
}

/// The launchd property list; the paths are given in their display form.
pub fn launchd_plist(label: &str, executable: &str, project_root: &str) -> (plist: String)
    ensures
        plist@ == plist_text(label@, executable@, project_root@),
{
    let mut output_path = String::new();
    push_joined_path(&mut output_path, project_root, ".hoplite/launchd.stdout.log");
    let mut error_path = String::new();
    push_joined_path(&mut error_path, project_root, ".hoplite/launchd.stderr.log");
    assert(output_path@ =~= joined_path(project_root@, ".hoplite/launchd.stdout.log"@));
    assert(error_path@ =~= joined_path(project_root@, ".hoplite/launchd.stderr.log"@));
    let mut plist = owned(
        "<?xml version=\"1.0\" encoding=\"UTF-8\"?>\n<!DOCTYPE plist PUBLIC \"-//Apple//DTD PLIST 1.0//EN\" \"http://www.apple.com/DTDs/PropertyList-1.0.dtd\">\n<plist version=\"1.0\">\n<dict>\n  <key>Label</key><string>",
    );
    push_xml_escaped(&mut plist, label);
    push_str(&mut plist, "</string>\n  <key>ProgramArguments</key>\n  <array>\n    <string>");
    push_xml_escaped(&mut plist, executable);
    push_str(
        &mut plist,
        "</string>\n    <string>serve</string>\n    <string>foreground</string>\n    <string>",
    );
    push_xml_escaped(&mut plist, project_root);
    push_str(&mut plist, "</string>\n  </array>\n  <key>WorkingDirectory</key><string>");
    push_xml_escaped(&mut plist, project_root);
    push_str(
        &mut plist,
        "</string>\n  <key>RunAtLoad</key><true/>\n  <key>KeepAlive</key><true/>\n  <key>ProcessType</key><string>Background</string>\n  <key>StandardOutPath</key><string>",
    );
    push_xml_escaped(&mut plist, output_path.as_str());
    push_str(&mut plist, "</string>\n  <key>StandardErrorPath</key><string>");
    push_xml_escaped(&mut plist, error_path.as_str());
    push_str(&mut plist, "</string>\n</dict>\n</plist>\n");
    plist
}


/// The label is `org.hara.hoplite.` and then one character per character
/// of the project id: an ASCII letter, an ASCII digit, `.` or `-` is kept
/// as it is, and any other character becomes `-`.
pub proof fn law_label_keeps_safe_characters(project_id: Seq<char>)
    ensures
        label_of(project_id).len() == 17 + project_id.len(),
        label_of(project_id).take(17) == "org.hara.hoplite."@,
        forall|i: int|
            0 <= i < project_id.len() ==> {
                let c = #[trigger] project_id[i];
                if ('a' <= c <= 'z') || ('A' <= c <= 'Z') || ('0' <= c <= '9') || c == '.' || c == '-' {
                    label_of(project_id)[17 + i] == c
                } else {
                    label_of(project_id)[17 + i] == '-'
                }
            },
{
    reveal_strlit("org.hara.hoplite.");
    assert(label_of(project_id).take(17) =~= "org.hara.hoplite."@);
}

} // verus!
