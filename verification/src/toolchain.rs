//! What the tools around the generator compute on plain values: the
//! reading of a switch, the place of the documentation dump in a
//! build tree, and the reformatting of the dump.
use vstd::prelude::*;
use vstd::string::*;

verus! {

/// `serde_json::Value`, a parsed JSON document. The library carries
/// it from the parser to the writer and never looks inside.
#[verifier::external_type_specification]
#[verifier::external_body]
pub struct ExJsonValue(serde_json::Value);

/// `serde_json::Error`, the error of the parser and of the writer.
/// The library reads nothing of it but its message.
#[verifier::external_type_specification]
#[verifier::external_body]
pub struct ExJsonError(serde_json::Error);

/// Why a command of the tools failed.
#[derive(Debug)]
pub enum CommandError {
    /// The command could not be run; the message says why.
    Io(String),
    /// The command ran and ended with this exit code.
    ExitCode(i32),
    /// What the command printed is no text; the message says where.
    ParseError(String),
}

/// Why a document could not be reformatted.
#[derive(Debug)]
pub enum JsonError {
    /// The document is not well formed; the message says where.
    Parse(String),
    /// The document could not be written out; the message says why.
    Write(String),
}

/// The lower-case form that `str::to_lowercase` gives a text.
pub uninterp spec fn lowercase_of(text: Seq<char>) -> Seq<char>;

/// What a `serde_json::Value` holds: the document itself, as a run
/// of bytes that is the same for the same document and for no
/// other. The library never looks into it.
pub uninterp spec fn json_content(value: serde_json::Value) -> Seq<u8>;

/// What `serde_json::from_str` reads from a text: the content of the
/// value that it gives, or nothing if it turns the text down.
pub uninterp spec fn json_read(raw: Seq<char>) -> Option<Seq<u8>>;

/// The bytes that a `serde_json::Serializer` with a `PrettyFormatter`
/// writes for a document, by the document's content and the
/// indentation for one level.
pub uninterp spec fn json_pretty(content: Seq<u8>, indent: Seq<u8>) -> Seq<u8>;

/// Whether a text is one JSON document.
pub open spec fn json_valid(raw: Seq<char>) -> bool {
    json_read(raw) is Some
}

/// A JSON document written anew with `indent` for each level, or
/// nothing if the text is no JSON document.
pub open spec fn reformatted(raw: Seq<char>, indent: Seq<u8>) -> Option<Seq<u8>> {
    match json_read(raw) {
        Some(content) => Some(json_pretty(content, indent)),
        None => None,
    }
}

/// Calls `str::to_lowercase`: the result is the lower-case form of
/// the text by the rules of Unicode, which this library does not
/// state but names `lowercase_of`.
#[verifier::external_body]
fn lowercase(value: &str) -> (r: String)
    ensures
        r@ == lowercase_of(value@),
{
    value.to_lowercase()
}

/// Calls `serde_json::from_str` for a `serde_json::Value`: the text
/// is parsed as one JSON value with nothing but white space around
/// it. Whether that succeeds, and what the value then holds, depends
/// on the text alone and is named `json_read`.
#[verifier::external_body]
fn parse_json(raw: &str) -> (r: Result<serde_json::Value, serde_json::Error>)
    ensures
        match r {
            Ok(value) => json_read(raw@) == Some(json_content(value)),
            Err(_) => json_read(raw@) is None,
        },
{
    serde_json::from_str(raw)
}

/// Calls `serde::Serialize::serialize` on a `serde_json::Value` with
/// a `serde_json::Serializer` that writes into a vector through a
/// `PrettyFormatter` with the given indentation. The call cannot
/// fail: a vector takes every write, and the keys of a value's
/// objects are strings. What is written depends on the value and
/// the indentation alone and is named `json_pretty`.
#[verifier::external_body]
fn pretty_bytes(value: &serde_json::Value, indent: &[u8]) -> (r: Result<
    Vec<u8>,
    serde_json::Error,
>)
    ensures
        r is Ok,
        r matches Ok(bytes) ==> bytes@ == json_pretty(json_content(*value), indent@),
{
    let mut buf = Vec::new();
    let formatter = serde_json::ser::PrettyFormatter::with_indent(indent);
    let mut ser = serde_json::Serializer::with_formatter(&mut buf, formatter);
    serde::Serialize::serialize(value, &mut ser)?;
    Ok(buf)
}

/// Calls `to_string` on a `serde_json::Error` for its message.
/// Nothing is claimed of the message.
#[verifier::external_body]
fn describe(error: &serde_json::Error) -> (r: String) {
    error.to_string()
}

/// What a normalized switch says: on for `1` and `true`, off for `0`
/// and `false`, and nothing for anything else.
pub open spec fn truth_of(normalized: Seq<char>) -> Option<bool> {
    if normalized == "1"@ || normalized == "true"@ {
        Some(true)
    } else if normalized == "0"@ || normalized == "false"@ {
        Some(false)
    } else {
        None
    }
}

/// Reads a switch that is already in lower case.
pub fn truthy_normalized(normalized: &str) -> (r: Option<bool>)
    ensures
        r == truth_of(normalized@),
{
    if crate::text::same_text(normalized, "1") || crate::text::same_text(normalized, "true") {
        Some(true)
    } else if crate::text::same_text(normalized, "0") || crate::text::same_text(
        normalized,
        "false",
    ) {
        Some(false)
    } else {
        None
    }
}

/// Reads a switch from the environment, whatever its case: `1` and
/// `true` are on, `0` and `false` are off, anything else is no
/// switch.
pub fn is_truthy(value: &str) -> (r: Option<bool>)
    ensures
        r == truth_of(lowercase_of(value@)),
{
    let normalized = lowercase(value);
    truthy_normalized(normalized.as_str())
}

/// The place of the documentation dump for `target`, below the root
/// of the build tree.
pub fn rustdoc_build_path(target: &str) -> (r: String)
    ensures
        r@ == "build/"@ + target@ + "/doc/std.json"@,
{
    let mut out = String::from_str("build/");
    out.append(target);
    out.append("/doc/std.json");
    out
}

/// Whether a target is one for the machine with the architecture
/// `arch` and the operating system `os`: its name begins with `arch`
/// and holds `os` after that.
pub open spec fn native_for(target: Seq<char>, arch: Seq<char>, os: Seq<char>) -> bool {
    arch.is_prefix_of(target) && crate::text::occurs_in(os, target.skip(arch.len() as int))
}

/// Whether `target` is a target for the architecture `arch` and the
/// operating system `os`.
pub fn is_native_target(target: &str, arch: &str, os: &str) -> (r: bool)
    ensures
        r == native_for(target@, arch@, os@),
{
    if !crate::text::starts_with(target, arch) {
        return false;
    }
    let rest = target.substring_char(arch.unicode_len(), target.unicode_len());
    crate::text::contains_text(rest, os)
}

/// The targets that the compiler lists: the pieces of what it
/// prints, one for each line and one for what follows the last line
/// feed.
pub fn target_names(listing: &str) -> (r: Vec<String>)
    ensures
        crate::model::texts(r@) == crate::text::pieces(listing@),
{
    crate::text::split_newlines(listing)
}

/// The places of the documentation dump for those of the first `n`
/// of `targets` that are native, in the order of `targets`.
pub open spec fn native_dumps(
    targets: Seq<Seq<char>>,
    arch: Seq<char>,
    os: Seq<char>,
    n: nat,
) -> Seq<Seq<char>>
    decreases n,
{
    if n == 0 || n > targets.len() {
        Seq::empty()
    } else if native_for(targets[n - 1], arch, os) {
        native_dumps(targets, arch, os, (n - 1) as nat).push(
            "build/"@ + targets[n - 1] + "/doc/std.json"@,
        )
    } else {
        native_dumps(targets, arch, os, (n - 1) as nat)
    }
}

/// The places where the documentation dump of a native target may
/// lie, in the order of `targets`. The dump to use is the first of
/// them that exists.
pub fn native_dump_paths(targets: &Vec<String>, arch: &str, os: &str) -> (r: Vec<String>)
    ensures
        crate::model::texts(r@) == native_dumps(
            crate::model::texts(targets@),
            arch@,
            os@,
            targets.len() as nat,
        ),
{
    let ghost all = crate::model::texts(targets@);
    let mut out: Vec<String> = Vec::new();
    let mut i: usize = 0;
    proof {
        assert(crate::model::texts(out@) =~= Seq::<Seq<char>>::empty());
    }
    while i < targets.len()
        invariant
            i <= targets.len(),
            all == crate::model::texts(targets@),
            crate::model::texts(out@) == native_dumps(all, arch@, os@, i as nat),
        decreases targets.len() - i,
    {
        proof {
            assert(all[i as int] == targets[i as int]@);
        }
        if is_native_target(targets[i].as_str(), arch, os) {
            let place = rustdoc_build_path(targets[i].as_str());
            proof {
                assert(crate::model::texts(out@.push(place)) =~= crate::model::texts(out@).push(
                    place@,
                ));
            }
            out.push(place);
        }
        i += 1;
    }
    out
}

/// The flags for the documentation tool: what was set before, and
/// the choice of the JSON format.
pub fn rustdoc_flags(flags: &str) -> (r: String)
    ensures
        r@ == flags@ + " --output-format json"@,
{
    let mut out = String::from_str(flags);
    out.append(" --output-format json");
    out
}

/// What writing out a parsed document comes to: the bytes that the
/// writer gave, or a write error with the message of the writer's
/// error.
pub fn written(result: Result<Vec<u8>, serde_json::Error>) -> (r: Result<Vec<u8>, JsonError>)
    ensures
        match result {
            Ok(bytes) => r == Ok::<Vec<u8>, JsonError>(bytes),
            Err(_) => r matches Err(JsonError::Write(_)),
        },
{
    match result {
        Ok(bytes) => Ok(bytes),
        Err(e) => Err(JsonError::Write(describe(&e))),
    }
}

/// Reformats a JSON document with one tab for each level. Every
/// JSON document is written anew; a text that is none is turned
/// down with a parse error.
pub fn prettify_json(raw: &str) -> (r: Result<Vec<u8>, JsonError>)
    ensures
        match reformatted(raw@, seq![9u8]) {
            Some(bytes) => r is Ok && r.unwrap()@ == bytes,
            None => r matches Err(JsonError::Parse(_)),
        },
{
    match parse_json(raw) {
        Ok(value) => {
            let mut indent: Vec<u8> = Vec::new();
            indent.push(9u8);
            proof {
                assert(indent@ =~= seq![9u8]);
            }
            written(pretty_bytes(&value, indent.as_slice()))
        },
        Err(e) => Err(JsonError::Parse(describe(&e))),
    }
}

} // verus!
