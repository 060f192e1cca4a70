//! Versions of the components, and what they must be to work together.

use vstd::prelude::*;
use vstd::string::*;
use vstd::utf8::*;
use crate::error::{fail, failure, or_else, outcome, Failure, ManagedError, ManagedResult};
use crate::json::{json_get, json_get_text, json_parsed, parse_json, Json, JsonView};
use crate::text::{
    byte_len, char_views, chars_text, decimal, digits_value, lemma_decimal_reads_back,
    lemma_split_joined, lemma_split_one, parse_number, split_chars, split_text,
    text_chars, text_eq, utf8, utf8_str,
};

verus! {

/// The white space of Unicode.
pub open spec fn is_white(c: char) -> bool {
    ('\u{9}' <= c && c <= '\u{d}') || c == ' ' || c == '\u{85}' || c == '\u{a0}' || c == '\u{1680}'
        || ('\u{2000}' <= c && c <= '\u{200a}') || c == '\u{2028}' || c == '\u{2029}' || c
        == '\u{202f}' || c == '\u{205f}' || c == '\u{3000}'
}

/// Whether a character is white space.
pub fn white(c: char) -> (r: bool)
    ensures
        r == is_white(c),
{
    ('\u{9}' <= c && c <= '\u{d}') || c == ' ' || c == '\u{85}' || c == '\u{a0}' || c == '\u{1680}'
        || ('\u{2000}' <= c && c <= '\u{200a}') || c == '\u{2028}' || c == '\u{2029}' || c
        == '\u{202f}' || c == '\u{205f}' || c == '\u{3000}'
}

/// The words of a text: its longest runs without white space.
pub open spec fn words(s: Seq<char>) -> Seq<Seq<char>>
    decreases s.len(),
{
    if s.len() == 0 {
        Seq::empty()
    } else {
        let before = words(s.drop_last());
        if is_white(s.last()) {
            before
        } else if s.len() == 1 || is_white(s[s.len() - 2]) {
            before.push(seq![s.last()])
        } else {
            before.drop_last().push(before.last().push(s.last()))
        }
    }
}

/// The words of a text.
pub fn split_words(s: &[char]) -> (r: Vec<Vec<char>>)
    ensures
        char_views(r@) == words(s@),
{
    let mut done: Vec<Vec<char>> = Vec::new();
    let mut current: Vec<char> = Vec::new();
    let mut i: usize = 0;
    assert(char_views(done@) =~= words(s@.take(0)));
    while i < s.len()
        invariant
            i <= s.len(),
            (current@.len() > 0) == (i > 0 && !is_white(s@[i - 1])),
            words(s@.take(i as int)) == if current@.len() > 0 {
                char_views(done@).push(current@)
            } else {
                char_views(done@)
            },
        decreases s.len() - i,
    {
        let ghost before = words(s@.take(i as int));
        proof {
            assert(s@.take(i + 1).drop_last() =~= s@.take(i as int));
            assert(s@.take(i + 1).last() == s@[i as int]);
            if i > 0 {
                assert(s@.take(i + 1)[i - 1] == s@[i - 1]);
            }
        }
        if white(s[i]) {
            if current.len() > 0 {
                done.push(current);
                current = Vec::new();
                assert(char_views(done@) =~= before);
            }
        } else {
            let ghost word = current@;
            current.push(s[i]);
            proof {
                if word.len() > 0 {
                    assert(before.drop_last() =~= char_views(done@));
                } else {
                    assert(current@ =~= seq![s@[i as int]]);
                }
            }
        }
        i += 1;
    }
    assert(s@.take(i as int) =~= s@);
    if current.len() > 0 {
        let ghost whole = words(s@);
        done.push(current);
        assert(char_views(done@) =~= whole);
    }
    done
}

/// The version that a word stands for: three numbers with dots between them,
/// after a `v` or not.
pub open spec fn version_of(token: Seq<char>) -> Option<(u64, u64, u64)> {
    let digits = if token.len() > 0 && token[0] == 'v' {
        token.skip(1)
    } else {
        token
    };
    let parts = split_text(digits, '.');
    if parts.len() != 3 {
        None
    } else {
        match (component(parts[0]), component(parts[1]), component(parts[2])) {
            (Some(major), Some(minor), Some(patch)) => Some((major, minor, patch)),
            _ => None,
        }
    }
}

/// The number that one part of a version stands for.
pub open spec fn component(s: Seq<char>) -> Option<u64> {
    match digits_value(s) {
        Some(v) if v <= u64::MAX => Some(v as u64),
        _ => None,
    }
}

fn parse_component(s: &[char]) -> (r: Option<u64>)
    ensures
        r == component(s@),
{
    if s.len() > 0 && s[0] == '+' {
        proof {
            lemma_sign_is_no_digit(s@);
        }
        return None;
    }
    parse_number(s, u64::MAX)
}

proof fn lemma_sign_is_no_digit(s: Seq<char>)
    requires
        s.len() > 0,
        s[0] == '+',
    ensures
        digits_value(s) is None,
    decreases s.len(),
{
    if s.len() > 1 {
        lemma_sign_is_no_digit(s.drop_last());
    }
}

/// Reads a version.
pub fn parse_version_token(token: &str) -> (r: Option<(u64, u64, u64)>)
    ensures
        r == version_of(token@),
{
    let cs = text_chars(token);
    parse_version_chars(cs.as_slice())
}

fn parse_version_chars(cs: &[char]) -> (r: Option<(u64, u64, u64)>)
    ensures
        r == version_of(cs@),
{
    let start: usize = if cs.len() > 0 && cs[0] == 'v' {
        1
    } else {
        0
    };
    let digits = vstd::slice::slice_subrange(cs, start, cs.len());
    assert(digits@ =~= if start == 1 {
        cs@.skip(1)
    } else {
        cs@
    });
    let parts = split_chars(digits, '.');
    let ghost views = char_views(parts@);
    assert(views.len() == parts@.len());
    if parts.len() != 3 {
        return None;
    }
    assert(views[0] == parts@[0]@ && views[1] == parts@[1]@ && views[2] == parts@[2]@);
    let major = parse_component(parts[0].as_slice());
    let minor = parse_component(parts[1].as_slice());
    let patch = parse_component(parts[2].as_slice());
    match (major, minor, patch) {
        (Some(a), Some(b), Some(c)) => Some((a, b, c)),
        _ => None,
    }
}

/// The version that the output of Pi stands for: one word, and that a version.
pub open spec fn pi_version_of(stdout: Seq<u8>) -> Option<(u64, u64, u64)> {
    if !valid_utf8(stdout) {
        None
    } else {
        let found = words(decode_utf8(stdout));
        if found.len() != 1 {
            None
        } else {
            version_of(found[0])
        }
    }
}

/// Reads the version in the output of Pi.
pub fn parse_pi_version(stdout: &[u8]) -> (r: Option<(u64, u64, u64)>)
    ensures
        r == pi_version_of(stdout@),
{
    let Some(output) = utf8_str(stdout) else {
        return None;
    };
    proof {
        encode_utf8_decode_utf8(output@);
    }
    let cs = text_chars(output);
    let found = split_words(cs.as_slice());
    assert(char_views(found@).len() == found@.len());
    if found.len() != 1 {
        return None;
    }
    assert(char_views(found@)[0] == found@[0]@);
    parse_version_chars(found[0].as_slice())
}

/// The version that the output of the native binary stands for: its name, and a
/// version.
pub open spec fn native_version_of(stdout: Seq<u8>) -> Option<(u64, u64, u64)> {
    if !valid_utf8(stdout) {
        None
    } else {
        let found = words(decode_utf8(stdout));
        if found.len() != 2 || found[0] != "herdr-a2a"@ {
            None
        } else {
            version_of(found[1])
        }
    }
}

/// Reads the version in the output of the native binary.
pub fn parse_native_version(stdout: &[u8]) -> (r: Option<(u64, u64, u64)>)
    ensures
        r == native_version_of(stdout@),
{
    let Some(output) = utf8_str(stdout) else {
        return None;
    };
    proof {
        encode_utf8_decode_utf8(output@);
    }
    let cs = text_chars(output);
    let found = split_words(cs.as_slice());
    assert(char_views(found@).len() == found@.len());
    if found.len() != 2 {
        return None;
    }
    assert(char_views(found@)[0] == found@[0]@ && char_views(found@)[1] == found@[1]@);
    let name = chars_text(found[0].as_slice());
    if !text_eq(name.as_str(), "herdr-a2a") {
        return None;
    }
    parse_version_chars(found[1].as_slice())
}

/// Pi in this version, the oldest that is supported, or any later one.
pub open spec fn supported(version: (u64, u64, u64)) -> bool {
    version.0 > 0 || version.1 > 84 || (version.1 == 84 && version.2 >= 2)
}

/// Whether a version of Pi is supported.
pub fn pi_version_supported(version: (u64, u64, u64)) -> (r: bool)
    ensures
        r == supported(version),
{
    version.0 > 0 || version.1 > 84 || (version.1 == 84 && version.2 >= 2)
}

/// The output of a program that was asked for its version.
#[derive(Debug)]
pub struct ProcessOutput {
    pub success: bool,
    pub stdout: Vec<u8>,
}

/// The output is that of a supported Pi.
pub open spec fn compatible_pi(output: ProcessOutput) -> bool {
    output.success && pi_version_of(output.stdout@) is Some && supported(
        pi_version_of(output.stdout@)->0,
    )
}

/// Whether the output is that of a supported Pi.
pub fn is_compatible_pi(output: &ProcessOutput) -> (r: bool)
    ensures
        r == compatible_pi(*output),
{
    if !output.success {
        return false;
    }
    match parse_pi_version(output.stdout.as_slice()) {
        Some(version) => pi_version_supported(version),
        None => false,
    }
}

/// A failure of versions that do not fit together.
pub open spec fn incompatible(message: Seq<char>) -> Option<Failure> {
    Some(("incompatible_version"@, message))
}

/// Checks the output of Pi, if there is a Pi.
pub fn validate_pi_compatibility(output: Option<&ManagedResult<ProcessOutput>>) -> (r:
    ManagedResult<()>)
    ensures
        failure(r) == match output {
            None => None,
            Some(Err(e)) => incompatible(
                "Pi version check failed: "@ + crate::error::failure_text(e@),
            ),
            Some(Ok(output)) => if compatible_pi(*output) {
                None
            } else {
                incompatible("managed A2A requires Pi >=0.84.2"@)
            },
        },
{
    match output {
        None => Ok(()),
        Some(Err(e)) => {
            let mut message = "Pi version check failed: ".to_owned();
            message.append(e.text().as_str());
            Err(ManagedError::with_message("incompatible_version", message))
        },
        Some(Ok(output)) => {
            if !is_compatible_pi(output) {
                return fail("incompatible_version", "managed A2A requires Pi >=0.84.2");
            }
            Ok(())
        },
    }
}

/// What is wrong with the output of the native binary.
pub open spec fn executable_failure(
    output: ManagedResult<ProcessOutput>,
    expected: Seq<char>,
) -> Option<Failure> {
    match output {
        Err(e) => incompatible(
            "native version check failed: "@ + crate::error::failure_text(e@),
        ),
        Ok(output) => match version_of(expected) {
            None => incompatible(
                "the compiled native version is not a supported semantic version"@,
            ),
            Some(version) => if !output.success || native_version_of(output.stdout@) != Some(
                version,
            ) {
                incompatible(
                    "the managed native binary version differs from the plugin version"@,
                )
            } else {
                None
            },
        },
    }
}

/// Checks the output of the native binary against the version it must have.
pub fn validate_executable_version(output: &ManagedResult<ProcessOutput>, expected: &str) -> (r:
    ManagedResult<()>)
    ensures
        failure(r) == executable_failure(*output, expected@),
{
    let output = match output {
        Ok(output) => output,
        Err(e) => {
            let mut message = "native version check failed: ".to_owned();
            message.append(e.text().as_str());
            return Err(ManagedError::with_message("incompatible_version", message));
        },
    };
    let Some(version) = parse_version_token(expected) else {
        return fail(
            "incompatible_version",
            "the compiled native version is not a supported semantic version",
        );
    };
    let matches = match parse_native_version(output.stdout.as_slice()) {
        Some(found) => found.0 == version.0 && found.1 == version.1 && found.2 == version.2,
        None => false,
    };
    if !output.success || !matches {
        return fail(
            "incompatible_version",
            "the managed native binary version differs from the plugin version",
        );
    }
    Ok(())
}

/// What the adapter package says of itself.
#[derive(Debug)]
pub struct AdapterContract {
    pub name: String,
    pub version: String,
    pub pi_peer: String,
    pub typebox_peer: String,
}

/// What an adapter package says of itself.
pub struct AdapterView {
    pub name: Seq<char>,
    pub version: Seq<char>,
    pub pi_peer: Seq<char>,
    pub typebox_peer: Seq<char>,
}

impl View for AdapterContract {
    type V = AdapterView;

    open spec fn view(&self) -> AdapterView {
        AdapterView {
            name: self.name@,
            version: self.version@,
            pi_peer: self.pi_peer@,
            typebox_peer: self.typebox_peer@,
        }
    }
}

/// A text field of at most 128 bytes that is not empty.
pub open spec fn short_text(v: JsonView, name: Seq<char>) -> Option<Seq<char>> {
    match json_get_text(v, name) {
        Some(text) if text.len() > 0 && utf8(text).len() <= 128 => Some(text),
        _ => None,
    }
}

fn get_short_text(v: &Json, name: &str) -> (r: Option<String>)
    ensures
        (match r {
            Some(t) => Some(t@),
            None => None,
        }) == short_text(v@, name@),
{
    match v.get_text(name) {
        Some(text) => {
            if !text.as_str().is_empty() && byte_len(text.as_str()) <= 128 {
                Some(text.clone())
            } else {
                None
            }
        },
        None => None,
    }
}

/// What the manifest of an adapter package says, or what it lacks.
pub open spec fn adapter_of(v: JsonView) -> Result<AdapterView, Failure> {
    match short_text(v, "name"@) {
        None => Err(("ownership_record_invalid"@, "Pi adapter package name is invalid"@)),
        Some(name) => match short_text(v, "version"@) {
            None => Err(("ownership_record_invalid"@, "Pi adapter package version is invalid"@)),
            Some(version) => match json_get(v, "peerDependencies"@) {
                Some(JsonView::Object(fields)) => {
                    let peers = JsonView::Object(fields);
                    match short_text(peers, "@earendil-works/pi-coding-agent"@) {
                        None => Err(
                            (
                                "incompatible_version"@,
                                "Pi adapter supported Pi range is invalid"@,
                            ),
                        ),
                        Some(pi_peer) => match short_text(peers, "typebox"@) {
                            None => Err(
                                (
                                    "incompatible_version"@,
                                    "Pi adapter supported Typebox range is invalid"@,
                                ),
                            ),
                            Some(typebox_peer) => Ok(
                                AdapterView { name, version, pi_peer, typebox_peer },
                            ),
                        },
                    }
                },
                _ => Err(
                    (
                        "incompatible_version"@,
                        "Pi adapter peer dependency contract is absent"@,
                    ),
                ),
            },
        },
    }
}

/// Reads what the manifest of an adapter package says.
pub fn decode_adapter_contract(value: &Json) -> (r: ManagedResult<AdapterContract>)
    ensures
        outcome(r) == adapter_of(value@),
{
    let Some(name) = get_short_text(value, "name") else {
        return fail("ownership_record_invalid", "Pi adapter package name is invalid");
    };
    let Some(version) = get_short_text(value, "version") else {
        return fail("ownership_record_invalid", "Pi adapter package version is invalid");
    };
    let peers = match value.get("peerDependencies") {
        Some(found) => found,
        None => {
            return fail("incompatible_version", "Pi adapter peer dependency contract is absent");
        },
    };
    match peers {
        Json::Object(_) => {},
        _ => {
            return fail("incompatible_version", "Pi adapter peer dependency contract is absent");
        },
    }
    let Some(pi_peer) = get_short_text(peers, "@earendil-works/pi-coding-agent") else {
        return fail("incompatible_version", "Pi adapter supported Pi range is invalid");
    };
    let Some(typebox_peer) = get_short_text(peers, "typebox") else {
        return fail("incompatible_version", "Pi adapter supported Typebox range is invalid");
    };
    Ok(AdapterContract { name, version, pi_peer, typebox_peer })
}

/// Reads the manifest of an adapter package; a document that does not parse fails
/// under the given code.
pub fn read_adapter_contract(bytes: &[u8], code: &'static str) -> (r: ManagedResult<
    AdapterContract,
>)
    ensures
        outcome(r) == match json_parsed(bytes@) {
            Err(e) => Err::<AdapterView, Failure>((code@, e)),
            Ok(v) => adapter_of(v),
        },
{
    match parse_json(bytes) {
        Ok(value) => decode_adapter_contract(&value),
        Err(e) => Err(ManagedError::with_message(code, e)),
    }
}

/// The adapter works with the supported Pi and Typebox.
pub open spec fn adapter_metadata_ok(contract: AdapterView) -> bool {
    contract.name == "@herdr/a2a-pi"@ && contract.pi_peer == ">=0.84.2"@ && contract.typebox_peer
        == ">=1.3.7 <1.4.0"@
}

/// Whether the adapter works with the supported Pi and Typebox.
pub fn is_adapter_metadata_ok(contract: &AdapterContract) -> (r: bool)
    ensures
        r == adapter_metadata_ok(contract@),
{
    text_eq(contract.name.as_str(), "@herdr/a2a-pi") && text_eq(
        contract.pi_peer.as_str(),
        ">=0.84.2",
    ) && text_eq(contract.typebox_peer.as_str(), ">=1.3.7 <1.4.0")
}

/// Checks that the adapter has the version of the plugin and works with the
/// supported Pi and Typebox.
pub fn validate_adapter_contract(contract: &AdapterContract, version: &str) -> (r: ManagedResult<()>)
    ensures
        failure(r) == if adapter_metadata_ok(contract@) && contract.version@ == version@ {
            None
        } else {
            incompatible(
                "managed A2A requires component version "@ + version@
                    + ", Pi >=0.84.2, and Typebox >=1.3.7 <1.4.0"@,
            )
        },
{
    if !is_adapter_metadata_ok(contract) || !text_eq(contract.version.as_str(), version) {
        let mut message = "managed A2A requires component version ".to_owned();
        message.append(version);
        message.append(", Pi >=0.84.2, and Typebox >=1.3.7 <1.4.0");
        return Err(ManagedError::with_message("incompatible_version", message));
    }
    Ok(())
}

/// What a TOML document holds as the text under a key of its top table, or the
/// text of the parser's error.
pub uninterp spec fn toml_text(document: Seq<char>, key: Seq<char>) -> Result<
    Option<Seq<char>>,
    Seq<char>,
>;

/// `toml::from_str` into a `toml::Value`, then `get` with the key and `as_str`:
/// what comes back depends on the document and the key alone.
#[verifier::external_body]
fn toml_field(document: &str, key: &str) -> (r: Result<Option<String>, String>)
    ensures
        match r {
            Ok(Some(v)) => toml_text(document@, key@) == Ok::<Option<Seq<char>>, Seq<char>>(
                Some(v@),
            ),
            Ok(None) => toml_text(document@, key@) == Ok::<Option<Seq<char>>, Seq<char>>(None),
            Err(e) => toml_text(document@, key@) == Err::<Option<Seq<char>>, Seq<char>>(e@),
        },
{
    match toml::from_str::<toml::Value>(document) {
        Ok(v) => Ok(v.get(key).and_then(toml::Value::as_str).map(str::to_owned)),
        Err(e) => Err(e.to_string()),
    }
}

/// The version in what was found under the key of a plugin manifest.
pub open spec fn manifest_version(found: Result<Option<Seq<char>>, Seq<char>>) -> Result<
    Seq<char>,
    Failure,
> {
    match found {
        Err(e) => Err(("bundle_invalid"@, e)),
        Ok(Some(version)) if version.len() > 0 && utf8(version).len() <= 128 => Ok(version),
        Ok(_) => Err(("bundle_invalid"@, "plugin manifest version is missing"@)),
    }
}

/// A text found under a key, or the parser's error.
pub open spec fn found_text(found: Result<Option<String>, String>) -> Result<
    Option<Seq<char>>,
    Seq<char>,
> {
    match found {
        Ok(Some(v)) => Ok(Some(v@)),
        Ok(None) => Ok(None),
        Err(e) => Err(e@),
    }
}

/// Takes the version from what was found under the key of a plugin manifest.
pub fn check_manifest_version(found: Result<Option<String>, String>) -> (r: ManagedResult<String>)
    ensures
        crate::layout::text_outcome(r) == manifest_version(found_text(found)),
{
    match found {
        Err(e) => Err(ManagedError::with_message("bundle_invalid", e)),
        Ok(Some(version)) => {
            if version.as_str().is_empty() || byte_len(version.as_str()) > 128 {
                return fail("bundle_invalid", "plugin manifest version is missing");
            }
            Ok(version)
        },
        Ok(None) => fail("bundle_invalid", "plugin manifest version is missing"),
    }
}

/// Reads the version of the plugin from its manifest.
pub fn read_plugin_version(manifest: &str) -> (r: ManagedResult<String>)
    ensures
        crate::layout::text_outcome(r) == manifest_version(toml_text(manifest@, "version"@)),
{
    check_manifest_version(toml_field(manifest, "version"))
}

/// What is wrong with the adapter of an installation.
pub open spec fn adapter_failure(
    adapter: Result<AdapterView, Failure>,
    version: Seq<char>,
) -> Option<Failure> {
    match adapter {
        Err(f) => Some(f),
        Ok(contract) => if adapter_metadata_ok(contract) && contract.version == version {
            None
        } else {
            incompatible(
                "managed A2A requires component version "@ + version
                    + ", Pi >=0.84.2, and Typebox >=1.3.7 <1.4.0"@,
            )
        },
    }
}

/// What is wrong with the Pi of an installation, if there is one.
pub open spec fn pi_failure(output: Option<&ManagedResult<ProcessOutput>>) -> Option<Failure> {
    match output {
        None => None,
        Some(Err(e)) => incompatible(
            "Pi version check failed: "@ + crate::error::failure_text(e@),
        ),
        Some(Ok(output)) => if compatible_pi(*output) {
            None
        } else {
            incompatible("managed A2A requires Pi >=0.84.2"@)
        },
    }
}

/// What was found of the components that must fit together.
#[derive(Debug)]
pub struct ComponentsFound {
    /// The version in the manifest of the plugin.
    pub plugin_version: ManagedResult<String>,
    /// The output of the native binary.
    pub binary: ManagedResult<ProcessOutput>,
    /// What the adapter package says of itself.
    pub adapter: ManagedResult<AdapterContract>,
    /// The output of Pi, if there is a Pi.
    pub pi: Option<ManagedResult<ProcessOutput>>,
}

/// The output of Pi, if there is a Pi.
pub open spec fn pi_output(found: &ComponentsFound) -> Option<&ManagedResult<ProcessOutput>> {
    match &found.pi {
        Some(output) => Some(output),
        None => None,
    }
}

/// What is wrong with the binary, the adapter and the Pi for a version.
pub open spec fn components_failure(found: &ComponentsFound, version: Seq<char>) -> Option<Failure> {
    or_else(
        executable_failure(found.binary, version),
        or_else(adapter_failure(outcome(found.adapter), version), pi_failure(pi_output(found))),
    )
}

fn check_components(found: &ComponentsFound, version: &str) -> (r: ManagedResult<()>)
    ensures
        failure(r) == components_failure(found, version@),
{
    validate_executable_version(&found.binary, version)?;
    match &found.adapter {
        Ok(contract) => validate_adapter_contract(contract, version)?,
        Err(e) => {
            return Err(e.copy());
        },
    }
    match &found.pi {
        Some(output) => validate_pi_compatibility(Some(output)),
        None => Ok(()),
    }
}

/// What does not fit for an installation.
pub open spec fn install_mismatch(found: &ComponentsFound, own: Seq<char>) -> Option<Failure> {
    match crate::layout::text_outcome(found.plugin_version) {
        Err(f) => Some(f),
        Ok(version) => if version != own {
            incompatible("the Herdr plugin and native installer versions differ"@)
        } else {
            components_failure(found, version)
        },
    }
}

/// Checks that the components of a bundle fit together and fit this program.
pub fn validate_install_compatibility(found: &ComponentsFound, own_version: &str) -> (r:
    ManagedResult<()>)
    ensures
        failure(r) == install_mismatch(found, own_version@),
{
    match &found.plugin_version {
        Err(e) => Err(e.copy()),
        Ok(version) => {
            if !text_eq(version.as_str(), own_version) {
                return fail(
                    "incompatible_version",
                    "the Herdr plugin and native installer versions differ",
                );
            }
            check_components(found, version.as_str())
        },
    }
}

/// What does not fit for a repair.
pub open spec fn repair_mismatch(recorded: Seq<char>, found: &ComponentsFound, own: Seq<char>) -> Option<Failure> {
    if recorded != own {
        incompatible("the installed Herdr plugin and native helper versions differ"@)
    } else {
        match crate::layout::text_outcome(found.plugin_version) {
            Err(f) => Some(f),
            Ok(version) => if version != recorded {
                incompatible("the installed Herdr plugin and native helper versions differ"@)
            } else {
                components_failure(found, recorded)
            },
        }
    }
}

/// Checks that the installed components fit together and fit this program.
pub fn validate_repair_compatibility(
    recorded_version: &str,
    found: &ComponentsFound,
    own_version: &str,
) -> (r: ManagedResult<()>)
    ensures
        failure(r) == repair_mismatch(recorded_version@, found, own_version@),
{
    if !text_eq(recorded_version, own_version) {
        return fail(
            "incompatible_version",
            "the installed Herdr plugin and native helper versions differ",
        );
    }
    match &found.plugin_version {
        Err(e) => Err(e.copy()),
        Ok(version) => {
            if !text_eq(version.as_str(), recorded_version) {
                return fail(
                    "incompatible_version",
                    "the installed Herdr plugin and native helper versions differ",
                );
            }
            check_components(found, recorded_version)
        },
    }
}

/// An installation that passes has one release version throughout: the plugin, the
/// binary and the adapter say the version of this program.
pub proof fn law_components_share_one_version(found: &ComponentsFound, own_version: Seq<char>)
    requires
        crate::layout::text_outcome(found.plugin_version) == Ok::<Seq<char>, Failure>(own_version),
        components_failure(found, own_version) is None,
    ensures
        found.binary is Ok,
        native_version_of(found.binary->Ok_0.stdout@) == version_of(own_version),
        found.adapter is Ok,
        found.adapter->Ok_0@.version == own_version,
        adapter_metadata_ok(found.adapter->Ok_0@),
{
}

/// The kind of agent that an event names: the first of four fields that is a
/// text, in the pane of the event or in the event itself.
pub open spec fn event_kind(event: JsonView) -> Option<Seq<char>> {
    let pane = match json_get(event, "pane"@) {
        Some(pane) => pane,
        None => event,
    };
    match json_get_text(pane, "agent_kind"@) {
        Some(kind) => Some(kind),
        None => match json_get_text(pane, "harness"@) {
            Some(kind) => Some(kind),
            None => match json_get_text(pane, "kind"@) {
                Some(kind) => Some(kind),
                None => json_get_text(pane, "agent"@),
            },
        },
    }
}

/// Whether an event names Pi.
pub fn event_names_pi(event: &Json) -> (r: bool)
    ensures
        r == (event_kind(event@) == Some("pi"@)),
{
    let pane = match event.get("pane") {
        Some(pane) => pane,
        None => event,
    };
    let kind = match pane.get_text("agent_kind") {
        Some(kind) => Some(kind),
        None => match pane.get_text("harness") {
            Some(kind) => Some(kind),
            None => match pane.get_text("kind") {
                Some(kind) => Some(kind),
                None => pane.get_text("agent"),
            },
        },
    };
    match kind {
        Some(kind) => text_eq(kind.as_str(), "pi"),
        None => false,
    }
}

/// Whether an encoded event names Pi, or what is wrong with it.
pub open spec fn event_is_for_pi(encoded: Option<Seq<char>>) -> Result<bool, Failure> {
    match encoded {
        None => Err(
            (
                "invalid_plugin_event"@,
                "HERDR_PLUGIN_EVENT_JSON is required for event repair"@,
            ),
        ),
        Some(text) => if utf8(text).len() > 65536 {
            Err(("invalid_plugin_event"@, "plugin event exceeds 65536 bytes"@))
        } else {
            match json_parsed(utf8(text)) {
                Err(e) => Err(("invalid_plugin_event"@, e)),
                Ok(event) => Ok(event_kind(event) == Some("pi"@)),
            }
        },
    }
}

/// Whether an encoded event names Pi.
pub fn event_is_pi(encoded: Option<&str>) -> (r: ManagedResult<bool>)
    ensures
        (match r {
            Ok(v) => Ok::<bool, Failure>(v),
            Err(e) => Err(e@),
        }) == event_is_for_pi(
            match encoded {
                Some(t) => Some(t@),
                None => None,
            },
        ),
{
    let Some(text) = encoded else {
        return fail(
            "invalid_plugin_event",
            "HERDR_PLUGIN_EVENT_JSON is required for event repair",
        );
    };
    let bytes = text.as_bytes();
    if bytes.len() > 65536 {
        return fail("invalid_plugin_event", "plugin event exceeds 65536 bytes");
    }
    match parse_json(bytes) {
        Ok(event) => Ok(event_names_pi(&event)),
        Err(e) => Err(ManagedError::with_message("invalid_plugin_event", e)),
    }
}

/// Support has a lower bound and no upper one: whatever is later than a supported
/// version is supported.
pub proof fn law_support_has_no_ceiling(a: (u64, u64, u64), b: (u64, u64, u64))
    requires
        supported(a),
        b.0 > a.0 || (b.0 == a.0 && (b.1 > a.1 || (b.1 == a.1 && b.2 >= a.2))),
    ensures
        supported(b),
{
}

/// A version is read as it is written: three numbers with dots between them, and a `v`
/// before them makes no difference.
pub proof fn law_versions_are_three_numbers(major: u64, minor: u64, patch: u64)
    ensures
        ({
            let text = decimal(major as nat) + seq!['.'] + decimal(minor as nat) + seq!['.']
                + decimal(patch as nat);
            &&& version_of(text) == Some((major, minor, patch))
            &&& version_of(seq!['v'] + text) == Some((major, minor, patch))
        }),
{
    let (a, b, c) = (decimal(major as nat), decimal(minor as nat), decimal(patch as nat));
    let text = a + seq!['.'] + b + seq!['.'] + c;
    lemma_decimal_reads_back(major as nat);
    lemma_decimal_reads_back(minor as nat);
    lemma_decimal_reads_back(patch as nat);
    lemma_no_dot(a);
    lemma_no_dot(b);
    lemma_no_dot(c);
    lemma_split_one(a, '.');
    lemma_split_one(b, '.');
    lemma_split_one(c, '.');
    lemma_split_joined(b, c, '.');
    lemma_split_joined(a, b.push('.') + c, '.');
    assert(text =~= a.push('.') + (b.push('.') + c));
    let pieces = split_text(text, '.');
    assert(pieces =~= seq![a, b, c]);
    assert((seq!['v'] + text).skip(1) =~= text);
    assert(text[0] == a[0]);
}

proof fn lemma_no_dot(s: Seq<char>)
    requires
        forall|i: int| 0 <= i < s.len() ==> '0' <= #[trigger] s[i] <= '9',
    ensures
        !s.contains('.'),
{
    if s.contains('.') {
        let i = choose|i: int| 0 <= i < s.len() && s[i] == '.';
        assert('0' <= s[i]);
    }
}

/// A version is supported from 0.84.2 on, and no version before is.
pub proof fn law_support_begins_at_a_version(v: (u64, u64, u64))
    ensures
        supported(v) <==> !(v.0 == 0 && (v.1 < 84 || (v.1 == 84 && v.2 < 2))),
{
}

/// The words of a text are not empty and hold no white space; white space before, after
/// or between them makes no further words.
pub proof fn law_words_hold_no_white_space(s: Seq<char>, c: char, k: int)
    ensures
        0 <= k < words(s).len() ==> words(s)[k].len() > 0 && forall|i: int|
            0 <= i < words(s)[k].len() ==> !is_white(#[trigger] words(s)[k][i]),
        is_white(c) ==> words(s.push(c)) == words(s),
        !is_white(c) && (s.len() == 0 || is_white(s.last())) ==> words(s.push(c)) == words(s).push(
            seq![c],
        ),
        !is_white(c) && s.len() > 0 && !is_white(s.last()) ==> words(s).len() > 0 && words(
            s.push(c),
        ) == words(s).drop_last().push(words(s).last().push(c)),
    decreases s.len(),
{
    let t = s.push(c);
    assert(t.drop_last() =~= s);
    assert(s.len() > 0 ==> t[t.len() - 2] == s.last());
    if s.len() > 0 {
        let front = s.drop_last();
        let before = words(front);
        let last = s.last();
        law_words_hold_no_white_space(front, last, k);
        assert(front.push(last) =~= s);
        if !is_white(last) && !(s.len() == 1 || is_white(s[s.len() - 2])) {
            assert(front.last() == s[s.len() - 2]);
            assert(before.len() > 0);
            law_words_hold_no_white_space(front, last, before.len() - 1);
        }
    }
}

/// The output of Pi is one word, which is a version; that of the native binary is its
/// name and a version.
pub proof fn law_outputs_are_read_by_words(stdout: Seq<u8>)
    ensures
        pi_version_of(stdout) is Some ==> valid_utf8(stdout) && words(decode_utf8(stdout)).len()
            == 1 && pi_version_of(stdout) == version_of(words(decode_utf8(stdout))[0]),
        native_version_of(stdout) is Some ==> valid_utf8(stdout) && words(decode_utf8(stdout)).len()
            == 2 && words(decode_utf8(stdout))[0] == "herdr-a2a"@ && native_version_of(stdout)
            == version_of(words(decode_utf8(stdout))[1]),
        valid_utf8(stdout) && words(decode_utf8(stdout)).len() == 1 ==> pi_version_of(stdout)
            == version_of(words(decode_utf8(stdout))[0]),
        valid_utf8(stdout) && words(decode_utf8(stdout)).len() == 2 && words(decode_utf8(stdout))[0]
            == "herdr-a2a"@ ==> native_version_of(stdout) == version_of(
            words(decode_utf8(stdout))[1],
        ),
{
}

/// A binary fits just when it ran and said the version that is expected; a Pi fits just
/// when it ran and said a supported one, or is not there.
pub proof fn law_programs_fit_by_what_they_say(
    binary: ManagedResult<ProcessOutput>,
    pi: Option<&ManagedResult<ProcessOutput>>,
    expected: Seq<char>,
)
    ensures
        executable_failure(binary, expected) is None <==> (binary is Ok && version_of(expected)
            is Some && binary->Ok_0.success && native_version_of(binary->Ok_0.stdout@)
            == version_of(expected)),
        pi_failure(pi) is None <==> (pi is None || (pi->0 is Ok && pi->0->Ok_0.success
            && pi_version_of(pi->0->Ok_0.stdout@) is Some && supported(
            pi_version_of(pi->0->Ok_0.stdout@)->0,
        ))),
        executable_failure(binary, expected) is Some ==> (executable_failure(binary, expected)->0).0
            == "incompatible_version"@,
        pi_failure(pi) is Some ==> (pi_failure(pi)->0).0 == "incompatible_version"@,
{
}

/// An adapter is read just when its manifest has a name and a version, and ranges for Pi
/// and Typebox among its peers, all of them short texts; they are then taken as they are.
pub proof fn law_adapters_are_read_from_their_manifest(v: JsonView, a: AdapterView)
    ensures
        adapter_of(v) == Ok::<AdapterView, Failure>(a) <==> ({
            let peers = json_get(v, "peerDependencies"@);
            &&& json_get_text(v, "name"@) == Some(a.name)
            &&& json_get_text(v, "version"@) == Some(a.version)
            &&& peers is Some && peers->0 is Object
            &&& json_get_text(peers->0, "@earendil-works/pi-coding-agent"@) == Some(a.pi_peer)
            &&& json_get_text(peers->0, "typebox"@) == Some(a.typebox_peer)
            &&& 0 < a.name.len() && utf8(a.name).len() <= 128
            &&& 0 < a.version.len() && utf8(a.version).len() <= 128
            &&& 0 < a.pi_peer.len() && utf8(a.pi_peer).len() <= 128
            &&& 0 < a.typebox_peer.len() && utf8(a.typebox_peer).len() <= 128
        }),
{
}

/// An adapter fits just when it is the adapter of this program, in the expected version,
/// and asks for the supported Pi and Typebox.
pub proof fn law_adapters_fit_by_their_contract(
    adapter: Result<AdapterView, Failure>,
    version: Seq<char>,
)
    ensures
        adapter_failure(adapter, version) is None <==> (adapter is Ok && adapter->Ok_0.name
            == "@herdr/a2a-pi"@ && adapter->Ok_0.version == version && adapter->Ok_0.pi_peer
            == ">=0.84.2"@ && adapter->Ok_0.typebox_peer == ">=1.3.7 <1.4.0"@),
        adapter is Err ==> adapter_failure(adapter, version) == Some(adapter->Err_0),
{
}

/// The version of a plugin is the short text in its manifest, and a manifest without one
/// is no valid bundle.
pub proof fn law_manifests_must_have_a_version(
    found: Result<Option<Seq<char>>, Seq<char>>,
    version: Seq<char>,
)
    ensures
        manifest_version(found) == Ok::<Seq<char>, Failure>(version) <==> (found == Ok::<
            Option<Seq<char>>,
            Seq<char>,
        >(Some(version)) && 0 < version.len() && utf8(version).len() <= 128),
        manifest_version(found) is Err ==> manifest_version(found)->Err_0.0 == "bundle_invalid"@,
{
}

/// An event is for Pi just when it parses and the first of the four fields that is a text
/// says so, in its pane where it has one. An event that is missing, too long or not JSON
/// is an error.
pub proof fn law_events_are_for_pi_by_their_kind(encoded: Option<Seq<char>>)
    ensures
        ({
            let r = event_is_for_pi(encoded);
            let event = json_parsed(utf8(encoded->0));
            let pane = if json_get(event->Ok_0, "pane"@) is Some {
                json_get(event->Ok_0, "pane"@)->0
            } else {
                event->Ok_0
            };
            let fields = seq!["agent_kind"@, "harness"@, "kind"@, "agent"@];
            &&& r is Ok <==> encoded is Some && utf8(encoded->0).len() <= 65536 && event is Ok
            &&& r is Err ==> r->Err_0.0 == "invalid_plugin_event"@
            &&& r is Ok ==> (r->Ok_0 <==> exists|k: int|
                #![trigger fields[k]]
                0 <= k < 4 && json_get_text(pane, fields[k]) == Some("pi"@) && forall|i: int|
                    0 <= i < k ==> json_get_text(pane, #[trigger] fields[i]) is None)
        }),
{
    let r = event_is_for_pi(encoded);
    if r is Ok {
        let event = json_parsed(utf8(encoded->0))->Ok_0;
        let pane = if json_get(event, "pane"@) is Some {
            json_get(event, "pane"@)->0
        } else {
            event
        };
        let fields = seq!["agent_kind"@, "harness"@, "kind"@, "agent"@];
        assert(fields[0] == "agent_kind"@ && fields[1] == "harness"@ && fields[2] == "kind"@
            && fields[3] == "agent"@);
        if r->Ok_0 {
            let k: int = if json_get_text(pane, fields[0]) is Some {
                0
            } else if json_get_text(pane, fields[1]) is Some {
                1
            } else if json_get_text(pane, fields[2]) is Some {
                2
            } else {
                3
            };
            assert(json_get_text(pane, fields[k]) == Some("pi"@));
        } else {
            assert forall|k: int|
                #![trigger fields[k]]
                0 <= k < 4 && (forall|i: int|
                    0 <= i < k ==> json_get_text(pane, #[trigger] fields[i]) is None) implies
                json_get_text(pane, fields[k]) != Some("pi"@) by {
                assert(k > 0 ==> json_get_text(pane, fields[0]) is None);
                assert(k > 1 ==> json_get_text(pane, fields[1]) is None);
                assert(k > 2 ==> json_get_text(pane, fields[2]) is None);
            }
        }
    }
}

/// An installation goes on just when the plugin is of this program's version and its
/// components fit it; a repair, just when the recorded version is that version too.
pub proof fn law_installs_and_repairs_are_of_one_version(
    found: &ComponentsFound,
    recorded: Seq<char>,
    own: Seq<char>,
)
    ensures
        install_mismatch(found, own) is None <==> (found.plugin_version is Ok
            && found.plugin_version->Ok_0@ == own && executable_failure(found.binary, own) is None
            && adapter_failure(outcome(found.adapter), own) is None && pi_failure(pi_output(found))
            is None),
        repair_mismatch(recorded, found, own) is None <==> (recorded == own && install_mismatch(
            found,
            own,
        ) is None),
{
}

} // verus!
