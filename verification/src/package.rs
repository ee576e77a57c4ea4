//! What goes into the npm package of the WebAssembly build, and the checks
//! made before it is written: the version the manifests agree on, the
//! `wasm-bindgen` versions that must match, and the `package.json` text.

use vstd::prelude::*;
use crate::strs::{
    chars_of, contains_seq, first_containing, first_line_with_prefix, first_piece_containing,
    first_quoted, first_with_prefix, is_word, lemma_find_char_at, lemma_first_with_prefix_cons,
    lemma_two_words, lines_from, lines_of, quoted_between, replace, replace_all, second_word,
    split_from, strip_cr, words_from,
};

verus! {

/// The key of a manifest's version line.
pub const VERSION_KEY: &'static str = "version = ";

/// Where each package of a lock file begins.
pub const PACKAGE_HEADER: &'static str = "[[package]]";

/// The line that names the `wasm-bindgen` package in a lock file.
pub const BINDGEN_ENTRY: &'static str = "name = \"wasm-bindgen\"\n";

/// The placeholder that `package.json` carries for the version.
pub const VERSION_SLOT: &'static str = "{version}";

/// An `Option<String>` by its characters.
pub open spec fn text_of(r: Option<String>) -> Option<Seq<char>> {
    match r {
        Some(s) => Some(s@),
        None => None,
    }
}

/// The version a manifest declares: the quoted value of its first line that
/// starts with `version = ` (always the `[package]` one, since that table
/// opens the file).
pub open spec fn declared_version(manifest: Seq<char>) -> Option<Seq<char>> {
    match first_with_prefix(lines_of(manifest), VERSION_KEY@) {
        Some(line) => first_quoted(line.skip(VERSION_KEY@.len() as int)),
        None => None,
    }
}

/// The first `version = "…"` of a manifest.
pub fn manifest_version(manifest: &str) -> (r: Option<String>)
    ensures
        text_of(r) == declared_version(manifest@),
{
    let s = chars_of(manifest);
    let key = chars_of(VERSION_KEY);
    match first_line_with_prefix(&s, &key) {
        Some((a, b)) => {
            proof {
                assert(s@.subrange(a as int, b as int).skip(key@.len() as int) =~= s@.subrange(
                    a + key@.len(),
                    b as int,
                ));
            }
            quoted_between(manifest, &s, a + key.len(), b)
        },
        None => None,
    }
}

/// The version that a lock file pins for `wasm-bindgen`: the quoted value of
/// the first `version = ` line of the first package section that names it,
/// or the empty text where there is none.
pub open spec fn locked_bindgen(lock: Seq<char>) -> Seq<char> {
    match first_containing(split_from(lock, PACKAGE_HEADER@, 0), BINDGEN_ENTRY@) {
        Some(section) => match first_with_prefix(lines_of(section), VERSION_KEY@) {
            Some(line) => match first_quoted(line) {
                Some(v) => v,
                None => Seq::empty(),
            },
            None => Seq::empty(),
        },
        None => Seq::empty(),
    }
}

/// The `wasm-bindgen` version that a lock file pins.
pub fn locked_version(lock: &str) -> (r: String)
    ensures
        r@ == locked_bindgen(lock@),
{
    let s = chars_of(lock);
    let header = chars_of(PACKAGE_HEADER);
    let entry = chars_of(BINDGEN_ENTRY);
    proof {
        reveal_strlit("[[package]]");
    }
    match first_piece_containing(&s, &header, &entry) {
        Some((a, b)) => {
            let section = lock.substring_char(a, b);
            let t = chars_of(section);
            let key = chars_of(VERSION_KEY);
            match first_line_with_prefix(&t, &key) {
                Some((c, d)) => match quoted_between(section, &t, c, d) {
                    Some(v) => v,
                    None => String::new(),
                },
                None => String::new(),
            }
        },
        None => String::new(),
    }
}

/// The version a `wasm-bindgen --version` output names: its second word.
pub open spec fn cli_named(output: Seq<char>) -> Seq<char> {
    if words_from(output, 0).len() >= 2 {
        words_from(output, 0)[1]
    } else {
        Seq::empty()
    }
}

/// The message for a command-line `wasm-bindgen` that differs from the crate.
pub open spec fn bindgen_mismatch(cli: Seq<char>, krate: Seq<char>) -> Seq<char> {
    "wasm-bindgen CLI is "@ + cli + ", but the crate is "@ + krate
        + "\n  fix: cargo install wasm-bindgen-cli --version "@ + krate
}

/// The command-line `wasm-bindgen` and the crate must agree exactly; a
/// mismatch produces glue that throws on load. Takes what
/// `wasm-bindgen --version` printed and the text of the lock file; a lock file
/// that pins no `wasm-bindgen` passes.
pub fn check_bindgen_version(cli_output: &str, lock: &str) -> (r: Result<(), String>)
    ensures
        match r {
            Ok(()) => locked_bindgen(lock@).len() == 0 || cli_named(cli_output@) == locked_bindgen(
                lock@,
            ),
            Err(msg) => locked_bindgen(lock@).len() != 0 && cli_named(cli_output@)
                != locked_bindgen(lock@) && msg@ == bindgen_mismatch(
                cli_named(cli_output@),
                locked_bindgen(lock@),
            ),
        },
{
    let cli = second_word(cli_output);
    let krate = locked_version(lock);
    if krate.as_str().is_empty() || cli == krate {
        Ok(())
    } else {
        let mut msg = String::from_str("wasm-bindgen CLI is ");
        msg.append(cli.as_str());
        msg.append(", but the crate is ");
        msg.append(krate.as_str());
        msg.append("\n  fix: cargo install wasm-bindgen-cli --version ");
        msg.append(krate.as_str());
        Err(msg)
    }
}

/// The message for a binding crate whose version differs from the workspace's.
pub open spec fn version_drift(workspace: Seq<char>, binding: Seq<char>) -> Seq<char> {
    "the workspace is "@ + workspace + " but crates/lini-wasm is "@ + binding
        + "\n  fix: set crates/lini-wasm/Cargo.toml's version to "@ + workspace
}

/// The npm version is the workspace's, so the two can never disagree; and
/// the binding crate must track it, because the module reports its own
/// version. Takes the two manifests' versions as read (or why they could not
/// be): the workspace's failure first, then the binding's, then a mismatch.
pub fn package_version(workspace: Result<String, String>, binding: Result<String, String>) -> (r:
    Result<String, String>)
    ensures
        match (workspace, binding) {
            (Err(e), _) => r == Err::<String, String>(e),
            (Ok(w), Err(e)) => r == Err::<String, String>(e),
            (Ok(w), Ok(b)) => if w@ == b@ {
                r == Ok::<String, String>(w)
            } else {
                r matches Err(msg) && msg@ == version_drift(w@, b@)
            },
        },
{
    let workspace = match workspace {
        Ok(w) => w,
        Err(e) => return Err(e),
    };
    let binding = match binding {
        Ok(b) => b,
        Err(e) => return Err(e),
    };
    if workspace != binding {
        let mut msg = String::from_str("the workspace is ");
        msg.append(workspace.as_str());
        msg.append(" but crates/lini-wasm is ");
        msg.append(binding.as_str());
        msg.append("\n  fix: set crates/lini-wasm/Cargo.toml's version to ");
        msg.append(workspace.as_str());
        return Err(msg);
    }
    Ok(workspace)
}

/// The manifest that maps the two builds onto runtime conditions: `"node"`
/// before `"default"`, so that a runtime that has one takes the CommonJS build
/// and a bundler falls through to the ESM one; `"types"` first in each branch,
/// because TypeScript resolves conditions in order and stops.
pub const PACKAGE_JSON: &'static str = r#"{
  "name": "lini-wasm",
  "version": "{version}",
  "description": "Lini's compiler as a WebAssembly module — one small language for diagrams, compiled to clean, themeable SVG.",
  "license": "MIT",
  "homepage": "https://lini.rs",
  "repository": {
    "type": "git",
    "url": "git+https://github.com/monfa-red/lini.git",
    "directory": "crates/lini-wasm"
  },
  "bugs": "https://github.com/monfa-red/lini/issues",
  "keywords": [
    "diagram",
    "diagrams-as-code",
    "svg",
    "dsl",
    "wasm",
    "webassembly",
    "lini"
  ],
  "type": "module",
  "types": "./web/lini_wasm.d.ts",
  "main": "./node/lini_wasm.js",
  "module": "./web/lini_wasm.js",
  "browser": "./web/lini_wasm.js",
  "exports": {
    ".": {
      "node": {
        "types": "./node/lini_wasm.d.ts",
        "default": "./node/lini_wasm.js"
      },
      "types": "./web/lini_wasm.d.ts",
      "default": "./web/lini_wasm.js"
    },
    "./web": {
      "types": "./web/lini_wasm.d.ts",
      "default": "./web/lini_wasm.js"
    },
    "./node": {
      "types": "./node/lini_wasm.d.ts",
      "default": "./node/lini_wasm.js"
    },
    "./lini_wasm_bg.wasm": "./web/lini_wasm_bg.wasm",
    "./package.json": "./package.json"
  },
  "files": [
    "web",
    "node",
    "README.md",
    "LICENSE"
  ],
  "engines": {
    "node": ">=18"
  }
}
"#;

/// The CommonJS scope of the `node/` directory: the package is
/// `"type": "module"`, and without this Node reads the nodejs binding's
/// `require` as an ESM file.
pub const NODE_SCOPE: &'static str = "{\n  \"type\": \"commonjs\"\n}\n";

/// The `package.json` of a release: the manifest with its version filled in.
pub fn package_manifest(version: &str) -> (r: String)
    ensures
        r@ == replace_all(PACKAGE_JSON@, VERSION_SLOT@, version@),
{
    proof {
        reveal_strlit("{version}");
    }
    replace(PACKAGE_JSON, VERSION_SLOT, version)
}

/// The version a lock-file section gives: the quoted value of its first
/// `version = ` line.
pub open spec fn section_version(section: Seq<char>) -> Option<Seq<char>> {
    match first_with_prefix(lines_of(section), "version = "@) {
        Some(line) => first_quoted(line),
        None => None,
    }
}

pub proof fn lemma_first_containing_index(pieces: Seq<Seq<char>>, needle: Seq<char>)
    ensures
        match first_containing(pieces, needle) {
            Some(p) => exists|i: int|
                0 <= i < pieces.len() && pieces[i] == p && contains_seq(p, needle) && forall|j: int|
                    0 <= j < i ==> !contains_seq(#[trigger] pieces[j], needle),
            None => forall|i: int| 0 <= i < pieces.len() ==> !contains_seq(#[trigger] pieces[i], needle),
        },
    decreases pieces.len(),
{
    if pieces.len() > 0 {
        let rest = pieces.drop_first();
        lemma_first_containing_index(rest, needle);
        if !contains_seq(pieces[0], needle) {
            match first_containing(rest, needle) {
                Some(p) => {
                    let i = choose|i: int|
                        0 <= i < rest.len() && rest[i] == p && contains_seq(p, needle) && forall|
                            j: int,
                        | 0 <= j < i ==> !contains_seq(#[trigger] rest[j], needle);
                    assert(pieces[i + 1] == p);
                    assert forall|j: int| 0 <= j < i + 1 implies !contains_seq(
                        #[trigger] pieces[j],
                        needle,
                    ) by {
                        if j > 0 {
                            assert(pieces[j] == rest[j - 1]);
                        }
                    }
                },
                None => {
                    assert forall|i: int| 0 <= i < pieces.len() implies !contains_seq(
                        #[trigger] pieces[i],
                        needle,
                    ) by {
                        if i > 0 {
                            assert(pieces[i] == rest[i - 1]);
                        }
                    }
                },
            }
        }
    }
}

/// The pinned `wasm-bindgen` version comes from the first package section
/// that holds the line `name = "wasm-bindgen"`: a section that only lists
/// `wasm-bindgen` among its dependencies is never taken, and with no such
/// section nothing is pinned.
pub proof fn lemma_locked_version_names_the_package(lock: Seq<char>)
    ensures
        ({
            let sections = split_from(lock, "[[package]]"@, 0);
            let entry = "name = \"wasm-bindgen\"\n"@;
            &&& (forall|i: int| 0 <= i < sections.len() ==> !contains_seq(#[trigger] sections[i], entry))
                ==> locked_bindgen(lock).len() == 0
            &&& locked_bindgen(lock).len() > 0 ==> exists|i: int|
                0 <= i < sections.len() && contains_seq(sections[i], entry) && (forall|j: int|
                    0 <= j < i ==> !contains_seq(#[trigger] sections[j], entry)) && section_version(
                    sections[i],
                ) == Some(locked_bindgen(lock))
        }),
{
    let sections = split_from(lock, PACKAGE_HEADER@, 0);
    assert(PACKAGE_HEADER@ == "[[package]]"@);
    assert(BINDGEN_ENTRY@ == "name = \"wasm-bindgen\"\n"@);
    assert(VERSION_KEY@ == "version = "@);
    lemma_first_containing_index(sections, BINDGEN_ENTRY@);
}

/// A `wasm-bindgen --version` output, its name and then its version on a
/// line, names that version.
pub proof fn lemma_cli_names_the_version_after_its_name(name: Seq<char>, version: Seq<char>)
    requires
        is_word(name),
        is_word(version),
    ensures
        cli_named(name + " "@ + version + "\n"@) == version,
{
    lemma_two_words(name, version);
}

/// A manifest that opens with `version = "v"` declares `v`, whatever
/// follows, later version lines included.
pub proof fn lemma_opening_version_line_is_declared(v: Seq<char>, tail: Seq<char>)
    requires
        forall|k: int| 0 <= k < v.len() ==> v[k] != '"' && v[k] != '\n',
    ensures
        declared_version("version = \""@ + v + "\"\n"@ + tail) == Some(v),
{
    reveal_strlit("version = \"");
    reveal_strlit("\"\n");
    reveal_strlit("version = ");
    assert(VERSION_KEY@ == "version = "@);
    let key = "version = "@;
    let line = "version = \""@ + v + "\""@;
    reveal_strlit("\"");
    let s = "version = \""@ + v + "\"\n"@ + tail;
    let n = v.len() as int;
    let ll = 11 + n + 1;
    assert(line.len() == ll);
    assert(s.len() == ll + 1 + tail.len());
    assert forall|k: int| 0 <= k < ll implies s[k] == line[k] && s[k] != '\n' by {
        if 11 <= k < 11 + n {
            assert(s[k] == v[k - 11]);
        }
    }
    assert(s[ll] == '\n');
    lemma_find_char_at(s, '\n', 0, s.len() as int, ll);
    assert(s.subrange(0, ll) =~= line);
    assert(line.last() == '"');
    assert(strip_cr(line) == line);
    assert(lines_from(s, 0) == seq![line] + lines_from(s, ll + 1));
    assert(key =~= line.subrange(0, 10));
    lemma_first_with_prefix_cons(line, lines_from(s, ll + 1), key);
    let rest = line.skip(10);
    assert(rest =~= "\""@ + v + "\""@);
    assert(rest[0] == '"');
    lemma_find_char_at(rest, '"', 0, rest.len() as int, 0);
    let after = rest.skip(1);
    assert(after =~= v + "\""@);
    assert forall|k: int| 0 <= k < n implies after[k] != '"' by {
        assert(after[k] == v[k]);
    }
    lemma_find_char_at(after, '"', 0, after.len() as int, n);
    assert(after.take(n) =~= v);
}

} // verus!
