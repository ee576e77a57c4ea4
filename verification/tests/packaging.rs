use lini::assets::{assets_from, HostEntry, HostValue};
use lini::bundle::{Build, Step, BUILDS};
use lini::package::{
    check_bindgen_version, locked_version, manifest_version, package_manifest, package_version,
    NODE_SCOPE, PACKAGE_JSON,
};
use lini::size::human;
use lini::strs::{replace, second_word};

/// What the float rendering gives, for comparison.
fn reference(n: usize) -> String {
    if n >= 1 << 20 {
        format!("{:.2} MB", n as f64 / (1 << 20) as f64)
    } else {
        format!("{:.1} KB", n as f64 / 1024.0)
    }
}

#[test]
fn sizes_read_in_kb_below_a_mib_and_mb_from_it() {
    assert_eq!(human(0), "0.0 KB");
    assert_eq!(human(1536), "1.5 KB");
    assert_eq!(human((1 << 20) - 1), "1024.0 KB");
    assert_eq!(human(1 << 20), "1.00 MB");
    assert_eq!(human(3 * (1 << 20) / 2), "1.50 MB");
    assert_eq!(human(10 * (1 << 20) + 5243), "10.01 MB");
    assert_eq!(human(10 * (1 << 20) + 5242), "10.00 MB");
}

#[test]
fn sizes_round_as_the_float_rendering_does() {
    // ties: 0.25 KB, 1.125 MB and 1.375 MB, 0.75 KB
    for n in [256usize, 768, 1179648, 1441792, 2621440 + 5243, 123456789, 999, 1023, 1025] {
        assert_eq!(human(n), reference(n), "n = {n}");
    }
    let mut n: usize = 1;
    while n < usize::MAX / 3 {
        assert_eq!(human(n), reference(n), "n = {n}");
        assert_eq!(human(n + 1), reference(n + 1), "n = {n}+1");
        n = n * 3 + 7;
    }
    for n in [usize::MAX, usize::MAX - 1, (1usize << 53) + 1, (1usize << 54) + 2, (1usize << 60) + (1 << 7)] {
        assert_eq!(human(n), reference(n), "n = {n}");
    }
    for n in 0..5000usize {
        assert_eq!(human(n), reference(n), "n = {n}");
    }
}

#[test]
fn a_manifest_version_is_its_first_version_line() {
    let m = "[package]\nname = \"lini\"\nversion = \"1.4.2\"\n\n[dependencies]\nserde = { version = \"1\" }\n";
    assert_eq!(manifest_version(m), Some("1.4.2".to_string()));
    assert_eq!(manifest_version("[package]\r\nversion = \"0.9.0\"\r\n"), Some("0.9.0".to_string()));
    assert_eq!(manifest_version("version = \"2.0\" # pinned"), Some("2.0".to_string()));
    assert_eq!(manifest_version("version = \"3.1"), Some("3.1".to_string()));
    assert_eq!(manifest_version("version = 3\nversion = \"4\""), None);
    assert_eq!(manifest_version("[package]\nname = \"x\"\n"), None);
    assert_eq!(manifest_version(""), None);
    assert_eq!(manifest_version("  version = \"1\""), None);
}

#[test]
fn the_binding_crate_must_track_the_workspace() {
    assert_eq!(package_version(Ok("1.2.0".to_string()), Ok("1.2.0".to_string())), Ok("1.2.0".to_string()));
    assert_eq!(
        package_version(Ok("1.2.0".to_string()), Ok("1.1.0".to_string())),
        Err("the workspace is 1.2.0 but crates/lini-wasm is 1.1.0\n  fix: set crates/lini-wasm/Cargo.toml's version to 1.2.0".to_string())
    );
    assert_eq!(package_version(Err("w".to_string()), Err("b".to_string())), Err("w".to_string()));
    assert_eq!(package_version(Ok("1".to_string()), Err("b".to_string())), Err("b".to_string()));
}

const LOCK: &str = "version = 3\n\n[[package]]\nname = \"wasm-bindgen-macro\"\nversion = \"0.2.90\"\n\n[[package]]\nname = \"wasm-bindgen\"\nversion = \"0.2.93\"\nsource = \"registry\"\n\n[[package]]\nname = \"zz\"\nversion = \"1.0.0\"\n";

#[test]
fn the_lock_file_pins_the_bindgen_crate() {
    assert_eq!(locked_version(LOCK), "0.2.93");
    assert_eq!(locked_version("[[package]]\nname = \"serde\"\nversion = \"1\"\n"), "");
    assert_eq!(locked_version(""), "");
}

#[test]
fn the_bindgen_command_must_match_the_crate() {
    assert_eq!(check_bindgen_version("wasm-bindgen 0.2.93\n", LOCK), Ok(()));
    assert_eq!(
        check_bindgen_version("wasm-bindgen 0.2.92\n", LOCK),
        Err("wasm-bindgen CLI is 0.2.92, but the crate is 0.2.93\n  fix: cargo install wasm-bindgen-cli --version 0.2.93".to_string())
    );
    assert_eq!(check_bindgen_version("anything", "no lock here"), Ok(()));
    assert_eq!(
        check_bindgen_version("", LOCK),
        Err("wasm-bindgen CLI is , but the crate is 0.2.93\n  fix: cargo install wasm-bindgen-cli --version 0.2.93".to_string())
    );
}

#[test]
fn words_split_at_white_space() {
    assert_eq!(second_word("  wasm-bindgen\t0.2.93 extra"), "0.2.93");
    assert_eq!(second_word("one"), "");
    assert_eq!(second_word(""), "");
    assert_eq!(second_word("a\u{3000}b"), "b");
    for s in ["x y", " \n x  y z", "x", "\u{a0}p\u{2009}q", "αβ γδ"] {
        assert_eq!(second_word(s), s.split_whitespace().nth(1).unwrap_or(""));
    }
}

#[test]
fn replace_fills_every_slot_left_to_right() {
    assert_eq!(replace("a{v}b{v}", "{v}", "1"), "a1b1");
    assert_eq!(replace("aaa", "aa", "b"), "ba");
    assert_eq!(replace("none", "x", "y"), "none");
    for (s, p, r) in [("abcabc", "bc", "X"), ("", "a", "b"), ("ééé", "é", "e"), ("aaaa", "aa", "a")] {
        assert_eq!(replace(s, p, r), s.replace(p, r));
    }
}

#[test]
fn the_package_manifest_carries_the_version() {
    let json = package_manifest("1.4.2");
    assert_eq!(json, PACKAGE_JSON.replace("{version}", "1.4.2"));
    assert!(json.contains("\"version\": \"1.4.2\""));
    assert!(!json.contains("{version}"));
    assert_eq!(NODE_SCOPE, "{\n  \"type\": \"commonjs\"\n}\n");
}

fn run(outcomes: &[bool]) -> Build {
    let mut b = Build::start();
    for &ok in outcomes {
        b = b.advance(ok);
    }
    b
}

#[test]
fn the_build_runs_every_step_in_order() {
    let mut b = Build::start();
    let mut seen = vec![b.step];
    while !matches!(b.step, Step::Succeeded | Step::Failed) {
        b = b.advance(true);
        seen.push(b.step);
    }
    assert_eq!(
        seen,
        vec![
            Step::LocateRoot,
            Step::ReadVersion,
            Step::Compile,
            Step::FindModule,
            Step::CheckBindgen,
            Step::Bind(0),
            Step::Optimize(0),
            Step::Bind(1),
            Step::Optimize(1),
            Step::WriteManifest,
            Step::Report,
            Step::Succeeded,
        ]
    );
    assert_eq!(BUILDS, [("web", "web"), ("nodejs", "node")]);
}

#[test]
fn a_failed_step_stops_the_build() {
    assert_eq!(run(&[false]).step, Step::Failed);
    assert_eq!(run(&[true, true, false, true, true]).step, Step::Failed);
    assert_eq!(run(&[true, true, true, true, true, false]).step, Step::Failed);
    assert_eq!(run(&[true; 9].iter().copied().chain([false]).collect::<Vec<_>>()).step, Step::Failed);
}

#[test]
fn an_optimizer_failure_only_adds_a_note() {
    let b = run(&[true, true, true, true, true, true, false, true, true]);
    assert_eq!(b.step, Step::NoteUnoptimized);
    assert!(b.unoptimized);
    let b = run(&[true, true, true, true, true, true, false, true, true, true, true, true]);
    assert_eq!(b, Build { step: Step::Succeeded, unoptimized: true });
}

#[test]
fn the_asset_table_keeps_strings_and_bytes() {
    let entries = vec![
        HostEntry { key: Some("logo.svg".to_string()), value: HostValue::Text("<svg/>".to_string()) },
        HostEntry { key: Some("photo.png".to_string()), value: HostValue::Bytes(vec![0x89, 0x50]) },
        HostEntry { key: Some("count".to_string()), value: HostValue::Other },
        HostEntry { key: None, value: HostValue::Text("lost".to_string()) },
        HostEntry { key: Some("é.svg".to_string()), value: HostValue::Text("é".to_string()) },
    ];
    assert_eq!(
        assets_from(entries),
        vec![
            ("logo.svg".to_string(), b"<svg/>".to_vec()),
            ("photo.png".to_string(), vec![0x89, 0x50]),
            ("é.svg".to_string(), "é".as_bytes().to_vec()),
        ]
    );
    assert_eq!(assets_from(vec![]), vec![]);
}
