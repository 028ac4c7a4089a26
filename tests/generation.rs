use apple_bindgen::builder::{BindgenParams, Builder};
use apple_bindgen::config::{Config, ConfigError, ConfigMap, FileConfig, Replacement};
use apple_bindgen::sdk::{SdkPath, SdkPathError};
use apple_bindgen::text::{find_chars, replace_chars};
use apple_bindgen::config::parse_replacement;

fn strings(items: &[&str]) -> Vec<String> {
    items.iter().map(|s| s.to_string()).collect()
}

fn pair(old: &str, new: &str) -> Replacement {
    Replacement { old: old.to_string(), new: new.to_string() }
}

fn config_with(replacements: Vec<Replacement>) -> Config {
    Config {
        opaque_types: Vec::new(),
        blocklist_items: Vec::new(),
        layout_tests: false,
        replacements,
    }
}

fn params(builder: &Builder) -> BindgenParams {
    builder.bindgen_builder()
}

#[test]
fn sdk_rejects_empty_path() {
    let r = Builder::new("Foundation", Config::default()).sdk("");
    assert!(matches!(r, Err(SdkPathError::Empty)));
    assert!(matches!(SdkPath::new(""), Err(SdkPathError::Empty)));
}

#[test]
fn sdk_path_keeps_text() {
    let p = SdkPath::new("/Applications/Xcode.app/SDKs/MacOSX.sdk").unwrap();
    assert_eq!(p.path(), "/Applications/Xcode.app/SDKs/MacOSX.sdk");
}

#[test]
fn flags_without_target() {
    let b = Builder::new("Foundation", Config::default()).sdk("/sdk").unwrap();
    let p = params(&b);
    assert_eq!(
        p.clang_args,
        strings(&["-x", "objective-c", "-fblocks", "-fmodules", "-isysroot", "/sdk"])
    );
    assert!(!p.clang_args.iter().any(|a| a.starts_with("--target=")));
    assert_eq!(p.header_name, "Foundation.h");
    assert_eq!(p.header_contents, "@import Foundation;");
    assert!(p.rustfmt_bindings);
    assert!(!p.layout_tests);
}

#[test]
fn flags_with_target() {
    let b = Builder::new("UIKit", Config::default())
        .sdk("/sdk/iPhoneOS.sdk")
        .unwrap()
        .target("arm64-apple-ios");
    let p = params(&b);
    assert_eq!(
        p.clang_args,
        strings(&[
            "-x",
            "objective-c",
            "-fblocks",
            "-fmodules",
            "--target=arm64-apple-ios",
            "-isysroot",
            "/sdk/iPhoneOS.sdk"
        ])
    );
    assert_eq!(p.clang_args.iter().filter(|a| a.starts_with("--target=")).count(), 1);
    assert_eq!(p.header_name, "UIKit.h");
    assert_eq!(p.header_contents, "@import UIKit;");
}

#[test]
fn settings_are_forwarded() {
    let config = Config {
        opaque_types: strings(&["NSDecimal", "CGPoint"]),
        blocklist_items: strings(&["max_align_t"]),
        layout_tests: true,
        replacements: Vec::new(),
    };
    let b = Builder::new("Foundation", config).sdk("/sdk").unwrap();
    let p = params(&b);
    assert_eq!(p.opaque_types, strings(&["NSDecimal", "CGPoint"]));
    assert_eq!(p.blocklist_items, strings(&["max_align_t"]));
    assert!(p.layout_tests);
}

#[test]
fn no_replacements_keep_output() {
    let b = Builder::new("Foundation", Config::default()).sdk("/sdk").unwrap();
    let raw = "pub struct NSObject;\n// foo bar\n";
    assert_eq!(b.generate(raw), raw);
    assert_eq!(b.generate(""), "");
}

#[test]
fn replacements_apply_in_order() {
    let config = config_with(vec![pair("foo", "bar"), pair("bar", "baz")]);
    let b = Builder::new("Foundation", config).sdk("/sdk").unwrap();
    assert_eq!(b.generate("foo"), "baz");
    assert_eq!(b.generate("x foo y bar"), "x baz y baz");
}

#[test]
fn replacement_covers_every_occurrence() {
    let config = config_with(vec![pair("aa", "b")]);
    let b = Builder::new("Foundation", config).sdk("/sdk").unwrap();
    assert_eq!(b.generate("aaaa"), "bb");
    assert_eq!(b.generate("aaa"), "ba");
    assert_eq!(b.generate("xaaxa"), "xbxa");
}

#[test]
fn empty_pattern_matches_between_characters() {
    let config = config_with(vec![pair("", "X")]);
    let b = Builder::new("Foundation", config).sdk("/sdk").unwrap();
    assert_eq!(b.generate("ab"), "XaXbX");
    assert_eq!(b.generate(""), "X");
    assert_eq!(b.generate("ab"), "ab".replace("", "X"));
}

#[test]
fn replacement_with_unicode_text() {
    let config = config_with(vec![pair("é", "e"), pair("ü", "ue")]);
    let b = Builder::new("Foundation", config).sdk("/sdk").unwrap();
    assert_eq!(b.generate("café über"), "cafe ueber");
}

#[test]
fn replace_and_find_on_characters() {
    let s: Vec<char> = "one two one".chars().collect();
    let from: Vec<char> = "one".chars().collect();
    let to: Vec<char> = "1".chars().collect();
    let r: String = replace_chars(&s, &from, &to).into_iter().collect();
    assert_eq!(r, "1 two 1");
    let two: Vec<char> = "two".chars().collect();
    assert_eq!(find_chars(&s, &two), Some(4));
    let three: Vec<char> = "three".chars().collect();
    assert_eq!(find_chars(&s, &three), None);
    assert_eq!(find_chars(&s, &Vec::new()), Some(0));
}

#[test]
fn entry_is_cut_at_first_delimiter() {
    let r = parse_replacement("foo #=># bar").unwrap();
    assert_eq!(r.old, "foo");
    assert_eq!(r.new, "bar");
    let r = parse_replacement("a #=># b #=># c").unwrap();
    assert_eq!(r.old, "a");
    assert_eq!(r.new, "b #=># c");
    let r = parse_replacement(" #=># ").unwrap();
    assert_eq!(r.old, "");
    assert_eq!(r.new, "");
}

#[test]
fn entry_without_delimiter_is_refused() {
    assert!(parse_replacement("foo => bar").is_none());
    assert!(parse_replacement("foo#=>#bar").is_none());
    assert!(parse_replacement("").is_none());
}

#[test]
fn file_entry_converts() {
    let fc = FileConfig {
        opaque_types: strings(&["A"]),
        blocklist_items: strings(&["B", "C"]),
        layout_tests: true,
        replacements: strings(&["x #=># y", "y #=># z"]),
    };
    let c = fc.to_config().unwrap();
    assert_eq!(c.opaque_types, strings(&["A"]));
    assert_eq!(c.blocklist_items, strings(&["B", "C"]));
    assert!(c.layout_tests);
    assert_eq!(c.replacements.len(), 2);
    assert_eq!(c.replacements[1].old, "y");
    assert_eq!(c.replacements[1].new, "z");
}

#[test]
fn file_entry_names_first_malformed_replacement() {
    let fc = FileConfig {
        opaque_types: Vec::new(),
        blocklist_items: Vec::new(),
        layout_tests: false,
        replacements: strings(&["x #=># y", "broken", "also broken"]),
    };
    assert_eq!(fc.to_config().err(), Some(1));
}

#[test]
fn malformed_file_fails_at_load() {
    let good = FileConfig {
        opaque_types: strings(&["T"]),
        blocklist_items: Vec::new(),
        layout_tests: false,
        replacements: strings(&["a #=># b"]),
    };
    let bad = FileConfig {
        opaque_types: Vec::new(),
        blocklist_items: Vec::new(),
        layout_tests: false,
        replacements: strings(&["a #=># b", "c -> d"]),
    };
    let file = vec![("AppKit".to_string(), good), ("Metal".to_string(), bad)];
    let mut map = ConfigMap::new();
    match map.load_file(&file) {
        Err(ConfigError::MissingDelimiter { framework, entry }) => {
            assert_eq!(framework, "Metal");
            assert_eq!(entry, 1);
        }
        Ok(()) => panic!("a malformed file was accepted"),
    }
    let c = map.build("AppKit");
    assert!(c.opaque_types.is_empty());
    assert!(c.replacements.is_empty());
}

#[test]
fn loaded_file_overrides_builtin() {
    let fc = FileConfig {
        opaque_types: strings(&["NSZone"]),
        blocklist_items: Vec::new(),
        layout_tests: true,
        replacements: strings(&["old #=># new"]),
    };
    let mut map = ConfigMap::with_builtin_config();
    assert!(map.load_file(&vec![("Foundation".to_string(), fc)]).is_ok());
    let c = map.build("Foundation");
    assert_eq!(c.opaque_types, strings(&["NSZone"]));
    assert!(c.blocklist_items.is_empty());
    assert!(c.layout_tests);
    assert_eq!(c.replacements[0].old, "old");
    assert_eq!(c.replacements[0].new, "new");
}

#[test]
fn later_insert_wins() {
    let mut map = ConfigMap::new();
    map.insert("Metal", config_with(vec![pair("a", "b")]));
    map.insert("Metal", config_with(vec![pair("c", "d")]));
    let c = map.build("Metal");
    assert_eq!(c.replacements.len(), 1);
    assert_eq!(c.replacements[0].old, "c");
}

#[test]
fn unknown_framework_gets_zero_config() {
    let mut map = ConfigMap::new();
    map.insert("Metal", config_with(vec![pair("a", "b")]));
    let c = map.build("NoSuchKit");
    assert!(c.opaque_types.is_empty());
    assert!(c.blocklist_items.is_empty());
    assert!(!c.layout_tests);
    assert!(c.replacements.is_empty());
    let c = ConfigMap::with_builtin_config().build("metal");
    assert!(c.blocklist_items.is_empty());
}

#[test]
fn builtin_config_is_found() {
    let c = ConfigMap::with_builtin_config().build("Foundation");
    assert_eq!(c.blocklist_items, strings(&["max_align_t"]));
    let b = Builder::with_builtin_config("CoreFoundation").sdk("/sdk").unwrap();
    let p = params(&b);
    assert_eq!(p.blocklist_items, strings(&["max_align_t"]));
    assert_eq!(p.header_contents, "@import CoreFoundation;");
    let b = Builder::with_builtin_config("NoSuchKit").sdk("/sdk").unwrap();
    assert!(params(&b).blocklist_items.is_empty());
}
