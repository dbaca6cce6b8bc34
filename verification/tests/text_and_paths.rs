use create_rust_ios::paths::{file_name_of, join, next_config_candidate, parent_of};
use create_rust_ios::text::{
    chars_eq, contains_str, decimal_chars, find_chars, find_chars_from, from_chars,
    is_whitespace, replace_chars, rfind_chars, str_eq, to_chars, trim_chars,
};
use std::path::Path;

fn chars(s: &str) -> Vec<char> {
    s.chars().collect()
}

#[test]
fn find_and_rfind() {
    let s = chars("abcabc");
    assert_eq!(find_chars(&s, &chars("bc")), Some(1));
    assert_eq!(rfind_chars(&s, &chars("bc")), Some(4));
    assert_eq!(find_chars_from(&s, &chars("bc"), 2), Some(4));
    assert_eq!(find_chars(&s, &chars("x")), None);
    assert_eq!(rfind_chars(&s, &chars("abcabcd")), None);
    assert_eq!(find_chars(&s, &chars("")), Some(0));
    assert_eq!(rfind_chars(&s, &chars("")), Some(6));
}

#[test]
fn find_agrees_with_str_find_on_ascii() {
    let hay = "/* Begin A */ x /* End A */ /* Begin B */";
    for pat in ["/* Begin", "*/", "/* End A */", "B", "zz"] {
        let c = find_chars(&chars(hay), &chars(pat));
        assert_eq!(c, hay.find(pat));
        assert_eq!(rfind_chars(&chars(hay), &chars(pat)), hay.rfind(pat));
    }
}

#[test]
fn contains_and_equality() {
    assert!(contains_str("libfoo.a in Frameworks", "libfoo.a"));
    assert!(!contains_str("libfoo.a", "libbar.a"));
    assert!(str_eq("PBXGroup section", "PBXGroup section"));
    assert!(!str_eq("PBXGroup section", "PBXGroup"));
    assert!(chars_eq(&chars("ab"), &chars("ab")));
}

#[test]
fn replace_every_occurrence() {
    let r = replace_chars(&chars("Begin Begin PBX"), &chars("Begin "), &chars(""));
    assert_eq!(from_chars(&r), "PBX");
    let r = replace_chars(&chars("aaa"), &chars("aa"), &chars("b"));
    assert_eq!(from_chars(&r), "aaa".replace("aa", "b"));
}

#[test]
fn trim_like_str_trim() {
    for s in ["\n\t\t\tF968 ", "  x y  ", "", " \u{3000}\u{a0}z\u{85}", "abc"] {
        assert_eq!(from_chars(&trim_chars(&chars(s))), s.trim());
    }
    for c in ['\t', '\n', ' ', '\u{2000}', '\u{3000}', 'a', '_', '\u{200b}'] {
        assert_eq!(is_whitespace(c), c.is_whitespace());
    }
}

#[test]
fn decimal_digits() {
    assert_eq!(from_chars(&decimal_chars(0)), "0");
    assert_eq!(from_chars(&decimal_chars(128)), "128");
    assert_eq!(from_chars(&decimal_chars(usize::MAX)), usize::MAX.to_string());
}

#[test]
fn round_trip_chars() {
    let s = "héllo \u{1F600}";
    assert_eq!(from_chars(&to_chars(s)), s);
}

#[test]
fn join_like_path_join() {
    let cases = [
        ("./generated_rust_ios_apps", "rust"),
        ("out/", "rust"),
        ("", "rust"),
        ("out", "/abs"),
        ("out", ""),
        ("/", "x"),
    ];
    for (base, seg) in cases {
        let expected = Path::new(base).join(seg);
        assert_eq!(join(base, seg), expected.to_str().unwrap());
    }
    assert_eq!(join("./generated_rust_ios_apps", "rust"), "./generated_rust_ios_apps/rust");
}

#[test]
fn file_name_like_path_file_name() {
    let cases = [
        "/Users/me/MyIOSApp",
        "~/Documents/MyIOSApp",
        "/Users/me/MyIOSApp/",
        "MyIOSApp",
        "a/b/.",
        "a/b/./",
        "a/..",
        "/",
        "",
        ".",
        "./",
        "..",
        "a//b//",
        "~",
        "x/./.",
    ];
    for p in cases {
        let expected = Path::new(p).file_name().map(|n| n.to_str().unwrap().to_string());
        assert_eq!(file_name_of(p), expected, "path {p:?}");
    }
}

fn std_parent(p: &str) -> Option<String> {
    Path::new(p).parent().map(|d| d.to_str().unwrap().to_string())
}

#[test]
fn parent_matches_std_path() {
    let cases = [
        "", "/", "//", "a", "/a", "a/b", "a/b/", "./a", ".", "./", "a/.", "a/./b", "..", "../a",
        "/a//b", "a//", "//a", "a/b/.", "/a/b/./", "./.", "a/..", ".a/b", "/.", "x/./.",
    ];
    for p in cases.iter() {
        assert_eq!(parent_of(p), std_parent(p), "parent of {:?}", p);
    }
}

#[test]
fn parent_examples() {
    assert_eq!(parent_of("/Users/me/project/config.json"), Some("/Users/me/project".to_string()));
    assert_eq!(parent_of("/config.json"), Some("/".to_string()));
    assert_eq!(parent_of("config.json"), Some("".to_string()));
    assert_eq!(parent_of("/"), None);
    assert_eq!(parent_of(""), None);
}

#[test]
fn config_candidates_walk_up_to_the_root() {
    assert_eq!(
        next_config_candidate("/Users/me/project/create-rust-ios.config.json"),
        Some("/Users/me/create-rust-ios.config.json".to_string())
    );
    assert_eq!(
        next_config_candidate("/Users/create-rust-ios.config.json"),
        Some("/create-rust-ios.config.json".to_string())
    );
    assert_eq!(next_config_candidate("/create-rust-ios.config.json"), None);
    assert_eq!(next_config_candidate("a/c.json"), Some("c.json".to_string()));
    assert_eq!(next_config_candidate("c.json"), None);
    assert_eq!(next_config_candidate("/a/.."), None);
}

#[test]
fn config_candidates_match_std_path() {
    let cases = ["/a/b/c/f.json", "a/b/f.json", "/a/f.json", "/f.json", "./a/f.json", "a//b/./f.json"];
    for p in cases.iter() {
        let path = Path::new(p);
        let expected = path.file_name().and_then(|f| {
            path.parent()
                .and_then(|d| d.parent())
                .map(|g| g.join(f).to_str().unwrap().to_string())
        });
        assert_eq!(next_config_candidate(p), expected, "candidate after {:?}", p);
    }
}
