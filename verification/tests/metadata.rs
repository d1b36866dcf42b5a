use zen::metadata::{
    extract_json_string, normalize_package_name, parse_direct_url, parse_metadata,
    read_python_version, parse_requirement_name_and_spec, read_torch_version,
    python_version_of_dir, replace_hyphens,
};

fn s(x: &str) -> Option<String> {
    Some(x.to_string())
}

#[test]
fn normalizes_package_names() {
    assert_eq!(normalize_package_name("Tag-Detector"), "tag_detector");
    assert_eq!(normalize_package_name("tag_detector"), "tag_detector");
    assert_eq!(normalize_package_name("NumPy"), "numpy");
    assert_eq!(normalize_package_name(""), "");
    assert_eq!(replace_hyphens("a-b-c"), "a_b_c");
}

#[test]
fn reads_name_and_version_from_header() {
    let m = "Metadata-Version: 2.1\nName: torch\nVersion: 2.10.0\nSummary: x\n\nName: body\n";
    assert_eq!(parse_metadata(m), (s("torch"), s("2.10.0")));
}

#[test]
fn header_ends_at_first_blank_line() {
    let m = "Name: foo\n\nVersion: 1.0\n";
    assert_eq!(parse_metadata(m), (s("foo"), None));
    let m = "\nName: foo\nVersion: 1.0\n";
    assert_eq!(parse_metadata(m), (None, None));
}

#[test]
fn header_fields_far_down_are_found() {
    let mut m = String::from("Metadata-Version: 2.1\nName: protobuf\n");
    for _ in 0..40 {
        m.push_str("Classifier: Programming Language :: Python\n");
    }
    m.push_str("Version: 5.29.0\n");
    assert_eq!(parse_metadata(&m), (s("protobuf"), s("5.29.0")));
}

#[test]
fn header_with_crlf_line_ends() {
    assert_eq!(parse_metadata("Name: foo\r\nVersion: 1.0\r\n"), (s("foo"), s("1.0")));
}

#[test]
fn missing_fields_are_none() {
    assert_eq!(parse_metadata(""), (None, None));
    assert_eq!(parse_metadata("Version: 1\n"), (None, s("1")));
    assert_eq!(parse_metadata("name: lower\nVersion: 1\n"), (None, s("1")));
}

#[test]
fn extracts_json_strings() {
    let j = "{\"url\": \"https://github.com/x/y\", \"vcs_info\": {\"vcs\": \"git\", \"commit_id\": \"abc123\"}}";
    assert_eq!(extract_json_string(j, "url"), s("https://github.com/x/y"));
    assert_eq!(extract_json_string(j, "commit_id"), s("abc123"));
    assert_eq!(extract_json_string(j, "missing"), None);
    assert_eq!(extract_json_string("{\"url\": 5}", "url"), None);
    assert_eq!(extract_json_string("{\"url\": \"open", "url"), None);
}

#[test]
fn direct_url_git() {
    let j = "{\"url\": \"https://github.com/x/y\", \"vcs_info\": {\"vcs\": \"git\", \"commit_id\": \"abc123\"}}";
    assert_eq!(
        parse_direct_url(j),
        (s("git"), false, s("https://github.com/x/y"), s("abc123"))
    );
}

#[test]
fn direct_url_local_editable() {
    let j = "{\"dir_info\": {\"editable\": true}, \"url\": \"file:///home/u/proj\"}";
    assert_eq!(parse_direct_url(j), (s("local"), true, s("file:///home/u/proj"), None));
    let j = "{\"dir_info\":{\"editable\":true},\"url\":\"file:///p\"}";
    assert_eq!(parse_direct_url(j), (s("local"), true, s("file:///p"), None));
}

#[test]
fn direct_url_other_is_pypi() {
    assert_eq!(parse_direct_url("{}"), (s("pypi"), false, None, None));
    let j = "{\"url\": \"https://files.example/x.whl\"}";
    assert_eq!(parse_direct_url(j), (s("pypi"), false, s("https://files.example/x.whl"), None));
}

#[test]
fn splits_requirements() {
    let p = |r: &str| parse_requirement_name_and_spec(r);
    assert_eq!(p("numpy"), ("numpy".to_string(), String::new()));
    assert_eq!(p("numpy>=2,<3"), ("numpy".to_string(), ">=2,<3".to_string()));
    assert_eq!(p("numpy (>=1.0,<2.0)"), ("numpy".to_string(), ">=1.0,<2.0".to_string()));
    assert_eq!(p("requests[socks]>=2.0"), ("requests".to_string(), ">=2.0".to_string()));
    assert_eq!(p("requests[socks]"), ("requests".to_string(), String::new()));
    assert_eq!(p("  foo ~= 1.4 "), ("foo".to_string(), "~= 1.4".to_string()));
    assert_eq!(p("foo!=1.5"), ("foo".to_string(), "!=1.5".to_string()));
    assert_eq!(p("foo [extra] (==1.0)"), ("foo".to_string(), "==1.0".to_string()));
}

#[test]
fn reads_torch_version_py() {
    let t = "from typing import Optional\n__version__ = '2.10.0+cu130'\ndebug = False\ncuda: Optional[str] = '13.0'\ngit_version = 'abc'\n";
    assert_eq!(
        read_torch_version(t),
        Some(("2.10.0+cu130".to_string(), s("13.0")))
    );
    let t = "__version__ = \"2.5.1+cpu\"\ncuda = None\n";
    assert_eq!(read_torch_version(t), Some(("2.5.1+cpu".to_string(), None)));
    assert_eq!(read_torch_version("nothing here\n"), None);
    assert_eq!(read_torch_version("__version__\n"), None);
}

#[test]
fn reads_pyvenv_cfg() {
    let c = "home = /usr/bin\ninclude-system-site-packages = false\nversion = 3.12.1\n";
    assert_eq!(read_python_version(c), s("3.12.1"));
    assert_eq!(read_python_version("  version_info = 3.11.4.final.0\n"), s("3.11.4.final.0"));
    assert_eq!(read_python_version("home = /usr/bin\n"), None);
    assert_eq!(read_python_version("version\n"), None);
}

#[test]
fn python_version_from_directory_name() {
    assert_eq!(python_version_of_dir("python3.12"), "3.12");
    assert_eq!(python_version_of_dir("python3.8"), "3.8");
    assert_eq!(python_version_of_dir("pypy3"), "3.12");
    assert_eq!(python_version_of_dir(""), "3.12");
    assert_eq!(python_version_of_dir("python"), "3.12");
    assert_eq!(python_version_of_dir("python3.x"), "3.12");
    assert_eq!(python_version_of_dir("python-3.9"), "3.12");
    assert_eq!(python_version_of_dir("python3.9.1.2"), "3.12");
    assert_eq!(python_version_of_dir("python3.13t"), "3.12");
    assert_eq!(python_version_of_dir("python3"), "3");
    assert_eq!(python_version_of_dir("python3.11.4"), "3.11.4");
}
