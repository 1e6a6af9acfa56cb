use meta::manifest::{check_manifest, compact, lay_out, retag, synchronize_manifest, ManifestError};
use meta::Version;

fn sync(doc: &str, v: Version) -> Result<String, ManifestError> {
    synchronize_manifest(&doc.as_bytes().to_vec(), &v).map(|b| String::from_utf8(b).unwrap())
}

const V123: Version = Version { major: 1, minor: 2, patch: 3 };

#[test]
fn compact_manifest_gets_version_and_layout() {
    let out = sync(r#"{"name":"test-package","version":"0.0.0"}"#, V123).unwrap();
    assert_eq!("{\n  \"name\": \"test-package\",\n  \"version\": \"1.2.3\"\n}\n", out);
}

#[test]
fn indented_manifest_gets_version() {
    let doc = "{\n  \"name\": \"test-package\",\n  \"version\": \"0.0.0\"\n}\n";
    let out = sync(doc, V123).unwrap();
    assert_eq!("{\n  \"name\": \"test-package\",\n  \"version\": \"1.2.3\"\n}\n", out);
}

#[test]
fn synchronizing_twice_is_identical() {
    let doc = "{ \"name\" : \"p\", \"version\": \"9.9.9\", \"deps\": {\"a\": [1, 2.5e3, true, null], \"b\": {}}, \"x\": [] }";
    let once = sync(doc, V123).unwrap();
    let twice = sync(&once, V123).unwrap();
    assert_eq!(once, twice);
}

#[test]
fn nested_values_are_laid_out() {
    let doc = r#"{"version":"0.1.0","scripts":{"build":"x, y: z"},"files":["a","b"],"e":{},"f":[]}"#;
    let out = sync(doc, Version { major: 2, minor: 0, patch: 10 }).unwrap();
    let expected = "{\n  \"version\": \"2.0.10\",\n  \"scripts\": {\n    \"build\": \"x, y: z\"\n  },\n  \"files\": [\n    \"a\",\n    \"b\"\n  ],\n  \"e\": {},\n  \"f\": []\n}\n";
    assert_eq!(expected, out);
}

#[test]
fn nested_version_is_left_alone() {
    let doc = r#"{"a":{"version":"5.5.5"},"version":1}"#;
    let out = sync(doc, V123).unwrap();
    assert_eq!(
        "{\n  \"a\": {\n    \"version\": \"5.5.5\"\n  },\n  \"version\": \"1.2.3\"\n}\n",
        out
    );
}

#[test]
fn missing_version_is_added() {
    assert_eq!(
        "{\n  \"name\": \"p\",\n  \"version\": \"1.2.3\"\n}\n",
        sync(r#"{"name":"p"}"#, V123).unwrap()
    );
    assert_eq!("{\n  \"version\": \"1.2.3\"\n}\n", sync("{}", V123).unwrap());
}

#[test]
fn invalid_documents_are_refused() {
    for doc in [
        "",
        "[]",
        "{",
        "{\"a\":}",
        "{\"a\":1,}",
        "{\"a\":1 2}",
        "{\"a\":tru}",
        "{\"a\":01}",
        "{\"a\":\"\\x\"}",
        "{\"a\":1} x",
        "{a:1}",
        "{\"a\":[1,]}",
        "{\"a\":\"line\nbreak\"}",
    ] {
        assert_eq!(Err(ManifestError::InvalidDocument), sync(doc, V123), "{:?}", doc);
    }
}

#[test]
fn checker_accepts_json() {
    for doc in [
        "{}",
        " {\"a\" : [ ] } \n",
        "{\"a\":-0.5e-7,\"b\":\"\\u00e9\\n\",\"c\":[false,null,{\"d\":10}]}",
    ] {
        assert!(check_manifest(&doc.as_bytes().to_vec()), "{:?}", doc);
    }
}

#[test]
fn compact_keeps_string_contents() {
    let out = compact(&b"{ \"a b\" :\t\"c \\\" d\" }".to_vec());
    assert_eq!(b"{\"a b\":\"c \\\" d\"}".to_vec(), out);
}

#[test]
fn retag_replaces_only_top_level_version() {
    let out = retag(&br#"{"version":{"x":[1]},"v":2}"#.to_vec(), &br#""3.0.0""#.to_vec());
    assert_eq!(br#"{"version":"3.0.0","v":2}"#.to_vec(), out);
}

#[test]
fn lay_out_empty_containers() {
    assert_eq!(b"{\n  \"a\": []\n}".to_vec(), lay_out(&br#"{"a":[]}"#.to_vec()));
}
