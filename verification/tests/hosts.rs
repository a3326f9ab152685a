use router::hosts::{host_base, host_names_in, read_host_names, HostFileError, HOST_FILE};

fn texts(names: &[&str]) -> Vec<String> {
    names.iter().map(|n| String::from(*n)).collect()
}

#[test]
fn the_host_file_has_its_name() {
    assert_eq!(HOST_FILE, "hosts.yaml");
}

#[test]
fn the_hosts_are_the_keys_in_the_order_of_the_file() {
    let text = "apphost:\n  hosts:\n    zeta.example:\n    10.0.0.2:\n    alpha.example:\n";
    assert_eq!(
        read_host_names(text).unwrap(),
        texts(&["zeta.example", "10.0.0.2", "alpha.example"])
    );
}

#[test]
fn the_values_of_the_hosts_are_not_read() {
    let text = "apphost:\n  hosts:\n    a: 1\n    b: [x, y]\n    c: {k: v}\nother: true\n";
    assert_eq!(read_host_names(text).unwrap(), texts(&["a", "b", "c"]));
}

#[test]
fn an_empty_mapping_gives_no_host() {
    assert_eq!(read_host_names("apphost:\n  hosts: {}\n").unwrap(), Vec::<String>::new());
}

#[test]
fn a_file_without_the_mapping_is_malformed() {
    for text in [
        "",
        "apphost:\n",
        "apphost:\n  hosts:\n",
        "apphost:\n  hosts: 3\n",
        "apphost:\n  hosts:\n    - a\n    - b\n",
        "hosts:\n  a:\n",
        "- apphost\n",
        "just text",
    ] {
        let error = read_host_names(text).unwrap_err();
        assert!(matches!(error, HostFileError::Malformed));
        assert_eq!(error.message(), "Failed to parse mapping from hosts.yaml");
    }
}

#[test]
fn a_host_that_is_no_string_is_malformed() {
    for text in [
        "apphost:\n  hosts:\n    a:\n    17:\n",
        "apphost:\n  hosts:\n    true:\n",
        "apphost:\n  hosts:\n    ~:\n",
        "apphost:\n  hosts:\n    [a, b]: x\n",
    ] {
        assert!(matches!(read_host_names(text).unwrap_err(), HostFileError::Malformed));
    }
}

#[test]
fn a_file_that_is_no_yaml_is_unparsable() {
    for text in ["apphost: [unclosed", "a: b: c: d\n  - x", "\"open", "apphost:\n\thosts:\n"] {
        let error = read_host_names(text).unwrap_err();
        assert!(matches!(error, HostFileError::Unparsable(_)));
        assert!(!error.message().is_empty());
    }
}

#[test]
fn text_keys_are_host_names() {
    let keys = vec![Some(String::from("a")), Some(String::from("")), Some(String::from("b c"))];
    assert_eq!(host_names_in(Some(&keys)).unwrap(), texts(&["a", "", "b c"]));
    assert_eq!(host_names_in(Some(&vec![])).unwrap(), Vec::<String>::new());
}

#[test]
fn one_key_that_is_no_text_spoils_the_list() {
    let keys = vec![Some(String::from("a")), None, Some(String::from("b"))];
    assert!(matches!(host_names_in(Some(&keys)), Err(HostFileError::Malformed)));
    assert!(matches!(host_names_in(Some(&vec![None])), Err(HostFileError::Malformed)));
}

#[test]
fn no_mapping_gives_no_list() {
    assert!(matches!(host_names_in(None), Err(HostFileError::Malformed)));
}

#[test]
fn the_base_of_a_host_is_its_address_over_http() {
    assert_eq!(host_base("10.0.0.5:8080"), Some(String::from("http://10.0.0.5:8080/")));
    assert_eq!(host_base("[::1]:3000"), Some(String::from("http://[::1]:3000/")));
    assert_eq!(host_base("example.org:8443"), Some(String::from("http://example.org:8443/")));
}

#[test]
fn the_default_port_is_left_out_of_the_base() {
    assert_eq!(host_base("10.0.0.5:80"), Some(String::from("http://10.0.0.5/")));
}

#[test]
fn an_address_that_is_none_has_no_base() {
    assert_eq!(host_base(""), None);
    assert_eq!(host_base("10.0.0.5:port"), None);
    assert_eq!(host_base("10.0.0.5:99999"), None);
    assert_eq!(host_base("[::1"), None);
}

#[test]
fn the_mapping_is_found_along_its_path_only() {
    for text in [
        "hosts:\n  apphost:\n    a:\n",
        "apphost:\n  other:\n    hosts:\n      a:\n",
        "outer:\n  apphost:\n    hosts:\n      a:\n",
        "apphost:\n  - hosts:\n      a:\n",
    ] {
        assert!(matches!(read_host_names(text).unwrap_err(), HostFileError::Malformed));
    }
    let text = "other:\n  hosts:\n    x:\napphost:\n  first: 1\n  hosts:\n    a:\n    b:\n";
    assert_eq!(read_host_names(text).unwrap(), texts(&["a", "b"]));
}
