use oso::naming::{
    camel_case, crate_name, invalid_path_error, machine_const_name, path_variants,
    program_header_type_ident, try_collect,
};
use oso::strs::{join, split_chars};

#[test]
fn test_camel_case_conversion_logic() {
    let test_name = "oso_kernel_test";
    let camel_cased = camel_case(test_name);

    assert_eq!(camel_cased, "OsoKernelTest");
}

#[test]
fn test_camel_case_single_word() {
    let test_name = "kernel";
    let camel_cased = camel_case(test_name);

    assert_eq!(camel_cased, "Kernel");
}

#[test]
fn test_camel_case_empty_parts() {
    let test_name = "oso__kernel";
    let camel_cased = camel_case(test_name);

    assert_eq!(camel_cased, "OsoKernel");
}

#[test]
fn test_path_string_conversion() {
    let path = "/test/path";
    let name = crate_name(path);

    assert!(name.is_ok());
    assert_eq!(name.unwrap(), "path");
}

#[test]
fn from_path_buf_test_anyhow_error_creation() {
    let test_path = "/invalid/path";
    let error_msg = invalid_path_error(test_path);

    assert!(error_msg.contains("invalid path"));
    assert!(error_msg.contains("/invalid/path"));
}

#[test]
fn test_itertools_join_functionality() {
    let parts = vec!["Hello", "World", "Test"];
    let joined = join(&parts.iter().map(|s| s.to_string()).collect(), "");

    assert_eq!(joined, "HelloWorldTest");
}

#[test]
fn test_itertools_join_with_separator() {
    let parts = vec!["Hello", "World"];
    let joined = join(&parts.iter().map(|s| s.to_string()).collect(), "_");

    assert_eq!(joined, "Hello_World");
}

#[test]
fn split_then_join_gives_the_text_back() {
    let text: Vec<char> = "a_b__c_".chars().collect();
    let pieces: Vec<String> =
        split_chars(&text, '_').iter().map(|p| p.iter().collect::<String>()).collect();
    assert_eq!(pieces, vec!["a", "b", "", "c", ""]);
    assert_eq!(join(&pieces, "_"), "a_b__c_");
}

#[test]
fn join_of_nothing_is_empty() {
    assert_eq!(join(&Vec::new(), ", "), "");
    assert_eq!(join(&vec!["one".to_string()], ", "), "one");
}

#[test]
fn test_result_try_collect() {
    let results: Vec<Result<i32, &str>> = vec![Ok(1), Ok(2), Ok(3)];
    let collected: Result<Vec<i32>, &str> = try_collect(results);

    assert!(collected.is_ok());
    assert_eq!(collected.unwrap(), vec![1, 2, 3]);
}

#[test]
fn test_result_try_collect_with_error() {
    let results: Vec<Result<i32, &str>> = vec![Ok(1), Err("error"), Ok(3)];
    let collected: Result<Vec<i32>, &str> = try_collect(results);

    assert!(collected.is_err());
    assert_eq!(collected.unwrap_err(), "error");
}

#[test]
fn crate_name_follows_last_component() {
    assert_eq!(crate_name("/a/oso_kernel/").unwrap(), "oso_kernel");
    assert_eq!(crate_name("oso_loader").unwrap(), "oso_loader");
    assert_eq!(crate_name("/a/b/.").unwrap(), "b");
    assert!(crate_name("/a/..").is_err());
    assert!(crate_name("/").is_err());
    assert_eq!(crate_name("").unwrap_err(), "invalid path: \"\"");
}

#[test]
fn path_variants_pairs_paths_and_variants() {
    let paths = vec!["/w/oso_kernel".to_string(), "/w/oso_loader".to_string()];
    let v = path_variants(&paths).unwrap();
    assert_eq!(v, vec![
        ("/w/oso_kernel".to_string(), "OsoKernel".to_string()),
        ("/w/oso_loader".to_string(), "OsoLoader".to_string()),
    ]);
    let bad = vec!["/w/ok".to_string(), "/".to_string(), "..".to_string()];
    assert_eq!(path_variants(&bad).unwrap_err(), "invalid path: \"/\"");
}

#[test]
fn machine_constant_names() {
    assert_eq!(machine_const_name("Advanced Micro Devices X86-64"), "EM_ADVANCED_MICRO_DEVICES_X86-64");
    assert_eq!(machine_const_name("AArch64"), "EM_AARCH64");
}

#[test]
fn program_header_type_names() {
    assert_eq!(program_header_type_ident("LOAD"), "Load");
    assert_eq!(program_header_type_ident("GNU_STACK"), "GnuStack");
    assert_eq!(program_header_type_ident("GNU_EH_FRAME"), "GnuEhFrame");
}
