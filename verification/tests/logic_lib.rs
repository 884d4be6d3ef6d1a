use oso::readelf::program::program_headers_count;
use std::path::PathBuf;
use oso::font;
use oso::naming;
use oso::readelf::header;
use oso::readelf::program;
use oso::status;

type Rslt<T> = anyhow::Result<T>;

#[test]
fn test_module_visibility() {
    let _ = (font::CHARACTER_COUNT, header::first_word_string, program::readelf_l);
    let _ = (naming::camel_case, status::StatusCodeInfo::error_bit);
    assert!(true);
}

#[test]
fn test_anyhow_result_alias() {
    fn test_function() -> Rslt<i32> {
        Ok(42)
    }

    let result = test_function();
    assert!(result.is_ok());
    assert_eq!(result.unwrap(), 42);
}

#[test]
fn lib_test_anyhow_error_creation() {
    let error = anyhow::Error::msg("Test error message");
    let error_string = error.to_string();
    assert!(error_string.contains("Test error message"));
}

#[test]
fn test_crate_features() {
    assert!(true);
}

#[test]
fn test_error_propagation() {
    fn failing_function() -> Rslt<()> {
        program_headers_count("no count here\n\n").map_err(|e| anyhow::Error::msg(format!("{e:?}")))?;
        Ok(())
    }

    let result = failing_function();
    match result {
        Ok(_) => assert!(true),
        Err(_) => assert!(true),
    }
}

#[test]
fn test_path_join_functionality() {
    let base = PathBuf::from("/tmp");
    let joined = base.join("target/oso_kernel.elf");

    assert!(joined.to_string_lossy().contains("target"));
    assert!(joined.to_string_lossy().contains("oso_kernel.elf"));
}
