use oso::status::Diag;
use std::mem;

#[test]
fn test_diag_enum_variants() {
    let err = Diag::Error("Error message".to_string());
    let warn = Diag::Warn("Warning message".to_string());
    let note = Diag::Note("Note message".to_string());
    let help = Diag::Help("Help message".to_string());

    match err {
        Diag::Error(msg) => assert_eq!(msg, "Error message"),
        _ => panic!("Should match Err variant"),
    }

    match warn {
        Diag::Warn(msg) => assert_eq!(msg, "Warning message"),
        _ => panic!("Should match Warn variant"),
    }

    match note {
        Diag::Note(msg) => assert_eq!(msg, "Note message"),
        _ => panic!("Should match Note variant"),
    }

    match help {
        Diag::Help(msg) => assert_eq!(msg, "Help message"),
        _ => panic!("Should match Help variant"),
    }
}

#[test]
fn test_diag_string_content() {
    let test_messages = vec![
        "Simple error",
        "Error with numbers: 123",
        "Error with special chars: !@#$%",
        "Multi-line\nerror\nmessage",
        "Unicode error: \u{1f980}",
        "",
    ];

    for msg in test_messages {
        let err = Diag::Error(msg.to_string());
        match err {
            Diag::Error(content) => assert_eq!(content, msg),
            _ => panic!("Should match Err variant"),
        }
    }
}

#[test]
fn test_diag_enum_size() {
    let size = std::mem::size_of::<Diag>();
    assert!(size > 0);
    assert!(size < 1000);
}

#[test]
fn test_diag_clone_if_possible() {
    let original = Diag::Error("Test error".to_string());

    let copy = Diag::Error("Test error".to_string());

    match (&original, &copy) {
        (Diag::Error(msg1), Diag::Error(msg2)) => assert_eq!(msg1, msg2),
        _ => panic!("Both should be Err variants"),
    }
}

#[test]
fn test_diag_debug_representation() {
    let diag = Diag::Error("Debug test".to_string());
    let debug_str = format!("{:?}", diag);

    assert!(debug_str.contains("Err"));
    assert!(debug_str.contains("Debug test"));
}

#[test]
fn test_diag_all_variants_different() {
    let err = Diag::Error("message".to_string());
    let warn = Diag::Warn("message".to_string());
    let note = Diag::Note("message".to_string());
    let help = Diag::Help("message".to_string());

    assert_ne!(mem::discriminant(&err), mem::discriminant(&warn));
    assert_ne!(mem::discriminant(&err), mem::discriminant(&note));
    assert_ne!(mem::discriminant(&err), mem::discriminant(&help));
    assert_ne!(mem::discriminant(&warn), mem::discriminant(&note));
    assert_ne!(mem::discriminant(&warn), mem::discriminant(&help));
    assert_ne!(mem::discriminant(&note), mem::discriminant(&help));
}

#[test]
fn test_diag_with_long_messages() {
    let long_message = "a".repeat(10000);
    let diag = Diag::Error(long_message.clone());

    match diag {
        Diag::Error(msg) => {
            assert_eq!(msg.len(), 10000);
            assert_eq!(msg, long_message);
        },
        _ => panic!("Should match Err variant"),
    }
}

#[test]
fn test_diag_message_modification() {
    let mut message = "Original message".to_string();
    let diag = Diag::Warn(message.clone());

    message.push_str(" - modified");

    match diag {
        Diag::Warn(msg) => assert_eq!(msg, "Original message"),
        _ => panic!("Should match Warn variant"),
    }
}

#[test]
fn test_diag_empty_messages() {
    let variants = vec![
        Diag::Error(String::new()),
        Diag::Warn(String::new()),
        Diag::Note(String::new()),
        Diag::Help(String::new()),
    ];

    for diag in variants {
        match diag {
            Diag::Error(msg) | Diag::Warn(msg) | Diag::Note(msg) | Diag::Help(msg) => {
                assert!(msg.is_empty());
            },
        }
    }
}

#[test]
fn test_diag_pattern_matching_exhaustive() {
    let test_diag = Diag::Note("Test".to_string());

    let result = match test_diag {
        Diag::Error(_) => "error",
        Diag::Warn(_) => "warning",
        Diag::Note(_) => "note",
        Diag::Help(_) => "help",
    };

    assert_eq!(result, "note");
}

#[test]
fn test_diag_with_special_characters() {
    let special_chars = vec![
        "\n\r\t",
        "\"quotes\"",
        "'single quotes'",
        "\\backslashes\\",
        "null\0char",
        "unicode: \u{3b1}\u{3b2}\u{3b3}\u{3b4}\u{3b5}",
        "emoji: \u{1f680}\u{1f980}\u{1f4bb}",
    ];

    for special in special_chars {
        let diag = Diag::Help(special.to_string());
        match diag {
            Diag::Help(msg) => assert_eq!(msg, special),
            _ => panic!("Should match Help variant"),
        }
    }
}

#[test]
fn test_diag_memory_efficiency() {
    let mut diags = Vec::new();

    for i in 0..1000 {
        let msg = format!("Message {}", i);
        diags.push(Diag::Error(msg));
    }

    assert_eq!(diags.len(), 1000);

    match &diags[0] {
        Diag::Error(msg) => assert_eq!(msg, "Message 0"),
        _ => panic!("Should be Err variant"),
    }

    match &diags[999] {
        Diag::Error(msg) => assert_eq!(msg, "Message 999"),
        _ => panic!("Should be Err variant"),
    }
}

#[test]
fn test_macro_definitions_exist() {
    assert!(true);
}

#[test]
fn test_string_operations_used_in_diag() {
    let base_msg = "Base message";

    let formatted = format!("Error: {}", base_msg);
    let diag = Diag::Error(formatted);

    match diag {
        Diag::Error(msg) => assert!(msg.contains("Error: Base message")),
        _ => panic!("Should be Err variant"),
    }
}

#[test]
fn test_diag_with_borrowed_vs_owned_strings() {
    let owned_string = "Owned string".to_string();
    let borrowed_str = "Borrowed string";

    let diag1 = Diag::Error(owned_string);
    let diag2 = Diag::Warn(borrowed_str.to_string());

    match diag1 {
        Diag::Error(msg) => assert_eq!(msg, "Owned string"),
        _ => panic!("Should be Err variant"),
    }

    match diag2 {
        Diag::Warn(msg) => assert_eq!(msg, "Borrowed string"),
        _ => panic!("Should be Warn variant"),
    }
}
