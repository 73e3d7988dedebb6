use ecore_launcher::topology::parser::{
    format_cpu_list, interpret_core_type, parse_cpu_list, CoreTypeInterpretation,
    CoreTypeParseError, CpuListParseError,
};

#[test]
fn parses_supported_cpu_list_forms() {
    let cases = [
        ("0", vec![0]),
        ("0-3", vec![0, 1, 2, 3]),
        ("0-3,8-11", vec![0, 1, 2, 3, 8, 9, 10, 11]),
        ("0,2,4,6", vec![0, 2, 4, 6]),
        ("0-1,4,8-10", vec![0, 1, 4, 8, 9, 10]),
        ("  2,0-2,2  \n", vec![0, 1, 2]),
    ];

    for (input, expected) in cases {
        assert_eq!(parse_cpu_list(input), Ok(expected), "input: {input}");
    }
}

#[test]
fn rejects_malformed_cpu_lists() {
    assert_eq!(parse_cpu_list(""), Err(CpuListParseError::Empty));
    assert!(matches!(
        parse_cpu_list("0,,2"),
        Err(CpuListParseError::EmptyItem { .. })
    ));
    assert!(matches!(
        parse_cpu_list("3-1"),
        Err(CpuListParseError::DescendingRange { start: 3, end: 1 })
    ));
    assert!(matches!(
        parse_cpu_list("0-1-2"),
        Err(CpuListParseError::InvalidRange { .. })
    ));
    assert!(matches!(
        parse_cpu_list("0, 2"),
        Err(CpuListParseError::InvalidCpuId { .. })
    ));
    assert!(matches!(
        parse_cpu_list("cpu0"),
        Err(CpuListParseError::InvalidCpuId { .. })
    ));
    assert!(matches!(
        parse_cpu_list("0-2000000"),
        Err(CpuListParseError::RangeTooLarge { .. })
    ));
}

#[test]
fn formats_cpu_lists_compactly_and_deterministically() {
    assert_eq!(format_cpu_list(&vec![8, 2, 1, 0, 2, 10, 9, 4]), "0-2,4,8-10");
    assert_eq!(format_cpu_list(&vec![]), "");
}

#[test]
fn interprets_only_documented_intel_core_types() {
    assert_eq!(
        interpret_core_type("64"),
        Ok(CoreTypeInterpretation::Performance)
    );
    assert_eq!(
        interpret_core_type("0x20\n"),
        Ok(CoreTypeInterpretation::Efficiency)
    );
    assert_eq!(
        interpret_core_type("1"),
        Ok(CoreTypeInterpretation::Unsupported(1))
    );
    assert!(matches!(
        interpret_core_type("performance"),
        Err(CoreTypeParseError::Invalid { .. })
    ));
}

#[test]
fn formatted_lists_parse_back() {
    for cpus in [vec![0, 1, 2, 7], vec![5], vec![0, 2, 4], vec![100, 101]] {
        assert_eq!(parse_cpu_list(&format_cpu_list(&cpus)), Ok(cpus));
    }
}

#[test]
fn parse_errors_carry_what_was_read() {
    assert_eq!(
        parse_cpu_list("0,,2"),
        Err(CpuListParseError::EmptyItem { position: 1 })
    );
    assert_eq!(
        parse_cpu_list("0-1-2"),
        Err(CpuListParseError::InvalidRange { value: "0-1-2".to_owned() })
    );
    assert_eq!(
        parse_cpu_list("0-2000000"),
        Err(CpuListParseError::RangeTooLarge { start: 0, end: 2_000_000 })
    );
    assert_eq!(
        parse_cpu_list("0-1048575,2000000"),
        Err(CpuListParseError::TooManyCpuIds { limit: 1_048_576 })
    );
    assert_eq!(interpret_core_type(" \n"), Err(CoreTypeParseError::Empty));
    assert_eq!(
        interpret_core_type("fast"),
        Err(CoreTypeParseError::Invalid { value: "fast".to_owned() })
    );
}
