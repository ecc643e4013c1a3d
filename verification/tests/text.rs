use lumi_workbench::text::{
    chars_of, decimal_int_text, decimal_text, ends_with, parse_i64, parse_u64, same_text, split,
    trim_leading,
};

#[test]
fn characters_not_bytes() {
    assert_eq!(chars_of("a·月"), vec!['a', '·', '月']);
    assert!(chars_of("").is_empty());
}

#[test]
fn texts_compare_whole() {
    assert!(same_text("月蓝", "月蓝"));
    assert!(same_text("", ""));
    assert!(!same_text("a", "ab"));
    assert!(!same_text("ab", "aB"));
}

#[test]
fn leading_characters_go() {
    assert_eq!(trim_leading("vv1.v2", 'v'), "1.v2");
    assert_eq!(trim_leading("vvv", 'v'), "");
    assert_eq!(trim_leading("", 'v'), "");
    assert_eq!(trim_leading("月月a", '月'), "a");
}

#[test]
fn endings() {
    assert!(ends_with("setup.exe", ".exe"));
    assert!(ends_with("安装.msi", ".msi"));
    assert!(ends_with("abc", ""));
    assert!(!ends_with("exe", ".exe"));
    assert!(!ends_with("setup.exe.sig", ".exe"));
}

#[test]
fn pieces_between_separators() {
    assert_eq!(split("1.2.3", '.'), vec!["1", "2", "3"]);
    assert_eq!(split("", '.'), vec![""]);
    assert_eq!(split(".", '.'), vec!["", ""]);
    assert_eq!(split("月:蓝:", ':'), vec!["月", "蓝", ""]);
    for s in ["1.2.3", "", "..a.", "no dots", "月.蓝"] {
        let expected: Vec<String> = s.split('.').map(|p| p.to_string()).collect();
        assert_eq!(split(s, '.'), expected);
        assert_eq!(split(s, '.').join("."), s);
    }
}

#[test]
fn numbers_are_written() {
    assert_eq!(decimal_text(0), "0");
    assert_eq!(decimal_text(1700000000123), "1700000000123");
    assert_eq!(decimal_text(u128::MAX), u128::MAX.to_string());
    assert_eq!(decimal_int_text(-5), "-5");
    assert_eq!(decimal_int_text(2025), "2025");
    assert_eq!(decimal_int_text(i32::MIN), i32::MIN.to_string());
}

#[test]
fn numbers_are_read_as_the_standard_library_reads_them() {
    let texts = [
        "", "+", "-", "0", "007", "+7", "-7", "--7", "+-7", "-+7", " 7", "7 ", "1a", "٣",
        "18446744073709551615", "18446744073709551616", "9223372036854775807",
        "9223372036854775808", "-9223372036854775808", "-9223372036854775809",
        "00000000000000000000000000000000000000000000001",
    ];
    for t in texts {
        assert_eq!(parse_u64(t), t.parse::<u64>().ok(), "{t}");
        assert_eq!(parse_i64(t), t.parse::<i64>().ok(), "{t}");
    }
}

#[test]
fn decimal_form_is_read_back() {
    for n in [0u64, 9, 10, 99, 100, 12345, u64::MAX] {
        assert_eq!(parse_u64(&decimal_text(n as u128)), Some(n));
    }
}
