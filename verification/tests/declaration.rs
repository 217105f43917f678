use bin2hpp::{generate_src_for_array, generate_src_for_string, LineEnding};

#[test]
fn array_without_namespace() {
    let out = generate_src_for_array("0x41,0x42", 2, "sym", None, LineEnding::Lf);
    assert_eq!(
        out,
        "#include <array>\n#include <cstdint>\nconstexpr std::array<std::uint8_t,2> sym{0x41,0x42};\n"
    );
}

#[test]
fn array_with_namespace() {
    let out = generate_src_for_array("0x1", 1, "data", Some(String::from("ns")), LineEnding::Lf);
    assert_eq!(
        out,
        "#include <array>\n#include <cstdint>\nnamespace ns{constexpr std::array<std::uint8_t,1> data{0x1};}\n"
    );
}

#[test]
fn array_with_carriage_returns() {
    let out = generate_src_for_array("0x1", 1, "data", Some(String::from("ns")), LineEnding::CrLf);
    assert_eq!(
        out,
        "#include <array>\r\n#include <cstdint>\r\nnamespace ns{constexpr std::array<std::uint8_t,1> data{0x1};}\r\n"
    );
}

#[test]
fn array_of_nothing_has_size_zero() {
    let out = generate_src_for_array("", 0, "empty", None, LineEnding::Lf);
    assert_eq!(
        out,
        "#include <array>\n#include <cstdint>\nconstexpr std::array<std::uint8_t,0> empty{};\n"
    );
}

#[test]
fn array_size_is_decimal() {
    for len in [0usize, 9, 10, 11, 99, 100, 255, 256, 4096, 12345, 1_000_000] {
        let out = generate_src_for_array("", len, "a", None, LineEnding::Lf);
        assert_eq!(
            out,
            format!("#include <array>\n#include <cstdint>\nconstexpr std::array<std::uint8_t,{}> a{{}};\n", len)
        );
    }
}

#[test]
fn array_size_may_be_the_largest_usize() {
    let out = generate_src_for_array("", usize::MAX, "a", None, LineEnding::Lf);
    assert_eq!(
        out,
        format!("#include <array>\n#include <cstdint>\nconstexpr std::array<std::uint8_t,{}> a{{}};\n", usize::MAX)
    );
}

#[test]
fn array_has_two_includes_and_one_final_terminator() {
    let out = generate_src_for_array("0x0", 1, "sym", None, LineEnding::Lf);
    assert_eq!(out.matches("#include").count(), 2);
    assert_eq!(out.matches('\n').count(), 3);
    assert!(out.ends_with(";\n"));
}

#[test]
fn string_without_namespace() {
    let out = generate_src_for_string("AB", "sym", None, LineEnding::Lf);
    assert_eq!(out, "constexpr const char* sym = \"AB\";\n");
}

#[test]
fn string_with_namespace() {
    let out = generate_src_for_string("AB", "sym", Some(String::from("ns")), LineEnding::Lf);
    assert_eq!(out, "namespace ns{constexpr const char* sym = \"AB\";}\n");
}

#[test]
fn string_with_carriage_returns() {
    let out = generate_src_for_string("AB", "sym", None, LineEnding::CrLf);
    assert_eq!(out, "constexpr const char* sym = \"AB\";\r\n");
    let out = generate_src_for_string("AB", "sym", Some(String::from("ns")), LineEnding::CrLf);
    assert_eq!(out, "namespace ns{constexpr const char* sym = \"AB\";}\r\n");
}

#[test]
fn string_of_nothing() {
    let out = generate_src_for_string("", "sym", None, LineEnding::Lf);
    assert_eq!(out, "constexpr const char* sym = \"\";\n");
}

#[test]
fn string_has_no_includes() {
    let out = generate_src_for_string("AB", "sym", Some(String::from("ns")), LineEnding::Lf);
    assert!(!out.contains("#include"));
    assert_eq!(out.matches('\n').count(), 1);
}

#[test]
fn namespace_opens_before_and_closes_after_the_constant() {
    let constant = "constexpr const char* sym = \"AB\";";
    let out = generate_src_for_string("AB", "sym", Some(String::from("ns")), LineEnding::Lf);
    let open = out.find("namespace ns{").unwrap();
    let at = out.find(constant).unwrap();
    assert_eq!(open + "namespace ns{".len(), at);
    assert_eq!(&out[at + constant.len()..], "}\n");

    let constant = "constexpr std::array<std::uint8_t,1> sym{0x0};";
    let out = generate_src_for_array("0x0", 1, "sym", Some(String::from("ns")), LineEnding::Lf);
    let open = out.find("namespace ns{").unwrap();
    let at = out.find(constant).unwrap();
    assert_eq!(open + "namespace ns{".len(), at);
    assert_eq!(&out[at + constant.len()..], "}\n");
}

#[test]
fn no_namespace_no_wrapper() {
    let out = generate_src_for_string("AB", "sym", None, LineEnding::Lf);
    assert!(!out.contains("namespace"));
    assert!(!out.contains('{'));
    assert!(!out.contains('}'));
    let out = generate_src_for_array("0x0", 1, "sym", None, LineEnding::Lf);
    assert!(!out.contains("namespace"));
    assert_eq!(out.matches('{').count(), 1);
    assert_eq!(out.matches('}').count(), 1);
}

#[test]
fn names_are_passed_through_as_they_are() {
    let out = generate_src_for_string("x", "not an identifier!", Some(String::from("a::b c")), LineEnding::Lf);
    assert_eq!(out, "namespace a::b c{constexpr const char* not an identifier! = \"x\";}\n");
    let out = generate_src_for_string("x", "", Some(String::new()), LineEnding::Lf);
    assert_eq!(out, "namespace {constexpr const char*  = \"x\";}\n");
}

#[test]
fn line_ending_as_str() {
    assert_eq!(LineEnding::Lf.as_str(), "\n");
    assert_eq!(LineEnding::CrLf.as_str(), "\r\n");
}
