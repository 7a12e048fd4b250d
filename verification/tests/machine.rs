use ijssel::machine::{optimisation_level, CodeGenFileType, OptimisationLevel, OutputKind};
use ijssel::text::same_text;

#[test]
fn output_kind_from_its_name() {
    assert_eq!(OutputKind::from_name("object"), OutputKind::Object);
    assert_eq!(OutputKind::from_name("asm"), OutputKind::Assembly);
    assert_eq!(OutputKind::from_name("tokens"), OutputKind::Tokens);
    assert_eq!(OutputKind::from_name("ast"), OutputKind::Ast);
    assert_eq!(OutputKind::from_name("bc"), OutputKind::Bitcode);
    assert_eq!(OutputKind::from_name("ll"), OutputKind::Ir);
    assert_eq!(OutputKind::from_name("exe"), OutputKind::Object);
    assert_eq!(OutputKind::from_name(""), OutputKind::Object);
    assert_eq!(OutputKind::from_name("ASM"), OutputKind::Object);
}

#[test]
fn extension_of_the_default_output() {
    assert_eq!(OutputKind::Assembly.extension(), "s");
    assert_eq!(OutputKind::Bitcode.extension(), "bc");
    assert_eq!(OutputKind::Object.extension(), "o");
    assert_eq!(OutputKind::Tokens.extension(), "o");
    assert_eq!(OutputKind::Ast.extension(), "o");
    assert_eq!(OutputKind::Ir.extension(), "o");
}

#[test]
fn file_type_asked_of_the_code_generator() {
    assert_eq!(OutputKind::Assembly.file_type(), CodeGenFileType::AssemblyFile);
    assert_eq!(OutputKind::Object.file_type(), CodeGenFileType::ObjectFile);
    assert_eq!(OutputKind::Bitcode.file_type(), CodeGenFileType::ObjectFile);
}

#[test]
fn debug_builds_are_not_optimised() {
    assert_eq!(optimisation_level(true), OptimisationLevel::Disabled);
    assert_eq!(optimisation_level(false), OptimisationLevel::Aggressive);
}

#[test]
fn same_text_compares_character_by_character() {
    assert!(same_text("", ""));
    assert!(same_text("asm", "asm"));
    assert!(!same_text("asm", "as"));
    assert!(!same_text("asm", "asn"));
    assert!(!same_text("a", ""));
}
