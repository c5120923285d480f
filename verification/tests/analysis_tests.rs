//! The analysis functions on hand-built records: base classification,
//! composition detection, generic-parameter extraction.

use pymermaider::class_diagram::ClassDiagram;
use pymermaider::class_type_detector::{detect_type, is_base_abstract_or_protocol};
use pymermaider::renderer::{parse_direction, ClassType, DiagramDirection};
use pymermaider::semantic::{ClassDef, ClassStmt, KeywordArg, MethodDef, NameRef, ParamsDef,
    TypeExpr, ValueShape};
use pymermaider::type_analyzer::{extract_composition_types, extract_generic_params};
use pymermaider::utils::is_abc_class;

fn name(text: &str, resolved: Option<&[&str]>) -> TypeExpr {
    TypeExpr::Name(NameRef {
        text: text.to_string(),
        resolved: resolved.map(|segments| segments.iter().map(|s| s.to_string()).collect()),
    })
}

#[test]
fn is_abc_class_sees_metaclass_keyword() {
    let bases = vec![name("Mixin", None)];
    let keywords = vec![KeywordArg {
        arg: Some("metaclass".to_string()),
        value: name("ABCMeta", Some(&["abc", "ABCMeta"])),
    }];
    assert!(is_abc_class(&bases, &keywords));

    let plain_keywords: Vec<KeywordArg> = vec![];
    assert!(!is_abc_class(&bases, &plain_keywords));
}

#[test]
fn is_abc_class_accepts_both_abc_markers_as_base() {
    let no_keywords: Vec<KeywordArg> = vec![];
    let abc_base = vec![name("ABC", Some(&["abc", "ABC"]))];
    assert!(is_abc_class(&abc_base, &no_keywords));

    let abcmeta_base = vec![name("ABCMeta", Some(&["abc", "ABCMeta"]))];
    assert!(is_abc_class(&abcmeta_base, &no_keywords));
}

#[test]
fn abstract_method_marker_makes_class_abstract() {
    let mut class = bare_class("Thing");
    class.body = vec![ClassStmt::FunctionDef(MethodDef {
        name: "do_thing".to_string(),
        is_async: false,
        parameters: ParamsDef {
            posonlyargs: vec![],
            args: vec!["self".to_string()],
            vararg: None,
            kwonlyargs: vec![],
            kwarg: None,
        },
        returns: None,
        is_static: false,
        is_classmethod: false,
        is_final: false,
        is_overload: false,
        is_override: false,
        is_abstract: true,
    })];
    assert_eq!(detect_type(&class), ClassType::Abstract);
}

#[test]
fn generic_params_come_from_generic_subscript() {
    let base = TypeExpr::Subscript {
        value: NameRef {
            text: "Generic".to_string(),
            resolved: Some(vec!["typing".to_string(), "Generic".to_string()]),
        },
        slice: Box::new(name("T", None)),
        raw: "Generic[T, U]".to_string(),
    };
    assert_eq!(extract_generic_params(&base), Some("T, U".to_string()));

    let plain = name("Base", None);
    assert_eq!(extract_generic_params(&plain), None);
}

#[test]
fn composition_skips_builtins_and_typing() {
    let engine = name("Engine", None);
    assert_eq!(extract_composition_types(&engine), vec!["Engine".to_string()]);

    let builtin = name("int", None);
    assert!(extract_composition_types(&builtin).is_empty());

    let typed = name("Optional", Some(&["typing", "Optional"]));
    assert!(extract_composition_types(&typed).is_empty());

    let imported = name("Engine", Some(&["parts", "Engine"]));
    assert_eq!(
        extract_composition_types(&imported),
        vec!["parts.Engine".to_string()]
    );
}

#[test]
fn composition_recurses_into_containers_and_unions() {
    let wrapped = TypeExpr::Subscript {
        value: NameRef {
            text: "list".to_string(),
            resolved: None,
        },
        slice: Box::new(name("Wheel", None)),
        raw: "list[Wheel]".to_string(),
    };
    assert_eq!(extract_composition_types(&wrapped), vec!["Wheel".to_string()]);

    let union = TypeExpr::BinOr {
        left: Box::new(name("Engine", None)),
        right: Box::new(name("Wheel", None)),
        raw: "Engine | Wheel".to_string(),
    };
    assert_eq!(
        extract_composition_types(&union),
        vec!["Engine".to_string(), "Wheel".to_string()]
    );
}

fn bare_class(name_text: &str) -> ClassDef {
    ClassDef {
        name: name_text.to_string(),
        type_params: None,
        bases: vec![],
        keywords: vec![],
        decorators: vec![],
        is_enum: false,
        is_final_decorated: false,
        body: vec![],
    }
}

#[test]
fn detect_type_precedence() {
    let mut protocol_dataclass = bare_class("Thing");
    protocol_dataclass.bases = vec![name("Protocol", Some(&["typing", "Protocol"]))];
    protocol_dataclass.decorators = vec![NameRef {
        text: "dataclass".to_string(),
        resolved: Some(vec!["dataclasses".to_string(), "dataclass".to_string()]),
    }];
    assert_eq!(detect_type(&protocol_dataclass), ClassType::Interface);

    let mut enum_class = bare_class("Color");
    enum_class.is_enum = true;
    assert_eq!(detect_type(&enum_class), ClassType::Enumeration);

    let mut final_class = bare_class("Sealed");
    final_class.is_final_decorated = true;
    assert_eq!(detect_type(&final_class), ClassType::Final);

    assert_eq!(detect_type(&bare_class("Plain")), ClassType::Regular);
}

#[test]
fn stdlib_markers_draw_dotted_arrows() {
    assert!(is_base_abstract_or_protocol(&name(
        "Sized",
        Some(&["typing", "Protocol"])
    )));
    assert!(is_base_abstract_or_protocol(&name("ABC", Some(&["abc", "ABC"]))));
    assert!(!is_base_abstract_or_protocol(&name("Base", None)));
}

#[test]
fn assignment_shapes_infer_display_types() {
    let mut class = bare_class("Color");
    class.is_enum = true;
    class.body = vec![
        ClassStmt::Assign {
            target: Some("RED".to_string()),
            value_shape: ValueShape::NumberInt,
        },
        ClassStmt::Assign {
            target: Some("NAMES".to_string()),
            value_shape: ValueShape::Other,
        },
    ];

    let mut diagram = ClassDiagram::new();
    diagram.add_class(&class);
    let output = diagram.render().expect("diagram should render");
    assert!(output.contains("+ int RED"));
    assert!(output.contains("+ Any NAMES"));
    assert!(output.contains("<<enumeration>>"));
}

#[test]
fn direction_names_parse_case_insensitively() {
    assert_eq!(parse_direction("rl"), Some(DiagramDirection::RL));
    assert_eq!(parse_direction("Bt"), Some(DiagramDirection::BT));
    assert_eq!(parse_direction("upwards"), None);
}

#[test]
fn non_default_direction_is_rendered() {
    let mut diagram = ClassDiagram::new();
    diagram.direction = DiagramDirection::LR;
    diagram.add_class(&bare_class("Thing"));
    let output = diagram.render().expect("diagram should render");
    assert!(output.starts_with("classDiagram\n    direction LR\n"));
}

#[test]
fn enum_bases_draw_no_arrows() {
    let mut class = bare_class("Color");
    class.is_enum = true;
    class.bases = vec![name("Enum", Some(&["enum", "Enum"]))];

    let mut diagram = ClassDiagram::new();
    diagram.add_class(&class);
    let output = diagram.render().expect("diagram should render");
    assert!(!output.contains("--|>"));
    assert!(!output.contains("..|>"));
}
