//! Rendering of hand-built diagram values, plus the small analysis and
//! formatting helpers.

use pymermaider::class_helpers::QualifiedNameHelpers;
use pymermaider::mermaid_renderer::{render_class, render_diagram, render_header,
    render_relationship, render_composition};
use pymermaider::output_format::{format_output, OutputFormat};
use pymermaider::renderer::{Attribute, ClassNode, ClassType, CompositionEdge, Diagram,
    DiagramDirection, MethodSignature, RelationType, RelationshipEdge, Visibility};
use pymermaider::type_analyzer::is_builtin_type;
use std::str::FromStr;

fn person() -> ClassNode {
    ClassNode {
        name: "Person".to_string(),
        type_params: None,
        class_type: ClassType::Regular,
        attributes: vec![Attribute {
            name: "name".to_string(),
            type_annotation: "str".to_string(),
            visibility: Visibility::Public,
        }],
        methods: vec![MethodSignature {
            name: "greet".to_string(),
            parameters: "self".to_string(),
            return_type: Some("str".to_string()),
            visibility: Visibility::Public,
            is_static: false,
            is_abstract: false,
            is_async: false,
            decorators: vec![],
        }],
    }
}

#[test]
fn test_render_simple_class() {
    let class = person();

    let output = render_class(&class);
    assert!(output.contains("class Person"));
    assert!(output.contains("+ str name"));
    assert!(output.contains("+ greet(self) str"));
}

#[test]
fn test_render_relationship() {
    let rel = RelationshipEdge {
        from: "Dog".to_string(),
        to: "Animal".to_string(),
        relation_type: RelationType::Inheritance,
    };

    let output = render_relationship(&rel);
    assert!(output.contains("Dog --|> Animal"));
}

#[test]
fn test_builtin_types_constant() {
    assert!(is_builtin_type("int"));
    assert!(is_builtin_type("str"));
    assert!(!is_builtin_type("MyClass"));
}

#[test]
fn format_output_md_wraps() {
    let md = format_output(OutputFormat::Md, "classDiagram\n  class A\n");
    assert!(md.starts_with("```mermaid\n"));
    assert!(md.contains("classDiagram"));
    assert!(md.ends_with("```\n"));
}

#[test]
fn format_output_mmd_is_raw() {
    let mmd = format_output(OutputFormat::Mmd, "classDiagram\n  class A\n");
    assert!(!mmd.contains("```mermaid"));
    assert!(mmd.contains("classDiagram"));
    assert!(mmd.ends_with('\n'));
}

#[test]
fn output_format_extensions() {
    assert_eq!(OutputFormat::Md.extension(), "md");
    assert_eq!(OutputFormat::Mmd.extension(), "mmd");
}

#[test]
fn empty_regular_class_has_no_brace_body() {
    let class = ClassNode {
        name: "Bare".to_string(),
        type_params: None,
        class_type: ClassType::Regular,
        attributes: vec![],
        methods: vec![],
    };
    let output = render_class(&class);
    assert_eq!(output, "    class Bare\n\n");
}

#[test]
fn generic_class_header_uses_tildes() {
    let class = ClassNode {
        name: "Thing".to_string(),
        type_params: Some("T".to_string()),
        class_type: ClassType::Regular,
        attributes: vec![],
        methods: vec![],
    };
    let output = render_class(&class);
    assert_eq!(output, "    class Thing ~T~\n\n");
}

#[test]
fn composition_edge_uses_star_arrow() {
    let comp = CompositionEdge {
        container: "Car".to_string(),
        contained: "Engine".to_string(),
    };
    let output = render_composition(&comp);
    assert_eq!(output, "    Car *-- Engine\n");
}

#[test]
fn implementation_edge_is_dotted() {
    let rel = RelationshipEdge {
        from: "Circle".to_string(),
        to: "Drawable".to_string(),
        relation_type: RelationType::Implementation,
    };
    let output = render_relationship(&rel);
    assert_eq!(output, "    Circle ..|> Drawable\n");
}

#[test]
fn header_includes_title_and_direction() {
    let header = render_header(Some("example.py"), DiagramDirection::LR);
    assert_eq!(header, "---\ntitle: example.py\n---\nclassDiagram\n    direction LR\n\n");
    let plain = render_header(None, DiagramDirection::TB);
    assert_eq!(plain, "classDiagram\n");
}

#[test]
fn render_diagram_of_empty_diagram_is_none() {
    let diagram = Diagram::new();
    assert!(render_diagram(&diagram, None, DiagramDirection::TB).is_none());
}

#[test]
fn render_diagram_dedups_relationships() {
    let mut diagram = Diagram::new();
    diagram.add_class(person());
    for _ in 0..2 {
        diagram.add_relationship(RelationshipEdge {
            from: "Person".to_string(),
            to: "Base".to_string(),
            relation_type: RelationType::Inheritance,
        });
    }
    let output = render_diagram(&diagram, None, DiagramDirection::TB).expect("non-empty");
    assert_eq!(output.matches("Person --|> Base").count(), 1);
}

#[test]
fn render_diagram_orders_dependencies_first() {
    let mut diagram = Diagram::new();
    for name in ["Zebra", "Apple"] {
        diagram.add_class(ClassNode {
            name: name.to_string(),
            type_params: None,
            class_type: ClassType::Regular,
            attributes: vec![],
            methods: vec![],
        });
    }
    diagram.add_relationship(RelationshipEdge {
        from: "Apple".to_string(),
        to: "Zebra".to_string(),
        relation_type: RelationType::Inheritance,
    });
    let output = render_diagram(&diagram, None, DiagramDirection::TB).expect("non-empty");
    let zebra_at = output.find("class Zebra").expect("Zebra block");
    let apple_at = output.find("class Apple").expect("Apple block");
    assert!(zebra_at < apple_at);
}

#[test]
fn duplicate_class_nodes_keep_first() {
    let mut diagram = Diagram::new();
    diagram.add_class(ClassNode {
        name: "Thing".to_string(),
        type_params: None,
        class_type: ClassType::Regular,
        attributes: vec![Attribute {
            name: "first".to_string(),
            type_annotation: "int".to_string(),
            visibility: Visibility::Public,
        }],
        methods: vec![],
    });
    diagram.add_class(ClassNode {
        name: "Thing".to_string(),
        type_params: None,
        class_type: ClassType::Regular,
        attributes: vec![Attribute {
            name: "second".to_string(),
            type_annotation: "str".to_string(),
            visibility: Visibility::Public,
        }],
        methods: vec![],
    });
    let output = render_diagram(&diagram, None, DiagramDirection::TB).expect("non-empty");
    assert!(output.contains("+ int first"));
    assert!(!output.contains("+ str second"));
}

#[test]
fn abstract_classifier_beats_static() {
    let class = ClassNode {
        name: "Thing".to_string(),
        type_params: None,
        class_type: ClassType::Abstract,
        attributes: vec![],
        methods: vec![MethodSignature {
            name: "run".to_string(),
            parameters: "self".to_string(),
            return_type: None,
            visibility: Visibility::Public,
            is_static: true,
            is_abstract: true,
            is_async: false,
            decorators: vec![],
        }],
    };
    let output = render_class(&class);
    assert!(output.contains("+ run(self)*"));
    assert!(!output.contains('$'));
}

#[test]
fn normalize_name_wraps_special_characters() {
    assert_eq!("Inner[T]".normalize_name(), "`Inner[T]`");
    assert_eq!("plain_name-2".normalize_name(), "plain_name-2");
}

#[test]
fn direction_parsing_accepts_lowercase() {
    assert_eq!(DiagramDirection::from_str("lr"), Ok(DiagramDirection::LR));
    assert_eq!(DiagramDirection::from_str("TB"), Ok(DiagramDirection::TB));
    assert!(DiagramDirection::from_str("sideways").is_err());
}
