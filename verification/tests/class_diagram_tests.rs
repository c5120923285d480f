//! End-to-end diagram tests: Python source is parsed and resolved with the
//! ruff crates, reduced to the crate's plain class records, and rendered.

use pymermaider::class_diagram::ClassDiagram;
use pymermaider::semantic::{
    ClassDef, ClassStmt, KeywordArg, MethodDef, NameRef, ParamsDef, TypeExpr, ValueShape,
};

use ruff_python_ast as ast;
use ruff_python_ast::helpers::collect_import_from_member;
use ruff_python_ast::identifier::Identifier as _;
use ruff_python_ast::name::QualifiedName;
use ruff_python_ast::{Expr, Number, PySourceType, PythonVersion};
use ruff_python_codegen::{Generator, Stylist};
use ruff_python_parser::parse_unchecked_source;
use ruff_python_semantic::analyze::class::is_enumeration;
use ruff_python_semantic::analyze::visibility::{
    is_abstract, is_classmethod, is_final, is_overload, is_override, is_staticmethod,
};
use ruff_python_semantic::{
    BindingFlags, BindingId, BindingKind, FromImport, Import, Module, ModuleKind, ModuleSource,
    SemanticModel, StarImport, SubmoduleImport,
};
use ruff_python_stdlib::builtins::{python_builtins, MAGIC_GLOBALS};
use ruff_text_size::{Ranged, TextRange};
use std::path::Path;

/// A slimmed-down semantic checker: binds builtins, records imports, and
/// resolves qualified names, so the conversion below can ask it questions.
struct Checker<'a> {
    source: &'a str,
    stylist: &'a Stylist<'a>,
    semantic: SemanticModel<'a>,
}

impl<'a> Checker<'a> {
    fn new(source: &'a str, stylist: &'a Stylist<'a>, semantic: SemanticModel<'a>) -> Self {
        let mut checker = Self {
            source,
            stylist,
            semantic,
        };
        checker.bind_builtins();
        checker
    }

    fn bind_builtins(&mut self) {
        for builtin in python_builtins(u8::MAX, false).chain(MAGIC_GLOBALS.iter().copied()) {
            let binding_id = self.semantic.push_builtin();
            let scope = self.semantic.global_scope_mut();
            scope.add(builtin, binding_id);
        }
    }

    fn slice(&self, range: TextRange) -> &'a str {
        &self.source[range]
    }

    fn unparse(&self, expr: &Expr) -> String {
        Generator::new(self.stylist.indentation(), self.stylist.line_ending()).expr(expr)
    }

    fn add_binding(
        &mut self,
        name: &'a str,
        range: TextRange,
        kind: BindingKind<'a>,
        flags: BindingFlags,
    ) -> BindingId {
        // Imports always bind in the current (module) scope.
        let scope_id = self.semantic.scope_id;
        let binding_id = self.semantic.push_binding(name, range, kind, flags);

        if name.starts_with('_') {
            self.semantic.bindings[binding_id].flags |= BindingFlags::PRIVATE_DECLARATION;
        }

        if let Some(shadowed_id) = self.semantic.scopes[scope_id].get(name) {
            let shadowed = &self.semantic.bindings[shadowed_id];
            if !matches!(
                shadowed.kind,
                BindingKind::Builtin | BindingKind::Deletion | BindingKind::UnboundException(_)
            ) {
                let references = shadowed.references.clone();
                let is_global = shadowed.is_global();
                let is_nonlocal = shadowed.is_nonlocal();
                if is_global {
                    self.semantic.bindings[binding_id].flags |= BindingFlags::GLOBAL;
                }
                if is_nonlocal {
                    self.semantic.bindings[binding_id].flags |= BindingFlags::NONLOCAL;
                }
                self.semantic.bindings[binding_id].references = references;
            }
        }

        let scope = &mut self.semantic.scopes[scope_id];
        scope.add(name, binding_id);
        binding_id
    }

    fn see_imports(&mut self, stmts: &'a [ast::Stmt]) {
        for stmt in stmts {
            match stmt {
                ast::Stmt::Import(ast::StmtImport { names, .. }) => {
                    for alias in names {
                        let module = alias.name.split('.').next().unwrap();
                        self.semantic.add_module(module);

                        if alias.asname.is_none() && alias.name.contains('.') {
                            let qualified_name = QualifiedName::user_defined(&alias.name);
                            self.add_binding(
                                module,
                                alias.identifier(),
                                BindingKind::SubmoduleImport(SubmoduleImport {
                                    qualified_name: Box::new(qualified_name),
                                }),
                                BindingFlags::EXTERNAL,
                            );
                        } else {
                            let mut flags = BindingFlags::EXTERNAL;
                            if alias.asname.is_some() {
                                flags |= BindingFlags::ALIAS;
                            }
                            if alias
                                .asname
                                .as_ref()
                                .is_some_and(|asname| asname.as_str() == alias.name.as_str())
                            {
                                flags |= BindingFlags::EXPLICIT_EXPORT;
                            }
                            let name = alias.asname.as_ref().unwrap_or(&alias.name);
                            let qualified_name = QualifiedName::user_defined(&alias.name);
                            self.add_binding(
                                name,
                                alias.identifier(),
                                BindingKind::Import(Import {
                                    qualified_name: Box::new(qualified_name),
                                }),
                                flags,
                            );
                        }
                    }
                }
                ast::Stmt::ImportFrom(ast::StmtImportFrom {
                    names,
                    module,
                    level,
                    ..
                }) => {
                    let module = module.as_deref();
                    let level = *level;
                    if level == 0 {
                        if let Some(module) = module.and_then(|module| module.split('.').next()) {
                            self.semantic.add_module(module);
                        }
                    }
                    for alias in names {
                        if let Some("__future__") = module {
                            let name = alias.asname.as_ref().unwrap_or(&alias.name);
                            self.add_binding(
                                name,
                                alias.identifier(),
                                BindingKind::FutureImport,
                                BindingFlags::empty(),
                            );
                        } else if &alias.name == "*" {
                            self.semantic
                                .current_scope_mut()
                                .add_star_import(StarImport { level, module });
                        } else {
                            let mut flags = BindingFlags::EXTERNAL;
                            if alias.asname.is_some() {
                                flags |= BindingFlags::ALIAS;
                            }
                            if alias
                                .asname
                                .as_ref()
                                .is_some_and(|asname| asname.as_str() == alias.name.as_str())
                            {
                                flags |= BindingFlags::EXPLICIT_EXPORT;
                            }
                            let name = alias.asname.as_ref().unwrap_or(&alias.name);
                            let qualified_name =
                                collect_import_from_member(level, module, &alias.name);
                            self.add_binding(
                                name,
                                alias.identifier(),
                                BindingKind::FromImport(FromImport {
                                    qualified_name: Box::new(qualified_name),
                                }),
                                flags,
                            );
                        }
                    }
                }
                _ => {}
            }
        }
    }

    fn resolve(&self, expr: &Expr) -> Option<Vec<String>> {
        self.semantic
            .resolve_qualified_name(expr)
            .map(|q| q.segments().iter().map(|s| s.to_string()).collect())
    }

    fn name_ref(&self, expr: &Expr) -> NameRef {
        NameRef {
            text: self.slice(expr.range()).to_string(),
            resolved: self.resolve(expr),
        }
    }

    fn type_expr(&self, expr: &Expr) -> TypeExpr {
        let raw = self.slice(expr.range()).to_string();
        match expr {
            Expr::Name(_) => TypeExpr::Name(self.name_ref(expr)),
            Expr::Attribute(_) => TypeExpr::Attribute(self.name_ref(expr)),
            Expr::Subscript(sub) => TypeExpr::Subscript {
                value: self.name_ref(&sub.value),
                slice: Box::new(self.type_expr(&sub.slice)),
                raw,
            },
            Expr::Tuple(tuple) => TypeExpr::Tuple {
                elts: tuple.elts.iter().map(|e| self.type_expr(e)).collect(),
                raw,
            },
            Expr::BinOp(binop) => TypeExpr::BinOr {
                left: Box::new(self.type_expr(&binop.left)),
                right: Box::new(self.type_expr(&binop.right)),
                raw,
            },
            _ => TypeExpr::Other { raw },
        }
    }

    fn value_shape(&self, expr: &Expr) -> ValueShape {
        match expr {
            Expr::BoolOp(_) => ValueShape::BoolOp,
            Expr::BinOp(_) => ValueShape::BinOp,
            Expr::UnaryOp(_) => ValueShape::UnaryOp,
            Expr::Lambda(_) => ValueShape::Lambda,
            Expr::DictComp(_) => ValueShape::DictComp,
            Expr::Dict(_) => ValueShape::Dict,
            Expr::Set(_) => ValueShape::SetLit,
            Expr::SetComp(_) => ValueShape::SetComp,
            Expr::FString(_) => ValueShape::FString,
            Expr::StringLiteral(_) => ValueShape::StringLit,
            Expr::NoneLiteral(_) => ValueShape::NoneLit,
            Expr::BooleanLiteral(_) => ValueShape::BoolLit,
            Expr::BytesLiteral(_) => ValueShape::BytesLit,
            Expr::EllipsisLiteral(_) => ValueShape::EllipsisLit,
            Expr::ListComp(_) => ValueShape::ListComp,
            Expr::List(_) => ValueShape::List,
            Expr::Tuple(_) => ValueShape::TupleLit,
            Expr::NumberLiteral(inner) => match inner.value {
                Number::Int(_) => ValueShape::NumberInt,
                Number::Float(_) => ValueShape::NumberFloat,
                Number::Complex { .. } => ValueShape::NumberComplex,
            },
            _ => ValueShape::Other,
        }
    }

    fn class_stmt(&self, stmt: &ast::Stmt) -> ClassStmt {
        match stmt {
            ast::Stmt::AnnAssign(ast::StmtAnnAssign {
                target,
                annotation,
                simple,
                ..
            }) => {
                let target_name = match target.as_ref() {
                    Expr::Name(ast::ExprName { id, .. }) => Some(id.to_string()),
                    _ => None,
                };
                ClassStmt::AnnAssign {
                    target: target_name,
                    annotation_display: self.unparse(annotation),
                    annotation: self.type_expr(annotation),
                    simple: *simple,
                }
            }
            ast::Stmt::Assign(ast::StmtAssign { targets, value, .. }) => {
                let target_name = match targets.first() {
                    Some(Expr::Name(ast::ExprName { id, .. })) => Some(id.to_string()),
                    _ => None,
                };
                ClassStmt::Assign {
                    target: target_name,
                    value_shape: self.value_shape(value),
                }
            }
            ast::Stmt::FunctionDef(ast::StmtFunctionDef {
                name,
                is_async,
                parameters,
                returns,
                decorator_list,
                ..
            }) => {
                let params = ParamsDef {
                    posonlyargs: parameters
                        .posonlyargs
                        .iter()
                        .map(|p| p.parameter.name.to_string())
                        .collect(),
                    args: parameters
                        .args
                        .iter()
                        .map(|p| p.parameter.name.to_string())
                        .collect(),
                    vararg: parameters.vararg.as_ref().map(|p| p.name.to_string()),
                    kwonlyargs: parameters
                        .kwonlyargs
                        .iter()
                        .map(|p| p.parameter.name.to_string())
                        .collect(),
                    kwarg: parameters.kwarg.as_ref().map(|p| p.name.to_string()),
                };
                ClassStmt::FunctionDef(MethodDef {
                    name: name.to_string(),
                    is_async: *is_async,
                    parameters: params,
                    returns: returns.as_ref().map(|t| self.unparse(t)),
                    is_static: is_staticmethod(decorator_list, &self.semantic),
                    is_classmethod: is_classmethod(decorator_list, &self.semantic),
                    is_final: is_final(decorator_list, &self.semantic),
                    is_overload: is_overload(decorator_list, &self.semantic),
                    is_override: is_override(decorator_list, &self.semantic),
                    is_abstract: is_abstract(decorator_list, &self.semantic),
                })
            }
            _ => ClassStmt::Other,
        }
    }

    fn class_def(&self, class: &ast::StmtClassDef) -> ClassDef {
        let bases: Vec<TypeExpr> = class.bases().iter().map(|b| self.type_expr(b)).collect();
        let keywords: Vec<KeywordArg> = class
            .keywords()
            .iter()
            .map(|kw| KeywordArg {
                arg: kw.arg.as_ref().map(|a| a.to_string()),
                value: self.type_expr(&kw.value),
            })
            .collect();
        let decorators: Vec<NameRef> = class
            .decorator_list
            .iter()
            .map(|d| self.name_ref(&d.expression))
            .collect();
        ClassDef {
            name: class.name.to_string(),
            type_params: class
                .type_params
                .as_ref()
                .map(|tp| self.slice(tp.range()).to_string()),
            bases,
            keywords,
            decorators,
            is_enum: is_enumeration(class, &self.semantic),
            is_final_decorated: is_final(&class.decorator_list, &self.semantic),
            body: class.body.iter().map(|s| self.class_stmt(s)).collect(),
        }
    }
}

/// Parse one source unit and reduce its top-level classes to plain records.
fn class_defs_of(source: &str, path: &str) -> Vec<ClassDef> {
    let file = Path::new(path);
    let source_type = PySourceType::from(file);
    let parsed = parse_unchecked_source(source, source_type);
    let stylist = Stylist::from_tokens(parsed.tokens(), source);
    let python_ast = parsed.into_suite();

    let kind = if file.ends_with("__init__.py") {
        ModuleKind::Package
    } else {
        ModuleKind::Module
    };
    let module = Module {
        kind,
        source: ModuleSource::File(file),
        python_ast: &python_ast,
        name: None,
    };
    let semantic = SemanticModel::new(
        &[],
        &[],
        PythonVersion::default(),
        source_type,
        file,
        module,
    );
    let mut checker = Checker::new(source, &stylist, semantic);
    checker.see_imports(&python_ast);

    python_ast
        .iter()
        .filter_map(|stmt| match stmt {
            ast::Stmt::ClassDef(class) => Some(checker.class_def(class)),
            _ => None,
        })
        .collect()
}

fn add_source(diagram: &mut ClassDiagram, source: &str, path: &str) {
    for class in class_defs_of(source, path) {
        diagram.add_class(&class);
    }
}

fn test_diagram(source: &str, expected_output: &str) {
    let mut diagram = ClassDiagram::new();
    add_source(&mut diagram, source, "test.py");
    let output = diagram.render().unwrap_or_default();
    assert_eq!(output.trim(), expected_output.trim());
}

#[test]
fn tests_test_class_diagram_basic() {
    let source = "
class TestClass:
    def __init__(self, x: int, y: int) -> None:
        self.x = x
        self.y = y
    def add(self, x: int, y: int) -> int:
        return x + y
    def subtract(self, x: int, y: int) -> int:
        return x - y
";

    let expected_output = r"classDiagram
    class TestClass {
        - \_\_init__(self, x, y) None
        + add(self, x, y) int
        + subtract(self, x, y) int
    }
";

    test_diagram(source, expected_output);
}

#[test]
fn tests_test_class_diagram_raw_mermaid_has_no_fences() {
    let source = r#"
class TestClass:
    def add(self, x: int, y: int) -> int:
        return x + y
"#;

    let mut diagram = ClassDiagram::new();
    diagram.path = "example.py".to_string();
    add_source(&mut diagram, source, "example.py");

    let raw = diagram.render().unwrap_or_default();

    assert!(!raw.contains("```mermaid"));
    assert!(raw.contains("classDiagram"));
    assert!(raw.contains("class TestClass"));
}

#[test]
fn tests_test_class_diagram_generic_class() {
    let source = "
class Thing[T]: ...
";

    let expected_output = r#"classDiagram
    class Thing ~T~"#;

    test_diagram(source, expected_output);
}

#[test]
fn tests_test_class_diagram_generic_inner_class() {
    let source = "
class Thing(Inner[T]): ...
";

    let expected_output = r#"classDiagram
    class Thing

    Thing --|> Inner"#;

    test_diagram(source, expected_output);
}

#[test]
fn tests_test_class_diagram_generic() {
    let source = r#"
from typing import TypeVar, Generic
from abc import ABC
FancyType = TypeVar("FancyType")
class Thing(ABC, Generic[FancyType]): ...
"#;

    let expected_output = r#"classDiagram
    class Thing ~FancyType~ {
        <<abstract>>
    }"#;

    test_diagram(source, expected_output);
}

#[test]
fn tests_test_class_diagram_generic_class_multiple() {
    let source = "
class Thing[T, U, V]: ...
";

    let expected_output = r#"classDiagram
    class Thing ~T, U, V~"#;

    test_diagram(source, expected_output);
}

#[test]
fn tests_test_class_diagram_final() {
    let source = "
from typing import final
@final
class Thing: ...
";

    let expected_output = "classDiagram
    class Thing {
        <<final>>
    }
";

    test_diagram(source, expected_output);
}

#[test]
fn tests_test_class_diagram_ellipsis() {
    let source = "
class Thing: ...
";

    let expected_output = "classDiagram
    class Thing
";

    test_diagram(source, expected_output);
}

#[test]
fn tests_test_class_diagram_complex() {
    // this tests async, classmethod, args, return type
    let source = "
class Thing:
    @classmethod
    async def foo(cls, first, /, *second, kwarg: bool = True, **unpack_this) -> dict[str, str]: ...
";

    let expected_output = "classDiagram
    class Thing {
        + @classmethod async foo(cls, first, /, *second, kwarg, **unpack_this) dict[str, str]
    }
";

    test_diagram(source, expected_output);
}

#[test]
fn tests_test_dataclass() {
    let source = "
from dataclasses import dataclass

@dataclass
class Person:
    name: str
    age: int

    def greet(self) -> str:
        return f'Hello, I am {self.name}'
";

    let expected_output = "classDiagram
    class Person {
        <<dataclass>>
        + str name
        + int age
        + greet(self) str
    }
";

    test_diagram(source, expected_output);
}

#[test]
fn tests_test_protocol() {
    let source = "
from typing import Protocol

class Drawable(Protocol):
    def draw(self) -> None:
        ...

class Circle(Drawable):
    def draw(self) -> None:
        pass
";

    let expected_output = "classDiagram
    class Drawable {
        <<interface>>
        + draw(self) None
    }

    class Circle {
        + draw(self) None
    }

    Circle ..|> Drawable
";

    test_diagram(source, expected_output);
}

#[test]
fn tests_test_composition_relationships() {
    let source = "
class Engine:
    horsepower: int

class Wheel:
    diameter: int

class Car:
    engine: Engine
    wheels: list[Wheel]

    def drive(self) -> None:
        pass
";

    let expected_output = "classDiagram
    class Engine {
        + int horsepower
    }

    class Wheel {
        + int diameter
    }

    class Car {
        + Engine engine
        + list[Wheel] wheels
        + drive(self) None
    }

    Car *-- Engine

    Car *-- Wheel
";

    test_diagram(source, expected_output);
}

#[test]
fn test_composition_relationships_union_types() {
    let source = "
class Engine:
    horsepower: int

class Wheel:
    diameter: int

class Car:
    part: Engine | Wheel
";

    let expected_output = "classDiagram
    class Engine {
        + int horsepower
    }

    class Wheel {
        + int diameter
    }

    class Car {
        + Engine | Wheel part
    }

    Car *-- Engine

    Car *-- Wheel
";

    test_diagram(source, expected_output);
}

#[test]
fn tests_test_pydantic_example() {
    let source = "
from pydantic import BaseModel


class ItemBase(BaseModel):
    title: str
    description: str | None = None


class ItemCreate(ItemBase):
    pass


class Item(ItemBase):
    id: int
    owner_id: int

    class Config:
        orm_mode = True


class UserBase(BaseModel):
    email: str


class UserCreate(UserBase):
    password: str


class User(UserBase):
    id: int
    is_active: bool
    items: list[Item] = []

    class Config:
        orm_mode = True
";

    let expected_output = "classDiagram
    class ItemBase {
        + str title
        + str | None description
    }

    class Item {
        + int id
        + int owner_id
    }

    class ItemCreate

    class UserBase {
        + str email
    }

    class User {
        + int id
        + bool is_active
        + list[Item] items
    }

    class UserCreate {
        + str password
    }

    ItemBase --|> pydantic.BaseModel

    ItemCreate --|> ItemBase

    Item --|> ItemBase

    UserBase --|> pydantic.BaseModel

    UserCreate --|> UserBase

    User --|> UserBase

    User *-- Item
";

    test_diagram(source, expected_output);
}

#[test]
fn tests_test_class_diagram_unique_overloads() {
    let source = "
from typing import overload
class Thing:
    @overload
    def __init__(self, x: int, y: int) -> None: ...

    @overload
    def __init__(self, x: str, y: str) -> None: ...

    def __init__(self, x: int | str, y: int | str) -> None: ...
";

    let expected_output = r"classDiagram
    class Thing {
        - @overload \_\_init__(self, x, y) None
        - \_\_init__(self, x, y) None
    }
";

    test_diagram(source, expected_output);
}

#[test]
fn tests_test_class_diagram_object_base() {
    let source = "
class Thing(object): ...
";

    let expected_output = "classDiagram
    class Thing
";

    test_diagram(source, expected_output);
}

#[test]
fn tests_test_class_diagram_dundermagic_infer() {
    let source = "
class Thing:
    def __complex__(self): ...
    def __bytes__(self): ...
";

    let expected_output = r"classDiagram
    class Thing {
        - \_\_complex__(self) complex
        - \_\_bytes__(self) bytes
    }
";

    test_diagram(source, expected_output);
}

#[test]
fn tests_test_notimplemented() {
    let source = "
class Thing:
    def do_thing(self):
        raise NotImplementedError
";

    let expected_output = "classDiagram
    class Thing {
        + do_thing(self)
    }
";

    test_diagram(source, expected_output);
}

#[test]
fn tests_test_abstract_base_class() {
    let source = r#"
from abc import ABC, abstractmethod
class Thing(ABC):
    @abstractmethod
    def do_thing(self) -> None:
        """Must be implemented by subclasses"""
        pass
"#;
    let expected_output = "classDiagram
    class Thing {
        <<abstract>>
        + do_thing(self) None*
    }
";

    test_diagram(source, expected_output);
}

#[test]
fn tests_test_enum() {
    let source = "
from enum import Enum
class Color(Enum):
    RED = 1
    GREEN = 2
    BLUE = 3
";

    let expected_output = "classDiagram
    class Color {
        <<enumeration>>
        + int RED
        + int GREEN
        + int BLUE
    }
";

    test_diagram(source, expected_output);
}

#[test]
fn tests_test_staticmethod() {
    let source = "
class Thing:
    @staticmethod
    def static_method(x: int, y: int) -> int:
        return x + y
";
    let expected_output = "classDiagram
    class Thing {
        + @staticmethod static_method(x, y) int$
    }
";

    test_diagram(source, expected_output);
}

#[test]
fn tests_test_concrete_generic_base() {
    let source = r#"
from typing import TypeVar, Generic
IndexType = TypeVar("IndexType")

class Store(Generic[IndexType]):
    def insert(self, data) -> None:
        pass

class MemoryStore(Store[int]):
    def insert(self, data) -> None:
        self.storage.append(data)
"#;

    let expected_output = r#"classDiagram
    class Store ~IndexType~ {
        + insert(self, data) None
    }

    class MemoryStore {
        + insert(self, data) None
    }

    MemoryStore --|> Store"#;

    test_diagram(source, expected_output);
}

#[test]
fn tests_test_abstract_generic_inheritance() {
    let source = r#"
from typing import TypeVar, Generic
from abc import ABC, abstractmethod
IndexType = TypeVar("IndexType")

class Store(ABC, Generic[IndexType]):
    @abstractmethod
    def insert(self, data) -> None:
        pass

class MemoryStore(Store[int]):
    def insert(self, data) -> None:
        self.storage.append(data)
"#;

    let expected_output = r#"classDiagram
    class Store ~IndexType~ {
        <<abstract>>
        + insert(self, data) None*
    }

    class MemoryStore {
        + insert(self, data) None
    }

    MemoryStore ..|> Store"#;

    test_diagram(source, expected_output);
}

#[test]
fn tests_test_full_generics_example() {
    let source = r#"
from typing import TypeVar, Generic
from abc import ABC, abstractmethod
from datetime import datetime

IndexType = TypeVar("IndexType")
FancyStorage = TypeVar("FancyStorage")

class Store(ABC, Generic[IndexType]):
    @abstractmethod
    def insert(self, data) -> None:
        pass

class MemoryStore(Store[datetime]):
    def insert(self, data) -> None:
        self.storage.append(data)

class FancyStore(Store[datetime], Generic[FancyStorage]):
    def __init__(self, fancy_store: FancyStorage) -> None:
        self.storage = fancy_store

    def insert(self, data) -> None:
        self.storage.insert(data)
"#;

    let expected_output = r#"classDiagram
    class Store ~IndexType~ {
        <<abstract>>
        + insert(self, data) None*
    }

    class FancyStore ~FancyStorage~ {
        - \_\_init__(self, fancy_store) None
        + insert(self, data) None
    }

    class MemoryStore {
        + insert(self, data) None
    }

    MemoryStore ..|> Store

    FancyStore ..|> Store"#;

    test_diagram(source, expected_output);
}

#[test]
fn is_abstract_true_when_any_base_is_abc() {
    let source = r#"
from abc import ABC
class Mixin: ...
class Thing(ABC, Mixin): ...
"#;

    let classes = class_defs_of(source, "test.py");
    let thing = classes
        .iter()
        .find(|c| c.name == "Thing")
        .expect("expected Thing class");

    assert!(thing.is_abstract());
}

#[test]
fn is_abstract_false_when_no_bases_are_abc() {
    let source = r#"
class A: ...
class B: ...
class Thing(A, B): ...
"#;

    let classes = class_defs_of(source, "test.py");
    let thing = classes
        .iter()
        .find(|c| c.name == "Thing")
        .expect("expected Thing class");

    assert!(!thing.is_abstract());
}

#[test]
fn is_abstract_true_for_abc_abcmeta_metaclass() {
    let source = r#"
from abc import ABCMeta
class Mixin: ...
class Thing(Mixin, metaclass=ABCMeta): ...
"#;

    let classes = class_defs_of(source, "test.py");
    let thing = classes
        .iter()
        .find(|c| c.name == "Thing")
        .expect("expected Thing class");

    assert!(thing.is_abstract());
}

#[test]
fn rendering_same_diagram_twice_is_identical() {
    let source = "
from typing import Protocol

class Drawable(Protocol):
    def draw(self) -> None: ...

class Circle(Drawable):
    radius: int
";

    let mut diagram = ClassDiagram::new();
    add_source(&mut diagram, source, "test.py");
    let first = diagram.render().expect("diagram should render");
    let second = diagram.render().expect("diagram should render");
    assert_eq!(first, second);
}

#[test]
fn duplicate_class_keeps_first_members() {
    let source = "
class Thing:
    first: int

class Thing:
    second: str
";

    let expected_output = "classDiagram
    class Thing {
        + int first
    }
";

    test_diagram(source, expected_output);
}

#[test]
fn protocol_base_with_dataclass_decorator_is_interface() {
    let source = "
from typing import Protocol
from dataclasses import dataclass

@dataclass
class Thing(Protocol):
    x: int
";

    let expected_output = "classDiagram
    class Thing {
        <<interface>>
        + int x
    }
";

    test_diagram(source, expected_output);
}

#[test]
fn acyclic_base_precedes_subclass() {
    let source = "
class Base:
    x: int

class Derived(Base):
    y: int
";

    let output = {
        let mut diagram = ClassDiagram::new();
        add_source(&mut diagram, source, "test.py");
        diagram.render().unwrap_or_default()
    };
    let base_at = output.find("class Base").expect("Base block");
    let derived_at = output.find("class Derived").expect("Derived block");
    assert!(base_at < derived_at);
}

#[test]
fn method_with_return_annotation_renders_plus_line() {
    let source = "
class Thing:
    def foo(self) -> int:
        return 1
";

    let mut diagram = ClassDiagram::new();
    add_source(&mut diagram, source, "test.py");
    let output = diagram.render().expect("diagram should render");
    assert!(output.contains("+ foo(self) int"));
}

#[test]
fn abstract_method_markers_alone_classify_abstract() {
    let source = "
from abc import abstractmethod
class Thing:
    @abstractmethod
    def do_thing(self) -> None: ...
";

    let expected_output = "classDiagram
    class Thing {
        <<abstract>>
        + do_thing(self) None*
    }
";

    test_diagram(source, expected_output);
}

#[test]
fn cyclic_bases_still_render() {
    let source = "
class A(B):
    pass

class B(A):
    pass
";

    let mut diagram = ClassDiagram::new();
    add_source(&mut diagram, source, "test.py");
    let output = diagram.render().expect("diagram should render");
    assert!(output.contains("class A"));
    assert!(output.contains("class B"));
    assert!(output.contains("A --|> B"));
    assert!(output.contains("B --|> A"));
}
