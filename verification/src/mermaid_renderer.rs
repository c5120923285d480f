//! Serialization of a [`Diagram`] into Mermaid class-diagram text.
//!
//! Every function's output is pinned down, character for character, by a
//! spec function over the diagram's mathematical value.

use crate::mermaid_escape::{escape_underscores_spec, MermaidEscape};
use crate::renderer::{Attribute, AttributeV, ClassNode, ClassNodeV, ClassType, CompositionEdge,
    CompositionEdgeV, Diagram, DiagramDirection, DiagramV, MethodSignature, MethodSignatureV,
    RelationType, RelationshipEdge, RelationshipEdgeV, Visibility};
use crate::text::{push_char, str_eq, trim_end, trim_end_spec};
use crate::topo_order::topo_classes;
use vstd::prelude::*;

verus! {

/// `level` copies of the four-space tab.
pub open spec fn indent_spec(level: nat) -> Seq<char>
    decreases level,
{
    if level == 0 {
        Seq::<char>::empty()
    } else {
        indent_spec((level - 1) as nat) + "    "@
    }
}

fn indent(indent_level: usize) -> (r: String)
    ensures
        r@ == indent_spec(indent_level as nat),
{
    let mut out = String::new();
    let mut i: usize = 0;
    while i < indent_level
        invariant
            0 <= i <= indent_level,
            out@ == indent_spec(i as nat),
        decreases indent_level - i,
    {
        out.append("    ");
        i = i + 1;
    }
    out
}

/// The symbol that precedes a member of the given visibility.
pub open spec fn visibility_char(visibility: Visibility) -> char {
    match visibility {
        Visibility::Public => '+',
        Visibility::Private => '-',
        Visibility::Protected => '#',
    }
}

pub fn format_visibility(visibility: Visibility) -> (r: char)
    ensures
        r == visibility_char(visibility),
{
    match visibility {
        Visibility::Public => '+',
        Visibility::Private => '-',
        Visibility::Protected => '#',
    }
}

/// The stereotype line for a class kind; `Regular` has none.
pub open spec fn class_type_annotation(class_type: ClassType) -> Option<Seq<char>> {
    match class_type {
        ClassType::Regular => None,
        ClassType::Abstract => Some("<<abstract>>"@),
        ClassType::Interface => Some("<<interface>>"@),
        ClassType::Enumeration => Some("<<enumeration>>"@),
        ClassType::Dataclass => Some("<<dataclass>>"@),
        ClassType::Final => Some("<<final>>"@),
    }
}

pub fn format_class_type(class_type: ClassType) -> (r: Option<&'static str>)
    ensures
        match r {
            Some(s) => class_type_annotation(class_type) == Some(s@),
            None => class_type_annotation(class_type) is None,
        },
{
    match class_type {
        ClassType::Regular => None,
        ClassType::Abstract => Some("<<abstract>>"),
        ClassType::Interface => Some("<<interface>>"),
        ClassType::Enumeration => Some("<<enumeration>>"),
        ClassType::Dataclass => Some("<<dataclass>>"),
        ClassType::Final => Some("<<final>>"),
    }
}

/// A class block gets a brace body exactly when it shows anything: a
/// member or a stereotype.
pub open spec fn has_body_spec(c: ClassNodeV) -> bool {
    c.attributes.len() > 0 || c.methods.len() > 0 || c.class_type != ClassType::Regular
}

pub fn has_class_body(class: &ClassNode) -> (r: bool)
    ensures
        r == has_body_spec(class@),
{
    class.attributes.len() > 0 || class.methods.len() > 0 || !(matches!(
        class.class_type,
        ClassType::Regular,
    ))
}

/// The stereotype line: indentation, the annotation, a newline.
pub open spec fn class_annotation_spec(inner_indent: Seq<char>, class_type: ClassType) -> Seq<
    char,
> {
    match class_type_annotation(class_type) {
        Some(annotation) => inner_indent + annotation + "\n"@,
        None => Seq::<char>::empty(),
    }
}

pub fn render_class_annotation(output: &mut String, inner_indent: &str, class_type: ClassType)
    ensures
        final (output)@ == old(output)@ + class_annotation_spec(inner_indent@, class_type),
{
    if let Some(annotation) = format_class_type(class_type) {
        output.append(inner_indent);
        output.append(annotation);
        output.append("\n");
    }
    proof {
        assert(output@ =~= old(output)@ + class_annotation_spec(inner_indent@, class_type));
    }
}

/// One attribute line: `<visibility> <type> <escaped name>`.
pub open spec fn attribute_line_spec(inner_indent: Seq<char>, attr: AttributeV) -> Seq<char> {
    inner_indent + seq![visibility_char(attr.visibility)] + " "@ + attr.type_annotation + " "@
        + escape_underscores_spec(attr.name) + "\n"@
}

pub fn render_attribute(output: &mut String, inner_indent: &str, attr: &Attribute)
    ensures
        final (output)@ == old(output)@ + attribute_line_spec(inner_indent@, attr@),
{
    output.append(inner_indent);
    push_char(output, format_visibility(attr.visibility));
    push_char(output, ' ');
    output.append(attr.type_annotation.as_str());
    push_char(output, ' ');
    let escaped = attr.name.as_str().escape_underscores();
    output.append(escaped.as_str());
    output.append("\n");
    proof {
        reveal_strlit(" ");
        assert((" ")@ =~= seq![' ']);
        assert(output@ =~= old(output)@ + attribute_line_spec(inner_indent@, attr@));
    }
}

/// The decorators of a method, each followed by one space.
pub open spec fn decorators_spec(decorators: Seq<Seq<char>>) -> Seq<char>
    decreases decorators.len(),
{
    if decorators.len() == 0 {
        Seq::<char>::empty()
    } else {
        decorators_spec(decorators.drop_last()) + decorators.last() + " "@
    }
}

/// One method line: visibility, decorators, `async`, the escaped name, the
/// parameter list, the return type, and a classifier (`*` abstract wins
/// over `$` static).
pub open spec fn method_line_spec(inner_indent: Seq<char>, m: MethodSignatureV) -> Seq<char> {
    inner_indent + seq![visibility_char(m.visibility)] + " "@ + decorators_spec(m.decorators) + (
    if m.is_async {
        "async "@
    } else {
        Seq::<char>::empty()
    }) + escape_underscores_spec(m.name) + "("@ + m.parameters + ")"@ + (match m.return_type {
        Some(rt) => " "@ + rt,
        None => Seq::<char>::empty(),
    }) + (if m.is_abstract {
        "*"@
    } else if m.is_static {
        "$"@
    } else {
        Seq::<char>::empty()
    }) + "\n"@
}

#[verifier::rlimit(60)]
pub fn render_method(output: &mut String, inner_indent: &str, method: &MethodSignature)
    ensures
        final (output)@ == old(output)@ + method_line_spec(inner_indent@, method@),
{
    output.append(inner_indent);
    push_char(output, format_visibility(method.visibility));
    push_char(output, ' ');

    let ghost base = output@;
    let n = method.decorators.len();
    let mut i: usize = 0;
    while i < n
        invariant
            0 <= i <= n,
            n == method.decorators.len(),
            output@ == base + decorators_spec(method@.decorators.take(i as int)),
        decreases n - i,
    {
        output.append(method.decorators[i].as_str());
        output.append(" ");
        proof {
            let taken = method@.decorators.take(i + 1);
            assert(taken.drop_last() =~= method@.decorators.take(i as int));
            assert(taken.last() == method@.decorators[i as int]);
            assert(method@.decorators[i as int] == method.decorators@[i as int]@);
            assert(output@ =~= base + decorators_spec(taken));
        }
        i = i + 1;
    }
    proof {
        assert(method@.decorators.take(n as int) =~= method@.decorators);
    }

    if method.is_async {
        output.append("async ");
    }
    let escaped = method.name.as_str().escape_underscores();
    output.append(escaped.as_str());
    output.append("(");
    output.append(method.parameters.as_str());
    output.append(")");

    if let Some(return_type) = &method.return_type {
        output.append(" ");
        output.append(return_type.as_str());
    }

    if method.is_abstract {
        output.append("*");
    } else if method.is_static {
        output.append("$");
    }

    output.append("\n");
    proof {
        reveal_strlit(" ");
        assert((" ")@ =~= seq![' ']);
        assert(output@ =~= old(output)@ + method_line_spec(inner_indent@, method@));
    }
}

/// The arrow drawn for a relationship kind.
pub open spec fn relationship_symbol_spec(relation_type: RelationType) -> Seq<char> {
    match relation_type {
        RelationType::Inheritance => "--|>"@,
        RelationType::Implementation => "..|>"@,
    }
}

pub fn render_relationship_symbol(relation_type: RelationType) -> (r: &'static str)
    ensures
        r@ == relationship_symbol_spec(relation_type),
{
    match relation_type {
        RelationType::Inheritance => "--|>",
        RelationType::Implementation => "..|>",
    }
}

/// The text of a direction statement.
pub open spec fn direction_str_spec(direction: DiagramDirection) -> Seq<char> {
    match direction {
        DiagramDirection::TB => "TB"@,
        DiagramDirection::BT => "BT"@,
        DiagramDirection::LR => "LR"@,
        DiagramDirection::RL => "RL"@,
    }
}

/// The header: an optional title block, the `classDiagram` keyword, and a
/// direction statement when the direction is not the default.
pub open spec fn header_spec(title: Option<Seq<char>>, direction: DiagramDirection) -> Seq<
    char,
> {
    (match title {
        Some(t) => "---\n"@ + "title: "@ + t + "\n"@ + "---\n"@,
        None => Seq::<char>::empty(),
    }) + "classDiagram\n"@ + (if direction != DiagramDirection::TB {
        indent_spec(1) + "direction "@ + direction_str_spec(direction) + "\n\n"@
    } else {
        Seq::<char>::empty()
    })
}

pub fn render_header(title: Option<&str>, direction: DiagramDirection) -> (r: String)
    ensures
        r@ == header_spec(
            match title {
                Some(t) => Some(t@),
                None => None,
            },
            direction,
        ),
{
    let mut output = String::new();

    if let Some(t) = title {
        output.append("---\n");
        output.append("title: ");
        output.append(t);
        output.append("\n");
        output.append("---\n");
    }

    output.append("classDiagram\n");

    if !(matches!(direction, DiagramDirection::TB)) {
        let ind = indent(1);
        output.append(ind.as_str());
        output.append("direction ");
        output.append(direction.as_str());
        output.append("\n\n");
    }
    proof {
        assert(output@ =~= header_spec(
            match title {
                Some(t) => Some(t@),
                None => None,
            },
            direction,
        ));
    }
    output
}

impl DiagramDirection {
    /// The two-letter name of the direction.
    pub fn as_str(&self) -> (r: &'static str)
        ensures
            r@ == direction_str_spec(*self),
    {
        match self {
            DiagramDirection::TB => "TB",
            DiagramDirection::BT => "BT",
            DiagramDirection::LR => "LR",
            DiagramDirection::RL => "RL",
        }
    }
}

/// The attribute lines of a class body, in declaration order.
pub open spec fn attributes_spec(inner_indent: Seq<char>, attrs: Seq<AttributeV>) -> Seq<char>
    decreases attrs.len(),
{
    if attrs.len() == 0 {
        Seq::<char>::empty()
    } else {
        attributes_spec(inner_indent, attrs.drop_last()) + attribute_line_spec(
            inner_indent,
            attrs.last(),
        )
    }
}

/// The method lines of a class body, in declaration order.
pub open spec fn methods_spec(inner_indent: Seq<char>, methods: Seq<MethodSignatureV>) -> Seq<
    char,
>
    decreases methods.len(),
{
    if methods.len() == 0 {
        Seq::<char>::empty()
    } else {
        methods_spec(inner_indent, methods.drop_last()) + method_line_spec(
            inner_indent,
            methods.last(),
        )
    }
}

/// One class block: the header line, an optional `~params~` suffix, and —
/// only when the class shows anything — a brace body holding the
/// stereotype, the attributes and the methods. Two newlines close the
/// block.
pub open spec fn class_block_spec(c: ClassNodeV) -> Seq<char> {
    indent_spec(1) + "class "@ + c.name + (match c.type_params {
        Some(tp) => " ~"@ + tp + "~"@,
        None => Seq::<char>::empty(),
    }) + (if has_body_spec(c) {
        " {\n"@ + class_annotation_spec(indent_spec(2), c.class_type) + attributes_spec(
            indent_spec(2),
            c.attributes,
        ) + methods_spec(indent_spec(2), c.methods) + indent_spec(1) + "}"@
    } else {
        Seq::<char>::empty()
    }) + "\n\n"@
}

#[verifier::rlimit(100)]
pub fn render_class(class: &ClassNode) -> (r: String)
    ensures
        r@ == class_block_spec(class@),
{
    let mut output = String::new();
    let outer_indent = indent(1);
    let inner_indent = indent(2);

    output.append(outer_indent.as_str());
    output.append("class ");
    output.append(class.name.as_str());

    if let Some(type_params) = &class.type_params {
        output.append(" ~");
        output.append(type_params.as_str());
        output.append("~");
    }

    if has_class_body(class) {
        output.append(" {\n");

        render_class_annotation(&mut output, inner_indent.as_str(), class.class_type);

        let ghost attr_base = output@;
        let na = class.attributes.len();
        let mut i: usize = 0;
        while i < na
            invariant
                0 <= i <= na,
                na == class.attributes.len(),
                inner_indent@ == indent_spec(2),
                output@ == attr_base + attributes_spec(
                    indent_spec(2),
                    class@.attributes.take(i as int),
                ),
            decreases na - i,
        {
            render_attribute(&mut output, inner_indent.as_str(), &class.attributes[i]);
            proof {
                let taken = class@.attributes.take(i + 1);
                assert(taken.drop_last() =~= class@.attributes.take(i as int));
                assert(taken.last() == class@.attributes[i as int]);
                assert(class@.attributes[i as int] == class.attributes@[i as int]@);
                assert(output@ =~= attr_base + attributes_spec(indent_spec(2), taken));
            }
            i = i + 1;
        }
        proof {
            assert(class@.attributes.take(na as int) =~= class@.attributes);
        }

        let ghost method_base = output@;
        let nm = class.methods.len();
        let mut j: usize = 0;
        while j < nm
            invariant
                0 <= j <= nm,
                nm == class.methods.len(),
                inner_indent@ == indent_spec(2),
                output@ == method_base + methods_spec(
                    indent_spec(2),
                    class@.methods.take(j as int),
                ),
            decreases nm - j,
        {
            render_method(&mut output, inner_indent.as_str(), &class.methods[j]);
            proof {
                let taken = class@.methods.take(j + 1);
                assert(taken.drop_last() =~= class@.methods.take(j as int));
                assert(taken.last() == class@.methods[j as int]);
                assert(class@.methods[j as int] == class.methods@[j as int]@);
                assert(output@ =~= method_base + methods_spec(indent_spec(2), taken));
            }
            j = j + 1;
        }
        proof {
            assert(class@.methods.take(nm as int) =~= class@.methods);
        }

        output.append(outer_indent.as_str());
        output.append("}");
    }

    output.append("\n\n");
    proof {
        assert(output@ =~= class_block_spec(class@));
    }
    output
}

/// One relationship line: `<from> <arrow> <to>`.
pub open spec fn relationship_line_spec(r: RelationshipEdgeV) -> Seq<char> {
    indent_spec(1) + r.from + " "@ + relationship_symbol_spec(r.relation_type) + " "@ + r.to
        + "\n"@
}

pub fn render_relationship(relationship: &RelationshipEdge) -> (r: String)
    ensures
        r@ == relationship_line_spec(relationship@),
{
    let mut output = indent(1);
    output.append(relationship.from.as_str());
    output.append(" ");
    output.append(render_relationship_symbol(relationship.relation_type));
    output.append(" ");
    output.append(relationship.to.as_str());
    output.append("\n");
    proof {
        assert(output@ =~= relationship_line_spec(relationship@));
    }
    output
}

/// One composition line: `<container> *-- <contained>`.
pub open spec fn composition_line_spec(c: CompositionEdgeV) -> Seq<char> {
    indent_spec(1) + c.container + " *-- "@ + c.contained + "\n"@
}

pub fn render_composition(composition: &CompositionEdge) -> (r: String)
    ensures
        r@ == composition_line_spec(composition@),
{
    let mut output = indent(1);
    output.append(composition.container.as_str());
    output.append(" *-- ");
    output.append(composition.contained.as_str());
    output.append("\n");
    proof {
        assert(output@ =~= composition_line_spec(composition@));
    }
    output
}

/// A sequence with later repetitions of earlier elements removed.
pub open spec fn dedup_seq<T>(s: Seq<T>) -> Seq<T>
    decreases s.len(),
{
    if s.len() == 0 {
        Seq::<T>::empty()
    } else {
        let prefix = dedup_seq(s.drop_last());
        if s.drop_last().contains(s.last()) {
            prefix
        } else {
            prefix.push(s.last())
        }
    }
}

/// Removing repetitions keeps exactly the same elements.
pub proof fn lemma_dedup_seq_contains<T>(s: Seq<T>)
    ensures
        forall|x: T| #[trigger] dedup_seq(s).contains(x) <==> s.contains(x),
    decreases s.len(),
{
    if s.len() > 0 {
        lemma_dedup_seq_contains(s.drop_last());
        let prefix = dedup_seq(s.drop_last());
        assert forall|x: T| #[trigger] dedup_seq(s).contains(x) implies s.contains(x) by {
            if s.drop_last().contains(s.last()) {
                assert(prefix.contains(x));
                assert(s.drop_last().contains(x));
                let j = choose|j: int| 0 <= j < s.drop_last().len() && s.drop_last()[j] == x;
                assert(s[j] == x);
            } else {
                let j = choose|j: int| 0 <= j < dedup_seq(s).len() && dedup_seq(s)[j] == x;
                if j < prefix.len() {
                    assert(prefix.contains(x));
                    assert(s.drop_last().contains(x));
                    let k = choose|k: int|
                        0 <= k < s.drop_last().len() && s.drop_last()[k] == x;
                    assert(s[k] == x);
                } else {
                    assert(x == s.last());
                    assert(s[s.len() - 1] == x);
                }
            }
        }
        assert forall|x: T| s.contains(x) implies #[trigger] dedup_seq(s).contains(x) by {
            let j = choose|j: int| 0 <= j < s.len() && s[j] == x;
            if j < s.len() - 1 {
                assert(s.drop_last()[j] == x);
                assert(s.drop_last().contains(x));
                assert(prefix.contains(x));
                let k = choose|k: int| 0 <= k < prefix.len() && prefix[k] == x;
                assert(dedup_seq(s)[k] == x);
            } else {
                assert(x == s.last());
                if s.drop_last().contains(s.last()) {
                    assert(prefix.contains(x));
                    let k = choose|k: int| 0 <= k < prefix.len() && prefix[k] == x;
                    assert(dedup_seq(s)[k] == x);
                } else {
                    assert(dedup_seq(s).last() == x);
                }
            }
        }
    }
}

/// The first `k` relationship lines, a blank line after each but the last.
pub open spec fn relationship_lines_upto(s: Seq<RelationshipEdgeV>, k: int) -> Seq<char>
    decreases k,
{
    if k <= 0 {
        Seq::<char>::empty()
    } else {
        relationship_lines_upto(s, k - 1) + relationship_line_spec(s[k - 1]) + (if k < s.len() {
            "\n"@
        } else {
            Seq::<char>::empty()
        })
    }
}

/// The first `k` composition lines, a blank line after each but the last.
pub open spec fn composition_lines_upto(s: Seq<CompositionEdgeV>, k: int) -> Seq<char>
    decreases k,
{
    if k <= 0 {
        Seq::<char>::empty()
    } else {
        composition_lines_upto(s, k - 1) + composition_line_spec(s[k - 1]) + (if k < s.len() {
            "\n"@
        } else {
            Seq::<char>::empty()
        })
    }
}

/// The class blocks of the render order, concatenated.
pub open spec fn class_blocks_spec(cs: Seq<ClassNodeV>) -> Seq<char>
    decreases cs.len(),
{
    if cs.len() == 0 {
        Seq::<char>::empty()
    } else {
        class_blocks_spec(cs.drop_last()) + class_block_spec(cs.last())
    }
}

/// The complete text of a non-empty diagram: header, class blocks in
/// topological order, deduplicated relationship lines, deduplicated
/// composition lines; trailing whitespace trimmed and one final newline.
/// An empty diagram renders as nothing.
pub open spec fn render_diagram_spec(
    d: DiagramV,
    title: Option<Seq<char>>,
    direction: DiagramDirection,
) -> Option<Seq<char>> {
    if d.is_empty() {
        None
    } else {
        let urels = dedup_seq(d.relationships);
        let ucomps = dedup_seq(d.compositions);
        let body = header_spec(title, direction) + class_blocks_spec(topo_classes(d))
            + relationship_lines_upto(urels, urels.len() as int) + (if ucomps.len() > 0
            && urels.len() > 0 {
            "\n"@
        } else {
            Seq::<char>::empty()
        }) + composition_lines_upto(ucomps, ucomps.len() as int);
        Some(trim_end_spec(body) + "\n"@)
    }
}

/// Whether two relationship edges carry the same names and kind.
fn relationship_eq(a: &RelationshipEdge, b: &RelationshipEdge) -> (r: bool)
    ensures
        r == (a@ == b@),
{
    let r = str_eq(a.from.as_str(), b.from.as_str()) && str_eq(a.to.as_str(), b.to.as_str())
        && a.relation_type == b.relation_type;
    proof {
        if a@.from == b@.from && a@.to == b@.to && a@.relation_type == b@.relation_type {
            assert(a@ == b@);
        }
    }
    r
}

/// Whether two composition edges carry the same names.
fn composition_eq(a: &CompositionEdge, b: &CompositionEdge) -> (r: bool)
    ensures
        r == (a@ == b@),
{
    let r = str_eq(a.container.as_str(), b.container.as_str()) && str_eq(
        a.contained.as_str(),
        b.contained.as_str(),
    );
    proof {
        if a@.container == b@.container && a@.contained == b@.contained {
            assert(a@ == b@);
        }
    }
    r
}

fn contains_relationship(v: &Vec<&RelationshipEdge>, e: &RelationshipEdge) -> (r: bool)
    ensures
        r == v@.map_values(|x: &RelationshipEdge| x@).contains(e@),
{
    let ghost vv = v@.map_values(|x: &RelationshipEdge| x@);
    let n = v.len();
    let mut i: usize = 0;
    while i < n
        invariant
            0 <= i <= n,
            n == v.len(),
            vv == v@.map_values(|x: &RelationshipEdge| x@),
            forall|j: int| 0 <= j < i ==> vv[j] != e@,
        decreases n - i,
    {
        if relationship_eq(v[i], e) {
            proof {
                assert(vv[i as int] == e@);
            }
            return true;
        }
        i = i + 1;
    }
    false
}

fn contains_composition(v: &Vec<&CompositionEdge>, e: &CompositionEdge) -> (r: bool)
    ensures
        r == v@.map_values(|x: &CompositionEdge| x@).contains(e@),
{
    let ghost vv = v@.map_values(|x: &CompositionEdge| x@);
    let n = v.len();
    let mut i: usize = 0;
    while i < n
        invariant
            0 <= i <= n,
            n == v.len(),
            vv == v@.map_values(|x: &CompositionEdge| x@),
            forall|j: int| 0 <= j < i ==> vv[j] != e@,
        decreases n - i,
    {
        if composition_eq(v[i], e) {
            proof {
                assert(vv[i as int] == e@);
            }
            return true;
        }
        i = i + 1;
    }
    false
}

/// Render a full Mermaid class diagram.
pub fn render_diagram(diagram: &Diagram, title: Option<&str>, direction: DiagramDirection) -> (r:
    Option<String>)
    ensures
        match r {
            Some(text) => render_diagram_spec(
                diagram@,
                match title {
                    Some(t) => Some(t@),
                    None => None,
                },
                direction,
            ) == Some(text@),
            None => render_diagram_spec(
                diagram@,
                match title {
                    Some(t) => Some(t@),
                    None => None,
                },
                direction,
            ) is None,
        },
{
    if diagram.is_empty() {
        return None;
    }

    let mut output = render_header(title, direction);

    let sorted = diagram.classes_topologically_sorted_unique();
    let ghost sortedv = sorted@.map_values(|c: &ClassNode| c@);
    let ghost class_base = output@;
    let ns = sorted.len();
    let mut i: usize = 0;
    proof {
        assert(sortedv.take(0) =~= Seq::<ClassNodeV>::empty());
    }
    while i < ns
        invariant
            0 <= i <= ns,
            ns == sorted.len(),
            sorted@.map_values(|c: &ClassNode| c@) == sortedv,
            output@ == class_base + class_blocks_spec(sortedv.take(i as int)),
        decreases ns - i,
    {
        let block = render_class(sorted[i]);
        output.append(block.as_str());
        proof {
            let taken = sortedv.take(i + 1);
            assert(taken.drop_last() =~= sortedv.take(i as int));
            assert(taken.last() == sortedv[i as int]);
            assert(sortedv[i as int] == sorted@[i as int]@);
            assert(output@ =~= class_base + class_blocks_spec(taken));
        }
        i = i + 1;
    }
    proof {
        assert(sortedv.take(ns as int) =~= sortedv);
    }

    let mut unique_relationships: Vec<&RelationshipEdge> = Vec::new();
    let nr = diagram.relationships.len();
    let mut k: usize = 0;
    proof {
        assert(unique_relationships@.map_values(|x: &RelationshipEdge| x@) =~= dedup_seq(
            diagram@.relationships.take(0),
        ));
    }
    while k < nr
        invariant
            0 <= k <= nr,
            nr == diagram.relationships.len(),
            unique_relationships@.map_values(|x: &RelationshipEdge| x@) == dedup_seq(
                diagram@.relationships.take(k as int),
            ),
        decreases nr - k,
    {
        let e = &diagram.relationships[k];
        proof {
            assert(diagram@.relationships[k as int] == diagram.relationships@[k as int]@);
            lemma_dedup_seq_contains(diagram@.relationships.take(k as int));
        }
        let dup = contains_relationship(&unique_relationships, e);
        proof {
            let taken = diagram@.relationships.take(k + 1);
            assert(taken.drop_last() =~= diagram@.relationships.take(k as int));
            assert(taken.last() == diagram@.relationships[k as int]);
        }
        if !dup {
            unique_relationships.push(e);
            proof {
                assert(unique_relationships@.map_values(|x: &RelationshipEdge| x@) =~= dedup_seq(
                    diagram@.relationships.take(k as int),
                ).push(e@));
            }
        }
        k = k + 1;
    }
    proof {
        assert(diagram@.relationships.take(nr as int) =~= diagram@.relationships);
    }
    let ghost urels = dedup_seq(diagram@.relationships);

    let ghost rel_base = output@;
    let nur = unique_relationships.len();
    let mut k2: usize = 0;
    while k2 < nur
        invariant
            0 <= k2 <= nur,
            nur == unique_relationships.len(),
            unique_relationships@.map_values(|x: &RelationshipEdge| x@) == urels,
            output@ == rel_base + relationship_lines_upto(urels, k2 as int),
        decreases nur - k2,
    {
        let line = render_relationship(unique_relationships[k2]);
        output.append(line.as_str());
        if k2 + 1 < nur {
            output.append("\n");
        }
        proof {
            assert(urels[k2 as int] == unique_relationships@[k2 as int]@);
            assert(output@ =~= rel_base + relationship_lines_upto(urels, k2 + 1));
        }
        k2 = k2 + 1;
    }

    let mut unique_compositions: Vec<&CompositionEdge> = Vec::new();
    let nc = diagram.compositions.len();
    let mut k3: usize = 0;
    proof {
        assert(unique_compositions@.map_values(|x: &CompositionEdge| x@) =~= dedup_seq(
            diagram@.compositions.take(0),
        ));
    }
    while k3 < nc
        invariant
            0 <= k3 <= nc,
            nc == diagram.compositions.len(),
            unique_compositions@.map_values(|x: &CompositionEdge| x@) == dedup_seq(
                diagram@.compositions.take(k3 as int),
            ),
        decreases nc - k3,
    {
        let e = &diagram.compositions[k3];
        proof {
            assert(diagram@.compositions[k3 as int] == diagram.compositions@[k3 as int]@);
            lemma_dedup_seq_contains(diagram@.compositions.take(k3 as int));
        }
        let dup = contains_composition(&unique_compositions, e);
        proof {
            let taken = diagram@.compositions.take(k3 + 1);
            assert(taken.drop_last() =~= diagram@.compositions.take(k3 as int));
            assert(taken.last() == diagram@.compositions[k3 as int]);
        }
        if !dup {
            unique_compositions.push(e);
            proof {
                assert(unique_compositions@.map_values(|x: &CompositionEdge| x@) =~= dedup_seq(
                    diagram@.compositions.take(k3 as int),
                ).push(e@));
            }
        }
        k3 = k3 + 1;
    }
    proof {
        assert(diagram@.compositions.take(nc as int) =~= diagram@.compositions);
    }
    let ghost ucomps = dedup_seq(diagram@.compositions);

    let nuc = unique_compositions.len();
    if nuc > 0 && nur > 0 {
        output.append("\n");
    }

    let ghost comp_base = output@;
    let mut k4: usize = 0;
    while k4 < nuc
        invariant
            0 <= k4 <= nuc,
            nuc == unique_compositions.len(),
            unique_compositions@.map_values(|x: &CompositionEdge| x@) == ucomps,
            output@ == comp_base + composition_lines_upto(ucomps, k4 as int),
        decreases nuc - k4,
    {
        let line = render_composition(unique_compositions[k4]);
        output.append(line.as_str());
        if k4 + 1 < nuc {
            output.append("\n");
        }
        proof {
            assert(ucomps[k4 as int] == unique_compositions@[k4 as int]@);
            assert(output@ =~= comp_base + composition_lines_upto(ucomps, k4 + 1));
        }
        k4 = k4 + 1;
    }

    let mut result = trim_end(output.as_str());
    result.append("\n");
    proof {
        assert(urels.len() == nur && ucomps.len() == nuc);
        assert(output@ =~= header_spec(
            match title {
                Some(t) => Some(t@),
                None => None,
            },
            direction,
        ) + class_blocks_spec(topo_classes(diagram@)) + relationship_lines_upto(
            urels,
            urels.len() as int,
        ) + (if ucomps.len() > 0 && urels.len() > 0 {
            "\n"@
        } else {
            Seq::<char>::empty()
        }) + composition_lines_upto(ucomps, ucomps.len() as int));
    }
    Some(result)
}

} // verus!
