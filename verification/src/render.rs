use crate::ast::{names_view, nodes_view, Environment, Node, Scope, AST};
use crate::host::Host;
use crate::text::{debug_text, decimal, push_decimal, push_signed_decimal, quoted, signed_decimal};
use vstd::prelude::*;

verus! {

/// Whether no decimal number occurs in a node.
pub open spec fn float_free(v: Node) -> bool
    decreases v,
{
    match v {
        Node::Float(_) => false,
        Node::LetDeclaration { value, .. } => float_free(*value),
        Node::Function { body, .. } => forall|i: int|
            0 <= i < body.len() ==> float_free(#[trigger] body[i]),
        Node::Object { properties, .. } => forall|i: int|
            0 <= i < properties.len() ==> float_free((#[trigger] properties[i]).1),
        Node::Call { args, .. } => forall|i: int|
            0 <= i < args.len() ==> float_free(#[trigger] args[i]),
        Node::PropertyCall { args, .. } => forall|i: int|
            0 <= i < args.len() ==> float_free(#[trigger] args[i]),
        Node::Addition { left, right, .. } => float_free(*left) && float_free(*right),
        Node::Subtraction { left, right, .. } => float_free(*left) && float_free(*right),
        Node::IsEqual { left, right, .. } => float_free(*left) && float_free(*right),
        Node::IsUnequal { left, right, .. } => float_free(*left) && float_free(*right),
        Node::Exists { value, .. } => float_free(*value),
        Node::IfStatement { condition, body, .. } => float_free(*condition) && forall|i: int|
            0 <= i < body.len() ==> float_free(#[trigger] body[i]),
        _ => true,
    }
}

/// The separator that stands before the item at place `i` of a list.
pub open spec fn separator(i: nat) -> Seq<char> {
    if i == 0 {
        Seq::empty()
    } else {
        ", "@
    }
}

/// The first `n` of `names`, each as a quoted text, separated by commas.
pub open spec fn names_text(names: Seq<Seq<char>>, n: nat) -> Seq<char>
    decreases n,
{
    if n == 0 || n > names.len() {
        Seq::empty()
    } else {
        names_text(names, (n - 1) as nat) + separator((n - 1) as nat) + debug_text(names[n - 1])
    }
}

/// An optional name as `Some("name")` or `None`.
pub open spec fn option_text(name: Option<Seq<char>>) -> Seq<char> {
    match name {
        Some(n) => "Some("@ + debug_text(n) + ")"@,
        None => "None"@,
    }
}

/// The first `n` of `items`, each as its text, separated by commas.
pub open spec fn nodes_text(items: Seq<Node>, n: nat) -> Seq<char>
    decreases items, n,
{
    if n == 0 || n > items.len() {
        Seq::empty()
    } else {
        nodes_text(items, (n - 1) as nat) + separator((n - 1) as nat) + render(items[n - 1])
    }
}

/// The first `n` of `entries`, each as `"name": value`, separated by commas.
pub open spec fn entries_text(entries: Scope, n: nat) -> Seq<char>
    decreases entries, n,
{
    if n == 0 || n > entries.len() {
        Seq::empty()
    } else {
        entries_text(entries, (n - 1) as nat) + separator((n - 1) as nat) + debug_text(
            entries[n - 1].0,
        ) + ": "@ + render(entries[n - 1].1)
    }
}

/// A binary node's text: its kind, then its two operands and its line.
pub open spec fn binary_text(kind: Seq<char>, left: Seq<char>, right: Seq<char>, line: usize) -> Seq<
    char,
> {
    kind + " { left: "@ + left + ", right: "@ + right + ", line: "@ + decimal(line as nat) + " }"@
}

/// The text of a node in which no decimal number occurs, as it stands in messages:
/// the variant's name, then its fields in parentheses or, with their names, in braces.
/// Of a node that holds a decimal number it says nothing of use.
pub open spec fn render(v: Node) -> Seq<char>
    decreases v, 0nat,
{
    match v {
        Node::Number(n) => "Number("@ + signed_decimal(n as int) + ")"@,
        Node::Float(_) => "Float"@,
        Node::String(s) => "String("@ + debug_text(s) + ")"@,
        Node::Boolean(b) => if b {
            "Boolean(true)"@
        } else {
            "Boolean(false)"@
        },
        Node::Null => "Null"@,
        Node::Identifer(name) => "Identifer("@ + debug_text(name) + ")"@,
        Node::LetDeclaration { name, value, line } => "LetDeclaration { name: "@ + option_text(name)
            + ", value: "@ + render(*value) + ", line: "@ + decimal(line as nat) + " }"@,
        Node::Function { name, args, body, line } => "Function { name: "@ + debug_text(name)
            + ", args: ["@ + names_text(args, args.len()) + "], body: ["@ + nodes_text(
            body,
            body.len(),
        ) + "], line: "@ + decimal(line as nat) + " }"@,
        Node::InternalFunction { name, args, line } => "InternalFunction { name: "@ + debug_text(
            name,
        ) + ", args: ["@ + names_text(args, args.len()) + "], line: "@ + decimal(line as nat)
            + " }"@,
        Node::Object { properties, line } => "Object { properties: {"@ + entries_text(
            properties,
            properties.len(),
        ) + "}, line: "@ + decimal(line as nat) + " }"@,
        Node::Call { name, args, line } => "Call { name: "@ + debug_text(name) + ", args: ["@
            + nodes_text(args, args.len()) + "], line: "@ + decimal(line as nat) + " }"@,
        Node::PropertyCall { object, property, args, line } => "PropertyCall { object: "@
            + debug_text(object) + ", property: "@ + debug_text(property) + ", args: ["@
            + nodes_text(args, args.len()) + "], line: "@ + decimal(line as nat) + " }"@,
        Node::PropertyAccess { object, property, line } => "PropertyAccess { object: "@
            + debug_text(object) + ", property: "@ + debug_text(property) + ", line: "@ + decimal(
            line as nat,
        ) + " }"@,
        Node::Import { file, as_, line } => "Import { file: "@ + debug_text(file) + ", as_: "@
            + debug_text(as_) + ", line: "@ + decimal(line as nat) + " }"@,
        Node::Addition { left, right, line } => binary_text(
            "Addition"@,
            render(*left),
            render(*right),
            line,
        ),
        Node::Subtraction { left, right, line } => binary_text(
            "Subtraction"@,
            render(*left),
            render(*right),
            line,
        ),
        Node::IsEqual { left, right, line } => binary_text(
            "IsEqual"@,
            render(*left),
            render(*right),
            line,
        ),
        Node::IsUnequal { left, right, line } => binary_text(
            "IsUnequal"@,
            render(*left),
            render(*right),
            line,
        ),
        Node::Exists { value, line } => "Exists { value: "@ + render(*value) + ", line: "@
            + decimal(line as nat) + " }"@,
        Node::IfStatement { condition, body, line } => "IfStatement { condition: "@ + render(
            *condition,
        ) + ", body: ["@ + nodes_text(body, body.len()) + "], line: "@ + decimal(line as nat)
            + " }"@,
        Node::Semicolon => "Semicolon"@,
    }
}

/// The text of a list of names.
fn names_to_text(names: &Vec<String>) -> (text: String)
    ensures
        text@ == names_text(names_view(*names), names.len() as nat),
{
    let mut text = String::new();
    let mut i: usize = 0;
    while i < names.len()
        invariant
            i <= names.len(),
            text@ == names_text(names_view(*names), i as nat),
        decreases names.len() - i,
    {
        if i > 0 {
            text.append(", ");
        } else {
            assert(text@ + Seq::<char>::empty() =~= text@);
        }
        let shown = quoted(names[i].as_str());
        text.append(shown.as_str());
        i += 1;
    }
    text
}

/// The text of an optional name.
fn option_to_text(name: &Option<String>) -> (text: String)
    ensures
        text@ == option_text(crate::ast::option_name_view(*name)),
{
    match name {
        Some(n) => {
            let mut text = String::from_str("Some(");
            let shown = quoted(n.as_str());
            text.append(shown.as_str());
            text.append(")");
            text
        },
        None => String::from_str("None"),
    }
}

/// The text of a list of nodes.
fn nodes_to_text<H: Host>(items: &Vec<AST>, host: &H) -> (text: String)
    ensures
        (forall|j: int| 0 <= j < items.len() ==> float_free(#[trigger] nodes_view(*items)[j]))
            ==> text@ == nodes_text(nodes_view(*items), items.len() as nat),
    decreases items,
{
    let mut text = String::new();
    let mut i: usize = 0;
    while i < items.len()
        invariant
            i <= items.len(),
            (forall|j: int| 0 <= j < i ==> float_free(#[trigger] nodes_view(*items)[j])) ==> text@
                == nodes_text(nodes_view(*items), i as nat),
        decreases items.len() - i,
    {
        if i > 0 {
            text.append(", ");
        } else {
            assert(text@ + Seq::<char>::empty() =~= text@);
        }
        let shown = render_value(&items[i], host);
        text.append(shown.as_str());
        assert(nodes_view(*items)[i as int] == items[i as int]@);
        i += 1;
    }
    text
}

/// The text of the bindings of an environment.
fn entries_to_text<H: Host>(env: &Environment, host: &H) -> (text: String)
    ensures
        (forall|j: int| 0 <= j < env@.len() ==> float_free((#[trigger] env@[j]).1)) ==> text@
            == entries_text(env@, env@.len()),
    decreases env,
{
    let mut text = String::new();
    let mut i: usize = 0;
    while i < env.len()
        invariant
            i <= env@.len(),
            (forall|j: int| 0 <= j < i ==> float_free((#[trigger] env@[j]).1)) ==> text@
                == entries_text(env@, i as nat),
        decreases env@.len() - i,
    {
        if i > 0 {
            text.append(", ");
        } else {
            assert(text@ + Seq::<char>::empty() =~= text@);
        }
        match env.entry(i) {
            Some((name, value)) => {
                let shown_name = quoted(name.as_str());
                text.append(shown_name.as_str());
                text.append(": ");
                let shown = render_value(value, host);
                text.append(shown.as_str());
            },
            None => {},
        }
        i += 1;
    }
    text
}

/// The text of a binary node.
fn binary_to_text(kind: &str, left: String, right: String, line: usize) -> (text: String)
    ensures
        text@ == binary_text(kind@, left@, right@, line),
{
    let mut text = String::from_str(kind);
    text.append(" { left: ");
    text.append(left.as_str());
    text.append(", right: ");
    text.append(right.as_str());
    text.append(", line: ");
    push_decimal(&mut text, line as u64);
    text.append(" }");
    text
}

/// The text of a node as it stands in messages. Where a decimal number occurs in the
/// node, its text is the embedding's.
pub fn render_value<H: Host>(v: &AST, host: &H) -> (text: String)
    ensures
        float_free(v@) ==> text@ == render(v@),
    decreases v,
{
    match v {
        AST::Number(n) => {
            let mut text = String::from_str("Number(");
            push_signed_decimal(&mut text, *n);
            text.append(")");
            text
        },
        AST::Float(x) => {
            let mut text = String::from_str("Float(");
            let shown = host.float_text(*x);
            text.append(shown.as_str());
            text.append(")");
            text
        },
        AST::String(s) => {
            let mut text = String::from_str("String(");
            let shown = quoted(s.as_str());
            text.append(shown.as_str());
            text.append(")");
            text
        },
        AST::Boolean(b) => {
            if *b {
                String::from_str("Boolean(true)")
            } else {
                String::from_str("Boolean(false)")
            }
        },
        AST::Null => String::from_str("Null"),
        AST::Identifer(name) => {
            let mut text = String::from_str("Identifer(");
            let shown = quoted(name.as_str());
            text.append(shown.as_str());
            text.append(")");
            text
        },
        AST::LetDeclaration { name, value, line } => {
            let mut text = String::from_str("LetDeclaration { name: ");
            let shown_name = option_to_text(name);
            text.append(shown_name.as_str());
            text.append(", value: ");
            let shown = render_value(value, host);
            text.append(shown.as_str());
            text.append(", line: ");
            push_decimal(&mut text, *line as u64);
            text.append(" }");
            text
        },
        AST::Function { name, args, body, line } => {
            let mut text = String::from_str("Function { name: ");
            let shown_name = quoted(name.as_str());
            text.append(shown_name.as_str());
            text.append(", args: [");
            let shown_args = names_to_text(args);
            text.append(shown_args.as_str());
            text.append("], body: [");
            let shown_body = nodes_to_text(body, host);
            text.append(shown_body.as_str());
            text.append("], line: ");
            push_decimal(&mut text, *line as u64);
            text.append(" }");
            text
        },
        AST::InternalFunction { name, args, line } => {
            let mut text = String::from_str("InternalFunction { name: ");
            let shown_name = quoted(name.as_str());
            text.append(shown_name.as_str());
            text.append(", args: [");
            let shown_args = names_to_text(args);
            text.append(shown_args.as_str());
            text.append("], line: ");
            push_decimal(&mut text, *line as u64);
            text.append(" }");
            text
        },
        AST::Object { properties, line } => {
            let mut text = String::from_str("Object { properties: {");
            let shown = entries_to_text(properties, host);
            text.append(shown.as_str());
            text.append("}, line: ");
            push_decimal(&mut text, *line as u64);
            text.append(" }");
            text
        },
        AST::Call { name, args, line } => {
            let mut text = String::from_str("Call { name: ");
            let shown_name = quoted(name.as_str());
            text.append(shown_name.as_str());
            text.append(", args: [");
            let shown_args = nodes_to_text(args, host);
            text.append(shown_args.as_str());
            text.append("], line: ");
            push_decimal(&mut text, *line as u64);
            text.append(" }");
            text
        },
        AST::PropertyCall { object, property, args, line } => {
            let mut text = String::from_str("PropertyCall { object: ");
            let shown_object = quoted(object.as_str());
            text.append(shown_object.as_str());
            text.append(", property: ");
            let shown_property = quoted(property.as_str());
            text.append(shown_property.as_str());
            text.append(", args: [");
            let shown_args = nodes_to_text(args, host);
            text.append(shown_args.as_str());
            text.append("], line: ");
            push_decimal(&mut text, *line as u64);
            text.append(" }");
            text
        },
        AST::PropertyAccess { object, property, line } => {
            let mut text = String::from_str("PropertyAccess { object: ");
            let shown_object = quoted(object.as_str());
            text.append(shown_object.as_str());
            text.append(", property: ");
            let shown_property = quoted(property.as_str());
            text.append(shown_property.as_str());
            text.append(", line: ");
            push_decimal(&mut text, *line as u64);
            text.append(" }");
            text
        },
        AST::Import { file, as_, line } => {
            let mut text = String::from_str("Import { file: ");
            let shown_file = quoted(file.as_str());
            text.append(shown_file.as_str());
            text.append(", as_: ");
            let shown_alias = quoted(as_.as_str());
            text.append(shown_alias.as_str());
            text.append(", line: ");
            push_decimal(&mut text, *line as u64);
            text.append(" }");
            text
        },
        AST::Addition { left, right, line } => binary_to_text(
            "Addition",
            render_value(left, host),
            render_value(right, host),
            *line,
        ),
        AST::Subtraction { left, right, line } => binary_to_text(
            "Subtraction",
            render_value(left, host),
            render_value(right, host),
            *line,
        ),
        AST::IsEqual { left, right, line } => binary_to_text(
            "IsEqual",
            render_value(left, host),
            render_value(right, host),
            *line,
        ),
        AST::IsUnequal { left, right, line } => binary_to_text(
            "IsUnequal",
            render_value(left, host),
            render_value(right, host),
            *line,
        ),
        AST::Exists { value, line } => {
            let mut text = String::from_str("Exists { value: ");
            let shown = render_value(value, host);
            text.append(shown.as_str());
            text.append(", line: ");
            push_decimal(&mut text, *line as u64);
            text.append(" }");
            text
        },
        AST::IfStatement { condition, body, line } => {
            let mut text = String::from_str("IfStatement { condition: ");
            let shown = render_value(condition, host);
            text.append(shown.as_str());
            text.append(", body: [");
            let shown_body = nodes_to_text(body, host);
            text.append(shown_body.as_str());
            text.append("], line: ");
            push_decimal(&mut text, *line as u64);
            text.append(" }");
            text
        },
        AST::Semicolon => String::from_str("Semicolon"),
    }
}

} // verus!
