use erret::decl::{FieldInfo, Var};
use erret::{error, generate_code, parse_attrs, parse_enum, parse_enum_body, Delimiter, Enum, Group, TokenTree};

fn ident(s: &str) -> TokenTree {
    TokenTree::Ident(s.to_string())
}

fn punct(c: char) -> TokenTree {
    TokenTree::Punct(c)
}

fn lit(s: &str) -> TokenTree {
    TokenTree::Literal(s.to_string())
}

fn grp(delimiter: Delimiter, stream: Vec<TokenTree>, stream_text: &str, text: &str) -> Group {
    Group { delimiter, stream, stream_text: stream_text.to_string(), text: text.to_string() }
}

fn group(delimiter: Delimiter, stream: Vec<TokenTree>, stream_text: &str) -> TokenTree {
    TokenTree::Group(grp(delimiter, stream, stream_text, stream_text))
}

fn error_attr_group(literal: &str) -> Group {
    grp(
        Delimiter::Bracket,
        vec![ident("error"), group(Delimiter::Parenthesis, vec![lit(literal)], literal)],
        "",
        "",
    )
}

fn empty_var() -> Var {
    Var { name: String::new(), fields: Vec::new(), error_arg: None }
}

/// `pub enum Sample { A, #[error("b {} {}")] B(u8, String),
///   #[error("c {}")] C { #[from] src: IoError, note: &'static str } }`
fn sample_tokens() -> Vec<TokenTree> {
    let body = vec![
        ident("A"),
        punct(','),
        punct('#'),
        TokenTree::Group(error_attr_group("\"b {} {}\"")),
        ident("B"),
        group(Delimiter::Parenthesis, vec![ident("u8"), punct(','), ident("String")], "u8, String"),
        punct(','),
        punct('#'),
        TokenTree::Group(error_attr_group("\"c {}\"")),
        ident("C"),
        group(
            Delimiter::Brace,
            vec![
                punct('#'),
                group(Delimiter::Bracket, vec![ident("from")], "from"),
                ident("src"),
                punct(':'),
                ident("IoError"),
                punct(','),
                ident("note"),
                punct(':'),
                punct('&'),
                punct('\''),
                ident("static"),
                ident("str"),
                punct(','),
            ],
            "",
        ),
        punct(','),
    ];
    vec![ident("pub"), ident("enum"), ident("Sample"), group(Delimiter::Brace, body, "")]
}

const S24: &str = "                        ";
const S28: &str = "                            ";
const S32: &str = "                                ";
const S36: &str = "                                    ";

#[test]
fn parses_unit_tuple_and_struct_variants() {
    let e = parse_enum(&sample_tokens());
    assert!(e.is_pub);
    assert_eq!(e.name, "Sample");
    assert_eq!(e.vars.len(), 3);
    assert_eq!(e.vars[0].name, "A");
    assert!(e.vars[0].fields.is_empty());
    assert_eq!(e.vars[1].error_arg.as_deref(), Some("b {} {}"));
    let tys: Vec<&str> = e.vars[1].fields.iter().map(|f| f.ty.as_str()).collect();
    assert_eq!(tys, vec!["u8", "String"]);
    assert!(e.vars[1].fields.iter().all(|f| f.name.is_none() && !f.has_from));
    let c = &e.vars[2];
    assert_eq!(c.fields[0].name.as_deref(), Some("src"));
    assert_eq!(c.fields[0].ty, "IoError");
    assert!(c.fields[0].has_from);
    assert_eq!(c.fields[1].name.as_deref(), Some("note"));
    assert_eq!(c.fields[1].ty, "&'staticstr");
    assert!(!c.fields[1].has_from);
}

#[test]
fn generates_exact_impl_text() {
    let code = error(sample_tokens());
    let arms = "Sample::A => write!(f, \"A\"),\n".to_string()
        + "Sample::B ( _v0, _v1,  ) => write!(f, \"b {} {}\" , _v0, _v1),\n"
        + "Sample::C { src, note,  } => write!(f, \"c {}\" , src, note),\n";
    let from = format!(
        "impl std::convert::From<IoError> for Sample {{\n{S28}fn from(err: IoError) -> Self {{\n{S32}Sample::C {{\n{S36}note: \"C\",\n{S36}src: err,\n{S32}}}\n{S28}}}\n{S24}}}\n"
    );
    let expected = format!(
        "\n        impl std::fmt::Display for Sample {{\n            fn fmt(&self, f: &mut std::fmt::Formatter<'_>) -> std::fmt::Result {{\n                match self {{\n                    {arms}\n                }}\n            }}\n        }}\n        impl std::error::Error for Sample {{}}\n        {from}\n        "
    );
    assert_eq!(code, expected);
}

#[test]
fn from_needs_single_tuple_field_or_plain_struct_field() {
    let two = Var {
        name: "Two".to_string(),
        fields: vec![
            FieldInfo { name: None, ty: "A".to_string(), has_from: true },
            FieldInfo { name: None, ty: "B".to_string(), has_from: false },
        ],
        error_arg: None,
    };
    let only_from = Var {
        name: "Only".to_string(),
        fields: vec![FieldInfo { name: Some("x".to_string()), ty: "X".to_string(), has_from: true }],
        error_arg: None,
    };
    let one = Var {
        name: "One".to_string(),
        fields: vec![FieldInfo { name: None, ty: "Y".to_string(), has_from: true }],
        error_arg: Some("one".to_string()),
    };
    let code = generate_code(Enum { is_pub: false, name: "E".to_string(), vars: vec![two, only_from, one] });
    assert_eq!(code.matches("impl std::convert::From<").count(), 1);
    assert!(code.contains(&format!(
        "impl std::convert::From<Y> for E {{\n{S28}fn from(err: Y) -> Self {{\n{S32}E::One(err)\n{S28}}}\n{S24}}}\n"
    )));
    assert!(code.contains("E::Only { x,  } => write!(f, \"Only\" , x),\n"));
    assert!(code.contains("E::One ( _v0,  ) => write!(f, \"one\" , _v0),\n"));
}

#[test]
fn tuple_variant_numbers_many_fields() {
    let fields = (0..12).map(|_| FieldInfo { name: None, ty: "u8".to_string(), has_from: false }).collect();
    let v = Var { name: "Many".to_string(), fields, error_arg: None };
    let code = generate_code(Enum { is_pub: true, name: "E".to_string(), vars: vec![v] });
    assert!(code.contains("_v9, _v10, _v11,  ) => write!(f, \"Many\" , _v0, _v1, _v2, _v3, _v4, _v5, _v6, _v7, _v8, _v9, _v10, _v11),\n"));
}

#[test]
fn error_attr_sets_message_without_quotes() {
    let mut v = empty_var();
    parse_attrs(&error_attr_group("\"Bad port: {}\""), &mut v);
    assert_eq!(v.error_arg.as_deref(), Some("Bad port: {}"));
}

#[test]
fn other_attrs_leave_variant_unchanged() {
    let mut v = empty_var();
    let doc = grp(Delimiter::Bracket, vec![ident("doc"), punct('='), lit("\"text\"")], "", "");
    parse_attrs(&doc, &mut v);
    assert_eq!(v.error_arg, None);
    let paren = grp(
        Delimiter::Parenthesis,
        vec![ident("error"), group(Delimiter::Parenthesis, vec![lit("\"m\"")], "")],
        "",
        "",
    );
    parse_attrs(&paren, &mut v);
    assert_eq!(v.error_arg, None);
    let not_literal =
        grp(Delimiter::Bracket, vec![ident("error"), group(Delimiter::Parenthesis, vec![ident("X")], "")], "", "");
    parse_attrs(&not_literal, &mut v);
    assert_eq!(v.error_arg, None);
}

#[test]
fn body_skips_doc_attrs_and_discriminants() {
    let body = vec![
        punct('#'),
        group(Delimiter::Bracket, vec![ident("doc"), punct('='), lit("\"first\"")], ""),
        ident("First"),
        punct('='),
        lit("1"),
        punct(','),
        ident("Second"),
    ];
    let vars = parse_enum_body(&body);
    let names: Vec<&str> = vars.iter().map(|v| v.name.as_str()).collect();
    assert_eq!(names, vec!["First", "Second"]);
    assert!(vars.iter().all(|v| v.fields.is_empty() && v.error_arg.is_none()));
}

#[test]
fn tuple_from_marks_only_first_field_and_skips_empty_pieces() {
    let body = vec![
        punct('#'),
        group(Delimiter::Bracket, vec![ident("from")], "from"),
        ident("Pair"),
        group(Delimiter::Parenthesis, vec![], " , A ,, B , "),
    ];
    let vars = parse_enum_body(&body);
    assert_eq!(vars.len(), 1);
    let f = &vars[0].fields;
    assert_eq!(f.len(), 2);
    assert_eq!(f[0].ty, "A");
    assert!(f[0].has_from);
    assert_eq!(f[1].ty, "B");
    assert!(!f[1].has_from);
}

#[test]
fn enum_without_body_has_no_variants() {
    let e = parse_enum(&vec![ident("enum"), ident("Empty"), punct(';')]);
    assert!(!e.is_pub);
    assert_eq!(e.name, "Empty");
    assert!(e.vars.is_empty());
}

#[test]
fn struct_field_without_colon_is_skipped() {
    let fields = vec![ident("pub"), ident("a"), punct(':'), ident("u8"), punct(','), ident("b"), punct(':'), ident("u16")];
    let body = vec![ident("S"), group(Delimiter::Brace, fields, "")];
    let vars = parse_enum_body(&body);
    let f = &vars[0].fields;
    assert_eq!(f.len(), 1);
    assert_eq!(f[0].name.as_deref(), Some("b"));
    assert_eq!(f[0].ty, "u16");
}

#[test]
fn each_identifier_not_after_hash_names_one_variant_in_order() {
    let body = vec![ident("A"), ident("B"), punct('#'), ident("Skipped"), ident("C"), punct(','), ident("D")];
    let vars = parse_enum_body(&body);
    let names: Vec<&str> = vars.iter().map(|v| v.name.as_str()).collect();
    assert_eq!(names, vec!["A", "B", "C", "D"]);
}

#[test]
fn attributes_stay_with_the_variant_that_follows_them() {
    let body = vec![
        punct('#'),
        TokenTree::Group(error_attr_group("\"first\"")),
        punct('#'),
        group(Delimiter::Bracket, vec![ident("from")], "from"),
        ident("First"),
        group(Delimiter::Parenthesis, vec![ident("X")], "X"),
        punct(','),
        ident("Second"),
        group(Delimiter::Parenthesis, vec![ident("Y")], "Y"),
    ];
    let vars = parse_enum_body(&body);
    assert_eq!(vars[0].error_arg.as_deref(), Some("first"));
    assert!(vars[0].fields[0].has_from);
    assert_eq!(vars[1].error_arg, None);
    assert!(!vars[1].fields[0].has_from);
}
