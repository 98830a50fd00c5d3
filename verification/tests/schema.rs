use keygrip::expand::{constant, prefix, primary, validate, Expansion, Shape};
use keygrip::schema::{attribute_name, Arguments, Attribute, Field, Index, Key, Schema};
use keygrip::tokens::{read_entity_items, read_index_items, Delimiter, Token};

fn field(name: &str) -> Field {
    Field::new(name.to_string(), Vec::new())
}

fn fields(names: &[&str]) -> Vec<Field> {
    names.iter().map(|name| field(name)).collect()
}

/// The token trees of `text`: identifiers, string literals, punctuation
/// and parenthesized groups.
fn tokens(text: &str) -> Vec<Token> {
    let chars: Vec<char> = text.chars().collect();
    let (trees, _) = trees(&chars, 0);
    trees
}

fn trees(chars: &[char], mut i: usize) -> (Vec<Token>, usize) {
    let mut out = Vec::new();
    while i < chars.len() {
        let c = chars[i];
        if c == ')' {
            return (out, i + 1);
        } else if c == '(' {
            let (inner, next) = trees(chars, i + 1);
            out.push(Token::Group(Delimiter::Parenthesis, inner));
            i = next;
        } else if c == '"' {
            let mut value = String::new();
            i += 1;
            while chars[i] != '"' {
                value.push(chars[i]);
                i += 1;
            }
            out.push(Token::Str(value));
            i += 1;
        } else if c.is_alphanumeric() || c == '_' {
            let mut word = String::new();
            while i < chars.len() && (chars[i].is_alphanumeric() || chars[i] == '_' || chars[i] == '#') {
                word.push(chars[i]);
                i += 1;
            }
            if word.chars().all(|d| d.is_ascii_digit()) {
                out.push(Token::Literal(word));
            } else {
                out.push(Token::Ident(word));
            }
        } else if c.is_whitespace() {
            i += 1;
        } else {
            let joint = i + 1 < chars.len() && !chars[i + 1].is_whitespace() && chars[i + 1] == ':';
            out.push(Token::Punct(c, joint));
            i += 1;
        }
    }
    (out, i)
}

fn entity(arguments: &str) -> Attribute {
    Attribute { path: "entity".to_string(), arguments: Arguments::List(tokens(arguments)) }
}

fn other(path: &str) -> Attribute {
    Attribute { path: path.to_string(), arguments: Arguments::Missing }
}

fn expansion(result: Result<Expansion, String>) -> Expansion {
    match result {
        Ok(expansion) => expansion,
        Err(error) => panic!("{}", error),
    }
}

fn failure<T>(result: Result<T, String>) -> String {
    match result {
        Ok(_) => panic!("the declaration was read"),
        Err(error) => error,
    }
}

/// `#[entity(pk(user_id), sk(problem_id, kind, id),
///           index(name = "byId", pk(id), sk(user_id)))]` on `ExecutionTable`.
fn execution() -> Expansion {
    expansion(keygrip::expand::derive(
        &Shape::NamedStruct,
        "ExecutionTable",
        vec![
            other("serde"),
            entity(r#"pk(user_id), sk(problem_id, kind, id), index(name = "byId", pk(id), sk(user_id))"#),
        ],
    ))
}

fn schema_error(arguments: &str) -> String {
    failure(Schema::parse(vec![entity(arguments)]))
}

#[test]
fn composite_keys_use_synthetic_names() {
    let plan = execution();

    assert_eq!(plan.name, "Execution");
    assert_eq!(plan.primary.partition, "pk");
    assert_eq!(plan.primary.sort.as_deref(), Some("sk"));
    assert_eq!(plan.primary.bindings, vec!["__key_0", "__key_1", "__key_2", "__key_3"]);
    assert_eq!(plan.primary.partition_bindings, 1);
    assert_eq!(
        plan.primary.fields,
        vec![vec!["user_id"], vec!["problem_id"], vec!["kind"], vec!["id"]]
    );
}

#[test]
fn index_constants_are_shouty_snake_case() {
    let plan = execution();

    assert_eq!(plan.indexes.len(), 1);
    assert_eq!(plan.indexes[0].constant, "BY_ID");
    assert_eq!(plan.indexes[0].name, "byId");
    assert_eq!(plan.indexes[0].partition, "id");
    assert_eq!(plan.indexes[0].sort.as_deref(), Some("userId"));
}

#[test]
fn composite_sort_keys_get_a_prefix_helper() {
    let plan = execution();

    assert_eq!(plan.prefix, Some(vec!["problem_id".to_string(), "kind".to_string()]));
}

#[test]
fn single_field_keys_use_camel_case_field_names() {
    let plan = expansion(keygrip::expand::derive(
        &Shape::NamedStruct,
        "SubmissionTable",
        vec![entity(r#"pk(user_id), sk(problem_id), name = "Submission record","#)],
    ));

    assert_eq!(plan.name, "Submission record");
    assert_eq!(plan.primary.partition, "userId");
    assert_eq!(plan.primary.sort.as_deref(), Some("problemId"));
    assert_eq!(plan.primary.bindings, vec!["__key_0", "__key_1"]);
    assert!(plan.prefix.is_none());
    assert!(plan.indexes.is_empty());
}

#[test]
fn partition_only_keys_have_no_sort_name() {
    let plan = expansion(keygrip::expand::derive(
        &Shape::NamedStruct,
        "Session",
        vec![entity("pk(token_hash)")],
    ));

    assert_eq!(plan.name, "Session");
    assert_eq!(plan.primary.partition, "tokenHash");
    assert!(plan.primary.sort.is_none());
    assert_eq!(plan.primary.fields, vec![vec!["token_hash"]]);
}

#[test]
fn nested_field_paths_are_read_whole_and_named_by_their_last_segment() {
    let plan = expansion(keygrip::expand::derive(
        &Shape::NamedStruct,
        "LogTable",
        vec![entity("pk(meta.created_at)")],
    ));

    assert_eq!(plan.primary.partition, "createdAt");
    assert_eq!(plan.primary.fields, vec![vec!["meta", "created_at"]]);
}

#[test]
fn derivations_need_named_struct_fields() {
    assert_eq!(
        failure(keygrip::expand::derive(&Shape::OtherStruct, "Pair", Vec::new())),
        "Schema requires named fields"
    );
    assert_eq!(
        failure(keygrip::expand::derive(&Shape::NotStruct, "Kind", Vec::new())),
        "Schema can only be derived for structs"
    );
    assert!(validate(&Shape::NamedStruct).is_ok());
}

#[test]
fn exactly_one_entity_attribute_is_required() {
    let message = "Schema requires one #[entity(...)] attribute";

    assert_eq!(failure(keygrip::expand::derive(&Shape::NamedStruct, "T", vec![other("serde")])), message);
    let twice = vec![entity("pk(a)"), entity("pk(b)")];
    assert_eq!(failure(keygrip::expand::derive(&Shape::NamedStruct, "T", twice)), message);
}

#[test]
fn the_attribute_needs_parenthesized_arguments() {
    let bare = Attribute { path: "entity".to_string(), arguments: Arguments::Missing };
    let valued = Attribute { path: "entity".to_string(), arguments: Arguments::Value };

    assert_eq!(
        failure(Schema::parse(vec![bare])),
        "expected attribute arguments in parentheses: #[entity(...)]"
    );
    assert_eq!(failure(Schema::parse(vec![valued])), "expected parentheses: #[entity(...)]");
}

#[test]
fn declarations_report_their_first_problem() {
    assert_eq!(schema_error("name = \"x\""), "schema requires pk(...)");
    assert_eq!(schema_error("pk()"), "key fields cannot be empty");
    assert_eq!(
        schema_error("partition(a), pk()"),
        "expected name, pk(...), sk(...), or index(...)"
    );
    assert_eq!(schema_error("pk(a) sk(b)"), "expected `,`");
    assert_eq!(schema_error("pk(a b)"), "expected `,`");
    assert_eq!(schema_error("pk"), "unexpected end of input, expected parentheses");
    assert_eq!(schema_error("pk = 1"), "expected parentheses");
    assert_eq!(schema_error(""), "unexpected end of input, expected nested attribute");
    assert_eq!(schema_error("pk(a), \"x\""), "unexpected literal in nested attribute, expected ident");
    assert_eq!(schema_error("pk(a), = 1"), "unexpected token in nested attribute, expected ident");
    assert_eq!(schema_error("name"), "expected `=`");
    assert_eq!(schema_error("name = 5"), "expected string literal");
    assert_eq!(schema_error("name ="), "unexpected end of input, expected string literal");
    assert_eq!(schema_error("pk(a.)"), "unexpected end of input, expected identifier");
    assert_eq!(schema_error("pk(type)"), "expected identifier, found keyword `type`");
    assert_eq!(schema_error("pk(1)"), "expected identifier");
    assert_eq!(schema_error("a::"), "unexpected end of input, expected ident");
}

#[test]
fn paths_other_than_the_known_words_are_unknown() {
    let unknown = "expected name, pk(...), sk(...), or index(...)";

    assert_eq!(schema_error("::pk(a)"), unknown);
    assert_eq!(schema_error("keygrip::pk(a)"), unknown);
    assert_eq!(schema_error("type"), unknown);
}

#[test]
fn index_declarations_need_a_name_and_a_partition_key() {
    let read = |arguments: &str| failure(Index::parse(read_index_items(&tokens(arguments))));

    assert_eq!(read("pk(id)"), "index requires name = \"...\"");
    assert_eq!(read("name = \"byId\""), "index requires pk(...)");
    assert_eq!(read("name = \"byId\", partition(id)"), "expected name, pk(...), or sk(...)");
    assert_eq!(read("sk()"), "key fields cannot be empty");
    assert_eq!(schema_error("pk(a), index(pk(b))"), "index requires name = \"...\"");
    assert_eq!(schema_error("pk(a), index"), "unexpected end of input, expected parentheses");
}

#[test]
fn trailing_commas_are_allowed() {
    let items = read_entity_items(&tokens("pk(a, b,), sk(c),"));
    assert_eq!(items.len(), 2);

    let schema = match Schema::parse(vec![entity("pk(a, b,), sk(c),")]) {
        Ok(schema) => schema,
        Err(error) => panic!("{}", error),
    };
    assert_eq!(schema.key.partition.len(), 2);
    assert_eq!(schema.key.sort.len(), 1);
}

#[test]
fn reading_stops_after_a_syntax_error() {
    let items = read_entity_items(&tokens("pk(a) sk(b), name = \"x\""));

    assert_eq!(items.len(), 2);
}

#[test]
fn later_items_replace_earlier_ones() {
    let schema = match Schema::parse(vec![entity("pk(a), pk(b, c)")]) {
        Ok(schema) => schema,
        Err(error) => panic!("{}", error),
    };

    assert_eq!(schema.key.partition.len(), 2);
    assert_eq!(schema.key.names().partition, "pk");
}

#[test]
fn display_names_drop_a_trailing_table() {
    let schema = match Schema::parse(vec![entity("pk(id)")]) {
        Ok(schema) => schema,
        Err(error) => panic!("{}", error),
    };

    assert_eq!(schema.name("UserTable"), "User");
    assert_eq!(schema.name("Table"), "");
    assert_eq!(schema.name("Users"), "Users");
}

#[test]
fn key_names_follow_composition() {
    let key = Key { partition: fields(&["scope", "owner"]), sort: fields(&["id"]) };
    let names = key.names();

    assert_eq!(names.partition, "pk");
    assert_eq!(names.sort.as_deref(), Some("sk"));
    assert_eq!(attribute_name(&fields(&["created_at"])), "createdAt");
}

#[test]
fn prefix_arguments_are_all_but_the_last_sort_field() {
    assert_eq!(prefix(&fields(&["a", "b", "c"])), Some(vec!["a".to_string(), "b".to_string()]));
    assert_eq!(prefix(&fields(&["a"])), None);
}

#[test]
fn primary_plans_bind_every_key_member() {
    let key = Key { partition: fields(&["scope", "owner"]), sort: fields(&["kind", "id"]) };
    let plan = primary(&key);

    assert_eq!(plan.bindings, vec!["__key_0", "__key_1", "__key_2", "__key_3"]);
    assert_eq!(plan.partition_bindings, 2);
}

#[test]
fn index_constants_of_partition_only_indexes() {
    let index = match Index::parse(read_index_items(&tokens(r#"name = "by_owner_kind", pk(owner_kind)"#))) {
        Ok(index) => index,
        Err(error) => panic!("{}", error),
    };
    let c = constant(&index);

    assert_eq!(c.constant, "BY_OWNER_KIND");
    assert_eq!(c.partition, "ownerKind");
    assert!(c.sort.is_none());
}
