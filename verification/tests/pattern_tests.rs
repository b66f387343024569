//! The pattern engine end to end: parsing, shapes, evaluation, printing.

use nodes::parser::parse_condition;
use nodes::parser::ParseErrorKind;
use nodes::pattern::evaluate;
use nodes::pattern::node_matches;
use nodes::pattern::check_cond;
use nodes::pattern::equals;
use nodes::pattern::MetaNode;
use nodes::pattern::Cond;
use nodes::pattern::CondType;
use nodes::pattern::CondNodeType;
use nodes::pattern::MatchString;
use nodes::printer::print_cond;
use nodes::printer::print_pattern;
use nodes::toml::Value;

fn s(x: &str) -> Value {
    Value::String(x.to_string())
}

fn table(pairs: Vec<(&str, Value)>) -> Value {
    Value::Table(pairs.into_iter().map(|(k, v)| (k.to_string(), v)).collect())
}

fn eval(pattern: &str, doc: &Value) -> bool {
    let tree = parse_condition(pattern).expect("pattern must parse");
    evaluate(&tree, &MetaNode { meta: doc, content: None })
}

fn eval_content(pattern: &str, doc: &Value, content: Option<&str>) -> bool {
    let tree = parse_condition(pattern).expect("pattern must parse");
    evaluate(&tree, &MetaNode { meta: doc, content })
}

#[test]
fn empty_pattern_matches_everything() {
    let docs = vec![
        table(vec![]),
        table(vec![("a", s("1"))]),
        table(vec![("tags", Value::Array(vec![s("x")]))]),
    ];
    for doc in &docs {
        assert!(eval("", doc));
    }
}

#[test]
fn precedence_and_binds_weaker_than_or() {
    // a=1;b=2|c=3 reads as a=1 AND (b=2 OR c=3); the field `c` is the
    // content sentinel, so c=3 tests the note's content
    let tree = parse_condition("a=1;b=2|c=3").unwrap().unwrap();
    assert!(matches!(tree.data, CondNodeType::And));
    assert_eq!(tree.children.len(), 2);
    assert!(matches!(tree.children[1].data, CondNodeType::Or));

    let both = table(vec![("a", s("1")), ("b", s("2"))]);
    assert!(eval_content("a=1;b=2|c=3", &both, Some("x")));
    assert!(eval_content("a=1;b=2|c=3", &table(vec![("a", s("1"))]), Some("3")));
    // without a=1 the conjunction fails even though the content is 3 ...
    let a_missing = table(vec![("b", s("x"))]);
    assert!(!eval_content("a=1;b=2|c=3", &a_missing, Some("3")));
    // ... while the explicitly grouped form accepts the same note
    assert!(eval_content("(a=1;b=2)|c=3", &a_missing, Some("3")));
}

#[test]
fn negation_binds_to_one_atom() {
    // !a=1|b=2 reads as (NOT a=1) OR b=2
    let tree = parse_condition("!a=1|b=2").unwrap().unwrap();
    assert!(matches!(tree.data, CondNodeType::Or));
    assert_eq!(tree.children.len(), 2);
    assert!(matches!(tree.children[0].data, CondNodeType::Not));

    assert!(eval("!a=1|b=2", &table(vec![("a", s("1")), ("b", s("2"))])));
    assert!(!eval("!a=1|b=2", &table(vec![("a", s("1")), ("b", s("x"))])));
    assert!(eval("!a=1|b=2", &table(vec![("a", s("x"))])));
}

#[test]
fn array_equals_is_positional() {
    let doc = table(vec![(
        "tags",
        Value::Array(vec![Value::Integer(1), Value::Integer(2), Value::Integer(3)]),
    )]);
    assert!(eval("tags=1,2,3", &doc));
    assert!(!eval("tags=1,2", &doc));
    assert!(!eval("tags=1,9", &doc));
}

#[test]
fn array_matches_per_matcher() {
    let doc = table(vec![("tags", Value::Array(vec![s("work"), s("urgent")]))]);
    assert!(eval("tags:work", &doc));
    assert!(eval("tags:<^u.*>", &doc));
    assert!(!eval("tags:missing", &doc));
    assert!(eval("tags:work,<^u.*>", &doc));
}

#[test]
fn scalar_matches_all_matchers() {
    let doc = table(vec![("name", s("hello world"))]);
    assert!(eval("name:hello,world", &doc));
    assert!(!eval("name:hello,bye", &doc));
}

#[test]
fn array_literal_matcher_is_exact_not_substring() {
    let doc = table(vec![("tags", Value::Array(vec![s("workshop")]))]);
    // on an array, a literal matcher must equal the element
    assert!(!eval("tags:work", &doc));
    // on a scalar, a literal matcher is a substring
    let doc2 = table(vec![("name", s("workshop"))]);
    assert!(eval("name:work", &doc2));
}

#[test]
fn array_with_non_string_element_never_matches() {
    // a non-string element fails the whole predicate wherever it
    // stands, before or after a would-be match
    let front = table(vec![("tags", Value::Array(vec![Value::Integer(5), s("work")]))]);
    let back = table(vec![("tags", Value::Array(vec![s("work"), Value::Integer(5)]))]);
    assert!(!eval("tags:work", &front));
    assert!(!eval("tags:work", &back));
    // positional equality is unaffected: each element compares by its
    // own kind
    assert!(eval("tags=5,work", &front));
}

#[test]
fn missing_field_is_false() {
    assert!(!eval("nosuchfield=1", &table(vec![])));
    assert!(!eval("nosuchfield=1", &table(vec![("a", s("1"))])));
}

#[test]
fn content_predicate() {
    let doc = table(vec![]);
    assert!(eval_content("c:<TODO>", &doc, Some("TODO: fix")));
    assert!(eval_content("c:TODO", &doc, Some("has a TODO: fix inside")));
    assert!(!eval_content("c:<TODO>", &doc, Some("nothing here")));
    // unreadable content fails the predicate, it does not error
    assert!(!eval_content("c:<TODO>", &doc, None));
    // equality against the whole content
    assert!(eval_content("c=abc", &doc, Some("abc")));
    assert!(!eval_content("c=abc", &doc, Some("abcd")));
}

#[test]
fn dotted_paths_reach_nested_tables() {
    let doc = table(vec![("a", table(vec![("b", table(vec![("c", s("deep"))]))]))]);
    assert!(eval("a.b.c=deep", &doc));
    assert!(!eval("a.b.c=shallow", &doc));
    assert!(!eval("a.b=deep", &doc));
}

#[test]
fn integer_and_float_equality_is_numeric() {
    let doc = table(vec![("n", Value::Integer(42)), ("f", Value::Float("1.50".to_string()))]);
    assert!(eval("n=42", &doc));
    assert!(eval("n=+42", &doc));
    assert!(!eval("n=43", &doc));
    assert!(!eval("n=42x", &doc));
    assert!(eval("f=1.5", &doc));
    assert!(eval("f=1.50", &doc));
    assert!(eval("f=15e-1", &doc));
    assert!(!eval("f=1.51", &doc));
    assert!(!eval("f=bad", &doc));
}

#[test]
fn quoted_values_carry_separators() {
    let doc = table(vec![("a", s("x,y")), ("b", s("1;2"))]);
    assert!(eval("a=\"x,y\"", &doc));
    assert!(eval("b=\"1;2\"", &doc));
    assert!(!eval("a=\"x,z\"", &doc));
}

#[test]
fn tables_never_equal_and_unimplemented_operators_fail() {
    let doc = table(vec![("t", table(vec![("x", s("1"))])), ("n", s("1"))]);
    assert!(!eval("t=1", &doc));
    // Smaller and Greater are recognized but always false
    assert!(!eval("n<5", &doc));
    assert!(!eval("n>0", &doc));
}

#[test]
fn exists_is_reachable_only_programmatically() {
    // the grammar has no bare-identifier form
    assert!(parse_condition("a").is_err());
    // built directly, Exists is recognized but unimplemented: it is
    // false even on a present field, like Smaller and Greater
    let doc = table(vec![("a", s("1"))]);
    let node = MetaNode { meta: &doc, content: None };
    let present = Cond { entry: "a".to_string(), cond_type: CondType::Exists };
    assert!(!check_cond(&node, &present));
    let missing = Cond { entry: "zz".to_string(), cond_type: CondType::Exists };
    assert!(!check_cond(&node, &missing));
}

#[test]
fn parse_errors() {
    assert!(parse_condition("a").is_err());
    assert!(parse_condition("a=").is_err());
    assert!(parse_condition("(a=1").is_err());
    assert!(parse_condition("|a=1").is_err());
    assert!(parse_condition(";").is_err());
    assert!(parse_condition("a=1|").is_err());
    assert!(parse_condition("a=1;;b=2").is_err());
}

#[test]
fn input_ending_inside_a_construct() {
    let e = match parse_condition("a=") {
        Err(e) => e,
        Ok(_) => panic!("a trailing operator must be rejected"),
    };
    assert!(matches!(e.kind, ParseErrorKind::UnexpectedEnd));
}

#[test]
fn trailing_input_reports_offset_and_character() {
    let e = match parse_condition("a=1)") {
        Err(e) => e,
        Ok(_) => panic!("trailing input must be rejected"),
    };
    assert_eq!(e.offset, 3);
    assert!(matches!(e.kind, ParseErrorKind::UnexpectedChar(')')));
}

#[test]
fn bad_regex_is_a_parse_error() {
    let e = match parse_condition("tags:<*>") {
        Err(e) => e,
        Ok(_) => panic!("a bad regex must be rejected"),
    };
    assert!(matches!(e.kind, ParseErrorKind::BadRegex));
    assert_eq!(e.offset, 5);
    assert!(parse_condition("a=1;b:<(unclosed>").is_err());
}

#[test]
fn parse_errors_are_a_function_of_the_input() {
    // the same input always yields the same report
    assert_eq!(parse_condition("(a=1").err(), parse_condition("(a=1").err());
    // an unclosed group reports the position where `)` was owed
    let e = parse_condition("(a=1").err().expect("must fail");
    assert_eq!(e.offset, 4);
    assert!(matches!(e.kind, ParseErrorKind::UnexpectedEnd));
    // a failure inside a group carries the group offset
    let e2 = parse_condition("(x").err().expect("must fail");
    assert_eq!(e2.offset, 2);
    assert!(matches!(e2.kind, ParseErrorKind::UnexpectedEnd));
    // a separator whose right side fails is reported as trailing input
    let e3 = parse_condition("a=1|?").err().expect("must fail");
    assert_eq!(e3.offset, 3);
    assert!(matches!(e3.kind, ParseErrorKind::UnexpectedChar('|')));
}

#[test]
fn bang_can_start_an_identifier() {
    // when no atom follows, `!` is read as part of the field name
    let tree = parse_condition("!=1").unwrap().unwrap();
    match &tree.data {
        CondNodeType::Cond(c) => {
            assert_eq!(c.entry, "!");
            assert!(matches!(&c.cond_type, CondType::Equals(v) if v.as_str() == "1"));
        },
        _ => panic!("expected a leaf predicate"),
    }
    let doc = table(vec![("!", s("1"))]);
    assert!(eval("!=1", &doc));
}

#[test]
fn single_child_groups_collapse() {
    let tree = parse_condition("(a=1)").unwrap().unwrap();
    assert!(matches!(tree.data, CondNodeType::Cond(_)));
    assert_eq!(tree.children.len(), 0);
    let tree2 = parse_condition("((a=1))").unwrap().unwrap();
    assert!(matches!(tree2.data, CondNodeType::Cond(_)));
}

#[test]
fn diagnostic_print_format() {
    let t = parse_condition("a=1;b=2|c=3").unwrap().unwrap();
    assert_eq!(print_cond(&t), "((a == 1) && ((b == 2) || (c == 3)))");
    let t2 = parse_condition("!a=1").unwrap().unwrap();
    assert_eq!(print_cond(&t2), "!((a == 1))");
    let t3 = parse_condition("t:x,<y>").unwrap().unwrap();
    assert_eq!(print_cond(&t3), "(t matches [x, <y>])");
}

#[test]
fn print_parse_round_trip_evaluates_identically() {
    let patterns = vec![
        "a=1",
        "a=1;b=2|c=3",
        "(a=1;b=2)|c=3",
        "!a=1|b=2",
        "tags:work,<^u.*>",
        "a=1;b=2;c=3",
        "x=\"a,b\"",
        "a.b.c=deep",
        "!(a=1;b=2)",
        "n=42;f=1.5",
    ];
    let docs = vec![
        table(vec![]),
        table(vec![("a", s("1")), ("b", s("2")), ("c", s("3"))]),
        table(vec![("a", s("1")), ("b", s("x")), ("c", s("3"))]),
        table(vec![("a", s("x")), ("c", s("3"))]),
        table(vec![("tags", Value::Array(vec![s("work"), s("urgent")]))]),
        table(vec![("x", s("a,b"))]),
        table(vec![("a", table(vec![("b", table(vec![("c", s("deep"))]))]))]),
        table(vec![("n", Value::Integer(42)), ("f", Value::Float("1.5".to_string()))]),
    ];
    for p in &patterns {
        let t1 = parse_condition(p).expect(p).expect(p);
        let printed = print_pattern(&t1);
        let t2 = parse_condition(&printed)
            .unwrap_or_else(|_| panic!("printed form must re-parse: {}", printed))
            .unwrap();
        for d in &docs {
            let n = MetaNode { meta: d, content: None };
            assert_eq!(node_matches(&n, &t1), node_matches(&n, &t2), "{} vs {}", p, printed);
        }
    }
}

#[test]
fn equals_and_matches_directly() {
    assert!(equals(&s("abc"), "abc"));
    assert!(!equals(&s("abc"), "abd"));
    assert!(equals(&Value::Integer(-7), "-7"));
    let ms = vec![MatchString::String("ell".to_string())];
    assert!(nodes::pattern::matches(&s("hello"), &ms));
    assert!(!nodes::pattern::matches(&Value::Integer(3), &ms));
    // a matcher built programmatically goes through the one regex
    // constructor the library has
    let re = nodes::re::CompiledRegex::compile("^he").expect("valid pattern");
    assert_eq!(re.as_str(), "^he");
    let ms2 = vec![MatchString::Match(re)];
    assert!(nodes::pattern::matches(&s("hello"), &ms2));
    assert!(!nodes::pattern::matches(&s("she"), &ms2));
    assert!(nodes::re::CompiledRegex::compile("*").is_none());
}

#[test]
fn regex_matcher_reaches_the_engine() {
    // a regex anchored at the start distinguishes positions, so a
    // matcher that ignored its argument would fail here
    let doc = table(vec![("name", s("hello"))]);
    assert!(eval("name:<^h>", &doc));
    assert!(!eval("name:<^e>", &doc));
    assert!(eval("name:<l{2}>", &doc));
}
