use re0_parser::syntax::{parse_cst, CstNode, LifeRestartParser, LifeRestartRule, Slot};
use re0_parser::LifeErrorKind;

fn shape(node: &CstNode) -> String {
    let mut out = format!("{:?}#{:?}", node.rule, node.slot);
    if !node.text.is_empty() {
        out.push_str(&format!("={:?}", node.text));
    }
    if !node.children.is_empty() {
        let kids: Vec<String> = node.children.iter().map(shape).collect();
        out.push_str(&format!("[{}]", kids.join(" ")));
    }
    out
}

fn root(text: &str) -> CstNode {
    parse_cst(text, LifeRestartRule::Root).unwrap()
}

fn failure(text: &str, rule: LifeRestartRule) -> (String, std::ops::Range<usize>) {
    match parse_cst(text, rule).unwrap_err().kind() {
        LifeErrorKind::SyntaxError { message, file, span } => {
            assert!(file.is_none());
            (message.clone(), span.clone())
        }
        other => panic!("{:?}", other),
    }
}

#[test]
fn property_statement_tree() {
    let text = "property health { id 1 description \"HP\" }";
    let node = root(text);
    assert_eq!(node.span, 0..text.len());
    assert_eq!(
        shape(&node),
        "Root#Root[TopStatement#TopStatement[PropertyStatement#PropertyStatement[\
         Identifier#Identifier=\"health\" \
         PropertyItem#PropertyItem[IdStatement#IdStatement[Integer#Integer=\"1\"]] \
         PropertyItem#PropertyItem[DescriptionStatement#DescriptionStatement[\
         String#String[StringNormal#StringNormal[StringItem#StringItem[TextAny#TextAny=\"HP\"]]]]]]]]"
    );
    let statement = &node.children[0].children[0];
    assert_eq!(statement.span, 0..text.len());
    assert_eq!(statement.children[0].span, 9..15);
    assert_eq!(statement.children[1].span, 18..22);
    assert_eq!(statement.children[2].span, 23..39);
}

#[test]
fn the_parser_type_parses_as_the_function_does() {
    let text = "trait brave {}";
    let by_type = LifeRestartParser::parse_cst(text, LifeRestartRule::Root).unwrap();
    assert_eq!(shape(&by_type), shape(&root(text)));
}

#[test]
fn root_rejects_trailing_input() {
    assert_eq!(
        failure("property a {} ???", LifeRestartRule::Root),
        ("expected Root".to_string(), 14..14)
    );
    // any other rule matches a prefix and leaves the rest unread
    let node = parse_cst("property a {} ???", LifeRestartRule::PropertyStatement).unwrap();
    assert_eq!(node.span, 0..13);
}

#[test]
fn failure_stands_at_the_farthest_attempt() {
    assert_eq!(
        failure("property a { id x }", LifeRestartRule::Root),
        ("expected Root".to_string(), 16..16)
    );
    assert_eq!(failure("", LifeRestartRule::Identifier), ("expected Identifier".to_string(), 0..0));
    assert_eq!(failure("x", LifeRestartRule::HiddenText), ("expected HiddenText".to_string(), 0..0));
    // byte offsets, not character counts
    assert_eq!(
        failure("属性 体质 { 编号 }", LifeRestartRule::Root),
        ("expected Root".to_string(), 23..23)
    );
}

#[test]
fn chinese_keywords_and_byte_spans() {
    let text = "属性 体质 { 编号 2 }";
    let node = parse_cst(text, LifeRestartRule::PropertyStatement).unwrap();
    assert_eq!(node.span, 0..text.len());
    let name = &node.children[0];
    assert_eq!(name.slot, Slot::Identifier);
    assert_eq!(name.text, "体质");
    assert_eq!(name.span, 7..13);
}

#[test]
fn empty_source_is_a_root_without_statements() {
    assert_eq!(shape(&root("")), "Root#Root");
    assert_eq!(shape(&root("  // nothing here\n /* nor here */ ")), "Root#Root");
    assert_eq!(shape(&root(";;")), "Root#Root[TopStatement#TopStatement[EOS#Eos=\";\"] TopStatement#TopStatement[EOS#Eos=\";\"]]");
}

#[test]
fn ordered_choice_takes_the_first_alternative() {
    // a property is a property, whatever follows
    let node = root("property traits {}");
    assert_eq!(node.children[0].children[0].rule, LifeRestartRule::PropertyStatement);
    // the group keyword is tried before the keyword of a single trait
    let node = root("traits x { trait y {} }");
    assert_eq!(node.children[0].children[0].rule, LifeRestartRule::TraitGroup);
    let node = root("trait x {}");
    assert_eq!(node.children[0].children[0].rule, LifeRestartRule::TraitStatement);
    let node = root("events x { event y {} }");
    assert_eq!(node.children[0].children[0].rule, LifeRestartRule::EventGroup);
    // the longer operator is tried before its prefix
    let node = parse_cst("a >= b", LifeRestartRule::Expression).unwrap();
    assert_eq!(node.children[1].children[0].slot, Slot::Geq);
    let node = parse_cst("a > b", LifeRestartRule::Expression).unwrap();
    assert_eq!(node.children[1].children[0].slot, Slot::Gt);
    let node = parse_cst("a += b", LifeRestartRule::Expression).unwrap();
    assert_eq!(node.children[1].children[0].slot, Slot::AddAssign);
    let node = parse_cst("a != b", LifeRestartRule::Expression).unwrap();
    assert_eq!(node.children[1].children[0].slot, Slot::Ne);
    // a truth value is tried before an identifier
    let node = parse_cst("true", LifeRestartRule::Atomic).unwrap();
    assert_eq!(node.children[0].slot, Slot::Boolean);
    let node = parse_cst("trueness", LifeRestartRule::Atomic).unwrap();
    assert_eq!(node.children[0].slot, Slot::Boolean);
    assert_eq!(node.span, 0..4);
    let node = parse_cst("tru", LifeRestartRule::Atomic).unwrap();
    assert_eq!(node.children[0].slot, Slot::Identifier);
}

#[test]
fn trivia_between_tokens_changes_only_spans() {
    let plain = "property a{id 1 description'x','y' requires{a>=1;if b{c}elif d{}else{e}}}";
    let airy = " /* head */ property // name follows\n a \t{\n id /* which */ 1\n description 'x' , \
                'y'\n requires {\n a >= 1 ;\n if b { c } elif d { } else { e }\n }\n }\n // end";
    assert_eq!(shape(&root(plain)), shape(&root(airy)));
    let plain = "events e{event f{options[a:1,b]}}traits t{trait u{effect{x+=[1,'2',\"3\"]}}}";
    let airy = "events e {\u{3000}event f { options [ a : 1 , b ] } }\r\n\
                traits t { trait u { effect { x += [ 1 , '2' , \"3\" ] } } }";
    assert_eq!(shape(&root(plain)), shape(&root(airy)));
}

#[test]
fn trivia_is_not_skipped_inside_tokens() {
    // inside a raw string everything is text
    let node = parse_cst("' // no comment '", LifeRestartRule::StringRaw).unwrap();
    assert_eq!(node.children[0].text, " // no comment ");
    // inside an identifier nothing can be skipped
    let node = parse_cst("a b", LifeRestartRule::Identifier).unwrap();
    assert_eq!(node.text, "a");
    // nor between the parts of a Unicode escape
    assert!(parse_cst("\\u{ 41 }", LifeRestartRule::EscapedUnicode).is_err());
    assert!(parse_cst("\\u{41}", LifeRestartRule::EscapedUnicode).is_ok());
    // an unterminated block comment is no trivia
    assert!(parse_cst("/* open", LifeRestartRule::Root).is_err());
    assert_eq!(parse_cst("/* a */", LifeRestartRule::Comment).unwrap().text, "/* a */");
    assert_eq!(parse_cst("// a\nb", LifeRestartRule::Comment).unwrap().text, "// a");
    assert_eq!(parse_cst("/**/*/", LifeRestartRule::Comment).unwrap().text, "/**/");
    assert_eq!(parse_cst(" \t\r\n\u{3000}x", LifeRestartRule::WhiteSpace).unwrap().span, 0..7);
}

#[test]
fn lexical_rules() {
    let id = |text: &str| parse_cst(text, LifeRestartRule::Identifier).map(|n| n.text);
    assert_eq!(id("_a1 ").unwrap(), "_a1");
    assert_eq!(id("名字2-").unwrap(), "名字2");
    assert_eq!(id("é").unwrap(), "é");
    assert!(id("1a").is_err());
    assert!(id("-").is_err());
    assert!(id("").is_err());
    let int = |text: &str| parse_cst(text, LifeRestartRule::Integer).map(|n| n.text);
    assert_eq!(int("0").unwrap(), "0");
    assert_eq!(int("007").unwrap(), "0");
    assert_eq!(int("1230x").unwrap(), "1230");
    assert!(int("-1").is_err());
    assert!(int("x").is_err());
    let hex = |text: &str| parse_cst(text, LifeRestartRule::HEX).map(|n| n.text);
    assert_eq!(hex("aF09}").unwrap(), "aF09");
    assert_eq!(hex("1234567").unwrap(), "12345");
    assert!(hex("g").is_err());
    let escape = |text: &str| parse_cst(text, LifeRestartRule::EscapedCharacter).map(|n| n.text);
    assert_eq!(escape("\\n").unwrap(), "\\n");
    assert_eq!(escape("\\\"x").unwrap(), "\\\"");
    assert!(escape("\\\n").is_err());
    assert!(escape("\\").is_err());
    assert!(escape("n").is_err());
    let plain = |text: &str| parse_cst(text, LifeRestartRule::TextAny).map(|n| n.text);
    assert_eq!(plain("ab\\c").unwrap(), "ab");
    assert_eq!(plain("ab\"c").unwrap(), "ab");
    assert!(plain("\"").is_err());
    assert_eq!(parse_cst("'", LifeRestartRule::StringRawText).unwrap().text, "");
    assert_eq!(parse_cst("a'b", LifeRestartRule::StringRawText).unwrap().text, "a");
}

#[test]
fn keywords_in_both_languages() {
    for (rule, words) in [
        (LifeRestartRule::KW_PROPERTY, vec!["属性", "property"]),
        (
            LifeRestartRule::KW_TRAIT_GROUP,
            vec!["特质组", "特征组", "天赋组", "trait-group", "talent-group", "traits", "talents"],
        ),
        (LifeRestartRule::KW_TRAIT, vec!["特质", "特征", "天赋", "trait", "talent"]),
        (LifeRestartRule::KW_EVENT_GROUP, vec!["事件组", "event-group", "events"]),
        (LifeRestartRule::KW_EVENT, vec!["事件", "event"]),
        (LifeRestartRule::KW_ID, vec!["编号", "id", "ID", "Id", "iD"]),
        (
            LifeRestartRule::KW_DESCRIPTION,
            vec!["动态文本", "动态描述", "文本", "描述", "description", "details", "detail"],
        ),
        (LifeRestartRule::KW_REQUIREMENT, vec!["出现要求", "要求", "requires"]),
        (LifeRestartRule::KW_EFFECT, vec!["效果", "effects", "effect"]),
        (LifeRestartRule::KW_ENUMERATE, vec!["枚举", "enumerate", "enum"]),
        (LifeRestartRule::KW_OPTIONS, vec!["选项", "options", "option"]),
        (LifeRestartRule::KW_IF, vec!["如果", "if"]),
        (LifeRestartRule::KW_ELSE_IF, vec!["否则如果", "else-if", "elseif", "elif"]),
        (LifeRestartRule::KW_ELSE, vec!["否则", "else"]),
        (LifeRestartRule::COMMA, vec![","]),
        (LifeRestartRule::COLON, vec![":"]),
        (LifeRestartRule::EOS, vec![";"]),
    ] {
        for word in words {
            let node = parse_cst(word, rule).unwrap();
            assert_eq!(node.text, word, "{:?}", rule);
            assert_eq!(node.rule, rule);
            assert_eq!(node.span, 0..word.len());
        }
        assert!(parse_cst("?", rule).is_err());
    }
}

#[test]
fn operators_in_both_languages() {
    for (slot, words) in [
        (Slot::Geq, vec!["大于等于", ">="]),
        (Slot::Leq, vec!["小于等于", "<="]),
        (Slot::Ne, vec!["不等于", "!="]),
        (Slot::Eq, vec!["等于", "为", "=="]),
        (Slot::Gt, vec!["大于", ">"]),
        (Slot::Lt, vec!["小于", "<"]),
        (Slot::And, vec!["&&", "且"]),
        (Slot::Or, vec!["||", "或"]),
        (Slot::Has, vec!["拥有", "有", "has"]),
        (Slot::AddAssign, vec!["+="]),
        (Slot::SubAssign, vec!["-="]),
        (Slot::Add, vec!["+"]),
        (Slot::Sub, vec!["-"]),
    ] {
        for word in words {
            let node = parse_cst(word, LifeRestartRule::Infix).unwrap();
            assert_eq!(node.children.len(), 1);
            assert_eq!(node.children[0].slot, slot);
            assert_eq!(node.children[0].rule, LifeRestartRule::HiddenText);
            assert_eq!(node.children[0].text, word);
        }
    }
    for word in ["不是", "非", "!"] {
        let node = parse_cst(word, LifeRestartRule::Prefix).unwrap();
        assert_eq!(node.children[0].slot, Slot::Prefix0);
    }
    assert_eq!(parse_cst("%", LifeRestartRule::Suffix).unwrap().children[0].slot, Slot::Suffix0);
    for (word, slot) in [("真", Slot::True), ("true", Slot::True), ("假", Slot::False), ("false", Slot::False)] {
        assert_eq!(parse_cst(word, LifeRestartRule::Boolean).unwrap().children[0].slot, slot);
    }
}

#[test]
fn description_forms() {
    let kids = |text: &str| {
        parse_cst(text, LifeRestartRule::DescriptionStatement)
            .map(|node| (node.children.len(), node.span.end))
    };
    assert_eq!(kids("description 'a'").unwrap(), (1, 15));
    assert_eq!(kids("描述 'a' 'b', 'c',").unwrap(), (3, 20));
    assert_eq!(kids("details 'a' , \"b\" x").unwrap(), (2, 17));
    assert_eq!(kids("('a', 'b')").unwrap(), (2, 10));
    assert_eq!(kids("( 'a' 'b' , )").unwrap(), (2, 13));
    assert_eq!(kids("()").unwrap(), (0, 2));
    assert!(kids("description").is_err());
    assert!(kids("('a'").is_err());
}

#[test]
fn event_property_suffixes_are_tried_in_order() {
    let end = |text: &str| {
        parse_cst(text, LifeRestartRule::EventProperty).map(|node| (shape(&node), node.span.end))
    };
    let bare = "EventProperty#Root[Identifier#Identifier=\"a\"]";
    // no suffix at all
    assert_eq!(end("a: b").unwrap(), (bare.to_string(), 4));
    // a bare closing bracket
    assert_eq!(end("a[ b ] {}").unwrap(), (bare.to_string(), 6));
    // a block inside a second pair of braces
    assert_eq!(end("a: b { { c: d } }").unwrap(), (bare.to_string(), 17));
    // a bare block
    assert_eq!(end("a: b { c: d e[ f ] }").unwrap(), (bare.to_string(), 20));
    // a suffix that does not match is left unread
    assert_eq!(end("a: b { c }").unwrap(), (bare.to_string(), 5));
    assert!(end("a b").is_err());
}

#[test]
fn statements_and_blocks() {
    let text = "requires { if a > 1 { b } else-if c { d; } else { e } ; f % + !g }";
    let node = parse_cst(text, LifeRestartRule::RequirementStatement).unwrap();
    assert_eq!(node.span, 0..text.len());
    let rules: Vec<LifeRestartRule> = node.children.iter().map(|c| c.children[0].rule).collect();
    assert_eq!(
        rules,
        [LifeRestartRule::IfStatement, LifeRestartRule::EOS, LifeRestartRule::Expression]
    );
    let branches: Vec<Slot> = node.children[0].children[0].children.iter().map(|c| c.slot).collect();
    assert_eq!(branches, [Slot::IfThenBlock, Slot::IfElseIfBlock, Slot::IfElseBlock]);
    let text = "enumerate { a, b c , }";
    let node = parse_cst(text, LifeRestartRule::EnumerateStatement).unwrap();
    let names: Vec<&str> = node.children.iter().map(|c| c.text.as_str()).collect();
    assert_eq!(names, ["a", "b", "c"]);
    assert!(node.children.iter().all(|c| c.slot == Slot::Variant));
    let node = parse_cst("选项[]", LifeRestartRule::OptionStatement).unwrap();
    assert!(node.children.is_empty());
    let node = parse_cst("a : 10", LifeRestartRule::OptionItem).unwrap();
    assert_eq!(node.children[1].slot, Slot::Weight);
    let node = parse_cst("name : [1, [true], 'x']", LifeRestartRule::TraitProperty).unwrap();
    assert_eq!(node.children[0].slot, Slot::Identifier);
    assert_eq!(node.children[1].slot, Slot::Atomic);
}
