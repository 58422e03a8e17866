use liquid::parse;
use liquid::LiquidOptions;
use liquid::Block;
use liquid::ErrorMode;
use liquid::parser::ForBlock;
use liquid::parser::ParseError;
use liquid::lexer::tokenize;
use liquid::lexer::Token;
use liquid::lexer::LexError;
use liquid::template::get_array;
use liquid::value::Value;
use liquid::value::RenderErr;
use liquid::context::Context;

#[test]
fn test_for() {
    let block = ForBlock;
    let options: LiquidOptions = Default::default();
    let for_tag = block.initialize(
        "for",
        &vec![
            Token::Identifier("name".to_string()),
            Token::Identifier("in".to_string()),
            Token::Identifier("array".to_string()),
        ],
        tokenize("test {{name}} ").unwrap(),
        &options,
    );

    let mut data: Context = Default::default();
    data.set_val(
        "array",
        Value::Array(vec![
            Value::Num(22),
            Value::Num(23),
            Value::Num(24),
            Value::Str("wat".to_string()),
        ]),
    );
    assert_eq!(
        for_tag.unwrap().render(&mut data).unwrap(),
        "test 22 test 23 test 24 test wat ".to_string()
    );
}

#[test]
fn minimal_template() {
    let mut options: LiquidOptions = Default::default();
    let template = parse("Liquid!", &mut options).unwrap();
    let mut data = Context::new();
    let output = template.render(&mut data);
    assert_eq!(output.unwrap(), "Liquid!".to_string());
}

#[test]
fn literal_only_is_identity() {
    let text = "no tags here, just text with } and % and { alone";
    let mut options: LiquidOptions = Default::default();
    let template = parse(text, &mut options).unwrap();
    let mut data = Context::new();
    assert_eq!(template.render(&mut data).unwrap(), text);
}

#[test]
fn round_trip_number() {
    let mut options: LiquidOptions = Default::default();
    let template = parse("{{ x }}", &mut options).unwrap();
    let mut data = Context::new();
    data.set_val("x", Value::Num(5));
    assert_eq!(template.render(&mut data).unwrap(), "5");
}

#[test]
fn if_else_truthiness() {
    let cases: Vec<(Value, &str)> = vec![
        (Value::Bool(true), "A"),
        (Value::Bool(false), "B"),
        (Value::Num(3), "A"),
        (Value::Num(0), "B"),
        (Value::Str("x".to_string()), "A"),
        (Value::Str("".to_string()), "B"),
        (Value::Array(vec![Value::Num(1)]), "A"),
        (Value::Array(vec![]), "B"),
    ];
    for (value, expected) in cases {
        let mut options: LiquidOptions = Default::default();
        let template = parse("{% if cond %}A{% else %}B{% endif %}", &mut options).unwrap();
        let mut data = Context::new();
        data.set_val("cond", value);
        assert_eq!(template.render(&mut data).unwrap(), expected);
    }
}

#[test]
fn if_absent_variable_is_false() {
    let mut options: LiquidOptions = Default::default();
    let template = parse("{% if cond %}A{% else %}B{% endif %}", &mut options).unwrap();
    let mut data = Context::new();
    assert_eq!(template.render(&mut data).unwrap(), "B");
}

#[test]
fn if_literal_true() {
    let mut options: LiquidOptions = Default::default();
    let template = parse("{% if true %}A{% else %}B{% endif %}", &mut options).unwrap();
    let mut data = Context::new();
    assert_eq!(template.render(&mut data).unwrap(), "A");
}

#[test]
fn for_renders_each_element() {
    let mut options: LiquidOptions = Default::default();
    let template = parse("{% for item in arr %}{{ item }} {% endfor %}", &mut options).unwrap();
    let mut data = Context::new();
    data.set_val(
        "arr",
        Value::Array(vec![
            Value::Num(22),
            Value::Num(23),
            Value::Num(24),
            Value::Str("wat".to_string()),
        ]),
    );
    assert_eq!(template.render(&mut data).unwrap(), "22 23 24 wat ");
}

#[test]
fn for_empty_array_renders_empty() {
    let mut options: LiquidOptions = Default::default();
    let template = parse("{% for item in arr %}X{% endfor %}", &mut options).unwrap();
    let mut data = Context::new();
    data.set_val("arr", Value::Array(vec![]));
    assert_eq!(template.render(&mut data).unwrap(), "");
}

#[test]
fn unterminated_block_is_parse_error() {
    let mut options: LiquidOptions = Default::default();
    let result = parse("{% if true %}no end tag", &mut options);
    assert!(matches!(result, Err(ParseError::UnterminatedBlock(ref name)) if name == "if"));
}

#[test]
fn unknown_tag_is_parse_error_naming_it() {
    let mut options: LiquidOptions = Default::default();
    let result = parse("{% bogus %}", &mut options);
    assert!(matches!(result, Err(ParseError::UnknownTag(ref name)) if name == "bogus"));
}

#[test]
fn three_levels_of_nesting() {
    let mut options: LiquidOptions = Default::default();
    let text = "{% for a in xs %}{% if flag %}{% for b in ys %}{{ b }}{% endfor %}{% endif %}{% endfor %}";
    let template = parse(text, &mut options).unwrap();
    let mut data = Context::new();
    data.set_val("xs", Value::Array(vec![Value::Num(1), Value::Num(2)]));
    data.set_val("flag", Value::Bool(true));
    data.set_val("ys", Value::Array(vec![Value::Num(7)]));
    assert_eq!(template.render(&mut data).unwrap(), "77");
}

#[test]
fn nested_same_name_blocks_match() {
    let mut options: LiquidOptions = Default::default();
    let text = "{% if a %}{% if b %}X{% else %}Y{% endif %}{% else %}Z{% endif %}";
    let template = parse(text, &mut options).unwrap();

    let mut data = Context::new();
    data.set_val("a", Value::Bool(true));
    data.set_val("b", Value::Bool(false));
    assert_eq!(template.render(&mut data).unwrap(), "Y");

    let mut data2 = Context::new();
    data2.set_val("a", Value::Bool(false));
    data2.set_val("b", Value::Bool(true));
    assert_eq!(template.render(&mut data2).unwrap(), "Z");
}

#[test]
fn size_filter_on_array() {
    let mut options: LiquidOptions = Default::default();
    let template = parse("{{ arr | size }}", &mut options).unwrap();
    let mut data = Context::new();
    data.set_val(
        "arr",
        Value::Array(vec![
            Value::Num(1),
            Value::Num(2),
            Value::Num(3),
            Value::Num(4),
        ]),
    );
    assert_eq!(template.render(&mut data).unwrap(), "4");
}

#[test]
fn size_filter_on_string() {
    let mut options: LiquidOptions = Default::default();
    let template = parse("{{ s | size }}", &mut options).unwrap();
    let mut data = Context::new();
    data.set_val("s", Value::Str("abcd".to_string()));
    assert_eq!(template.render(&mut data).unwrap(), "4");
}

#[test]
fn repeated_renders_with_equal_contexts_agree() {
    let mut options: LiquidOptions = Default::default();
    let template = parse("{% for item in arr %}{{ item }};{% endfor %}", &mut options).unwrap();

    let mut data1 = Context::new();
    data1.set_val("arr", Value::Array(vec![Value::Num(10), Value::Num(20)]));
    let first = template.render(&mut data1).unwrap();

    let mut data2 = Context::new();
    data2.set_val("arr", Value::Array(vec![Value::Num(10), Value::Num(20)]));
    let second = template.render(&mut data2).unwrap();

    assert_eq!(first, second);
    assert_eq!(first, "10;20;");
}

#[test]
fn raw_block_keeps_source_unevaluated() {
    let mut options: LiquidOptions = Default::default();
    let template = parse("{% raw %}{{ x }}{% endraw %}", &mut options).unwrap();
    let mut data = Context::new();
    assert_eq!(template.render(&mut data).unwrap(), "{{ x }}");
}

#[test]
fn comment_block_renders_empty() {
    let mut options: LiquidOptions = Default::default();
    let template = parse("a{% comment %}hidden {{ x }}{% endcomment %}b", &mut options).unwrap();
    let mut data = Context::new();
    data.set_val("x", Value::Num(1));
    assert_eq!(template.render(&mut data).unwrap(), "ab");
}

#[test]
fn undefined_variable_is_render_error() {
    let mut options: LiquidOptions = Default::default();
    let template = parse("{{ missing }}", &mut options).unwrap();
    let mut data = Context::new();
    assert_eq!(template.render(&mut data), Err(RenderErr::UndefinedVariable));
}

#[test]
fn unknown_filter_is_render_error() {
    let mut options: LiquidOptions = Default::default();
    let template = parse("{{ x | nope }}", &mut options).unwrap();
    let mut data = Context::new();
    data.set_val("x", Value::Num(1));
    assert_eq!(template.render(&mut data), Err(RenderErr::UnknownFilter));
}

#[test]
fn for_over_non_array_is_type_error() {
    let mut options: LiquidOptions = Default::default();
    let template = parse("{% for i in x %}y{% endfor %}", &mut options).unwrap();
    let mut data = Context::new();
    data.set_val("x", Value::Num(1));
    assert_eq!(template.render(&mut data), Err(RenderErr::TypeMismatch));
}

#[test]
fn for_over_absent_variable_is_undefined() {
    let mut options: LiquidOptions = Default::default();
    let template = parse("{% for i in x %}y{% endfor %}", &mut options).unwrap();
    let mut data = Context::new();
    assert_eq!(template.render(&mut data), Err(RenderErr::UndefinedVariable));
}

#[test]
fn unterminated_delimiter_is_lex_error() {
    let mut options: LiquidOptions = Default::default();
    let result = parse("text {{ x", &mut options);
    assert!(matches!(result, Err(ParseError::Lex(LexError::UnterminatedDelimiter))));
}

#[test]
fn unterminated_string_is_lex_error() {
    let mut options: LiquidOptions = Default::default();
    let result = parse("{{ 'abc }}", &mut options);
    assert!(matches!(result, Err(ParseError::Lex(LexError::UnterminatedString))));
}

#[test]
fn number_overflow_is_lex_error() {
    let mut options: LiquidOptions = Default::default();
    let result = parse("{{ 99999999999999999999 }}", &mut options);
    assert!(matches!(result, Err(ParseError::Lex(LexError::NumberOverflow))));
}

#[test]
fn unexpected_character_is_lex_error() {
    let mut options: LiquidOptions = Default::default();
    let result = parse("{{ @ }}", &mut options);
    assert!(matches!(result, Err(ParseError::Lex(LexError::UnexpectedCharacter))));
}

#[test]
fn missing_if_condition_is_malformed_arguments() {
    let mut options: LiquidOptions = Default::default();
    let result = parse("{% if %}A{% endif %}", &mut options);
    assert!(matches!(result, Err(ParseError::MalformedArguments(ref name)) if name == "if"));
}

#[test]
fn bad_for_arguments_are_malformed() {
    let mut options: LiquidOptions = Default::default();
    let result = parse("{% for x of arr %}{% endfor %}", &mut options);
    assert!(matches!(result, Err(ParseError::MalformedArguments(ref name)) if name == "for"));
}

#[test]
fn dangling_pipe_is_malformed_expression() {
    let mut options: LiquidOptions = Default::default();
    let result = parse("{{ x | }}", &mut options);
    assert!(matches!(result, Err(ParseError::MalformedExpression(ref t)) if t == "{{ x | }}"));
}

#[test]
fn boolean_and_negative_number_rendering() {
    let mut options: LiquidOptions = Default::default();
    let template = parse("{{ b }} {{ n }}", &mut options).unwrap();
    let mut data = Context::new();
    data.set_val("b", Value::Bool(true));
    data.set_val("n", Value::Num(-42));
    assert_eq!(template.render(&mut data).unwrap(), "true -42");
}

#[test]
fn array_renders_as_concatenation() {
    let mut options: LiquidOptions = Default::default();
    let template = parse("{{ arr }}", &mut options).unwrap();
    let mut data = Context::new();
    data.set_val(
        "arr",
        Value::Array(vec![Value::Num(1), Value::Str("x".to_string()), Value::Bool(false)]),
    );
    assert_eq!(template.render(&mut data).unwrap(), "1xfalse");
}

#[test]
fn loop_variable_keeps_last_binding() {
    let mut options: LiquidOptions = Default::default();
    let template = parse("{% for i in arr %}{% endfor %}{{ i }}", &mut options).unwrap();
    let mut data = Context::new();
    data.set_val("arr", Value::Array(vec![Value::Num(1), Value::Num(9)]));
    assert_eq!(template.render(&mut data).unwrap(), "9");
}

#[test]
fn user_registered_block_alias() {
    let mut options: LiquidOptions = Default::default();
    options.register_block("when", Block::If);
    let template = parse("{% when cond %}A{% else %}B{% endwhen %}", &mut options).unwrap();
    let mut data = Context::new();
    data.set_val("cond", Value::Bool(true));
    assert_eq!(template.render(&mut data).unwrap(), "A");
}

#[test]
fn last_registration_wins() {
    let mut options: LiquidOptions = Default::default();
    // Within one registry the latest registration for a name wins; parse
    // installs built-ins only under names with no registration yet.
    options.register_block("note", Block::Comment);
    options.register_block("note", Block::Raw);
    let template = parse("{% note %}{{ kept }}{% endnote %}", &mut options).unwrap();
    let mut data = Context::new();
    assert_eq!(template.render(&mut data).unwrap(), "{{ kept }}");
}

#[test]
fn get_array_distinguishes_failures() {
    let mut data = Context::new();
    data.set_val("arr", Value::Array(vec![Value::Num(8)]));
    data.set_val("n", Value::Num(8));
    let ok = get_array(&mut data, "arr").unwrap();
    assert_eq!(ok.len(), 1);
    assert_eq!(get_array(&mut data, "n"), Err(RenderErr::TypeMismatch));
    assert_eq!(get_array(&mut data, "zip"), Err(RenderErr::UndefinedVariable));
}

#[test]
fn set_val_overrides_earlier_binding() {
    let mut options: LiquidOptions = Default::default();
    let template = parse("{{ x }}", &mut options).unwrap();
    let mut data = Context::new();
    data.set_val("x", Value::Num(1));
    data.set_val("x", Value::Num(2));
    assert_eq!(template.render(&mut data).unwrap(), "2");
}

#[test]
fn error_mode_defaults_to_warn() {
    let mode: ErrorMode = Default::default();
    assert!(matches!(mode, ErrorMode::Warn));
}

#[test]
fn string_literal_condition_is_truthy_when_nonempty() {
    let mut options: LiquidOptions = Default::default();
    let template = parse("{% if 'x' %}A{% else %}B{% endif %}", &mut options).unwrap();
    let mut data = Context::new();
    assert_eq!(template.render(&mut data).unwrap(), "A");

    let template2 = parse("{% if 0 %}A{% else %}B{% endif %}", &mut options).unwrap();
    assert_eq!(template2.render(&mut data).unwrap(), "B");
}

#[test]
fn size_filter_on_number_is_type_error() {
    let mut options: LiquidOptions = Default::default();
    let template = parse("{{ x | size }}", &mut options).unwrap();
    let mut data = Context::new();
    data.set_val("x", Value::Num(7));
    assert_eq!(template.render(&mut data), Err(RenderErr::TypeMismatch));
}

#[test]
fn raw_block_keeps_inner_tag_spans() {
    let mut options: LiquidOptions = Default::default();
    let template = parse("{% raw %}a {% if x %} b{% endraw %}", &mut options).unwrap();
    let mut data = Context::new();
    assert_eq!(template.render(&mut data).unwrap(), "a {% if x %} b");
}

#[test]
fn builtin_override_registered_first_is_honored() {
    let mut options: LiquidOptions = Default::default();
    options.register_block("raw", Block::Comment);
    let template = parse("a{% raw %}{{ hidden }}{% endraw %}b", &mut options).unwrap();
    let mut data = Context::new();
    assert_eq!(template.render(&mut data).unwrap(), "ab");
}

#[test]
fn for_body_error_takes_precedence_over_bad_arguments() {
    let mut options: LiquidOptions = Default::default();
    let result = parse("{% for x of arr %}{% bogus %}{% endfor %}", &mut options);
    assert!(matches!(result, Err(ParseError::UnknownTag(ref name)) if name == "bogus"));
}

#[test]
fn nesting_past_the_depth_limit_fails_predictably() {
    let mut text = String::new();
    for _ in 0..100 {
        text.push_str("{% if true %}");
    }
    text.push_str("x");
    for _ in 0..100 {
        text.push_str("{% endif %}");
    }
    let mut options: LiquidOptions = Default::default();
    assert!(matches!(parse(&text, &mut options), Err(ParseError::NestingTooDeep)));
}
