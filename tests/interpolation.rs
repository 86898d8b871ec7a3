use jomini::{TextTape, TextToken};
use rakaly::expr::Term;
use rakaly::materialize::Encoding;
use rakaly::resolve::{InterpolatedTape, InterpolationError};

fn scalar_text<'a>(tokens: &'a [TextToken<'a>], i: usize) -> &'a [u8] {
    match &tokens[i] {
        TextToken::Unquoted(s) => s.as_bytes(),
        _ => panic!("not an unquoted scalar"),
    }
}

fn eval(term: &Term, tokens: &[TextToken], values: &[f64]) -> f64 {
    match term {
        Term::Number(i) => match &tokens[*i] {
            TextToken::Unquoted(s) => s.to_f64().unwrap(),
            _ => panic!("not a number"),
        },
        Term::Literal(sp) => {
            let b = &scalar_text(tokens, sp.token)[sp.start..sp.end];
            std::str::from_utf8(b).unwrap().parse::<f64>().unwrap()
        }
        Term::Var(k) => values[*k],
        Term::Neg(t) => -eval(t, tokens, values),
        Term::Add(a, b) => eval(a, tokens, values) + eval(b, tokens, values),
        Term::Sub(a, b) => eval(a, tokens, values) - eval(b, tokens, values),
        Term::Mul(a, b) => eval(a, tokens, values) * eval(b, tokens, values),
        Term::Div(a, b) => eval(a, tokens, values) / eval(b, tokens, values),
    }
}

fn render(value: f64) -> String {
    if value.fract() == 0.0 {
        format!("{}", value as i64)
    } else {
        format!("{}", value)
    }
}

fn rendered(tape: &InterpolatedTape) -> Vec<String> {
    let mut values: Vec<f64> = Vec::new();
    for v in &tape.variables {
        let x = eval(&v.value, tape.tokens, &values);
        values.push(x);
    }
    tape.overrides
        .iter()
        .map(|o| render(eval(&o.value, tape.tokens, &values)))
        .collect()
}

fn interpolate(data: &[u8]) -> String {
    let tape = TextTape::from_slice(data).unwrap();
    let interpolated = InterpolatedTape::from_tape_with_interpolation(&tape).unwrap();
    let texts = rendered(&interpolated);
    interpolated.to_json(&texts, Encoding::Utf8).unwrap()
}

fn failure(data: &[u8]) -> String {
    let tape = TextTape::from_slice(data).unwrap();
    match InterpolatedTape::from_tape_with_interpolation(&tape) {
        Ok(_) => panic!("interpolation succeeded"),
        Err(e) => e.message(tape.tokens()),
    }
}

#[test]
fn test_basic_variable_interpolation() {
    let data = br#"
@my_var = 10
my_obj = {
  pos_x = @[100-my_var]
  pos_y = @my_var
}
"#;
    assert_eq!(interpolate(data), r#"{"my_obj":{"pos_x":90,"pos_y":10}}"#);
}

#[test]
fn test_arithmetic_expressions() {
    let data = br#"
@half = @[1/2]
scale = @[1-half]
scale_mul = @[1*half]
scale_add = @[1+half]
scale_div = @[1/half]
my_list = { @[1-half] @half }
"#;
    assert_eq!(
        interpolate(data),
        r#"{"scale":0.5,"scale_mul":0.5,"scale_add":1.5,"scale_div":2,"my_list":[0.5,0.5]}"#
    );
}

#[test]
fn test_complex_expressions() {
    let data = br#"@half = @[1/2]
my_calc = @[(-half-half)*half]"#;
    assert_eq!(interpolate(data), r#"{"my_calc":-0.5}"#);
}

#[test]
fn test_interpolation_equivalence() {
    let data = br#"
@my_var = 10
my_obj = {
  pos_x = @[100-my_var]
  pos_y = @my_var
}
"#;
    assert_eq!(interpolate(data), r#"{"my_obj":{"pos_x":90,"pos_y":10}}"#);
}

#[test]
fn test_nested_variable_filtering() {
    let data = br#"
obj = { @half = 0.5 pos_x=@half pos_y=@[half*2] }
scale = @[1-0.25]
"#;
    assert_eq!(
        interpolate(data),
        r#"{"obj":{"pos_x":0.5,"pos_y":1},"scale":0.75}"#
    );
}

#[test]
fn test_comprehensive_interpolation_with_complete_json() {
    let data = br#"@base = 10
@factor = @[1/4]
@doubled = @[base*2]
@halved = @[base/2]
width = @doubled
height = @base
ratio = @factor"#;
    assert_eq!(interpolate(data), r#"{"width":20,"height":10,"ratio":0.25}"#);
}

#[test]
fn test_parentheses_interpolation() {
    let data = br#"
@width = 768
@cross_x = @[ ( 333 / width ) + 0.001 ]
test_value = @cross_x
"#;
    assert_eq!(interpolate(data), r#"{"test_value":0.43459375}"#);
}

#[test]
fn test_chained_divisions() {
    let data = br#"
@test1 = @[1/3/2]
@test2 = @[8/4/2]
@test3 = @[12/3/2/2]
result1 = @test1
result2 = @test2
result3 = @test3
"#;
    assert_eq!(
        interpolate(data),
        r#"{"result1":0.16666666666666666,"result2":1,"result3":1}"#
    );
}

#[test]
fn plain_document_matches_direct_rendering() {
    let data = br#"a = 1 b = { c = "d" e = { 1 2 3 } } f = yes g = 1.5"#;
    let tape = TextTape::from_slice(data).unwrap();
    let direct = tape.utf8_reader().json().to_string();
    assert_eq!(interpolate(data), direct);
}

#[test]
fn declared_number_is_substituted_everywhere() {
    assert_eq!(interpolate(b"@x = 2.5 a = @x b = { c = @x }"), r#"{"a":2.5,"b":{"c":2.5}}"#);
    assert_eq!(interpolate(b"@x = 3.0 a = @x"), r#"{"a":3}"#);
}

#[test]
fn forward_reference_resolves() {
    assert_eq!(
        interpolate(b"@a = @b x = @a @b = 42 y = @b"),
        r#"{"x":42,"y":42}"#
    );
    assert_eq!(
        interpolate(b"@a = @b @b = @c @c = 7 v = @a"),
        r#"{"v":7}"#
    );
}

#[test]
fn unresolved_reference_is_reported() {
    let message = failure(b"@a = @b foo = 1");
    assert!(message.contains("@a -> @b"));
    assert_eq!(message, "Unresolved variable references: @a -> @b");
}

#[test]
fn cyclic_references_are_all_reported() {
    assert_eq!(
        failure(b"@a = @b @c = @a"),
        "Unresolved variable references: @a -> @b, @c -> @a"
    );
}

#[test]
fn unknown_operand_is_reported() {
    assert_eq!(failure(b"a = @[1+zz]"), "Unknown operand: zz");
    let tape = TextTape::from_slice(b"a = @[1+zz]").unwrap();
    match InterpolatedTape::from_tape_with_interpolation(&tape) {
        Err(InterpolationError::UnknownOperand(sp)) => {
            assert_eq!((sp.token, sp.start, sp.end), (1, 4, 6));
        }
        _ => panic!("expected an unknown operand"),
    }
}

#[test]
fn expression_precedence() {
    assert_eq!(interpolate(b"@half = 0.5 v = @[1+half]"), r#"{"v":1.5}"#);
    assert_eq!(interpolate(b"@half=0.5 v = @[(-half-half)*half]"), r#"{"v":-0.5}"#);
    assert_eq!(interpolate(b"v = @[1/2/2]"), r#"{"v":0.25}"#);
    assert_eq!(interpolate(b"v = @[2+3*4-1]"), r#"{"v":13}"#);
    assert_eq!(interpolate(b"v = @[10-4-3]"), r#"{"v":3}"#);
    assert_eq!(interpolate(b"@h = 2 v = @[-h]"), r#"{"v":-2}"#);
    assert_eq!(interpolate(b"@h = 2 v = @[-(h+1)]"), r#"{"v":-3}"#);
}

#[test]
fn division_by_zero_passes_through() {
    let tape = TextTape::from_slice(b"v = @[1/0]").unwrap();
    let interpolated = InterpolatedTape::from_tape_with_interpolation(&tape).unwrap();
    assert_eq!(rendered(&interpolated), vec![String::from("inf")]);
}

#[test]
fn declarations_never_reach_the_output() {
    let data = b"@a = 1 list = { @b = 2 x = @b } arr = { 1 2 } obj = { inner = { @c = 3 z = @c } y = @a }";
    let tape = TextTape::from_slice(data).unwrap();
    let interpolated = InterpolatedTape::from_tape_with_interpolation(&tape).unwrap();
    let texts = rendered(&interpolated);
    let filtered = interpolated.filtered_tape(&texts, Encoding::Utf8);
    assert!(rakaly::json::check_nested(&filtered.token_data));
    for t in &filtered.token_data {
        if let rakaly::materialize::TapeToken::Unquoted(k) = t {
            assert!(!filtered.owned_strings[*k].starts_with('@'));
        }
    }
    assert_eq!(
        interpolated.to_json(&texts, Encoding::Utf8).unwrap(),
        r#"{"list":{"x":2},"arr":[1,2],"obj":{"inner":{"z":3},"y":1}}"#
    );
}

#[test]
fn first_declaration_wins() {
    assert_eq!(interpolate(b"@a = 1 @a = 2 v = @a"), r#"{"v":1}"#);
    assert_eq!(interpolate(b"@a = 1 @a = @[zz] v = @a"), r#"{"v":1}"#);
}

#[test]
fn exists_operator_becomes_assignment() {
    assert_eq!(interpolate(b"foo ?= 10"), r#"{"foo":10}"#);
}

#[test]
fn comparison_operators_are_wrapped() {
    assert_eq!(interpolate(b"cond > 5"), r#"{"cond":{"GREATER_THAN":5}}"#);
    assert_eq!(interpolate(b"@n = 5 cond <= @n"), r#"{"cond":{"LESS_THAN_EQUAL":5}}"#);
}

#[test]
fn end_to_end_example() {
    assert_eq!(
        interpolate(b"@w=768\n@cx=@[(333/w)+0.001]\ntest=@cx"),
        r#"{"test":0.43459375}"#
    );
}

#[test]
fn string_table_holds_no_duplicates() {
    let tape = TextTape::from_slice(b"a = 1 b = 1 a = 2 c = @[0+1]").unwrap();
    let interpolated = InterpolatedTape::from_tape_with_interpolation(&tape).unwrap();
    let texts = rendered(&interpolated);
    let m = interpolated.materialize(&texts, Encoding::Utf8);
    let mut seen = m.owned_strings.clone();
    seen.sort();
    seen.dedup();
    assert_eq!(seen.len(), m.owned_strings.len());
    assert_eq!(m.owned_strings, vec!["a", "1", "b", "2", "c"]);
}

#[test]
fn invalid_utf8_is_replaced() {
    let tape = TextTape::from_slice(b"a = \"x\xff\"").unwrap();
    let interpolated = InterpolatedTape::from_tape_with_interpolation(&tape).unwrap();
    let m = interpolated.materialize(&Vec::new(), Encoding::Utf8);
    assert_eq!(m.owned_strings[1], "x\u{FFFD}");
}

#[test]
fn windows1252_text_is_decoded() {
    let tape = TextTape::from_slice(b"a = \"caf\xe9\"").unwrap();
    let interpolated = InterpolatedTape::from_tape_with_interpolation(&tape).unwrap();
    let m = interpolated.materialize(&Vec::new(), Encoding::Windows1252);
    assert_eq!(m.owned_strings[1], "caf\u{e9}");
}

#[test]
fn empty_document() {
    assert_eq!(interpolate(b""), "{}");
}

#[test]
fn value_reference_is_no_declaration() {
    assert_eq!(
        failure(b"@a = @b @c = 5"),
        "Unresolved variable references: @a -> @b"
    );
    assert_eq!(
        failure(b"@a = @b @c = @d"),
        "Unresolved variable references: @a -> @b, @c -> @d"
    );
}

#[test]
fn reference_before_next_declaration_is_replaced() {
    assert_eq!(interpolate(b"@a = 1 x = @a @b = 5 y = @b"), r#"{"x":1,"y":5}"#);
}

#[test]
fn array_elements_are_values() {
    assert_eq!(
        interpolate(b"@half = 0.5 l = { @half @[1-half] }"),
        r#"{"l":[0.5,0.5]}"#
    );
}

#[test]
fn objects_inside_arrays_hold_declarations() {
    assert_eq!(
        interpolate(b"l = { { @v = 2 x = @v } { y = @v } }"),
        r#"{"l":[{"x":2},{"y":2}]}"#
    );
}

#[test]
fn unicode_spaces_are_trimmed() {
    assert_eq!(interpolate(b"@h = 2 v = @[\xc2\xa0h\xe3\x80\x80]"), r#"{"v":2}"#);
    assert_eq!(failure(b"v = @[1+\xe2\x80\x83zz]"), "Unknown operand: zz");
}
