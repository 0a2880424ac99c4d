use css_parser::{
    consume_at_rule, consume_declaration, consume_function, consume_simple_bloc, normalize,
    parse_stylesheet, ComponentValue,
};

#[test]
fn simple_block_test() {
    let simple_block = "{
            color: white;
        }";
    let mut tokens = normalize(simple_block.to_string());

    let res = consume_simple_bloc(&mut tokens);

    match res {
        Err(err) => {
            println!("error for parsing this block {:#?}", err);
            assert!(false);
        }
        Ok(_) => {
            assert!(true);
        }
    }
}

#[test]
fn function_test() {
    let simple_function = "circle(50px)";
    let mut tokens = normalize(simple_function.to_string());
    println!("{:#?}", tokens);

    let res = consume_function(&mut tokens);

    match res {
        Err(err) => {
            println!("error for parsing this function {:#?}", err);
            assert!(false)
        }
        Ok(res) => {
            println!("{:#?}", res);
            assert!(true)
        }
    }
}

#[test]
fn at_rule_test() {
    let at_input = "@charset utf8;";
    let mut tokens = normalize(at_input.to_string());

    let res = consume_at_rule(&mut tokens, false);
    match res {
        None => {
            println!("error no rule can be parsed");

            assert!(false);
        }
        Some(_rule) => {
            assert!(true)
        }
    }
}

#[test]
fn balise_color_test() {
    let css = "a {
            color: white;
        }";

    let _res = parse_stylesheet(css.to_string());
}

#[test]
fn test_simple_declaration() {
    let css = "color: red;";
    let mut tokens = normalize(css.to_string());
    let decl = consume_declaration(&mut tokens, false);
    assert!(decl.is_some());
    let decl = decl.unwrap();
    assert_eq!(decl.name, "color");
    assert_eq!(decl.component_values.len(), 1);
    assert!(!decl.important);
}

#[test]
fn test_declaration_with_important() {
    let css = "margin: 10px !important;";
    let mut tokens = normalize(css.to_string());
    let decl = consume_declaration(&mut tokens, false);
    assert!(decl.is_some());
    let decl = decl.unwrap();
    assert_eq!(decl.name, "margin");
    assert!(decl.important);
    assert_eq!(decl.component_values.len(), 1); // only "10px": "!important" is removed
}

#[test]
fn test_invalid_declaration_missing_colon() {
    let css = "color red;";
    let mut tokens = normalize(css.to_string());
    let decl = consume_declaration(&mut tokens, false);
    assert!(decl.is_none());
}

#[test]
fn test_declaration_with_function() {
    let css = "transform: rotate(45deg);";
    let mut tokens = normalize(css.to_string());
    let decl = consume_declaration(&mut tokens, false);
    assert!(decl.is_some());
    let decl = decl.unwrap();
    assert_eq!(decl.name, "transform");
    println!("{:#?}", &decl);
    assert_eq!(decl.component_values.len(), 1);
    if let ComponentValue::Function {
        name,
        component_value,
    } = &decl.component_values[0]
    {
        assert_eq!(name, "rotate");
        assert_eq!(component_value.len(), 1);
    } else {
        panic!("Expected a function component value");
    }
}
