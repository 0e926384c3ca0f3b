use playform::shader::preprocess;

#[test]
fn preprocess_vanilla_shader() {
    let input = String::from("foo\nbar\nbaz\n");
    let expected = Some(String::from("foo\nbar\nbaz\n"));
    let actual = preprocess(input, &Vec::new());
    assert!(actual == expected, "{:?} != {:?}", actual, expected);
}

#[test]
fn preprocess_var() {
    let input = String::from("\n$foo$\n$bar$\nbaz\n");
    let expected = Some(String::from("\nfoo\nbar\nbaz\n"));
    let actual = preprocess(
        input,
        &vec![
            (String::from("foo"), String::from("foo")),
            (String::from("bar"), String::from("bar")),
        ],
    );
    assert!(actual == expected, "{:?} != {:?}", actual, expected);
}

#[test]
fn preprocess_no_matching_token() {
    let input = String::from("\n$foo\nbar\nbaz\n");
    let expected = None;
    let actual = preprocess(input, &Vec::new());
    assert!(actual == expected, "{:?} != {:?}", actual, expected);
}

#[test]
fn preprocess_undefined_var() {
    let input = String::from("\n$foo$\nbar\nbaz\n");
    let expected = None;
    let actual = preprocess(input, &Vec::new());
    assert!(actual == expected, "{:?} != {:?}", actual, expected);
}

#[test]
fn preprocess_substitutes_values() {
    let vars = vec![(String::from("n"), String::from("42")), (String::from("x"), String::from(""))];
    assert_eq!(preprocess(String::from("a$n$b$x$c"), &vars), Some(String::from("a42bc")));
    assert_eq!(preprocess(String::from("$$"), &vars), None);
    assert_eq!(preprocess(String::from(""), &vars), Some(String::new()));
}
