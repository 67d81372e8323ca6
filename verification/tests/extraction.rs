use sapphillon::extract::extract_function_names;

#[test]
fn functions_block_names_in_order() {
    let text = "const Package = { functions: { add: { handler: 1 }, sub: { handler: 2 } } };";
    let names = extract_function_names(text);
    assert_eq!(names, vec!["add".to_string(), "sub".to_string()]);
}

#[test]
fn fallback_finds_handler_entries() {
    let text = "foo: { handler: async () => {} }";
    let names = extract_function_names(text);
    assert_eq!(names, vec!["foo".to_string()]);
}

#[test]
fn fallback_skips_reserved_keys() {
    let text = "meta: { handler: 1 } bar: { handler: 2 } Package: { handler: 3 }";
    let names = extract_function_names(text);
    assert_eq!(names, vec!["bar".to_string()]);
}

#[test]
fn duplicate_names_reported_once() {
    let text = "functions: { go: { a: 1 }, go: { b: 2 }, stop: { c: 3 } }";
    let names = extract_function_names(text);
    assert_eq!(names, vec!["go".to_string(), "stop".to_string()]);
}

#[test]
fn nested_keys_are_not_function_names() {
    // `inner` stands one brace level deeper and is no key of the block.
    let text = "functions: { outer: { parts: { x: 1 }, inner: { y: 2 } }, next: { z: 3 } }";
    let names = extract_function_names(text);
    assert_eq!(names, vec!["outer".to_string(), "next".to_string()]);
}

#[test]
fn no_names_in_plain_text() {
    let names = extract_function_names("console.log('hello');");
    assert!(names.is_empty());
}

#[test]
fn spaced_header_is_recognized() {
    let text = "functions : {\n  ping : {\n    handler: 1\n  }\n}";
    let names = extract_function_names(text);
    assert_eq!(names, vec!["ping".to_string()]);
}
