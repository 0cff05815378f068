use rust_fedora::method::Method;
use rust_fedora::request::Request;
use rust_fedora::strmap::StrMap;

fn check_map(m: &StrMap, pairs: &[(&str, &str)]) {
    assert_eq!(m.len(), pairs.len());
    for (k, v) in pairs {
        assert_eq!(m.get(k), Some(*v));
    }
}

#[test]
fn it_works() {
    let result = 2 + 2;
    assert_eq!(result, 4);
}

#[test]
fn tests_parse_method_works() {
    let inputs = ["get", "post", "put", "delete", "POST", "GeT"];
    let expected_outputs = vec![
        Method::Get,
        Method::Post,
        Method::Put,
        Method::Delete,
        Method::Post,
        Method::Get,
    ];

    let outputs: Vec<Method> = inputs
        .into_iter()
        .map(|input| Request::parse_method(input).unwrap())
        .collect();

    assert_eq!(outputs, expected_outputs);
}

#[test]
fn tests_parse_method_errs_as_expected() {
    let inputs = [
        "get  ",
        "pst",
        "534378456jhkdfhks",
        "de lete",
        "P POST",
        "GeTPost",
    ];

    let outputs: Vec<bool> = inputs
        .into_iter()
        .map(|input| Request::parse_method(input).is_err())
        .collect();

    let is_all_true = outputs.into_iter().all(|item| item);

    assert_eq!(is_all_true, true);
}

#[test]
fn tests_parse_url_works() {
    let inputs = vec![
        "",
        "/",
        "/?name=joe",
        "?name=joe",
        "/path/poop/////",
        "/soimetdfsjiofdfsfsfsfsfsdfggghgkjd??????????",
    ];

    let expected_outputs = [
        ("/", ""),
        ("/", ""),
        ("/", "name=joe"),
        ("/", "name=joe"),
        ("/path/poop/////", ""),
        ("/soimetdfsjiofdfsfsfsfsfsdfggghgkjd", "?????????"),
    ];

    let outputs: Vec<(&str, &str)> = inputs
        .into_iter()
        .map(|url| Request::parse_url(url))
        .collect();

    assert_eq!(outputs, expected_outputs);
}

#[test]
fn tests_parse_query_params_works() {
    let inputs = [
        "name=joe",
        "name=1234&age=12",
        "name=***",
        "age=123&name=456&height= =tall= ",
        "123=347",
        "=123 ",
        " 123=",
        "=123&123=",
    ];

    let expected_outputs: Vec<Vec<(&str, &str)>> = vec![
        vec![("name", "joe")],
        vec![("name", "1234"), ("age", "12")],
        vec![("name", "***")],
        vec![("age", "123"), ("name", "456"), ("height", " =tall= ")],
        vec![("123", "347")],
        vec![("", "123 ")],
        vec![(" 123", "")],
        vec![("", "123"), ("123", "")],
    ];

    for (input, expected) in inputs.into_iter().zip(expected_outputs.iter()) {
        let output = Request::parse_query_string(input);
        check_map(&output, expected);
    }
}
