use rust_fedora::method::Method;
use rust_fedora::request::Request;
use rust_fedora::strmap::StrMap;

// helper to check a map against the pairs it should hold
fn assert_map(m: &StrMap, pairs: &[(&str, &str)]) {
    assert_eq!(m.len(), pairs.len());
    for (k, v) in pairs {
        assert_eq!(m.get(k), Some(*v));
    }
}

// attempt to parse the method from a string
#[test]
fn parse_method_works() {
    let inputs = ["get", "post", "put", "delete", "POST", "GeT"];
    let expected_outputs = vec![
        Method::Get,
        Method::Post,
        Method::Put,
        Method::Delete,
        Method::Post,
        Method::Get,
    ];

    let outputs: Vec<Method> = inputs
        .into_iter()
        .map(|input| Request::parse_method(input).unwrap())
        .collect();

    assert_eq!(outputs, expected_outputs);
}

// pass bad input to be parsed
#[test]
fn parse_method_errs_as_expected() {
    let inputs = [
        "get  ",
        "pst",
        "534378456jhkdfhks",
        "de lete",
        "P POST",
        "GeTPost",
    ];

    let outputs: Vec<bool> = inputs
        .into_iter()
        .map(|input| Request::parse_method(input).is_err())
        .collect();

    let is_all_true = outputs.into_iter().all(|item| item);

    assert_eq!(is_all_true, true);
}

#[test]
fn parse_url_works() {
    let inputs = vec![
        "",
        "/",
        "/?name=joe",
        "?name=joe",
        "/path/poop/////",
        "/soimetdfsjiofdfsfsfsfsfsdfggghgkjd??????????",
    ];

    let expected_outputs = [
        ("/", ""),
        ("/", ""),
        ("/", "name=joe"),
        ("/", "name=joe"),
        ("/path/poop/////", ""),
        ("/soimetdfsjiofdfsfsfsfsfsdfggghgkjd", "?????????"),
    ];

    let outputs: Vec<(&str, &str)> = inputs
        .into_iter()
        .map(|url| Request::parse_url(url))
        .collect();

    assert_eq!(outputs, expected_outputs);
}

#[test]
fn parse_query_params_works() {
    let inputs = [
        "name=joe",
        "name=1234&age=12",
        "name=***",
        "age=123&name=456&height= =tall= ",
        "123=347",
        "=123 ",
        " 123=",
        "=123&123=",
    ];

    let expected_outputs: Vec<Vec<(&str, &str)>> = vec![
        vec![("name", "joe")],
        vec![("name", "1234"), ("age", "12")],
        vec![("name", "***")],
        vec![("age", "123"), ("name", "456"), ("height", " =tall= ")],
        vec![("123", "347")],
        vec![("", "123 ")],
        vec![(" 123", "")],
        vec![("", "123"), ("123", "")],
    ];

    for (input, expected) in inputs.into_iter().zip(expected_outputs.iter()) {
        let output = Request::parse_query_string(input);
        assert_map(&output, expected);
    }
}

#[test]
fn parse_query_params_returns_empty_map_on_invlaid_input() {
    let inputs = [
        "&&&&&&&&&&",
        "some invalid as heck input",
        "aadasda&asdhadkada&&&AD&&AD&A&DA&DA&",
        "1234324234",
        "123213213&ajashda",
        "&&&&&-&",
        "lfdkljsfskdf",
        "sfdsfsfdsfsfdsfsfsdfdsffsdfdsfdsfsd",
        "",
    ];

    for input in inputs {
        let output = Request::parse_query_string(input);
        assert!(output.is_empty());
    }
}

#[test]
fn parse_query_params_ignores_invalid_input() {
    let inputs = [
        "valid=part&invalid-part",
        "invalid-part&valid=part",
        "&invalid-part&valid=part",
        "invalid-part&valid=part&",
        "&invalid-part&valid=part&",
        "&valid=part&simed123&other=valid&",
        "infsdifns&valid=part&sfsdifosfjsdf",
    ];

    let expected_outputs: Vec<Vec<(&str, &str)>> = vec![
        vec![("valid", "part")],
        vec![("valid", "part")],
        vec![("valid", "part")],
        vec![("valid", "part")],
        vec![("valid", "part")],
        vec![("valid", "part"), ("other", "valid")],
        vec![("valid", "part")],
    ];

    for (input, expected) in inputs.into_iter().zip(expected_outputs.iter()) {
        let output = Request::parse_query_string(input);
        assert_map(&output, expected);
    }
}

#[test]
fn parse_query_params_ignores_duplicate_input() {
    // of duplicate keys, the last value given ends up in the map
    let inputs = [
        "age=1&age=42",
        "age=1&name=baz&age=42",
        "name=baz&age=42&age=1",
        "name=baz&age=1&name=foo&age=123",
        "name=baz&age=1&name=foo&age=123",
        "age=1&age=42&age=79",
        "=2&=asd",
    ];

    let expected_outputs: Vec<Vec<(&str, &str)>> = vec![
        vec![("age", "42")],
        vec![("name", "baz"), ("age", "42")],
        vec![("name", "baz"), ("age", "1")],
        vec![("name", "foo"), ("age", "123")],
        vec![("name", "foo"), ("age", "123")],
        vec![("age", "79")],
        vec![("", "asd")],
    ];

    for (input, expected) in inputs.into_iter().zip(expected_outputs.iter()) {
        let output = Request::parse_query_string(input);
        assert_map(&output, expected);
    }
}

#[test]
fn parse_http_ver_works() {
    let inputs = [
        "HTTP/1.1",
        "HTTP/1.2",
        "HTTP/1.3",
        "HTTP/1.4",
        "HTTP/1.5",
        "HTTP/1.6",
        "HTTP/1.7",
        "HTTP/1.8",
        "HTTP/1.9",
        "HTTP/1.10", // not a real version: the last character alone counts,
                     // so this reads as 0, not 10
    ];

    let expected_outputs: [u8; 10] = [1, 2, 3, 4, 5, 6, 7, 8, 9, 0];

    let outputs: Vec<u8> = inputs
        .into_iter()
        .map(|input| Request::parse_http_ver(input).unwrap())
        .collect();

    assert_eq!(outputs, expected_outputs);
}

#[test]
fn parse_http_ver_errors_as_expected() {
    // error conditions:
    // 1. doesn't start with "HTTP/1."
    // 2. the last character is not a digit
    let inputs = [
        "HTTP/1.", "hTTP/1.", "HTTP/2.", "HTTP/2", "HTTP/1.a", "hTTP/1.a", "HTTP/1. ", "HTTP/.1",
    ];

    let _outputs: Vec<_> = inputs
        .into_iter()
        .map(|input| Request::parse_http_ver(input).unwrap_err())
        .collect();
}

#[test]
fn parse_head_works() {
    let input = vec![
        "some ignored first line",
        "HeaDer1: somevaluehere",
        "HeaDer2: somevaluehere",
        "another header: 2134",
        "values: 1, 2, 3, 4, 5, asd",
        ": 2134",
        "", // this line marks the end of incoming headers
    ];

    // key case is preserved: "HeaDer1" stays "HeaDer1"
    let expected: Vec<(&str, &str)> = vec![
        ("HeaDer1", "somevaluehere"),
        ("HeaDer2", "somevaluehere"),
        ("another header", "2134"),
        ("values", "1, 2, 3, 4, 5, asd"),
        ("", "2134"),
    ];

    let output = Request::parse_head(&input);

    assert_map(&output, &expected);
}

#[test]
fn parse_head_returns_empty_on_all_bad_input() {
    let input = vec![
        "some ignored first line",
        "HeaDer1 somevaluehere",
        "HeaDer2 somevaluehere",
        "another header 2134",
        "values 1, 2, 3, 4, 5, asd",
        " 2134",
        "", // this line marks the end of incoming headers
    ];

    let output = Request::parse_head(&input);

    assert!(output.is_empty());
}

#[test]
fn parse_head_ignores_bad_input() {
    let input = vec![
        "some ignored first line",
        "header1: somevaluehere",
        "header2 somevaluehere",
        "another header: 2134",
        "values 1, 2, 3, 4, 5, asd",
        ": 2134",
        "", // this line marks the end of incoming headers
    ];

    let expected: Vec<(&str, &str)> = vec![
        ("header1", "somevaluehere"),
        ("another header", "2134"),
        ("", "2134"),
    ];

    let output = Request::parse_head(&input);

    assert_map(&output, &expected);
}

#[test]
fn parse_head_ignores_duplicate_input() {
    let input = vec![
        "some ignored first line",
        "header1: somevaluehere",
        "header1: somevaluehere1",
        "header2: somevaluehere",
        "another header: 2134",
        "values: 1, 2, 3, 4, 5, asd",
        ": 2134",
        ": 2135",
        "header2: somevaluehere123",
        "", // this line marks the end of incoming headers
    ];

    let expected: Vec<(&str, &str)> = vec![
        ("header1", "somevaluehere1"),
        ("header2", "somevaluehere123"),
        ("another header", "2134"),
        ("values", "1, 2, 3, 4, 5, asd"),
        ("", "2135"),
    ];

    let output = Request::parse_head(&input);

    assert_map(&output, &expected);
}
