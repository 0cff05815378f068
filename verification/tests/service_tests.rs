use rust_fedora::method::Method;
use rust_fedora::querystring::QueryString;
use rust_fedora::router::FedoraRouter;
use rust_fedora::routes::route_request;
use rust_fedora::strmap::StrMap;
use rust_fedora::svc::Svc;

#[test]
fn strmap_keeps_one_value_per_key() {
    let mut m = StrMap::new();
    assert!(m.is_empty());
    m.insert("a".to_string(), "1".to_string());
    m.insert("b".to_string(), "2".to_string());
    m.insert("a".to_string(), "3".to_string());

    assert_eq!(m.len(), 2);
    assert_eq!(m.get("a"), Some("3"));
    assert_eq!(m.get("b"), Some("2"));
    assert_eq!(m.get("c"), None);
    assert!(m.contains_key("a"));
    assert!(!m.contains_key("c"));
    assert_eq!(m.key_at(0), "a");
    assert_eq!(m.val_at(1), "2");
}

#[test]
fn query_string_wrapper_parses_once() {
    let qs = QueryString::new("password=123&foo=bar");
    let params = qs.query_params();
    assert_eq!(params.len(), 2);
    assert_eq!(params.get("password"), Some("123"));
    assert_eq!(params.get("foo"), Some("bar"));

    let qs = QueryString::new("these are all invalid params and will be ignored&valid= params");
    assert_eq!(qs.query_params().len(), 1);
    assert_eq!(qs.query_params().get("valid"), Some(" params"));
}

#[test]
fn router_starts_with_a_zero_counter() {
    let router = FedoraRouter::new();
    assert_eq!(router.counter, 0);
}

#[test]
fn svc_counts_known_pages_and_reports_the_old_count() {
    let mut svc = Svc::new();
    assert_eq!(svc.counter, 123);

    assert_eq!(svc.call("/"), "home! counter = 123");
    assert_eq!(svc.counter, 124);

    assert_eq!(svc.call("/posts"), "posts, of course! counter = 124");
    assert_eq!(svc.call("/authors"), "authors extraordinare! counter = 125");
    assert_eq!(svc.counter, 126);

    assert_eq!(svc.call("/nowhere"), "oh no! not found");
    assert_eq!(svc.counter, 126);
}

#[test]
fn routes_answer_the_echo_pages() {
    let body = b"hello world".to_vec();

    let (status, out) = route_request(&Method::Get, "/", &body);
    assert_eq!(status, 200);
    assert_eq!(
        out,
        b"Try POSTing data to /echo such as: `curl localhost:3000/echo -XPOST -d 'hello world'`"
            .to_vec()
    );

    let (status, out) = route_request(&Method::Post, "/echo", &body);
    assert_eq!(status, 200);
    assert_eq!(out, b"hello world".to_vec());

    let (status, out) = route_request(&Method::Post, "/echo/uppercase", &body);
    assert_eq!(status, 200);
    assert_eq!(out, b"HELLO WORLD".to_vec());

    let (status, out) = route_request(&Method::Post, "/echo/reversed", &body);
    assert_eq!(status, 200);
    assert_eq!(out, b"dlrow olleh".to_vec());

    let (status, out) = route_request(&Method::Get, "/echo", &body);
    assert_eq!(status, 404);
    assert_eq!(out, Vec::<u8>::new());

    let (status, out) = route_request(&Method::Delete, "/", &body);
    assert_eq!(status, 404);
    assert!(out.is_empty());
}
