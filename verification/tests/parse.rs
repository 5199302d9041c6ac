use liquers::parse::{action_request, parse_key, parse_query, query_parser};
use liquers::query::{ActionParameter, QuerySegment};

fn roundtrip(text: &str) -> String {
    parse_query(text).unwrap().encode()
}

#[test]
fn parse_query_test() {
    let path = parse_query("").unwrap();
    assert_eq!(path.len(), 0);
    let path = parse_query("abc-def").unwrap();
    assert_eq!(path.len(), 1);
    let path = parse_query("abc-def/xxx-123").unwrap();
    assert_eq!(path.len(), 1);
    assert_eq!(path.segments[0].len(), 2);
}

#[test]
fn parse_ns() {
    let path = parse_query("ns-abc").unwrap();
    assert!(path.is_ns());
    assert_eq!(path.ns().unwrap().len(), 1);
    assert_eq!(path.ns().unwrap()[0].encode(), "abc");
}

#[test]
fn parse_last_ns() {
    let path = parse_query("ns-abc/test").unwrap();
    assert!(!path.is_ns());
    assert_eq!(path.last_ns().unwrap().len(), 1);
    assert_eq!(path.last_ns().unwrap()[0].encode(), "abc");
    let path = parse_query("test").unwrap();
    assert!(!path.is_ns());
    assert!(path.last_ns().is_none());
}

#[test]
fn parse_roundtrips() {
    for text in [
        "",
        "/",
        "hello",
        "hello/greet-world",
        "hello/greet-world/out.txt",
        "/hello/greet-world/out.txt",
        "-R/data/input.csv/-/to_table/column-y",
        "-R/a/b",
        "/-R/a/b",
        "-R-meta/a/b",
        "--Rname-x-y.z/a",
        "a/b/-/c/d",
        "a/b/-x-1-2/c/d.txt",
        "-/a/-q/b",
        "a-~X~hello~E-world",
        "a-~X~/b-c/d.txt~E",
        "a-~X~-R/x/y~E/b",
        "a-~~~_~.~/~h~H~f~P",
        "a--b-",
        "pick-b",
    ] {
        assert_eq!(roundtrip(text), text, "{}", text);
    }
}

#[test]
fn parse_escapes() {
    let q = parse_query("a-~I-~123-x~.y-~hserver~/path").unwrap();
    let a = q.action().unwrap();
    assert_eq!(a.name, "a");
    let values: Vec<String> = a
        .parameters
        .iter()
        .map(|p| match p {
            ActionParameter::String(s, _) => s.clone(),
            ActionParameter::Link(_, _) => panic!("string expected"),
        })
        .collect();
    assert_eq!(values, vec!["/", "-123", "x y", "http://server/path"]);
    assert_eq!(q.encode(), "a-~/-~_123-x~.y-~hserver~/path");
}

#[test]
fn parse_positions() {
    let q = parse_query("ab-c/d-~X~e~E").unwrap();
    match &q.segments[0] {
        QuerySegment::Transform(t) => {
            assert_eq!(t.query[0].position.offset, 0);
            assert_eq!(t.query[0].position.line, 1);
            assert_eq!(t.query[0].position.column, 1);
            assert_eq!(t.query[0].parameters[0].position().offset, 3);
            assert_eq!(t.query[1].position.offset, 5);
            match &t.query[1].parameters[0] {
                ActionParameter::Link(inner, p) => {
                    assert_eq!(p.offset, 7);
                    assert_eq!(inner.action().unwrap().position.offset, 10);
                }
                _ => panic!("link expected"),
            }
        }
        _ => panic!("transform expected"),
    }
}

#[test]
fn parse_errors() {
    let e = parse_query("abc/d e").unwrap_err();
    assert_eq!(e.position.offset, 5);
    assert_eq!(e.position.column, 6);
    assert_eq!(e.message, "Can't parse query 'abc/d e': unexpected ' e'");
    assert_eq!(e.to_string(), "Can't parse query 'abc/d e': unexpected ' e' at position 6");
    assert!(parse_query("a-~X~b").is_err());
    assert!(parse_query("a.").is_err());
    assert!(parse_query("-R").is_err());
    assert!(parse_query("a/").is_err());
}

#[test]
fn parse_resource_queries() {
    let q = parse_query("-R/data/input.csv/-/to_table/column-y").unwrap();
    assert_eq!(q.len(), 2);
    match &q.segments[0] {
        QuerySegment::Resource(r) => {
            assert_eq!(r.path(), "data/input.csv");
            assert_eq!(r.header.as_ref().unwrap().encode(), "-R");
        }
        _ => panic!("resource expected"),
    }
    match &q.segments[1] {
        QuerySegment::Transform(t) => {
            assert_eq!(t.query.len(), 2);
            assert_eq!(t.query[1].encode(), "column-y");
            assert_eq!(t.header.as_ref().unwrap().encode(), "-");
        }
        _ => panic!("transform expected"),
    }
    let q = parse_query("a/b/-/c/d").unwrap();
    assert_eq!(q.len(), 2);
    assert_eq!(q.segments[0].encode(), "a/b");
    assert_eq!(q.segments[1].encode(), "-/c/d");
    assert!(q.segments[0].len() == 2);
}

#[test]
fn parse_keys() {
    let k = parse_key("data/input.csv").unwrap();
    assert_eq!(k.len(), 2);
    assert_eq!(k.encode(), "data/input.csv");
    assert_eq!(k.filename().unwrap().name, "input.csv");
    assert_eq!(parse_key("").unwrap().len(), 0);
    assert!(parse_key("a//b").is_err());
    assert!(parse_key("-a").is_err());
    let e = parse_key("a/b c").unwrap_err();
    assert_eq!(e.position.offset, 3);
}

#[test]
fn parse_parse_action_test() {
    let (action, _end) = action_request("abc-def").unwrap();
    assert_eq!(action.name, "abc");
    assert_eq!(action.parameters.len(), 1);
    match &action.parameters[0] {
        ActionParameter::String(txt, _) => assert_eq!(txt, "def"),
        _ => assert!(false),
    }
}

#[test]
fn parse_path_test() {
    let text = "abc-def/xxx-123";
    let (path, end) = query_parser(text).unwrap();
    assert_eq!(text[end..].len(), 0);
    assert_eq!(text[end..].to_string().len(), 0);
    assert_eq!(path.encode(), text);
}

#[test]
fn actions_at_the_beginning() {
    let (action, end) = action_request("abc-def/xxx-123").unwrap();
    assert_eq!((action.name.as_str(), end), ("abc", 7));
    let (action, end) = action_request("abc").unwrap();
    assert_eq!((action.name.as_str(), action.parameters.len(), end), ("abc", 0, 3));
    assert!(action_request("-abc").is_none());
    assert!(action_request("").is_none());
    assert!(query_parser("abc-def/xxx-123 ").is_none());
    assert_eq!(query_parser("").unwrap().1, 0);
}
