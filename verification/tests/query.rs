use liquers::query::{
    ActionParameter, ActionRequest, Key, Position, Query, QuerySegment, ResourceName,
    SegmentHeader, TransformQuerySegment,
};

fn hello_query() -> Query {
    Query {
        segments: vec![QuerySegment::Transform(TransformQuerySegment {
            query: vec![ActionRequest::new("hello".to_owned())],
            ..Default::default()
        })],
        absolute: false,
    }
}

#[test]
fn query_encode_link_action_parameter() {
    let ap = ActionParameter::Link(hello_query(), Position::unknown());
    assert_eq!(ap.encode(), "~X~hello~E");
}

#[test]
fn query_encode_action_request() {
    let a = ActionRequest {
        name: "action".to_owned(),
        position: Position::unknown(),
        parameters: vec![],
    };
    assert_eq!(a.encode(), "action");
    let a = ActionRequest::new("action1".to_owned());
    assert_eq!(a.encode(), "action1");
    let a = ActionRequest {
        name: "action".to_owned(),
        position: Position::unknown(),
        parameters: vec![
            ActionParameter::Link(hello_query(), Position::unknown()),
            ActionParameter::String("world".to_string(), Position::unknown()),
        ],
    };
    assert_eq!(a.encode(), "action-~X~hello~E-world");
    let a = ActionRequest::new("action1".to_owned()).with_parameters(vec![
        ActionParameter::new_link(hello_query()),
        ActionParameter::new_string("world".to_owned()),
    ]);
    assert_eq!(a.encode(), "action1-~X~hello~E-world");
}

#[test]
fn query_encode_segment_header() {
    let head = SegmentHeader::new();
    assert_eq!(head.encode(), "-");
}

#[test]
fn position_text() {
    assert_eq!(Position::unknown().to_string(), "(unknown position)");
    assert_eq!(Position::new(4, 1, 5).to_string(), "position 5");
    assert_eq!(Position::new(40, 3, 12).to_string(), "line 3, position 12");
    assert_eq!(Position::new(0, 1, 1234567890).to_string(), "position 1234567890");
    assert_eq!(Position::new(0, 1, 0).to_string(), "position 0");
}

#[test]
fn resource_name_extension() {
    assert_eq!(ResourceName::new("input.csv".to_owned()).extension(), Some("csv".to_owned()));
    assert_eq!(ResourceName::new("a.tar.gz".to_owned()).extension(), Some("gz".to_owned()));
    assert_eq!(ResourceName::new("data".to_owned()).extension(), None);
    assert_eq!(ResourceName::new("data.".to_owned()).extension(), Some("".to_owned()));
}

#[test]
fn key_operations() {
    let k = Key::new().join("a").join("b.txt");
    assert_eq!(k.len(), 2);
    assert_eq!(k.encode(), "a/b.txt");
    assert!(k.has_prefix("a/"));
    assert!(k.has_prefix(""));
    assert!(!k.has_prefix("b"));
    assert_eq!(k.filename().unwrap().name, "b.txt");
    assert_eq!(k.parent().encode(), "a");
    assert_eq!(k.join("c").parent().encode(), k.encode());
    assert_eq!(Key::new().parent().len(), 0);
    assert!(Key::new().is_empty());
    assert!(Key::new().filename().is_none());
    assert_eq!(k.get(0).unwrap().name, "a");
    assert!(k.get(2).is_none());
}

#[test]
fn key_to_absolute() {
    let cwd = Key::new().join("x").join("y");
    let rel = Key::new().join(".").join("a");
    assert_eq!(rel.to_absolute(&cwd).encode(), "x/y/a");
    let up = Key::new().join("..").join("a");
    assert_eq!(up.to_absolute(&cwd).encode(), "x/a");
    let abs = Key::new().join("a").join("b").join("..").join("c").join(".");
    assert_eq!(abs.to_absolute(&cwd).encode(), "a/c");
    assert_eq!(Key::new().join("..").to_absolute(&Key::new()).encode(), "");
}

#[test]
fn header_encoding() {
    let mut h = SegmentHeader::new();
    h.level = 2;
    h.resource = true;
    h.name = "store".to_owned();
    h.parameters.push(liquers::query::HeaderParameter::new("meta".to_owned()));
    h.parameters.push(liquers::query::HeaderParameter::new("x.y".to_owned()));
    assert_eq!(h.encode(), "---Rstore-meta-x.y");
    assert!(!h.is_trivial());
    assert!(SegmentHeader::new().is_trivial());
}

#[test]
fn encode_token_escapes() {
    assert_eq!(liquers::query::encode_token("a b"), "a~.b");
    assert_eq!(liquers::query::encode_token("a-b/c~d"), "a~_b~/c~~d");
    assert_eq!(liquers::query::encode_token("https://x/y"), "~Hx~/y");
    assert_eq!(liquers::query::encode_token("http://x"), "~hx");
    assert_eq!(liquers::query::encode_token("file://x"), "~fx");
    assert_eq!(liquers::query::encode_token("ftp://x"), "ftp~Px");
    assert_eq!(liquers::query::encode_token("plain_1+2.3"), "plain_1+2.3");
    assert_eq!(liquers::query::encode_token(""), "");
}

#[test]
fn query_predicates() {
    let q = liquers::parse::parse_query("ns-x/a-b/c/f.txt").unwrap();
    assert!(q.is_transform_query());
    assert!(!q.is_resource_query());
    assert!(!q.is_action_request());
    assert!(!q.is_empty());
    assert_eq!(q.filename().unwrap().name, "f.txt");
    assert_eq!(q.extension().unwrap(), "txt");
    assert_eq!(q.last_ns().unwrap()[0].encode(), "x");
    assert!(q.action().is_none());
    assert!(q.resource_query().is_none());
    let t = q.transform_query().unwrap();
    assert_eq!(t.len(), 3);
    assert!(!t.is_empty() && !t.is_filename() && !t.is_action_request());
    assert_eq!(q.clone().without_filename().encode(), "ns-x/a-b/c");
    assert_eq!(q.clone().short(3), "f.txt");
    assert!(q.last_transform_query_name().is_none());

    let q = liquers::parse::parse_query("-R/a/b.csv").unwrap();
    assert!(q.is_resource_query());
    let r = q.resource_query().unwrap();
    assert_eq!(r.path(), "a/b.csv");
    assert_eq!(r.len(), 2);
    assert_eq!(r.position().offset, 0);
    assert_eq!(r.filename().unwrap().name, "b.csv");
    assert_eq!(q.filename().unwrap().name, "b.csv");
    assert!(q.ns().is_none());

    let q = liquers::parse::parse_query("a/b/-realm-p/x").unwrap();
    assert_eq!(q.last_transform_query_name().unwrap(), "realm");
    assert_eq!(Query::new().short(10), "");
    let empty =
        Query { segments: vec![QuerySegment::Transform(Default::default())], absolute: true };
    assert_eq!(empty.encode(), "/");
    assert_eq!(empty.clone().short(0), "...");
    assert_eq!(empty.short(1), "/");
}

#[test]
fn predecessors() {
    fn split(text: &str) -> (String, Option<String>) {
        let q = liquers::parse::parse_query(text).unwrap();
        let (p, r) = q.predecessor();
        (p.unwrap().encode(), r.map(|s| s.encode()))
    }
    assert_eq!(split("a/b/c"), ("a/b".to_string(), Some("c".to_string())));
    assert_eq!(split("a/b/c.txt"), ("a/b".to_string(), Some("c.txt".to_string())));
    assert_eq!(split("a"), ("".to_string(), Some("a".to_string())));
    assert_eq!(split("/a"), ("/".to_string(), Some("a".to_string())));
    assert_eq!(split("-R/a/b"), ("".to_string(), Some("-R/a/b".to_string())));
    assert_eq!(split("-R/a/-x/b/c"), ("-R/a/-x/b".to_string(), Some("-x/c".to_string())));
    assert_eq!(split("-R/a/-x/b"), ("-R/a".to_string(), Some("-x/b".to_string())));
    let (p, r) = Query::new().predecessor();
    assert!(p.is_none() && r.is_none());

    let t = liquers::parse::parse_query("a-1/b").unwrap().transform_query().unwrap();
    let (p, r) = t.predecessor();
    let (p, r) = (p.unwrap(), r.unwrap());
    assert_eq!((p.encode(), r.encode()), ("a-1".to_string(), "b".to_string()));
    assert_eq!(p.clone().add(r.clone()).encode(), "a-1/b");
    assert_eq!(p.clone().add_option(None).encode(), "a-1");
    assert_eq!(p.add_option(Some(r)).encode(), "a-1/b");
    let (p, r) = TransformQuerySegment::default().predecessor();
    assert!(p.is_none() && r.is_none());
}

#[test]
fn kinds_of_parameters() {
    assert!(ActionParameter::new_string("a".to_string()).is_string());
    assert!(!ActionParameter::new_link(Query::new()).is_string());
}
