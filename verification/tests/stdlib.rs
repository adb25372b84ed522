use lovm2::stdlib::data::{
    get_body_as_buffer, get_body_as_string, get_status, get_url, new_request, set_body, set_header,
    set_method, Method, Response,
};
use lovm2::stdlib::fs::{basename, parent};
use lovm2::stdlib::pattern::{captures, is_match, new_regex};
use lovm2::stdlib::string::{
    chr, format_text, index_of, join, ord, replace, split, to_lower, to_upper, trim,
};
use lovm2::value::heap::Heap;
use lovm2::value::Value;

/// Whether `v`, or the value it refers to, is the text `t`.
fn is_str(heap: &Heap, v: &Value, t: &str) -> bool {
    matches!(v.clone_inner(heap).ok().expect("dangling reference"), Value::Str(ref x) if x == t)
}

#[test]
fn native_is_match() {
    let re = new_regex("\\d{2}").ok().unwrap();
    assert!(is_match(&re, "ab10cd"));
    assert!(!is_match(&re, "ab1cd"));
    assert!(!is_match(&re, "abcd"));
}

#[test]
fn native_captures() {
    let mut heap = Heap::new();
    let re = new_regex("(\\d)?(\\S+)").ok().unwrap();

    let result = captures(&mut heap, &re, "1abc").unwrap();
    assert!(is_str(&heap, &result.get(&heap, &Value::Int(0)).ok().unwrap(), "1abc"));
    assert!(is_str(&heap, &result.get(&heap, &Value::Int(1)).ok().unwrap(), "1"));
    assert!(is_str(&heap, &result.get(&heap, &Value::Int(2)).ok().unwrap(), "abc"));

    let result = captures(&mut heap, &re, "abc").unwrap();
    assert!(is_str(&heap, &result.get(&heap, &Value::Int(0)).ok().unwrap(), "abc"));
    assert!(matches!(result.get(&heap, &Value::Int(1)).ok().unwrap().clone_inner(&heap), Ok(Value::Nil)));
    assert!(is_str(&heap, &result.get(&heap, &Value::Int(2)).ok().unwrap(), "abc"));
}

#[test]
fn captures_without_match_is_none() {
    let mut heap = Heap::new();
    let re = new_regex("x+").ok().unwrap();
    assert!(captures(&mut heap, &re, "abc").is_none());
}

#[test]
fn invalid_regex_is_an_error() {
    let e = new_regex("(").err().unwrap();
    assert!(e.ty.is_none());
    assert!(!e.msg.is_empty());
}

#[test]
fn filepath_operations() {
    let root_str = "/tmp/lovm2-paths/a/b";
    let parent_path = parent(root_str).unwrap();
    assert_eq!(Some("b".to_string()), basename(root_str));
    assert_eq!(Some("a".to_string()), basename(&parent_path));
}

#[test]
fn basename_of_root_is_none() {
    assert_eq!(None, basename("/"));
    assert_eq!(None, parent("/"));
}

#[test]
fn string_functions() {
    assert_eq!(Some(2), index_of("abcd", "cd"));
    assert_eq!(None, index_of("abcd", "x"));
    assert_eq!(Some(0), index_of("abcd", ""));
    assert_eq!("a-b-c", replace("a b c", " ", "-"));
    assert_eq!("abc", to_lower("AbC"));
    assert_eq!("ABC", to_upper("aBc"));
    assert_eq!("x y", trim("  x y \n"));
}

#[test]
fn string_split() {
    let mut heap = Heap::new();
    let parts = split(&mut heap, "a,b,,c", ",");
    assert!(matches!(parts.len(&heap), Ok(4)));
    assert!(is_str(&heap, &parts.get(&heap, &Value::Int(0)).ok().unwrap(), "a"));
    assert!(is_str(&heap, &parts.get(&heap, &Value::Int(2)).ok().unwrap(), ""));
    assert!(is_str(&heap, &parts.get(&heap, &Value::Int(3)).ok().unwrap(), "c"));
}

#[test]
fn chr_and_ord() {
    assert_eq!("a", chr(97).ok().unwrap());
    assert!(matches!(ord("a"), Ok(97)));
    assert!(ord("ab").is_err());
    assert!(ord("").is_err());
    let e = chr(0xff).err().unwrap();
    assert!(!e.msg.is_empty());
}

#[test]
fn request_method_ignores_case() {
    assert!(matches!(Method::try_from("pOsT".to_string()), Ok(Method::Post)));
    assert!(matches!(Method::try_from("GET".to_string()), Ok(Method::Get)));
    assert!(Method::try_from("fetch".to_string()).is_err());
}

#[test]
fn request_building() {
    let mut req = new_request("http://localhost/x".to_string());
    assert_eq!("http://localhost/x", get_url(&req));
    assert!(matches!(req.method, Method::Get));
    assert!(matches!(set_method(&mut req, "pOsT".to_string()), Ok(true)));
    assert!(matches!(req.method, Method::Post));
    assert!(set_method(&mut req, "nope".to_string()).is_err());
    assert!(set_body(&mut req, "abcd"));
    assert_eq!(b"abcd".to_vec(), req.body);
    set_header(&mut req, "a".to_string(), "1".to_string());
    set_header(&mut req, "b".to_string(), "2".to_string());
    set_header(&mut req, "a".to_string(), "3".to_string());
    assert_eq!(2, req.headers.len());
    assert_eq!(("a".to_string(), "3".to_string()), req.headers[0]);
}

#[test]
fn response_accessors() {
    let res = Response { status: 403, headers: vec![], body: b"[\"a\",\"b\"]".to_vec() };
    assert_eq!(403, get_status(&res));
    assert_eq!("[\"a\",\"b\"]", get_body_as_string(&res).ok().unwrap());
    let buf = get_body_as_buffer(&res);
    assert_eq!(res.body, buf.inner);
    assert_eq!(0, buf.roff);
    let bad = Response { status: 200, headers: vec![], body: vec![0xff, 0xfe] };
    assert!(get_body_as_string(&bad).is_err());
}

#[test]
fn values_as_text() {
    let mut heap = Heap::new();
    let ls = Value::List(vec![Value::Int(1), Value::Str("a".into()), Value::Nil, Value::Bool(true)]);
    assert_eq!(Some("[1, a, Nil, true]".to_string()), ls.to_text(&heap));
    let d = heap.box_value(Value::Dict(vec![(Value::Int(1), Value::Int(-2))]));
    assert_eq!(Some("{1: -2}".to_string()), d.to_text(&heap));
    assert_eq!(None, Value::Float(0).to_text(&heap));
    assert_eq!(Some("[]".to_string()), Value::List(vec![]).to_text(&heap));
}

#[test]
fn join_texts() {
    let mut heap = Heap::new();
    let ls = heap.box_value(Value::List(vec![Value::Str("a".into()), Value::Str("b".into()), Value::Int(1)]));
    let plain = ls.clone_inner(&heap).ok().unwrap();
    assert_eq!(Some("a-b-1".to_string()), join(&heap, &plain, "-").ok().unwrap());
    assert_eq!(Some(String::new()), join(&heap, &Value::List(vec![]), ", ").ok().unwrap());
    assert!(join(&heap, &Value::Int(1), ",").is_err());
}

#[test]
fn format_placeholders() {
    let args = vec!["1".to_string(), "2".to_string(), "3".to_string()];
    assert_eq!("1 + 2 = 3", format_text("{} + {} = {}", &args));
    assert_eq!("x!", format_text("{}!", &vec!["{}".to_string(), "x".to_string()]));
    assert_eq!("none", format_text("none", &args));
    assert_eq!("a{}", format_text("{}{}", &vec!["a".to_string()]));
}

#[test]
fn string_edge_cases_match_std() {
    for (base, pat, repl) in [("aaa", "aa", "b"), ("abc", "", "-"), ("", "", "x"), ("xyx", "x", ""), ("héllo", "é", "e"), ("ab", "abc", "z")] {
        assert_eq!(base.replace(pat, repl), replace(base, pat, repl));
    }
    for t in ["", "   ", "\u{3000}a b\u{2009}", "\t\nx\u{85}", "no space"] {
        assert_eq!(t.trim(), trim(t));
    }
    let mut heap = Heap::new();
    for (base, sep) in [("abc", ""), ("", ","), ("", ""), ("a--b--", "--"), ("xax", "xa"), ("é,ü", ",")] {
        let expected: Vec<&str> = base.split(sep).collect();
        let parts = split(&mut heap, base, sep);
        assert!(matches!(parts.len(&heap), Ok(n) if n == expected.len()));
        for (i, e) in expected.iter().enumerate() {
            assert!(is_str(&heap, &parts.get(&heap, &Value::Int(i as i64)).ok().unwrap(), e));
        }
    }
}
