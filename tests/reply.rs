use redis_cli::reply::{format_bulk_data, render, Reply};

fn bulk(s: &str) -> Reply {
    Reply::BulkString(s.as_bytes().to_vec())
}

#[test]
fn render_arrays_of_keys() {
    assert_eq!(render(&Reply::Array(vec![])), "(empty list or set)");
    assert_eq!(render(&Reply::Array(vec![bulk("c")])), "1) \"c\"\n");
    assert_eq!(format_bulk_data(vec![]), "(empty list or set)");
    assert_eq!(format_bulk_data(vec![bulk("c"), bulk("d")]), "1) \"c\"\n2) \"d\"\n");
}

#[test]
fn render_scalars() {
    assert_eq!(render(&Reply::Integer(42)), "(integer) 42\n");
    assert_eq!(render(&Reply::Integer(0)), "(integer) 0\n");
    assert_eq!(render(&Reply::Integer(-7)), "(integer) -7\n");
    assert_eq!(render(&Reply::Integer(i64::MIN)), "(integer) -9223372036854775808\n");
    assert_eq!(render(&Reply::Integer(i64::MAX)), "(integer) 9223372036854775807\n");
    assert_eq!(render(&Reply::Nil), "(nil)\n");
    assert_eq!(render(&Reply::Okay), "OK\n");
    assert_eq!(render(&Reply::Status(String::from("(error) ERR unknown"))), "(error) ERR unknown\n");
    assert_eq!(render(&bulk("1")), "\"1\"\n");
    assert_eq!(render(&bulk("1 2 3")), "\"1 2 3\"\n");
}

#[test]
fn render_bulk_text_and_bytes() {
    assert_eq!(render(&bulk("中文key")), "\"中文key\"\n");
    assert_eq!(render(&bulk("")), "\"\"\n");
    assert_eq!(render(&Reply::BulkString(vec![0xe4, 0xb8, b'k'])), "\"\\xe4\\xb8k\"\n");
    assert_eq!(
        render(&Reply::Array(vec![Reply::BulkString(vec![0xff, b'a'])])),
        "1) \"\\xffa\"\n"
    );
}

#[test]
fn render_index_column_width() {
    let items: Vec<Reply> = (1..=12).map(|i| bulk(&i.to_string())).collect();
    let shown = render(&Reply::Array(items));
    let lines: Vec<&str> = shown.lines().collect();
    assert_eq!(lines.len(), 12);
    assert_eq!(lines[0], " 1) \"1\"");
    assert_eq!(lines[8], " 9) \"9\"");
    assert_eq!(lines[9], "10) \"10\"");
    assert_eq!(lines[11], "12) \"12\"");
    let nine: Vec<Reply> = (1..=9).map(|i| bulk(&i.to_string())).collect();
    assert!(render(&Reply::Array(nine)).starts_with("1) \"1\"\n2) "));
    let hundred: Vec<Reply> = (1..=100).map(|_| Reply::Nil).collect();
    let shown = render(&Reply::Array(hundred));
    assert!(shown.starts_with("  1) (nil)\n  2) (nil)\n"));
    assert!(shown.ends_with(" 99) (nil)\n100) (nil)\n"));
}

#[test]
fn render_nested_arrays() {
    let nested = Reply::Array(vec![
        Reply::Array(vec![bulk("a"), bulk("b")]),
        bulk("c"),
        Reply::Array(vec![]),
        Reply::Integer(3),
    ]);
    assert_eq!(
        render(&nested),
        "1) 1) \"a\"\n   2) \"b\"\n2) \"c\"\n3) (empty list or set)\n4) (integer) 3\n"
    );
}
