use campman::db::{Link, Node};
use campman::dsl::{FieldFilter, FilterOp, NodeFieldName, ToSql};
use campman::pull_result::PullResult;
use campman::view_npc_tab::{ViewNpcMessage, ViewNpcTab};

#[test]
fn columns_have_their_names() {
    assert_eq!(NodeFieldName::Name.to_sql(), "name");
    assert_eq!(NodeFieldName::Type.to_sql(), "type");
    assert_eq!(NodeFieldName::Meta.to_sql(), "meta");
    assert_eq!(NodeFieldName::Data.to_sql(), "data");
}

#[test]
fn comparisons_are_written_in_brackets() {
    assert_eq!(NodeFieldName::Name.eq("'Bob'").to_sql(), "(name = 'Bob')");
    assert_eq!(NodeFieldName::Type.ne("'npc'").to_sql(), "(type != 'npc')");
    assert_eq!(NodeFieldName::Meta.like("'%x%'").to_sql(), "(meta LIKE '%x%')");
    assert_eq!(NodeFieldName::Data.is_in("(1, 2)").to_sql(), "(data IN (1, 2))");
    assert_eq!(NodeFieldName::Name.eq("").to_sql(), "(name = )");
}

#[test]
fn comparisons_nest() {
    let inner = NodeFieldName::Name.eq("1");
    let outer = FieldFilter { op: FilterOp::Nequals, field: inner, val: "2".to_string() };
    assert_eq!(outer.to_sql(), "((name = 1) != 2)");
}

#[test]
fn the_first_failure_wins() {
    let all: Vec<Result<u8, String>> = vec![Ok(1), Ok(2), Ok(3)];
    assert_eq!(all.pull_result(), Ok(vec![1, 2, 3]));
    let some: Vec<Result<u8, String>> =
        vec![Ok(1), Err("first".to_string()), Ok(3), Err("second".to_string())];
    assert_eq!(some.pull_result(), Err("first".to_string()));
    let none: Vec<Result<u8, String>> = vec![];
    assert_eq!(none.pull_result(), Ok(vec![]));
    let last: Vec<Result<u8, u8>> = vec![Ok(1), Ok(2), Err(9)];
    assert_eq!(last.pull_result(), Err(9));
}

#[test]
fn nodes_and_links_compare_by_their_fields() {
    let node = |name: &str| Node {
        id: 1,
        name: name.to_string(),
        kind: "test".to_string(),
        meta: Some("meta info".to_string()),
        data: vec![1, 2, 10],
    };
    assert_eq!(node("Node1"), node("Node1"));
    assert_ne!(node("Node1"), node("Node2"));
    let link = |right: i64| Link { id: 1, left: 2, right, kind: "knows".to_string(), data: None };
    assert_eq!(link(3), link(3));
    assert_ne!(link(3), link(4));
}

#[test]
fn the_view_tab_takes_messages_and_stays_as_it_is() {
    let mut tab = ViewNpcTab::new();
    tab.update(ViewNpcMessage::Nothing);
    assert_eq!(tab, ViewNpcTab::new());
}
