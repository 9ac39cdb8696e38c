use mcp_gateway_hub::keyed::KeyedList;
use mcp_gateway_hub::mcp_client::{merge_tool_lists, McpClientError, McpClientManager};

#[test]
fn tools_route_to_the_client_that_offered_them() {
    let mut m: McpClientManager<&str> = McpClientManager::new();
    m.add_client("first", vec!["a".to_string(), "b".to_string()]);
    m.add_client("second", vec!["b".to_string()]);
    assert_eq!(*m.route_tool(&"a".to_string()).unwrap(), "first");
    assert_eq!(*m.route_tool(&"b".to_string()).unwrap(), "second");
    assert_eq!(m.clients().len(), 2);
    match m.route_tool(&"zzz".to_string()) {
        Err(e) => assert_eq!(e.message(), "Tool not found: zzz"),
        Ok(c) => panic!("unexpected client {}", c),
    }
    assert!(matches!(McpClientError::ToolNotFound("x".to_string()), McpClientError::ToolNotFound(_)));
}

#[test]
fn merged_lists_skip_failed_clients() {
    let merged = merge_tool_lists(vec![Some(vec![1, 2]), None, Some(vec![]), Some(vec![3])]);
    assert_eq!(merged, vec![1, 2, 3]);
    let empty: Vec<u8> = merge_tool_lists(vec![]);
    assert!(empty.is_empty());
}

#[test]
fn keyed_list_keeps_first_position_and_latest_value() {
    let mut t: KeyedList<u8> = KeyedList::new();
    t.insert("x".to_string(), 1);
    t.insert("y".to_string(), 2);
    t.insert("x".to_string(), 3);
    assert_eq!(t.len(), 2);
    assert_eq!(t.key_at(0), "x");
    assert_eq!(*t.value_at(0), 3);
    assert_eq!(t.get(&"y".to_string()), Some(&2));
    assert_eq!(t.remove(&"x".to_string()), Some(3));
    assert_eq!(t.remove(&"x".to_string()), None);
    assert!(!t.contains_key(&"x".to_string()));
    assert_eq!(t.key_at(0), "y");
}
