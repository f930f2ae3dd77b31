use kernel::process::lfill::{BoxedIntrusiveNode, IntrusiveNode, ListNode, LockFreeIntrusiveLinkedList};
use kernel::process::scheduler::lfill::LockFreeIntrusiveLinkedList as SchedulerList;

fn node(nodes: &mut Vec<ListNode>, value: u32) -> usize {
    ListNode::new(value).into_mut_ptr(nodes)
}

#[test]
fn test_append() {
    let mut nodes: Vec<ListNode> = Vec::new();
    let node1 = node(&mut nodes, 0);
    let node2 = node(&mut nodes, 1);
    let node3 = node(&mut nodes, 2);
    let node4 = node(&mut nodes, 3);
    let node5 = node(&mut nodes, 4);
    let node6 = node(&mut nodes, 5);

    let mut list1 = LockFreeIntrusiveLinkedList::new();
    list1.push_front(node1, &mut nodes).unwrap();
    list1.push_front(node2, &mut nodes).unwrap();
    list1.push_front(node3, &mut nodes).unwrap();

    let mut list2 = LockFreeIntrusiveLinkedList::new();
    list2.push_front(node4, &mut nodes).unwrap();
    list2.push_front(node5, &mut nodes).unwrap();
    list2.push_front(node6, &mut nodes).unwrap();

    list1.append(&mut list2, &mut nodes); // list1 order must now be 3, 2, 1, 6, 5, 4, list2 empty

    assert_eq!(None, list2.head(&nodes));
    assert_eq!(None, list2.tail(&nodes));

    assert_eq!(Some(node3), list1.head(&nodes));
    assert_eq!(Some(node4), list1.tail(&nodes));

    assert_eq!(Some(node6), nodes[node1].next());
    assert_eq!(Some(node1), nodes[node6].previous());
}

#[test]
fn test_atomic_intrusive_linked_list() {
    let mut nodes: Vec<ListNode> = Vec::new();
    let mut list = LockFreeIntrusiveLinkedList::new();
    let node1 = node(&mut nodes, 0);
    let node2 = node(&mut nodes, 1);
    let node3 = node(&mut nodes, 2);

    assert_eq!(None, list.head(&nodes));
    assert_eq!(None, list.tail(&nodes));

    list.push_front(node1, &mut nodes).unwrap();
    assert_eq!(Some(node1), list.head(&nodes));
    assert_eq!(Some(node1), list.tail(&nodes));
    assert_eq!(None, nodes[node1].previous());
    assert_eq!(None, nodes[node1].next());

    list.push_front(node2, &mut nodes).unwrap();
    assert_eq!(Some(node2), list.head(&nodes));
    assert_eq!(Some(node1), list.tail(&nodes));
    assert_eq!(None, nodes[node2].previous());
    assert_eq!(Some(node1), nodes[node2].next());
    assert_eq!(Some(node2), nodes[node1].previous());
    assert_eq!(None, nodes[node1].next());

    list.push_front(node3, &mut nodes).unwrap();
    assert_eq!(Some(node3), list.head(&nodes));
    assert_eq!(Some(node1), list.tail(&nodes));
    assert_eq!(None, nodes[node3].previous());
    assert_eq!(Some(node2), nodes[node3].next());
    assert_eq!(Some(node3), nodes[node2].previous());
    assert_eq!(Some(node1), nodes[node2].next());
    assert_eq!(Some(node2), nodes[node1].previous());
    assert_eq!(None, nodes[node1].next());

    let mut current = list.head(&nodes);
    let mut count = 0;
    while let Some(c) = current {
        count += 1;
        assert_eq!(nodes[c].value, 3 - count);
        current = nodes[c].next();
    }
    assert_eq!(count, 3);

    let n = list.pop_front(&mut nodes);
    assert_eq!(n, Some(node3));
    assert_eq!(Some(node2), list.head(&nodes));
    assert_eq!(Some(node1), list.tail(&nodes));
    assert_eq!(None, nodes[node2].previous());
    assert_eq!(Some(node1), nodes[node2].next());
    assert_eq!(Some(node2), nodes[node1].previous());
    assert_eq!(None, nodes[node1].next());

    let n = list.pop_front(&mut nodes);
    assert_eq!(n, Some(node2));
    assert_eq!(Some(node1), list.head(&nodes));
    assert_eq!(Some(node1), list.tail(&nodes));
    assert_eq!(None, nodes[node1].previous());
    assert_eq!(None, nodes[node1].next());

    let n = list.pop_front(&mut nodes);
    assert_eq!(n, Some(node1));
    assert_eq!(None, list.head(&nodes));
    assert_eq!(None, list.tail(&nodes));

    let n = list.pop_front(&mut nodes);
    assert_eq!(n, None);
}

#[test]
fn push_back_keeps_insertion_order() {
    let mut nodes: Vec<ListNode> = Vec::new();
    let mut list = LockFreeIntrusiveLinkedList::new();
    let a = node(&mut nodes, 10);
    let b = node(&mut nodes, 20);
    list.push_back(a, &mut nodes).unwrap();
    list.push_back(b, &mut nodes).unwrap();
    assert_eq!(Some(a), list.head(&nodes));
    assert_eq!(Some(b), list.tail(&nodes));
    assert_eq!(Some(b), nodes[a].next());
    assert_eq!(Some(a), nodes[b].previous());
    assert_eq!(list.pop_front(&mut nodes), Some(a));
    assert_eq!(list.pop_front(&mut nodes), Some(b));
    assert_eq!(list.pop_front(&mut nodes), None);
}

#[test]
fn scheduler_list_detaches_popped_nodes() {
    let mut nodes: Vec<ListNode> = Vec::new();
    let mut list = SchedulerList::new();
    let a = node(&mut nodes, 1);
    let b = node(&mut nodes, 2);
    let c = node(&mut nodes, 3);
    list.push_back(a, &mut nodes);
    list.push_back(b, &mut nodes);
    let mut other = SchedulerList::new();
    other.push_back(c, &mut nodes);
    list.append(&mut other, &mut nodes);
    assert_eq!(None, other.head(&nodes));
    assert_eq!(Some(a), list.head(&nodes));
    assert_eq!(Some(c), list.tail(&nodes));

    assert_eq!(list.pop_front(&mut nodes), Some(a));
    assert_eq!(None, nodes[a].next());
    assert_eq!(None, nodes[a].previous());
    assert_eq!(None, nodes[b].previous());
    assert_eq!(list.pop_front(&mut nodes), Some(b));
    assert_eq!(list.pop_front(&mut nodes), Some(c));
    assert_eq!(list.pop_front(&mut nodes), None);
    assert_eq!(None, list.tail(&nodes));
}

#[test]
fn scheduler_list_test_append() {
    let mut nodes: Vec<ListNode> = Vec::new();
    let node1 = node(&mut nodes, 0);
    let node2 = node(&mut nodes, 1);
    let node3 = node(&mut nodes, 2);
    let node4 = node(&mut nodes, 3);
    let node5 = node(&mut nodes, 4);
    let node6 = node(&mut nodes, 5);

    let mut list1 = SchedulerList::new();
    list1.push_back(node1, &mut nodes);
    list1.push_back(node2, &mut nodes);
    list1.push_back(node3, &mut nodes);

    let mut list2 = SchedulerList::new();
    list2.push_back(node4, &mut nodes);
    list2.push_back(node5, &mut nodes);
    list2.push_back(node6, &mut nodes);

    list1.append(&mut list2, &mut nodes);

    assert_eq!(None, list2.head(&nodes));
    assert_eq!(None, list2.tail(&nodes));

    assert_eq!(Some(node1), list1.head(&nodes));
    assert_eq!(Some(node6), list1.tail(&nodes));

    assert_eq!(Some(node2), nodes[node1].next());
    assert_eq!(Some(node5), nodes[node6].previous());
    assert_eq!(Some(node4), nodes[node3].next());
    assert_eq!(Some(node3), nodes[node4].previous());
}

#[test]
fn scheduler_list_test_atomic_intrusive_linked_list() {
    let mut nodes: Vec<ListNode> = Vec::new();
    let mut list = SchedulerList::new();
    let node1 = node(&mut nodes, 0);
    let node2 = node(&mut nodes, 1);
    let node3 = node(&mut nodes, 2);

    assert_eq!(None, list.head(&nodes));
    assert_eq!(None, list.tail(&nodes));

    list.push_back(node1, &mut nodes);
    assert_eq!(Some(node1), list.head(&nodes));
    assert_eq!(Some(node1), list.tail(&nodes));
    assert_eq!(None, nodes[node1].previous());
    assert_eq!(None, nodes[node1].next());

    list.push_back(node2, &mut nodes);
    assert_eq!(Some(node1), list.head(&nodes));
    assert_eq!(Some(node2), list.tail(&nodes));
    assert_eq!(Some(node2), nodes[node1].next());
    assert_eq!(None, nodes[node1].previous());
    assert_eq!(None, nodes[node2].next());
    assert_eq!(Some(node1), nodes[node2].previous());

    list.push_back(node3, &mut nodes);
    assert_eq!(Some(node1), list.head(&nodes));
    assert_eq!(Some(node3), list.tail(&nodes));
    assert_eq!(Some(node2), nodes[node1].next());
    assert_eq!(None, nodes[node1].previous());
    assert_eq!(Some(node3), nodes[node2].next());
    assert_eq!(Some(node1), nodes[node2].previous());
    assert_eq!(None, nodes[node3].next());
    assert_eq!(Some(node2), nodes[node3].previous());

    let mut current = list.head(&nodes);
    let mut count = 0;
    while let Some(c) = current {
        assert_eq!(nodes[c].value, count);
        count += 1;
        current = nodes[c].next();
    }
    assert_eq!(count, 3);

    assert_eq!(list.pop_front(&mut nodes), Some(node1));
    assert_eq!(Some(node2), list.head(&nodes));
    assert_eq!(Some(node3), list.tail(&nodes));
    assert_eq!(None, nodes[node1].previous());
    assert_eq!(None, nodes[node1].next());
    assert_eq!(None, nodes[node2].previous());
    assert_eq!(Some(node3), nodes[node2].next());
    assert_eq!(Some(node2), nodes[node3].previous());
    assert_eq!(None, nodes[node3].next());

    assert_eq!(list.pop_front(&mut nodes), Some(node2));
    assert_eq!(Some(node3), list.head(&nodes));
    assert_eq!(Some(node3), list.tail(&nodes));
    assert_eq!(None, nodes[node2].previous());
    assert_eq!(None, nodes[node2].next());
    assert_eq!(None, nodes[node3].previous());
    assert_eq!(None, nodes[node3].next());

    assert_eq!(list.pop_front(&mut nodes), Some(node3));
    assert_eq!(None, list.head(&nodes));
    assert_eq!(None, list.tail(&nodes));
    assert_eq!(None, nodes[node3].previous());
    assert_eq!(None, nodes[node3].next());
    assert_eq!(list.pop_front(&mut nodes), None);
}
