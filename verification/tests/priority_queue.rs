use routee_compass_core::cost::Cost;
use routee_compass_core::network::VertexId;
use routee_compass_core::priority_queue::InternalPriorityQueue;

#[test]
fn test_pop_returns_cheapest_first() {
    let mut q: InternalPriorityQueue<VertexId> = InternalPriorityQueue::new();
    q.push(VertexId(1), Cost(30));
    q.push(VertexId(2), Cost(10));
    q.push(VertexId(3), Cost(20));
    assert_eq!(q.len(), 3);
    assert_eq!(q.pop(), Some((VertexId(2), Cost(10))));
    assert_eq!(q.pop(), Some((VertexId(3), Cost(20))));
    assert_eq!(q.pop(), Some((VertexId(1), Cost(30))));
    assert_eq!(q.pop(), None);
    assert!(q.is_empty());
}

#[test]
fn test_push_replaces_and_push_increase_only_improves() {
    let mut q: InternalPriorityQueue<VertexId> = InternalPriorityQueue::new();
    q.push(VertexId(1), Cost(30));
    q.push(VertexId(1), Cost(40));
    assert_eq!(q.get(&VertexId(1)), Some(Cost(40)));
    assert_eq!(q.len(), 1);
    q.push_increase(VertexId(1), Cost(50));
    assert_eq!(q.get(&VertexId(1)), Some(Cost(40)));
    q.push_increase(VertexId(1), Cost(5));
    assert_eq!(q.get(&VertexId(1)), Some(Cost(5)));
    q.push_increase(VertexId(2), Cost(7));
    assert_eq!(q.get(&VertexId(2)), Some(Cost(7)));
    assert_eq!(q.get(&VertexId(9)), None);
}
