use oso::tree::{Coordinate, Node, Tree, TreePos, TreeWalk, TreeWindow, WalkTried, Walker};

fn leaf(v: u32) -> Tree<Node<u32>> {
    Tree { value: Node(v), children: vec![] }
}

fn sample() -> Tree<Node<u32>> {
    Tree {
        value: Node(0),
        children: vec![
            Tree { value: Node(1), children: vec![leaf(3), leaf(4), leaf(5)] },
            leaf(2),
        ],
    }
}

#[test]
fn walking_down_and_up() {
    let t = sample();
    let root = Walker::new(&t);
    assert!(!root.has_parent());
    assert_eq!(root.child_count(), 2);
    assert_eq!(root.generation_count(), 3);
    let c = root.nth_child(0);
    assert!(c.has_success());
    let c = c.tree.unwrap();
    assert_eq!(c.value(), 1);
    let g = c.nth_child(2).tree.unwrap();
    assert_eq!(g.value(), 5);
    assert_eq!(g.get_pos().dims, vec![0, 2]);
    assert_eq!(g.brother_count(), 3);
    let up = g.nth_ancestor(2);
    assert!(up.has_success());
    assert_eq!(up.tree.unwrap().get_pos().dims, Vec::<usize>::new());
    let too_far = g.nth_ancestor(3);
    assert!(too_far.has_failed());
    assert_eq!(too_far.last_valid_coordinate().dims, Vec::<usize>::new());
}

#[test]
fn parent_of_root_fails() {
    let t = sample();
    let r = Walker::new(&t).parent();
    assert!(r.has_failed());
    assert!(r.current_tree().is_none());
}

#[test]
fn brothers() {
    let t = sample();
    let g = Walker::new(&t).nth_child(0).tree.unwrap().nth_child(0).tree.unwrap();
    let b = g.nth_brother(2).tree.unwrap();
    assert_eq!(b.value(), 5);
    let b = b.nth_brother(1).tree.unwrap();
    assert_eq!(b.value(), 4);
    assert!(b.next_brother().has_success());
    let last = b.last_brother().tree.unwrap();
    assert_eq!(last.value(), 5);
    assert!(last.next_brother().has_failed());
    assert_eq!(last.first_brother().tree.unwrap().value(), 3);
    assert!(last.brothers().has_success());
    assert!(last.children().has_failed());
    assert_eq!(last.get_pos().last_dimension(), 2);
}

#[test]
fn set_pos_checks_the_path() {
    let t = sample();
    let w = Walker::new(&t);
    assert_eq!(w.set_pos(&TreePos { dims: vec![0, 1] }).tree.unwrap().value(), 4);
    assert!(w.set_pos(&TreePos { dims: vec![1, 0] }).has_failed());
    let mut p = TreePos { dims: vec![1, 2, 3] };
    p.set_at(1, 7);
    assert_eq!(p.dims, vec![1, 7, 3]);
    assert_eq!(p.first_dimension(), 1);
    assert_eq!(p.dimension_count(), 3);
}

#[test]
fn nth_brother_past_the_last_fails() {
    let t = sample();
    let g = Walker::new(&t).nth_child(0).tree.unwrap().nth_child(1).tree.unwrap();
    let r = g.nth_brother(3);
    assert!(r.has_failed());
    assert_eq!(r.last_valid_coordinate().dims, vec![0, 1]);
    let root = Walker::new(&t);
    assert_eq!(root.nth_brother(0).tree.unwrap().get_pos().dims, Vec::<usize>::new());
    assert!(root.nth_brother(1).has_failed());
}
