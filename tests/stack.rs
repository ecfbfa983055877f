use stackscript::stack::Stack;

#[test]
fn pop_several_returns_deepest_first() {
    let mut stack = Stack::new();
    stack.push('z');
    stack.push('a');
    stack.push('b');
    assert_eq!(stack.pop_several::<2>(), vec!['a', 'b']);
    assert_eq!(stack.len(), 1);
    assert_eq!(*stack.peek(), 'z');
}

#[test]
fn try_pop_several_is_all_or_nothing() {
    let mut stack = Stack::new();
    stack.push(1);
    assert_eq!(stack.try_pop_several::<2>(), None);
    assert_eq!(stack.len(), 1);
    assert_eq!(*stack.peek(), 1);
    stack.push(2);
    assert_eq!(stack.try_pop_several::<2>(), Some(vec![1, 2]));
    assert_eq!(stack.len(), 0);
}

#[test]
fn push_pop_peek() {
    let mut stack = Stack::new();
    stack.push(10);
    stack.push(20);
    assert_eq!(*stack.peek(), 20);
    assert_eq!(stack.pop(), 20);
    assert_eq!(stack.pop(), 10);
    assert_eq!(stack.len(), 0);
}
