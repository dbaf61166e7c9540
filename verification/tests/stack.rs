use chip8::stack::CallStack;

#[test]
fn the_call_stack_is_last_in_first_out() {
    let mut stack = CallStack::new();
    assert_eq!(stack.depth(), 0);
    assert_eq!(stack.pop(), None);
    assert!(stack.push(0x111));
    assert!(stack.push(0x222));
    assert!(stack.push(0x333));
    assert_eq!(stack.depth(), 3);
    assert_eq!(stack.pop(), Some(0x333));
    assert!(stack.push(0x444));
    assert_eq!(stack.pop(), Some(0x444));
    assert_eq!(stack.pop(), Some(0x222));
    assert_eq!(stack.pop(), Some(0x111));
    assert_eq!(stack.pop(), None);
    assert_eq!(stack.depth(), 0);
}

#[test]
fn the_call_stack_holds_fifteen_addresses() {
    let mut stack = CallStack::new();
    for n in 0..15u16 {
        assert!(stack.push(n));
    }
    assert_eq!(stack.depth(), 15);
    assert!(!stack.push(99));
    assert_eq!(stack.depth(), 15);
    for n in (0..15u16).rev() {
        assert_eq!(stack.pop(), Some(n));
    }
    assert_eq!(stack.pop(), None);
}
