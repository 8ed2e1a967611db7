use chip8::arraystack::Stack;

#[test]
fn push_one_value() {
    let mut stack: Stack<u8, 1> = Stack::new();
    assert!(matches!(stack.try_push(7), Ok(())));
    assert!(matches!(stack.pop(), Some(7)));
}

#[test]
fn push_three_values() {
    let mut stack: Stack<u8, 5> = Stack::new();
    assert!(matches!(stack.try_push(1), Ok(())));
    assert!(matches!(stack.try_push(2), Ok(())));
    assert!(matches!(stack.try_push(3), Ok(())));
    assert!(matches!(stack.pop(), Some(3)));
    assert!(matches!(stack.pop(), Some(2)));
    assert!(matches!(stack.pop(), Some(1)));
}

#[test]
fn overflow_returns_err() {
    let mut stack: Stack<u8, 1> = Stack::new();
    assert!(matches!(stack.try_push(7), Ok(())));
    assert!(matches!(stack.try_push(7), Err(_)));
    assert!(matches!(stack.pop(), Some(7)));
}

#[test]
fn underflow_returns_none() {
    let mut stack: Stack<u8, 1> = Stack::new();
    assert!(matches!(stack.try_push(7), Ok(())));
    assert!(matches!(stack.pop(), Some(7)));
    assert!(matches!(stack.pop(), None));
}

#[test]
fn pop_from_empty_stack_returns_none() {
    let mut stack: Stack<u8, 1> = Stack::new();
    assert!(matches!(stack.pop(), None));
    assert!(matches!(stack.pop(), None));
    assert!(matches!(stack.pop(), None));
}

#[test]
fn stack_reports_len() {
    let mut stack: Stack<u16, 16> = Stack::new();
    assert_eq!(stack.len(), 0);
    assert!(matches!(stack.try_push(0x200), Ok(())));
    assert!(matches!(stack.try_push(0x300), Ok(())));
    assert_eq!(stack.len(), 2);
    assert!(matches!(stack.pop(), Some(0x300)));
    assert_eq!(stack.len(), 1);
}
