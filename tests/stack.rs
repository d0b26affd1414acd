use go_forth::stack::{Stack, StackErr};

#[test]
fn stack_new_sets_capacity() {
    let cap = 30201;
    let stack = Stack::<i32>::new(cap);
    assert_eq!(cap, stack.capacity());
    assert_eq!(true, stack.data().is_empty());
}

#[test]
fn new_push_pushes_item() {
    let cap = 30201;
    let mut stack = Stack::new(cap);
    let i = 392;
    let result = stack.push(i);
    assert_eq!(true, result.is_ok());
    assert_eq!(i, stack.data()[0]);

    let i = 420;
    let result = stack.push(i);
    assert_eq!(true, result.is_ok());
    assert_eq!(i, stack.data()[1]);
}

#[test]
fn new_push_would_overflow_returns_err() {
    let cap = 1;
    let mut stack = Stack::new(cap);
    let i = 392;
    let result = stack.push(i);
    assert_eq!(true, result.is_ok());
    assert_eq!(i, stack.data()[0]);

    let i = 420;
    let result = stack.push(i);
    assert_eq!(false, result.is_ok());
    assert_eq!(StackErr::Overflow, result.unwrap_err());
}

#[test]
fn new_pop_returns_item() {
    let cap = 30201;
    let mut stack = Stack::new(cap);
    let i = 392;
    let j = 420;

    stack.push(i).unwrap();
    stack.push(j).unwrap();

    let result = stack.pop();
    assert_eq!(true, result.is_ok());
    assert_eq!(j, result.unwrap());

    let result = stack.pop();
    assert_eq!(true, result.is_ok());
    assert_eq!(i, result.unwrap());
}

#[test]
fn new_pop_underflow_returns_err() {
    let cap = 30201;
    let mut stack = Stack::new(cap);

    stack.push(46).unwrap();
    stack.push(46).unwrap();

    let _result = stack.pop();
    let _result = stack.pop();

    let result = stack.pop();
    assert_eq!(false, result.is_ok());
    assert_eq!(StackErr::Underflow, result.unwrap_err());
}

#[test]
fn push_on_full_stack_keeps_contents() {
    let mut stack = Stack::new(2);
    stack.push(1).unwrap();
    stack.push(2).unwrap();
    assert_eq!(Err(StackErr::Overflow), stack.push(3));
    assert_eq!(&[1, 2], stack.data());
}

#[test]
fn pop_on_empty_stack_keeps_it_empty() {
    let mut stack = Stack::<i32>::new(0);
    assert_eq!(Err(StackErr::Underflow), stack.pop());
    assert!(stack.data().is_empty());
    assert_eq!(Err(StackErr::Overflow), stack.push(1));
}

#[test]
fn clear_empties_stack() {
    let mut stack = Stack::new(4);
    stack.push(7).unwrap();
    stack.push(8).unwrap();
    stack.clear();
    assert!(stack.data().is_empty());
    assert_eq!(4, stack.capacity());
}
