use go_forth::context::{Context, ContextErr, Diagnostic, Fsm, Mode, Return, Word};
use go_forth::dictionary::DictionaryErr;
use go_forth::id::Id;
use go_forth::stack::StackErr;

#[test]
fn test_div_divides() {
    let mut f = Context::new(333, 343);
    f.eval("4 7 /".into()).unwrap();
    assert_eq!(1, f.stack()[0]);

    f.reset();

    f.eval("3 -9 /".into()).unwrap();
    assert_eq!(-3, f.stack()[0]);

    f.reset();

    assert_eq!(
        ContextErr::DivideByZero,
        f.eval("0 -9 /".into()).unwrap_err()
    );
}

#[test]
fn test_mul_multiplies() {
    let mut f = Context::new(333, 343);
    f.eval("4 7 *".into()).unwrap();
    assert_eq!(28, f.stack()[0]);

    f.eval("-9 *".into()).unwrap();
    assert_eq!(-252, f.stack()[0]);
}

#[test]
fn test_sub_subtracts() {
    let mut f = Context::new(333, 343);
    f.eval("1 2 -".into()).unwrap();
    assert_eq!(1, f.stack()[0]);

    f.eval("-9 -".into()).unwrap();
    assert_eq!(-10, f.stack()[0]);
}

#[test]
fn test_plus_adds() {
    let mut f = Context::new(333, 343);
    f.eval("1 2 +".into()).unwrap();
    assert_eq!(3, f.stack()[0]);

    f.eval("1 +".into()).unwrap();
    assert_eq!(4, f.stack()[0]);
}

#[test]
#[allow(non_snake_case)]
fn test_DUP_duplicates_top_of_stack() {
    let mut f = Context::new(333, 343);
    f.eval("1 DUP".into()).unwrap();
    assert_eq!(1, f.stack()[0]);
    assert_eq!(1, f.stack()[1]);
}

#[test]
fn test_bye_returns_exist() {
    let mut f = Context::new(333, 343);
    assert_eq!(Ok(Return::Shutdown), f.eval("1 bye 2".into()));
    assert_eq!(&[1], f.stack());
}

#[test]
fn variable() {
    let mut f = Context::new(333, 343);

    f.eval("variable balance 123 balance ! balance @".into())
        .unwrap();

    assert_eq!(f.stack()[0], 123);
}

#[test]
fn divide_by_zero_consumes_both_operands() {
    let mut f = Context::new(333, 343);
    assert_eq!(Err(ContextErr::DivideByZero), f.eval("5 0 -9 /".into()));
    assert_eq!(&[5], f.stack());
}

#[test]
fn division_truncates_toward_zero() {
    let mut f = Context::new(333, 343);
    f.eval("2 -7 /".into()).unwrap();
    assert_eq!(&[-3], f.stack());
    f.reset();
    f.eval("-2 7 /".into()).unwrap();
    assert_eq!(&[-3], f.stack());
    f.reset();
    f.eval("-1 -2147483648 /".into()).unwrap();
    assert_eq!(&[i32::MIN], f.stack());
}

#[test]
fn arithmetic_wraps_around() {
    let mut f = Context::new(333, 343);
    f.eval("1 2147483647 +".into()).unwrap();
    assert_eq!(&[i32::MIN], f.stack());
    f.eval("2 *".into()).unwrap();
    assert_eq!(&[0], f.stack());
}

#[test]
fn reset_restores_pristine_state() {
    let mut f = Context::new(333, 343);
    let fresh: Vec<Option<Id>> = f.dictionary().iter().map(|e| e.0).collect();
    f.eval("1 2 3 variable x 5 x !".into()).unwrap();
    f.eval("variable".into()).unwrap();
    assert_eq!(Fsm::GetVariable, f.fsm());
    f.reset();
    assert!(f.stack().is_empty());
    assert_eq!(12, f.dictionary().len());
    let after: Vec<Option<Id>> = f.dictionary().iter().map(|e| e.0).collect();
    assert_eq!(fresh, after);
    assert_eq!(Fsm::Execute, f.fsm());
    assert_eq!(Mode::Interpreting, f.mode());
    assert!(f.take_diagnostics().is_empty());
}

#[test]
fn builtins_are_registered_in_order() {
    let f = Context::new(4, 12);
    let names = ["does>", "create", "drop", "print", "!", "dict", "@", "-", "+", "*", "/", "dup"];
    assert_eq!(names.len(), f.dictionary().len());
    for (entry, name) in f.dictionary().iter().zip(names.iter()) {
        assert_eq!(Some(Id::from(*name)), entry.0);
        assert!(matches!(*entry.1, Word::Builtin(_)));
    }
}

#[test]
fn unknown_token_is_a_parse_error() {
    let mut f = Context::new(333, 343);
    assert_eq!(Err(ContextErr::Parse), f.eval("1 nope 2".into()));
    assert_eq!(&[1], f.stack());
    assert_eq!(Err(ContextErr::Parse), f.eval("2147483648".into()));
    f.eval("+7 -2147483648".into()).unwrap();
    assert_eq!(&[1, 7, i32::MIN], f.stack());
}

#[test]
fn unimplemented_words_are_reported() {
    let mut f = Context::new(333, 343);
    assert_eq!(Err(ContextErr::UnsupportedOperation), f.eval("create".into()));
    assert_eq!(Err(ContextErr::UnsupportedOperation), f.eval("does>".into()));
}

#[test]
fn stack_limits_are_reported() {
    let mut f = Context::new(1, 343);
    assert_eq!(Err(ContextErr::StackErr(StackErr::Overflow)), f.eval("1 2".into()));
    assert_eq!(&[1], f.stack());
    assert_eq!(Err(ContextErr::StackErr(StackErr::Underflow)), f.eval("+".into()));
    assert!(f.stack().is_empty());
    assert_eq!(Err(ContextErr::StackErr(StackErr::Underflow)), f.eval("drop".into()));
    assert_eq!(Ok(()), f.push(9));
    assert_eq!(Err(StackErr::Overflow), f.push(10));
    assert_eq!(Ok(9), f.pop());
    assert_eq!(Err(StackErr::Underflow), f.pop());
}

#[test]
fn dup_on_full_stack_overflows() {
    let mut f = Context::new(1, 343);
    assert_eq!(Err(ContextErr::StackErr(StackErr::Overflow)), f.eval("4 dup".into()));
    assert_eq!(&[4], f.stack());
}

#[test]
fn full_dictionary_rejects_variable() {
    let mut f = Context::new(8, 12);
    assert_eq!(
        Err(ContextErr::DictionaryErr(DictionaryErr::Overflow)),
        f.eval("variable x".into())
    );
    assert_eq!(12, f.dictionary().len());
    assert_eq!(Fsm::GetVariable, f.fsm());
}

#[test]
fn fetch_and_store_report_bad_addresses() {
    let mut f = Context::new(333, 343);
    assert_eq!(Err(ContextErr::AccessedUndefinedAtAddr(999)), f.eval("999 @".into()));
    assert_eq!(
        Err(ContextErr::AccessedUndefinedAtAddr(usize::MAX)),
        f.eval("-1 @".into())
    );
    assert_eq!(
        Err(ContextErr::DictionaryErr(DictionaryErr::UndefinedAccess)),
        f.eval("5 999 !".into())
    );
    assert!(f.stack().is_empty());
}

#[test]
fn fetch_of_a_named_word_pushes_its_address() {
    let mut f = Context::new(333, 343);
    f.eval("6 @".into()).unwrap();
    assert_eq!(&[6], f.stack());
}

#[test]
fn variable_slot_starts_at_zero_and_names_its_address() {
    let mut f = Context::new(333, 343);
    f.eval("var counter counter counter @".into()).unwrap();
    assert_eq!(&[12, 0], f.stack());
    assert_eq!(14, f.dictionary().len());
    assert_eq!(None, f.dictionary()[12].0);
    assert_eq!(Some(Id::from("counter")), f.dictionary()[13].0);
}

#[test]
fn redeclaring_shifts_addresses() {
    let mut f = Context::new(333, 343);
    f.eval("variable a variable b".into()).unwrap();
    // a: slot 12, name 13; b: slot 14, name 15
    f.eval("a b".into()).unwrap();
    assert_eq!(&[12, 14], f.stack());
    f.eval("variable a".into()).unwrap();
    // the old name of a is removed, so b's entries move down by one while
    // b still holds 14; the new slot of a went in at 16 before that
    assert_eq!(17, f.dictionary().len());
    assert_eq!(Some(Id::from("b")), f.dictionary()[14].0);
    f.eval("b a".into()).unwrap();
    assert_eq!(&[12, 14, 14, 16], f.stack());
}

#[test]
fn print_and_dict_leave_diagnostics() {
    let mut f = Context::new(333, 343);
    f.eval("7 print dict".into()).unwrap();
    assert_eq!(&[7], f.stack());
    assert_eq!(vec![Diagnostic::Value(7), Diagnostic::Dictionary], f.take_diagnostics());
    assert!(f.take_diagnostics().is_empty());
}

#[test]
fn yield_keeps_the_rest_of_the_line() {
    let mut f = Context::new(333, 343);
    assert_eq!(Ok(Return::Yielding), f.eval("1 yield 2 3".into()));
    assert_eq!(&[1], f.stack());
    assert_eq!(Ok(Return::Done), f.eval("4".into()));
    assert_eq!(&[1, 2, 3, 4], f.stack());
}

#[test]
fn tokens_split_on_any_whitespace() {
    let mut f = Context::new(333, 343);
    assert_eq!(Ok(Return::Done), f.eval("  1\t2\n+ \r\n".into()));
    assert_eq!(&[3], f.stack());
    assert_eq!(Ok(Return::Done), f.eval("".into()));
}

#[test]
fn store_then_fetch_round_trips() {
    let mut f = Context::new(333, 343);
    f.eval("-42 3 ! 3 @".into()).unwrap();
    assert_eq!(&[-42], f.stack());
}

#[test]
fn errors_convert_into_context_errors() {
    assert_eq!(
        ContextErr::StackErr(StackErr::Overflow),
        ContextErr::from(StackErr::Overflow)
    );
    assert_eq!(
        ContextErr::DictionaryErr(DictionaryErr::UndefinedAccess),
        ContextErr::from(DictionaryErr::UndefinedAccess)
    );
}
