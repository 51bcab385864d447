use maschen::{BoundedStack, Error, ShuntingYard, Stack, TaggedToken, TokenKind};

fn classify(word: &str) -> TokenKind {
    match word {
        "*" | "/" => TokenKind::InfixOperator(0),
        "+" | "-" => TokenKind::InfixOperator(1),
        "(" => TokenKind::LeftParen,
        ")" => TokenKind::RightParen,
        "~" => TokenKind::UnaryOperator,
        "," => TokenKind::FnSeparator,
        "sin" | "cos" | "tan" | "log" => TokenKind::Function(1),
        "max" | "min" => TokenKind::Function(2),
        w => {
            if w.parse::<i64>().is_ok() {
                TokenKind::Value
            } else {
                panic!("{} is not an int", w)
            }
        }
    }
}

fn run(input: &str) -> Result<String, Error> {
    let words: Vec<&str> = input.split_whitespace().collect();
    let mut yard = ShuntingYard::new();
    for (i, w) in words.iter().enumerate() {
        yard.process(TaggedToken { kind: classify(w), tag: i })?;
    }
    let outcome = yard.finish()?;
    let mut rendered = String::new();
    for (j, tok) in outcome.iter().enumerate() {
        if j > 0 {
            rendered.push(' ');
        }
        rendered.push_str(words[tok.tag]);
    }
    Ok(rendered)
}

#[test]
fn simple_value() {
    assert_eq!(run("3").unwrap(), "3");
}

#[test]
fn single_infix_op() {
    assert_eq!(run("3 + 3").unwrap(), "3 3 +");
}

#[test]
fn single_unary_op() {
    assert_eq!(run("~ 3").unwrap(), "3 ~");
}

#[test]
fn func() {
    assert_eq!(run("log ( 3 )").unwrap(), "3 log");
}

#[test]
fn precedence() {
    assert_eq!(run("3 + 4 * 5").unwrap(), "3 4 5 * +");
}

#[test]
fn left_assoc() {
    assert_eq!(run("3 + 4 - 5").unwrap(), "3 4 + 5 -");
}

#[test]
fn unary_and_infix() {
    assert_eq!(run("3 * ~ 4").unwrap(), "3 4 ~ *");
}

#[test]
fn unary_and_infix_and_func() {
    assert_eq!(run("3 * log ( ~ 4 + 5 )").unwrap(), "3 4 ~ 5 + log *");
}

#[test]
fn nested_braces() {
    assert_eq!(run("3 * ( 4 + ( 2 - 1 ) )").unwrap(), "3 4 2 1 - + *");
}

#[test]
fn func_inside_group() {
    assert_eq!(run("3 * ( 2 + log ( 4 ) )").unwrap(), "3 2 4 log + *");
}

#[test]
fn fn2() {
    assert_eq!(run("max ( 2 , 3 )").unwrap(), "2 3 max");
}

#[test]
fn fn_with_nested() {
    assert_eq!(run("max ( ( ( 2 , 3 ) ) )").unwrap(), "2 3 max");
}

#[test]
fn nested_fns() {
    assert_eq!(
        run("max ( 3 , max ( log ( 4 ) , 2 ) )").unwrap(),
        "3 4 log 2 max max"
    );
}

#[test]
fn grouped_value() {
    assert_eq!(run("( 3 )").unwrap(), "3");
}

#[test]
fn empty() {
    assert_eq!(run(""), Err(Error::Malformed));
}

#[test]
fn bad_infix1() {
    assert_eq!(run("3 3 +"), Err(Error::Malformed));
}

#[test]
fn bad_infix2() {
    assert_eq!(run("+ 3 3"), Err(Error::Malformed));
}

#[test]
fn lone_unary() {
    assert_eq!(run("~"), Err(Error::Malformed));
}

#[test]
fn arg_count1() {
    assert_eq!(run("min"), Err(Error::FunctionLen));
}

#[test]
fn arg_count2() {
    assert_eq!(run("min ( 2 )"), Err(Error::FunctionLen));
}

#[test]
fn arg_count3() {
    assert_eq!(run("log ( 2 , 3 )"), Err(Error::FunctionLen));
}

#[test]
fn arg_count_excess_separators() {
    assert_eq!(run("max ( 2 , 3 , 4 )"), Err(Error::FunctionLen));
}

#[test]
fn separator_outside_call() {
    assert_eq!(run("3 , 4"), Err(Error::Malformed));
}

#[test]
fn empty_parens() {
    assert_eq!(run("( )"), Err(Error::Malformed));
}

#[test]
fn unbalanced_parens1() {
    assert_eq!(run("log ( 2"), Err(Error::UnbalancedParens));
}

#[test]
fn unbalanced_parens2() {
    assert_eq!(run("( 3"), Err(Error::UnbalancedParens));
}

#[test]
fn unbalanced_parens3() {
    assert_eq!(run("log ( 2 ) )"), Err(Error::UnbalancedParens));
}

#[test]
fn operand_order_preserved() {
    let input = "max ( 3 , max ( log ( 4 ) , 2 ) ) - ~ 5 * ( 6 + 7 )";
    let output = run(input).unwrap();
    let operands_in: Vec<&str> = input
        .split_whitespace()
        .filter(|w| w.parse::<i64>().is_ok())
        .collect();
    let operands_out: Vec<&str> = output
        .split_whitespace()
        .filter(|w| w.parse::<i64>().is_ok())
        .collect();
    assert_eq!(operands_in, operands_out);
}

#[test]
fn rerun_of_output() {
    let once = run("3").unwrap();
    assert_eq!(run(&once).unwrap(), "3");
}

#[test]
fn bounded_output_full() {
    let mut yard = ShuntingYard::new_with_storage(
        BoundedStack::with_capacity(0),
        Vec::new(),
        Vec::new(),
    );
    let token = TaggedToken { kind: TokenKind::Value, tag: 0 };
    assert_eq!(yard.process(token), Err(Error::StorageFull));
}

#[test]
fn bounded_operator_stack_full() {
    let mut yard: ShuntingYard<Vec<TaggedToken>, BoundedStack<TaggedToken>, Vec<usize>> =
        ShuntingYard::new_with_storage(Vec::new(), BoundedStack::with_capacity(1), Vec::new());
    assert_eq!(
        yard.process(TaggedToken { kind: TokenKind::LeftParen, tag: 0 }),
        Ok(())
    );
    assert_eq!(
        yard.process(TaggedToken { kind: TokenKind::LeftParen, tag: 1 }),
        Err(Error::StorageFull)
    );
}

#[test]
fn bounded_storage_large_enough() {
    let words = ["3", "+", "4"];
    let mut yard = ShuntingYard::new_with_storage(
        BoundedStack::with_capacity(3),
        BoundedStack::with_capacity(1),
        BoundedStack::with_capacity(1),
    );
    for (i, w) in words.iter().enumerate() {
        yard.process(TaggedToken { kind: classify(w), tag: i }).unwrap();
    }
    let outcome = yard.finish().unwrap().into_items();
    let rendered: Vec<&str> = outcome.iter().map(|t| words[t.tag]).collect();
    assert_eq!(rendered, ["3", "4", "+"]);
}

#[test]
fn default_yard_works() {
    let mut yard: ShuntingYard<Vec<TaggedToken>, Vec<TaggedToken>, Vec<usize>> =
        ShuntingYard::default();
    yard.process(TaggedToken { kind: TokenKind::Value, tag: 0 }).unwrap();
    let outcome = yard.finish().unwrap();
    assert_eq!(outcome.len(), 1);
    assert_eq!(outcome[0].tag, 0);
}

#[test]
fn caller_supplied_vec_storage() {
    let mut yard = ShuntingYard::new_with_storage(
        Vec::new(),
        Vec::new(),
        Vec::new(),
    );
    yard.process(TaggedToken { kind: TokenKind::UnaryOperator, tag: 0 }).unwrap();
    yard.process(TaggedToken { kind: TokenKind::Value, tag: 1 }).unwrap();
    let outcome: Vec<TaggedToken> = yard.finish().unwrap();
    let tags: Vec<usize> = outcome.iter().map(|t| t.tag).collect();
    assert_eq!(tags, [1, 0]);
}

#[test]
fn internal_fault_on_unopened_function() {
    // A function token planted on the operator stack by the caller,
    // with no matching entry on the arity stack, is an engine-level
    // inconsistency, not a grammar error.
    let mut yard = ShuntingYard::new_with_storage(
        Vec::new(),
        vec![TaggedToken { kind: TokenKind::Function(1), tag: 0 }],
        Vec::new(),
    );
    yard.process(TaggedToken { kind: TokenKind::Value, tag: 1 }).unwrap();
    assert_eq!(yard.finish(), Err(Error::Internal));
}

#[test]
fn bounded_stack_push_pop() {
    let mut stack: BoundedStack<usize> = BoundedStack::with_capacity(2);
    assert_eq!(Stack::push(&mut stack, 1), Ok(()));
    assert_eq!(Stack::push(&mut stack, 2), Ok(()));
    assert_eq!(Stack::push(&mut stack, 3), Err(Error::StorageFull));
    assert_eq!(Stack::pop(&mut stack), Some(2));
    assert_eq!(Stack::pop(&mut stack), Some(1));
    assert_eq!(Stack::pop(&mut stack), None);
}
