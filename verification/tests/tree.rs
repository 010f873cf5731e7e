use lambda_reducers::tree::Tree;

fn tv(x: usize) -> Tree {
    Tree::Var(x)
}

fn tl(x: usize, body: Tree) -> Tree {
    Tree::Abs(x, Box::new(body))
}

fn ta(f: Tree, x: Tree) -> Tree {
    Tree::App(Box::new(f), Box::new(x))
}

fn church(n: u64, f: usize, x: usize) -> Tree {
    let mut body = tv(x);
    for _ in 0..n {
        body = ta(tv(f), body);
    }
    tl(f, tl(x, body))
}

#[test]
fn indexed_string_of_a_variable_is_its_decimal_tag() {
    assert_eq!(tv(0).to_indexed_string(), "0");
    assert_eq!(tv(7).to_indexed_string(), "7");
    assert_eq!(tv(100).to_indexed_string(), "100");
    assert_eq!(tv(4096).to_indexed_string(), "4096");
    assert_eq!(tv(usize::MAX).to_indexed_string(), format!("{}", usize::MAX));
}

#[test]
fn indexed_string_brackets_abstractions_and_applications() {
    assert_eq!(tl(9, tv(0)).to_indexed_string(), "(\u{3bb}0)");
    assert_eq!(ta(tv(1), tv(20)).to_indexed_string(), "(1 20)");
    let t = tl(1, tl(2, ta(tv(1), ta(tv(1), tv(0)))));
    assert_eq!(t.to_indexed_string(), "(\u{3bb}(\u{3bb}(1 (1 0))))");
}

#[test]
fn largest_var_looks_at_binders_and_variables() {
    assert_eq!(Tree::find_largest_var(&tv(3)), 3);
    assert_eq!(Tree::find_largest_var(&tl(7, tv(3))), 7);
    assert_eq!(Tree::find_largest_var(&tl(2, tv(3))), 3);
    assert_eq!(Tree::find_largest_var(&ta(tl(1, tv(1)), tl(4, ta(tv(4), tv(9))))), 9);
}

#[test]
fn rename_replaces_binders_and_occurrences() {
    let mut t = tl(1, ta(tv(1), tl(2, ta(tv(1), tv(2)))));
    t.rename(1, 5);
    assert_eq!(t, tl(5, ta(tv(5), tl(2, ta(tv(5), tv(2))))));
}

#[test]
fn rename_of_an_absent_tag_changes_nothing() {
    let before = tl(1, ta(tv(1), tv(3)));
    let mut t = before.clone();
    t.rename(8, 9);
    assert_eq!(t, before);
}

#[test]
fn rename_is_unconditional_and_may_capture() {
    let mut t = tl(1, tl(2, ta(tv(1), tv(2))));
    t.rename(1, 2);
    assert_eq!(t, tl(2, tl(2, ta(tv(2), tv(2)))));
}

#[test]
fn rename_to_a_fresh_tag_and_back_restores_the_term() {
    let before = ta(tl(1, ta(tv(1), tl(2, tv(1)))), tl(3, tv(3)));
    for a in 0..5 {
        let mut t = before.clone();
        t.rename(a, 77);
        t.rename(77, a);
        assert_eq!(t, before);
    }
}

#[test]
fn rename_back_does_not_restore_when_the_tag_was_in_use() {
    let before = tl(1, tl(2, ta(tv(1), tv(2))));
    let mut t = before.clone();
    t.rename(1, 2);
    t.rename(2, 1);
    assert_ne!(t, before);
}

#[test]
fn readout_of_church_numerals_up_to_one_hundred() {
    for n in 0..=100u64 {
        assert_eq!(church(n, 1, 2).convert(), Some(n));
        assert_eq!(church(n, 40, 3).convert(), Some(n));
    }
}

#[test]
fn readout_needs_two_abstractions_at_the_head() {
    assert_eq!(tv(0).convert(), None);
    assert_eq!(tl(1, tv(1)).convert(), None);
    assert_eq!(ta(tv(1), tv(2)).convert(), None);
    assert_eq!(tl(1, ta(tv(1), tv(1))).convert(), None);
    assert_eq!(tl(1, tl(2, tl(3, tv(3)))).convert(), None);
}

#[test]
fn readout_needs_variables_in_function_position() {
    let redex = ta(tl(3, tv(3)), tv(2));
    assert_eq!(tl(1, tl(2, redex)).convert(), None);
    assert_eq!(tl(1, tl(2, ta(ta(tv(1), tv(1)), tv(2)))).convert(), None);
    assert_eq!(tl(1, tl(2, ta(tv(1), tl(3, tv(3))))).convert(), None);
}

#[test]
fn readout_counts_applications_whatever_the_tags() {
    assert_eq!(tl(1, tl(2, ta(tv(9), ta(tv(8), tv(7))))).convert(), Some(2));
    assert_eq!(tl(0, tl(0, ta(tv(1), tv(0)))).convert(), Some(1));
}

#[test]
fn clone_gives_an_equal_term() {
    let t = ta(tl(1, ta(tv(1), tl(2, tv(1)))), tl(3, tv(3)));
    assert_eq!(t.clone(), t);
}
