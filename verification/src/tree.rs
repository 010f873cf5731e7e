//! The term model shared by every reduction engine.

use vstd::prelude::*;

verus! {

/// A term of the untyped lambda calculus. Every tag is a non-negative integer:
/// a name where terms are built, a lexical index once binders have been resolved.
#[derive(Debug, PartialEq, Eq)]
pub enum Tree {
    /// An occurrence of a variable.
    Var(usize),
    /// An abstraction: the binder's tag and the body it scopes over.
    Abs(usize, Box<Tree>),
    /// An application of the first term to the second.
    App(Box<Tree>, Box<Tree>),
}

impl Clone for Tree {
    fn clone(&self) -> (copy: Self)
        ensures
            copy == *self,
        decreases *self,
    {
        match self {
            Tree::Var(x) => Tree::Var(*x),
            Tree::Abs(x, body) => Tree::Abs(*x, Box::new((**body).clone())),
            Tree::App(left, right) => Tree::App(
                Box::new((**left).clone()),
                Box::new((**right).clone()),
            ),
        }
    }
}

/// String::push appends one character to the text.
pub assume_specification[ String::push ](text: &mut String, c: char)
    ensures
        final(text)@ == old(text)@.push(c),
;

/// The larger of two naturals.
pub open spec fn larger(a: nat, b: nat) -> nat {
    if a >= b {
        a
    } else {
        b
    }
}

/// The character of a single decimal digit.
pub open spec fn digit(d: nat) -> char {
    if d == 0 {
        '0'
    } else if d == 1 {
        '1'
    } else if d == 2 {
        '2'
    } else if d == 3 {
        '3'
    } else if d == 4 {
        '4'
    } else if d == 5 {
        '5'
    } else if d == 6 {
        '6'
    } else if d == 7 {
        '7'
    } else if d == 8 {
        '8'
    } else {
        '9'
    }
}

/// The decimal numeral of `n`, most significant digit first, without leading zeros.
pub open spec fn decimal(n: nat) -> Seq<char>
    decreases n,
{
    if n < 10 {
        seq![digit(n)]
    } else {
        decimal(n / 10).push(digit(n % 10))
    }
}

fn digit_char(d: usize) -> (c: char)
    requires
        d < 10,
    ensures
        c == digit(d as nat),
{
    if d == 0 {
        '0'
    } else if d == 1 {
        '1'
    } else if d == 2 {
        '2'
    } else if d == 3 {
        '3'
    } else if d == 4 {
        '4'
    } else if d == 5 {
        '5'
    } else if d == 6 {
        '6'
    } else if d == 7 {
        '7'
    } else if d == 8 {
        '8'
    } else {
        '9'
    }
}

fn push_decimal(text: &mut String, n: usize)
    ensures
        final(text)@ == old(text)@ + decimal(n as nat),
    decreases n,
{
    if n >= 10 {
        push_decimal(text, n / 10);
    }
    text.push(digit_char(n % 10));
}

impl Tree {
    /// The largest tag that occurs in the term, at a binder or at a variable.
    pub open spec fn largest_tag(self) -> nat
        decreases self,
    {
        match self {
            Tree::Var(x) => x as nat,
            Tree::Abs(x, body) => larger(x as nat, body.largest_tag()),
            Tree::App(left, right) => larger(left.largest_tag(), right.largest_tag()),
        }
    }

    /// Whether `tag` occurs in the term, at a binder or at a variable.
    pub open spec fn mentions(self, tag: usize) -> bool
        decreases self,
    {
        match self {
            Tree::Var(x) => x == tag,
            Tree::Abs(x, body) => x == tag || body.mentions(tag),
            Tree::App(left, right) => left.mentions(tag) || right.mentions(tag),
        }
    }

    /// The term with every tag `from` replaced by `to`, binders and variables alike.
    pub open spec fn renamed(self, from: usize, to: usize) -> Tree
        decreases self,
    {
        match self {
            Tree::Var(x) => Tree::Var(if x == from { to } else { x }),
            Tree::Abs(x, body) => Tree::Abs(
                if x == from { to } else { x },
                Box::new(body.renamed(from, to)),
            ),
            Tree::App(left, right) => Tree::App(
                Box::new(left.renamed(from, to)),
                Box::new(right.renamed(from, to)),
            ),
        }
    }

    /// The number of applications in a chain `v (v (.. v))` whose function
    /// positions all hold variables; `None` for any other shape.
    pub open spec fn chain_length(self) -> Option<nat>
        decreases self,
    {
        match self {
            Tree::Var(_) => Some(0nat),
            Tree::Abs(_, _) => None,
            Tree::App(left, right) => match (*left, right.chain_length()) {
                (Tree::Var(_), Some(n)) => Some(n + 1),
                _ => None,
            },
        }
    }

    /// The number that the term stands for as a Church numeral: two nested
    /// abstractions over a chain of applications. `None` for any other shape.
    pub open spec fn church_value(self) -> Option<nat> {
        match self {
            Tree::Abs(_, outer) => match *outer {
                Tree::Abs(_, inner) => inner.chain_length(),
                _ => None,
            },
            _ => None,
        }
    }

    /// The body of the Church numeral `n`: `f` applied `n` times to `x`.
    pub open spec fn church_chain(n: nat, f: usize, x: usize) -> Tree
        decreases n,
    {
        if n == 0 {
            Tree::Var(x)
        } else {
            Tree::App(
                Box::new(Tree::Var(f)),
                Box::new(Tree::church_chain((n - 1) as nat, f, x)),
            )
        }
    }

    /// The Church numeral `n` with binders `f` and `x`.
    pub open spec fn church_numeral(n: nat, f: usize, x: usize) -> Tree {
        Tree::Abs(f, Box::new(Tree::Abs(x, Box::new(Tree::church_chain(n, f, x)))))
    }

    /// The diagnostic text of the term: a variable is its tag in decimal, an
    /// abstraction is its body behind a lambda, an application is its two
    /// sides with a space between; the last two stand in round brackets.
    pub open spec fn indexed_text(self) -> Seq<char>
        decreases self,
    {
        match self {
            Tree::Var(x) => decimal(x as nat),
            Tree::Abs(_, body) => seq!['(', '\u{3bb}'] + body.indexed_text() + seq![')'],
            Tree::App(left, right) => seq!['('] + left.indexed_text() + seq![' ']
                + right.indexed_text() + seq![')'],
        }
    }

    fn write_indexed(&self, text: &mut String)
        ensures
            final(text)@ == old(text)@ + self.indexed_text(),
        decreases *self,
    {
        match self {
            Tree::Var(x) => {
                push_decimal(text, *x);
            },
            Tree::Abs(_, body) => {
                text.push('(');
                text.push('\u{3bb}');
                body.write_indexed(text);
                text.push(')');
            },
            Tree::App(left, right) => {
                text.push('(');
                left.write_indexed(text);
                text.push(' ');
                right.write_indexed(text);
                text.push(')');
            },
        }
    }

    /// Renders the term for inspection.
    pub fn to_indexed_string(&self) -> (text: String)
        ensures
            text@ == self.indexed_text(),
    {
        let mut text = String::new();
        self.write_indexed(&mut text);
        text
    }

    /// Computes the largest tag of the term.
    pub fn find_largest_var(tree: &Tree) -> (largest: usize)
        ensures
            largest == tree.largest_tag(),
        decreases *tree,
    {
        match tree {
            Tree::Var(x) => *x,
            Tree::Abs(x, body) => {
                let inner: usize = Tree::find_largest_var(body);
                if *x >= inner {
                    *x
                } else {
                    inner
                }
            },
            Tree::App(left, right) => {
                let u: usize = Tree::find_largest_var(left);
                let v: usize = Tree::find_largest_var(right);
                if u >= v {
                    u
                } else {
                    v
                }
            },
        }
    }

    /// Replaces every tag `from` by `to`, with no regard to scope: the caller
    /// picks a `to` that the term does not hold.
    pub fn rename(&mut self, from: usize, to: usize)
        ensures
            *final(self) == old(self).renamed(from, to),
        decreases *old(self),
    {
        match self {
            Tree::Var(x) => {
                if *x == from {
                    *x = to;
                }
            },
            Tree::Abs(x, body) => {
                if *x == from {
                    *x = to;
                }
                body.rename(from, to);
            },
            Tree::App(left, right) => {
                left.rename(from, to);
                right.rename(from, to);
            },
        }
    }

    /// Reads the term as a Church numeral.
    pub fn convert(&self) -> (value: Option<u64>)
        ensures
            value == (match self.church_value() {
                Some(n) if n <= u64::MAX => Some(n as u64),
                _ => None,
            }),
    {
        match self {
            Tree::Abs(_, outer) => match &**outer {
                Tree::Abs(_, inner) => {
                    let mut rest: &Tree = &**inner;
                    let mut count: u64 = 0;
                    loop
                        invariant
                            self.church_value() == inner.chain_length(),
                            inner.chain_length() == (match rest.chain_length() {
                                Some(n) => Some((n + count) as nat),
                                None => None,
                            }),
                        decreases *rest,
                    {
                        match rest {
                            Tree::Var(_) => {
                                return Some(count);
                            },
                            Tree::Abs(_, _) => {
                                return None;
                            },
                            Tree::App(left, right) => match &**left {
                                Tree::Var(_) => {
                                    if count == u64::MAX {
                                        return None;
                                    }
                                    count = count + 1;
                                    rest = &**right;
                                },
                                _ => {
                                    return None;
                                },
                            },
                        }
                    }
                },
                _ => None,
            },
            _ => None,
        }
    }

    /// A chain of `n` applications reads back as `n`.
    pub proof fn lemma_church_chain_length(n: nat, f: usize, x: usize)
        ensures
            Tree::church_chain(n, f, x).chain_length() == Some(n),
        decreases n,
    {
        if n > 0 {
            Tree::lemma_church_chain_length((n - 1) as nat, f, x);
        }
    }

    /// The readout of the Church numeral `n` is `n`, whatever its binders are called.
    pub proof fn lemma_church_numeral_value(n: nat, f: usize, x: usize)
        ensures
            Tree::church_numeral(n, f, x).church_value() == Some(n),
    {
        Tree::lemma_church_chain_length(n, f, x);
    }

    /// Renaming `a` to a tag `b` that the term does not hold, and then `b`
    /// back to `a`, gives the term again.
    pub proof fn lemma_rename_round_trip(self, a: usize, b: usize)
        requires
            !self.mentions(b),
        ensures
            self.renamed(a, b).renamed(b, a) == self,
        decreases self,
    {
        match self {
            Tree::Var(_) => {},
            Tree::Abs(_, body) => {
                body.lemma_rename_round_trip(a, b);
            },
            Tree::App(left, right) => {
                left.lemma_rename_round_trip(a, b);
                right.lemma_rename_round_trip(a, b);
            },
        }
    }
}

} // verus!
