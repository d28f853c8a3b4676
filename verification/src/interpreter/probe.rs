//! Asking beforehand whether a sequence of expressions has a meaning.

use std::ops::Range;
use vstd::prelude::*;

use crate::interpreter::eval::{
    apply, call_view, eval, has_placeholder, joined, lemma_source_decides_application,
    lemma_source_decides_reports_only, lemma_weight_inside, placeholders_below, rank,
    reduce_from, reduced_atom, sum_from, total_weight, Outcome,
};
use crate::interpreter::{substitute, Binding, BindingView, Interpreter, Native};
use crate::parser::{Expr, ExprKind, ExprKindView, ExprView};

verus! {

/// What an evaluation comes to, as far as it matters to whoever only asks
/// whether it has a meaning: an integer, another value, a failure, or
/// nothing.
#[derive(Clone, Copy, Debug, PartialEq, Eq, Structural)]
pub enum Probe {
    Integer(i32),
    Other,
    Fails,
    Undefined,
}

pub open spec fn probe_value(value: BindingView) -> Probe {
    match value {
        BindingView::Expression(ExprView { kind: ExprKindView::Integer(value), .. }) => {
            Probe::Integer(value)
        },
        _ => Probe::Other,
    }
}

pub open spec fn probe_of(outcome: Outcome) -> Probe {
    match outcome {
        Outcome::Value(value) => probe_value(value),
        Outcome::Failure(..) => Probe::Fails,
        Outcome::Undefined => Probe::Undefined,
    }
}

fn probe_expr(expr: &Expr) -> (probe: Probe)
    ensures
        probe == probe_value(BindingView::Expression(expr@)),
{
    match expr.kind {
        ExprKind::Integer(value) => Probe::Integer(value),
        _ => Probe::Other,
    }
}

/// Says whether one of the items is a placeholder.
pub fn any_placeholder(items: &Vec<Expr>) -> (yes: bool)
    ensures
        yes == has_placeholder(items.deep_view()),
{
    let mut i: usize = 0;
    while i < items.len()
        invariant
            i <= items.len(),
            forall|j: int| 0 <= j < i ==> !((#[trigger] items.deep_view()[j]).kind is Argument),
        decreases items.len() - i,
    {
        assert(items.deep_view()[i as int] == items[i as int]@);
        if let ExprKind::Argument(_) = items[i].kind {
            return true;
        }
        i += 1;
    }
    false
}

/// What the sum of the values comes to, of which `summaries` says what
/// each is.
fn probe_sum(summaries: &Vec<Probe>, Ghost(values): Ghost<Seq<BindingView>>) -> (probe: Probe)
    requires
        summaries.len() == values.len(),
        forall|k: int| 0 <= k < values.len() ==> summaries[k] == probe_value(#[trigger] values[k]),
    ensures
        probe == probe_of(sum_from(values, 0, 0)),
{
    let mut total: i32 = 0;
    let mut i: usize = 0;
    while i < summaries.len()
        invariant
            i <= summaries.len(),
            summaries.len() == values.len(),
            forall|k: int|
                0 <= k < values.len() ==> summaries[k] == probe_value(#[trigger] values[k]),
            sum_from(values, 0, 0) == sum_from(values, i as int, total as int),
        decreases summaries.len() - i,
    {
        assert(summaries[i as int] == probe_value(values[i as int]));
        match summaries[i] {
            Probe::Integer(value) => {
                let sum = total as i64 + value as i64;
                if sum < i32::MIN as i64 || sum > i32::MAX as i64 {
                    return Probe::Undefined;
                }
                total = sum as i32;
            },
            _ => {
                return Probe::Fails;
            },
        }
        i += 1;
    }
    Probe::Integer(total)
}

/// Says whether every placeholder among the items stands for one of
/// `count` arguments.
pub fn placeholders_fit(items: &Vec<Expr>, count: usize) -> (yes: bool)
    ensures
        yes == placeholders_below(items.deep_view(), count as int),
{
    let mut i: usize = 0;
    while i < items.len()
        invariant
            i <= items.len(),
            forall|j: int|
                0 <= j < i ==> ((#[trigger] items.deep_view()[j]).kind matches ExprKindView::Argument(
                    index,
                ) ==> index < count),
        decreases items.len() - i,
    {
        assert(items.deep_view()[i as int] == items[i as int]@);
        if let ExprKind::Argument(index) = items[i].kind {
            if index >= count {
                return false;
            }
        }
        i += 1;
    }
    true
}

/// Copies of the items from index `from` on.
fn copies(items: &Vec<Expr>, from: usize) -> (tail: Vec<Expr>)
    requires
        from <= items.len(),
    ensures
        tail.deep_view() == items.deep_view().skip(from as int),
{
    let mut tail: Vec<Expr> = Vec::new();
    let mut i: usize = from;
    while i < items.len()
        invariant
            from <= i <= items.len(),
            tail.len() == i - from,
            forall|j: int| 0 <= j < tail.len() ==> (#[trigger] tail[j])@ == items[from + j]@,
        decreases items.len() - i,
    {
        tail.push(items[i].clone());
        i += 1;
    }
    assert(tail.deep_view() =~= items.deep_view().skip(from as int));
    tail
}

fn probe_binding(binding: &Binding) -> (probe: Probe)
    ensures
        probe == probe_value(binding@),
{
    match binding {
        Binding::Expression(expr) => probe_expr(expr),
        _ => Probe::Other,
    }
}

impl<'src> Interpreter<'src> {
    /// What the reduction of an expression that is no list comes to.
    fn probe_atom(&self, expr: &Expr, Ghost(source): Ghost<Seq<char>>) -> (probe: Probe)
        requires
            !(expr.kind is List),
        ensures
            probe == probe_of(reduced_atom(source, expr@)),
    {
        match &expr.kind {
            ExprKind::Identifier(name) => match self.lookup(name.as_str()) {
                None => Probe::Fails,
                Some(binding) => probe_binding(&binding),
            },
            ExprKind::Integer(_) | ExprKind::Boolean(_) | ExprKind::Unit => probe_expr(expr),
            _ => Probe::Undefined,
        }
    }

    /// What the evaluation of the expressions comes to. Nothing is
    /// reported, and the expressions are left where they are.
    fn probe(&self, expressions: &Vec<Expr>, Ghost(source): Ghost<Seq<char>>) -> (probe: Probe)
        ensures
            probe == probe_of(eval(source, expressions.deep_view())),
        decreases 0nat, total_weight(expressions.deep_view()), 1nat,
    {
        let ghost exprs = expressions.deep_view();
        if expressions.len() == 0 {
            return Probe::Other;
        }
        let head = &expressions[0];
        proof {
            assert(exprs[0] == head@);
            lemma_weight_inside(exprs, 0);
        }
        match &head.kind {
            ExprKind::Integer(_) | ExprKind::Boolean(_) | ExprKind::Unit => probe_expr(head),
            ExprKind::List(inner) => {
                proof {
                    crate::parser::lemma_list_view(head.span, *inner);
                }
                self.probe(inner, Ghost(source))
            },
            ExprKind::Keyword(_) | ExprKind::Argument(_) => Probe::Undefined,
            ExprKind::Identifier(name) => match self.lookup(name.as_str()) {
                None => Probe::Fails,
                Some(Binding::Expression(expr)) => probe_expr(&expr),
                Some(binding) => {
                    if expressions.len() == 1 {
                        Probe::Other
                    } else {
                        self.probe_call(&binding, expressions, 1, Ghost(source), Ghost(exprs))
                    }
                },
            },
        }
    }

    /// What the call `whole` comes to where its name stands for `binding`;
    /// the arguments of the call are the items from index `first` on.
    fn probe_call(
        &self,
        binding: &Binding,
        items: &Vec<Expr>,
        first: usize,
        Ghost(source): Ghost<Seq<char>>,
        Ghost(whole): Ghost<Seq<ExprView>>,
    ) -> (probe: Probe)
        requires
            first <= items.len(),
            whole.len() == items.len() - first + 1,
            whole.skip(1) == items.deep_view().skip(first as int),
        ensures
            probe == probe_of(apply(source, binding@, whole)),
        decreases rank(binding@), total_weight(whole), 0nat,
    {
        let got = items.len() - first;
        let ghost args = whole.skip(1);
        assert(args.len() == got);
        assert forall|i: int| first <= i < items.len() implies whole[i - first + 1] == (
        #[trigger] items[i])@ by {
            assert(args[i - first] == items.deep_view().skip(first as int)[i - first]);
        }
        match binding {
            Binding::Expression(_) => Probe::Undefined,
            Binding::Function(arity, body) => {
                if got != *arity {
                    return Probe::Fails;
                }
                match &body.kind {
                    ExprKind::Argument(index) => {
                        if *index < *arity {
                            let chosen = &items[first + *index];
                            proof {
                                assert(whole[index + 1] == chosen@);
                                lemma_weight_inside(whole, index + 1);
                            }
                            match &chosen.kind {
                                ExprKind::List(contents) => {
                                    proof {
                                        crate::parser::lemma_list_view(chosen.span, *contents);
                                    }
                                    if any_placeholder(contents) {
                                        Probe::Undefined
                                    } else {
                                        self.probe(contents, Ghost(source))
                                    }
                                },
                                _ => self.probe_atom(chosen, Ghost(source)),
                            }
                        } else {
                            Probe::Undefined
                        }
                    },
                    ExprKind::List(contents) => {
                        proof {
                            crate::parser::lemma_list_view(body.span, *contents);
                        }
                        if placeholders_fit(contents, got) {
                            let given = copies(items, first);
                            let copy = copies(contents, 0);
                            let ghost before = contents.deep_view();
                            assert(before.skip(0) =~= before);
                            assert(given.deep_view().len() == got);
                            assert forall|i: int| 0 <= i < copy.len() implies ((
                            #[trigger] copy[i]).kind matches ExprKind::Argument(index)
                                ==> index < given.len()) by {
                                assert(before[i] == copy.deep_view()[i]);
                                assert(copy.deep_view()[i] == copy[i]@);
                            }
                            let rewritten = substitute(copy, &given);
                            self.probe(&rewritten, Ghost(source))
                        } else {
                            Probe::Undefined
                        }
                    },
                    _ => self.probe_atom(body, Ghost(source)),
                }
            },
            Binding::NativeFunction(arity, native) => {
                if let Some(expected) = arity {
                    if *expected != got {
                        return Probe::Fails;
                    }
                }
                let mut summaries: Vec<Probe> = Vec::new();
                let ghost mut done: Seq<BindingView> = Seq::empty();
                let mut i: usize = first;
                while i < items.len()
                    invariant
                        first <= i <= items.len(),
                        whole.len() == items.len() - first + 1,
                        got == items.len() - first,
                        whole.skip(1).len() == got,
                        binding@ == BindingView::NativeFunction(*arity, *native),
                        arity matches Some(expected) ==> expected == got,
                        forall|j: int|
                            first <= j < items.len() ==> whole[j - first + 1] == (
                            #[trigger] items[j])@,
                        summaries.len() == done.len(),
                        forall|k: int|
                            0 <= k < done.len() ==> summaries[k] == probe_value(#[trigger] done[k]),
                        reduce_from(source, whole, 1) == joined(
                            done,
                            reduce_from(source, whole, i - first + 1),
                        ),
                    decreases items.len() - i,
                {
                    let arg = &items[i];
                    let ghost at = i - first + 1;
                    proof {
                        assert(whole[at] == arg@);
                        lemma_weight_inside(whole, at);
                    }
                    let one = match &arg.kind {
                        ExprKind::List(contents) => {
                            proof {
                                crate::parser::lemma_list_view(arg.span, *contents);
                            }
                            self.probe(contents, Ghost(source))
                        },
                        _ => probe_expr(arg),
                    };
                    match one {
                        Probe::Fails => {
                            return Probe::Fails;
                        },
                        Probe::Undefined => {
                            return Probe::Undefined;
                        },
                        _ => {},
                    }
                    proof {
                        let value = match whole[at].kind {
                            ExprKindView::List(contents) => eval(source, contents)->Value_0,
                            _ => BindingView::Expression(whole[at]),
                        };
                        let before = done;
                        done = done.push(value);
                        assert forall|more: Seq<BindingView>|
                            before + (seq![value] + more) == #[trigger] (before.push(value)
                                + more) by {
                            assert(before + (seq![value] + more) =~= before.push(value) + more);
                        }
                    }
                    summaries.push(one);
                    i += 1;
                }
                assert(done + Seq::<BindingView>::empty() =~= done);
                match native {
                    Native::Add => probe_sum(&summaries, Ghost(done)),
                }
            },
        }
    }

    /// Says whether the expressions have a meaning, that is, whether
    /// [`Interpreter::interpret`] and [`Interpreter::interpret_with_source`]
    /// accept them, whatever text failures are reported against.
    pub fn accepts(&self, expressions: &Vec<Expr>) -> (yes: bool)
        ensures
            forall|source: Seq<char>|
                yes == !(#[trigger] eval(source, expressions.deep_view()) is Undefined),
    {
        let ghost any = self.source();
        let probe = self.probe(expressions, Ghost(any));
        proof {
            assert forall|source: Seq<char>|
                (probe !is Undefined) == !(#[trigger] eval(source, expressions.deep_view())
                    is Undefined) by {
                lemma_source_decides_reports_only(any, source, expressions.deep_view());
            }
        }
        match probe {
            Probe::Undefined => false,
            _ => true,
        }
    }

    /// Says whether the call of `ident` on the given argument expressions
    /// has a meaning where `ident` stands for `func`, that is, whether
    /// [`Interpreter::handle_function`] accepts it, whatever text failures
    /// are reported against.
    pub fn accepts_call(
        &self,
        func: &Binding,
        ident: &str,
        name_span: &Range<usize>,
        expressions: &Vec<Expr>,
    ) -> (yes: bool)
        ensures
            forall|source: Seq<char>|
                yes == !(#[trigger] apply(
                    source,
                    func@,
                    call_view(ident@, *name_span, expressions.deep_view()),
                ) is Undefined),
    {
        let ghost any = self.source();
        let ghost whole = call_view(ident@, *name_span, expressions.deep_view());
        assert(whole.skip(1) =~= expressions.deep_view().skip(0));
        let probe = self.probe_call(func, expressions, 0, Ghost(any), Ghost(whole));
        proof {
            assert forall|source: Seq<char>|
                (probe !is Undefined) == !(#[trigger] apply(source, func@, whole) is Undefined) by {
                lemma_source_decides_application(any, source, func@, whole);
            }
        }
        match probe {
            Probe::Undefined => false,
            _ => true,
        }
    }
}

} // verus!
