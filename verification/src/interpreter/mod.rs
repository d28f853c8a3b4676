//! The evaluator: from a sequence of expressions to a value.
//!
//! [`eval::eval`] says what a sequence of expressions evaluates to;
//! [`Interpreter::interpret`] computes it, and [`Interpreter::accepts`] says
//! beforehand whether there is anything to compute.

pub mod eval;
pub mod probe;

use std::ops::Range;
use vstd::prelude::*;
use vstd::string::StringExecFns;

use crate::errors::builder::Diagnostic;
use crate::errors::DiagnosticsContext;
use crate::interpreter::eval::{
    agrees, apply, builtin, call_native, call_view, eval, has_placeholder, joined, lemma_bare_name,
    lemma_substituted_same, lemma_weight_inside, lemma_weights_skip, placeholders_below, rank,
    reduce_from, substituted, sum_from, total_weight, unexpected_argument_report, Outcome,
    Reduced,
};
use crate::parser::{same_text, Expr, ExprKind, ExprKindView, ExprView};
use crate::text::{decimal_text, push_decimal};

verus! {

/// The procedures that the host implements.
#[derive(Clone, Copy, Debug, PartialEq, Eq, Structural)]
pub enum Native {
    /// Adds up any number of integers.
    Add,
}

/// The value of a binding.
#[derive(Debug, Eq, PartialEq)]
pub enum Binding {
    /// An expression (ex. "(add 2 2)")
    Expression(Expr),
    /// A function defined in the language: how many arguments it takes, and
    /// its body.
    Function(usize, Expr),
    /// A function that the host implements: how many arguments it takes,
    /// if that is fixed, and the procedure.
    NativeFunction(Option<usize>, Native),
}

pub enum BindingView {
    Expression(ExprView),
    Function(usize, ExprView),
    NativeFunction(Option<usize>, Native),
}

impl View for Binding {
    type V = BindingView;

    open spec fn view(&self) -> BindingView {
        match self {
            Binding::Expression(expr) => BindingView::Expression(expr@),
            Binding::Function(arity, body) => BindingView::Function(*arity, body@),
            Binding::NativeFunction(arity, native) => BindingView::NativeFunction(*arity, *native),
        }
    }
}

impl DeepView for Binding {
    type V = BindingView;

    open spec fn deep_view(&self) -> BindingView {
        self@
    }
}

impl Clone for Binding {
    fn clone(&self) -> (copy: Self)
        ensures
            copy@ == self@,
    {
        match self {
            Binding::Expression(expr) => Binding::Expression(expr.clone()),
            Binding::Function(arity, body) => Binding::Function(*arity, body.clone()),
            Binding::NativeFunction(arity, native) => Binding::NativeFunction(*arity, *native),
        }
    }
}

#[derive(Debug)]
pub enum InterpreterError {
    /// No binding has this name.
    UnknownIdentifier(String),
    /// The function `ident` takes `expected` arguments and was given `got`.
    WrongNumArgs { ident: String, expected: usize, got: usize },
    /// The native function of this name does not take this value.
    InvalidArgument(String, Binding),
}

pub enum InterpreterErrorView {
    UnknownIdentifier(Seq<char>),
    WrongNumArgs { ident: Seq<char>, expected: usize, got: usize },
    InvalidArgument(Seq<char>, BindingView),
}

impl View for InterpreterError {
    type V = InterpreterErrorView;

    open spec fn view(&self) -> InterpreterErrorView {
        match self {
            InterpreterError::UnknownIdentifier(name) => InterpreterErrorView::UnknownIdentifier(
                name@,
            ),
            InterpreterError::WrongNumArgs { ident, expected, got } => {
                InterpreterErrorView::WrongNumArgs { ident: ident@, expected: *expected, got: *got }
            },
            InterpreterError::InvalidArgument(name, binding) => {
                InterpreterErrorView::InvalidArgument(name@, binding@)
            },
        }
    }
}

impl InterpreterErrorView {
    /// What the error says of itself.
    pub open spec fn message_text(self) -> Seq<char> {
        match self {
            InterpreterErrorView::UnknownIdentifier(name) => "Unknown identifier "@ + name,
            InterpreterErrorView::WrongNumArgs { ident, expected, got } => {
                "Wrong number of arguments for "@ + ident + " (expected "@ + decimal_text(
                    expected as nat,
                ) + ", got "@ + decimal_text(got as nat) + ")"@
            },
            InterpreterErrorView::InvalidArgument(name, binding) => {
                "Invalid argument provided to function "@ + name + ": "@ + debug_text(binding)
            },
        }
    }
}

impl InterpreterError {
    /// What the error says of itself.
    pub fn message(&self) -> (text: String)
        ensures
            text@ == self@.message_text(),
    {
        match self {
            InterpreterError::UnknownIdentifier(name) => {
                let mut text = String::from_str("Unknown identifier ");
                text.append(name.as_str());
                text
            },
            InterpreterError::WrongNumArgs { ident, expected, got } => {
                let mut text = String::from_str("Wrong number of arguments for ");
                text.append(ident.as_str());
                text.append(" (expected ");
                push_decimal(&mut text, *expected);
                text.append(", got ");
                push_decimal(&mut text, *got);
                text.append(")");
                text
            },
            InterpreterError::InvalidArgument(name, binding) => {
                let mut text = String::from_str("Invalid argument provided to function ");
                text.append(name.as_str());
                text.append(": ");
                text.append(debug_string(binding).as_str());
                text
            },
        }
    }
}

/// How a binding is written out for the programmer: what `{:?}` prints for
/// it.
pub uninterp spec fn debug_text(binding: BindingView) -> Seq<char>;

/// Takes the first item out of the sequence.
fn take_first<T: DeepView>(items: &mut Vec<T>) -> (first: T)
    requires
        old(items).len() != 0,
    ensures
        first.deep_view() == old(items).deep_view()[0],
        first == old(items)[0],
        final(items).deep_view() == old(items).deep_view().skip(1),
        final(items).len() == old(items).len() - 1,
{
    let ghost before = items.deep_view();
    let first = items.remove(0);
    assert(items.deep_view() =~= before.skip(1));
    first
}

/// `format!` of std with `{:?}`, on a binding.
#[verifier::external_body]
fn debug_string(binding: &Binding) -> (text: String)
    ensures
        text@ == debug_text(binding@),
{
    format!("{:?}", binding)
}

/// Replaces each placeholder among the items by a copy of the argument that
/// it stands for. Items inside a nested list are left as they are.
pub fn substitute(contents: Vec<Expr>, args: &Vec<Expr>) -> (rewritten: Vec<Expr>)
    requires
        forall|i: int|
            0 <= i < contents.len() ==> ((#[trigger] contents[i]).kind matches ExprKind::Argument(
                index,
            ) ==> index < args.len()),
    ensures
        rewritten.deep_view() == substituted(contents.deep_view(), args.deep_view()),
{
    let mut contents = contents;
    let ghost before = contents.deep_view();
    let mut i: usize = 0;
    while i < contents.len()
        invariant
            i <= contents.len(),
            contents.len() == before.len(),
            forall|j: int|
                i <= j < contents.len() ==> ((#[trigger] contents[j]).kind matches ExprKind::Argument(
                    index,
                ) ==> index < args.len()),
            forall|j: int| i <= j < contents.len() ==> (#[trigger] contents[j])@ == before[j],
            forall|j: int|
                0 <= j < i ==> (#[trigger] contents[j])@ == substituted(before, args.deep_view())[j],
        decreases contents.len() - i,
    {
        if let ExprKind::Argument(num) = contents[i].kind {
            let replacement = args[num].clone();
            assert(args.deep_view()[num as int] == args[num as int]@);
            contents.set(i, replacement);
        }
        i += 1;
    }
    assert(contents.deep_view() =~= substituted(before, args.deep_view()));
    contents
}

pub struct Interpreter<'src> {
    bindings: Vec<(String, Binding)>,
    error_ctx: DiagnosticsContext<'src>,
}

impl<'src> Interpreter<'src> {
    /// The interpreter holds the bindings it was made with, and reports
    /// against a text without a label.
    #[verifier::type_invariant]
    spec fn wf(&self) -> bool {
        &&& self.bindings.len() == 2
        &&& self.bindings[0].0@ == "add"@
        &&& self.bindings[0].1@ == BindingView::NativeFunction(None, Native::Add)
        &&& self.bindings[1].0@ == "second"@
        &&& self.bindings[1].1@ == BindingView::Function(
            2,
            ExprView { span: 0..0, kind: ExprKindView::Argument(1) },
        )
        &&& self.error_ctx.origin() is None
    }

    /// The text that failures are reported against.
    pub closed spec fn source(&self) -> Seq<char> {
        self.error_ctx.source()
    }

    pub fn new() -> (interpreter: Self)
        ensures
            interpreter.source() == Seq::<char>::empty(),
    {
        let mut bindings: Vec<(String, Binding)> = Vec::new();
        bindings.push((String::from_str("add"), Binding::NativeFunction(None, Native::Add)));
        bindings.push((String::from_str("second"), Binding::Function(2, Expr::argument(0..0, 1))));
        proof {
            reveal_strlit("");
        }
        Self { bindings, error_ctx: DiagnosticsContext::new("", None) }
    }

    /// A copy of what `ident` is bound to.
    fn lookup(&self, ident: &str) -> (found: Option<Binding>)
        ensures
            builtin(ident@) == match found {
                Some(binding) => Some(binding@),
                None => None,
            },
    {
        proof {
            use_type_invariant(self);
        }
        let mut i: usize = 0;
        while i < self.bindings.len()
            invariant
                i <= self.bindings.len(),
                forall|j: int| 0 <= j < i ==> (#[trigger] self.bindings[j]).0@ != ident@,
            decreases self.bindings.len() - i,
        {
            proof {
                use_type_invariant(self);
            }
            if same_text(self.bindings[i].0.as_str(), ident) {
                return Some(self.bindings[i].1.clone());
            }
            i += 1;
        }
        assert(self.bindings[0].0@ != ident@);
        assert(self.bindings[1].0@ != ident@);
        None
    }

    /// Interpret a given list of expressions, and report failures against
    /// `source`.
    pub fn interpret_with_source(
        &mut self,
        expressions: Vec<Expr>,
        source: &'src str,
        log: &mut Vec<Diagnostic>,
    ) -> (result: Result<Binding, InterpreterError>)
        requires
            !(eval(source@, expressions.deep_view()) is Undefined),
        ensures
            final(self).source() == source@,
            agrees(
                result,
                eval(source@, expressions.deep_view()),
                old(log).deep_view(),
                final(log).deep_view(),
            ),
    {
        proof {
            use_type_invariant(&*self);
        }
        self.error_ctx.set_src(source);
        self.interpret(expressions, log)
    }

    /// Interpret a given list of expressions.
    /// Returns a binding as the result of the evaluation.
    ///
    /// The result is what `eval` says of the expressions. A failure is
    /// reported as the one new entry of `log`; a value leaves `log` as it
    /// was.
    pub fn interpret(&mut self, expressions: Vec<Expr>, log: &mut Vec<Diagnostic>) -> (result:
        Result<Binding, InterpreterError>)
        requires
            !(eval(old(self).source(), expressions.deep_view()) is Undefined),
        ensures
            final(self).source() == old(self).source(),
            agrees(
                result,
                eval(old(self).source(), expressions.deep_view()),
                old(log).deep_view(),
                final(log).deep_view(),
            ),
        decreases 0nat, 3 * total_weight(expressions.deep_view()),
    {
        let ghost exprs = expressions.deep_view();
        if expressions.len() == 0 {
            return Ok(Binding::Expression(Expr::unit(0..0)));
        }
        let mut trailing = expressions;
        let Expr { span, kind } = take_first(&mut trailing);
        proof {
            lemma_weight_inside(exprs, 0);
            lemma_weights_skip(exprs, exprs.len());
        }

        match kind {
            ExprKind::Integer(_) | ExprKind::Boolean(_) | ExprKind::Unit => {
                Ok(Binding::Expression(Expr::new(span, kind)))
            },
            ExprKind::List(inner_expressions) => {
                proof {
                    crate::parser::lemma_list_view(span, inner_expressions);
                }
                self.interpret(inner_expressions, log)
            },
            ExprKind::Identifier(ident) => {
                assert(exprs =~= call_view(ident@, span, trailing.deep_view()));
                self.handle_identifier(ident.as_str(), span, trailing, log)
            },
            ExprKind::Keyword(_) => {
                proof {
                    assert(false);
                }
                vstd::pervasive::unreached()
            },
            ExprKind::Argument(_) => {
                proof {
                    assert(false);
                }
                vstd::pervasive::unreached()
            },
        }
    }

    /// Try and resolve a binding, making a function call if necessary.
    fn handle_identifier(
        &mut self,
        ident: &str,
        span: Range<usize>,
        expressions: Vec<Expr>,
        log: &mut Vec<Diagnostic>,
    ) -> (result: Result<Binding, InterpreterError>)
        requires
            !(eval(old(self).source(), call_view(ident@, span, expressions.deep_view()))
                is Undefined),
        ensures
            final(self).source() == old(self).source(),
            agrees(
                result,
                eval(old(self).source(), call_view(ident@, span, expressions.deep_view())),
                old(log).deep_view(),
                final(log).deep_view(),
            ),
        decreases
            0nat,
            (if expressions.len() == 0 {
                0nat
            } else {
                3 * total_weight(expressions.deep_view()) + 2
            }),
    {
        let ghost whole = call_view(ident@, span, expressions.deep_view());
        assert(whole.skip(1) =~= expressions.deep_view());
        proof {
            use_type_invariant(&*self);
        }
        let binding = match self.lookup(ident) {
            Some(res) => res,
            None => {
                let mut title = String::from_str("unknown identifier `");
                title.append(ident);
                title.append("`");
                self.error_ctx.build_error(title.as_str()).span_label(
                    span,
                    "not found in this scope",
                ).emit(log);
                return Err(InterpreterError::UnknownIdentifier(String::from_str(ident)));
            },
        };

        match binding {
            Binding::Expression(expr) => Ok(Binding::Expression(expr)),
            Binding::Function(..) | Binding::NativeFunction(..) => {
                if expressions.len() != 0 {
                    self.handle_function(&binding, ident, span, expressions, log)
                } else {
                    Ok(binding)
                }
            },
        }
    }

    /// Try and execute a function: what the call of `ident`, written at
    /// `name_span`, on the given argument expressions comes to where `ident`
    /// stands for `func`. The function need not be bound to the name, or to
    /// any.
    pub fn handle_function(
        &mut self,
        func: &Binding,
        ident: &str,
        name_span: Range<usize>,
        expressions: Vec<Expr>,
        log: &mut Vec<Diagnostic>,
    ) -> (result: Result<Binding, InterpreterError>)
        requires
            !(apply(
                old(self).source(),
                func@,
                call_view(ident@, name_span, expressions.deep_view()),
            ) is Undefined),
        ensures
            final(self).source() == old(self).source(),
            agrees(
                result,
                apply(
                    old(self).source(),
                    func@,
                    call_view(ident@, name_span, expressions.deep_view()),
                ),
                old(log).deep_view(),
                final(log).deep_view(),
            ),
        decreases rank(func@), 3 * total_weight(expressions.deep_view()) + 1,
    {
        let ghost source = self.source();
        let ghost given = expressions.deep_view();
        let ghost whole = call_view(ident@, name_span, given);
        proof {
            use_type_invariant(&*self);
            assert(whole.skip(1) =~= given);
        }

        match func {
            Binding::Function(num_arguments, body) => {
                if expressions.len() != *num_arguments {
                    let num_args_given = expressions.len();
                    let mut title = String::from_str(
                        "wrong number of arguments for function (expected ",
                    );
                    push_decimal(&mut title, *num_arguments);
                    title.append(", got ");
                    push_decimal(&mut title, num_args_given);
                    title.append(")");
                    let mut msg = self.error_ctx.build_error(title.as_str());

                    if num_args_given != 0 {
                        let args = expressions;
                        // Construct a span across the argument list
                        assert(given.first() == args[0]@);
                        assert(given.last() == args[num_args_given - 1]@);
                        let span = args[0].span.start..args[num_args_given - 1].span.end;
                        let mut label = String::from_str("got ");
                        push_decimal(&mut label, num_args_given);
                        label.append(" arguments");
                        msg = msg.span_label(span, label.as_str());
                    }
                    let mut label = String::from_str("expected ");
                    push_decimal(&mut label, *num_arguments);
                    label.append(" arguments");
                    msg.span_label(name_span, label.as_str()).emit(log);

                    return Err(
                        InterpreterError::WrongNumArgs {
                            ident: String::from_str(ident),
                            expected: *num_arguments,
                            got: num_args_given,
                        },
                    );
                }
                let mut body = body.clone();
                let args = expressions;
                let ghost stands_for_argument = body@.kind is Argument;

                if let ExprKind::Argument(num) = body.kind {
                    assert(whole[num + 1] == args[num as int]@);
                    proof {
                        lemma_weight_inside(given, num as int);
                    }
                    body = args[num].clone();
                }
                let Expr { span, kind } = body;
                match kind {
                    ExprKind::List(contents) => {
                        proof {
                            crate::parser::lemma_list_view(span, contents);
                            let items = contents.deep_view();
                            if stands_for_argument {
                                assert(!has_placeholder(items));
                                lemma_substituted_same(items, given);
                            } else {
                                assert(placeholders_below(items, given.len() as int));
                            }
                            assert forall|i: int| 0 <= i < contents.len() implies ((
                            #[trigger] contents[i]).kind matches ExprKind::Argument(index)
                                ==> index < args.len()) by {
                                assert(items[i] == contents[i]@);
                            }
                        }
                        let contents = substitute(contents, &args);
                        self.interpret(contents, log)
                    },
                    ExprKind::Identifier(name) => {
                        let none: Vec<Expr> = Vec::new();
                        proof {
                            assert(none.deep_view() =~= Seq::empty());
                            lemma_bare_name(source, name@, span);
                        }
                        self.handle_identifier(name.as_str(), span, none, log)
                    },
                    ExprKind::Integer(_) | ExprKind::Boolean(_) | ExprKind::Unit => {
                        Ok(Binding::Expression(Expr::new(span, kind)))
                    },
                    _ => {
                        proof {
                            assert(false);
                        }
                        vstd::pervasive::unreached()
                    },
                }
            },
            Binding::NativeFunction(maybe_num_arguments, native) => {
                if let Some(num_arguments) = maybe_num_arguments {
                    if expressions.len() != *num_arguments {
                        let mut title = String::from_str(
                            "wrong number of arguments for function (expected ",
                        );
                        push_decimal(&mut title, *num_arguments);
                        title.append(", got ");
                        push_decimal(&mut title, expressions.len());
                        title.append(")");
                        let mut label = String::from_str("expected ");
                        push_decimal(&mut label, *num_arguments);
                        label.append(" arguments");
                        let mut note = String::from_str("cannot show definition for ");
                        note.append(ident);
                        note.append(" because it is a built-in function");
                        self.error_ctx.build_error(title.as_str()).span_label(
                            name_span,
                            label.as_str(),
                        ).note(note.as_str()).emit(log);

                        return Err(
                            InterpreterError::WrongNumArgs {
                                ident: String::from_str(ident),
                                expected: *num_arguments,
                                got: expressions.len(),
                            },
                        );
                    }
                }
                let mut bindings: Vec<Binding> = Vec::with_capacity(expressions.len());
                let mut remaining = expressions;
                assert(bindings.deep_view() =~= Seq::empty());
                let ghost count = given.len();

                while remaining.len() != 0
                    invariant
                        self.source() == source,
                        source == old(self).source(),
                        log.deep_view() == old(log).deep_view(),
                        given == expressions.deep_view(),
                        given.len() == count,
                        whole == call_view(ident@, name_span, given),
                        func@ == BindingView::NativeFunction(*maybe_num_arguments, *native),
                        maybe_num_arguments matches Some(n) ==> n == count,
                        remaining.len() <= count,
                        remaining.deep_view() == given.skip(count - remaining.len()),
                        reduce_from(source, whole, 1) == joined(
                            bindings.deep_view(),
                            reduce_from(source, whole, count - remaining.len() + 1),
                        ),
                        !(reduce_from(source, whole, 1) matches Reduced::Stopped(
                            Outcome::Undefined,
                        )),
                    decreases remaining.len(),
                {
                    let ghost at = count - remaining.len();
                    let ghost rest = remaining.deep_view();
                    let ghost done = bindings.deep_view();
                    let expr = take_first(&mut remaining);
                    proof {
                        assert(remaining.deep_view() =~= given.skip(at + 1));
                        assert(whole[at + 1] == given[at]);
                        assert(given[at] == rest[0]);
                        lemma_weight_inside(given, at);
                    }
                    let Expr { span, kind } = expr;
                    let binding = match kind {
                        ExprKind::List(contents) => {
                            proof {
                                crate::parser::lemma_list_view(span, contents);
                            }
                            match self.interpret(contents, log) {
                                Ok(binding) => binding,
                                Err(error) => {
                                    return Err(error);
                                },
                            }
                        },
                        _ => Binding::Expression(Expr::new(span, kind)),
                    };
                    bindings.push(binding);
                    proof {
                        assert(bindings.deep_view() =~= done.push(binding@));
                        assert forall|more: Seq<BindingView>|
                            done + (seq![binding@] + more) == #[trigger] (done.push(binding@)
                                + more) by {
                            assert(done + (seq![binding@] + more) =~= done.push(binding@) + more);
                        }
                    }
                }
                assert(bindings.deep_view() + Seq::<BindingView>::empty() =~= bindings.deep_view());
                call(*native, bindings, log)
            },
            _ => {
                proof {
                    assert(false);
                }
                vstd::pervasive::unreached()
            },
        }
    }
}

/// Hands the values to the procedure that `native` names.
fn call(native: Native, bindings: Vec<Binding>, log: &mut Vec<Diagnostic>) -> (result: Result<
    Binding,
    InterpreterError,
>)
    requires
        !(call_native(native, bindings.deep_view()) is Undefined),
    ensures
        agrees(
            result,
            call_native(native, bindings.deep_view()),
            old(log).deep_view(),
            final(log).deep_view(),
        ),
{
    match native {
        Native::Add => add_native(bindings, log),
    }
}

/// Reports a value that `add` does not take, written out as `shown`.
pub fn report_unexpected_argument(shown: &str, log: &mut Vec<Diagnostic>)
    ensures
        final(log).deep_view() == old(log).deep_view().push(unexpected_argument_report(shown@)),
{
    let error_ctx = DiagnosticsContext::new("", None);
    proof {
        reveal_strlit("");
        assert(error_ctx.source() =~= Seq::<char>::empty());
    }
    let mut title = String::from_str("unexpected argument to `add`:");
    title.append(shown);
    error_ctx.build_error(title.as_str()).note(
        "cannot highlight the argument in your code right now, my apologies",
    ).note("`add` only expects integers as arguments").emit(log);
}

/// Native variadic function to add numbers
pub fn add_native(bindings: Vec<Binding>, log: &mut Vec<Diagnostic>) -> (result: Result<
    Binding,
    InterpreterError,
>)
    requires
        !(sum_from(bindings.deep_view(), 0, 0) is Undefined),
    ensures
        agrees(
            result,
            sum_from(bindings.deep_view(), 0, 0),
            old(log).deep_view(),
            final(log).deep_view(),
        ),
{
    let ghost values = bindings.deep_view();
    let ghost count = values.len();
    let mut remaining = bindings;
    let mut res: i32 = 0;

    while remaining.len() != 0
        invariant
            values == bindings.deep_view(),
            values.len() == count,
            remaining.len() <= count,
            remaining.deep_view() == values.skip(count - remaining.len()),
            log.deep_view() == old(log).deep_view(),
            sum_from(values, 0, 0) == sum_from(values, count - remaining.len(), res as int),
            !(sum_from(values, 0, 0) is Undefined),
        decreases remaining.len(),
    {
        let ghost at = count - remaining.len();
        let ghost rest = remaining.deep_view();
        let binding = take_first(&mut remaining);
        proof {
            assert(remaining.deep_view() =~= values.skip(at + 1));
            assert(values[at] == rest[0]);
        }
        match binding {
            Binding::Expression(Expr { kind: ExprKind::Integer(i), .. }) => {
                res += i;
            },
            _ => {
                let shown = debug_string(&binding);
                report_unexpected_argument(shown.as_str(), log);
                return Err(InterpreterError::InvalidArgument(String::from_str("add"), binding));
            },
        }
    }

    Ok(Binding::Expression(Expr::integer(0..0, res)))
}

} // verus!
