//! What evaluation means.
//!
//! Everything here is specification: the bindings that an interpreter
//! starts with, what a sequence of expressions evaluates to, what is
//! reported when that fails, and what follows from it.

use std::ops::Range;
use vstd::prelude::*;

use crate::errors::builder::DiagnosticView;
use crate::errors::Level;
use crate::interpreter::{
    debug_text, Binding, BindingView, InterpreterError, InterpreterErrorView, Native,
};
use crate::parser::{lined_up, well_spanned, ExprKindView, ExprView};
use crate::text::decimal_text;

verus! {

/// What a sequence of expressions evaluates to.
pub enum Outcome {
    Value(BindingView),
    /// The evaluation fails with this error, and reports this diagnostic.
    Failure(InterpreterErrorView, DiagnosticView),
    /// The sequence has no meaning: its evaluation meets a keyword, or a
    /// placeholder outside the body of a function, or a sum that does not
    /// fit in an `i32`.
    Undefined,
}

/// The bindings that every interpreter starts with: `add`, which sums up its
/// arguments, and `second`, which returns the second of its two.
pub open spec fn builtin(name: Seq<char>) -> Option<BindingView> {
    if name == "add"@ {
        Some(BindingView::NativeFunction(None, Native::Add))
    } else if name == "second"@ {
        Some(
            BindingView::Function(2, ExprView { span: 0..0, kind: ExprKindView::Argument(1) }),
        )
    } else {
        None
    }
}

/// The unit value, anchored nowhere.
pub open spec fn unit_value() -> BindingView {
    BindingView::Expression(ExprView { span: 0..0, kind: ExprKindView::Unit })
}

/// The report of a name that nothing is bound to.
pub open spec fn unknown_report(
    source: Seq<char>,
    name: Seq<char>,
    span: Range<usize>,
) -> DiagnosticView {
    DiagnosticView::bare(
        "unknown identifier `"@ + name + "`"@,
        Level::Error,
        source,
        None,
    ).with_label(Some("not found in this scope"@), span)
}

/// The title of the report of a call with the wrong number of arguments.
pub open spec fn arity_title(expected: usize, got: usize) -> Seq<char> {
    "wrong number of arguments for function (expected "@ + decimal_text(expected as nat)
        + ", got "@ + decimal_text(got as nat) + ")"@
}

/// The label under the name of the function.
pub open spec fn expected_label(expected: usize) -> Seq<char> {
    "expected "@ + decimal_text(expected as nat) + " arguments"@
}

/// The label under the arguments.
pub open spec fn got_label(got: usize) -> Seq<char> {
    "got "@ + decimal_text(got as nat) + " arguments"@
}

/// The report of a call of a function of the language with the wrong
/// number of arguments: the arguments, where there are any, are underlined
/// from the first to the last, and so is the name.
pub open spec fn arity_report(
    source: Seq<char>,
    expected: usize,
    name_span: Range<usize>,
    args: Seq<ExprView>,
) -> DiagnosticView {
    let got = args.len() as usize;
    let title = DiagnosticView::bare(arity_title(expected, got), Level::Error, source, None);
    let counted = if args.len() != 0 {
        title.with_label(Some(got_label(got)), args.first().span.start..args.last().span.end)
    } else {
        title
    };
    counted.with_label(Some(expected_label(expected)), name_span)
}

/// The report of a call of a native function with the wrong number of
/// arguments: the name is underlined, and a footer says why no definition
/// is shown.
pub open spec fn native_arity_report(
    source: Seq<char>,
    name: Seq<char>,
    expected: usize,
    got: usize,
    name_span: Range<usize>,
) -> DiagnosticView {
    DiagnosticView::bare(arity_title(expected, got), Level::Error, source, None).with_label(
        Some(expected_label(expected)),
        name_span,
    ).with_footer(
        Level::Note,
        "cannot show definition for "@ + name + " because it is a built-in function"@,
    )
}

/// The report of a value that `add` does not take, written out as `shown`.
/// It is anchored nowhere, and reported against no text: `add` does not
/// know where its arguments stand in the source.
pub open spec fn unexpected_argument_report(shown: Seq<char>) -> DiagnosticView {
    DiagnosticView::bare(
        "unexpected argument to `add`:"@ + shown,
        Level::Error,
        Seq::empty(),
        None,
    ).with_footer(
        Level::Note,
        "cannot highlight the argument in your code right now, my apologies"@,
    ).with_footer(Level::Note, "`add` only expects integers as arguments"@)
}

/// The report of a value that `add` does not take.
pub open spec fn invalid_argument_report(binding: BindingView) -> DiagnosticView {
    unexpected_argument_report(debug_text(binding))
}

/// The sum of `total` and the values from index `from` on. The values are
/// taken in order: the first that is no integer fails the sum, and a partial
/// sum that leaves `i32` before that leaves it undefined.
pub open spec fn sum_from(values: Seq<BindingView>, from: int, total: int) -> Outcome
    decreases values.len() - from,
{
    if !(0 <= from < values.len()) {
        Outcome::Value(
            BindingView::Expression(
                ExprView { span: 0..0, kind: ExprKindView::Integer(total as i32) },
            ),
        )
    } else {
        match values[from] {
            BindingView::Expression(ExprView { kind: ExprKindView::Integer(value), .. }) => {
                if i32::MIN <= total + value <= i32::MAX {
                    sum_from(values, from + 1, total + value)
                } else {
                    Outcome::Undefined
                }
            },
            other => Outcome::Failure(
                InterpreterErrorView::InvalidArgument("add"@, other),
                invalid_argument_report(other),
            ),
        }
    }
}

/// What a native procedure returns for the values it is given.
pub open spec fn call_native(native: Native, values: Seq<BindingView>) -> Outcome {
    match native {
        Native::Add => sum_from(values, 0, 0),
    }
}

/// Whether one of the items is a placeholder.
pub open spec fn has_placeholder(items: Seq<ExprView>) -> bool {
    exists|i: int| 0 <= i < items.len() && (#[trigger] items[i]).kind is Argument
}

/// The items, with each placeholder among them replaced by the argument
/// that it stands for. Items inside a nested list are left as they are.
pub open spec fn substituted(items: Seq<ExprView>, args: Seq<ExprView>) -> Seq<ExprView> {
    Seq::new(
        items.len(),
        |i: int|
            match items[i].kind {
                ExprKindView::Argument(index) => args[index as int],
                _ => items[i],
            },
    )
}

/// The arguments of a native call, reduced.
pub enum Reduced {
    Values(Seq<BindingView>),
    /// The evaluation of one argument did not give a value.
    Stopped(Outcome),
}

/// What a name that stands alone, at `span`, resolves to: what it is bound
/// to. A function is handed out, not called.
pub open spec fn resolved(source: Seq<char>, name: Seq<char>, span: Range<usize>) -> Outcome {
    match builtin(name) {
        None => Outcome::Failure(
            InterpreterErrorView::UnknownIdentifier(name),
            unknown_report(source, name, span),
        ),
        Some(binding) => Outcome::Value(binding),
    }
}

/// Every placeholder among the items stands for one of `count` arguments.
pub open spec fn placeholders_below(items: Seq<ExprView>, count: int) -> bool {
    forall|i: int|
        0 <= i < items.len() ==> ((#[trigger] items[i]).kind matches ExprKindView::Argument(index)
            ==> index < count)
}

/// 1 for a function whose body is a list, 0 for every other binding. The
/// evaluation of a call of the former goes on with a list that is made for
/// the call; that of the latter stays inside the expressions of the call.
pub open spec fn rank(binding: BindingView) -> nat {
    match binding {
        BindingView::Function(_, body) => if body.kind is List {
            1
        } else {
            0
        },
        _ => 0,
    }
}

/// What a sequence of expressions evaluates to, with `source` as the text
/// that failures are reported against.
///
/// Only the first expression decides. A literal is its own value; a list is
/// evaluated as a sequence of its own; a name is looked up, and where it
/// names a function and more expressions follow, the function is applied to
/// them, as [`apply`] says.
pub open spec fn eval(source: Seq<char>, exprs: Seq<ExprView>) -> Outcome
    decreases 0nat, exprs, 3nat, 0nat,
{
    if exprs.len() == 0 {
        Outcome::Value(unit_value())
    } else {
        let head = exprs[0];
        match head.kind {
            ExprKindView::Integer(_) | ExprKindView::Boolean(_) | ExprKindView::Unit => {
                Outcome::Value(BindingView::Expression(head))
            },
            ExprKindView::List(inner) => eval(source, inner),
            ExprKindView::Keyword(_) | ExprKindView::Argument(_) => Outcome::Undefined,
            ExprKindView::Identifier(name) => match builtin(name) {
                None => resolved(source, name, head.span),
                Some(BindingView::Expression(expr)) => Outcome::Value(
                    BindingView::Expression(expr),
                ),
                Some(binding) => if exprs.len() == 1 {
                    Outcome::Value(binding)
                } else {
                    apply(source, binding, exprs)
                },
            },
        }
    }
}

/// What one step reduces an expression to that a function of the language
/// has for its body once the arguments are known: a list is evaluated, a
/// literal is its own value, and a name is resolved with nothing behind it.
/// A keyword and a placeholder have no meaning here.
pub open spec fn reduced_atom(source: Seq<char>, expr: ExprView) -> Outcome
    recommends
        !(expr.kind is List),
{
    match expr.kind {
        ExprKindView::Identifier(name) => resolved(source, name, expr.span),
        ExprKindView::Integer(_) | ExprKindView::Boolean(_) | ExprKindView::Unit => Outcome::Value(
            BindingView::Expression(expr),
        ),
        _ => Outcome::Undefined,
    }
}

/// What the call `exprs`, a name followed by its arguments, comes to where
/// the name stands for `binding`.
///
/// A function of the language is called with exactly as many arguments as
/// it takes; another number fails the call before any argument is looked
/// at. Then its body is reduced one step:
/// - a body that is a placeholder stands for one of the arguments, which is
///   reduced in its place: a list is evaluated, anything else as
///   [`reduced_atom`] says. Placeholders belong to the bodies of functions:
///   an argument that is a list with a placeholder among its items has no
///   meaning;
/// - a body that is a list has each placeholder among its items replaced by
///   the argument that it stands for, and is then evaluated;
/// - any other body is reduced as [`reduced_atom`] says.
///
/// A native function is called with the number of arguments it takes, if
/// that is fixed. Its arguments are reduced from left to right, a list to
/// what it evaluates to and anything else to itself, and the first that
/// fails ends the call.
pub open spec fn apply(source: Seq<char>, binding: BindingView, exprs: Seq<ExprView>) -> Outcome
    recommends
        exprs.len() > 0,
        exprs[0].kind is Identifier,
    decreases rank(binding), exprs, 2nat, 0nat,
{
    let head = exprs[0];
    let name = head.kind->Identifier_0;
    let args = exprs.skip(1);
    match binding {
        BindingView::Expression(_) => Outcome::Undefined,
        BindingView::Function(arity, body) => {
            if exprs.len() == 0 {
                Outcome::Undefined
            } else if args.len() != arity {
                Outcome::Failure(
                    InterpreterErrorView::WrongNumArgs {
                        ident: name,
                        expected: arity,
                        got: args.len() as usize,
                    },
                    arity_report(source, arity, head.span, args),
                )
            } else {
                match body.kind {
                    ExprKindView::Argument(index) => if index < arity {
                        let chosen = exprs[index + 1];
                        match chosen.kind {
                            ExprKindView::List(contents) => if has_placeholder(contents) {
                                Outcome::Undefined
                            } else {
                                eval(source, contents)
                            },
                            _ => reduced_atom(source, chosen),
                        }
                    } else {
                        Outcome::Undefined
                    },
                    ExprKindView::List(contents) => if placeholders_below(
                        contents,
                        args.len() as int,
                    ) {
                        eval(source, substituted(contents, args))
                    } else {
                        Outcome::Undefined
                    },
                    _ => reduced_atom(source, body),
                }
            }
        },
        BindingView::NativeFunction(arity, native) => {
            if arity is Some && arity->0 != args.len() {
                Outcome::Failure(
                    InterpreterErrorView::WrongNumArgs {
                        ident: name,
                        expected: arity->0,
                        got: args.len() as usize,
                    },
                    native_arity_report(source, name, arity->0, args.len() as usize, head.span),
                )
            } else {
                match reduce_from(source, exprs, 1) {
                    Reduced::Stopped(outcome) => outcome,
                    Reduced::Values(values) => call_native(native, values),
                }
            }
        },
    }
}

/// The values of the expressions from index `from` on, as the arguments of
/// a native call: a list is evaluated, anything else is handed on as it is.
pub open spec fn reduce_from(source: Seq<char>, exprs: Seq<ExprView>, from: int) -> Reduced
    decreases 0nat, exprs, 1nat, exprs.len() - from,
{
    if !(0 <= from < exprs.len()) {
        Reduced::Values(Seq::empty())
    } else {
        let first = match exprs[from].kind {
            ExprKindView::List(contents) => eval(source, contents),
            _ => Outcome::Value(BindingView::Expression(exprs[from])),
        };
        match first {
            Outcome::Value(value) => match reduce_from(source, exprs, from + 1) {
                Reduced::Values(rest) => Reduced::Values(seq![value] + rest),
                Reduced::Stopped(outcome) => Reduced::Stopped(outcome),
            },
            other => Reduced::Stopped(other),
        }
    }
}

/// How many nodes an expression has.
pub open spec fn weight(expr: ExprView) -> nat
    decreases expr, 0nat,
{
    1 + match expr.kind {
        ExprKindView::List(items) => weights(items, items.len()),
        _ => 0,
    }
}

/// How many nodes the first `n` of the items have together.
pub open spec fn weights(items: Seq<ExprView>, n: nat) -> nat
    decreases items, n,
{
    if n == 0 || n > items.len() {
        0
    } else {
        weights(items, (n - 1) as nat) + weight(items[n - 1])
    }
}

/// How many nodes a sequence of expressions has.
pub open spec fn total_weight(items: Seq<ExprView>) -> nat {
    weights(items, items.len())
}

proof fn lemma_weights_grow(items: Seq<ExprView>, i: int, n: nat)
    requires
        0 <= i < n <= items.len(),
    ensures
        weight(items[i]) <= weights(items, n),
    decreases n,
{
    if i < n - 1 {
        lemma_weights_grow(items, i, (n - 1) as nat);
    }
}

pub proof fn lemma_weights_skip(items: Seq<ExprView>, n: nat)
    requires
        1 <= n <= items.len(),
    ensures
        weights(items, n) == weight(items[0]) + weights(items.skip(1), (n - 1) as nat),
    decreases n,
{
    let tail = items.skip(1);
    assert(tail.len() == items.len() - 1);
    if n > 1 {
        lemma_weights_skip(items, (n - 1) as nat);
        assert(tail[n - 2] == items[n - 1]);
        assert(weights(tail, (n - 1) as nat) == weights(tail, (n - 2) as nat) + weight(tail[n - 2]));
    } else {
        assert(weights(items, 0) == 0);
        assert(weights(tail, 0) == 0);
    }
}

/// An item weighs no more than the sequence it stands in, and what a list
/// holds weighs less than the list.
pub proof fn lemma_weight_inside(items: Seq<ExprView>, i: int)
    requires
        0 <= i < items.len(),
    ensures
        weight(items[i]) <= total_weight(items),
        items[i].kind matches ExprKindView::List(inner) ==> total_weight(inner) < total_weight(
            items,
        ),
{
    lemma_weights_grow(items, i, items.len());
}

/// Without placeholders there is nothing to replace.
pub proof fn lemma_substituted_same(items: Seq<ExprView>, args: Seq<ExprView>)
    requires
        !has_placeholder(items),
    ensures
        substituted(items, args) == items,
{
    assert(substituted(items, args) =~= items);
}

/// The call of `name`, written at `span`, on the given arguments.
pub open spec fn call_view(name: Seq<char>, span: Range<usize>, args: Seq<ExprView>) -> Seq<ExprView> {
    seq![ExprView { span, kind: ExprKindView::Identifier(name) }] + args
}

/// Whether a result, and what the log gained, is what `outcome` says.
pub open spec fn agrees(
    result: Result<Binding, InterpreterError>,
    outcome: Outcome,
    before: Seq<DiagnosticView>,
    after: Seq<DiagnosticView>,
) -> bool {
    match result {
        Ok(binding) => outcome == Outcome::Value(binding@) && after == before,
        Err(error) => outcome matches Outcome::Failure(failure, report) && failure == error@
            && after == before.push(report),
    }
}

/// The values reduced so far, followed by what the rest of the arguments
/// give.
pub open spec fn joined(done: Seq<BindingView>, rest: Reduced) -> Reduced {
    match rest {
        Reduced::Values(more) => Reduced::Values(done + more),
        Reduced::Stopped(outcome) => Reduced::Stopped(outcome),
    }
}

/// What a result says, with names as sequences of characters.
pub open spec fn result_view(result: Result<Binding, InterpreterError>) -> Result<
    BindingView,
    InterpreterErrorView,
> {
    match result {
        Ok(binding) => Ok(binding@),
        Err(error) => Err(error@),
    }
}

/// Evaluation keeps no state between runs: whichever interpreter two
/// results for the same expressions and the same text come from, they say
/// the same, and two logs that were equal before are equal after.
pub proof fn lemma_interpret_repeats(
    source: Seq<char>,
    exprs: Seq<ExprView>,
    first: Result<Binding, InterpreterError>,
    second: Result<Binding, InterpreterError>,
    before: Seq<DiagnosticView>,
    after_first: Seq<DiagnosticView>,
    after_second: Seq<DiagnosticView>,
)
    requires
        agrees(first, eval(source, exprs), before, after_first),
        agrees(second, eval(source, exprs), before, after_second),
    ensures
        result_view(first) == result_view(second),
        after_first == after_second,
{
}

/// A name that stands alone evaluates to what it is bound to: a function is
/// handed out, not called. A name that nothing is bound to fails.
pub proof fn lemma_bare_name(source: Seq<char>, name: Seq<char>, span: Range<usize>)
    ensures
        eval(source, call_view(name, span, Seq::empty())) == resolved(source, name, span),
        builtin(name) is Some ==> resolved(source, name, span) == Outcome::Value(builtin(name)->0),
{
}

/// Where a name stands for a function and arguments follow, the call is
/// what [`apply`] says of the function.
pub proof fn lemma_call_applies(
    source: Seq<char>,
    name: Seq<char>,
    span: Range<usize>,
    args: Seq<ExprView>,
)
    requires
        builtin(name) is Some,
        !(builtin(name)->0 is Expression),
        args.len() != 0,
    ensures
        eval(source, call_view(name, span, args)) == apply(
            source,
            builtin(name)->0,
            call_view(name, span, args),
        ),
{
}

/// A function of the language that is given another number of arguments
/// than it takes fails before any of them is looked at: whatever the
/// function, its body and the arguments are, the call reports the two
/// numbers and nothing else.
pub proof fn lemma_wrong_number_of_arguments(
    source: Seq<char>,
    name: Seq<char>,
    arity: usize,
    body: ExprView,
    span: Range<usize>,
    args: Seq<ExprView>,
)
    requires
        args.len() != arity,
    ensures
        apply(source, BindingView::Function(arity, body), call_view(name, span, args))
            == Outcome::Failure(
            InterpreterErrorView::WrongNumArgs { ident: name, expected: arity, got: args.len() as usize },
            arity_report(source, arity, span, args),
        ),
{
    let exprs = call_view(name, span, args);
    assert(exprs.skip(1) =~= args);
}

/// A native function that takes a fixed number of arguments and is given
/// another fails before any of them is looked at, and the procedure is not
/// asked.
pub proof fn lemma_wrong_number_of_native_arguments(
    source: Seq<char>,
    name: Seq<char>,
    arity: usize,
    native: Native,
    span: Range<usize>,
    args: Seq<ExprView>,
)
    requires
        args.len() != arity,
    ensures
        apply(
            source,
            BindingView::NativeFunction(Some(arity), native),
            call_view(name, span, args),
        ) == Outcome::Failure(
            InterpreterErrorView::WrongNumArgs { ident: name, expected: arity, got: args.len() as usize },
            native_arity_report(source, name, arity, args.len() as usize, span),
        ),
{
    let exprs = call_view(name, span, args);
    assert(exprs.skip(1) =~= args);
}

/// `second` is a function of the language that takes two arguments, so that
/// a call of it with any other number fails as
/// [`lemma_wrong_number_of_arguments`] says.
pub proof fn lemma_second_takes_two(source: Seq<char>, span: Range<usize>, args: Seq<ExprView>)
    requires
        args.len() != 0,
        args.len() != 2,
    ensures
        builtin("second"@) == Some(
            BindingView::Function(2, ExprView { span: 0..0, kind: ExprKindView::Argument(1) }),
        ),
        eval(source, call_view("second"@, span, args)) == Outcome::Failure(
            InterpreterErrorView::WrongNumArgs { ident: "second"@, expected: 2, got: args.len() as usize },
            arity_report(source, 2, span, args),
        ),
{
    reveal_strlit("second");
    reveal_strlit("add");
    assert("second"@.len() != "add"@.len());
    lemma_call_applies(source, "second"@, span, args);
    lemma_wrong_number_of_arguments(
        source,
        "second"@,
        2,
        ExprView { span: 0..0, kind: ExprKindView::Argument(1) },
        span,
        args,
    );
}

/// What an outcome says, without the report.
pub open spec fn verdict(outcome: Outcome) -> Option<Result<BindingView, InterpreterErrorView>> {
    match outcome {
        Outcome::Value(value) => Some(Ok(value)),
        Outcome::Failure(error, _) => Some(Err(error)),
        Outcome::Undefined => None,
    }
}

pub open spec fn reduced_verdict(reduced: Reduced) -> Result<
    Seq<BindingView>,
    Option<Result<BindingView, InterpreterErrorView>>,
> {
    match reduced {
        Reduced::Values(values) => Ok(values),
        Reduced::Stopped(outcome) => Err(verdict(outcome)),
    }
}

/// The text that failures are reported against decides nothing but the
/// reports: whether expressions have a meaning, and which value or error
/// they come to, is the same against every text.
pub proof fn lemma_source_decides_reports_only(
    first: Seq<char>,
    second: Seq<char>,
    exprs: Seq<ExprView>,
)
    ensures
        verdict(eval(first, exprs)) == verdict(eval(second, exprs)),
    decreases 0nat, exprs, 3nat, 0nat,
{
    if exprs.len() != 0 {
        match exprs[0].kind {
            ExprKindView::List(inner) => {
                lemma_source_decides_reports_only(first, second, inner);
            },
            ExprKindView::Identifier(name) => {
                if builtin(name) is Some && !(builtin(name)->0 is Expression) && exprs.len() != 1 {
                    lemma_source_decides_application(first, second, builtin(name)->0, exprs);
                }
            },
            _ => {},
        }
    }
}

/// As [`lemma_source_decides_reports_only`], of a call.
pub proof fn lemma_source_decides_application(
    first: Seq<char>,
    second: Seq<char>,
    binding: BindingView,
    exprs: Seq<ExprView>,
)
    ensures
        verdict(apply(first, binding, exprs)) == verdict(apply(second, binding, exprs)),
    decreases rank(binding), exprs, 2nat, 0nat,
{
    let args = exprs.skip(1);
    match binding {
        BindingView::Function(arity, body) => {
            if exprs.len() != 0 && args.len() == arity {
                match body.kind {
                    ExprKindView::Argument(index) => {
                        if index < arity {
                            if let ExprKindView::List(contents) = exprs[index + 1].kind {
                                lemma_source_decides_reports_only(first, second, contents);
                            }
                        }
                    },
                    ExprKindView::List(contents) => {
                        lemma_source_decides_reports_only(
                            first,
                            second,
                            substituted(contents, args),
                        );
                    },
                    _ => {},
                }
            }
        },
        BindingView::NativeFunction(arity, native) => {
            lemma_source_decides_arguments(first, second, exprs, 1);
        },
        _ => {},
    }
}

proof fn lemma_source_decides_arguments(
    first: Seq<char>,
    second: Seq<char>,
    exprs: Seq<ExprView>,
    from: int,
)
    ensures
        reduced_verdict(reduce_from(first, exprs, from)) == reduced_verdict(
            reduce_from(second, exprs, from),
        ),
    decreases 0nat, exprs, 1nat, exprs.len() - from,
{
    if 0 <= from < exprs.len() {
        if let ExprKindView::List(contents) = exprs[from].kind {
            lemma_source_decides_reports_only(first, second, contents);
        }
        lemma_source_decides_arguments(first, second, exprs, from + 1);
    }
}

/// The items of a well-spanned list are lined up inside the text that the
/// list lies in.
proof fn lemma_items_lined_up(list: ExprView, len: int)
    requires
        well_spanned(list, 0, len),
        list.kind is List,
    ensures
        lined_up(list.kind->List_0, 0, len),
{
    let items = list.kind->List_0;
    assert forall|i: int| 0 <= i < items.len() implies well_spanned(#[trigger] items[i], 0, len) by {
        assert(well_spanned(items[i], list.span.start + 1, list.span.end as int));
    }
}

proof fn lemma_sum_report_renderable(values: Seq<BindingView>, from: int, total: int)
    ensures
        sum_from(values, from, total) matches Outcome::Failure(_, report) ==> report.renderable(),
    decreases values.len() - from,
{
    if 0 <= from < values.len() {
        match values[from] {
            BindingView::Expression(ExprView { kind: ExprKindView::Integer(value), .. }) => {
                lemma_sum_report_renderable(values, from + 1, total + value);
            },
            _ => {},
        }
    }
}

proof fn lemma_resolved_report_renderable(source: Seq<char>, name: Seq<char>, span: Range<usize>)
    requires
        source.len() < usize::MAX,
        span.start <= span.end <= source.len(),
    ensures
        resolved(source, name, span) matches Outcome::Failure(_, report) ==> report.renderable(),
{
    let report = unknown_report(source, name, span);
    assert(report.labels.len() == 1);
    assert(report.labels[0].inside(source.len()));
}

/// What the evaluation of expressions that lie inside the text reports can
/// be laid out: every label is the span of one of the expressions, or
/// reaches from one of them to a later one.
pub proof fn lemma_eval_report_renderable(source: Seq<char>, exprs: Seq<ExprView>)
    requires
        source.len() < usize::MAX,
        lined_up(exprs, 0, source.len() as int),
    ensures
        eval(source, exprs) matches Outcome::Failure(_, report) ==> report.renderable(),
    decreases exprs, 3nat, 0nat,
{
    let len = source.len() as int;
    if exprs.len() != 0 {
        let head = exprs[0];
        assert(well_spanned(head, 0, len));
        match head.kind {
            ExprKindView::List(inner) => {
                lemma_items_lined_up(head, len);
                lemma_eval_report_renderable(source, inner);
            },
            ExprKindView::Identifier(name) => {
                lemma_resolved_report_renderable(source, name, head.span);
                if builtin(name) is Some && exprs.len() != 1 {
                    lemma_call_report_renderable(source, name, exprs);
                }
            },
            _ => {},
        }
    }
}

/// As [`lemma_eval_report_renderable`], of a call of what a name is bound
/// to.
proof fn lemma_call_report_renderable(source: Seq<char>, name: Seq<char>, exprs: Seq<ExprView>)
    requires
        source.len() < usize::MAX,
        lined_up(exprs, 0, source.len() as int),
        exprs.len() > 1,
        exprs[0].kind == ExprKindView::Identifier(name),
        builtin(name) is Some,
    ensures
        apply(source, builtin(name)->0, exprs) matches Outcome::Failure(_, report)
            ==> report.renderable(),
    decreases exprs, 2nat, 0nat,
{
    let len = source.len() as int;
    let head = exprs[0];
    let args = exprs.skip(1);
    assert(args.len() == exprs.len() - 1);
    assert(well_spanned(head, 0, len));
    match builtin(name)->0 {
        BindingView::Function(arity, body) => {
            if args.len() != arity {
                let report = arity_report(source, arity, head.span, args);
                assert(args.first() == exprs[1]);
                assert(args.last() == exprs[exprs.len() - 1]);
                assert(well_spanned(exprs[1], 0, len));
                assert(well_spanned(exprs[exprs.len() - 1], 0, len));
                if exprs.len() > 2 {
                    assert(exprs[1].span.end <= exprs[exprs.len() - 1].span.start);
                }
                assert forall|i: int| 0 <= i < report.labels.len() implies (
                #[trigger] report.labels[i]).inside(source.len()) by {
                    if i == 0 {
                    } else {
                        assert(i == 1);
                    }
                }
            } else if let ExprKindView::Argument(index) = body.kind {
                if index < arity {
                    let chosen = exprs[index + 1];
                    assert(well_spanned(chosen, 0, len));
                    match chosen.kind {
                        ExprKindView::List(contents) => {
                            lemma_items_lined_up(chosen, len);
                            lemma_eval_report_renderable(source, contents);
                        },
                        ExprKindView::Identifier(other) => {
                            lemma_resolved_report_renderable(source, other, chosen.span);
                        },
                        _ => {},
                    }
                }
            }
        },
        BindingView::NativeFunction(arity, native) => {
            if arity is Some && arity->0 != args.len() {
                let report = native_arity_report(
                    source,
                    name,
                    arity->0,
                    args.len() as usize,
                    head.span,
                );
                assert(report.labels.len() == 1);
                assert(report.labels[0].inside(source.len()));
            } else {
                lemma_reduce_report_renderable(source, exprs, 1);
                match reduce_from(source, exprs, 1) {
                    Reduced::Stopped(_) => {},
                    Reduced::Values(values) => {
                        lemma_sum_report_renderable(values, 0, 0);
                    },
                }
            }
        },
        _ => {},
    }
}

proof fn lemma_reduce_report_renderable(source: Seq<char>, exprs: Seq<ExprView>, from: int)
    requires
        source.len() < usize::MAX,
        lined_up(exprs, 0, source.len() as int),
    ensures
        reduce_from(source, exprs, from) matches Reduced::Stopped(Outcome::Failure(_, report))
            ==> report.renderable(),
    decreases exprs, 1nat, exprs.len() - from,
{
    if 0 <= from < exprs.len() {
        assert(well_spanned(exprs[from], 0, source.len() as int));
        if let ExprKindView::List(contents) = exprs[from].kind {
            lemma_items_lined_up(exprs[from], source.len() as int);
            lemma_eval_report_renderable(source, contents);
        }
        lemma_reduce_report_renderable(source, exprs, from + 1);
    }
}

} // verus!
