//! What a component is, apart from how it is held in memory, and the
//! commands by which it is shown.

use vstd::prelude::*;
use vstd::utf8::encode_utf8;
use crate::human;
use crate::json;
use crate::style::Style;

verus! {

/// A component as a value of specifications: a leaf of text; a styled node
/// over its children, in their order; or a record, which is shown to people
/// as one component and to machines as JSON that was encoded elsewhere.
pub enum Tree {
    Text(Seq<char>),
    Span { style: Style, children: Seq<Tree> },
    Record { shown: Box<Tree>, json: Seq<u8> },
}

/// The commands that show a component to people.
///
/// Text is written as it is. A span sets its whole style in one command,
/// shows its children from the first to the last, and resets the style: what
/// stands between the two belongs to this span and its descendants alone.
///
/// A reset clears every style, not only that of the span which ends. So
/// behind a span that ends inside another, the rest of the outer span is
/// shown without style: the outer style is not brought back.
pub open spec fn human_form(tree: Tree) -> Seq<human::Command>
    decreases tree,
{
    match tree {
        Tree::Text(content) => seq![human::Command::Write(encode_utf8(content))],
        Tree::Span { style, children } => seq![human::Command::SetColor(style)] + human_forms(
            children,
        ) + seq![human::Command::ResetStyle],
        Tree::Record { shown, json } => human_form(*shown),
    }
}

/// The commands that show a run of components to people, one after the other.
pub open spec fn human_forms(trees: Seq<Tree>) -> Seq<human::Command>
    decreases trees,
{
    if trees.len() == 0 {
        Seq::empty()
    } else {
        human_forms(trees.drop_last()) + human_form(trees.last())
    }
}

/// The command that parts two records.
pub open spec fn json_separator() -> json::Command {
    json::Command::Write(json::separator())
}

/// The commands that show a component as JSON.
///
/// Text is written as a JSON string. A span writes its children and nothing
/// of its own. A record writes its JSON as it is.
pub open spec fn json_form(tree: Tree) -> Seq<json::Command>
    decreases tree,
{
    match tree {
        Tree::Text(content) => seq![json::Command::Write(json::json_text(content))],
        Tree::Span { style, children } => json_forms(children),
        Tree::Record { shown, json } => seq![json::Command::Write(json)],
    }
}

/// The commands that show a run of components as JSON: a separator stands
/// between each two that follow one another, and none behind the last.
pub open spec fn json_forms(trees: Seq<Tree>) -> Seq<json::Command>
    decreases trees,
{
    if trees.len() == 0 {
        Seq::empty()
    } else if trees.len() == 1 {
        json_form(trees.last())
    } else {
        json_forms(trees.drop_last()) + seq![json_separator()] + json_form(trees.last())
    }
}

/// Whether a command sets or resets the style.
pub open spec fn is_style_call(command: human::Command) -> bool {
    command is SetColor || command is ResetStyle
}

/// The style calls among a run of commands, in their order.
pub open spec fn style_calls(commands: Seq<human::Command>) -> Seq<human::Command> {
    commands.filter(|c: human::Command| is_style_call(c))
}

/// The style calls of a run of components: those of the first, whole, then
/// those of the second, and so on to the last.
pub open spec fn style_calls_of(trees: Seq<Tree>) -> Seq<human::Command>
    decreases trees.len(),
{
    if trees.len() == 0 {
        Seq::empty()
    } else {
        style_calls_of(trees.drop_last()) + style_calls(human_form(trees.last()))
    }
}

/// By how much a command changes the number of styles that are set and not
/// yet reset.
pub open spec fn step(command: human::Command) -> int {
    if command is SetColor {
        1
    } else if command is ResetStyle {
        -1
    } else {
        0
    }
}

/// How many styles are set and not yet reset after a run of commands.
pub open spec fn depth(commands: Seq<human::Command>) -> int
    decreases commands.len(),
{
    if commands.len() == 0 {
        0
    } else {
        depth(commands.drop_last()) + step(commands.last())
    }
}

/// Whether every reset in a run of commands answers a style set before it,
/// and every style set is reset in the end.
pub open spec fn well_nested(commands: Seq<human::Command>) -> bool {
    &&& depth(commands) == 0
    &&& forall|n: int| 0 <= n <= commands.len() ==> depth(#[trigger] commands.take(n)) >= 0
}

proof fn lemma_style_calls_of_run(trees: Seq<Tree>)
    ensures
        style_calls(human_forms(trees)) == style_calls_of(trees),
    decreases trees.len(),
{
    reveal(Seq::filter);
    if trees.len() > 0 {
        lemma_style_calls_of_run(trees.drop_last());
        Seq::filter_distributes_over_add(
            human_forms(trees.drop_last()),
            human_form(trees.last()),
            |c: human::Command| is_style_call(c),
        );
    }
}

/// The style calls that a sink sees are depth-first. Text makes none. A span
/// makes its style set, then the calls of its children, each child's whole
/// before the next one's first, then its reset. A record makes those of the
/// component that it is shown as.
pub proof fn lemma_style_calls_depth_first(tree: Tree)
    ensures
        match tree {
            Tree::Text(content) => style_calls(human_form(tree)) == Seq::<human::Command>::empty(),
            Tree::Span { style, children } => style_calls(human_form(tree)) == seq![
                human::Command::SetColor(style),
            ] + style_calls_of(children) + seq![human::Command::ResetStyle],
            Tree::Record { shown, json } => style_calls(human_form(tree)) == style_calls(
                human_form(*shown),
            ),
        },
{
    reveal(Seq::filter);
    let pred = |c: human::Command| is_style_call(c);
    match tree {
        Tree::Text(content) => {
            let form = human_form(tree);
            assert(form.drop_last() =~= Seq::<human::Command>::empty());
            assert(form.drop_last().filter(pred) =~= Seq::<human::Command>::empty());
        },
        Tree::Span { style, children } => {
            let opening = seq![human::Command::SetColor(style)];
            let closing = seq![human::Command::ResetStyle];
            lemma_style_calls_of_run(children);
            Seq::filter_distributes_over_add(opening, human_forms(children), pred);
            Seq::filter_distributes_over_add(opening + human_forms(children), closing, pred);
            assert(opening.drop_last() =~= Seq::<human::Command>::empty());
            assert(opening.filter(pred) =~= opening);
            assert(closing.drop_last() =~= Seq::<human::Command>::empty());
            assert(closing.filter(pred) =~= closing);
        },
        Tree::Record { shown, json } => {},
    }
}

proof fn lemma_depth_one(command: human::Command)
    ensures
        depth(seq![command]) == step(command),
{
    assert(seq![command].drop_last() =~= Seq::<human::Command>::empty());
    assert(depth(Seq::<human::Command>::empty()) == 0);
}

proof fn lemma_depth_concat(first: Seq<human::Command>, second: Seq<human::Command>)
    ensures
        depth(first + second) == depth(first) + depth(second),
    decreases second.len(),
{
    if second.len() == 0 {
        assert(first + second =~= first);
    } else {
        lemma_depth_concat(first, second.drop_last());
        assert((first + second).drop_last() =~= first + second.drop_last());
    }
}

proof fn lemma_well_nested_concat(first: Seq<human::Command>, second: Seq<human::Command>)
    requires
        well_nested(first),
        well_nested(second),
    ensures
        well_nested(first + second),
{
    lemma_depth_concat(first, second);
    let all = first + second;
    assert forall|n: int| 0 <= n <= all.len() implies depth(#[trigger] all.take(n)) >= 0 by {
        if n <= first.len() {
            assert(all.take(n) =~= first.take(n));
        } else {
            assert(all.take(n) =~= first + second.take(n - first.len()));
            lemma_depth_concat(first, second.take(n - first.len()));
        }
    }
}

proof fn lemma_well_nested_wrap(style: crate::style::Style, inner: Seq<human::Command>)
    requires
        well_nested(inner),
    ensures
        well_nested(
            seq![human::Command::SetColor(style)] + inner + seq![human::Command::ResetStyle],
        ),
{
    let opening = seq![human::Command::SetColor(style)];
    let closing = seq![human::Command::ResetStyle];
    let all = opening + inner + closing;
    lemma_depth_one(human::Command::SetColor(style));
    lemma_depth_one(human::Command::ResetStyle);
    assert(depth(Seq::<human::Command>::empty()) == 0);
    lemma_depth_concat(opening, inner);
    lemma_depth_concat(opening + inner, closing);
    assert forall|n: int| 0 <= n <= all.len() implies depth(#[trigger] all.take(n)) >= 0 by {
        if n == 0 {
            assert(all.take(0) =~= Seq::<human::Command>::empty());
        } else if n <= 1 + inner.len() {
            assert(all.take(n) =~= opening + inner.take(n - 1));
            lemma_depth_concat(opening, inner.take(n - 1));
        } else {
            assert(all.take(n) =~= all);
        }
    }
}

proof fn lemma_well_nested_run(trees: Seq<Tree>)
    ensures
        well_nested(human_forms(trees)),
    decreases trees,
{
    if trees.len() == 0 {
        let none = human_forms(trees);
        assert forall|n: int| 0 <= n <= none.len() implies depth(#[trigger] none.take(n)) >= 0 by {
            assert(none.take(n) =~= none);
        }
    } else {
        lemma_well_nested_run(trees.drop_last());
        lemma_well_nested(trees.last());
        lemma_well_nested_concat(human_forms(trees.drop_last()), human_form(trees.last()));
    }
}

/// The style calls of every component are balanced: no reset comes without
/// a style set before it, and when the component is shown every style that
/// was set has been reset.
pub proof fn lemma_well_nested(tree: Tree)
    ensures
        well_nested(human_form(tree)),
    decreases tree,
{
    match tree {
        Tree::Text(content) => {
            let form = human_form(tree);
            lemma_depth_one(form[0]);
            assert(form =~= seq![form[0]]);
            assert(depth(Seq::<human::Command>::empty()) == 0);
            assert forall|n: int| 0 <= n <= form.len() implies depth(#[trigger] form.take(n))
                >= 0 by {
                if n == 0 {
                    assert(form.take(0) =~= Seq::<human::Command>::empty());
                } else {
                    assert(form.take(n) =~= form);
                }
            }
        },
        Tree::Span { style, children } => {
            lemma_well_nested_run(children);
            lemma_well_nested_wrap(style, human_forms(children));
        },
        Tree::Record { shown, json } => {
            lemma_well_nested(*shown);
        },
    }
}

/// The bytes of the text in a component, leaf by leaf from the first to the
/// last.
pub open spec fn leaves(tree: Tree) -> Seq<u8>
    decreases tree,
{
    match tree {
        Tree::Text(content) => encode_utf8(content),
        Tree::Span { style, children } => leaves_of(children),
        Tree::Record { shown, json } => leaves(*shown),
    }
}

/// The bytes of the text in a run of components, one after the other.
pub open spec fn leaves_of(trees: Seq<Tree>) -> Seq<u8>
    decreases trees,
{
    if trees.len() == 0 {
        Seq::empty()
    } else {
        leaves_of(trees.drop_last()) + leaves(trees.last())
    }
}

proof fn lemma_effect_of_one(ansi: bool, command: human::Command)
    ensures
        human::effects(ansi, seq![command]) == human::effect(ansi, command),
{
    human::lemma_effects_push(ansi, Seq::empty(), command);
    assert(Seq::<human::Command>::empty().push(command) =~= seq![command]);
    assert(human::effects(ansi, Seq::empty()) =~= Seq::<u8>::empty());
    assert(Seq::<u8>::empty() + human::effect(ansi, command) =~= human::effect(ansi, command));
}

proof fn lemma_plain_sink_keeps_leaves_of(trees: Seq<Tree>)
    ensures
        human::effects(false, human_forms(trees)) == leaves_of(trees),
    decreases trees,
{
    if trees.len() > 0 {
        lemma_plain_sink_keeps_leaves_of(trees.drop_last());
        lemma_plain_sink_keeps_leaves(trees.last());
        human::lemma_effects_concat(false, human_forms(trees.drop_last()), human_form(trees.last()));
    }
}

/// A sink that drops styles is left with the text alone: what a component
/// appends to it is the bytes of its leaves, in their order, and nothing
/// else.
pub proof fn lemma_plain_sink_keeps_leaves(tree: Tree)
    ensures
        human::effects(false, human_form(tree)) == leaves(tree),
    decreases tree,
{
    match tree {
        Tree::Text(content) => {
            lemma_effect_of_one(false, human::Command::Write(encode_utf8(content)));
        },
        Tree::Span { style, children } => {
            let opening = seq![human::Command::SetColor(style)];
            let closing = seq![human::Command::ResetStyle];
            lemma_plain_sink_keeps_leaves_of(children);
            lemma_effect_of_one(false, human::Command::SetColor(style));
            lemma_effect_of_one(false, human::Command::ResetStyle);
            human::lemma_effects_concat(false, opening, human_forms(children));
            human::lemma_effects_concat(false, opening + human_forms(children), closing);
            assert(Seq::<u8>::empty() + leaves_of(children) + Seq::<u8>::empty() =~= leaves_of(
                children,
            ));
        },
        Tree::Record { shown, json } => {
            lemma_plain_sink_keeps_leaves(*shown);
        },
    }
}

} // verus!
