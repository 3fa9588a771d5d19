//! Spans: styled nodes over an ordered run of children.

use vstd::prelude::*;
use vstd::string::StringExecFns;
use crate::components::text::{text, Text};
use crate::components::tree::{
    human_form,
    human_forms,
    json_form,
    json_forms,
    json_separator,
    Tree,
};
use crate::error::Error;
use crate::human;
use crate::json;
use crate::style::{parse_color, parsed_color, Paint, Style};
use crate::Render;

verus! {

/// A component: text, a span, or a record.
pub enum Node {
    Text(Text),
    Span(Span),
    Record(Record),
}

/// A value with a form of its own for machines: it is shown to people as a
/// component, and as JSON by bytes that were encoded elsewhere.
pub struct Record {
    shown: Box<Node>,
    json: Vec<u8>,
}

/// A styled node: its children in their order, and the style that holds
/// while they are shown.
pub struct Span {
    items: Vec<Node>,
    fg: Option<Paint>,
    bg: Option<Paint>,
    bold: bool,
    underline: bool,
    intense: bool,
}

/// The component that a node stands for.
pub closed spec fn node_tree(node: Node) -> Tree
    decreases node,
{
    match node {
        Node::Text(t) => Tree::Text(t@),
        Node::Span(s) => span_tree(s),
        Node::Record(r) => Tree::Record { shown: Box::new(node_tree(*r.shown)), json: r.json@ },
    }
}

/// The component that a span stands for.
pub closed spec fn span_tree(span: Span) -> Tree
    decreases span,
{
    Tree::Span {
        style: Style {
            fg: span.fg,
            bg: span.bg,
            bold: span.bold,
            underline: span.underline,
            intense: span.intense,
        },
        children: nodes_trees(span.items@),
    }
}

/// The components that a run of nodes stands for.
pub closed spec fn nodes_trees(nodes: Seq<Node>) -> Seq<Tree>
    decreases nodes,
{
    if nodes.len() == 0 {
        Seq::empty()
    } else {
        nodes_trees(nodes.drop_last()).push(node_tree(nodes.last()))
    }
}

proof fn lemma_nodes_trees(nodes: Seq<Node>)
    ensures
        nodes_trees(nodes).len() == nodes.len(),
        forall|k: int| 0 <= k < nodes.len() ==> (#[trigger] nodes_trees(nodes)[k]) == node_tree(
            nodes[k],
        ),
    decreases nodes.len(),
{
    if nodes.len() > 0 {
        lemma_nodes_trees(nodes.drop_last());
        assert forall|k: int| 0 <= k < nodes.len() implies (#[trigger] nodes_trees(nodes)[k])
            == node_tree(nodes[k]) by {
            if k < nodes.len() - 1 {
                assert(nodes.drop_last()[k] == nodes[k]);
            }
        }
    }
}

impl View for Node {
    type V = Tree;

    closed spec fn view(&self) -> Tree {
        node_tree(*self)
    }
}

impl View for Span {
    type V = Tree;

    closed spec fn view(&self) -> Tree {
        span_tree(*self)
    }
}

impl View for Record {
    type V = Tree;

    closed spec fn view(&self) -> Tree {
        node_tree(Node::Record(*self))
    }
}

/// A record that is shown to people as `shown`, and as JSON by the bytes
/// `json`, which are written as they are.
pub fn record<T: IntoNode>(shown: T, json: Vec<u8>) -> (r: Record)
    ensures
        r@ == (Tree::Record { shown: Box::new(shown.tree()), json: json@ }),
{
    Record { shown: Box::new(shown.into_node()), json }
}

/// What can become a child of a span.
pub trait IntoNode: Render + Sized {
    /// The node that stands for the same component as this value.
    fn into_node(self) -> (node: Node)
        ensures
            node@ == self.tree(),
    ;
}

/// A new span: no children, no style.
pub fn span() -> (s: Span)
    ensures
        s@ == (Tree::Span { style: Style::spec_plain(), children: Seq::empty() }),
{
    Span { items: Vec::new(), fg: None, bg: None, bold: false, underline: false, intense: false }
}

impl Span {
    /// The style that holds while the children are shown.
    pub open spec fn spec_style(&self) -> Style {
        self@->style
    }

    /// The children, in their order.
    pub open spec fn children(&self) -> Seq<Tree> {
        self@->children
    }

    /// The style that holds while the children are shown.
    pub fn style(&self) -> (s: Style)
        ensures
            s == self.spec_style(),
    {
        Style {
            fg: self.fg,
            bg: self.bg,
            bold: self.bold,
            underline: self.underline,
            intense: self.intense,
        }
    }

    /// How many children the span has.
    pub fn len(&self) -> (n: usize)
        ensures
            n == self.children().len(),
    {
        proof {
            lemma_nodes_trees(self.items@);
        }
        self.items.len()
    }

    /// The span with `item` as its last child; everything else as it was.
    pub fn add_item<T: IntoNode>(self, item: T) -> (r: Span)
        ensures
            r@ == (Tree::Span {
                style: self.spec_style(),
                children: self.children().push(item.tree()),
            }),
    {
        let mut this = self;
        let ghost before = this.items@;
        let node = item.into_node();
        this.items.push(node);
        proof {
            assert(this.items@.drop_last() == before);
        }
        this
    }

    /// The span with the foreground colour of that name.
    ///
    /// A name that is no colour fails with a colour-parse error, and the
    /// span is given up with it: no span comes back that could be used.
    pub fn fg(self, color: &str) -> (r: Result<Span, Error>)
        ensures
            parsed_color(color@) matches Some(c) ==> (r matches Ok(s) && s@ == (Tree::Span {
                style: Style { fg: Some(c), ..self.spec_style() },
                children: self.children(),
            })),
            parsed_color(color@) is None ==> r matches Err(Error::ParseColorError(_)),
    {
        let mut this = self;
        match parse_color(color) {
            Ok(c) => {
                this.fg = Some(c);
                Ok(this)
            },
            Err(e) => Err(e),
        }
    }

    /// The span with the background colour of that name.
    ///
    /// A name that is no colour fails with a colour-parse error, and the
    /// span is given up with it: no span comes back that could be used.
    pub fn bg(self, color: &str) -> (r: Result<Span, Error>)
        ensures
            parsed_color(color@) matches Some(c) ==> (r matches Ok(s) && s@ == (Tree::Span {
                style: Style { bg: Some(c), ..self.spec_style() },
                children: self.children(),
            })),
            parsed_color(color@) is None ==> r matches Err(Error::ParseColorError(_)),
    {
        let mut this = self;
        match parse_color(color) {
            Ok(c) => {
                this.bg = Some(c);
                Ok(this)
            },
            Err(e) => Err(e),
        }
    }

    /// The span with bold switched on or off.
    pub fn bold(self, yes: bool) -> (r: Result<Span, Error>)
        ensures
            r matches Ok(s) && s@ == (Tree::Span {
                style: Style { bold: yes, ..self.spec_style() },
                children: self.children(),
            }),
    {
        let mut this = self;
        this.bold = yes;
        Ok(this)
    }

    /// The span with underlining switched on or off.
    pub fn underline(self, yes: bool) -> (r: Result<Span, Error>)
        ensures
            r matches Ok(s) && s@ == (Tree::Span {
                style: Style { underline: yes, ..self.spec_style() },
                children: self.children(),
            }),
    {
        let mut this = self;
        this.underline = yes;
        Ok(this)
    }

    /// The span with intense colours switched on or off.
    pub fn intense(self, yes: bool) -> (r: Result<Span, Error>)
        ensures
            r matches Ok(s) && s@ == (Tree::Span {
                style: Style { intense: yes, ..self.spec_style() },
                children: self.children(),
            }),
    {
        let mut this = self;
        this.intense = yes;
        Ok(this)
    }
}

/// The commands for a run of components and one more are those for the run,
/// then those for the one.
pub proof fn lemma_human_forms_push(trees: Seq<Tree>, tree: Tree)
    ensures
        human_forms(trees.push(tree)) == human_forms(trees) + human_form(tree),
{
    assert(trees.push(tree).drop_last() == trees);
}

/// The JSON commands for a run of components and one more: a separator
/// stands before the one, unless it is the first.
pub proof fn lemma_json_forms_push(trees: Seq<Tree>, tree: Tree)
    ensures
        trees.len() == 0 ==> json_forms(trees.push(tree)) == json_form(tree),
        trees.len() > 0 ==> json_forms(trees.push(tree)) == json_forms(trees) + seq![
            json_separator(),
        ] + json_form(tree),
{
    assert(trees.push(tree).drop_last() == trees);
}

fn render_node_human(node: &Node, fmt: &mut human::Formatter) -> (r: Result<(), Error>)
    requires
        old(fmt)@.wf(),
    ensures
        final(fmt)@.wf(),
        final(fmt)@ == old(fmt)@.sent_all(human_form(node@)),
        old(fmt)@.open ==> r is Ok,
        !old(fmt)@.open ==> (r matches Err(Error::ChannelError(detail)) && detail@
            == human::disconnected()),
    decreases node,
{
    match node {
        Node::Text(t) => t.render_for_humans(fmt),
        Node::Span(s) => render_span_human(s, fmt),
        Node::Record(r) => render_node_human(&*r.shown, fmt),
    }
}

fn render_span_human(span: &Span, fmt: &mut human::Formatter) -> (r: Result<(), Error>)
    requires
        old(fmt)@.wf(),
    ensures
        final(fmt)@.wf(),
        final(fmt)@ == old(fmt)@.sent_all(human_form(span@)),
        old(fmt)@.open ==> r is Ok,
        !old(fmt)@.open ==> (r matches Err(Error::ChannelError(detail)) && detail@
            == human::disconnected()),
    decreases span,
{
    let style = span.style();
    let ghost start = fmt@;
    let ghost trees = nodes_trees(span.items@);
    let ghost opening = seq![human::Command::SetColor(style)];
    proof {
        lemma_nodes_trees(span.items@);
    }
    match fmt.set_color(&style) {
        Err(e) => {
            return Err(e);
        },
        Ok(_) => {},
    }
    proof {
        human::lemma_sent_one(start, opening);
        assert(trees.take(0) =~= Seq::<Tree>::empty());
        assert(opening + human_forms(trees.take(0)) =~= opening);
    }
    let mut i: usize = 0;
    while i < span.items.len()
        invariant
            0 <= i <= span.items@.len(),
            start.open,
            start.wf(),
            fmt@.wf(),
            trees == nodes_trees(span.items@),
            trees.len() == span.items@.len(),
            forall|k: int| 0 <= k < trees.len() ==> (#[trigger] trees[k]) == node_tree(span.items@[k]),
            opening == seq![human::Command::SetColor(style)],
            fmt@ == start.sent_all(opening + human_forms(trees.take(i as int))),
        decreases span.items@.len() - i,
    {
        let ghost before = fmt@;
        let ghost done = opening + human_forms(trees.take(i as int));
        match render_node_human(&span.items[i], fmt) {
            Err(e) => {
                return Err(e);
            },
            Ok(_) => {},
        }
        proof {
            let child = trees[i as int];
            assert(child == span.items@[i as int]@);
            assert(trees.take(i + 1) =~= trees.take(i as int).push(child));
            lemma_human_forms_push(trees.take(i as int), child);
            human::lemma_sent_twice(start, done, human_form(child));
            assert(done + human_form(child) =~= opening + human_forms(trees.take(i + 1)));
        }
        i = i + 1;
    }
    proof {
        assert(trees.take(i as int) =~= trees);
        human::lemma_sent_then_one(
            start,
            opening + human_forms(trees),
            human::Command::ResetStyle,
        );
        assert((opening + human_forms(trees)).push(human::Command::ResetStyle) =~= human_form(
            span@,
        ));
    }
    fmt.reset()
}

fn render_node_json(node: &Node, fmt: &mut json::Formatter) -> (r: Result<(), Error>)
    requires
        old(fmt)@.wf(),
    ensures
        final(fmt)@.wf(),
        final(fmt)@ == old(fmt)@.sent_all(json_form(node@)),
        old(fmt)@.open || json_form(node@).len() == 0 ==> r is Ok,
        !old(fmt)@.open && json_form(node@).len() > 0 ==> (r matches Err(
            Error::ChannelError(detail),
        ) && detail@ == json::disconnected()),
    decreases node,
{
    match node {
        Node::Text(t) => t.render_json(fmt),
        Node::Span(s) => render_span_json(s, fmt),
        Node::Record(r) => {
            proof {
                json::lemma_sent_one(old(fmt)@, json_form(node@));
            }
            fmt.write_encoded(r.json.clone())
        },
    }
}

fn render_span_json(span: &Span, fmt: &mut json::Formatter) -> (r: Result<(), Error>)
    requires
        old(fmt)@.wf(),
    ensures
        final(fmt)@.wf(),
        final(fmt)@ == old(fmt)@.sent_all(json_form(span@)),
        old(fmt)@.open || json_form(span@).len() == 0 ==> r is Ok,
        !old(fmt)@.open && json_form(span@).len() > 0 ==> (r matches Err(
            Error::ChannelError(detail),
        ) && detail@ == json::disconnected()),
    decreases span,
{
    let ghost start = fmt@;
    let ghost trees = nodes_trees(span.items@);
    proof {
        lemma_nodes_trees(span.items@);
        assert(trees.take(0) =~= Seq::<Tree>::empty());
        json::lemma_sent_none(start);
    }
    let mut i: usize = 0;
    while i < span.items.len()
        invariant
            0 <= i <= span.items@.len(),
            start.wf(),
            start == old(fmt)@,
            fmt@.wf(),
            trees == nodes_trees(span.items@),
            trees.len() == span.items@.len(),
            forall|k: int| 0 <= k < trees.len() ==> (#[trigger] trees[k]) == node_tree(span.items@[k]),
            fmt@ == start.sent_all(json_forms(trees.take(i as int))),
            !start.open ==> json_forms(trees.take(i as int)).len() == 0,
            json_form(span@) == json_forms(trees),
        decreases span.items@.len() - i,
    {
        let ghost done = json_forms(trees.take(i as int));
        let ghost child = trees[i as int];
        proof {
            assert(child == span.items@[i as int]@);
            assert(trees.take(i + 1) =~= trees.take(i as int).push(child));
            lemma_json_forms_push(trees.take(i as int), child);
            lemma_json_forms_grow(trees, i + 1);
        }
        if i > 0 {
            match fmt.write_separator() {
                Err(e) => {
                    return Err(e);
                },
                Ok(_) => {},
            }
            proof {
                json::lemma_sent_then_one(start, done, json_separator());
                assert(done.push(json_separator()) =~= done + seq![json_separator()]);
            }
        }
        let ghost mid = if i > 0 {
            done + seq![json_separator()]
        } else {
            done
        };
        match render_node_json(&span.items[i], fmt) {
            Err(e) => {
                return Err(e);
            },
            Ok(_) => {},
        }
        proof {
            json::lemma_sent_twice(start, mid, json_form(child));
            if i == 0 {
                assert(done =~= Seq::<json::Command>::empty());
                assert(mid + json_form(child) =~= json_form(child));
            }
        }
        i = i + 1;
    }
    proof {
        assert(trees.take(i as int) =~= trees);
    }
    Ok(())
}

/// The JSON commands for the first `n` of a run are no more than those for
/// the whole run.
proof fn lemma_json_forms_grow(trees: Seq<Tree>, n: int)
    requires
        0 <= n <= trees.len(),
    ensures
        json_forms(trees.take(n)).len() <= json_forms(trees).len(),
    decreases trees.len() - n,
{
    if n < trees.len() {
        lemma_json_forms_grow(trees, n + 1);
        assert(trees.take(n + 1) =~= trees.take(n).push(trees[n]));
        lemma_json_forms_push(trees.take(n), trees[n]);
    } else {
        assert(trees.take(n) =~= trees);
    }
}

impl Render for Node {
    open spec fn tree(&self) -> Tree {
        self@
    }

    fn render_for_humans(&self, fmt: &mut human::Formatter) -> (r: Result<(), Error>) {
        render_node_human(self, fmt)
    }

    fn render_json(&self, fmt: &mut json::Formatter) -> (r: Result<(), Error>) {
        render_node_json(self, fmt)
    }
}

impl Render for Span {
    open spec fn tree(&self) -> Tree {
        self@
    }

    /// Sets the whole style in one command, shows the children from the
    /// first to the last, and resets the style.
    ///
    /// A failure means that the worker has stopped, and is met at the first
    /// command: nothing is enqueued then, neither the style nor its reset.
    fn render_for_humans(&self, fmt: &mut human::Formatter) -> (r: Result<(), Error>) {
        render_span_human(self, fmt)
    }

    /// Shows the children from the first to the last, with a separator
    /// between each two that follow one another.
    fn render_json(&self, fmt: &mut json::Formatter) -> (r: Result<(), Error>) {
        render_span_json(self, fmt)
    }
}

impl Render for Record {
    open spec fn tree(&self) -> Tree {
        self@
    }

    fn render_for_humans(&self, fmt: &mut human::Formatter) -> (r: Result<(), Error>) {
        render_node_human(&*self.shown, fmt)
    }

    fn render_json(&self, fmt: &mut json::Formatter) -> (r: Result<(), Error>) {
        proof {
            json::lemma_sent_one(old(fmt)@, json_form(self@));
        }
        fmt.write_encoded(self.json.clone())
    }
}

impl IntoNode for Record {
    fn into_node(self) -> (node: Node) {
        Node::Record(self)
    }
}

impl IntoNode for Node {
    fn into_node(self) -> (node: Node) {
        self
    }
}

impl IntoNode for Text {
    fn into_node(self) -> (node: Node) {
        Node::Text(self)
    }
}

impl IntoNode for Span {
    fn into_node(self) -> (node: Node) {
        Node::Span(self)
    }
}

impl IntoNode for String {
    fn into_node(self) -> (node: Node) {
        Node::Text(text(self.as_str()))
    }
}

impl<'a> IntoNode for &'a str {
    fn into_node(self) -> (node: Node) {
        Node::Text(text(self))
    }
}

} // verus!
