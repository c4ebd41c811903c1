//! The syntax tree and the event log it is built from.
//!
//! A parse writes a flat log of events: a span opens, a token is taken, a
//! span closes. Read in order, the log is the tree written out node by node,
//! and [`replay`] folds it back into the tree.

use crate::lexer::token::{token_views, Token, TokenView};
use vstd::prelude::*;

verus! {

/// The grammar rules a node may stand for.
#[derive(Clone, Copy, Debug, PartialEq, Eq, Structural)]
pub enum TreeKind {
    /// A span that matched no rule.
    ErrorTree,
    File,
    StmtVarDecl,
    TypeExpr,
    StmtExpr,
    ExprLiteral,
    Comment,
}

/// A node of the syntax tree: the rule it stands for and what it spans.
#[derive(Debug, PartialEq, Eq)]
pub struct Tree {
    /// The rule this node stands for.
    pub kind: TreeKind,
    /// What this node holds, from left to right.
    pub children: Vec<Child>,
}

/// What a node holds: nodes below it, and tokens.
#[derive(Debug, PartialEq, Eq)]
pub enum Child {
    Tree(Tree),
    Token(Token),
}

/// A [`Tree`] as plain values.
pub struct TreeView {
    pub kind: TreeKind,
    pub children: Seq<ChildView>,
}

/// A [`Child`] as plain values.
pub enum ChildView {
    Tree(TreeView),
    Token(TokenView),
}

/// One entry of the log that a parse writes.
#[derive(Clone, Copy, Debug, PartialEq, Eq, Structural)]
pub enum Event {
    /// A span of the given kind begins.
    Open { kind: TreeKind },
    /// The span that began last and is still open ends.
    Close,
    /// The next token belongs to the span that is open.
    Advance,
}

/// The plain value of `tree`.
pub open spec fn tree_view(tree: Tree) -> TreeView
    decreases tree,
{
    TreeView { kind: tree.kind, children: children_view(tree.children@) }
}

/// The plain values of `children`, in order.
pub open spec fn children_view(children: Seq<Child>) -> Seq<ChildView>
    decreases children,
{
    if children.len() == 0 {
        Seq::empty()
    } else {
        children_view(children.drop_last()).push(child_view(children.last()))
    }
}

/// The plain value of `child`.
pub open spec fn child_view(child: Child) -> ChildView
    decreases child,
{
    match child {
        Child::Tree(tree) => ChildView::Tree(tree_view(tree)),
        Child::Token(token) => ChildView::Token(token@),
    }
}

impl View for Tree {
    type V = TreeView;

    open spec fn view(&self) -> TreeView {
        tree_view(*self)
    }
}

impl View for Child {
    type V = ChildView;

    open spec fn view(&self) -> ChildView {
        child_view(*self)
    }
}

impl TreeView {
    /// The log that writes this tree out: its opening, what it holds, its closing.
    pub open spec fn events(self) -> Seq<Event>
        decreases self,
    {
        seq![Event::Open { kind: self.kind }] + events_of(self.children) + seq![Event::Close]
    }

    /// The tokens of this tree, from left to right.
    pub open spec fn tokens(self) -> Seq<TokenView>
        decreases self,
    {
        tokens_of(self.children)
    }
}

impl ChildView {
    /// The log that writes this child out.
    pub open spec fn events(self) -> Seq<Event>
        decreases self,
    {
        match self {
            ChildView::Tree(tree) => tree.events(),
            ChildView::Token(_) => seq![Event::Advance],
        }
    }

    /// The tokens of this child, from left to right.
    pub open spec fn tokens(self) -> Seq<TokenView>
        decreases self,
    {
        match self {
            ChildView::Tree(tree) => tree.tokens(),
            ChildView::Token(token) => seq![token],
        }
    }
}

/// The log that writes `children` out, one after the other.
pub open spec fn events_of(children: Seq<ChildView>) -> Seq<Event>
    decreases children,
{
    if children.len() == 0 {
        Seq::empty()
    } else {
        events_of(children.drop_last()) + children.last().events()
    }
}

/// The tokens of `children`, from left to right.
pub open spec fn tokens_of(children: Seq<ChildView>) -> Seq<TokenView>
    decreases children,
{
    if children.len() == 0 {
        Seq::empty()
    } else {
        tokens_of(children.drop_last()) + children.last().tokens()
    }
}

/// How many spans `events` leaves open: its openings less its closings.
pub open spec fn depth(events: Seq<Event>) -> int
    decreases events.len(),
{
    if events.len() == 0 {
        0
    } else {
        depth(events.drop_last()) + match events.last() {
            Event::Open { .. } => 1int,
            Event::Close => -1int,
            Event::Advance => 0int,
        }
    }
}

/// How many tokens `events` takes.
pub open spec fn advances(events: Seq<Event>) -> nat
    decreases events.len(),
{
    if events.len() == 0 {
        0
    } else {
        advances(events.drop_last()) + match events.last() {
            Event::Advance => 1nat,
            _ => 0nat,
        }
    }
}

/// Whether `events` is the log of a whole parse of `tokens` tokens: one span
/// stays open from the first event to the last, nothing closes that was not
/// opened, and every token is taken.
pub open spec fn finished(events: Seq<Event>, tokens: nat) -> bool {
    &&& events.len() >= 2
    &&& forall|i: int| 0 < i < events.len() ==> depth(#[trigger] events.take(i)) >= 1
    &&& depth(events) == 0
    &&& advances(events) == tokens
}

/// The trees of `stack` as plain values.
pub open spec fn tree_views(stack: Seq<Tree>) -> Seq<TreeView> {
    Seq::new(stack.len(), |i: int| stack[i]@)
}

/// The log that writes out the spans of `stack`, each opened inside the one
/// before it and none of them closed yet.
pub open spec fn open_events(stack: Seq<TreeView>) -> Seq<Event>
    decreases stack.len(),
{
    if stack.len() == 0 {
        Seq::empty()
    } else {
        open_events(stack.drop_last()) + seq![Event::Open { kind: stack.last().kind }] + events_of(
            stack.last().children,
        )
    }
}

/// The tokens of the spans of `stack`, from left to right.
pub open spec fn open_tokens(stack: Seq<TreeView>) -> Seq<TokenView>
    decreases stack.len(),
{
    if stack.len() == 0 {
        Seq::empty()
    } else {
        open_tokens(stack.drop_last()) + tokens_of(stack.last().children)
    }
}

/// A longer log takes at least as many tokens.
pub proof fn lemma_advances_grow(events: Seq<Event>, i: int)
    requires
        0 <= i <= events.len(),
    ensures
        advances(events.take(i)) <= advances(events),
    decreases events.len(),
{
    if i < events.len() {
        lemma_advances_grow(events.drop_last(), i);
        assert(events.drop_last().take(i) =~= events.take(i));
    } else {
        assert(events.take(i) =~= events);
    }
}

/// What two lists of children hold, put end to end.
pub proof fn lemma_children_add(first: Seq<ChildView>, second: Seq<ChildView>)
    ensures
        events_of(first + second) == events_of(first) + events_of(second),
        tokens_of(first + second) == tokens_of(first) + tokens_of(second),
    decreases second.len(),
{
    if second.len() == 0 {
        assert(first + second =~= first);
        assert(events_of(first) + events_of(second) =~= events_of(first));
        assert(tokens_of(first) + tokens_of(second) =~= tokens_of(first));
    } else {
        lemma_children_add(first, second.drop_last());
        assert((first + second).drop_last() =~= first + second.drop_last());
        assert((first + second).last() == second.last());
        assert(events_of(first + second) =~= events_of(first) + events_of(second));
        assert(tokens_of(first + second) =~= tokens_of(first) + tokens_of(second));
    }
}

/// What a single child holds.
pub proof fn lemma_children_single(child: ChildView)
    ensures
        events_of(seq![child]) == child.events(),
        tokens_of(seq![child]) == child.tokens(),
{
    lemma_children_push(Seq::empty(), child);
    assert(Seq::<ChildView>::empty().push(child) =~= seq![child]);
    assert(events_of(Seq::<ChildView>::empty()) =~= Seq::<Event>::empty());
    assert(tokens_of(Seq::<ChildView>::empty()) =~= Seq::<TokenView>::empty());
    assert(Seq::<Event>::empty() + child.events() =~= child.events());
    assert(Seq::<TokenView>::empty() + child.tokens() =~= child.tokens());
}

/// What a node holds once `child` is added at its right end.
pub proof fn lemma_children_push(children: Seq<ChildView>, child: ChildView)
    ensures
        events_of(children.push(child)) == events_of(children) + child.events(),
        tokens_of(children.push(child)) == tokens_of(children) + child.tokens(),
{
    assert(children.push(child).drop_last() =~= children);
}

/// The plain values of a list of children with `child` added at its right end.
pub proof fn lemma_children_view_push(children: Seq<Child>, child: Child)
    ensures
        children_view(children.push(child)) == children_view(children).push(child@),
{
    assert(children.push(child).drop_last() =~= children);
}

/// The log and the tokens of open spans once a span of kind `kind` is
/// opened inside them.
proof fn lemma_open_span(stack: Seq<TreeView>, kind: TreeKind)
    ensures
        open_events(stack.push(TreeView { kind, children: Seq::empty() })) == open_events(stack)
            + seq![Event::Open { kind }],
        open_tokens(stack.push(TreeView { kind, children: Seq::empty() })) == open_tokens(stack),
{
    let opened = stack.push(TreeView { kind, children: Seq::empty() });
    assert(opened.drop_last() =~= stack);
    assert(events_of(Seq::<ChildView>::empty()) =~= Seq::<Event>::empty());
    assert(tokens_of(Seq::<ChildView>::empty()) =~= Seq::<TokenView>::empty());
    assert(open_events(opened) =~= open_events(stack) + seq![Event::Open { kind }]);
    assert(open_tokens(opened) =~= open_tokens(stack));
}

/// The innermost span of `stack` with `child` added at its right end.
pub open spec fn with_child(stack: Seq<TreeView>, child: ChildView) -> Seq<TreeView> {
    stack.drop_last().push(
        TreeView { kind: stack.last().kind, children: stack.last().children.push(child) },
    )
}

/// The log and the tokens of open spans once `child` is added to the
/// innermost of them.
proof fn lemma_add_child(stack: Seq<TreeView>, child: ChildView)
    requires
        stack.len() > 0,
    ensures
        open_events(with_child(stack, child)) == open_events(stack) + child.events(),
        open_tokens(with_child(stack, child)) == open_tokens(stack) + child.tokens(),
{
    let grown = with_child(stack, child);
    lemma_children_push(stack.last().children, child);
    assert(grown.drop_last() =~= stack.drop_last());
    assert(open_events(grown) =~= open_events(stack) + child.events());
    assert(open_tokens(grown) =~= open_tokens(stack) + child.tokens());
}

/// The log and the tokens of open spans once the innermost of them is
/// closed and handed to the span around it.
proof fn lemma_close_span(stack: Seq<TreeView>)
    requires
        stack.len() >= 2,
    ensures
        open_events(with_child(stack.drop_last(), ChildView::Tree(stack.last()))) == open_events(
            stack,
        ) + seq![Event::Close],
        open_tokens(with_child(stack.drop_last(), ChildView::Tree(stack.last()))) == open_tokens(
            stack,
        ),
{
    let closed = stack.last();
    lemma_add_child(stack.drop_last(), ChildView::Tree(closed));
    assert(open_events(stack) + seq![Event::Close] =~= open_events(stack.drop_last())
        + closed.events());
}

/// What one more event adds to the depth and to the tokens taken.
proof fn lemma_one_more_event(events: Seq<Event>, i: int)
    requires
        0 <= i < events.len(),
    ensures
        events.take(i + 1) == events.take(i).push(events[i]),
        depth(events.take(i + 1)) == depth(events.take(i)) + match events[i] {
            Event::Open { .. } => 1int,
            Event::Close => -1int,
            Event::Advance => 0int,
        },
        advances(events.take(i + 1)) == advances(events.take(i)) + match events[i] {
            Event::Advance => 1nat,
            _ => 0nat,
        },
{
    assert(events.take(i + 1).drop_last() =~= events.take(i));
    assert(events.take(i + 1) =~= events.take(i).push(events[i]));
}

/// The items of `items`, last first.
fn reversed(items: Vec<Token>) -> (turned: Vec<Token>)
    ensures
        turned@.len() == items@.len(),
        forall|k: int| 0 <= k < turned@.len() ==> turned@[k] == items@[items@.len() - 1 - k],
{
    let ghost given = items@;
    let mut items = items;
    let mut turned: Vec<Token> = Vec::new();
    while items.len() > 0
        invariant
            items@.len() + turned@.len() == given.len(),
            items@ == given.take(items@.len() as int),
            forall|k: int| 0 <= k < turned@.len() ==> turned@[k] == given[given.len() - 1 - k],
        decreases items.len(),
    {
        let item = items.pop().unwrap();
        turned.push(item);
    }
    turned
}

/// Adds `child` at the right end of the innermost span of `stack`.
fn add_child(stack: &mut Vec<Tree>, child: Child)
    requires
        old(stack)@.len() > 0,
    ensures
        tree_views(final(stack)@) == with_child(tree_views(old(stack)@), child@),
        final(stack)@.len() == old(stack)@.len(),
{
    let mut parent = stack.pop().unwrap();
    let ghost held = parent.children@;
    parent.children.push(child);
    proof {
        lemma_children_view_push(held, child);
    }
    stack.push(parent);
    assert(tree_views(stack@) =~= with_child(tree_views(old(stack)@), child@));
}

/// Folds a finished log back into the tree it writes out, hanging the
/// tokens on it in order.
pub fn replay(events: Vec<Event>, tokens: Vec<Token>) -> (tree: Tree)
    requires
        finished(events@, tokens@.len()),
    ensures
        tree@.events() == events@,
        tree@.tokens() == token_views(tokens@),
{
    let ghost log = events@;
    let ghost given = tokens@;
    let ghost leaves = token_views(given);
    let last = events.len() - 1;
    let mut supply = reversed(tokens);
    let mut stack: Vec<Tree> = Vec::new();
    let mut i: usize = 0;
    let ghost mut taken: int = 0;
    assert(log.take(0) =~= Seq::<Event>::empty());
    assert(leaves.take(0) =~= Seq::<TokenView>::empty());
    assert(tree_views(stack@) =~= Seq::<TreeView>::empty());
    while i < last
        invariant
            log == events@,
            leaves == token_views(given),
            finished(log, given.len()),
            last == log.len() - 1,
            i <= last,
            0 <= taken <= given.len(),
            supply@.len() == given.len() - taken,
            forall|k: int| 0 <= k < supply@.len() ==> supply@[k] == given[given.len() - 1 - k],
            taken == advances(log.take(i as int)),
            stack@.len() == depth(log.take(i as int)),
            open_events(tree_views(stack@)) == log.take(i as int),
            open_tokens(tree_views(stack@)) == leaves.take(taken),
        decreases last - i,
    {
        let ghost before = tree_views(stack@);
        proof {
            lemma_one_more_event(log, i as int);
            lemma_advances_grow(log, i + 1);
            if i > 0 {
                assert(depth(log.take(i as int)) >= 1);
            }
            assert(depth(log.take(i + 1)) >= 1);
        }
        match events[i] {
            Event::Open { kind } => {
                stack.push(Tree { kind, children: Vec::new() });
                proof {
                    lemma_open_span(before, kind);
                    assert(tree_views(stack@) =~= before.push(
                        TreeView { kind, children: Seq::empty() },
                    ));
                }
            },
            Event::Close => {
                let tree = stack.pop().unwrap();
                proof {
                    lemma_close_span(before);
                    assert(tree_views(stack@) =~= before.drop_last());
                    assert(tree@ == before.last());
                }
                add_child(&mut stack, Child::Tree(tree));
            },
            Event::Advance => {
                let token = supply.pop().unwrap();
                proof {
                    lemma_add_child(before, ChildView::Token(token@));
                    assert(token == given[taken]);
                    assert(leaves.take(taken + 1) =~= leaves.take(taken).push(token@));
                    taken = taken + 1;
                }
                add_child(&mut stack, Child::Token(token));
            },
        }
        i += 1;
    }
    proof {
        lemma_one_more_event(log, last as int);
        assert(log.take(last + 1) =~= log);
        assert(depth(log.take(last as int)) >= 1);
        assert(log.last() == Event::Close);
        assert(leaves.take(taken) =~= leaves);
    }
    let ghost spans = tree_views(stack@);
    let tree = stack.pop().unwrap();
    proof {
        assert(spans =~= seq![tree@]);
        lemma_single_span(tree@);
    }
    tree
}

/// The log and the tokens of a single open span.
proof fn lemma_single_span(root: TreeView)
    ensures
        open_events(seq![root]) + seq![Event::Close] == root.events(),
        open_tokens(seq![root]) == root.tokens(),
{
    assert(seq![root].drop_last() =~= Seq::<TreeView>::empty());
    assert(open_events(Seq::<TreeView>::empty()) =~= Seq::<Event>::empty());
    assert(open_tokens(Seq::<TreeView>::empty()) =~= Seq::<TokenView>::empty());
    assert(open_events(seq![root]) =~= seq![Event::Open { kind: root.kind }] + events_of(
        root.children,
    ));
    assert(open_tokens(seq![root]) =~= tokens_of(root.children));
}

} // verus!
