//! What holds of every tree, of every log, and of every parse.

use super::grammar::{lemma_statements_account, parse_file, parse_statements, Point};
use super::tree::{
    advances, depth, events_of, finished, lemma_children_add, lemma_children_single, tokens_of,
    ChildView, Event, TreeKind, TreeView,
};
use crate::lexer::token::TokenView;
use vstd::prelude::*;

verus! {

/// The depth and the tokens taken of two logs put end to end.
pub proof fn lemma_log_add(first: Seq<Event>, second: Seq<Event>)
    ensures
        depth(first + second) == depth(first) + depth(second),
        advances(first + second) == advances(first) + advances(second),
    decreases second.len(),
{
    if second.len() == 0 {
        assert(first + second =~= first);
    } else {
        lemma_log_add(first, second.drop_last());
        assert((first + second).drop_last() =~= first + second.drop_last());
    }
}

/// Whether `events` never closes a span it did not open.
pub open spec fn never_below(events: Seq<Event>) -> bool {
    forall|i: int| 0 <= i <= events.len() ==> depth(#[trigger] events.take(i)) >= 0
}

/// Of two logs that never close what they did not open, and of which the
/// first closes all it opened, the same holds end to end.
proof fn lemma_never_below_add(first: Seq<Event>, second: Seq<Event>)
    requires
        never_below(first),
        never_below(second),
        depth(first) == 0,
    ensures
        never_below(first + second),
{
    let both = first + second;
    assert forall|i: int| 0 <= i <= both.len() implies depth(#[trigger] both.take(i)) >= 0 by {
        if i <= first.len() {
            assert(both.take(i) =~= first.take(i));
        } else {
            assert(both.take(i) =~= first + second.take(i - first.len()));
            lemma_log_add(first, second.take(i - first.len()));
        }
    }
}

/// The depth and the tokens taken of a log of one event.
proof fn lemma_log_single(event: Event)
    ensures
        depth(seq![event]) == match event {
            Event::Open { .. } => 1int,
            Event::Close => -1int,
            Event::Advance => 0int,
        },
        advances(seq![event]) == match event {
            Event::Advance => 1nat,
            _ => 0nat,
        },
        depth(Seq::<Event>::empty()) == 0,
        advances(Seq::<Event>::empty()) == 0,
{
    assert(depth(Seq::<Event>::empty()) == 0);
    assert(advances(Seq::<Event>::empty()) == 0);
    assert(seq![event].drop_last() =~= Seq::<Event>::empty());
    assert(seq![event].last() == event);
    assert(seq![event].len() == 1);
}

/// The log of a list of children closes exactly what it opens, and takes
/// as many tokens as the children hold.
pub proof fn lemma_children_log(children: Seq<ChildView>)
    ensures
        never_below(events_of(children)),
        depth(events_of(children)) == 0,
        advances(events_of(children)) == tokens_of(children).len(),
    decreases children,
{
    if children.len() == 0 {
        assert forall|i: int| 0 <= i <= 0 implies depth(
            #[trigger] Seq::<Event>::empty().take(i),
        ) >= 0 by {
            assert(Seq::<Event>::empty().take(i) =~= Seq::<Event>::empty());
        }
        assert(advances(events_of(children)) == 0);
        assert(tokens_of(children).len() == 0);
    } else {
        let front = children.drop_last();
        let last = children.last();
        lemma_children_log(front);
        let log = last.events();
        match last {
            ChildView::Tree(tree) => {
                lemma_tree_log(tree);
                lemma_log_single(Event::Close);
                assert forall|i: int| 0 <= i <= log.len() implies depth(#[trigger] log.take(i))
                    >= 0 by {
                    if i == 0 {
                        assert(log.take(0) =~= Seq::<Event>::empty());
                    } else if i == log.len() {
                        assert(log.take(i) =~= log);
                    }
                }
                assert(tree.tokens() == last.tokens());
            },
            ChildView::Token(token) => {
                lemma_log_single(Event::Advance);
                assert forall|i: int| 0 <= i <= log.len() implies depth(#[trigger] log.take(i))
                    >= 0 by {
                    if i == 0 {
                        assert(log.take(0) =~= Seq::<Event>::empty());
                    } else {
                        assert(log.take(i) =~= log);
                    }
                }
            },
        }
        lemma_never_below_add(events_of(front), log);
        lemma_log_add(events_of(front), log);
        assert(advances(log) == last.tokens().len());
        assert(tokens_of(children).len() == tokens_of(front).len() + last.tokens().len());
    }
}

/// The log of a tree is the finished log of a parse of the tokens the tree
/// holds.
pub proof fn lemma_tree_log(tree: TreeView)
    ensures
        finished(tree.events(), tree.tokens().len()),
    decreases tree,
{
    let inner = events_of(tree.children);
    let open = seq![Event::Open { kind: tree.kind }];
    let close = seq![Event::Close];
    let log = tree.events();
    lemma_children_log(tree.children);
    lemma_log_add(open, inner);
    lemma_log_add(open + inner, close);
    lemma_log_single(Event::Open { kind: tree.kind });
    lemma_log_single(Event::Close);
    assert forall|i: int| 0 < i < log.len() implies depth(#[trigger] log.take(i)) >= 1 by {
        assert(log.take(i) =~= open + inner.take(i - 1));
        lemma_log_add(open, inner.take(i - 1));
        assert(depth(inner.take(i - 1)) >= 0);
    }
}

/// The log and the tokens of a list of children, read from its left end.
proof fn lemma_children_first(children: Seq<ChildView>)
    requires
        children.len() > 0,
    ensures
        events_of(children) == children[0].events() + events_of(
            children.subrange(1, children.len() as int),
        ),
        tokens_of(children) == children[0].tokens() + tokens_of(
            children.subrange(1, children.len() as int),
        ),
{
    let rest = children.subrange(1, children.len() as int);
    assert(children =~= seq![children[0]] + rest);
    lemma_children_add(seq![children[0]], rest);
    lemma_children_single(children[0]);
}

/// Whether `rest` begins with the closing of a span.
pub open spec fn closes(rest: Seq<Event>) -> bool {
    rest.len() > 0 && rest[0] == Event::Close
}

/// Two lists of children whose logs and tokens agree up to where the span
/// around them closes are the same list, closed at the same place.
proof fn lemma_children_determined(
    first: Seq<ChildView>,
    second: Seq<ChildView>,
    first_rest: Seq<Event>,
    second_rest: Seq<Event>,
    first_left: Seq<TokenView>,
    second_left: Seq<TokenView>,
)
    requires
        events_of(first) + first_rest == events_of(second) + second_rest,
        tokens_of(first) + first_left == tokens_of(second) + second_left,
        closes(first_rest),
        closes(second_rest),
    ensures
        first == second,
        first_rest == second_rest,
        first_left == second_left,
    decreases first,
{
    let first_log = events_of(first) + first_rest;
    let second_log = events_of(second) + second_rest;
    let first_tokens = tokens_of(first) + first_left;
    let second_tokens = tokens_of(second) + second_left;
    if first.len() == 0 || second.len() == 0 {
        if first.len() > 0 {
            lemma_children_first(first);
            assert(first_log[0] == first[0].events()[0]);
            assert(second_log[0] == second_rest[0]);
        }
        if second.len() > 0 {
            lemma_children_first(second);
            assert(second_log[0] == second[0].events()[0]);
            assert(first_log[0] == first_rest[0]);
        }
        assert(first =~= second);
        assert(first_rest =~= first_log);
        assert(second_rest =~= second_log);
        assert(first_left =~= first_tokens);
        assert(second_left =~= second_tokens);
    } else {
        lemma_children_first(first);
        lemma_children_first(second);
        let first_tail = first.subrange(1, first.len() as int);
        let second_tail = second.subrange(1, second.len() as int);
        assert(first_log[0] == first[0].events()[0]);
        assert(second_log[0] == second[0].events()[0]);
        match (first[0], second[0]) {
            (ChildView::Token(a), ChildView::Token(b)) => {
                assert(first_log.subrange(1, first_log.len() as int) =~= events_of(first_tail)
                    + first_rest);
                assert(second_log.subrange(1, second_log.len() as int) =~= events_of(second_tail)
                    + second_rest);
                assert(first_tokens[0] == a);
                assert(second_tokens[0] == b);
                assert(first_tokens.subrange(1, first_tokens.len() as int) =~= tokens_of(
                    first_tail,
                ) + first_left);
                assert(second_tokens.subrange(1, second_tokens.len() as int) =~= tokens_of(
                    second_tail,
                ) + second_left);
                lemma_children_determined(
                    first_tail,
                    second_tail,
                    first_rest,
                    second_rest,
                    first_left,
                    second_left,
                );
            },
            (ChildView::Tree(a), ChildView::Tree(b)) => {
                let close = seq![Event::Close];
                let first_after = close + (events_of(first_tail) + first_rest);
                let second_after = close + (events_of(second_tail) + second_rest);
                let first_below = tokens_of(first_tail) + first_left;
                let second_below = tokens_of(second_tail) + second_left;
                assert(first_log[0] == Event::Open { kind: a.kind });
                assert(second_log[0] == Event::Open { kind: b.kind });
                assert(first_log.subrange(1, first_log.len() as int) =~= events_of(a.children)
                    + first_after);
                assert(second_log.subrange(1, second_log.len() as int) =~= events_of(b.children)
                    + second_after);
                assert(first_tokens =~= tokens_of(a.children) + first_below);
                assert(second_tokens =~= tokens_of(b.children) + second_below);
                lemma_children_determined(
                    a.children,
                    b.children,
                    first_after,
                    second_after,
                    first_below,
                    second_below,
                );
                assert(first_after.subrange(1, first_after.len() as int) =~= events_of(
                    first_tail,
                ) + first_rest);
                assert(second_after.subrange(1, second_after.len() as int) =~= events_of(
                    second_tail,
                ) + second_rest);
                lemma_children_determined(
                    first_tail,
                    second_tail,
                    first_rest,
                    second_rest,
                    first_left,
                    second_left,
                );
            },
            _ => {},
        }
        assert(first =~= seq![first[0]] + first_tail);
        assert(second =~= seq![second[0]] + second_tail);
    }
}

/// A log and the tokens it takes belong to one tree only.
pub proof fn lemma_tree_determined(first: TreeView, second: TreeView)
    requires
        first.events() == second.events(),
        first.tokens() == second.tokens(),
    ensures
        first == second,
{
    let close = seq![Event::Close];
    let first_log = first.events();
    let second_log = second.events();
    assert(first_log[0] == Event::Open { kind: first.kind });
    assert(second_log[0] == Event::Open { kind: second.kind });
    assert(first_log.subrange(1, first_log.len() as int) =~= events_of(first.children) + close);
    assert(second_log.subrange(1, second_log.len() as int) =~= events_of(second.children)
        + close);
    assert(tokens_of(first.children) + Seq::<TokenView>::empty() =~= tokens_of(
        second.children,
    ) + Seq::<TokenView>::empty());
    lemma_children_determined(
        first.children,
        second.children,
        close,
        close,
        Seq::empty(),
        Seq::empty(),
    );
}

/// The tree of a whole file, as the grammar reads `tokens` with `fuel`
/// units of fuel to begin with.
pub open spec fn file_tree(tokens: Seq<TokenView>, fuel: nat) -> TreeView {
    TreeView {
        kind: TreeKind::File,
        children: parse_statements(tokens, Point { pos: 0, fuel, ok: true }).children,
    }
}

/// A parse that does not run out of fuel writes a finished log: the log of
/// one tree, which holds every token exactly once, in order.
pub proof fn lemma_file_log_finished(tokens: Seq<TokenView>, fuel: nat)
    requires
        parse_file(tokens, Point { pos: 0, fuel, ok: true }).end.ok,
    ensures
        events_of(parse_file(tokens, Point { pos: 0, fuel, ok: true }).children) == file_tree(
            tokens,
            fuel,
        ).events(),
        file_tree(tokens, fuel).tokens() == tokens,
        finished(file_tree(tokens, fuel).events(), tokens.len()),
{
    let start = Point { pos: 0, fuel, ok: true };
    let tree = file_tree(tokens, fuel);
    lemma_statements_account(tokens, start);
    lemma_children_single(ChildView::Tree(tree));
    assert(tokens.subrange(0, tokens.len() as int) =~= tokens);
    lemma_tree_log(tree);
}

} // verus!
