//! A walk over a syntax tree that visits every node before its children and
//! the children in order.

use tree_sitter::{Node, TreeCursor};
use vstd::prelude::*;

verus! {

/// A cursor of tree-sitter: a place in a syntax tree that can be moved.
#[verifier::external_type_specification]
#[verifier::external_body]
pub struct ExTreeCursor<'a>(TreeCursor<'a>);

/// A node of a syntax tree of tree-sitter.
#[verifier::external_type_specification]
#[verifier::external_body]
pub struct ExNode<'a>(Node<'a>);

/// The node that a cursor stands on.
pub uninterp spec fn node_at(cursor: TreeCursor) -> Node;

/// The cursor moved to the first child of its node; `None` where the node has
/// no children.
pub uninterp spec fn first_child(cursor: TreeCursor) -> Option<TreeCursor>;

/// The cursor moved to the next sibling of its node; `None` where there is
/// none.
pub uninterp spec fn next_sibling(cursor: TreeCursor) -> Option<TreeCursor>;

/// The cursor moved to the parent of its node; `None` where the cursor stands
/// on the node it was made for.
pub uninterp spec fn parent(cursor: TreeCursor) -> Option<TreeCursor>;

/// The number of tree levels that the cursor has gone down from the node it
/// was made for, the levels of hidden nodes counted too.
pub uninterp spec fn path_length(cursor: TreeCursor) -> nat;

/// Calls `TreeCursor::node`: the node the cursor stands on.
#[verifier::external_body]
fn node<'a>(cursor: &TreeCursor<'a>) -> (r: Node<'a>)
    ensures
        r == node_at(*cursor),
{
    cursor.node()
}

/// Calls `TreeCursor::goto_first_child`. It returns `true` where the cursor
/// moved to the first child, and `false` where there are no children; the
/// cursor is then where it was.
#[verifier::external_body]
fn goto_first_child(cursor: &mut TreeCursor) -> (moved: bool)
    ensures
        moved ==> first_child(*old(cursor)) == Some(*final(cursor)),
        !moved ==> first_child(*old(cursor)) is None && *final(cursor) == *old(cursor),
{
    cursor.goto_first_child()
}

/// Calls `TreeCursor::goto_next_sibling`. It returns `true` where the cursor
/// moved to the next sibling, and `false` where there is none; the cursor is
/// then where it was.
#[verifier::external_body]
fn goto_next_sibling(cursor: &mut TreeCursor) -> (moved: bool)
    ensures
        moved ==> next_sibling(*old(cursor)) == Some(*final(cursor)),
        !moved ==> next_sibling(*old(cursor)) is None && *final(cursor) == *old(cursor),
{
    cursor.goto_next_sibling()
}

/// Calls `TreeCursor::goto_parent`. It returns `true` where the cursor moved
/// to the parent, which lies fewer levels down, and `false` where there is no
/// parent; the cursor is then where it was.
#[verifier::external_body]
fn goto_parent(cursor: &mut TreeCursor) -> (moved: bool)
    ensures
        moved ==> parent(*old(cursor)) == Some(*final(cursor)) && path_length(*final(cursor))
            < path_length(*old(cursor)),
        !moved ==> parent(*old(cursor)) is None && *final(cursor) == *old(cursor),
{
    cursor.goto_parent()
}

/// Where a walk goes when the node it stands on has no children, or they have
/// all been visited: to the next sibling, or else to the next sibling of the
/// nearest ancestor that has one; and nowhere when no ancestor has one. No
/// more than `levels` ancestors are tried.
pub open spec fn climb<'a>(at: TreeCursor<'a>, levels: nat) -> Option<TreeCursor<'a>>
    decreases levels,
{
    match next_sibling(at) {
        Some(sibling) => Some(sibling),
        None => match parent(at) {
            Some(up) => if levels == 0 {
                None
            } else {
                climb(up, (levels - 1) as nat)
            },
            None => None,
        },
    }
}

/// Where a walk goes next from `at`: to the first child, or else to where
/// climbing leads; the cursor has no more ancestors than it lies levels down.
pub open spec fn successor<'a>(at: TreeCursor<'a>) -> Option<TreeCursor<'a>> {
    match first_child(at) {
        Some(child) => Some(child),
        None => climb(at, path_length(at)),
    }
}

/// Walks a syntax tree from a cursor on.
pub struct TreeIterator<'a> {
    cursor: TreeCursor<'a>,
    current: Option<Node<'a>>,
}

impl<'a> TreeIterator<'a> {
    /// Where the walk stands; `None` when it has come to its end.
    pub closed spec fn position(&self) -> Option<TreeCursor<'a>> {
        match self.current {
            Some(_) => Some(self.cursor),
            None => None,
        }
    }

    /// The node kept for the next call is the one the cursor stands on.
    pub closed spec fn wf(&self) -> bool {
        self.current matches Some(kept) ==> kept == node_at(self.cursor)
    }

    /// A walk that starts on the node of `cursor`.
    pub fn new(cursor: TreeCursor<'a>) -> (r: TreeIterator<'a>)
        ensures
            r.wf(),
            r.position() == Some(cursor),
    {
        let current = Some(node(&cursor));
        TreeIterator { cursor, current }
    }

    /// The node the walk stands on, and a step to the node after it; `None`
    /// when the walk has come to its end.
    pub fn next(&mut self) -> (r: Option<Node<'a>>)
        requires
            old(self).wf(),
        ensures
            final(self).wf(),
            match old(self).position() {
                Some(at) => r == Some(node_at(at)) && final(self).position() == successor(at),
                None => r is None && final(self).position() is None,
            },
    {
        let ret = self.current;
        if ret.is_some() {
            let ghost start = self.cursor;
            if goto_first_child(&mut self.cursor) {
                self.current = Some(node(&self.cursor));
            } else {
                let ghost levels = path_length(start);
                loop
                    invariant
                        old(self).wf(),
                        old(self).current == ret,
                        old(self).cursor == start,
                        ret is Some,
                        first_child(start) is None,
                        path_length(self.cursor) <= levels,
                        climb(start, path_length(start)) == climb(self.cursor, levels),
                    decreases levels,
                {
                    if goto_next_sibling(&mut self.cursor) {
                        self.current = Some(node(&self.cursor));
                        return ret;
                    }
                    if !goto_parent(&mut self.cursor) {
                        self.current = None;
                        return ret;
                    }
                    proof {
                        levels = (levels - 1) as nat;
                    }
                }
            }
        }
        ret
    }
}

} // verus!
