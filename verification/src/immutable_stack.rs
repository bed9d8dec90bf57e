//! A persistent (structurally shared) stack.
//!
//! `push` returns a new stack whose tail aliases the receiver, so many
//! stacks can share a long common prefix while each carries its own tip.
//! The view of a stack is the sequence of its elements, tip first.

use std::sync::Arc;
use vstd::prelude::*;

verus! {

struct Node<T> {
    elem: T,
    next: Link<T>,
}

type Link<T> = Option<Arc<Node<T>>>;

pub struct ImmutableStack<T> {
    node: Link<T>,
}

spec fn link_view<T>(l: Link<T>) -> Seq<T>
    decreases l,
{
    match l {
        None => Seq::empty(),
        Some(node) => seq![node.elem] + link_view(node.next),
    }
}

impl<T> View for ImmutableStack<T> {
    type V = Seq<T>;

    closed spec fn view(&self) -> Seq<T> {
        link_view(self.node)
    }
}

impl<T> ImmutableStack<T> {
    /// The empty stack.
    pub fn new() -> (r: Self)
        ensures
            r@ == Seq::<T>::empty(),
    {
        ImmutableStack { node: None }
    }

    /// A new stack holding `elem` on top of `self`; `self` stays valid
    /// and unchanged, and the two share every node below the new tip.
    pub fn push(&self, elem: T) -> (r: Self)
        ensures
            r@ == seq![elem] + self@,
    {
        ImmutableStack { node: Some(Arc::new(Node { elem, next: clone_link(&self.node) })) }
    }
}

impl<T> ImmutableStack<T> {
    /// The elements of the stack, tip first, as references.
    pub fn iter(&self) -> (out: Vec<&T>)
        ensures
            out@.len() == self@.len(),
            forall|i: int| 0 <= i < out@.len() ==> out@[i] == self@[i],
    {
        let mut out: Vec<&T> = Vec::new();
        let mut cur: &Link<T> = &self.node;
        loop
            invariant
                link_view(*cur) == self@.skip(out@.len() as int),
                out@.len() <= self@.len(),
                forall|i: int| 0 <= i < out@.len() ==> out@[i] == self@[i],
            ensures
                out@.len() == self@.len(),
            decreases self@.len() - out@.len(),
        {
            match cur {
                None => {
                    proof {
                        assert(link_view(*cur) == Seq::<T>::empty());
                        assert(out@.len() == self@.len());
                    }
                    break ;
                },
                Some(node) => {
                    proof {
                        assert(link_view(*cur) == seq![node.elem] + link_view(node.next));
                        assert(out@.len() < self@.len());
                        assert(self@.skip(out@.len() as int)[0] == self@[out@.len() as int]);
                        assert(node.elem == self@[out@.len() as int]);
                        assert((seq![node.elem] + link_view(node.next)).skip(1) =~= link_view(
                            node.next,
                        ));
                        assert(self@.skip(out@.len() as int).skip(1) =~= self@.skip(
                            out@.len() + 1int,
                        ));
                        assert(link_view(node.next) =~= self@.skip(out@.len() + 1int));
                    }
                    out.push(&node.elem);
                    cur = &node.next;
                },
            }
        }
        out
    }
}

impl<T> Clone for ImmutableStack<T> {
    /// A clone shares every node with the original and has the same view.
    fn clone(&self) -> (r: Self)
        ensures
            r@ == self@,
    {
        ImmutableStack { node: clone_link(&self.node) }
    }
}

fn clone_link<T>(l: &Link<T>) -> (r: Link<T>)
    ensures
        r == l,
{
    match l {
        None => None,
        Some(node) => Some(Arc::clone(node)),
    }
}

/// Relies on std's `Arc::try_unwrap`: the inner value comes back as `Ok`
/// when this was the last reference, and the untouched `Arc` as `Err`
/// otherwise.
#[verifier::external_body]
fn try_unwrap_node<T>(a: Arc<Node<T>>) -> (r: Result<Node<T>, Arc<Node<T>>>)
    ensures
        match r {
            Ok(t) => t == a,
            Err(e) => e == a,
        },
    opens_invariants none
    no_unwind
{
    Arc::try_unwrap(a)
}

impl<T> Drop for ImmutableStack<T> {
    /// Unlinks the chain iteratively, so that dropping a deep stack does
    /// not recurse once per node; it stops at the first node that is
    /// still shared with another stack.
    fn drop(&mut self)
        opens_invariants none
        no_unwind
    {
        let mut iter: Link<T> = None;
        core::mem::swap(&mut iter, &mut self.node);
        loop
            decreases link_view(iter).len(),
        {
            match iter {
                None => {
                    break ;
                },
                Some(node) => {
                    match try_unwrap_node(node) {
                        Ok(unwrapped) => {
                            iter = unwrapped.next;
                        },
                        Err(_) => {
                            break ;
                        },
                    }
                },
            }
        }
    }
}

/// Law: a clone carries the same view as the stack it was made from, so
/// iterating the clone — wherever it was sent — yields the same sequence,
/// element for element, as iterating the original.
pub proof fn lemma_clone_iter<T>(s: ImmutableStack<T>, c: ImmutableStack<T>)
    requires
        c@ == s@,
    ensures
        c@.len() == s@.len(),
        forall|i: int| 0 <= i < s@.len() ==> c@[i] == s@[i],
{
}

/// For any stack `s` and element `x`, the elements of `s.push(x)` are `x`
/// followed by the elements of `s`.
pub proof fn lemma_push_view<T>(s: ImmutableStack<T>, r: ImmutableStack<T>, x: T)
    requires
        r@ == seq![x] + s@,
    ensures
        r@.len() == s@.len() + 1,
        r@[0] == x,
        forall|i: int| 0 <= i < s@.len() ==> r@[i + 1] == s@[i],
{
}

} // verus!
