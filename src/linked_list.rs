//! A singly linked list with O(1) insertion and removal at the front.
use vstd::prelude::*;

verus! {

/// One cell of a [`LinkedList`].
pub struct Node<T> {
    pub value: T,
    pub next: Option<Box<Node<T>>>,
}

/// The values held from `link` onwards, front first.
pub open spec fn link_view<T>(link: Option<Box<Node<T>>>) -> Seq<T>
    decreases link,
{
    match link {
        None => Seq::empty(),
        Some(node) => seq![node.value].add(link_view(node.next)),
    }
}

impl<T> Node<T> {
    pub fn new(value: T, next: Option<Box<Node<T>>>) -> (r: Node<T>)
        ensures
            r.value == value,
            r.next == next,
    {
        Node { value: value, next: next }
    }
}

/// A singly linked list that keeps its length.
pub struct LinkedList<T> {
    head: Option<Box<Node<T>>>,
    size: usize,
}

impl<T> View for LinkedList<T> {
    type V = Seq<T>;

    closed spec fn view(&self) -> Seq<T> {
        link_view(self.head)
    }
}

impl<T> LinkedList<T> {
    /// The stored length agrees with the number of nodes.
    pub closed spec fn wf(&self) -> bool {
        self.size as nat == self@.len()
    }

    pub fn new() -> (r: LinkedList<T>)
        ensures
            r.wf(),
            r@ == Seq::<T>::empty(),
    {
        LinkedList { head: None, size: 0 }
    }

    pub fn get_size(&self) -> (r: usize)
        requires
            self.wf(),
        ensures
            r as nat == self@.len(),
    {
        self.size
    }

    pub fn is_empty(&self) -> (r: bool)
        requires
            self.wf(),
        ensures
            r == (self@.len() == 0),
    {
        self.get_size() == 0
    }

    pub fn push_front(&mut self, value: T)
        requires
            old(self).wf(),
            old(self)@.len() < usize::MAX,
        ensures
            final(self).wf(),
            final(self)@ == seq![value].add(old(self)@),
    {
        let rest = self.head.take();
        let new_node: Box<Node<T>> = Box::new(Node::new(value, rest));
        self.head = Some(new_node);
        self.size = self.size + 1;
    }

    pub fn pop_front(&mut self) -> (r: Option<T>)
        requires
            old(self).wf(),
        ensures
            final(self).wf(),
            old(self)@.len() == 0 ==> r.is_none() && final(self)@ == old(self)@,
            old(self)@.len() > 0 ==> r == Some(old(self)@[0]) && final(self)@ == old(self)@.drop_first(),
    {
        match self.head.take() {
            None => None,
            Some(node) => {
                let node = *node;
                assert(link_view(node.next) == old(self)@.drop_first());
                self.head = node.next;
                self.size = self.size - 1;
                Some(node.value)
            },
        }
    }
}

impl<T> LinkedList<T> {
    /// An iterator that hands out the values, front first, by value.
    pub fn into_iter(self) -> (r: LinkedListIterator<T>)
        ensures
            r@ == self@,
    {
        LinkedListIterator { current: self.head }
    }

    /// An iterator over references to the values, front first.
    pub fn iter<'a>(&'a self) -> (r: LinkedListIter<'a, T>)
        ensures
            r@ == self@,
    {
        LinkedListIter { current: &self.head }
    }
}

/// Hands out the values of a list that it owns, front first.
pub struct LinkedListIterator<T> {
    current: Option<Box<Node<T>>>,
}

impl<T> View for LinkedListIterator<T> {
    type V = Seq<T>;

    /// The values not handed out yet.
    closed spec fn view(&self) -> Seq<T> {
        link_view(self.current)
    }
}

impl<T> LinkedListIterator<T> {
    pub fn next(&mut self) -> (r: Option<T>)
        ensures
            old(self)@.len() == 0 ==> r.is_none() && final(self)@ == old(self)@,
            old(self)@.len() > 0 ==> r == Some(old(self)@[0]) && final(self)@ == old(self)@.drop_first(),
    {
        match self.current.take() {
            None => None,
            Some(node) => {
                let node = *node;
                assert(link_view(node.next) == old(self)@.drop_first());
                self.current = node.next;
                Some(node.value)
            },
        }
    }
}

/// Walks a borrowed list, front first.
pub struct LinkedListIter<'a, T> {
    current: &'a Option<Box<Node<T>>>,
}

impl<'a, T> View for LinkedListIter<'a, T> {
    type V = Seq<T>;

    /// The values not visited yet.
    closed spec fn view(&self) -> Seq<T> {
        link_view(*self.current)
    }
}

impl<'a, T> LinkedListIter<'a, T> {
    pub fn next(&mut self) -> (r: Option<&'a T>)
        ensures
            old(self)@.len() == 0 ==> r.is_none() && final(self)@ == old(self)@,
            old(self)@.len() > 0 ==> (r matches Some(v) && *v == old(self)@[0] && final(self)@ == old(self)@.drop_first()),
    {
        match self.current {
            None => None,
            Some(node) => {
                assert(link_view(node.next) == old(self)@.drop_first());
                self.current = &node.next;
                Some(&node.value)
            },
        }
    }
}

} // verus!
